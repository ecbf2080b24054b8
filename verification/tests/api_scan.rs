use rine::api_coverage::{
    behavior_tested, db_metadata, dll_json_name, provenance, report, ApiStatus, RineImpls,
};
use rine::api_record::{
    arch_name, forwarded_symbol_text, group_imports, is_api_set_name, pe_extension, ExportRec, ForwardedSymbol,
    ForwarderRec, ImportRec, ImportSym, PeRecord, RawImport, ScanError, ScanOutput, Skipped, SCHEMA,
};
use rine::symbols::exports;

fn record(filename: &str, exports: Vec<ExportRec>) -> PeRecord {
    PeRecord {
        schema: 1,
        filename: filename.into(),
        path: "x".into(),
        machine: 0x8664,
        arch: "x86_64".into(),
        pe32plus: true,
        image_base: 0,
        entry_rva: 0,
        subsystem: 0,
        dll_characteristics: 0,
        sections: vec![],
        imports: vec![],
        exports,
        is_api_set: false,
    }
}

fn export(name: Option<&str>, ordinal: u32) -> ExportRec {
    ExportRec { name: name.map(|s| s.to_string()), ordinal, rva: 2, forwarder: None }
}

#[test]
fn statuses_are_honest() {
    let rine = RineImpls { kernel32: exports().iter().map(|s| s.to_string()).collect(), ntdll: vec![] };
    assert!(rine.kernel32.contains(&"WriteFile".to_string()));
    let rep = report(
        &[record("kernel32.dll", vec![export(Some("WriteFile"), 1), export(Some("Nope"), 3)])],
        &rine,
        &behavior_tested(),
    );
    let w = rep.apis.iter().find(|a| a.name == "WriteFile").unwrap();
    assert_eq!(w.status, ApiStatus::BehaviorTested);
    let n = rep.apis.iter().find(|a| a.name == "Nope").unwrap();
    assert_eq!(n.status, ApiStatus::Missing);
    assert!(rep.totals.iter().any(|(k, _)| k == "Missing"));
    assert_eq!(rep.totals.iter().map(|(_, n)| n).sum::<usize>(), rep.apis.len());
}

#[test]
fn report_sorts_and_counts() {
    let rine = RineImpls { kernel32: vec!["B".into(), "A".into()], ntdll: vec!["Z".into()] };
    let mut fwd = export(None, 7);
    fwd.forwarder = Some(ForwarderRec { dll: "NTDLL".into(), symbol: "RtlX".into() });
    let rep = report(
        &[
            record("ntdll.dll", vec![export(Some("Z"), 1)]),
            record("KERNEL32.DLL", vec![export(Some("B"), 2), fwd, export(Some("A"), 3)]),
        ],
        &rine,
        &[],
    );
    let names: Vec<(&str, &str)> = rep.apis.iter().map(|a| (a.dll.as_str(), a.name.as_str())).collect();
    assert_eq!(names, vec![("KERNEL32.DLL", "#7"), ("KERNEL32.DLL", "A"), ("KERNEL32.DLL", "B"), ("ntdll.dll", "Z")]);
    assert_eq!(rep.apis[0].forwarder.as_deref(), Some("NTDLL!RtlX"));
    assert_eq!(rep.apis[0].status, ApiStatus::Missing);
    assert_eq!(rep.apis[1].status, ApiStatus::Implemented);
    assert!(rep.apis[1].evidence.is_empty());
    assert_eq!(rep.totals, vec![("Missing".to_string(), 1), ("Implemented".to_string(), 3)]);
    assert_eq!(rep.totals.iter().map(|(_, n)| n).sum::<usize>(), rep.apis.len());
    assert_eq!(rep.provenance, "rine-api-scan coverage (ver api-db/README.md)");
}

#[test]
fn record_helpers() {
    assert_eq!(arch_name(0x8664), "x86_64");
    assert_eq!(arch_name(0x14c), "i386");
    assert_eq!(arch_name(0xAA64), "arm64");
    assert_eq!(arch_name(0x1c4), "other(0x01C4)");
    assert!(is_api_set_name("api-ms-win-core-file-l1-1-0.dll"));
    assert!(is_api_set_name("ext-ms-win-foo.dll"));
    assert!(!is_api_set_name("kernel32.dll"));
    assert!(pe_extension("a.dll") && pe_extension("x.ax") && pe_extension("y.mui"));
    assert!(!pe_extension("a.txt") && !pe_extension("dll"));
    assert_eq!(forwarded_symbol_text(&ForwardedSymbol::Ordinal(12)), "#12");
    assert_eq!(forwarded_symbol_text(&ForwardedSymbol::Name("F".into())), "F");
    assert_eq!(ScanError::Io("x".into()).message(), "io: x");
    assert_eq!(ScanError::Parse("y".into()).message(), "parse: y");
    assert_eq!(SCHEMA, 1);
}

#[test]
fn imports_group_by_consecutive_dll() {
    let raw = vec![
        RawImport { dll: "A.dll".into(), name: Some("f".into()), ordinal: None },
        RawImport { dll: "A.dll".into(), name: None, ordinal: Some(3) },
        RawImport { dll: "B.dll".into(), name: Some("g".into()), ordinal: None },
        RawImport { dll: "A.dll".into(), name: Some("h".into()), ordinal: None },
    ];
    let g: Vec<ImportRec> = group_imports(&raw);
    assert_eq!(g.len(), 3);
    assert_eq!(g[0].dll, "A.dll");
    assert_eq!(g[0].symbols.len(), 2);
    assert_eq!(g[0].symbols[1].ordinal, Some(3));
    assert_eq!(g[1].dll, "B.dll");
    assert_eq!(g[2].symbols[0].name.as_deref(), Some("h"));
    let _ = ImportSym { name: None, ordinal: None };
}

#[test]
fn metadata_counts_and_names() {
    let mut r1 = record("kernel32.dll", vec![export(Some("A"), 1), export(None, 2)]);
    r1.exports[1].forwarder = Some(ForwarderRec { dll: "ntdll".into(), symbol: "X".into() });
    r1.imports = vec![ImportRec { dll: "ntdll.dll".into(), symbols: vec![ImportSym { name: None, ordinal: Some(1) }; 3] }];
    let mut r2 = record("api-ms-win-x.dll", vec![]);
    r2.is_api_set = true;
    let out = ScanOutput { records: vec![r1, r2], skipped: vec![Skipped { path: "p".into(), reason: "r".into() }] };
    let m = db_metadata(&out, provenance("ref", "0.1.0"));
    assert_eq!((m.dll_count, m.export_count, m.import_edge_count, m.forwarder_count, m.apiset_files, m.skipped_count), (2, 2, 3, 1, 1, 1));
    assert_eq!(m.provenance.generator, "rine-api-scan");
    assert_eq!(m.provenance.reference, "ref");
    assert_eq!(dll_json_name("kernel32.dll"), "KERNEL32.json");
    assert_eq!(dll_json_name("a.b.mui"), "A.B.json");
    assert_eq!(dll_json_name("noext"), "NOEXT.json");
}
