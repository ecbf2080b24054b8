use rine::launcher::format_crash_report;
use rine::manager_error::{io_err, ManagerError};
use rine::run::{parse_crash, parse_demand, trunc, LOG_CAP};

#[test]
fn codes_are_stable() {
    assert_eq!(ManagerError::RuntimeNotFound("x".into()).code(), "RUNTIME_NOT_FOUND");
    assert_eq!(
        ManagerError::ProtocolMismatch { manager: "a".into(), runtime: "b".into() }.code(),
        "PROTOCOL_MISMATCH"
    );
}

#[test]
fn io_helper_carries_op() {
    let e = io_err("ler exe", std::io::Error::new(std::io::ErrorKind::NotFound, "x"));
    assert_eq!(e.code(), "IO");
    match e {
        ManagerError::Io { op, reason } => {
            assert_eq!(op, "ler exe");
            assert_eq!(reason, "x");
        }
        _ => panic!("not Io"),
    }
}

#[test]
fn messages_match_display_texts() {
    assert_eq!(ManagerError::ImportBlocked { missing: 3 }.message(), "bloqueado por imports (3 em falta)");
    assert_eq!(ManagerError::RuntimeFailed { code: -1 }.message(), "runtime saiu com código -1");
    assert_eq!(
        ManagerError::ProtocolMismatch { manager: "1".into(), runtime: "2".into() }.message(),
        "incompatibilidade de versão (manager 1, runtime 2)"
    );
}

#[test]
fn crash_shape_parses() {
    let err = "RINE-CRASH schema=1\ntimestamp: 1700000000\nversion: 0.2.0-alpha.2\n\
               executable: foo.exe\nphase: load\nreason: boom\nlocation: x.rs:1\n";
    let c = parse_crash(err).unwrap();
    assert_eq!(c.phase, "load");
    assert_eq!(c.reason, "boom");
    assert_eq!(c.timestamp, 1700000000);
    assert!(parse_crash("nada aqui").is_none());
}

#[test]
fn crash_after_log_lines_and_defaults() {
    let err = "INFO boot\nwarn: x\n  RINE-CRASH schema=1  \r\nversion: v\nexecutable: e\nphase: enter\nreason: r: with colon\ntimestamp: nope\n";
    let c = parse_crash(err).unwrap();
    assert_eq!(c.reason, "r: with colon");
    assert_eq!(c.location, "-");
    assert_eq!(c.timestamp, 0);
    assert!(parse_crash("RINE-CRASH schema=1\nversion: v\n").is_none());
    assert!(parse_crash("").is_none());
}

#[test]
fn demand_lines_parse() {
    let err = "rine: demanda total (2 imports sem implementação):\n  KERNEL32.dll!LoadLibraryA\n  NTDLL.dll!X\n";
    assert_eq!(
        parse_demand(err),
        vec![
            ("KERNEL32.dll".to_string(), "LoadLibraryA".to_string()),
            ("NTDLL.dll".to_string(), "X".to_string()),
        ]
    );
    assert!(parse_demand("  !x\n  a!\n bad!x\n").is_empty());
}

#[test]
fn trunc_caps_long_logs() {
    assert_eq!(trunc("abc"), "abc");
    let long = "y".repeat(LOG_CAP + 5);
    let t = trunc(&long);
    assert!(t.starts_with(&"y".repeat(LOG_CAP)));
    assert!(t.ends_with(&format!("…[truncado: {} bytes no total]", LOG_CAP + 5)));
}

#[test]
fn crash_report_shape() {
    let s = format_crash_report("0.2.0-alpha.1", "foo.exe", "load", "boom", Some("x.rs:1".into()), 1700000000);
    assert!(s.starts_with("RINE-CRASH schema=1\n"));
    assert!(s.contains("version: 0.2.0-alpha.1"));
    assert!(s.contains("executable: foo.exe"));
    assert!(s.contains("phase: load"));
    assert!(s.contains("reason: boom"));
}

#[test]
fn crash_report_roundtrips_through_parser() {
    let s = format_crash_report("0.3", "a.exe", "enter", "boom", None, 42);
    let c = parse_crash(&s).unwrap();
    assert_eq!(
        (c.version.as_str(), c.executable.as_str(), c.phase.as_str(), c.reason.as_str(), c.location.as_str(), c.timestamp),
        ("0.3", "a.exe", "enter", "boom", "-", 42)
    );
}

#[test]
fn crash_found_after_any_log_text() {
    let rec = "RINE-CRASH schema=1\nversion: v\nexecutable: e\nphase: p\nreason: r\n";
    let alone = rine::run::parse_crash(rec).expect("record");
    for pre in ["", "INFO a\nWARN b", "x\r\n\n  y  \n"] {
        let got = rine::run::parse_crash(&format!("{pre}\n{rec}")).expect("record after log text");
        assert_eq!(got.version, alone.version);
        assert_eq!(got.reason, alone.reason);
        assert_eq!(got.timestamp, alone.timestamp);
    }
}
