use rine::api_record::RawImport;
use rine::manager::{
    accept_runtime, capsule_dir, capsule_toml, check_capsule_name, inspect_parsed, is_risky_drive_target, load_summary,
    machine_name, parse_version_output, preflight_from, runtime_candidates, subsystem_name, Appearance, CapsuleParse,
    CmdError, CreateCapsule, LogLevel, ParsedImage, PreflightVerdict, RunPayload, Settings,
};
use rine::manager_error::ManagerError;
use rine::registry::{data_dir, AppEntry, AppRegistry, AppStatus, LastRun};
use rine::run::{finished_report, run_argv, run_workdir, timeout_report, RunRequest, RunStatus};

#[test]
fn risky_targets_flagged() {
    assert!(is_risky_drive_target("/", Some("/home/u")));
    assert!(!is_risky_drive_target("/home/u/Rine/capsules/game/drive_c", Some("/home/u")));
    assert!(is_risky_drive_target("  /home/u ", Some("/home/u")));
    assert!(is_risky_drive_target("$HOME", Some("/home/u")));
    assert!(!is_risky_drive_target("$HOME", None));
}

#[test]
fn add_list_remove_roundtrip() {
    let mut reg = AppRegistry::empty("/data/registry.json".into());
    let e = reg.add("/apps/app.exe".into(), None, true, Some("app".into()), 1700000000, 42).unwrap();
    assert_eq!(e.id, "1700000000-42-1");
    assert_eq!(reg.list().len(), 1);
    assert_eq!(reg.get(&e.id).unwrap().name, "app");
    let e2 = reg.add("/apps/b.exe".into(), Some("Bee".into()), true, Some("b".into()), 1700000001, 42).unwrap();
    assert_eq!(e2.id, "1700000001-42-2");
    assert!(reg.add("/apps/dir".into(), None, false, None, 0, 0).is_err());
    let removed = reg.remove(&e.id).unwrap();
    assert_eq!(removed.exe_path, "/apps/app.exe");
    assert_eq!(reg.list().len(), 1);
    assert!(matches!(reg.remove("nope"), Err(ManagerError::InvalidRegistry(m)) if m == "app nope desconhecido"));
}

#[test]
fn schema_mismatch_is_explicit() {
    assert!(matches!(
        AppRegistry::from_file("/r.json".into(), 99, vec![]),
        Err(ManagerError::InvalidRegistry(m)) if m == "schema 99 (esperado 1)"
    ));
    assert!(AppRegistry::from_file("/r.json".into(), 1, vec![]).is_ok());
}

#[test]
fn capsule_and_run_records_drive_status() {
    let mut reg = AppRegistry::empty("/r.json".into());
    let e = reg.add("/a.exe".into(), None, true, None, 5, 1).unwrap();
    assert_eq!(e.name, "app");
    reg.set_capsule(&e.id, Some("/caps/game/capsule.toml".into())).unwrap();
    assert_eq!(reg.get(&e.id).unwrap().capsule_path.as_deref(), Some("/caps/game/capsule.toml"));
    assert_eq!(AppRegistry::status_of(reg.get(&e.id).unwrap(), false), AppStatus::Unknown);
    let rep = finished_report("ok", "", Some(0), true, 10, "0.1.0");
    reg.record_run(&e.id, &rep, 99).unwrap();
    let entry: &AppEntry = reg.get(&e.id).unwrap();
    assert_eq!(entry.last_run, Some(LastRun { at_unix: 99, status: RunStatus::Exited, exit_code: Some(0) }));
    assert_eq!(AppRegistry::status_of(entry, false), AppStatus::Working);
    assert_eq!(AppRegistry::status_of(entry, true), AppStatus::ImportBlocked);
    assert!(reg.set_capsule("zzz", None).is_err());
    assert_eq!(AppRegistry::default_path("/d"), "/d/registry.json");
}

#[test]
fn data_dir_and_settings() {
    assert_eq!(data_dir(Some("/xdg"), Some("/home/u")), "/xdg/rine-manager");
    assert_eq!(data_dir(None, Some("/home/u")), "/home/u/.local/share/rine-manager");
    assert_eq!(data_dir(None, None), "/tmp/.local/share/rine-manager");
    let s = Settings::defaults(Some("/home/u"));
    assert_eq!(s.appearance, Appearance::Dark);
    assert_eq!(s.log_level, LogLevel::Info);
    assert_eq!(s.default_capsule_dir, "/home/u/Rine/capsules");
    assert!(!s.developer_mode && s.confirm_destructive && s.retain_runs == 50);
    assert_eq!(Settings::default_path("/d"), "/d/settings.json");
    let mut bad = Settings::defaults(None);
    bad.schema = 7;
    assert!(matches!(bad.check_loaded(), Err(ManagerError::InvalidRegistry(m)) if m == "settings schema 7 (esperado 1)"));
}

#[test]
fn capsule_text_and_summary() {
    let req = CreateCapsule {
        name: "game".into(),
        parent_dir: "/caps".into(),
        drives: vec![('c', "/caps/game/drive_c".into())],
        current_dir: Some("C:\\".into()),
    };
    assert!(check_capsule_name(&req).is_ok());
    assert_eq!(capsule_dir(&req), "/caps/game");
    let t = capsule_toml(&req, "/caps/game").unwrap();
    assert_eq!(
        t,
        "[app]\nname = \"game\"\nwindows_version = [10, 0]\narch = \"x86_64\"\ncurrent_dir = \"C:\\\"\n[drives]\nC = \"/caps/game/drive_c\"\n"
    );
    let bad = CreateCapsule { name: " ".into(), parent_dir: "/caps".into(), drives: vec![], current_dir: None };
    assert!(check_capsule_name(&bad).is_err());
    let bad_letter = CreateCapsule { name: "g".into(), parent_dir: "/c".into(), drives: vec![('1', "/x".into())], current_dir: None };
    assert!(matches!(capsule_toml(&bad_letter, "/c/g"), Err(ManagerError::InvalidCapsule { reason, .. }) if reason == "letra de drive inválida: 1"));
    let ok = load_summary("/c/g/capsule.toml", Ok(CapsuleParse { app_name: "g".into(), windows_version: (10, 0), drives: vec!['D', 'C'] }), Some("g".into()));
    assert!(ok.valid);
    assert_eq!(ok.drives, vec!['C', 'D']);
    let err = load_summary("/c/g/capsule.toml", Err("broken".into()), Some("g".into()));
    assert!(!err.valid && err.name == "g" && err.error.as_deref() == Some("broken"));
}

#[test]
fn runtime_detection_pieces() {
    let c = runtime_candidates(Some("/opt/rine"), Some("/opt/rine"), Some("/m/bin"), Some("/m"));
    assert_eq!(c, vec!["/opt/rine", "/m/bin/rine", "/m/target/debug/rine", "/m/bin/target/debug/rine", "rine"]);
    assert_eq!(runtime_candidates(Some(""), None, None, None), vec!["rine"]);
    assert_eq!(parse_version_output("rine 0.2.0\nmore"), Some("0.2.0".to_string()));
    assert_eq!(parse_version_output("  rine 1.0  \n"), Some("1.0".to_string()));
    assert_eq!(parse_version_output("wine 1.0"), None);
    assert_eq!(parse_version_output("rine "), None);
    assert!(accept_runtime("/b", "1.0", "1.0").is_ok());
    assert!(matches!(accept_runtime("/b", "0.9", "1.0"), Err(ManagerError::ProtocolMismatch { .. })));
}

fn raw(dll: &str, name: Option<&str>, ord: Option<u16>) -> RawImport {
    RawImport { dll: dll.into(), name: name.map(|s| s.to_string()), ordinal: ord }
}

#[test]
fn unknown_import_blocks_with_list() {
    let syms = vec![raw("KERNEL32.dll", Some("FindFirstFileW"), None)];
    let rep = preflight_from(&syms, vec![("KERNEL32.dll".to_string(), "FindFirstFileW".to_string())]);
    assert_eq!(rep.verdict, PreflightVerdict::LikelyBlocked);
    assert_eq!(rep.missing, vec![("KERNEL32.dll".to_string(), "FindFirstFileW".to_string())]);
    assert_eq!((rep.total_imports, rep.supported), (1, 0));
}

#[test]
fn preflight_counts_unique_and_sorts_kernel32_first() {
    let syms = vec![
        raw("USER32.dll", Some("MessageBoxA"), None),
        raw("KERNEL32.dll", Some("Sleep"), None),
        raw("KERNEL32.dll", Some("Sleep"), None),
        raw("KERNEL32.dll", None, Some(5)),
    ];
    let missing = vec![
        ("USER32.dll".to_string(), "MessageBoxA".to_string()),
        ("kernel32.dll".to_string(), "Zed".to_string()),
        ("ADVAPI32.dll".to_string(), "RegOpenKeyA".to_string()),
    ];
    let rep = preflight_from(&syms, missing);
    assert_eq!(rep.total_imports, 3);
    assert_eq!(rep.supported, 0);
    assert_eq!(
        rep.missing,
        vec![
            ("kernel32.dll".to_string(), "Zed".to_string()),
            ("ADVAPI32.dll".to_string(), "RegOpenKeyA".to_string()),
            ("USER32.dll".to_string(), "MessageBoxA".to_string()),
        ]
    );
    let ok = preflight_from(&syms, vec![]);
    assert_eq!(ok.verdict, PreflightVerdict::ImportSurfaceSatisfied);
    assert_eq!(ok.supported, 3);
}

#[test]
fn inspect_dedups_and_refuses_other_machines() {
    let img = ParsedImage {
        machine: 0x8664,
        subsystem: 3,
        entry_point_rva: 0x1000,
        image_base: 0x1_4000_0000,
        imports: vec![raw("KERNEL32.dll", Some("A"), None), raw("KERNEL32.dll", Some("A"), None), raw("msvcrt.dll", Some("B"), None)],
    };
    let r = inspect_parsed(&img, "x.exe".into(), 10).unwrap();
    assert_eq!(r.imports.len(), 2);
    assert_eq!(r.dll_dependencies, vec!["KERNEL32.dll".to_string(), "msvcrt.dll".to_string()]);
    assert_eq!(machine_name(r.machine), "x86_64");
    assert_eq!(subsystem_name(3), "Windows CUI");
    assert_eq!(subsystem_name(9), "desconhecido");
    let arm = ParsedImage { machine: 0xaa64, subsystem: 2, entry_point_rva: 0, image_base: 0, imports: vec![] };
    assert!(matches!(inspect_parsed(&arm, "a.exe".into(), 1), Err(ManagerError::UnsupportedPe(m)) if m == "machine 43620 (ARM64 (não suportado)) — só x86_64"));
}

#[test]
fn run_pieces() {
    let req = RunRequest {
        rine_bin: "/bin/rine".into(),
        exe: "/g/a.exe".into(),
        capsule: Some("/c/capsule.toml".into()),
        args: vec!["-x".into(), "y z".into()],
        workdir: None,
        env_extra: vec![],
        timeout_ms: 0,
    };
    assert_eq!(run_argv(&req), vec!["--capsule", "/c/capsule.toml", "/g/a.exe", "-x", "y z"]);
    assert_eq!(run_workdir(&req, Some("/g")), "/g");
    assert_eq!(run_workdir(&req, None), ".");
    let blocked = finished_report("", "RINE-DEMAND\n  KERNEL32.dll!Foo\n", Some(1), false, 5, "v");
    assert_eq!(blocked.status, RunStatus::Blocked);
    assert_eq!(blocked.missing, vec![("KERNEL32.dll".to_string(), "Foo".to_string())]);
    let exited = finished_report("", "RINE-DEMAND\n  KERNEL32.dll!Foo\n", Some(0), true, 5, "v");
    assert_eq!(exited.status, RunStatus::Exited);
    let t = timeout_report("/g/a.exe", 250, 300, "v");
    assert_eq!(t.status, RunStatus::Crashed);
    let c = t.crash.unwrap();
    assert_eq!(c.reason, "timeout (250 ms)");
    assert_eq!(c.phase, "enter");
    let e = CmdError::from_error(ManagerError::ImportBlocked { missing: 2 });
    assert_eq!(e.code, "IMPORT_BLOCKED");
    assert_eq!(e.message, "bloqueado por imports (2 em falta)");
    let p = RunPayload { exe: "/a.exe".into(), capsule: None, args: vec![], workdir: None, env_extra: vec![], timeout_ms: 7 };
    let r = rine::manager::to_request("/bin/rine".into(), p);
    assert_eq!((r.rine_bin.as_str(), r.exe.as_str(), r.timeout_ms), ("/bin/rine", "/a.exe", 7));
}
