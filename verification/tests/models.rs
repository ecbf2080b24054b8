use rine::campaign::{classify_path, fileops_coverage, protect_from_idx, run_handles_once, states_eq};
use rine::compare::Verdict;
use rine::file_model::{FileExpect, FileModel, RawOp, GENERIC_READ, GENERIC_WRITE};
use rine::models::{HandleModel, HandleOp, MemOp, MemoryModel, RegionState, Reject};
use rine::nt_file::DriveMap;

fn sandbox(dir: &str) -> DriveMap {
    DriveMap::new(vec![('C', dir.to_string())], None)
}

#[test]
fn file_model_lifecycle() {
    let fsys = sandbox("/tmp/rine-model");
    let mut m = FileModel::new(&fsys, &[]);
    let ops = vec![
        RawOp::Create { path: "C:\\a.txt".into(), access: GENERIC_WRITE, disp: 2 },
        RawOp::Write { len: 11 },
        RawOp::Close,
        RawOp::Create { path: "C:\\a.txt".into(), access: GENERIC_READ, disp: 3 },
        RawOp::Read { len: 32 },
        RawOp::Close,
    ];
    let e = m.simulate(&fsys, &ops);
    assert!(e[0].valid);
    assert_eq!(e[1], FileExpect::count_ok(true, 11, false));
    assert!(e[2].ok);
    assert!(e[3].valid);
    assert_eq!(e[4], FileExpect::count_ok(true, 11, true));
    assert!(e[5].ok);
    let key = fsys.translate("C:\\a.txt").unwrap();
    let snap = m.files_snapshot();
    assert_eq!(snap, vec![(key, b"Hello File\n".to_vec())]);
}

#[test]
fn file_model_nested_and_trailing_fail() {
    let fsys = sandbox("/tmp/rine-model-n");
    let mut m = FileModel::new(&fsys, &[]);
    let e = m.simulate(
        &fsys,
        &[
            RawOp::Create { path: "C:\\d1\\d2\\f.txt".into(), access: GENERIC_WRITE, disp: 2 },
            RawOp::Create { path: "C:\\t.txt\\".into(), access: GENERIC_WRITE, disp: 2 },
        ],
    );
    assert!(!e[0].valid && !e[1].valid);
}

#[test]
fn failed_create_clears_handle() {
    let fsys = sandbox("/tmp/rine-model-c");
    let mut m = FileModel::new(&fsys, &[]);
    let e = m.simulate(
        &fsys,
        &[
            RawOp::Create { path: "C:\\a.txt".into(), access: GENERIC_WRITE, disp: 2 },
            RawOp::Create { path: "Z:\\x".into(), access: GENERIC_WRITE, disp: 2 },
            RawOp::Write { len: 1 },
        ],
    );
    assert!(e[0].valid);
    assert!(!e[1].valid);
    assert_eq!(e[2], FileExpect::count_ok(false, 0, false));
}

#[test]
fn file_model_rejects() {
    let fsys = DriveMap::empty();
    let mut m = FileModel::new(&fsys, &[]);
    let e = m.simulate(&fsys, &[RawOp::Write { len: 1 }, RawOp::Read { len: 1 }, RawOp::Close]);
    assert_eq!(e[0], FileExpect::count_ok(false, 0, false));
    assert_eq!(e[1], FileExpect::count_ok(false, 0, false));
    assert!(!e[2].ok);
    let e = m.simulate(
        &fsys,
        &[
            RawOp::Create { path: "Z:\\x".into(), access: GENERIC_READ, disp: 3 },
            RawOp::Create { path: "a".into(), access: GENERIC_READ, disp: 9 },
        ],
    );
    assert!(!e[0].valid && !e[1].valid);
}

#[test]
fn setup_files_and_ancestors_exist() {
    let fsys = sandbox("/cap");
    let setup = vec![("C:\\d1\\x.txt".to_string(), b"Hello File\n".to_vec())];
    let mut m = FileModel::new(&fsys, &setup);
    let e = m.simulate(
        &fsys,
        &[
            RawOp::Create { path: "C:\\d1\\new.txt".into(), access: GENERIC_WRITE, disp: 1 },
            RawOp::Create { path: "C:\\d1\\x.txt".into(), access: 0, disp: 3 },
            RawOp::Read { len: 4 },
            RawOp::Create { path: "C:\\d1\\x.txt".into(), access: GENERIC_READ, disp: 1 },
        ],
    );
    assert!(e[0].valid);
    assert!(e[1].valid);
    assert_eq!(e[2], FileExpect::count_ok(true, 4, true));
    assert!(!e[3].valid);
    let snap = m.files_snapshot();
    assert_eq!(snap.len(), 2);
    assert_eq!(snap[0].0, "/cap/d1/new.txt");
    assert_eq!(snap[1].0, "/cap/d1/x.txt");
    assert!(snap[0].1.is_empty());
}

#[test]
fn truncate_needs_write_access() {
    let fsys = sandbox("/cap");
    let setup = vec![("C:\\t.txt".to_string(), b"abc".to_vec())];
    let mut m = FileModel::new(&fsys, &setup);
    let e = m.simulate(
        &fsys,
        &[
            RawOp::Create { path: "C:\\t.txt".into(), access: GENERIC_READ, disp: 5 },
            RawOp::Create { path: "C:\\t.txt".into(), access: GENERIC_WRITE, disp: 5 },
        ],
    );
    assert!(!e[0].valid);
    assert!(e[1].valid);
    assert_eq!(m.files_snapshot(), vec![("/cap/t.txt".to_string(), Vec::new())]);
}

#[test]
fn oversized_read_is_refused_by_checked_simulation() {
    let fsys = sandbox("/cap");
    let mut m = FileModel::new(&fsys, &[]);
    let ops = vec![
        RawOp::Create { path: "C:\\a.txt".into(), access: GENERIC_WRITE | GENERIC_READ, disp: 2 },
        RawOp::Write { len: 11 },
        RawOp::Write { len: 11 },
        RawOp::Close,
        RawOp::Create { path: "C:\\a.txt".into(), access: GENERIC_READ, disp: 3 },
        RawOp::Read { len: 32 },
    ];
    assert!(m.simulate_checked(&fsys, &ops).is_none());
    let mut m2 = FileModel::new(&fsys, &[]);
    let short = &ops[..5];
    let e = m2.simulate_checked(&fsys, short).unwrap();
    assert_eq!(e[1], FileExpect::count_ok(true, 11, false));
    assert_eq!(e[2], FileExpect::count_ok(true, 11, false));
}

#[test]
fn handle_model_stale() {
    let mut m = HandleModel::default();
    assert_eq!(m.step(&HandleOp::Insert), Ok(Some(0)));
    assert!(m.step(&HandleOp::Lookup { id: 0 }).is_ok());
    assert!(m.step(&HandleOp::Close { id: 0 }).is_ok());
    assert!(m.step(&HandleOp::Lookup { id: 0 }).is_err());
    assert!(m.step(&HandleOp::Close { id: 0 }).is_err());
    assert!(m.step(&HandleOp::Lookup { id: 9 }).is_err());
}

#[test]
fn handle_model_numbers_inserts() {
    let mut m = HandleModel::default();
    assert_eq!(m.step(&HandleOp::Insert), Ok(Some(0)));
    assert_eq!(m.step(&HandleOp::Insert), Ok(Some(1)));
    assert_eq!(m.step(&HandleOp::Close { id: 1 }), Ok(None));
    assert_eq!(m.step(&HandleOp::Close { id: 1 }), Err(Reject));
    assert_eq!(m.step(&HandleOp::Lookup { id: 0 }), Ok(None));
}

#[test]
fn memory_model_lifecycle() {
    let mut m = MemoryModel::default();
    assert!(m.step(&MemOp::Reserve { id: 0, size: 5000, protect: 2 }).is_ok());
    assert!(m.step(&MemOp::Protect { id: 0, protect: 1 }).is_err());
    assert!(m.step(&MemOp::Commit { id: 0, protect: 2 }).is_ok());
    assert!(m.step(&MemOp::Protect { id: 0, protect: 1 }).is_ok());
    assert!(m.step(&MemOp::Commit { id: 0, protect: 2 }).is_err());
    assert!(m.step(&MemOp::Release { id: 0 }).is_ok());
    assert!(m.step(&MemOp::Release { id: 0 }).is_err());
    assert!(m.step(&MemOp::Reserve { id: 0, size: 0, protect: 2 }).is_err());
    assert!(m.step(&MemOp::Reserve { id: 1, size: 99, protect: 9 }).is_err());
    assert_eq!(m.live_count(), 0);
}

#[test]
fn memory_model_rounds_to_pages_and_tracks_protections() {
    let mut m = MemoryModel::default();
    assert!(m.step(&MemOp::Reserve { id: 3, size: 5000, protect: 2 }).is_ok());
    assert_eq!(m.query_desc(3), Some((8192, RegionState::Reserved, 0x04, 0x04)));
    assert!(m.step(&MemOp::Commit { id: 3, protect: 5 }).is_ok());
    assert_eq!(m.query_desc(3), Some((8192, RegionState::Committed, 0x40, 0x04)));
    assert!(m.step(&MemOp::Query { id: 3, offset: 7 }).is_ok());
    assert!(m.step(&MemOp::Query { id: 4, offset: 0 }).is_err());
    assert_eq!(m.query_desc(4), None);
    assert_eq!(m.live_count(), 1);
}

#[test]
fn handles_case_always_matches_the_model() {
    let ops = vec![
        HandleOp::Insert,
        HandleOp::Lookup { id: 0 },
        HandleOp::Close { id: 0 },
        HandleOp::Insert,
        HandleOp::Lookup { id: 0 },
        HandleOp::Lookup { id: 1 },
        HandleOp::Close { id: 7 },
        HandleOp::Close { id: 0 },
    ];
    let (v, detail, cov) = run_handles_once(0, 1, &ops);
    assert_eq!(v, Verdict::Match);
    assert!(detail.is_empty());
    assert_eq!(cov.len(), ops.len());
    assert_eq!(cov[0], ("op".to_string(), "insert".to_string()));
    assert_eq!(cov[1], ("op".to_string(), "lookup".to_string()));
    assert_eq!(cov[2], ("op".to_string(), "close".to_string()));
}

#[test]
fn fileops_coverage_labels_each_operation() {
    assert_eq!(classify_path("Z:\\a.txt"), "drive-missing");
    assert_eq!(classify_path("\\\\srv\\x"), "unc");
    assert_eq!(classify_path("C:\\dir\\"), "trailing");
    assert_eq!(classify_path("C:\\ação.txt"), "unicode");
    assert_eq!(classify_path("C:\\d1\\f.txt"), "nested");
    assert_eq!(classify_path("C:\\f.txt"), "missing");
    assert_eq!(classify_path("f.txt"), "relative");
    let ops = vec![
        RawOp::Create { path: "f.txt".into(), access: 0xC000_0000, disp: 4 },
        RawOp::Write { len: 3 },
        RawOp::Read { len: 3 },
        RawOp::Close,
        RawOp::Create { path: "g".into(), access: 7, disp: 9 },
    ];
    let cov = fileops_coverage(&ops);
    let got: Vec<(&str, &str)> = cov.iter().map(|(a, b)| (a.as_str(), b.as_str())).collect();
    assert_eq!(
        got,
        vec![
            ("path_class", "relative"),
            ("access", "rw"),
            ("disposition", "open-always"),
            ("op", "write"),
            ("op", "read"),
            ("op", "close"),
            ("path_class", "relative"),
            ("access", "other"),
            ("disposition", "bad"),
        ]
    );
    assert_eq!(protect_from_idx(0).0, 0x01);
    assert_eq!(protect_from_idx(5).0, 0x40);
    assert_eq!(protect_from_idx(6).0, 0x04);
    assert!(states_eq(rine::nt_memory::RegionState::Reserved, rine::models::RegionState::Reserved));
    assert!(!states_eq(rine::nt_memory::RegionState::Committed, rine::models::RegionState::Reserved));
}

#[test]
fn model_files_are_named_relative_to_the_case_dir() {
    let fsys = DriveMap::new(vec![('C', "/tmp/rine-case".to_string())], None);
    let setup = vec![("C:\\ex_3.txt".to_string(), b"Hello File\n".to_vec())];
    let m = FileModel::new(&fsys, &setup);
    let files = rine::campaign::model_files_for_compare(&m, "/tmp/rine-case");
    assert_eq!(files, vec![("ex_3.txt".to_string(), b"Hello File\n".to_vec())]);
    assert!(rine::campaign::model_files_for_compare(&m, "/elsewhere").is_empty());
}

#[test]
fn fileops_setup_is_deterministic() {
    let mut seen_file = false;
    let mut seen_none = false;
    for seed in 0..32u64 {
        let mut a = rine::rng::Rng::new(seed);
        let mut b = rine::rng::Rng::new(seed);
        let sa = rine::gen::gen_setup(&mut a, 7);
        assert_eq!(sa, rine::gen::gen_setup(&mut b, 7));
        match sa.as_slice() {
            [] => seen_none = true,
            [(name, bytes)] => {
                assert_eq!(name, "C:\\ex_7.txt");
                assert_eq!(bytes.as_slice(), b"Hello File\n");
                seen_file = true;
            }
            _ => panic!("setup de mais de um arquivo"),
        }
    }
    assert!(seen_file && seen_none);
}

#[test]
fn simulate_steps_have_the_shape_of_their_op() {
    let fsys = sandbox("/tmp/rine-model-shape");
    let mut rng = rine::rng::Rng::new(5);
    for case in 0..20u64 {
        let ops = rine::gen::fileop_sequence(&mut rng, case, 30);
        let mut m = FileModel::new(&fsys, &[]);
        let e = match m.simulate_checked(&fsys, &ops) {
            Some(e) => e,
            None => continue,
        };
        assert_eq!(e.len(), ops.len());
        for (op, x) in ops.iter().zip(e.iter()) {
            match op {
                RawOp::Create { .. } => assert!(x.ok && x.count == 0 && !x.verify),
                RawOp::Write { len } => {
                    assert!(x.valid && !x.verify);
                    assert_eq!(x.count, if x.ok { (*len).min(11) } else { 0 });
                }
                RawOp::Read { len } => {
                    assert!(x.valid && x.count <= (*len).min(32));
                    if !x.ok {
                        assert!(x.count == 0 && !x.verify);
                    }
                    if x.verify {
                        assert!(x.count > 0);
                    }
                }
                RawOp::Close => assert!(x.valid && x.count == 0 && !x.verify),
            }
        }
    }
}
