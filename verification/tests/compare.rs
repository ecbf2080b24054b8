use rine::campaign::fileops_verdict;
use rine::fuzz::ExecError;
use rine::compare::{files_detail, known_or_mismatch, text_contains, Expectation, KnownDifference, OracleResult, Verdict};

fn result_with(exit: Option<i32>, stdout: &str) -> OracleResult {
    OracleResult {
        exit_code: exit,
        stdout_text: Some(stdout.into()),
        stderr_text: None,
        stdout_bytes: stdout.len(),
        stderr_bytes: 0,
        crash: None,
        timed_out: false,
        files_created: vec![],
    }
}

fn expect(code: i32) -> Expectation {
    Expectation { exit_code: Some(code), stdout_contains: vec![], files: vec![] }
}

#[test]
fn match_and_mismatch() {
    assert_eq!(expect(0).check(&result_with(Some(0), ""), &[], &[], "s", "a"), Verdict::Match);
    assert_eq!(expect(0).check(&result_with(Some(1), ""), &[], &[], "s", "a"), Verdict::SemanticMismatch);
}

#[test]
fn timeout_crash_distinct() {
    let mut t = result_with(None, "");
    t.timed_out = true;
    assert_eq!(expect(0).check(&t, &[], &[], "s", "a"), Verdict::Timeout);
    let mut c = result_with(None, "");
    c.crash = Some("SIGSEGV".into());
    assert_eq!(expect(0).check(&c, &[], &[], "s", "a"), Verdict::Crash);
    let known = vec![KnownDifference {
        scenario_prefix: "s".into(),
        api: "*".into(),
        aspect: "*".into(),
        reason: "demo".into(),
    }];
    assert_eq!(expect(0).check(&result_with(Some(9), ""), &[], &known, "s-1", "a"), Verdict::KnownDifference);
    assert!(Verdict::Match.is_pass() && Verdict::KnownDifference.is_pass());
    assert!(!Verdict::SemanticMismatch.is_pass());
}

#[test]
fn stdout_files_and_extra_files() {
    let e = Expectation {
        exit_code: Some(0),
        stdout_contains: vec!["hello".into(), "world".into()],
        files: vec![("a.txt".into(), b"abc".to_vec())],
    };
    let r = result_with(Some(0), "hello big world");
    assert_eq!(e.check(&r, &[Some(b"abc".to_vec())], &[], "s", "a"), Verdict::Match);
    assert_eq!(e.check(&r, &[Some(b"abd".to_vec())], &[], "s", "a"), Verdict::SemanticMismatch);
    assert_eq!(e.check(&r, &[None], &[], "s", "a"), Verdict::SemanticMismatch);
    let r2 = result_with(Some(0), "hello only");
    assert_eq!(e.check(&r2, &[Some(b"abc".to_vec())], &[], "s", "a"), Verdict::SemanticMismatch);
    let mut r3 = result_with(Some(0), "hello world");
    r3.files_created = vec!["case.exe".into(), "a.txt".into(), "b.txt".into()];
    assert_eq!(e.check(&r3, &[Some(b"abc".to_vec())], &[], "s", "a"), Verdict::SemanticMismatch);
    let known = vec![KnownDifference {
        scenario_prefix: "*".into(),
        api: "a".into(),
        aspect: "extra-files".into(),
        reason: "documented".into(),
    }];
    assert_eq!(e.check(&r3, &[Some(b"abc".to_vec())], &known, "s", "a"), Verdict::KnownDifference);
}

#[test]
fn known_difference_matching() {
    let k = KnownDifference {
        scenario_prefix: "fileops-".into(),
        api: "CreateFileA".into(),
        aspect: "*".into(),
        reason: "r".into(),
    };
    assert!(k.matches("fileops-1234", "CreateFileA", "files"));
    assert!(!k.matches("handles-1", "CreateFileA", "files"));
    assert!(!k.matches("fileops-1", "ReadFile", "files"));
    assert_eq!(known_or_mismatch(&[k], "x", "y", "z"), Verdict::SemanticMismatch);
}

#[test]
fn substring_search() {
    let hay: Vec<char> = "abcabd".chars().collect();
    assert!(text_contains(&hay, &['a', 'b', 'd']));
    assert!(!text_contains(&hay, &['a', 'b', 'e']));
    assert!(text_contains(&hay, &[]));
    assert!(!text_contains(&['a'], &['a', 'b']));
}

#[test]
fn files_detail_names_the_first_divergence() {
    let e = Expectation {
        exit_code: Some(0),
        stdout_contains: vec![],
        files: vec![("a.txt".into(), b"hello".to_vec()), ("b.txt".into(), b"x".to_vec())],
    };
    let r = result_with(Some(0), "");
    assert_eq!(files_detail(&e, &r, &[Some(b"hello".to_vec()), Some(b"xyz".to_vec())]), "files:b.txt diverge (3B vs 1B)");
    assert_eq!(files_detail(&e, &r, &[None, Some(b"x".to_vec())]), "files:a.txt ausente");
    let mut extra = result_with(Some(0), "");
    extra.files_created = vec!["a.txt".into(), "log.bin".into(), "c.txt".into()];
    assert_eq!(files_detail(&e, &extra, &[Some(b"hello".to_vec()), Some(b"x".to_vec())]), "files:extra c.txt");
    assert_eq!(files_detail(&e, &r, &[Some(b"hello".to_vec()), Some(b"x".to_vec())]), "exit/stdout diverge");
}

#[test]
fn fileops_verdict_follows_the_guest() {
    let files = || vec![("a.txt".to_string(), b"ab".to_vec())];
    let err: Result<OracleResult, ExecError> = Err(ExecError::Io("sem disco".into()));
    assert_eq!(
        fileops_verdict(&err, "/tmp", "/sb", files(), &[None], "s", "CreateFileA"),
        (Verdict::InfrastructureFailure, "exec: io: sem disco".to_string())
    );
    let mut t = result_with(None, "");
    t.timed_out = true;
    assert_eq!(
        fileops_verdict(&Ok(t), "/tmp", "/sb", files(), &[None], "s", "a"),
        (Verdict::Timeout, "guest excedeu timeout".to_string())
    );
    let mut c = result_with(Some(0), "");
    c.crash = Some("av \"x\"".into());
    assert_eq!(
        fileops_verdict(&Ok(c), "/tmp", "/sb", files(), &[None], "s", "a"),
        (Verdict::Crash, "crash=Some(\"av \\\"x\\\"\")".to_string())
    );
    assert_eq!(
        fileops_verdict(&Ok(result_with(Some(12), "")), "/tmp", "/sb", files(), &[None], "s", "a"),
        (Verdict::SemanticMismatch, "guest exit 12".to_string())
    );
    assert_eq!(
        fileops_verdict(&Ok(result_with(None, "")), "/tmp", "/sb", files(), &[None], "s", "a"),
        (Verdict::RineFailure, "sem exit code nem crash".to_string())
    );
    assert_eq!(
        fileops_verdict(&Ok(result_with(Some(0), "")), "/tmp", "/sb", files(), &[Some(b"ab".to_vec())], "s", "a"),
        (Verdict::Match, String::new())
    );
    assert_eq!(
        fileops_verdict(&Ok(result_with(Some(0), "")), "/tmp", "/sb", files(), &[Some(b"a".to_vec())], "s", "a"),
        (Verdict::SemanticMismatch, "files:a.txt diverge (1B vs 2B)".to_string())
    );
}
