use rine::compare::OracleResult;
use rine::normalize::{normalize, STDOUT_CAP};

fn sample() -> OracleResult {
    let text = format!("{}/x ok", tmp());
    OracleResult {
        exit_code: Some(0),
        stdout_bytes: text.len(),
        stdout_text: Some(text),
        stderr_text: None,
        stderr_bytes: 0,
        crash: None,
        timed_out: false,
        files_created: vec!["b.txt".into(), "a.txt".into()],
    }
}

fn tmp() -> String {
    "/tmp".to_string()
}

#[test]
fn normalizes_tmp_and_sorts() {
    let n = normalize(&sample(), &tmp(), "/tmp/xyz");
    assert!(n.stdout_text.unwrap().contains("<TMP>"));
    assert_eq!(n.files_created, vec!["a.txt".to_string(), "b.txt".to_string()]);
}

#[test]
fn idempotent() {
    let n1 = normalize(&sample(), &tmp(), "/tmp/xyz");
    let n2 = normalize(&n1, &tmp(), "/tmp/xyz");
    assert_eq!(n1.stdout_text, n2.stdout_text);
    assert_eq!(n1.stderr_text, n2.stderr_text);
    assert_eq!(n1.files_created, n2.files_created);
    assert_eq!((n1.stdout_bytes, n1.stderr_bytes), (n2.stdout_bytes, n2.stderr_bytes));
    assert_eq!(n1.exit_code, n2.exit_code);
}

#[test]
fn caps_huge_stdout() {
    let mut r = sample();
    r.stdout_text = Some("y".repeat(STDOUT_CAP + 10));
    let n = normalize(&r, &tmp(), "/x");
    let out = n.stdout_text.unwrap();
    assert!(out.ends_with("<TRUNCATED>"));
    assert_eq!(out.len(), STDOUT_CAP + "<TRUNCATED>".len());
    assert_eq!(n.stdout_bytes, out.len());
}

#[test]
fn sandbox_paths_in_files_and_stderr_are_replaced() {
    let mut r = sample();
    r.stderr_text = Some("erro em /sb/case_1/f.txt e /sb/case_1".into());
    r.files_created = vec!["/sb/case_1/z".into(), "/sb/case_1/a".into(), "m".into()];
    let n = normalize(&r, "", "/sb/case_1");
    assert_eq!(n.stderr_text.as_deref(), Some("erro em <TMP>/f.txt e <TMP>"));
    assert_eq!(n.files_created, vec!["<TMP>/a".to_string(), "<TMP>/z".to_string(), "m".to_string()]);
    assert_eq!(n.stderr_bytes, "erro em <TMP>/f.txt e <TMP>".len());
}

#[test]
fn multibyte_text_is_counted_in_bytes() {
    let mut r = sample();
    r.stdout_text = Some("ação".into());
    r.stdout_bytes = 0;
    let n = normalize(&r, "", "");
    assert_eq!(n.stdout_bytes, "ação".len());
    assert_eq!(n.stdout_text.as_deref(), Some("ação"));
}

#[test]
fn idempotent_on_truncated_text_and_names_with_both_dirs() {
    let mut r = sample();
    let big = format!("{}/a /sb/case_2/b {}", tmp(), "z".repeat(STDOUT_CAP));
    r.stdout_text = Some(big);
    r.stderr_text = Some("/sb/case_2/log /tmp/t".into());
    r.files_created = vec!["/sb/case_2/out.txt".into(), "/tmp/q".into()];
    let n1 = normalize(&r, &tmp(), "/sb/case_2");
    let n2 = normalize(&n1, &tmp(), "/sb/case_2");
    assert!(n1.stdout_text.as_ref().unwrap().ends_with("<TRUNCATED>"));
    assert_eq!(n1.stderr_text.as_deref(), Some("<TMP>/log <TMP>/t"));
    assert_eq!(n1.stdout_text, n2.stdout_text);
    assert_eq!(n1.stderr_text, n2.stderr_text);
    assert_eq!(n1.files_created, n2.files_created);
    assert_eq!(n1.stdout_bytes, n2.stdout_bytes);
}

#[test]
fn a_dir_the_marker_contains_breaks_idempotence() {
    // "MP" occurs inside "<TMP>", so a second pass rewrites the marker.
    let mut r = sample();
    r.stdout_text = Some("xMPx".into());
    r.files_created = vec![];
    let n1 = normalize(&r, "MP", "");
    let n2 = normalize(&n1, "MP", "");
    assert_eq!(n1.stdout_text.as_deref(), Some("x<TMP>x"));
    assert_eq!(n2.stdout_text.as_deref(), Some("x<T<TMP>>x"));
}
