use rine::campaign::rine_version_text;
use rine::compare::Verdict;
use rine::report::{aggregate, coverage_cells, matrix_entry, merge_keep, render_human, top_mismatches, AggregateCfg, CaseRecord, TOP_LIMIT};

fn rec(v: Verdict, detail: &str) -> CaseRecord {
    CaseRecord { index: 0, scenario_id: "s".into(), api: "CreateFileA".into(), seed: 1, verdict: v, detail: detail.into() }
}

fn cfg() -> AggregateCfg {
    AggregateCfg {
        target: "fileops".into(),
        api: "CreateFileA".into(),
        seed: 1,
        workers: 2,
        rine_version: "v".into(),
    }
}

fn count_of(rep: &rine::report::CampaignReport, name: &str) -> Option<usize> {
    rep.per_verdict.iter().find(|(k, _)| k == name).map(|(_, n)| *n)
}

#[test]
fn aggregates_and_renders() {
    let records = vec![rec(Verdict::Match, ""), rec(Verdict::Match, ""), rec(Verdict::SemanticMismatch, "exit_code")];
    let rep = aggregate(&cfg(), &records, &[], 0);
    assert_eq!(count_of(&rep, "Match"), Some(2));
    assert_eq!(rep.top_mismatches.len(), 1);
    assert_eq!(rep.top_mismatches[0].count, 1);
    let h = render_human(&rep);
    assert!(h.contains("Cases: 3") && h.contains("SemanticMismatch: 1"));
}

#[test]
fn verdict_totals_count_every_record_once() {
    let records = vec![
        rec(Verdict::Crash, "a"),
        rec(Verdict::Timeout, ""),
        rec(Verdict::Crash, "b"),
        rec(Verdict::InfrastructureFailure, ""),
    ];
    let rep = aggregate(&cfg(), &records, &[], 77);
    assert_eq!(
        rep.per_verdict,
        vec![("Crash".to_string(), 2), ("Timeout".to_string(), 1), ("InfrastructureFailure".to_string(), 1)]
    );
    assert_eq!(rep.per_verdict.iter().map(|(_, n)| n).sum::<usize>(), rep.cases);
    assert_eq!(rep.generated_at_unix, 77);
    assert_eq!(rep.records.len(), 4);
    assert_eq!(rep.records[2].detail, "b");
    assert!(rep.top_mismatches.is_empty());
}

#[test]
fn render_lists_all_verdicts_and_mismatches() {
    let mut r = rec(Verdict::SemanticMismatch, "exit 3");
    r.scenario_id = "abc".into();
    let rep = aggregate(&cfg(), &[r], &[], 0);
    let h = render_human(&rep);
    assert_eq!(
        h,
        "API: CreateFileA\nCases: 1\nMatch: 0\nKnownDifference: 0\nSemanticMismatch: 1\nCrash: 0\nTimeout: 0\n\
OracleFailure: 0\nRineFailure: 0\nInfrastructureFailure: 0\n\nTop mismatches:\n- exit 3 (1×, ex. abc)\n"
    );
}

#[test]
fn top_mismatches_rank_by_count_then_detail_and_cap() {
    let mut records = Vec::new();
    for i in 0..12 {
        for _ in 0..=(i % 3) {
            let mut r = rec(Verdict::SemanticMismatch, &format!("d{i:02}"));
            r.scenario_id = format!("s{i}");
            records.push(r);
        }
    }
    records.push(rec(Verdict::Match, "d99"));
    let top = top_mismatches(&records);
    assert_eq!(top.len(), TOP_LIMIT);
    let details: Vec<&str> = top.iter().map(|t| t.detail.as_str()).collect();
    assert_eq!(details, vec!["d02", "d05", "d08", "d11", "d01", "d04", "d07", "d10", "d00", "d03"]);
    assert_eq!(top[0].count, 3);
    assert_eq!(top[0].example_scenario, "s2");
    assert_eq!(top[9].count, 1);
}

#[test]
fn same_detail_different_api_are_separate_groups() {
    let mut a = rec(Verdict::SemanticMismatch, "x");
    a.api = "A".into();
    a.scenario_id = "first".into();
    let mut b = rec(Verdict::SemanticMismatch, "x");
    b.api = "B".into();
    let mut a2 = a.clone();
    a2.scenario_id = "second".into();
    let top = top_mismatches(&[a, b, a2]);
    assert_eq!(top.len(), 2);
    assert_eq!((top[0].api.as_str(), top[0].count, top[0].example_scenario.as_str()), ("A", 2, "first"));
    assert_eq!((top[1].api.as_str(), top[1].count), ("B", 1));
}

#[test]
fn coverage_cells_are_counted_and_sorted() {
    let dims: Vec<(String, String)> = vec![
        ("op".into(), "write".into()),
        ("access".into(), "rw".into()),
        ("op".into(), "close".into()),
        ("op".into(), "write".into()),
    ];
    let cells = coverage_cells(&dims);
    let got: Vec<(&str, &str, u64)> = cells.iter().map(|c| (c.dimension.as_str(), c.value.as_str(), c.seen)).collect();
    assert_eq!(got, vec![("access", "rw", 1), ("op", "close", 1), ("op", "write", 2)]);
    assert!(coverage_cells(&[]).is_empty());
}

#[test]
fn matrix_merge_is_additive_and_replaces_own_entry() {
    let rep = aggregate(&cfg(), &[rec(Verdict::Match, ""), rec(Verdict::Crash, "c")], &[], 5);
    let e = matrix_entry(&rep);
    assert_eq!((e.scenarios, e.matches, e.crashes, e.mismatches, e.timeouts), (2, 1, 1, 0, 0));
    assert_eq!((e.api.as_str(), e.target.as_str(), e.generated_at_unix), ("CreateFileA", "fileops", 5));
    let keys: Vec<(Option<String>, Option<String>)> = vec![
        (Some("CreateFileA".into()), Some("fileops".into())),
        (Some("VirtualAlloc".into()), Some("memory".into())),
        (None, Some("fileops".into())),
        (Some("CreateFileA".into()), Some("handles".into())),
    ];
    assert_eq!(merge_keep(&keys, "CreateFileA", "fileops"), vec![1, 2, 3]);
    // After a first merge the list holds the kept entries plus the new one;
    // merging again keeps exactly the same others.
    let mut after: Vec<(Option<String>, Option<String>)> = vec![keys[1].clone(), keys[2].clone(), keys[3].clone()];
    after.push((Some("CreateFileA".into()), Some("fileops".into())));
    assert_eq!(merge_keep(&after, "CreateFileA", "fileops"), vec![0, 1, 2]);
    assert!(merge_keep(&[], "a", "b").is_empty());
}

#[test]
fn merge_matrix_is_additive() {
    let records = vec![rec(Verdict::Match, "")];
    let rep = aggregate(&cfg(), &records, &[], 1);
    // The matrix's campaign list as `(api, target)` keys, merged twice.
    let mut campaigns: Vec<(Option<String>, Option<String>)> = Vec::new();
    for _ in 0..2 {
        let kept = merge_keep(&campaigns, &rep.api, &rep.target);
        let entry = matrix_entry(&rep);
        let mut next: Vec<(Option<String>, Option<String>)> = kept.iter().map(|i| campaigns[*i].clone()).collect();
        next.push((Some(entry.api.clone()), Some(entry.target.clone())));
        campaigns = next;
    }
    assert_eq!(campaigns.len(), 1);
    assert_eq!(campaigns[0], (Some("CreateFileA".to_string()), Some("fileops".to_string())));
}

#[test]
fn runtime_version_text_is_trimmed_and_defaulted() {
    assert_eq!(rine_version_text(Some("rine 0.3.1\n")), "0.3.1");
    assert_eq!(rine_version_text(Some("  rine rine 2.0 ")), "2.0");
    assert_eq!(rine_version_text(Some("rine ")), "rine");
    assert_eq!(rine_version_text(Some("")), "unknown");
    assert_eq!(rine_version_text(None), "unknown");
    assert_eq!(rine_version_text(Some("v9")), "v9");
}
