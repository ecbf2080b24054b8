use rine::shrink::{minimize, minimize_spent};
use std::cell::RefCell;

fn fails_if_contains_3_and_7(items: &[u32]) -> bool {
    items.contains(&3) && items.contains(&7)
}

#[test]
fn shrinks_to_minimal() {
    let big: Vec<u32> = (0..50).collect();
    let min = minimize(&big, &fails_if_contains_3_and_7, 10000);
    assert_eq!(min, vec![3, 7]);
}

#[test]
fn non_failing_returns_empty() {
    let v = vec![1, 2, 3];
    assert!(minimize(&v, &|_: &[u32]| false, 100).is_empty());
}

#[test]
fn single_culprit() {
    let v = vec![1, 2, 3, 4, 5];
    let min = minimize(&v, &|s: &[u32]| s.contains(&4), 100);
    assert_eq!(min, vec![4]);
}

#[test]
fn zero_budget_keeps_a_failing_input() {
    let v = vec![9u32, 4, 8];
    let min = minimize(&v, &|s: &[u32]| s.contains(&4), 0);
    assert!(min.contains(&4));
}

#[test]
fn spent_stays_within_budget_and_never_asks_about_empty() {
    let calls = RefCell::new(Vec::<usize>::new());
    let big: Vec<u32> = (0..50).collect();
    let (min, spent) = minimize_spent(
        &big,
        |s: &[u32]| {
            calls.borrow_mut().push(s.len());
            s.contains(&3) && s.contains(&7)
        },
        10000,
    );
    assert_eq!(min, vec![3, 7]);
    assert!(spent < 10000);
    assert!(spent <= 3 * 50 * 50 + 50);
    let calls = calls.into_inner();
    assert_eq!(calls[0], 50);
    assert!(calls.len() <= spent + 1);
    assert!(calls.iter().all(|&n| n > 0));
    // One-minimal: each single removal passes.
    assert!(!(min[1..].contains(&3) && min[1..].contains(&7)));
    assert!(!(min[..1].contains(&3) && min[..1].contains(&7)));
}

#[test]
fn tight_budget_still_returns_failing_subsequence() {
    let v: Vec<u32> = (0..20).collect();
    let (min, spent) = minimize_spent(&v, |s: &[u32]| s.contains(&5) && s.contains(&11), 3);
    assert_eq!(spent, 3);
    assert!(min.contains(&5) && min.contains(&11));
    assert!(min.windows(2).all(|w| w[0] < w[1]));
}

#[test]
fn passing_input_spends_nothing() {
    let (min, spent) = minimize_spent(&[1u32, 2, 3], |_: &[u32]| false, 100);
    assert!(min.is_empty());
    assert_eq!(spent, 0);
}
