use rine::fuzz::{case_dir, mutate, ExecError};
use rine::normalize::rules;

fn base() -> Vec<u8> {
    let mut b = b"MZ".to_vec();
    b.extend((0..254u32).map(|i| (i * 7 % 251) as u8));
    b
}

#[test]
fn mutate_is_deterministic() {
    let b = base();
    assert_eq!(mutate(5, &b), mutate(5, &b));
    assert_ne!(mutate(5, &b), mutate(6, &b));
}

#[test]
fn seeds_divisible_by_three_truncate() {
    let b = base();
    let m = mutate(3, &b);
    assert!(m.len() <= b.len());
    assert_eq!(&b[..m.len()], &m[..]);
    assert_eq!(mutate(0, &[]), Vec::<u8>::new());
}

#[test]
fn rules_and_dirs() {
    let r = rules();
    assert_eq!(r.len(), 6);
    assert_eq!(r[0].0, "tmp-paths");
    assert_eq!(r[5].0, "handles-are-stable");
    assert_eq!(case_dir("/run", 2, 17), "/run/worker_2/case_17");
    assert_eq!(case_dir("/run/", 0, 0), "/run/worker_0/case_0");
    assert_eq!(ExecError::Runner("boom".into()).message(), "runner: boom");
}

#[test]
fn paths_fuzz_is_deterministic_and_never_fails() {
    for seed in 0..64u64 {
        let (a, verdict) = rine::fuzz::paths_case(seed);
        let (b, _) = rine::fuzz::paths_case(seed);
        assert_eq!(a, b);
        assert!(!a.is_empty());
        assert_eq!(verdict, rine::compare::Verdict::Match);
    }
}

#[test]
fn mutate_length_stays_in_bounds() {
    let base: Vec<u8> = (0u8..200).collect();
    for seed in 0u64..60 {
        let m = mutate(seed, &base);
        assert!(m.len() <= base.len() + 32, "seed {seed}");
        if seed % 3 == 0 {
            assert_eq!(&base[..m.len()], &m[..], "seed {seed}");
        }
        assert!(mutate(seed, &[]).is_empty());
    }
}
