use rine::rng::Rng;

#[test]
fn deterministic_stream() {
    let mut a = Rng::new(42);
    let mut b = Rng::new(42);
    for _ in 0..100 {
        assert_eq!(a.next_u64(), b.next_u64());
    }
    assert_ne!(Rng::new(42).next_u64(), Rng::new(43).next_u64());
}

#[test]
fn below_respects_bound() {
    let mut r = Rng::new(7);
    for _ in 0..1000 {
        assert!(r.below(10) < 10);
    }
    assert_eq!(r.below(0), 0);
    assert_eq!(r.below(1), 0);
}

#[test]
fn derive_is_independent() {
    let base = Rng::new(99);
    assert_ne!(base.derive(1).next_u64(), base.derive(2).next_u64());
    assert_eq!(base.derive(1).next_u64(), base.derive(1).next_u64());
}

#[test]
fn splitmix_known_first_output() {
    // SplitMix64 with state 0: `new` adds the golden-ratio step once.
    let mut r = Rng::new(0u64.wrapping_sub(0x9E37_79B9_7F4A_7C15));
    assert_eq!(r.next_u64(), 0xe220a8397b1dcdaf);
}

#[test]
fn below_zero_keeps_stream() {
    let mut a = Rng::new(5);
    let mut b = Rng::new(5);
    assert_eq!(a.below(0), 0);
    assert_eq!(a.next_u64(), b.next_u64());
}

#[test]
fn pick_and_biased() {
    let mut r = Rng::new(3);
    let empty: [u32; 0] = [];
    assert!(r.pick(&empty).is_none());
    let xs = [10u32, 20, 30];
    for _ in 0..50 {
        assert!(xs.contains(r.pick(&xs).unwrap()));
    }
    assert!(!r.biased(1, 0));
    assert!(r.biased(5, 5));
    assert!(!r.biased(0, 5));
}
