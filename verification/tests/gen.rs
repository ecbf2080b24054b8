use rine::file_model::RawOp;
use rine::gen::{fileop_sequence, fileops_dimensions, handle_sequence, memory_sequence, pairs_covered, pairwise, path_template};
use rine::models::{HandleOp, MemOp};
use rine::rng::Rng;
use std::collections::HashSet;

fn row_pairs(r: &[usize], s: &mut HashSet<(usize, usize, usize, usize)>) {
    for i in 0..r.len() {
        for j in (i + 1)..r.len() {
            s.insert((i, r[i], j, r[j]));
        }
    }
}

#[test]
fn pairwise_covers_dim_product_pairs() {
    let dims = vec![vec![0, 1, 2], vec![0, 1]];
    let rows = pairwise(&dims, 99, 0);
    assert_eq!(rows.len(), 6);
    assert_eq!(pairs_covered(&rows), 6);
}

#[test]
fn pairwise_covers_every_pair_of_three_dims() {
    let dims = vec![vec![0, 1], vec![0, 1], vec![0, 1]];
    let rows = pairwise(&dims, 7, 0);
    let mut got = HashSet::new();
    for r in &rows {
        assert_eq!(r.len(), 3);
        row_pairs(r, &mut got);
    }
    for i in 0..3 {
        for j in (i + 1)..3 {
            for a in 0..2 {
                for b in 0..2 {
                    assert!(got.contains(&(i, a, j, b)), "missing {:?}", (i, a, j, b));
                }
            }
        }
    }
    // Four seed rows over the first two columns, then fillers for the
    // pairs with the third column that the seed rows left out.
    assert_eq!(&rows[..4], &[vec![0, 0, 0], vec![0, 1, 0], vec![1, 0, 0], vec![1, 1, 0]]);
    assert_eq!(&rows[4..], &[vec![0, 0, 1], vec![1, 0, 1], vec![0, 1, 1]]);
    assert_eq!(pairs_covered(&rows), 12);
}

#[test]
fn pairwise_deterministic() {
    let dims = vec![vec![0, 1, 2, 3], vec![0, 1, 2], vec![0, 1]];
    let a = pairwise(&dims, 5, 20);
    let b = pairwise(&dims, 5, 20);
    assert_eq!(a, b);
    let mut need = HashSet::new();
    for x in 0..4 {
        for y in 0..3 {
            need.insert((0, x, 1, y));
        }
    }
    let mut got = HashSet::new();
    for r in &a {
        row_pairs(r, &mut got);
    }
    assert!(need.is_subset(&got));
    assert_eq!(pairs_covered(&a), got.len());
}

#[test]
fn sequences_are_shaped() {
    let mut rng = Rng::new(1);
    let ops = fileop_sequence(&mut rng, 0, 50);
    assert_eq!(ops.len(), 50);
    let h = handle_sequence(&mut rng, 50, 4);
    assert_eq!(h.len(), 50);
    let m = memory_sequence(&mut rng, 50, 4);
    assert_eq!(m.len(), 50);
}

#[test]
fn first_fileop_is_a_create_with_the_case_number() {
    let mut rng = Rng::new(7);
    let ops = fileop_sequence(&mut rng, 42, 5);
    match &ops[0] {
        RawOp::Create { path, access, disp } => {
            assert!(path.contains("42"));
            assert!([0x8000_0000u32, 0x4000_0000, 0xC000_0000, 0].contains(access));
            assert!([1u32, 2, 3, 4, 5, 9].contains(disp));
        }
        other => panic!("first op {other:?}"),
    }
    for op in &ops {
        match op {
            RawOp::Write { len } => assert!((1..=11).contains(len)),
            RawOp::Read { len } => assert!((1..=32).contains(len)),
            _ => {}
        }
    }
}

#[test]
fn memory_ops_stay_in_pool_and_protect_range() {
    let mut rng = Rng::new(3);
    for op in memory_sequence(&mut rng, 200, 5) {
        match op {
            MemOp::Reserve { id, size, protect } => {
                assert!(id < 5 && protect < 6);
                assert!([0usize, 1, 100, 4096, 5000, 1 << 20].contains(&size));
            }
            MemOp::Commit { id, protect } | MemOp::Protect { id, protect } => assert!(id < 5 && protect < 6),
            MemOp::Release { id } | MemOp::Query { id, .. } => assert!(id < 5),
        }
    }
}

#[test]
fn path_templates_and_dimensions() {
    assert_eq!(path_template(0), ("C:\\nz_", ".txt"));
    assert_eq!(path_template(5), ("\\\\srv\\f_", ".txt"));
    assert_eq!(path_template(6), ("C:\\t_", ".txt\\"));
    let dims = fileops_dimensions();
    assert_eq!(dims.len(), 4);
    assert_eq!(dims[0].values.len(), 8);
    assert_eq!(dims[2].values[5], "bad");
    assert_eq!(dims[3].api, "fileops");
}

#[test]
fn handle_ids_stay_below_pool_or_inserts() {
    let mut rng = Rng::new(11);
    let pool = 3usize;
    let ops = handle_sequence(&mut rng, 300, pool);
    let mut inserts = 0usize;
    for op in &ops {
        let bound = std::cmp::max(pool + 2, inserts);
        match op {
            HandleOp::Insert => inserts += 1,
            HandleOp::Lookup { id } | HandleOp::Close { id } => assert!(*id < bound, "{op:?} with {inserts} inserts"),
        }
    }
}
