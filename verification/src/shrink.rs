//! Failure minimization (ddmin): from a failing case to a small reproducer
//! that still fails, keeping the order of the items.
use vstd::prelude::*;

verus! {

/// `idx` maps each position of `sub` to a strictly increasing position of
/// `full` holding the same item.
pub open spec fn subseq_by<T>(sub: Seq<T>, full: Seq<T>, idx: Seq<int>) -> bool {
    &&& idx.len() == sub.len()
    &&& forall|k: int| 0 <= k < idx.len() ==> 0 <= #[trigger] idx[k] < full.len() && sub[k] == full[idx[k]]
    &&& forall|a: int, b: int| 0 <= a < b < idx.len() ==> idx[a] < idx[b]
}

/// `sub` is `full` with some items removed (order preserved).
pub open spec fn is_subsequence<T>(sub: Seq<T>, full: Seq<T>) -> bool {
    exists|idx: Seq<int>| subseq_by(sub, full, idx)
}

/// `s` without positions `i..j`.
pub open spec fn cut<A>(s: Seq<A>, i: int, j: int) -> Seq<A> {
    s.subrange(0, i) + s.subrange(j, s.len() as int)
}

proof fn lemma_cut_keeps_subseq<T>(cur: Seq<T>, full: Seq<T>, idx: Seq<int>, i: int, j: int)
    requires
        subseq_by(cur, full, idx),
        0 <= i <= j <= cur.len(),
    ensures
        subseq_by(cut(cur, i, j), full, cut(idx, i, j)),
{
    let c = cut(cur, i, j);
    let d = cut(idx, i, j);
    assert forall|k: int| 0 <= k < d.len() implies 0 <= #[trigger] d[k] < full.len() && c[k] == full[d[k]] by {
        if k < i {
            assert(d[k] == idx[k] && c[k] == cur[k]);
        } else {
            assert(d[k] == idx[k + (j - i)] && c[k] == cur[k + (j - i)]);
        }
    }
    assert forall|a: int, b: int| 0 <= a < b < d.len() implies d[a] < d[b] by {
        let aa = if a < i { a } else { a + (j - i) };
        let bb = if b < i { b } else { b + (j - i) };
        assert(d[a] == idx[aa] && d[b] == idx[bb]);
        assert(aa < bb);
    }
}

fn cut_vec<T: Copy>(v: &Vec<T>, i: usize, j: usize) -> (r: Vec<T>)
    requires
        i <= j <= v@.len(),
    ensures
        r@ == cut(v@, i as int, j as int),
{
    let mut r: Vec<T> = Vec::new();
    let mut k: usize = 0;
    while k < i
        invariant
            k <= i <= j <= v@.len(),
            r@ == v@.subrange(0, k as int),
        decreases i - k,
    {
        r.push(v[k]);
        k += 1;
    }
    let mut k = j;
    while k < v.len()
        invariant
            i <= j <= k <= v@.len(),
            r@ == v@.subrange(0, i as int) + v@.subrange(j as int, k as int),
        decreases v@.len() - k,
    {
        r.push(v[k]);
        k += 1;
        assert(r@ =~= v@.subrange(0, i as int) + v@.subrange(j as int, k as int));
    }
    r
}

fn copy_of<T: Copy>(items: &[T]) -> (r: Vec<T>)
    ensures
        r@ == items@,
{
    let mut r: Vec<T> = Vec::new();
    let mut k: usize = 0;
    while k < items.len()
        invariant
            k <= items@.len(),
            r@ == items@.subrange(0, k as int),
        decreases items@.len() - k,
    {
        r.push(items[k]);
        k += 1;
    }
    assert(r@ =~= items@);
    r
}

proof fn lemma_subseq_refl<T>(s: Seq<T>)
    ensures
        subseq_by(s, s, Seq::new(s.len(), |k: int| k)),
        is_subsequence(s, s),
{
    assert(subseq_by(s, s, Seq::new(s.len(), |k: int| k)));
}

proof fn lemma_subseq_trans<T>(a: Seq<T>, b: Seq<T>, c: Seq<T>)
    requires
        is_subsequence(a, b),
        is_subsequence(b, c),
    ensures
        is_subsequence(a, c),
{
    let ab = choose|idx: Seq<int>| subseq_by(a, b, idx);
    let bc = choose|idx: Seq<int>| subseq_by(b, c, idx);
    let ac = Seq::new(ab.len(), |k: int| bc[ab[k]]);
    assert forall|k: int| 0 <= k < ac.len() implies 0 <= #[trigger] ac[k] < c.len() && a[k] == c[ac[k]] by {
        assert(0 <= ab[k] < b.len());
        assert(bc[ab[k]] == ac[k]);
    }
    assert forall|x: int, y: int| 0 <= x < y < ac.len() implies ac[x] < ac[y] by {
        assert(ab[x] < ab[y]);
        assert(0 <= ab[x] && ab[y] < bc.len());
        assert(ac[x] == bc[ab[x]] && ac[y] == bc[ab[y]]);
    }
    assert(subseq_by(a, c, ac));
}

proof fn lemma_cut_is_subsequence<T>(s: Seq<T>, i: int, j: int)
    requires
        0 <= i <= j <= s.len(),
    ensures
        is_subsequence(cut(s, i, j), s),
{
    lemma_subseq_refl(s);
    lemma_cut_keeps_subseq(s, s, Seq::new(s.len(), |k: int| k), i, j);
}

/// `fails` can be called on `items` and on every non-empty slice, the only
/// slices that `minimize` hands it besides `items`.
pub open spec fn callable_on<T, F: Fn(&[T]) -> bool>(fails: F, items: &[T]) -> bool {
    &&& call_requires(fails, (items,))
    &&& forall|s: &[T]| s@.len() > 0 ==> #[trigger] call_requires(fails, (s,))
}

/// `fails` gives one answer per contents.
pub open spec fn deterministic<T, F: Fn(&[T]) -> bool>(fails: F) -> bool {
    forall|s1: &[T], s2: &[T], b1: bool, b2: bool|
        s1@ == s2@ && #[trigger] call_ensures(fails, (s1,), b1) && #[trigger] call_ensures(fails, (s2,), b2) ==> b1
            == b2
}

/// A failure persists when items are added: a slice holding a failing one
/// as a subsequence does not pass.
pub open spec fn monotone<T, F: Fn(&[T]) -> bool>(fails: F) -> bool {
    forall|s1: &[T], s2: &[T]|
        is_subsequence(s1@, s2@) && #[trigger] call_ensures(fails, (s1,), true) ==> !#[trigger] call_ensures(
            fails,
            (s2,),
            false,
        )
}

/// Removing the item at `p` from `r` leaves a subsequence of some slice on
/// which `fails` answered `false`.
pub open spec fn removal_passed<T, F: Fn(&[T]) -> bool>(fails: F, r: Seq<T>, p: int) -> bool {
    exists|t: &[T]| #[trigger] call_ensures(fails, (t,), false) && is_subsequence(cut(r, p, p + 1), t@)
}

/// Some slice holding `r` without the item at `p` made `fails` answer `true`.
pub open spec fn removal_fails<T, F: Fn(&[T]) -> bool>(fails: F, r: Seq<T>, p: int) -> bool {
    exists|s: &[T]| s@ == cut(r, p, p + 1) && #[trigger] call_ensures(fails, (s,), true)
}

/// `r` failed: some slice with its contents made `fails` answer `true`.
pub open spec fn seen_failing<T, F: Fn(&[T]) -> bool>(fails: F, r: Seq<T>) -> bool {
    exists|s: &[T]| s@ == r && #[trigger] call_ensures(fails, (s,), true)
}

/// What `minimize` returns, whatever the budget: `[]` when `items` passed;
/// else a subsequence of `items` (order kept) that was seen failing, and
/// non-empty when `items` is.
pub open spec fn minimized<T, F: Fn(&[T]) -> bool>(fails: F, items: &[T], r: Seq<T>) -> bool {
    ||| r.len() == 0 && call_ensures(fails, (items,), false)
    ||| call_ensures(fails, (items,), true) && is_subsequence(r, items@) && seen_failing(fails, r) && (items@.len()
        > 0 ==> r.len() > 0)
}

/// No single item of `r` can go: each removal was tried and passed (for a
/// result of two items or more; one item cannot be removed, as `[]` is no
/// reproducer).
pub open spec fn one_minimal<T, F: Fn(&[T]) -> bool>(fails: F, r: Seq<T>) -> bool {
    r.len() >= 2 ==> forall|p: int| 0 <= p < r.len() ==> #[trigger] removal_passed(fails, r, p)
}

/// The ddmin passes behind `minimize`, with the number of candidate checks
/// they spent: one call of `fails` on `items`, then at most one per check,
/// and never more checks than `budget` nor than `3n^2 + n` for `n` items.
/// When the budget was not used up, the result is one-minimal, and for a
/// monotone predicate no single removal from it fails.
pub fn minimize_spent<T: Copy, F: Fn(&[T]) -> bool>(items: &[T], fails: F, budget: usize) -> (res: (Vec<T>, usize))
    requires
        callable_on(fails, items),
    ensures
        minimized(fails, items, res.0@),
        res.1 <= budget,
        res.1 <= 3 * items@.len() * items@.len() + items@.len(),
        deterministic(fails) && call_ensures(fails, (items,), false) ==> res.0@.len() == 0,
        res.1 < budget && call_ensures(fails, (items,), true) ==> one_minimal(fails, res.0@),
        res.1 < budget && call_ensures(fails, (items,), true) && monotone(fails) && res.0@.len() >= 2 ==> forall|p: int|
            0 <= p < res.0@.len() ==> !#[trigger] removal_fails(fails, res.0@, p),
{
    if !fails(items) {
        return (Vec::new(), 0);
    }
    let mut current: Vec<T> = copy_of(items);
    assert(items@ == current@ && call_ensures(fails, (items,), true));
    let ghost mut idx: Seq<int> = Seq::new(items@.len(), |k: int| k);
    assert(subseq_by(current@, items@, idx));
    let mut spent: usize = 0;
    let mut gran: usize = 2;
    let ghost n0: int = items@.len() as int;
    assert(current@.len() == n0);
    while current.len() >= 2 && spent < budget
        invariant_except_break
            spent + 2 <= 3 * n0 * (n0 - current@.len()) + gran,
            gran <= 2 * current@.len() + 2,
        invariant
            callable_on(fails, items),
            call_ensures(fails, (items,), true),
            subseq_by(current@, items@, idx),
            seen_failing(fails, current@),
            items@.len() > 0 ==> current@.len() > 0,
            gran >= 2,
            spent <= budget,
            n0 == items@.len(),
            current@.len() <= n0,
            spent <= 3 * n0 * n0,
        decreases budget - spent,
    {
        let mut reduced = false;
        let len = current.len();
        let q = len / gran;
        let rem = len % gran;
        assert(q * gran + rem == len && q <= len / 2) by (nonlinear_arith)
            requires
                q == len / gran,
                rem == len % gran,
                gran >= 2,
        ;
        assert(q >= 1 || rem != 0) by (nonlinear_arith)
            requires
                q * gran + rem == len,
                len >= 2,
        ;
        let chunk = q + if rem != 0 { 1 } else { 0 };
        assert(len <= gran * chunk) by (nonlinear_arith)
            requires
                q * gran + rem == len,
                rem < gran,
                chunk == q + if rem != 0 { 1int } else { 0int },
        ;
        let mut i: usize = 0;
        let ghost spent0 = spent;
        let ghost gran0 = gran;
        while i < current.len() && spent < budget && !reduced
            invariant
                callable_on(fails, items),
                call_ensures(fails, (items,), true),
                subseq_by(current@, items@, idx),
                seen_failing(fails, current@),
                items@.len() > 0 ==> current@.len() > 0,
                gran >= 2,
                chunk >= 1,
                spent0 < budget,
                spent0 <= spent <= budget,
                (i > 0 || reduced) ==> spent > spent0,
                len <= gran0 * chunk,
                spent - spent0 <= gran0,
                spent - spent0 <= len,
                !reduced ==> current@.len() == len && i <= len && (i < len ==> i >= (spent - spent0) * chunk),
                !reduced ==> gran == gran0,
                reduced ==> current@.len() < len && gran == 2,
            decreases budget - spent,
        {
            let ghost t = spent - spent0;
            assert(t < gran0 && t < len) by (nonlinear_arith)
                requires
                    i >= t * chunk,
                    i < len,
                    len <= gran0 * chunk,
                    chunk >= 1,
                    t >= 0,
            ;
            let end = if chunk < current.len() - i { i + chunk } else { current.len() };
            let candidate = cut_vec(&current, i, end);
            spent += 1;
            let cs = candidate.as_slice();
            if candidate.len() > 0 && fails(cs) {
                proof {
                    lemma_cut_keeps_subseq(current@, items@, idx, i as int, end as int);
                    idx = cut(idx, i as int, end as int);
                    assert(cs@ == candidate@ && call_ensures(fails, (cs,), true));
                }
                current = candidate;
                reduced = true;
                gran = 2;
            } else {
                assert(end < len ==> end >= (t + 1) * chunk) by (nonlinear_arith)
                    requires
                        end < len ==> end == i + chunk,
                        i >= t * chunk,
                ;
                i = end;
            }
        }
        proof {
            let t = spent - spent0;
            if reduced {
                assert(spent <= 3 * n0 * (n0 - current@.len())) by (nonlinear_arith)
                    requires
                        spent0 + 2 <= 3 * n0 * (n0 - len) + gran0,
                        gran0 <= 2 * len + 2,
                        spent == spent0 + t,
                        t <= len,
                        len <= n0,
                        current@.len() < len,
                ;
            }
            assert(spent <= 3 * n0 * n0) by (nonlinear_arith)
                requires
                    spent0 + 2 <= 3 * n0 * (n0 - len) + gran0,
                    gran0 <= 2 * len + 2,
                    spent == spent0 + t,
                    t <= len,
                    len <= n0,
                    len >= 2,
            ;
        }
        if !reduced {
            if gran >= current.len() || gran >= usize::MAX / 2 {
                break;
            }
            gran = gran * 2;
        }
    }
    let ghost spent1 = spent;
    let ghost len1 = current@.len();
    let mut i: usize = 0;
    while i < current.len() && spent < budget
        invariant
            callable_on(fails, items),
            call_ensures(fails, (items,), true),
            subseq_by(current@, items@, idx),
            seen_failing(fails, current@),
            items@.len() > 0 ==> current@.len() > 0,
            spent <= budget,
            i <= current@.len(),
            current@.len() >= 2 ==> forall|p: int| 0 <= p < i ==> #[trigger] removal_passed(fails, current@, p),
            current@.len() <= len1,
            spent <= spent1 + (len1 - current@.len()) + i,
        decreases budget - spent,
    {
        let candidate = cut_vec(&current, i, i + 1);
        spent += 1;
        let cs = candidate.as_slice();
        if candidate.len() > 0 && fails(cs) {
            let ghost old_cur = current@;
            proof {
                lemma_cut_keeps_subseq(current@, items@, idx, i as int, i + 1);
                idx = cut(idx, i as int, i + 1);
                assert(cs@ == candidate@ && call_ensures(fails, (cs,), true));
            }
            current = candidate;
            proof {
                let nc = current@;
                if nc.len() >= 2 {
                    assert forall|p: int| 0 <= p < i implies #[trigger] removal_passed(fails, nc, p) by {
                        assert(removal_passed(fails, old_cur, p));
                        let t = choose|t: &[T]| #[trigger] call_ensures(fails, (t,), false) && is_subsequence(cut(old_cur, p, p + 1), t@);
                        let x = cut(old_cur, p, p + 1);
                        assert(cut(nc, p, p + 1) =~= cut(x, i - 1, i as int));
                        lemma_cut_is_subsequence(x, i - 1, i as int);
                        lemma_subseq_trans(cut(nc, p, p + 1), x, t@);
                    }
                }
            }
        } else {
            proof {
                if current@.len() >= 2 {
                    assert(cs@ == cut(current@, i as int, i + 1));
                    assert(call_ensures(fails, (cs,), false));
                    lemma_subseq_refl(cs@);
                    assert(removal_passed(fails, current@, i as int));
                    assert forall|p: int| 0 <= p < i + 1 implies #[trigger] removal_passed(fails, current@, p) by {
                        if p < i {
                        }
                    }
                }
            }
            i += 1;
        }
    }
    proof {
        assert(subseq_by(current@, items@, idx));
        assert(spent <= 3 * items@.len() * items@.len() + items@.len());
        let r = current@;
        if spent < budget && monotone(fails) && r.len() >= 2 {
            assert forall|p: int| 0 <= p < r.len() implies !#[trigger] removal_fails(fails, r, p) by {
                assert(removal_passed(fails, r, p));
                let t = choose|t: &[T]| #[trigger] call_ensures(fails, (t,), false) && is_subsequence(cut(r, p, p + 1), t@);
                if removal_fails(fails, r, p) {
                    let s = choose|s: &[T]| s@ == cut(r, p, p + 1) && #[trigger] call_ensures(fails, (s,), true);
                    assert(is_subsequence(s@, t@));
                }
            }
        }
    }
    (current, spent)
}

/// Shrinks `items` while `fails` keeps reporting a failure (ddmin, then a
/// pass that removes single items). Returns `[]` when `items` itself does
/// not fail (caller's error, not a panic); else a failing subsequence of
/// `items`, order kept. `fails` is called once on `items`, then on at most
/// `budget` non-empty candidates; the passes never need more than
/// `3n^2 + n` of them for `n` items, so a budget above that leaves a
/// one-minimal result.
pub fn minimize<T: Copy, F: Fn(&[T]) -> bool>(items: &[T], fails: F, budget: usize) -> (r: Vec<T>)
    requires
        callable_on(fails, items),
    ensures
        minimized(fails, items, r@),
        deterministic(fails) && call_ensures(fails, (items,), false) ==> r@.len() == 0,
        budget > 3 * items@.len() * items@.len() + items@.len() && call_ensures(fails, (items,), true) ==> one_minimal(
            fails,
            r@,
        ),
        budget > 3 * items@.len() * items@.len() + items@.len() && call_ensures(fails, (items,), true) && monotone(fails)
            && r@.len() >= 2 ==> forall|p: int| 0 <= p < r@.len() ==> !#[trigger] removal_fails(fails, r@, p),
{
    minimize_spent(items, fails, budget).0
}

} // verus!
