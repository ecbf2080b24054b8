//! Scenario generators: coverage dimensions, pairwise rows and stateful
//! operation sequences, all driven by the deterministic `Rng`.
use vstd::prelude::*;
use crate::rng::{advance, below_state, below_value, Rng};
use crate::text::{chars_of, decimal, extend_chars, owned, string_of, u64_decimal};
use crate::file_model::{msg, msg_spec, op_view, pairs_view, OpView, RawOp};
use crate::models::{HandleOp, MemOp};
use vstd::wrapping::u64_specs::wrapping_add;

verus! {

/// One behavioural-coverage dimension: an API, a name and its values.
#[derive(Debug, Clone)]
pub struct Dimension {
    pub api: String,
    pub name: String,
    pub values: Vec<String>,
}

pub open spec fn strs(v: Seq<String>) -> Seq<Seq<char>> {
    v.map_values(|s: String| s@)
}

/// Names of the path classes (each aims at one branch of `translate`).
pub open spec fn path_class_names() -> Seq<Seq<char>> {
    seq!["missing"@, "existing"@, "relative"@, "nested"@, "drive-missing"@, "unc"@, "trailing"@, "unicode"@]
}

pub open spec fn access_names() -> Seq<Seq<char>> {
    seq!["read"@, "write"@, "rw"@, "zero"@]
}

pub open spec fn disp_names() -> Seq<Seq<char>> {
    seq!["new"@, "always"@, "existing"@, "open-always"@, "truncate"@, "bad"@]
}

pub open spec fn op_names() -> Seq<Seq<char>> {
    seq!["create"@, "write"@, "read"@, "close"@]
}

fn strings(names: &[&str]) -> (r: Vec<String>)
    ensures
        strs(r@) == names@.map_values(|s: &str| s@),
{
    let mut r: Vec<String> = Vec::new();
    let mut i: usize = 0;
    while i < names.len()
        invariant
            i <= names@.len(),
            strs(r@) == names@.map_values(|s: &str| s@).take(i as int),
        decreases names@.len() - i,
    {
        let ghost r0 = r@;
        let x = owned(names[i]);
        r.push(x);
        assert(strs(r@) =~= strs(r0).push(names@[i as int]@));
        assert(strs(r@) =~= names@.map_values(|s: &str| s@).take(i + 1));
        i += 1;
    }
    assert(names@.map_values(|s: &str| s@).take(names@.len() as int) =~= names@.map_values(|s: &str| s@));
    r
}

/// The `fileops` dimensions: CreateFileA path class, access and
/// disposition, and the operation kind.
pub fn fileops_dimensions() -> (r: Vec<Dimension>)
    ensures
        r@.len() == 4,
        r@[0].api@ == "CreateFileA"@ && r@[0].name@ == "path_class"@ && strs(r@[0].values@) == path_class_names(),
        r@[1].api@ == "CreateFileA"@ && r@[1].name@ == "access"@ && strs(r@[1].values@) == access_names(),
        r@[2].api@ == "CreateFileA"@ && r@[2].name@ == "disposition"@ && strs(r@[2].values@) == disp_names(),
        r@[3].api@ == "fileops"@ && r@[3].name@ == "op"@ && strs(r@[3].values@) == op_names(),
{
    let pc = ["missing", "existing", "relative", "nested", "drive-missing", "unc", "trailing", "unicode"];
    let ac = ["read", "write", "rw", "zero"];
    let dc = ["new", "always", "existing", "open-always", "truncate", "bad"];
    let oc = ["create", "write", "read", "close"];
    let d0 = Dimension { api: owned("CreateFileA"), name: owned("path_class"), values: strings(&pc) };
    let d1 = Dimension { api: owned("CreateFileA"), name: owned("access"), values: strings(&ac) };
    let d2 = Dimension { api: owned("CreateFileA"), name: owned("disposition"), values: strings(&dc) };
    let d3 = Dimension { api: owned("fileops"), name: owned("op"), values: strings(&oc) };
    assert(pc@.map_values(|s: &str| s@) =~= path_class_names());
    assert(ac@.map_values(|s: &str| s@) =~= access_names());
    assert(dc@.map_values(|s: &str| s@) =~= disp_names());
    assert(oc@.map_values(|s: &str| s@) =~= op_names());
    vec![d0, d1, d2, d3]
}

// ---------------------------------------------------------------------------
// Pairwise rows.
// ---------------------------------------------------------------------------

pub open spec fn rows_view(v: Seq<Vec<usize>>) -> Seq<Seq<usize>> {
    v.map_values(|r: Vec<usize>| r@)
}

/// Row of width `n` with `a` and `b` in the first two columns, 0 elsewhere.
pub open spec fn base_row(n: nat, a: usize, b: usize) -> Seq<usize> {
    Seq::new(n, |k: int| if k == 0 { a } else if k == 1 { b } else { 0usize })
}

/// Cartesian seed rows: each `a` of the first dimension with every `b` of
/// the second, in order.
pub open spec fn cart_rows(as_: Seq<usize>, bs: Seq<usize>, n: nat) -> Seq<Seq<usize>>
    decreases as_.len(),
{
    if as_.len() == 0 {
        seq![]
    } else {
        cart_rows(as_.drop_last(), bs, n) + bs.map_values(|b: usize| base_row(n, as_.last(), b))
    }
}

/// One random row: a pick from each dimension in turn (0 for an empty one).
pub open spec fn random_row(s: u64, dims: Seq<Seq<usize>>) -> (u64, Seq<usize>)
    decreases dims.len(),
{
    if dims.len() == 0 {
        (s, seq![])
    } else {
        let (s1, r) = random_row(s, dims.drop_last());
        let d = dims.last();
        if d.len() == 0 {
            (s1, r.push(0usize))
        } else {
            (advance(s1), r.push(d[below_value(s1, d.len() as u64) as int]))
        }
    }
}

pub open spec fn random_rows(s: u64, dims: Seq<Seq<usize>>, k: nat) -> (u64, Seq<Seq<usize>>)
    decreases k,
{
    if k == 0 {
        (s, seq![])
    } else {
        let (s1, rs) = random_rows(s, dims, (k - 1) as nat);
        let (s2, r) = random_row(s1, dims);
        (s2, rs.push(r))
    }
}

/// Seed added to `extra_seed` for the random suffix.
pub const PAIRWISE_SALT: u64 = 0x9E3779B9;

/// Seed rows: with two dimensions or more, each value of the first with
/// each value of the second, other columns 0.
pub open spec fn seed_rows(dims: Seq<Seq<usize>>) -> Seq<Seq<usize>> {
    if dims.len() >= 2 { cart_rows(dims[0], dims[1], dims.len()) } else { seq![] }
}

/// Random suffix of `extra` rows drawn from `extra_seed`.
pub open spec fn suffix_rows(dims: Seq<Seq<usize>>, extra_seed: u64, extra: nat) -> Seq<Seq<usize>> {
    random_rows(advance(wrapping_add(extra_seed, PAIRWISE_SALT)), dims, extra).1
}

/// Some row has `a` in column `i` and `b` in column `j`.
pub open spec fn has_pair(rows: Seq<Seq<usize>>, i: int, a: usize, j: int, b: usize) -> bool {
    exists|k: int|
        #![trigger rows[k]]
        0 <= k < rows.len() && 0 <= i < rows[k].len() && 0 <= j < rows[k].len() && rows[k][i] == a && rows[k][j] == b
}

/// Row of width `n` with `a` in column `i`, `b` in column `j`, 0 elsewhere.
pub open spec fn pair_row(n: nat, i: int, a: usize, j: int, b: usize) -> Seq<usize> {
    Seq::new(n, |k: int| if k == i { a } else if k == j { b } else { 0usize })
}

/// A pair of values of two dimensions: column `i < j`, value `x` of
/// dimension `i`, value `y` of dimension `j` (by position).
pub open spec fn valid_pair(dims: Seq<Seq<usize>>, i: int, j: int, x: int, y: int) -> bool {
    0 <= i < j < dims.len() && 0 <= x < dims[i].len() && 0 <= y < dims[j].len()
}

/// The filler rows after `rows`, from position `(i, j, x, y)` of the walk
/// over column `i`, column `j > i`, value `x` of `i`, value `y` of `j`:
/// each pair that no row has yet gets a row of its own (its two values, 0
/// elsewhere), in that order.
pub open spec fn greedy_fill(dims: Seq<Seq<usize>>, rows: Seq<Seq<usize>>, i: int, j: int, x: int, y: int) -> Seq<
    Seq<usize>,
>
    decreases dims.len() - i, dims.len() - j, dims[i].len() - x, dims[j].len() - y,
{
    if i < 0 || j < 0 || x < 0 || y < 0 || i >= dims.len() {
        rows
    } else if j >= dims.len() {
        greedy_fill(dims, rows, i + 1, i + 2, 0, 0)
    } else if x >= dims[i].len() {
        greedy_fill(dims, rows, i, j + 1, 0, 0)
    } else if y >= dims[j].len() {
        greedy_fill(dims, rows, i, j, x + 1, 0)
    } else {
        let a = dims[i][x];
        let b = dims[j][y];
        let next = if has_pair(rows, i, a, j, b) { rows } else { rows.push(pair_row(dims.len(), i, a, j, b)) };
        greedy_fill(dims, next, i, j, x, y + 1)
    }
}

/// Every filler row puts together a pair of values that no row before it
/// had (the greedy step: a row only for a pair still missing).
pub open spec fn fill_ok(dims: Seq<Seq<usize>>, before: Seq<Seq<usize>>, fill: Seq<Seq<usize>>) -> bool {
    forall|k: int|
        #![trigger fill[k]]
        0 <= k < fill.len() ==> exists|i: int, j: int, x: int, y: int|
            #[trigger] valid_pair(dims, i, j, x, y) && fill[k] == pair_row(dims.len(), i, dims[i][x], j, dims[j][y])
                && !has_pair(before + fill.take(k), i, dims[i][x], j, dims[j][y])
}

fn zero_row(n: usize, a: usize, b: usize) -> (r: Vec<usize>)
    requires
        n >= 2,
    ensures
        r@ == base_row(n as nat, a, b),
{
    let mut r: Vec<usize> = Vec::new();
    let mut k: usize = 0;
    while k < n
        invariant
            k <= n,
            r@ == base_row(n as nat, a, b).take(k as int),
        decreases n - k,
    {
        if k == 0 {
            r.push(a);
        } else if k == 1 {
            r.push(b);
        } else {
            r.push(0);
        }
        assert(r@ =~= base_row(n as nat, a, b).take(k + 1));
        k += 1;
    }
    assert(base_row(n as nat, a, b).take(n as int) =~= base_row(n as nat, a, b));
    r
}

fn pick_row(rng: &mut Rng, dims: &[Vec<usize>]) -> (r: Vec<usize>)
    ensures
        (final(rng).state(), r@) == random_row(old(rng).state(), rows_view(dims@)),
{
    let ghost dv = rows_view(dims@);
    let ghost s0 = rng.state();
    let mut r: Vec<usize> = Vec::new();
    let mut i: usize = 0;
    assert(dv.take(0) =~= Seq::<Seq<usize>>::empty());
    while i < dims.len()
        invariant
            i <= dims@.len(),
            dv == rows_view(dims@),
            (rng.state(), r@) == random_row(s0, dv.take(i as int)),
        decreases dims@.len() - i,
    {
        assert(dv.take(i + 1).drop_last() =~= dv.take(i as int));
        assert(dv.take(i + 1).last() == dims@[i as int]@);
        let v = match rng.pick(dims[i].as_slice()) {
            Some(x) => *x,
            None => 0,
        };
        r.push(v);
        i += 1;
    }
    assert(dv.take(dims@.len() as int) =~= dv);
    r
}

/// `(i2, j2, x2, y2)` comes before `(i, j, x, y)` in the filler's order.
pub open spec fn lex_before(i2: int, j2: int, x2: int, y2: int, i: int, j: int, x: int, y: int) -> bool {
    i2 < i || (i2 == i && (j2 < j || (j2 == j && (x2 < x || (x2 == x && y2 < y)))))
}

/// Every pair before `(i, j, x, y)` lies in some row of `rows`.
pub open spec fn covered_before(dims: Seq<Seq<usize>>, rows: Seq<Seq<usize>>, i: int, j: int, x: int, y: int) -> bool {
    forall|i2: int, j2: int, x2: int, y2: int|
        #[trigger] valid_pair(dims, i2, j2, x2, y2) && lex_before(i2, j2, x2, y2, i, j, x, y) ==> has_pair(
            rows,
            i2,
            dims[i2][x2],
            j2,
            dims[j2][y2],
        )
}

proof fn lemma_has_pair_push(rows: Seq<Seq<usize>>, r: Seq<usize>, i: int, a: usize, j: int, b: usize)
    requires
        has_pair(rows, i, a, j, b),
    ensures
        has_pair(rows.push(r), i, a, j, b),
{
    let k = choose|k: int|
        #![trigger rows[k]]
        0 <= k < rows.len() && 0 <= i < rows[k].len() && 0 <= j < rows[k].len() && rows[k][i] == a && rows[k][j] == b;
    assert(rows.push(r)[k] == rows[k]);
}

proof fn lemma_has_pair_append(rows: Seq<Seq<usize>>, more: Seq<Seq<usize>>, i: int, a: usize, j: int, b: usize)
    requires
        has_pair(rows, i, a, j, b),
    ensures
        has_pair(rows + more, i, a, j, b),
{
    let k = choose|k: int|
        #![trigger rows[k]]
        0 <= k < rows.len() && 0 <= i < rows[k].len() && 0 <= j < rows[k].len() && rows[k][i] == a && rows[k][j] == b;
    assert((rows + more)[k] == rows[k]);
}

proof fn lemma_covered_push(dims: Seq<Seq<usize>>, rows: Seq<Seq<usize>>, r: Seq<usize>, i: int, j: int, x: int, y: int)
    requires
        covered_before(dims, rows, i, j, x, y),
    ensures
        covered_before(dims, rows.push(r), i, j, x, y),
{
    assert forall|i2: int, j2: int, x2: int, y2: int|
        #[trigger] valid_pair(dims, i2, j2, x2, y2) && lex_before(i2, j2, x2, y2, i, j, x, y) implies has_pair(
            rows.push(r),
            i2,
            dims[i2][x2],
            j2,
            dims[j2][y2],
        ) by {
        lemma_has_pair_push(rows, r, i2, dims[i2][x2], j2, dims[j2][y2]);
    }
}

proof fn lemma_fill_push(dims: Seq<Seq<usize>>, before: Seq<Seq<usize>>, fill: Seq<Seq<usize>>, i: int, j: int, x: int, y: int)
    requires
        fill_ok(dims, before, fill),
        valid_pair(dims, i, j, x, y),
        !has_pair(before + fill, i, dims[i][x], j, dims[j][y]),
    ensures
        fill_ok(dims, before, fill.push(pair_row(dims.len(), i, dims[i][x], j, dims[j][y]))),
{
    let f2 = fill.push(pair_row(dims.len(), i, dims[i][x], j, dims[j][y]));
    assert forall|k: int| #![trigger f2[k]] 0 <= k < f2.len() implies exists|i2: int, j2: int, x2: int, y2: int|
        #[trigger] valid_pair(dims, i2, j2, x2, y2) && f2[k] == pair_row(dims.len(), i2, dims[i2][x2], j2, dims[j2][y2])
            && !has_pair(before + f2.take(k), i2, dims[i2][x2], j2, dims[j2][y2]) by {
        if k < fill.len() {
            assert(f2.take(k) =~= fill.take(k));
            assert(f2[k] == fill[k]);
        } else {
            assert(f2.take(k) =~= fill);
            assert(valid_pair(dims, i, j, x, y));
        }
    }
}

fn pair_row_exec(n: usize, i: usize, a: usize, j: usize, b: usize) -> (r: Vec<usize>)
    ensures
        r@ == pair_row(n as nat, i as int, a, j as int, b),
{
    let mut r: Vec<usize> = Vec::new();
    let mut k: usize = 0;
    while k < n
        invariant
            k <= n,
            r@ == pair_row(n as nat, i as int, a, j as int, b).take(k as int),
        decreases n - k,
    {
        if k == i {
            r.push(a);
        } else if k == j {
            r.push(b);
        } else {
            r.push(0);
        }
        assert(r@ =~= pair_row(n as nat, i as int, a, j as int, b).take(k + 1));
        k += 1;
    }
    assert(pair_row(n as nat, i as int, a, j as int, b).take(n as int) =~= pair_row(n as nat, i as int, a, j as int, b));
    r
}

/// Whether some row of `rows` has `a` in column `i` and `b` in column `j`.
fn rows_have_pair(rows: &Vec<Vec<usize>>, i: usize, a: usize, j: usize, b: usize) -> (r: bool)
    ensures
        r == has_pair(rows_view(rows@), i as int, a, j as int, b),
{
    let ghost rv = rows_view(rows@);
    let mut k: usize = 0;
    while k < rows.len()
        invariant
            k <= rows@.len(),
            rv == rows_view(rows@),
            forall|m: int| #![trigger rv[m]] 0 <= m < k ==> !(0 <= i < rv[m].len() && 0 <= j < rv[m].len() && rv[m][i as int] == a && rv[m][j as int] == b),
        decreases rows@.len() - k,
    {
        let row = &rows[k];
        assert(rv[k as int] == row@);
        if i < row.len() && j < row.len() && row[i] == a && row[j] == b {
            return true;
        }
        k += 1;
    }
    false
}

/// Adds, in order of (column `i`, column `j > i`, value of `i`, value of
/// `j`), a row for every pair of values not yet in some row of `out`.
fn fill_pairs(out: &mut Vec<Vec<usize>>, dims: &[Vec<usize>])
    requires
        forall|k: int| 0 <= k < old(out)@.len() ==> (#[trigger] old(out)@[k])@.len() == dims@.len(),
    ensures
        forall|k: int| 0 <= k < final(out)@.len() ==> (#[trigger] final(out)@[k])@.len() == dims@.len(),
        forall|i: int, j: int, x: int, y: int|
            #[trigger] valid_pair(rows_view(dims@), i, j, x, y) ==> has_pair(
                rows_view(final(out)@),
                i,
                rows_view(dims@)[i][x],
                j,
                rows_view(dims@)[j][y],
            ),
        exists|fill: Seq<Seq<usize>>|
            fill_ok(rows_view(dims@), rows_view(old(out)@), fill) && rows_view(final(out)@) == rows_view(old(out)@) + fill,
        rows_view(final(out)@) == greedy_fill(rows_view(dims@), rows_view(old(out)@), 0, 1, 0, 0),
{
    let ghost dv = rows_view(dims@);
    let ghost before = rows_view(out@);
    let ghost g = greedy_fill(dv, before, 0, 1, 0, 0);
    let ghost mut fill: Seq<Seq<usize>> = Seq::empty();
    let n = dims.len();
    assert(before + fill =~= before);
    let mut i: usize = 0;
    while i < n
        invariant
            n == dims@.len(),
            dv == rows_view(dims@),
            i <= n,
            forall|k: int| 0 <= k < out@.len() ==> (#[trigger] out@[k])@.len() == n,
            rows_view(out@) == before + fill,
            fill_ok(dv, before, fill),
            covered_before(dv, rows_view(out@), i as int, 0, 0, 0),
            greedy_fill(dv, rows_view(out@), i as int, i + 1, 0, 0) == g,
        decreases n - i,
    {
        let mut j: usize = i + 1;
        while j < n
            invariant
                n == dims@.len(),
                dv == rows_view(dims@),
                i < n,
                i + 1 <= j <= n,
                forall|k: int| 0 <= k < out@.len() ==> (#[trigger] out@[k])@.len() == n,
                rows_view(out@) == before + fill,
                fill_ok(dv, before, fill),
                covered_before(dv, rows_view(out@), i as int, j as int, 0, 0),
                greedy_fill(dv, rows_view(out@), i as int, j as int, 0, 0) == g,
            decreases n - j,
        {
            let di = &dims[i];
            let dj = &dims[j];
            assert(di@ == dv[i as int] && dj@ == dv[j as int]);
            let mut x: usize = 0;
            while x < di.len()
                invariant
                    n == dims@.len(),
                    dv == rows_view(dims@),
                    i < j < n,
                    di@ == dv[i as int],
                    dj@ == dv[j as int],
                    x <= di@.len(),
                    forall|k: int| 0 <= k < out@.len() ==> (#[trigger] out@[k])@.len() == n,
                    rows_view(out@) == before + fill,
                    fill_ok(dv, before, fill),
                    covered_before(dv, rows_view(out@), i as int, j as int, x as int, 0),
                    greedy_fill(dv, rows_view(out@), i as int, j as int, x as int, 0) == g,
                decreases di@.len() - x,
            {
                let mut y: usize = 0;
                while y < dj.len()
                    invariant
                        n == dims@.len(),
                        dv == rows_view(dims@),
                        i < j < n,
                        di@ == dv[i as int],
                        dj@ == dv[j as int],
                        x < di@.len(),
                        y <= dj@.len(),
                        forall|k: int| 0 <= k < out@.len() ==> (#[trigger] out@[k])@.len() == n,
                        rows_view(out@) == before + fill,
                        fill_ok(dv, before, fill),
                        covered_before(dv, rows_view(out@), i as int, j as int, x as int, y as int),
                        greedy_fill(dv, rows_view(out@), i as int, j as int, x as int, y as int) == g,
                    decreases dj@.len() - y,
                {
                    let a = di[x];
                    let b = dj[y];
                    let ghost rows0 = rows_view(out@);
                    assert(a == dv[i as int][x as int] && b == dv[j as int][y as int]);
                    if !rows_have_pair(out, i, a, j, b) {
                        let row = pair_row_exec(n, i, a, j, b);
                        proof {
                            assert(valid_pair(dv, i as int, j as int, x as int, y as int));
                            lemma_fill_push(dv, before, fill, i as int, j as int, x as int, y as int);
                            lemma_covered_push(dv, rows0, row@, i as int, j as int, x as int, y as int);
                            fill = fill.push(row@);
                        }
                        out.push(row);
                        proof {
                            assert(rows_view(out@) =~= rows0.push(row@));
                            assert(before + fill =~= (before + fill.drop_last()).push(row@));
                            let nr = rows_view(out@);
                            assert(nr[nr.len() - 1] == row@);
                            assert(has_pair(nr, i as int, a, j as int, b));
                        }
                    }
                    proof {
                        let nr = rows_view(out@);
                        assert(nr == if has_pair(rows0, i as int, a, j as int, b) {
                            rows0
                        } else {
                            rows0.push(pair_row(dv.len(), i as int, a, j as int, b))
                        });
                        assert(greedy_fill(dv, rows0, i as int, j as int, x as int, y as int) == greedy_fill(
                            dv,
                            nr,
                            i as int,
                            j as int,
                            x as int,
                            y + 1,
                        ));
                        assert(has_pair(nr, i as int, a, j as int, b));
                        assert forall|i2: int, j2: int, x2: int, y2: int|
                            #[trigger] valid_pair(dv, i2, j2, x2, y2) && lex_before(i2, j2, x2, y2, i as int, j as int, x as int, y + 1)
                            implies has_pair(nr, i2, dv[i2][x2], j2, dv[j2][y2]) by {
                            if !lex_before(i2, j2, x2, y2, i as int, j as int, x as int, y as int) {
                                assert(i2 == i && j2 == j && x2 == x && y2 == y);
                            }
                        }
                    }
                    y += 1;
                }
                proof {
                    assert forall|i2: int, j2: int, x2: int, y2: int|
                        #[trigger] valid_pair(dv, i2, j2, x2, y2) && lex_before(i2, j2, x2, y2, i as int, j as int, x + 1, 0)
                        implies has_pair(rows_view(out@), i2, dv[i2][x2], j2, dv[j2][y2]) by {
                        assert(lex_before(i2, j2, x2, y2, i as int, j as int, x as int, y as int));
                    }
                }
                x += 1;
            }
            proof {
                assert forall|i2: int, j2: int, x2: int, y2: int|
                    #[trigger] valid_pair(dv, i2, j2, x2, y2) && lex_before(i2, j2, x2, y2, i as int, j + 1, 0, 0)
                    implies has_pair(rows_view(out@), i2, dv[i2][x2], j2, dv[j2][y2]) by {
                    assert(lex_before(i2, j2, x2, y2, i as int, j as int, x as int, 0));
                }
            }
            j += 1;
        }
        proof {
            assert forall|i2: int, j2: int, x2: int, y2: int|
                #[trigger] valid_pair(dv, i2, j2, x2, y2) && lex_before(i2, j2, x2, y2, i + 1, 0, 0, 0)
                implies has_pair(rows_view(out@), i2, dv[i2][x2], j2, dv[j2][y2]) by {
                assert(lex_before(i2, j2, x2, y2, i as int, j as int, 0, 0));
            }
        }
        i += 1;
    }
    proof {
        assert forall|i2: int, j2: int, x2: int, y2: int|
            #[trigger] valid_pair(dv, i2, j2, x2, y2) implies has_pair(rows_view(out@), i2, dv[i2][x2], j2, dv[j2][y2]) by {
            assert(lex_before(i2, j2, x2, y2, n as int, 0, 0, 0));
        }
    }
}

proof fn lemma_cart_rows(as_: Seq<usize>, bs: Seq<usize>, n: nat)
    requires
        n >= 2,
    ensures
        cart_rows(as_, bs, n).len() == as_.len() * bs.len(),
        forall|x: int, y: int|
            0 <= x < as_.len() && 0 <= y < bs.len() ==> has_pair(cart_rows(as_, bs, n), 0, #[trigger] as_[x], 1, #[trigger] bs[y]),
    decreases as_.len(),
{
    if as_.len() > 0 {
        let p = as_.drop_last();
        lemma_cart_rows(p, bs, n);
        let pre = cart_rows(p, bs, n);
        let last = bs.map_values(|b: usize| base_row(n, as_.last(), b));
        assert(cart_rows(as_, bs, n) == pre + last);
        assert((as_.len() - 1) * bs.len() + bs.len() == as_.len() * bs.len()) by (nonlinear_arith);
        assert forall|x: int, y: int| 0 <= x < as_.len() && 0 <= y < bs.len() implies has_pair(
            cart_rows(as_, bs, n),
            0,
            #[trigger] as_[x],
            1,
            #[trigger] bs[y],
        ) by {
            if x < as_.len() - 1 {
                assert(as_[x] == p[x]);
                lemma_has_pair_append(pre, last, 0, p[x], 1, bs[y]);
            } else {
                let rows = pre + last;
                let k = pre.len() + y;
                assert(rows[k] == base_row(n, as_.last(), bs[y]));
                assert(rows[k][0] == as_[x] && rows[k][1] == bs[y]);
            }
        }
    } else {
        assert(as_.len() * bs.len() == 0) by (nonlinear_arith)
            requires
                as_.len() == 0,
        ;
    }
}

/// With two dimensions or fewer, the seed rows already hold every pair, so
/// no filler row is added.
proof fn lemma_no_fill(dims: Seq<Seq<usize>>, fill: Seq<Seq<usize>>)
    requires
        dims.len() <= 2,
        fill_ok(dims, seed_rows(dims), fill),
    ensures
        fill.len() == 0,
        dims.len() == 2 ==> seed_rows(dims).len() == dims[0].len() * dims[1].len(),
{
    if dims.len() == 2 {
        lemma_cart_rows(dims[0], dims[1], 2);
    }
    if fill.len() > 0 {
        assert(fill[0] == fill[0]);
        let (i, j, x, y) = choose|i: int, j: int, x: int, y: int|
            #[trigger] valid_pair(dims, i, j, x, y) && fill[0] == pair_row(dims.len(), i, dims[i][x], j, dims[j][y])
                && !has_pair(seed_rows(dims) + fill.take(0), i, dims[i][x], j, dims[j][y]);
        assert(i == 0 && j == 1);
        assert(seed_rows(dims) + fill.take(0) =~= seed_rows(dims));
        assert(has_pair(seed_rows(dims), 0, dims[0][x], 1, dims[1][y]));
    }
}

proof fn lemma_random_rows_len(s: u64, dims: Seq<Seq<usize>>, k: nat)
    ensures
        random_rows(s, dims, k).1.len() == k,
    decreases k,
{
    if k > 0 {
        lemma_random_rows_len(s, dims, (k - 1) as nat);
    }
}

proof fn lemma_random_row_len(s: u64, dims: Seq<Seq<usize>>)
    ensures
        random_row(s, dims).1.len() == dims.len(),
    decreases dims.len(),
{
    if dims.len() > 0 {
        lemma_random_row_len(s, dims.drop_last());
    }
}


/// Pairwise rows over `dims` (each dimension a list of value indices):
/// every pair of values of two dimensions lies in some row. First every
/// pair of the first two dimensions (other columns 0), then, greedily in
/// the order of `greedy_fill`, a row for each pair still missing (its two
/// values, 0 elsewhere), then `extra` random rows from a stream seeded by
/// `extra_seed`. With two dimensions the seed rows hold every pair, so there
/// are `|dims[0]| * |dims[1]| + extra` rows. Deterministic for the same
/// inputs.
pub fn pairwise(dims: &[Vec<usize>], extra_seed: u64, extra: usize) -> (r: Vec<Vec<usize>>)
    ensures
        forall|k: int| 0 <= k < r@.len() ==> (#[trigger] r@[k])@.len() == dims@.len(),
        forall|i: int, j: int, x: int, y: int|
            #[trigger] valid_pair(rows_view(dims@), i, j, x, y) ==> has_pair(
                rows_view(r@),
                i,
                rows_view(dims@)[i][x],
                j,
                rows_view(dims@)[j][y],
            ),
        exists|fill: Seq<Seq<usize>>|
            fill_ok(rows_view(dims@), seed_rows(rows_view(dims@)), fill) && rows_view(r@) == seed_rows(
                rows_view(dims@),
            ) + fill + suffix_rows(rows_view(dims@), extra_seed, extra as nat),
        rows_view(r@) == greedy_fill(rows_view(dims@), seed_rows(rows_view(dims@)), 0, 1, 0, 0) + suffix_rows(
            rows_view(dims@),
            extra_seed,
            extra as nat,
        ),
        dims@.len() <= 2 ==> rows_view(r@) == seed_rows(rows_view(dims@)) + suffix_rows(
            rows_view(dims@),
            extra_seed,
            extra as nat,
        ),
        dims@.len() == 2 ==> r@.len() == dims@[0]@.len() * dims@[1]@.len() + extra,
{
    let ghost dv = rows_view(dims@);
    let mut out: Vec<Vec<usize>> = Vec::new();
    if dims.len() >= 2 {
        let n = dims.len();
        let d0 = &dims[0];
        let d1 = &dims[1];
        assert(d0@ == dv[0] && d1@ == dv[1]);
        let mut i: usize = 0;
        assert(d0@.take(0) =~= Seq::<usize>::empty());
        while i < d0.len()
            invariant
                i <= d0@.len(),
                n == dims@.len(),
                n >= 2,
                rows_view(out@) == cart_rows(d0@.take(i as int), d1@, n as nat),
                forall|k: int| 0 <= k < out@.len() ==> (#[trigger] out@[k])@.len() == n,
            decreases d0@.len() - i,
        {
            let ghost before = rows_view(out@);
            let mut j: usize = 0;
            while j < d1.len()
                invariant
                    j <= d1@.len(),
                    i < d0@.len(),
                    n >= 2,
                    rows_view(out@) == before + d1@.take(j as int).map_values(|b: usize| base_row(n as nat, d0@[i as int], b)),
                    forall|k: int| 0 <= k < out@.len() ==> (#[trigger] out@[k])@.len() == n,
                decreases d1@.len() - j,
            {
                let row = zero_row(n, d0[i], d1[j]);
                let ghost o0 = out@;
                out.push(row);
                assert(out@[out@.len() - 1] == row);
                assert(rows_view(out@) =~= rows_view(o0).push(base_row(n as nat, d0@[i as int], d1@[j as int])));
                assert(rows_view(out@) =~= before + d1@.take(j + 1).map_values(|b: usize| base_row(n as nat, d0@[i as int], b)));
                j += 1;
            }
            assert(d1@.take(d1@.len() as int) =~= d1@);
            assert(d0@.take(i + 1).drop_last() =~= d0@.take(i as int));
            assert(d0@.take(i + 1).last() == d0@[i as int]);
            i += 1;
        }
        assert(d0@.take(d0@.len() as int) =~= d0@);
        assert(rows_view(out@) == seed_rows(dv));
    } else {
        assert(rows_view(out@) =~= seed_rows(dv));
    }
    let ghost seed = rows_view(out@);
    fill_pairs(&mut out, dims);
    let ghost mid = rows_view(out@);
    assert(mid == greedy_fill(dv, seed, 0, 1, 0, 0));
    let ghost fill = choose|fill: Seq<Seq<usize>>| fill_ok(dv, seed, fill) && mid == seed + fill;
    let mut rng = Rng::new(extra_seed.wrapping_add(PAIRWISE_SALT));
    let ghost s0 = rng.state();
    let mut k: usize = 0;
    assert(mid + random_rows(s0, dv, 0).1 =~= mid);
    while k < extra
        invariant
            k <= extra,
            rows_view(out@) == mid + random_rows(s0, dv, k as nat).1,
            rng.state() == random_rows(s0, dv, k as nat).0,
            dv == rows_view(dims@),
            forall|m: int| 0 <= m < out@.len() ==> (#[trigger] out@[m])@.len() == dims@.len(),
        decreases extra - k,
    {
        let ghost sk = rng.state();
        let row = pick_row(&mut rng, dims);
        proof { lemma_random_row_len(sk, dv); }
        let ghost o0 = out@;
        out.push(row);
        assert(out@[out@.len() - 1] == row);
        assert(rows_view(out@) =~= rows_view(o0).push(row@));
        assert(rows_view(out@) =~= mid + random_rows(s0, dv, (k + 1) as nat).1);
        k += 1;
    }
    proof {
        let more = random_rows(s0, dv, extra as nat).1;
        assert forall|i: int, j: int, x: int, y: int|
            #[trigger] valid_pair(dv, i, j, x, y) implies has_pair(rows_view(out@), i, dv[i][x], j, dv[j][y]) by {
            lemma_has_pair_append(mid, more, i, dv[i][x], j, dv[j][y]);
        }
        assert(s0 == advance(wrapping_add(extra_seed, PAIRWISE_SALT)));
        assert(rows_view(out@) == seed + fill + suffix_rows(dv, extra_seed, extra as nat));
        if dims@.len() <= 2 {
            lemma_no_fill(dv, fill);
            assert(seed + fill =~= seed);
            lemma_random_rows_len(s0, dv, extra as nat);
            assert(rows_view(out@).len() == out@.len());
        }
    }
    out
}

// ---------------------------------------------------------------------------
// Pair coverage.
// ---------------------------------------------------------------------------

/// A covered pair: `(column i, value at i, column j, value at j)`, `i < j`.
pub type Quad = (usize, usize, usize, usize);

/// Pairs of `row` with first column before `a`, or first column `a` and
/// second column before `b`.
pub open spec fn row_pairs_upto(row: Seq<usize>, a: int, b: int) -> Set<Quad> {
    Set::new(
        |q: Quad|
            exists|i: int, j: int|
                0 <= i < j < row.len() && (i < a || (i == a && j < b)) && q == (i as usize, row[i], j as usize, row[j]),
    )
}

pub open spec fn row_pairs(row: Seq<usize>) -> Set<Quad> {
    row_pairs_upto(row, row.len() as int, 0)
}

/// Every pair covered by some row.
pub open spec fn covered(rows: Seq<Seq<usize>>) -> Set<Quad>
    decreases rows.len(),
{
    if rows.len() == 0 {
        Set::empty()
    } else {
        covered(rows.drop_last()).union(row_pairs(rows.last()))
    }
}

/// Number of distinct pairs `(i, row[i], j, row[j])`, `i < j`, over all rows.
pub fn pairs_covered(rows: &[Vec<usize>]) -> (n: usize)
    ensures
        n == covered(rows_view(rows@)).len(),
{
    let ghost rv = rows_view(rows@);
    let mut seen: Vec<Quad> = Vec::new();
    let mut r: usize = 0;
    assert(rv.take(0) =~= Seq::<Seq<usize>>::empty());
    assert(seen@.to_set() =~= Set::<Quad>::empty());
    while r < rows.len()
        invariant
            r <= rows@.len(),
            rv == rows_view(rows@),
            seen@.no_duplicates(),
            seen@.to_set() == covered(rv.take(r as int)),
        decreases rows@.len() - r,
    {
        let row = &rows[r];
        let ghost base = covered(rv.take(r as int));
        assert(rv[r as int] == row@);
        let mut i: usize = 0;
        assert(row_pairs_upto(row@, 0, 0) =~= Set::<Quad>::empty());
        assert(base.union(Set::<Quad>::empty()) =~= base);
        while i < row.len()
            invariant
                i <= row@.len(),
                seen@.no_duplicates(),
                seen@.to_set() == base.union(row_pairs_upto(row@, i as int, 0)),
            decreases row@.len() - i,
        {
            let mut j: usize = i + 1;
            assert(row_pairs_upto(row@, i as int, 0) =~= row_pairs_upto(row@, i as int, j as int));
            while j < row.len()
                invariant
                    i < row@.len(),
                    i < j <= row@.len(),
                    seen@.no_duplicates(),
                    seen@.to_set() == base.union(row_pairs_upto(row@, i as int, j as int)),
                decreases row@.len() - j,
            {
                let q: Quad = (i, row[i], j, row[j]);
                let ghost old_set = seen@.to_set();
                let mut k: usize = 0;
                let mut found = false;
                while k < seen.len() && !found
                    invariant
                        k <= seen@.len(),
                        forall|t: int| 0 <= t < k ==> seen@[t] != q,
                        found ==> k < seen@.len() && seen@[k as int] == q,
                    decreases seen@.len() - k + (if found { 0int } else { 1int }),
                {
                    let e = seen[k];
                    if e.0 == q.0 && e.1 == q.1 && e.2 == q.2 && e.3 == q.3 {
                        found = true;
                    } else {
                        k += 1;
                    }
                }
                if !found {
                    let ghost s0 = seen@;
                    seen.push(q);
                    proof {
                        assert(!s0.contains(q));
                        assert(seen@.to_set() =~= s0.to_set().insert(q)) by {
                            assert forall|x: Quad| seen@.contains(x) <==> s0.contains(x) || x == q by {
                                if seen@.contains(x) {
                                    let t = choose|t: int| 0 <= t < seen@.len() && seen@[t] == x;
                                    if t < s0.len() { assert(s0[t] == x); }
                                }
                                if s0.contains(x) {
                                    let t = choose|t: int| 0 <= t < s0.len() && s0[t] == x;
                                    assert(seen@[t] == x);
                                }
                                assert(seen@[s0.len() as int] == q);
                            }
                        }
                    }
                } else {
                    assert(old_set.contains(q));
                }
                proof {
                    assert(base.union(row_pairs_upto(row@, i as int, j + 1)) =~= old_set.insert(q)) by {
                        assert forall|x: Quad| row_pairs_upto(row@, i as int, j + 1).contains(x)
                            <==> row_pairs_upto(row@, i as int, j as int).contains(x) || x == q by {
                            if row_pairs_upto(row@, i as int, j + 1).contains(x) {
                                let (a, b) = choose|a: int, b: int|
                                    0 <= a < b < row@.len() && (a < i || (a == i && b < j + 1)) && x == (a as usize, row@[a], b as usize, row@[b]);
                                if !(a == i && b == j) {
                                    assert(row_pairs_upto(row@, i as int, j as int).contains(x));
                                }
                            }
                            if x == q {
                                assert(0 <= i < j < row@.len());
                            }
                        }
                    }
                    if found {
                        assert(old_set.insert(q) =~= old_set);
                    }
                }
                j += 1;
            }
            assert(row_pairs_upto(row@, i as int, j as int) =~= row_pairs_upto(row@, i + 1, 0)) by {
                assert forall|x: Quad| row_pairs_upto(row@, i as int, j as int).contains(x) <==> row_pairs_upto(row@, i + 1, 0).contains(x) by {
                    if row_pairs_upto(row@, i + 1, 0).contains(x) {
                        let (a, b) = choose|a: int, b: int|
                            0 <= a < b < row@.len() && (a < i + 1 || (a == i + 1 && b < 0)) && x == (a as usize, row@[a], b as usize, row@[b]);
                        assert(a < i || (a == i && b < j));
                    }
                }
            }
            i += 1;
        }
        assert(rv.take(r + 1).drop_last() =~= rv.take(r as int));
        assert(rv.take(r + 1).last() == row@);
        r += 1;
    }
    assert(rv.take(rows@.len() as int) =~= rv);
    proof {
        seen@.unique_seq_to_set();
    }
    seen.len()
}

// ---------------------------------------------------------------------------
// Stateful operation sequences.
// ---------------------------------------------------------------------------

/// Path class `i`: the text before and after the case number (`{n}`).
pub open spec fn template_before(i: int) -> Seq<char> {
    if i == 0 { "C:\\nz_"@ } else if i == 1 { "C:\\ex_"@ } else if i == 2 { "rel_"@ } else if i == 3 {
        "C:\\d1\\d2\\f_"@
    } else if i == 4 { "Z:\\f_"@ } else if i == 5 { "\\\\srv\\f_"@ } else if i == 6 { "C:\\t_"@ } else {
        "C:\\é_"@
    }
}

pub open spec fn template_after(i: int) -> Seq<char> {
    if i == 6 { ".txt\\"@ } else { ".txt"@ }
}

pub const PATH_CLASS_COUNT: usize = 8;

/// Path class `i < 8`: missing, existing, relative, nested, drive-missing,
/// unc, trailing, unicode; as the template text around the case number.
pub fn path_template(i: usize) -> (r: (&'static str, &'static str))
    requires
        i < PATH_CLASS_COUNT,
    ensures
        r.0@ == template_before(i as int),
        r.1@ == template_after(i as int),
{
    let before = if i == 0 {
        "C:\\nz_"
    } else if i == 1 {
        "C:\\ex_"
    } else if i == 2 {
        "rel_"
    } else if i == 3 {
        "C:\\d1\\d2\\f_"
    } else if i == 4 {
        "Z:\\f_"
    } else if i == 5 {
        "\\\\srv\\f_"
    } else if i == 6 {
        "C:\\t_"
    } else {
        "C:\\é_"
    };
    let after = if i == 6 { ".txt\\" } else { ".txt" };
    (before, after)
}

/// Access masks: read, write, read+write, zero.
pub open spec fn access_of(i: int) -> u32 {
    if i == 0 { 0x8000_0000 } else if i == 1 { 0x4000_0000 } else if i == 2 { 0xC000_0000 } else { 0 }
}

/// Dispositions: new, always, existing, open-always, truncate, bad (9).
pub open spec fn disp_of(i: int) -> u32 {
    if i == 0 { 1 } else if i == 1 { 2 } else if i == 2 { 3 } else if i == 3 { 4 } else if i == 4 { 5 } else { 9 }
}

pub fn access_value(i: usize) -> (r: u32)
    requires
        i < 4,
    ensures
        r == access_of(i as int),
{
    if i == 0 { 0x8000_0000 } else if i == 1 { 0x4000_0000 } else if i == 2 { 0xC000_0000 } else { 0 }
}

pub fn disp_value(i: usize) -> (r: u32)
    requires
        i < 6,
    ensures
        r == disp_of(i as int),
{
    if i == 0 { 1 } else if i == 1 { 2 } else if i == 2 { 3 } else if i == 3 { 4 } else if i == 4 { 5 } else { 9 }
}

/// One generated file operation from stream state `s`: a `Create` when
/// nothing is open or with chance 45/100 (random path class, access and
/// disposition), else `Write` (20), `Read` (20) or `Close` (15; after a
/// close the generator believes a handle is still open with chance 1/4).
pub open spec fn fileop_step(s: u64, have_open: bool, case: Seq<char>) -> (u64, bool, OpView) {
    let r = below_value(s, 100);
    let s1 = advance(s);
    if !have_open || r < 45 {
        let ci = below_value(s1, 8);
        let s2 = advance(s1);
        let ai = below_value(s2, 4);
        let s3 = advance(s2);
        let di = below_value(s3, 6);
        let s4 = advance(s3);
        (
            s4,
            true,
            OpView::Create {
                path: template_before(ci as int) + case + template_after(ci as int),
                access: access_of(ai as int),
                disp: disp_of(di as int),
            },
        )
    } else if r < 65 {
        (advance(s1), have_open, OpView::Write { len: (1 + below_value(s1, 11)) as u32 })
    } else if r < 85 {
        (advance(s1), have_open, OpView::Read { len: (1 + below_value(s1, 32)) as u32 })
    } else {
        (advance(s1), below_value(s1, 4) < 1, OpView::Close)
    }
}

pub open spec fn fileop_run(s: u64, case: Seq<char>, n: nat) -> (u64, bool, Seq<OpView>)
    decreases n,
{
    if n == 0 {
        (s, false, seq![])
    } else {
        let (s1, h, ops) = fileop_run(s, case, (n - 1) as nat);
        let (s2, h2, op) = fileop_step(s1, h, case);
        (s2, h2, ops.push(op))
    }
}

/// `n` file operations for case `case_idx`: create → write/read → close
/// chains with deviations (double close, op without a handle, stale
/// handle). Paths carry the case number.
pub fn fileop_sequence(rng: &mut Rng, case_idx: u64, n: usize) -> (ops: Vec<RawOp>)
    ensures
        ops@.map_values(|o: RawOp| op_view(o)) == fileop_run(old(rng).state(), decimal(case_idx as nat), n as nat).2,
        final(rng).state() == fileop_run(old(rng).state(), decimal(case_idx as nat), n as nat).0,
{
    let ghost s0 = rng.state();
    let digits = u64_decimal(case_idx);
    let ghost case = decimal(case_idx as nat);
    let mut ops: Vec<RawOp> = Vec::new();
    let mut have_open = false;
    let mut k: usize = 0;
    while k < n
        invariant
            k <= n,
            digits@ == case,
            rng.state() == fileop_run(s0, case, k as nat).0,
            have_open == fileop_run(s0, case, k as nat).1,
            ops@.map_values(|o: RawOp| op_view(o)) == fileop_run(s0, case, k as nat).2,
        decreases n - k,
    {
        let r = rng.below(100);
        let op = if !have_open || r < 45 {
            let ci = rng.below_usize(PATH_CLASS_COUNT);
            let (before, after) = path_template(ci);
            let mut p = chars_of(before);
            extend_chars(&mut p, digits.as_slice());
            let tail = chars_of(after);
            extend_chars(&mut p, tail.as_slice());
            let ai = rng.below_usize(4);
            let di = rng.below_usize(6);
            have_open = true;
            RawOp::Create { path: string_of(p.as_slice()), access: access_value(ai), disp: disp_value(di) }
        } else if r < 65 {
            let l = rng.below(11);
            RawOp::Write { len: (1 + l) as u32 }
        } else if r < 85 {
            let l = rng.below(32);
            RawOp::Read { len: (1 + l) as u32 }
        } else {
            have_open = rng.biased(1, 4);
            RawOp::Close
        };
        let ghost o0 = ops@;
        ops.push(op);
        assert(ops@.map_values(|o: RawOp| op_view(o)) =~= o0.map_values(|o: RawOp| op_view(o)).push(op_view(op)));
        k += 1;
    }
    ops
}

/// What every generated file operation looks like: a create names a path
/// class template around the case number, one of the four access masks and
/// one of the six dispositions; a write asks for 1 to 11 bytes, a read for
/// 1 to 32.
pub open spec fn fileop_shaped(case: Seq<char>, op: OpView) -> bool {
    match op {
        OpView::Create { path, access, disp } => {
            &&& exists|ci: int| 0 <= ci < 8 && path == #[trigger] template_before(ci) + case + template_after(ci)
            &&& (access == 0x8000_0000 || access == 0x4000_0000 || access == 0xC000_0000 || access == 0)
            &&& (disp == 1 || disp == 2 || disp == 3 || disp == 4 || disp == 5 || disp == 9)
        },
        OpView::Write { len } => 1 <= len <= 11,
        OpView::Read { len } => 1 <= len <= 32,
        OpView::Close => true,
    }
}

proof fn lemma_fileop_step_shaped(s: u64, have_open: bool, case: Seq<char>)
    ensures
        fileop_shaped(case, fileop_step(s, have_open, case).2),
        !have_open ==> fileop_step(s, have_open, case).2 is Create,
{
    let r = below_value(s, 100);
    let s1 = advance(s);
    if !have_open || r < 45 {
        let ci = below_value(s1, 8) as int;
        assert(0 <= ci < 8);
        let s2 = advance(s1);
        let s3 = advance(s2);
        assert(below_value(s2, 4) < 4);
        assert(below_value(s3, 6) < 6);
        let path = template_before(ci) + case + template_after(ci);
        assert(fileop_step(s, have_open, case).2 == OpView::Create {
            path,
            access: access_of(below_value(s2, 4) as int),
            disp: disp_of(below_value(s3, 6) as int),
        });
    } else {
        assert(below_value(s1, 11) < 11);
        assert(below_value(s1, 32) < 32);
    }
}

/// Generated file operations: one per step asked for, the first a create
/// (nothing is open yet), every one shaped as `fileop_shaped` says.
pub proof fn law_fileop_shape(s: u64, case: Seq<char>, n: nat)
    ensures
        fileop_run(s, case, n).2.len() == n,
        n > 0 ==> fileop_run(s, case, n).2[0] is Create,
        forall|k: int| 0 <= k < n ==> fileop_shaped(case, #[trigger] fileop_run(s, case, n).2[k]),
    decreases n,
{
    if n > 0 {
        law_fileop_shape(s, case, (n - 1) as nat);
        let (s1, h, ops) = fileop_run(s, case, (n - 1) as nat);
        lemma_fileop_step_shaped(s1, h, case);
        let all = fileop_run(s, case, n).2;
        assert(all == ops.push(fileop_step(s1, h, case).2));
        if n == 1 {
            assert(!h);
        }
        assert forall|k: int| 0 <= k < n implies fileop_shaped(case, #[trigger] all[k]) by {
            if k < n - 1 {
                assert(all[k] == ops[k]);
            }
        }
    }
}

/// Handle id for a lookup or close: a wild or future id (below
/// `pool + 2`) when nothing was inserted or with chance 1/5, else a
/// reference to an earlier insert (maybe already closed).
pub open spec fn pick_id_spec(s: u64, inserts: nat, pool: nat) -> (u64, usize) {
    if inserts == 0 {
        (below_state(s, (pool + 2) as u64), below_value(s, (pool + 2) as u64) as usize)
    } else if below_value(s, 5) < 1 {
        let s1 = advance(s);
        (below_state(s1, (pool + 2) as u64), below_value(s1, (pool + 2) as u64) as usize)
    } else {
        let s1 = advance(s);
        (below_state(s1, inserts as u64), below_value(s1, inserts as u64) as usize)
    }
}

fn pick_id(rng: &mut Rng, inserts: usize, pool: usize) -> (id: usize)
    requires
        pool <= usize::MAX - 2,
    ensures
        (final(rng).state(), id) == pick_id_spec(old(rng).state(), inserts as nat, pool as nat),
{
    if inserts == 0 || rng.biased(1, 5) {
        rng.below_usize(pool + 2)
    } else {
        rng.below_usize(inserts)
    }
}

pub open spec fn handle_gen_step(s: u64, inserts: nat, pool: nat) -> (u64, nat, HandleOp) {
    let r = below_value(s, 100);
    let s1 = advance(s);
    if r <= 44 {
        (s1, inserts + 1, HandleOp::Insert)
    } else if r <= 74 {
        let (s2, id) = pick_id_spec(s1, inserts, pool);
        (s2, inserts, HandleOp::Lookup { id })
    } else {
        let (s2, id) = pick_id_spec(s1, inserts, pool);
        (s2, inserts, HandleOp::Close { id })
    }
}

pub open spec fn handle_run(s: u64, n: nat, pool: nat) -> (u64, nat, Seq<HandleOp>)
    decreases n,
{
    if n == 0 {
        (s, 0, seq![])
    } else {
        let (s1, ins, ops) = handle_run(s, (n - 1) as nat, pool);
        let (s2, ins2, op) = handle_gen_step(s1, ins, pool);
        (s2, ins2, ops.push(op))
    }
}

/// Number of inserts in `ops`.
pub open spec fn insert_count(ops: Seq<HandleOp>) -> nat
    decreases ops.len(),
{
    if ops.len() == 0 {
        0
    } else {
        insert_count(ops.drop_last()) + if ops.last() is Insert { 1nat } else { 0nat }
    }
}

/// A lookup or close names an id below `pool + 2` or below the number of
/// inserts before it, whichever is larger.
pub open spec fn id_in_range(op: HandleOp, inserts: nat, pool: nat) -> bool {
    let bound = if pool + 2 > inserts { pool + 2 } else { inserts };
    match op {
        HandleOp::Insert => true,
        HandleOp::Lookup { id } => id < bound,
        HandleOp::Close { id } => id < bound,
    }
}

/// Generated handle operations: one per step asked for; the generator's
/// insert count is the number of inserts; every lookup or close names an
/// id below `max(pool + 2, inserts so far)`.
pub proof fn law_handle_ids(s: u64, n: nat, pool: nat)
    requires
        pool + 2 <= u64::MAX,
        n <= u64::MAX,
    ensures
        handle_run(s, n, pool).2.len() == n,
        handle_run(s, n, pool).1 == insert_count(handle_run(s, n, pool).2),
        forall|k: int|
            0 <= k < n ==> id_in_range(
                #[trigger] handle_run(s, n, pool).2[k],
                insert_count(handle_run(s, n, pool).2.take(k)),
                pool,
            ),
    decreases n,
{
    if n > 0 {
        let m = (n - 1) as nat;
        law_handle_ids(s, m, pool);
        let (s1, ins, ops) = handle_run(s, m, pool);
        let (s2, ins2, op) = handle_gen_step(s1, ins, pool);
        let all = ops.push(op);
        assert(handle_run(s, n, pool).2 == all);
        assert(all.drop_last() =~= ops);
        assert(all.take(m as int) =~= ops);
        assert(ins <= m) by {
            lemma_insert_count_le(ops);
        }
        assert(id_in_range(op, ins, pool)) by {
            let r = below_value(s1, 100);
            let t1 = advance(s1);
            if r > 44 {
                if ins == 0 {
                    assert(below_value(t1, (pool + 2) as u64) < pool + 2);
                } else if below_value(t1, 5) < 1 {
                    assert(below_value(advance(t1), (pool + 2) as u64) < pool + 2);
                } else {
                    assert(below_value(advance(t1), ins as u64) < ins);
                }
            }
        }
        assert forall|k: int| 0 <= k < n implies id_in_range(#[trigger] all[k], insert_count(all.take(k)), pool) by {
            if k < m {
                assert(all[k] == ops[k]);
                assert(all.take(k) =~= ops.take(k));
            }
        }
    }
}

proof fn lemma_insert_count_le(ops: Seq<HandleOp>)
    ensures
        insert_count(ops) <= ops.len(),
    decreases ops.len(),
{
    if ops.len() > 0 {
        lemma_insert_count_le(ops.drop_last());
    }
}

/// `n` handle operations over a pool of `pool` symbolic ids: inserts
/// (45/100), lookups (30) and closes (25) of earlier or wild ids.
pub fn handle_sequence(rng: &mut Rng, n: usize, pool: usize) -> (ops: Vec<HandleOp>)
    requires
        pool <= usize::MAX - 2,
    ensures
        ops@ == handle_run(old(rng).state(), n as nat, pool as nat).2,
        final(rng).state() == handle_run(old(rng).state(), n as nat, pool as nat).0,
{
    let ghost s0 = rng.state();
    let mut ops: Vec<HandleOp> = Vec::new();
    let mut inserts: usize = 0;
    let mut k: usize = 0;
    while k < n
        invariant
            k <= n,
            pool <= usize::MAX - 2,
            inserts <= k,
            rng.state() == handle_run(s0, k as nat, pool as nat).0,
            inserts == handle_run(s0, k as nat, pool as nat).1,
            ops@ == handle_run(s0, k as nat, pool as nat).2,
        decreases n - k,
    {
        let r = rng.below(100);
        if r <= 44 {
            ops.push(HandleOp::Insert);
            inserts += 1;
        } else if r <= 74 {
            let id = pick_id(rng, inserts, pool);
            ops.push(HandleOp::Lookup { id });
        } else {
            let id = pick_id(rng, inserts, pool);
            ops.push(HandleOp::Close { id });
        }
        k += 1;
    }
    ops
}

/// Reserve sizes offered by the memory generator.
pub open spec fn reserve_size(i: int) -> usize {
    if i == 0 { 0 } else if i == 1 { 1 } else if i == 2 { 100 } else if i == 3 { 4096 } else if i == 4 { 5000 } else {
        0x10_0000
    }
}

fn reserve_size_value(i: usize) -> (r: usize)
    requires
        i < 6,
    ensures
        r == reserve_size(i as int),
{
    if i == 0 { 0 } else if i == 1 { 1 } else if i == 2 { 100 } else if i == 3 { 4096 } else if i == 4 { 5000 } else {
        0x10_0000
    }
}

/// One memory operation on a random id of the pool: reserve (35/100, with a
/// size from `reserve_size`), commit (20), protect (20) or release (25);
/// protections are indexes into `PROTECTS`.
pub open spec fn mem_gen_step(s: u64, pool: nat) -> (u64, MemOp) {
    let id = below_value(s, pool as u64) as usize;
    let s1 = below_state(s, pool as u64);
    let r = below_value(s1, 100);
    let s2 = advance(s1);
    if r <= 34 {
        let si = below_value(s2, 6);
        let s3 = advance(s2);
        let p = below_value(s3, 6);
        (advance(s3), MemOp::Reserve { id, size: reserve_size(si as int), protect: p as u8 })
    } else if r <= 54 {
        (advance(s2), MemOp::Commit { id, protect: below_value(s2, 6) as u8 })
    } else if r <= 74 {
        (advance(s2), MemOp::Protect { id, protect: below_value(s2, 6) as u8 })
    } else {
        (s2, MemOp::Release { id })
    }
}

pub open spec fn mem_run(s: u64, n: nat, pool: nat) -> (u64, Seq<MemOp>)
    decreases n,
{
    if n == 0 {
        (s, seq![])
    } else {
        let (s1, ops) = mem_run(s, (n - 1) as nat, pool);
        let (s2, op) = mem_gen_step(s1, pool);
        (s2, ops.push(op))
    }
}

/// What every generated memory operation looks like: an id of the pool, a
/// reserve size from `reserve_size`, a protection index below 6, and never
/// a query.
pub open spec fn mem_op_shaped(op: MemOp, pool: nat) -> bool {
    match op {
        MemOp::Reserve { id, size, protect } => id < pool && (exists|si: int|
            0 <= si < 6 && size == #[trigger] reserve_size(si)) && protect < 6,
        MemOp::Commit { id, protect } => id < pool && protect < 6,
        MemOp::Protect { id, protect } => id < pool && protect < 6,
        MemOp::Release { id } => id < pool,
        MemOp::Query { .. } => false,
    }
}

/// Generated memory operations: one per step asked for, each shaped as
/// `mem_op_shaped` says (for a non-empty pool).
pub proof fn law_memory_ops(s: u64, n: nat, pool: nat)
    requires
        0 < pool <= u64::MAX,
    ensures
        mem_run(s, n, pool).1.len() == n,
        forall|k: int| 0 <= k < n ==> mem_op_shaped(#[trigger] mem_run(s, n, pool).1[k], pool),
    decreases n,
{
    if n > 0 {
        let m = (n - 1) as nat;
        law_memory_ops(s, m, pool);
        let (s1, ops) = mem_run(s, m, pool);
        let (s2, op) = mem_gen_step(s1, pool);
        let all = ops.push(op);
        assert(mem_run(s, n, pool).1 == all);
        assert(mem_op_shaped(op, pool)) by {
            assert(below_value(s1, pool as u64) < pool);
            let t1 = below_state(s1, pool as u64);
            let t2 = advance(t1);
            assert(below_value(t2, 6) < 6);
            assert(below_value(advance(t2), 6) < 6);
            let si = below_value(t2, 6) as int;
            assert(0 <= si < 6);
            assert(reserve_size(si) == reserve_size(si));
        }
        assert forall|k: int| 0 <= k < n implies mem_op_shaped(#[trigger] all[k], pool) by {
            if k < m {
                assert(all[k] == ops[k]);
            }
        }
    }
}

/// `n` memory operations over a pool of `pool` symbolic ids.
pub fn memory_sequence(rng: &mut Rng, n: usize, pool: usize) -> (ops: Vec<MemOp>)
    ensures
        ops@ == mem_run(old(rng).state(), n as nat, pool as nat).1,
        final(rng).state() == mem_run(old(rng).state(), n as nat, pool as nat).0,
{
    let ghost s0 = rng.state();
    let mut ops: Vec<MemOp> = Vec::new();
    let mut k: usize = 0;
    while k < n
        invariant
            k <= n,
            rng.state() == mem_run(s0, k as nat, pool as nat).0,
            ops@ == mem_run(s0, k as nat, pool as nat).1,
        decreases n - k,
    {
        let id = rng.below_usize(pool);
        let r = rng.below(100);
        if r <= 34 {
            let si = rng.below_usize(6);
            let size = reserve_size_value(si);
            let p = rng.below(6) as u8;
            ops.push(MemOp::Reserve { id, size, protect: p });
        } else if r <= 54 {
            let p = rng.below(6) as u8;
            ops.push(MemOp::Commit { id, protect: p });
        } else if r <= 74 {
            let p = rng.below(6) as u8;
            ops.push(MemOp::Protect { id, protect: p });
        } else {
            ops.push(MemOp::Release { id });
        }
        k += 1;
    }
    ops
}

/// Name of the file a fileops case may find already there.
pub open spec fn setup_name(case_idx: u64) -> Seq<char> {
    "C:\\ex_"@ + decimal(case_idx as nat) + ".txt"@
}

/// Setup of a fileops case drawn from state `s`: with probability 1/2 the
/// file `setup_name(case_idx)` already holds the guest message; else none.
pub open spec fn gen_setup_spec(s: u64, case_idx: u64) -> (u64, Seq<(Seq<char>, Seq<u8>)>) {
    (
        below_state(s, 2),
        if below_value(s, 2) < 1 {
            seq![(setup_name(case_idx), msg_spec())]
        } else {
            Seq::empty()
        },
    )
}

/// Deterministic setup of fileops case `case_idx` (see `gen_setup_spec`).
pub fn gen_setup(rng: &mut Rng, case_idx: u64) -> (r: Vec<(String, Vec<u8>)>)
    ensures
        (final(rng).state(), pairs_view(r@)) == gen_setup_spec(old(rng).state(), case_idx),
{
    let mut r: Vec<(String, Vec<u8>)> = Vec::new();
    if rng.biased(1, 2) {
        let mut name = chars_of("C:\\ex_");
        let d = u64_decimal(case_idx);
        extend_chars(&mut name, d.as_slice());
        let t = chars_of(".txt");
        extend_chars(&mut name, t.as_slice());
        r.push((string_of(name.as_slice()), msg()));
        assert(pairs_view(r@) =~= seq![(setup_name(case_idx), msg_spec())]);
    } else {
        assert(pairs_view(r@) =~= Seq::<(Seq<char>, Seq<u8>)>::empty());
    }
    r
}

} // verus!
