//! Explicit normalization of run results, applied in this order (and
//! idempotent): sandbox and temporary-directory paths become `<TMP>`
//! (their location is not observable on Windows); created files are
//! sorted (enumeration order is not guaranteed); stdout and stderr above
//! `STDOUT_CAP` bytes are cut there and marked `<TRUNCATED>`. Handles are
//! deliberately left alone: they are deterministic.
use vstd::prelude::*;
use crate::compare::OracleResult;
use crate::text::{chars_less, chars_lt, chars_of, extend_chars, lemma_chars_lt_order, owned, seq_eq, slice_copy, string_of};

verus! {

/// Bytes of stdout / stderr kept.
pub const STDOUT_CAP: usize = 65536;

/// `s` with every non-overlapping occurrence of `p`, left to right,
/// replaced by `r` (`str::replace`; `p` non-empty).
pub open spec fn replace_all(s: Seq<char>, p: Seq<char>, r: Seq<char>) -> Seq<char>
    decreases s.len(),
{
    if p.len() == 0 || s.len() < p.len() {
        s
    } else if s.take(p.len() as int) == p {
        r + replace_all(s.skip(p.len() as int), p, r)
    } else {
        seq![s[0]] + replace_all(s.drop_first(), p, r)
    }
}

pub open spec fn tmp_marker() -> Seq<char> {
    "<TMP>"@
}

pub open spec fn trunc_marker() -> Seq<char> {
    "<TRUNCATED>"@
}

/// Bytes of the UTF-8 encoding of one character.
pub open spec fn utf8_width(c: char) -> nat {
    if (c as u32) < 0x80 {
        1
    } else if (c as u32) < 0x800 {
        2
    } else if (c as u32) < 0x10000 {
        3
    } else {
        4
    }
}

/// Bytes of the UTF-8 encoding of `s`.
pub open spec fn utf8_size(s: Seq<char>) -> nat
    decreases s.len(),
{
    if s.len() == 0 {
        0
    } else {
        utf8_size(s.drop_last()) + utf8_width(s.last())
    }
}

/// `STDOUT_CAP` bytes into `s` fall between two characters.
pub open spec fn cap_boundary(s: Seq<char>) -> bool {
    exists|k: int| 0 <= k <= s.len() && utf8_size(s.take(k)) == STDOUT_CAP
}

/// `s` cut to its first `STDOUT_CAP` bytes, then marked, when longer.
pub open spec fn cap_text(s: Seq<char>) -> Seq<char> {
    if utf8_size(s) <= STDOUT_CAP {
        s
    } else {
        s.take(choose|k: int| 0 <= k <= s.len() && utf8_size(s.take(k)) == STDOUT_CAP) + trunc_marker()
    }
}

pub open spec fn opt_chars(o: Option<String>) -> Option<Seq<char>> {
    match o {
        Some(s) => Some(s@),
        None => None,
    }
}

pub open spec fn map_opt(o: Option<Seq<char>>, f: spec_fn(Seq<char>) -> Seq<char>) -> Option<Seq<char>> {
    match o {
        Some(s) => Some(f(s)),
        None => None,
    }
}

/// Texts and file names after the path rule for one directory `d`
/// (nothing when `d` is empty).
pub open spec fn sub_dir(t: Option<Seq<char>>, d: Seq<char>) -> Option<Seq<char>> {
    if d.len() == 0 {
        t
    } else {
        map_opt(t, |x: Seq<char>| replace_all(x, d, tmp_marker()))
    }
}

pub open spec fn sub_dir_all(v: Seq<Seq<char>>, d: Seq<char>) -> Seq<Seq<char>> {
    if d.len() == 0 {
        v
    } else {
        v.map_values(|x: Seq<char>| replace_all(x, d, tmp_marker()))
    }
}

pub open spec fn names(v: Seq<String>) -> Seq<Seq<char>> {
    v.map_values(|x: String| x@)
}

pub open spec fn names_sorted(v: Seq<Seq<char>>) -> bool {
    forall|i: int, j: int| 0 <= i < j < v.len() ==> !chars_lt(v[j], v[i])
}

pub open spec fn size_or(t: Option<Seq<char>>, n: usize) -> nat {
    match t {
        Some(s) => utf8_size(s),
        None => n as nat,
    }
}

proof fn lemma_utf8_size_take_mono(s: Seq<char>, j: int, k: int)
    requires
        0 <= j <= k <= s.len(),
    ensures
        utf8_size(s.take(j)) <= utf8_size(s.take(k)),
        j < k ==> utf8_size(s.take(j)) < utf8_size(s.take(k)),
    decreases k - j,
{
    if j < k {
        lemma_utf8_size_take_mono(s, j, k - 1);
        assert(s.take(k).drop_last() =~= s.take(k - 1));
    }
}

fn char_width(c: char) -> (w: usize)
    ensures
        w as nat == utf8_width(c),
{
    let u = c as u32;
    if u < 0x80 {
        1
    } else if u < 0x800 {
        2
    } else if u < 0x10000 {
        3
    } else {
        4
    }
}

/// `replace_all(s, p, r)` for a non-empty `p`.
fn replace_chars(s: &[char], p: &[char], r: &[char]) -> (out: Vec<char>)
    requires
        p@.len() > 0,
    ensures
        out@ == replace_all(s@, p@, r@),
{
    let mut out: Vec<char> = Vec::new();
    let mut i: usize = 0;
    assert(s@.skip(0) =~= s@);
    while i < s.len()
        invariant
            p@.len() > 0,
            i <= s@.len(),
            out@ + replace_all(s@.skip(i as int), p@, r@) == replace_all(s@, p@, r@),
        decreases s@.len() - i,
    {
        let ghost t = s@.skip(i as int);
        if s.len() - i < p.len() {
            let rest = slice_copy(s, i, s.len());
            extend_chars(&mut out, rest.as_slice());
            assert(rest@ =~= t);
            assert(replace_all(t, p@, r@) == t);
            return out;
        }
        let piece = slice_copy(s, i, i + p.len());
        assert(piece@ =~= t.take(p@.len() as int));
        if seq_eq(piece.as_slice(), p) {
            let ghost before = out@;
            extend_chars(&mut out, r);
            assert(t.skip(p@.len() as int) =~= s@.skip(i + p@.len()));
            assert(before + (r@ + replace_all(t.skip(p@.len() as int), p@, r@)) =~= out@ + replace_all(s@.skip(i + p@.len()), p@, r@));
            i += p.len();
        } else {
            let ghost before = out@;
            out.push(s[i]);
            assert(t.drop_first() =~= s@.skip(i + 1));
            assert(t[0] == s@[i as int]);
            assert(before + (seq![s@[i as int]] + replace_all(t.drop_first(), p@, r@)) =~= out@ + replace_all(s@.skip(i + 1), p@, r@));
            i += 1;
        }
    }
    assert(s@.skip(i as int) =~= Seq::<char>::empty());
    assert(out@ + Seq::<char>::empty() =~= out@);
    out
}

fn replace_text(s: &str, d: &str) -> (r: String)
    requires
        d@.len() > 0,
    ensures
        r@ == replace_all(s@, d@, tmp_marker()),
{
    let sc = chars_of(s);
    let dc = chars_of(d);
    let mc = chars_of("<TMP>");
    let out = replace_chars(sc.as_slice(), dc.as_slice(), mc.as_slice());
    string_of(out.as_slice())
}

fn sub_dir_opt(t: &Option<String>, d: &str) -> (r: Option<String>)
    ensures
        opt_chars(r) == sub_dir(opt_chars(*t), d@),
{
    match t {
        Some(s) => {
            if d.unicode_len() == 0 {
                Some(owned(s.as_str()))
            } else {
                Some(replace_text(s.as_str(), d))
            }
        },
        None => None,
    }
}

fn sub_dir_names(v: &Vec<String>, d: &str) -> (r: Vec<String>)
    ensures
        names(r@) == sub_dir_all(names(v@), d@),
{
    let empty = d.unicode_len() == 0;
    let mut r: Vec<String> = Vec::new();
    let mut i: usize = 0;
    while i < v.len()
        invariant
            empty == (d@.len() == 0),
            i <= v@.len(),
            r@.len() == i,
            forall|k: int| 0 <= k < i ==> (#[trigger] r@[k])@ == sub_dir_all(names(v@), d@)[k],
        decreases v@.len() - i,
    {
        let x = if empty { owned(v[i].as_str()) } else { replace_text(v[i].as_str(), d) };
        r.push(x);
        i += 1;
    }
    assert(names(r@) =~= sub_dir_all(names(v@), d@));
    r
}

/// Size in bytes of the UTF-8 encoding of `s`.
fn utf8_size_of(s: &[char]) -> (n: usize)
    requires
        utf8_size(s@) <= usize::MAX,
    ensures
        n as nat == utf8_size(s@),
{
    let mut n: usize = 0;
    let mut i: usize = 0;
    while i < s.len()
        invariant
            i <= s@.len(),
            utf8_size(s@) <= usize::MAX,
            n as nat == utf8_size(s@.take(i as int)),
        decreases s@.len() - i,
    {
        proof {
            assert(s@.take(i + 1).drop_last() =~= s@.take(i as int));
            lemma_utf8_size_take_mono(s@, i + 1, s@.len() as int);
            assert(s@.take(s@.len() as int) =~= s@);
        }
        n = n + char_width(s[i]);
        i += 1;
    }
    assert(s@.take(s@.len() as int) =~= s@);
    n
}

proof fn lemma_utf8_size_bound(s: Seq<char>)
    ensures
        utf8_size(s) <= 4 * s.len(),
    decreases s.len(),
{
    if s.len() > 0 {
        lemma_utf8_size_bound(s.drop_last());
    }
}

/// Applies the stdout cap to `t`.
fn cap_chars(t: &Vec<char>) -> (r: Vec<char>)
    requires
        utf8_size(t@) > STDOUT_CAP ==> cap_boundary(t@),
        t@.len() <= usize::MAX / 4,
    ensures
        r@ == cap_text(t@),
{
    proof {
        lemma_utf8_size_bound(t@);
    }
    let total = utf8_size_of(t.as_slice());
    if total <= STDOUT_CAP {
        return slice_copy(t.as_slice(), 0, t.len());
    }
    let mut acc: usize = 0;
    let mut i: usize = 0;
    while acc < STDOUT_CAP
        invariant
            i <= t@.len(),
            acc as nat == utf8_size(t@.take(i as int)),
            i == 0 || utf8_size(t@.take(i - 1)) < STDOUT_CAP,
            utf8_size(t@) > STDOUT_CAP,
            t@.len() <= usize::MAX / 4,
        decreases t@.len() - i,
    {
        proof {
            if i == t@.len() {
                assert(t@.take(i as int) =~= t@);
            }
            assert(t@.take(i + 1).drop_last() =~= t@.take(i as int));
        }
        acc = acc + char_width(t[i]);
        i += 1;
    }
    proof {
        let k = choose|k: int| 0 <= k <= t@.len() && utf8_size(t@.take(k)) == STDOUT_CAP;
        if k < i {
            lemma_utf8_size_take_mono(t@, k, i - 1);
        } else if k > i {
            lemma_utf8_size_take_mono(t@, i as int, k);
        }
        assert(k == i);
    }
    let mut out = slice_copy(t.as_slice(), 0, i);
    let mark = chars_of("<TRUNCATED>");
    extend_chars(&mut out, mark.as_slice());
    assert(out@ =~= t@.take(i as int) + trunc_marker());
    out
}

fn insert_sorted(v: &mut Vec<String>, x: String)
    requires
        names_sorted(names(old(v)@)),
    ensures
        names_sorted(names(final(v)@)),
        names(final(v)@).to_multiset() == names(old(v)@).to_multiset().insert(x@),
{
    let xc = chars_of(x.as_str());
    let mut pos: usize = 0;
    while pos < v.len()
        invariant
            pos <= v@.len(),
            xc@ == x@,
            names_sorted(names(v@)),
            v@ == old(v)@,
            forall|k: int| 0 <= k < pos ==> !chars_lt(x@, #[trigger] names(v@)[k]),
        ensures
            pos <= v@.len(),
            v@ == old(v)@,
            forall|k: int| 0 <= k < pos ==> !chars_lt(x@, #[trigger] names(v@)[k]),
            pos == v@.len() || chars_lt(x@, names(v@)[pos as int]),
        decreases v@.len() - pos,
    {
        let cc = chars_of(v[pos].as_str());
        if chars_less(xc.as_slice(), cc.as_slice()) {
            assert(names(v@)[pos as int] == v@[pos as int]@);
            break;
        }
        pos += 1;
    }
    let ghost s = names(v@);
    proof {
        assert(pos == s.len() || chars_lt(x@, s[pos as int]));
    }
    v.insert(pos, x);
    proof {
        let t = names(v@);
        assert(t =~= s.insert(pos as int, x@));
        assert forall|i: int, j: int| 0 <= i < j < t.len() implies !chars_lt(t[j], t[i]) by {
            if i < pos && j == pos {
                lemma_chars_lt_order(x@, s[i], x@);
            } else if i == pos && j > pos {
                lemma_chars_lt_order(x@, s[pos as int], s[j - 1]);
                if j - 1 > pos {
                    lemma_chars_lt_order(s[j - 1], s[pos as int], x@);
                    lemma_chars_lt_order(s[pos as int], x@, s[j - 1]);
                    lemma_chars_lt_order(s[j - 1], x@, s[pos as int]);
                }
            } else if i < pos && j > pos {
                assert(t[i] == s[i] && t[j] == s[j - 1]);
            } else if j < pos {
                assert(t[i] == s[i] && t[j] == s[j]);
            } else {
                assert(t[i] == s[i - 1] && t[j] == s[j - 1]);
            }
        }
        vstd::seq_lib::to_multiset_insert(s, pos as int, x@);
    }
}

fn sort_names(v: Vec<String>) -> (r: Vec<String>)
    ensures
        names_sorted(names(r@)),
        names(r@).to_multiset() == names(v@).to_multiset(),
{
    let mut r: Vec<String> = Vec::new();
    let mut i: usize = 0;
    assert(names(r@) =~= names(v@).take(0));
    while i < v.len()
        invariant
            i <= v@.len(),
            names_sorted(names(r@)),
            names(r@).to_multiset() == names(v@).take(i as int).to_multiset(),
        decreases v@.len() - i,
    {
        insert_sorted(&mut r, owned(v[i].as_str()));
        proof {
            assert(names(v@).take(i + 1) =~= names(v@).take(i as int).push(names(v@)[i as int]));
            vstd::seq_lib::to_multiset_build(names(v@).take(i as int), names(v@)[i as int]);
        }
        i += 1;
    }
    assert(names(v@).take(v@.len() as int) =~= names(v@));
    r
}

/// Text after both path rules (`tmp_dir`, then `sandbox`).
pub open spec fn text_rules(t: Option<Seq<char>>, tmp_dir: Seq<char>, sandbox: Seq<char>) -> Option<Seq<char>> {
    sub_dir(sub_dir(t, tmp_dir), sandbox)
}

pub open spec fn capped(t: Option<Seq<char>>) -> Option<Seq<char>> {
    map_opt(t, |x: Seq<char>| cap_text(x))
}

/// The stdout cap cuts between characters (or does not cut).
pub open spec fn cap_ok(t: Option<Seq<char>>) -> bool {
    match t {
        Some(s) => utf8_size(s) > STDOUT_CAP ==> cap_boundary(s),
        None => true,
    }
}

fn cap_opt(t: Option<String>) -> (r: Option<String>)
    requires
        cap_ok(opt_chars(t)),
        t matches Some(s) ==> s@.len() <= usize::MAX / 4,
    ensures
        opt_chars(r) == capped(opt_chars(t)),
{
    match t {
        Some(s) => {
            let c = chars_of(s.as_str());
            let k = cap_chars(&c);
            Some(string_of(k.as_slice()))
        },
        None => None,
    }
}

fn size_of_opt(t: &Option<String>, n: usize) -> (r: usize)
    requires
        t matches Some(s) ==> s@.len() <= usize::MAX / 4,
    ensures
        r as nat == size_or(opt_chars(*t), n),
{
    match t {
        Some(s) => {
            let c = chars_of(s.as_str());
            proof {
                lemma_utf8_size_bound(c@);
            }
            utf8_size_of(c.as_slice())
        },
        None => n,
    }
}

/// The inputs `normalize` takes: the stdout cap falls between two
/// characters, and the texts leave room for the truncation marker.
pub open spec fn normalizable(r: OracleResult, tmp_dir: Seq<char>, sandbox: Seq<char>) -> bool {
    &&& cap_ok(text_rules(opt_chars(r.stdout_text), tmp_dir, sandbox))
    &&& cap_ok(text_rules(opt_chars(r.stderr_text), tmp_dir, sandbox))
    &&& text_rules(opt_chars(r.stdout_text), tmp_dir, sandbox) matches Some(s) ==> s.len() + 11 <= usize::MAX / 4
    &&& text_rules(opt_chars(r.stderr_text), tmp_dir, sandbox) matches Some(s) ==> s.len() + 11 <= usize::MAX / 4
}

/// `n` is `r` normalized (run in `sandbox`, with the system temporary
/// directory `tmp_dir`): both directories become `<TMP>` in the texts and
/// file names, the names are sorted, the texts capped, the byte counts
/// follow the texts, and the other fields are kept.
pub open spec fn normalized(r: OracleResult, n: OracleResult, tmp_dir: Seq<char>, sandbox: Seq<char>) -> bool {
    &&& opt_chars(n.stdout_text) == capped(text_rules(opt_chars(r.stdout_text), tmp_dir, sandbox))
    &&& opt_chars(n.stderr_text) == capped(text_rules(opt_chars(r.stderr_text), tmp_dir, sandbox))
    &&& names_sorted(names(n.files_created@))
    &&& names(n.files_created@).to_multiset() == sub_dir_all(
        sub_dir_all(names(r.files_created@), tmp_dir),
        sandbox,
    ).to_multiset()
    &&& n.stdout_bytes as nat == size_or(opt_chars(n.stdout_text), r.stdout_bytes)
    &&& n.stderr_bytes as nat == size_or(opt_chars(n.stderr_text), r.stderr_bytes)
    &&& n.exit_code == r.exit_code
    &&& n.timed_out == r.timed_out
    &&& opt_chars(n.crash) == opt_chars(r.crash)
}

/// Two results hold the same values.
pub open spec fn same_result(a: OracleResult, b: OracleResult) -> bool {
    &&& a.exit_code == b.exit_code
    &&& opt_chars(a.stdout_text) == opt_chars(b.stdout_text)
    &&& opt_chars(a.stderr_text) == opt_chars(b.stderr_text)
    &&& a.stdout_bytes == b.stdout_bytes
    &&& a.stderr_bytes == b.stderr_bytes
    &&& opt_chars(a.crash) == opt_chars(b.crash)
    &&& a.timed_out == b.timed_out
    &&& names(a.files_created@) == names(b.files_created@)
}

proof fn lemma_cap_idempotent(s: Seq<char>)
    requires
        utf8_size(s) > STDOUT_CAP ==> cap_boundary(s),
    ensures
        cap_text(cap_text(s)) == cap_text(s),
{
    if utf8_size(s) > STDOUT_CAP {
        let k = choose|k: int| 0 <= k <= s.len() && utf8_size(s.take(k)) == STDOUT_CAP;
        let c = s.take(k) + trunc_marker();
        reveal_strlit("<TRUNCATED>");
        assert(c.take(k) =~= s.take(k));
        assert(utf8_size(c) > STDOUT_CAP) by {
            lemma_utf8_size_take_mono(c, k, c.len() as int);
            assert(c.take(c.len() as int) =~= c);
        }
        let k2 = choose|k2: int| 0 <= k2 <= c.len() && utf8_size(c.take(k2)) == STDOUT_CAP;
        if k2 < k {
            lemma_utf8_size_take_mono(c, k2, k);
        } else if k2 > k {
            lemma_utf8_size_take_mono(c, k, k2);
        }
        assert(c.take(k2) + trunc_marker() =~= c);
    }
}

/// `a` does not sort after `b`.
pub open spec fn name_leq(a: Seq<char>, b: Seq<char>) -> bool {
    !chars_lt(b, a)
}

proof fn lemma_name_leq_total()
    ensures
        vstd::relations::total_ordering(|a: Seq<char>, b: Seq<char>| name_leq(a, b)),
{
    let leq = |a: Seq<char>, b: Seq<char>| name_leq(a, b);
    assert forall|a: Seq<char>| #[trigger] leq(a, a) by {
        lemma_chars_lt_order(a, a, a);
    }
    assert forall|a: Seq<char>, b: Seq<char>| #[trigger] leq(a, b) && #[trigger] leq(b, a) implies a == b by {
        lemma_chars_lt_order(a, b, a);
    }
    assert forall|a: Seq<char>, b: Seq<char>, c: Seq<char>| #[trigger] leq(a, b) && #[trigger] leq(b, c) implies leq(
        a,
        c,
    ) by {
        lemma_chars_lt_order(c, a, b);
        lemma_chars_lt_order(a, b, c);
        lemma_chars_lt_order(c, b, a);
    }
    assert forall|a: Seq<char>, b: Seq<char>| #[trigger] leq(a, b) || #[trigger] leq(b, a) by {
        lemma_chars_lt_order(a, b, a);
    }
}

/// Normalization is idempotent: normalizing a normalized result gives it
/// back, whenever neither directory occurs any more in its texts and file
/// names (replacing them there changes nothing).
pub proof fn law_normalize_idempotent(
    r: OracleResult,
    n: OracleResult,
    n2: OracleResult,
    tmp_dir: Seq<char>,
    sandbox: Seq<char>,
)
    requires
        normalizable(r, tmp_dir, sandbox),
        normalized(r, n, tmp_dir, sandbox),
        normalized(n, n2, tmp_dir, sandbox),
        text_rules(opt_chars(n.stdout_text), tmp_dir, sandbox) == opt_chars(n.stdout_text),
        text_rules(opt_chars(n.stderr_text), tmp_dir, sandbox) == opt_chars(n.stderr_text),
        sub_dir_all(sub_dir_all(names(n.files_created@), tmp_dir), sandbox) == names(n.files_created@),
    ensures
        same_result(n2, n),
{
    match text_rules(opt_chars(r.stdout_text), tmp_dir, sandbox) {
        Some(t) => lemma_cap_idempotent(t),
        None => {},
    }
    match text_rules(opt_chars(r.stderr_text), tmp_dir, sandbox) {
        Some(t) => lemma_cap_idempotent(t),
        None => {},
    }
    lemma_name_leq_total();
    let leq = |a: Seq<char>, b: Seq<char>| name_leq(a, b);
    let v1 = names(n.files_created@);
    let v2 = names(n2.files_created@);
    assert(vstd::relations::sorted_by(v1, leq));
    assert(vstd::relations::sorted_by(v2, leq));
    vstd::seq_lib::lemma_sorted_unique(v2, v1, leq);
}

/// Applies every rule to `r` (run in `sandbox`, with the system temporary
/// directory `tmp_dir`); the other fields are kept.
pub fn normalize(r: &OracleResult, tmp_dir: &str, sandbox: &str) -> (n: OracleResult)
    requires
        normalizable(*r, tmp_dir@, sandbox@),
    ensures
        normalized(*r, n, tmp_dir@, sandbox@),
{
    let out1 = sub_dir_opt(&r.stdout_text, tmp_dir);
    let err1 = sub_dir_opt(&r.stderr_text, tmp_dir);
    let files1 = sub_dir_names(&r.files_created, tmp_dir);
    let out2 = sub_dir_opt(&out1, sandbox);
    let err2 = sub_dir_opt(&err1, sandbox);
    let files2 = sub_dir_names(&files1, sandbox);
    let files = sort_names(files2);
    let stdout_text = cap_opt(out2);
    let stderr_text = cap_opt(err2);
    proof {
        match opt_chars(stdout_text) {
            Some(s) => {
                let t = text_rules(opt_chars(r.stdout_text), tmp_dir@, sandbox@)->0;
                if utf8_size(t) > STDOUT_CAP {
                    let k = choose|k: int| 0 <= k <= t.len() && utf8_size(t.take(k)) == STDOUT_CAP;
                    assert(s.len() == k + 11) by {
                        reveal_strlit("<TRUNCATED>");
                    }
                }
            },
            None => {},
        }
        match opt_chars(stderr_text) {
            Some(s) => {
                let t = text_rules(opt_chars(r.stderr_text), tmp_dir@, sandbox@)->0;
                if utf8_size(t) > STDOUT_CAP {
                    let k = choose|k: int| 0 <= k <= t.len() && utf8_size(t.take(k)) == STDOUT_CAP;
                    assert(s.len() == k + 11) by {
                        reveal_strlit("<TRUNCATED>");
                    }
                }
            },
            None => {},
        }
    }
    let stdout_bytes = size_of_opt(&stdout_text, r.stdout_bytes);
    let stderr_bytes = size_of_opt(&stderr_text, r.stderr_bytes);
    let crash = match &r.crash {
        Some(c) => Some(owned(c.as_str())),
        None => None,
    };
    OracleResult {
        exit_code: r.exit_code,
        stdout_text,
        stderr_text,
        stdout_bytes,
        stderr_bytes,
        crash,
        timed_out: r.timed_out,
        files_created: files,
    }
}

/// The rules, each with its reason (for reports).
/// Normalization rules, in the order they apply, with their reason.
pub open spec fn rules_list() -> Seq<(Seq<char>, Seq<char>)> {
    seq![
        ("tmp-paths"@, "sandbox difere por run; não é observável Windows"@),
        ("sort-files"@, "ordem de enumeração não garantida"@),
        ("cap-stdout"@, "64 KiB + marcador; evita OOM em fuzz"@),
        ("strip-timings"@, "reservada (sem campos de tempo hoje)"@),
        ("pid-tid"@, "reservada (sem PIDs/TIDs nos resultados hoje)"@),
        ("handles-are-stable"@, "ANTI-regra: handles são determinísticos, não tocar"@),
    ]
}

pub fn rules() -> (r: Vec<(&'static str, &'static str)>)
    ensures
        r@.map_values(|p: (&str, &str)| (p.0@, p.1@)) == rules_list(),
{
    let r = vec![
        ("tmp-paths", "sandbox difere por run; não é observável Windows"),
        ("sort-files", "ordem de enumeração não garantida"),
        ("cap-stdout", "64 KiB + marcador; evita OOM em fuzz"),
        ("strip-timings", "reservada (sem campos de tempo hoje)"),
        ("pid-tid", "reservada (sem PIDs/TIDs nos resultados hoje)"),
        ("handles-are-stable", "ANTI-regra: handles são determinísticos, não tocar"),
    ];
    assert(r@.map_values(|p: (&str, &str)| (p.0@, p.1@)) =~= rules_list());
    r
}

/// `q` occurs in `s` at position `i`.
pub open spec fn occurs_at(s: Seq<char>, q: Seq<char>, i: int) -> bool {
    0 <= i && i + q.len() <= s.len() && s.subrange(i, i + q.len()) == q
}

/// `q` occurs nowhere in `s`.
pub open spec fn absent(s: Seq<char>, q: Seq<char>) -> bool {
    forall|i: int| !#[trigger] occurs_at(s, q, i)
}

/// A directory the markers cannot mimic: a path with a `/` and without
/// `<` or `>`, so no occurrence of it can overlap `<TMP>` or `<TRUNCATED>`.
pub open spec fn marker_safe(d: Seq<char>) -> bool {
    d.contains('/') && !d.contains('<') && !d.contains('>')
}

/// A directory that normalization handles: none, or a marker-safe one.
pub open spec fn dir_ok(d: Seq<char>) -> bool {
    d.len() == 0 || marker_safe(d)
}

/// A marker: from `<` to `>`, no `/` in it.
pub open spec fn is_marker(m: Seq<char>) -> bool {
    m.len() >= 2 && m[0] == '<' && m.last() == '>' && !m.contains('/')
}

proof fn lemma_markers()
    ensures
        is_marker(tmp_marker()),
        is_marker(trunc_marker()),
{
    reveal_strlit("<TMP>");
    reveal_strlit("<TRUNCATED>");
    let a = tmp_marker();
    let b = trunc_marker();
    assert(!a.contains('/')) by {
        if a.contains('/') {
            let k = choose|k: int| 0 <= k < a.len() && a[k] == '/';
            assert(a[k] != '/');
        }
    }
    assert(!b.contains('/')) by {
        if b.contains('/') {
            let k = choose|k: int| 0 <= k < b.len() && b[k] == '/';
            assert(b[k] != '/');
        }
    }
}

/// An occurrence of a marker-safe `q` in `a + m + b` lies in `a` or in `b`.
proof fn lemma_around_marker(a: Seq<char>, m: Seq<char>, b: Seq<char>, q: Seq<char>, i: int)
    requires
        is_marker(m),
        marker_safe(q),
        occurs_at(a + m + b, q, i),
    ensures
        i + q.len() <= a.len() && occurs_at(a, q, i) || i >= a.len() + m.len() && occurs_at(b, q, i - a.len() - m.len()),
{
    let t = a + m + b;
    let sub = t.subrange(i, i + q.len());
    if i < a.len() && i + q.len() > a.len() {
        assert(q[a.len() - i] == sub[a.len() - i]);
        assert(sub[a.len() - i] == m[0]);
        assert(q.contains('<'));
    } else if a.len() <= i < a.len() + m.len() {
        if i + q.len() <= a.len() + m.len() {
            let k = choose|k: int| 0 <= k < q.len() && q[k] == '/';
            assert(q[k] == sub[k]);
            assert(sub[k] == m[i - a.len() + k]);
            assert(m.contains('/'));
        } else {
            let k = a.len() + m.len() - 1 - i;
            assert(q[k] == sub[k]);
            assert(sub[k] == m[m.len() - 1]);
            assert(q.contains('>'));
        }
    } else if i + q.len() <= a.len() {
        assert(a.subrange(i, i + q.len()) =~= sub);
    } else {
        assert(b.subrange(i - a.len() - m.len(), i - a.len() - m.len() + q.len()) =~= sub);
    }
}

/// Before its first `<`, a replacement's output is the input unchanged.
proof fn lemma_prefix_untouched(s: Seq<char>, p: Seq<char>, k: int)
    requires
        0 <= k <= replace_all(s, p, tmp_marker()).len(),
        !replace_all(s, p, tmp_marker()).take(k).contains('<'),
    ensures
        k <= s.len(),
        replace_all(s, p, tmp_marker()).take(k) == s.take(k),
    decreases s.len(),
{
    let r = replace_all(s, p, tmp_marker());
    lemma_markers();
    if p.len() == 0 || s.len() < p.len() {
    } else if s.take(p.len() as int) == p {
        if k > 0 {
            assert(r.take(k)[0] == tmp_marker()[0]);
            assert(r.take(k).contains('<'));
        }
    } else if k > 0 {
        let r2 = replace_all(s.drop_first(), p, tmp_marker());
        assert(r == seq![s[0]] + r2);
        assert(r2.take(k - 1) =~= r.take(k).drop_first());
        let r2k = r2.take(k - 1);
        assert(!r2k.contains('<')) by {
            if r2k.contains('<') {
                let j = choose|j: int| 0 <= j < r2k.len() && r2k[j] == '<';
                assert(r.take(k)[j + 1] == '<');
            }
        }
        lemma_prefix_untouched(s.drop_first(), p, k - 1);
        assert(r.take(k) =~= seq![s[0]] + r2.take(k - 1));
        assert(s.take(k) =~= seq![s[0]] + s.drop_first().take(k - 1));
    }
}

/// Replacing marker-safe `p` by `<TMP>` leaves no `p`, and brings in no
/// marker-safe `q` that was absent.
proof fn lemma_replace_absent(s: Seq<char>, p: Seq<char>, q: Seq<char>)
    requires
        marker_safe(p),
        marker_safe(q),
        q == p || absent(s, q),
    ensures
        absent(replace_all(s, p, tmp_marker()), q),
    decreases s.len(),
{
    lemma_markers();
    let m = tmp_marker();
    let r = replace_all(s, p, m);
    assert(p.len() > 0 && q.len() > 0) by {
        if p.len() == 0 { assert(!p.contains('/')); }
        if q.len() == 0 { assert(!q.contains('/')); }
    }
    if s.len() < p.len() {
        assert forall|i: int| !#[trigger] occurs_at(r, q, i) by {
            if occurs_at(r, q, i) && q == p {
                assert(i + q.len() <= s.len());
            }
        }
    } else if s.take(p.len() as int) == p {
        let rest = s.skip(p.len() as int);
        assert(q == p || absent(rest, q)) by {
            if q != p {
                assert forall|i: int| !#[trigger] occurs_at(rest, q, i) by {
                    if occurs_at(rest, q, i) {
                        assert(s.subrange(i + p.len(), i + p.len() + q.len()) =~= rest.subrange(i, i + q.len()));
                        assert(occurs_at(s, q, i + p.len()));
                    }
                }
            }
        }
        lemma_replace_absent(rest, p, q);
        let r2 = replace_all(rest, p, m);
        assert forall|i: int| !#[trigger] occurs_at(r, q, i) by {
            if occurs_at(r, q, i) {
                assert(r =~= Seq::<char>::empty() + m + r2);
                lemma_around_marker(Seq::<char>::empty(), m, r2, q, i);
                assert(!occurs_at(r2, q, i - m.len()));
            }
        }
    } else {
        let t = s.drop_first();
        assert(q == p || absent(t, q)) by {
            if q != p {
                assert forall|i: int| !#[trigger] occurs_at(t, q, i) by {
                    if occurs_at(t, q, i) {
                        assert(s.subrange(i + 1, i + 1 + q.len()) =~= t.subrange(i, i + q.len()));
                        assert(occurs_at(s, q, i + 1));
                    }
                }
            }
        }
        lemma_replace_absent(t, p, q);
        let r2 = replace_all(t, p, m);
        assert(r == seq![s[0]] + r2);
        assert forall|i: int| !#[trigger] occurs_at(r, q, i) by {
            if occurs_at(r, q, i) {
                if i >= 1 {
                    assert(r2.subrange(i - 1, i - 1 + q.len()) =~= r.subrange(i, i + q.len()));
                    assert(occurs_at(r2, q, i - 1));
                } else {
                    assert(r.take(q.len() as int) =~= q);
                    assert(!r.take(q.len() as int).contains('<'));
                    lemma_prefix_untouched(s, p, q.len() as int);
                    assert(s.subrange(0, q.len() as int) =~= s.take(q.len() as int));
                    assert(occurs_at(s, q, 0));
                }
            }
        }
    }
}

/// Replacing a string that does not occur changes nothing.
proof fn lemma_replace_identity(s: Seq<char>, p: Seq<char>)
    requires
        p.len() > 0,
        absent(s, p),
    ensures
        replace_all(s, p, tmp_marker()) == s,
    decreases s.len(),
{
    if s.len() >= p.len() {
        assert(!occurs_at(s, p, 0));
        assert(s.subrange(0, p.len() as int) =~= s.take(p.len() as int));
        let t = s.drop_first();
        assert forall|i: int| !#[trigger] occurs_at(t, p, i) by {
            if occurs_at(t, p, i) {
                assert(s.subrange(i + 1, i + 1 + p.len()) =~= t.subrange(i, i + p.len()));
                assert(occurs_at(s, p, i + 1));
            }
        }
        lemma_replace_identity(t, p);
        assert(seq![s[0]] + t =~= s);
    }
}

/// After both directory rules, neither directory occurs.
proof fn lemma_rules_clear(x: Seq<char>, tmp_dir: Seq<char>, sandbox: Seq<char>)
    requires
        dir_ok(tmp_dir),
        dir_ok(sandbox),
    ensures
        sub_dir(sub_dir(Some(x), tmp_dir), sandbox) matches Some(y) && (tmp_dir.len() > 0 ==> absent(y, tmp_dir))
            && (sandbox.len() > 0 ==> absent(y, sandbox)),
{
    let y1 = if tmp_dir.len() == 0 { x } else { replace_all(x, tmp_dir, tmp_marker()) };
    assert(sub_dir(Some(x), tmp_dir) == Some(y1));
    if tmp_dir.len() > 0 {
        lemma_replace_absent(x, tmp_dir, tmp_dir);
    }
    let y2 = if sandbox.len() == 0 { y1 } else { replace_all(y1, sandbox, tmp_marker()) };
    assert(sub_dir(Some(y1), sandbox) == Some(y2));
    if sandbox.len() > 0 {
        lemma_replace_absent(y1, sandbox, sandbox);
        if tmp_dir.len() > 0 {
            lemma_replace_absent(y1, sandbox, tmp_dir);
        }
    }
}

/// Text free of both directories goes through the rules unchanged.
proof fn lemma_rules_fixed(y: Seq<char>, tmp_dir: Seq<char>, sandbox: Seq<char>)
    requires
        tmp_dir.len() > 0 ==> absent(y, tmp_dir),
        sandbox.len() > 0 ==> absent(y, sandbox),
    ensures
        sub_dir(sub_dir(Some(y), tmp_dir), sandbox) == Some(y),
{
    if tmp_dir.len() > 0 {
        lemma_replace_identity(y, tmp_dir);
    }
    if sandbox.len() > 0 {
        lemma_replace_identity(y, sandbox);
    }
}

/// A directory absent from `y` is absent from `y` capped.
proof fn lemma_cap_absent(y: Seq<char>, d: Seq<char>)
    requires
        marker_safe(d),
        absent(y, d),
        utf8_size(y) > STDOUT_CAP ==> cap_boundary(y),
    ensures
        absent(cap_text(y), d),
{
    if utf8_size(y) > STDOUT_CAP {
        lemma_markers();
        let k = choose|k: int| 0 <= k <= y.len() && utf8_size(y.take(k)) == STDOUT_CAP;
        let a = y.take(k);
        assert forall|i: int| !#[trigger] occurs_at(cap_text(y), d, i) by {
            if occurs_at(cap_text(y), d, i) {
                assert(cap_text(y) =~= a + trunc_marker() + Seq::<char>::empty());
                lemma_around_marker(a, trunc_marker(), Seq::<char>::empty(), d, i);
                assert(a.subrange(i, i + d.len()) =~= y.subrange(i, i + d.len()));
                assert(occurs_at(y, d, i));
            }
        }
    }
}

/// A normalized text goes through the directory rules unchanged.
proof fn lemma_text_fixed(t: Option<Seq<char>>, tmp_dir: Seq<char>, sandbox: Seq<char>)
    requires
        dir_ok(tmp_dir),
        dir_ok(sandbox),
        cap_ok(text_rules(t, tmp_dir, sandbox)),
    ensures
        text_rules(capped(text_rules(t, tmp_dir, sandbox)), tmp_dir, sandbox) == capped(text_rules(t, tmp_dir, sandbox)),
{
    match t {
        Some(x) => {
            lemma_rules_clear(x, tmp_dir, sandbox);
            let y = text_rules(t, tmp_dir, sandbox)->0;
            if tmp_dir.len() > 0 {
                lemma_cap_absent(y, tmp_dir);
            }
            if sandbox.len() > 0 {
                lemma_cap_absent(y, sandbox);
            }
            lemma_rules_fixed(cap_text(y), tmp_dir, sandbox);
        },
        None => {},
    }
}

/// Normalization is idempotent for directories that the markers cannot
/// mimic: normalizing a normalized result gives it back when the system
/// temporary directory and the sandbox are each empty or a path with a `/`
/// and without `<` or `>`.
pub proof fn law_normalize_idempotent_dirs(
    r: OracleResult,
    n: OracleResult,
    n2: OracleResult,
    tmp_dir: Seq<char>,
    sandbox: Seq<char>,
)
    requires
        normalizable(r, tmp_dir, sandbox),
        normalized(r, n, tmp_dir, sandbox),
        normalized(n, n2, tmp_dir, sandbox),
        dir_ok(tmp_dir),
        dir_ok(sandbox),
    ensures
        same_result(n2, n),
{
    broadcast use vstd::seq_lib::to_multiset_contains;
    lemma_text_fixed(opt_chars(r.stdout_text), tmp_dir, sandbox);
    lemma_text_fixed(opt_chars(r.stderr_text), tmp_dir, sandbox);
    let v = names(n.files_created@);
    let w = sub_dir_all(sub_dir_all(names(r.files_created@), tmp_dir), sandbox);
    assert forall|k: int| 0 <= k < v.len() implies sub_dir(sub_dir(Some(#[trigger] v[k]), tmp_dir), sandbox) == Some(
        v[k],
    ) by {
        assert(v.to_multiset().count(v[k]) > 0);
        assert(w.contains(v[k]));
        let j = choose|j: int| 0 <= j < w.len() && w[j] == v[k];
        let x = names(r.files_created@)[j];
        let x1 = sub_dir_all(names(r.files_created@), tmp_dir)[j];
        assert(Some(x1) == sub_dir(Some(x), tmp_dir));
        assert(Some(w[j]) == sub_dir(Some(x1), sandbox));
        lemma_rules_clear(x, tmp_dir, sandbox);
        lemma_rules_fixed(v[k], tmp_dir, sandbox);
    }
    assert(sub_dir_all(sub_dir_all(v, tmp_dir), sandbox) =~= v) by {
        let v1 = sub_dir_all(v, tmp_dir);
        assert forall|k: int| 0 <= k < v.len() implies #[trigger] v1[k] == sub_dir(Some(v[k]), tmp_dir)->0 by {}
        assert forall|k: int| 0 <= k < v.len() implies sub_dir_all(v1, sandbox)[k] == v[k] by {
            assert(sub_dir(sub_dir(Some(v[k]), tmp_dir), sandbox) == Some(v[k]));
        }
    }
    law_normalize_idempotent(r, n, n2, tmp_dir, sandbox);
}

} // verus!
