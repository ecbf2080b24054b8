//! Campaign reports: per-verdict totals, the most frequent semantic
//! mismatches and behavioural coverage, all counted from the real records.
//! Durations and rates (floating point) are kept by the caller.
use vstd::prelude::*;
use crate::compare::Verdict;
use crate::text::{chars_lt, chars_less, chars_of, decimal, extend_chars, owned, str_eq, string_of, u64_decimal};

verus! {

/// One executed case.
#[derive(Debug, Clone)]
pub struct CaseRecord {
    pub index: usize,
    pub scenario_id: String,
    pub api: String,
    pub seed: u64,
    pub verdict: Verdict,
    pub detail: String,
}

/// A case record as plain values.
pub struct CaseView {
    pub index: usize,
    pub scenario_id: Seq<char>,
    pub api: Seq<char>,
    pub seed: u64,
    pub verdict: Verdict,
    pub detail: Seq<char>,
}

impl View for CaseRecord {
    type V = CaseView;

    open spec fn view(&self) -> CaseView {
        CaseView {
            index: self.index,
            scenario_id: self.scenario_id@,
            api: self.api@,
            seed: self.seed,
            verdict: self.verdict,
            detail: self.detail@,
        }
    }
}

impl CaseRecord {
    /// A field-by-field copy.
    pub fn copy(&self) -> (r: CaseRecord)
        ensures
            r@ == self@,
    {
        CaseRecord {
            index: self.index,
            scenario_id: owned(self.scenario_id.as_str()),
            api: owned(self.api.as_str()),
            seed: self.seed,
            verdict: self.verdict,
            detail: owned(self.detail.as_str()),
        }
    }
}

/// One coverage cell of a campaign report.
#[derive(Debug, Clone)]
pub struct CoverageCell {
    pub dimension: String,
    pub value: String,
    pub seen: u64,
}

/// One group of semantic mismatches in a report.
#[derive(Debug, Clone)]
pub struct TopMismatch {
    pub api: String,
    pub detail: String,
    pub count: usize,
    pub example_scenario: String,
}

/// What a campaign is labelled with.
#[derive(Debug, Clone)]
pub struct AggregateCfg {
    pub target: String,
    pub api: String,
    pub seed: u64,
    pub workers: usize,
    pub rine_version: String,
}

/// The aggregated report of a campaign.
#[derive(Debug, Clone)]
pub struct CampaignReport {
    pub schema: u32,
    pub target: String,
    pub api: String,
    pub seed: u64,
    pub cases: usize,
    pub workers: usize,
    pub rine_version: String,
    /// `(verdict name, count)` for every verdict that occurred, in the
    /// order of `all_verdicts`.
    pub per_verdict: Vec<(String, usize)>,
    pub top_mismatches: Vec<TopMismatch>,
    pub coverage: Vec<CoverageCell>,
    pub generated_at_unix: u64,
    /// The case records, in the order given.
    pub records: Vec<CaseRecord>,
}

/// Most mismatch groups a report lists.
pub const TOP_LIMIT: usize = 10;

pub open spec fn all_verdicts() -> Seq<Verdict> {
    seq![
        Verdict::Match,
        Verdict::KnownDifference,
        Verdict::SemanticMismatch,
        Verdict::Crash,
        Verdict::Timeout,
        Verdict::OracleFailure,
        Verdict::RineFailure,
        Verdict::InfrastructureFailure,
    ]
}

pub open spec fn verdict_text(v: Verdict) -> Seq<char> {
    match v {
        Verdict::Match => "Match"@,
        Verdict::KnownDifference => "KnownDifference"@,
        Verdict::SemanticMismatch => "SemanticMismatch"@,
        Verdict::Crash => "Crash"@,
        Verdict::Timeout => "Timeout"@,
        Verdict::OracleFailure => "OracleFailure"@,
        Verdict::RineFailure => "RineFailure"@,
        Verdict::InfrastructureFailure => "InfrastructureFailure"@,
    }
}

/// The verdict's name, the key of the per-verdict totals.
pub fn verdict_name(v: Verdict) -> (r: &'static str)
    ensures
        r@ == verdict_text(v),
{
    match v {
        Verdict::Match => "Match",
        Verdict::KnownDifference => "KnownDifference",
        Verdict::SemanticMismatch => "SemanticMismatch",
        Verdict::Crash => "Crash",
        Verdict::Timeout => "Timeout",
        Verdict::OracleFailure => "OracleFailure",
        Verdict::RineFailure => "RineFailure",
        Verdict::InfrastructureFailure => "InfrastructureFailure",
    }
}

fn verdict_at(k: usize) -> (v: Verdict)
    requires
        k < 8,
    ensures
        v == all_verdicts()[k as int],
{
    match k {
        0 => Verdict::Match,
        1 => Verdict::KnownDifference,
        2 => Verdict::SemanticMismatch,
        3 => Verdict::Crash,
        4 => Verdict::Timeout,
        5 => Verdict::OracleFailure,
        6 => Verdict::RineFailure,
        _ => Verdict::InfrastructureFailure,
    }
}

pub open spec fn case_views(records: Seq<CaseRecord>) -> Seq<CaseView> {
    records.map_values(|r: CaseRecord| r@)
}

/// Number of records with verdict `v`.
pub open spec fn verdict_count(s: Seq<CaseView>, v: Verdict) -> nat
    decreases s.len(),
{
    if s.len() == 0 {
        0
    } else {
        verdict_count(s.drop_last(), v) + if s.last().verdict == v { 1nat } else { 0nat }
    }
}

/// `(name, count)` of the first `k` verdicts of `all_verdicts` that occur.
pub open spec fn per_verdict_spec(s: Seq<CaseView>, k: int) -> Seq<(Seq<char>, nat)>
    decreases k,
{
    if k <= 0 {
        seq![]
    } else {
        let t = per_verdict_spec(s, k - 1);
        let v = all_verdicts()[k - 1];
        if verdict_count(s, v) > 0 { t.push((verdict_text(v), verdict_count(s, v))) } else { t }
    }
}

pub open spec fn totals_view(t: Seq<(String, usize)>) -> Seq<(Seq<char>, nat)> {
    t.map_values(|p: (String, usize)| (p.0@, p.1 as nat))
}

proof fn lemma_verdict_count_le(s: Seq<CaseView>, v: Verdict)
    ensures
        verdict_count(s, v) <= s.len(),
    decreases s.len(),
{
    if s.len() > 0 {
        lemma_verdict_count_le(s.drop_last(), v);
    }
}

fn count_verdict(records: &[CaseRecord], v: Verdict) -> (n: usize)
    ensures
        n == verdict_count(case_views(records@), v),
{
    let ghost s = case_views(records@);
    let mut n: usize = 0;
    let mut i: usize = 0;
    while i < records.len()
        invariant
            s == case_views(records@),
            i <= records@.len(),
            n == verdict_count(s.take(i as int), v),
        decreases records@.len() - i,
    {
        proof {
            assert(s.take(i + 1).drop_last() =~= s.take(i as int));
            lemma_verdict_count_le(s.take(i as int), v);
        }
        if records[i].verdict == v {
            n = n + 1;
        }
        i += 1;
    }
    assert(s.take(records@.len() as int) =~= s);
    n
}

/// Per-verdict totals, in the order of `all_verdicts`, for the verdicts
/// that occur.
pub fn per_verdict_totals(records: &[CaseRecord]) -> (t: Vec<(String, usize)>)
    ensures
        totals_view(t@) == per_verdict_spec(case_views(records@), 8),
{
    let ghost s = case_views(records@);
    let mut t: Vec<(String, usize)> = Vec::new();
    let mut k: usize = 0;
    while k < 8
        invariant
            s == case_views(records@),
            k <= 8,
            totals_view(t@) == per_verdict_spec(s, k as int),
        decreases 8 - k,
    {
        let v = verdict_at(k);
        let n = count_verdict(records, v);
        if n > 0 {
            t.push((owned(verdict_name(v)), n));
            assert(totals_view(t@) =~= per_verdict_spec(s, k as int).push((verdict_text(v), n as nat)));
        }
        k += 1;
    }
    t
}


pub open spec fn is_mismatch(c: CaseView) -> bool {
    c.verdict == Verdict::SemanticMismatch
}

/// The grouping key of a mismatch: `(api, detail)`.
pub open spec fn mismatch_key(c: CaseView) -> (Seq<char>, Seq<char>) {
    (c.api, c.detail)
}

/// Number of semantic mismatches in `s` with key `k`.
pub open spec fn mismatch_count(s: Seq<CaseView>, k: (Seq<char>, Seq<char>)) -> nat
    decreases s.len(),
{
    if s.len() == 0 {
        0
    } else {
        mismatch_count(s.drop_last(), k) + if is_mismatch(s.last()) && mismatch_key(s.last()) == k {
            1nat
        } else {
            0nat
        }
    }
}

/// A mismatch group as plain values.
pub struct MismatchView {
    pub api: Seq<char>,
    pub detail: Seq<char>,
    pub count: nat,
    pub example: Seq<char>,
}

pub open spec fn top_view(t: TopMismatch) -> MismatchView {
    MismatchView { api: t.api@, detail: t.detail@, count: t.count as nat, example: t.example_scenario@ }
}

pub open spec fn top_views(v: Seq<TopMismatch>) -> Seq<MismatchView> {
    v.map_values(|t: TopMismatch| top_view(t))
}

/// A group of `count` mismatches with detail `detail` ranks before one of
/// `count2` with `detail2`: more frequent first, then by detail.
pub open spec fn ranks_before(count: nat, detail: Seq<char>, count2: nat, detail2: Seq<char>) -> bool {
    count > count2 || (count == count2 && chars_lt(detail, detail2))
}

/// `g` is the group of key `(g.api, g.detail)` in `s`: its size, and the
/// scenario of its first mismatch as example.
pub open spec fn is_group(s: Seq<CaseView>, g: MismatchView) -> bool {
    &&& g.count == mismatch_count(s, (g.api, g.detail))
    &&& g.count > 0
    &&& exists|m: int|
        #![trigger s[m]]
        0 <= m < s.len() && is_mismatch(s[m]) && mismatch_key(s[m]) == (g.api, g.detail)
            && mismatch_count(s.take(m), (g.api, g.detail)) == 0 && g.example == s[m].scenario_id
}

/// The listed groups are the most frequent ones of `s`, best first, at most
/// `TOP_LIMIT` of them: every mismatch of `s` is in a listed group unless
/// the list is full and its group does not rank before the last listed.
pub open spec fn top_spec(s: Seq<CaseView>, r: Seq<MismatchView>) -> bool {
    &&& r.len() <= TOP_LIMIT
    &&& forall|i: int| 0 <= i < r.len() ==> is_group(s, #[trigger] r[i])
    &&& forall|i: int, j: int| 0 <= i < j < r.len() ==> (r[i].api, r[i].detail) != (r[j].api, r[j].detail)
    &&& forall|i: int, j: int|
        0 <= i < j < r.len() ==> !ranks_before(r[j].count, r[j].detail, r[i].count, r[i].detail)
    &&& forall|m: int|
        0 <= m < s.len() && is_mismatch(#[trigger] s[m]) ==> (exists|i: int|
            0 <= i < r.len() && (r[i].api, r[i].detail) == mismatch_key(s[m])) || (r.len() == TOP_LIMIT
            && !ranks_before(
            mismatch_count(s, mismatch_key(s[m])),
            s[m].detail,
            r[TOP_LIMIT - 1].count,
            r[TOP_LIMIT - 1].detail,
        ))
}

proof fn lemma_mismatch_count_le(s: Seq<CaseView>, k: (Seq<char>, Seq<char>))
    ensures
        mismatch_count(s, k) <= s.len(),
    decreases s.len(),
{
    if s.len() > 0 {
        lemma_mismatch_count_le(s.drop_last(), k);
    }
}

proof fn lemma_mismatch_count_witness(s: Seq<CaseView>, k: (Seq<char>, Seq<char>))
    requires
        mismatch_count(s, k) > 0,
    ensures
        exists|m: int| 0 <= m < s.len() && is_mismatch(#[trigger] s[m]) && mismatch_key(s[m]) == k,
    decreases s.len(),
{
    if !(is_mismatch(s.last()) && mismatch_key(s.last()) == k) {
        lemma_mismatch_count_witness(s.drop_last(), k);
        let m = choose|m: int| 0 <= m < s.drop_last().len() && is_mismatch(#[trigger] s.drop_last()[m]) && mismatch_key(s.drop_last()[m]) == k;
        assert(s[m] == s.drop_last()[m]);
    } else {
        assert(is_mismatch(s[s.len() - 1]));
    }
}

/// Group table: `(index of the group's first mismatch, group size)`.
pub open spec fn group_key(s: Seq<CaseView>, t: Seq<(usize, usize)>, g: int) -> (Seq<char>, Seq<char>) {
    mismatch_key(s[t[g].0 as int])
}

#[verifier::opaque]
pub open spec fn groups_ok(s: Seq<CaseView>, t: Seq<(usize, usize)>) -> bool {
    &&& forall|g: int|
        #![trigger t[g]]
        0 <= g < t.len() ==> {
            &&& t[g].0 < s.len()
            &&& is_mismatch(s[t[g].0 as int])
            &&& mismatch_count(s.take(t[g].0 as int), group_key(s, t, g)) == 0
            &&& t[g].1 == mismatch_count(s, group_key(s, t, g))
            &&& t[g].1 >= 1
        }
    &&& forall|g1: int, g2: int|
        0 <= g1 < g2 < t.len() ==> group_key(s, t, g1) != group_key(s, t, g2)
    &&& forall|m: int|
        0 <= m < s.len() && is_mismatch(#[trigger] s[m]) ==> exists|g: int|
            0 <= g < t.len() && group_key(s, t, g) == mismatch_key(s[m])
}

fn find_group(records: &[CaseRecord], t: &Vec<(usize, usize)>, i: usize) -> (r: Option<usize>)
    requires
        i < records@.len(),
        forall|g: int| 0 <= g < t@.len() ==> t@[g].0 < records@.len(),
    ensures
        match r {
            Some(g) => g < t@.len() && group_key(case_views(records@), t@, g as int) == mismatch_key(
                case_views(records@)[i as int],
            ),
            None => forall|g: int|
                0 <= g < t@.len() ==> group_key(case_views(records@), t@, g) != mismatch_key(
                    case_views(records@)[i as int],
                ),
        },
{
    let ghost s = case_views(records@);
    let mut g: usize = 0;
    while g < t.len()
        invariant
            s == case_views(records@),
            i < records@.len(),
            forall|h: int| 0 <= h < t@.len() ==> t@[h].0 < records@.len(),
            g <= t@.len(),
            forall|h: int| 0 <= h < g ==> group_key(s, t@, h) != mismatch_key(s[i as int]),
        decreases t@.len() - g,
    {
        let first = t[g].0;
        if str_eq(records[first].api.as_str(), records[i].api.as_str())
            && str_eq(records[first].detail.as_str(), records[i].detail.as_str())
        {
            return Some(g);
        }
        g += 1;
    }
    None
}

proof fn lemma_prefix_facts(s: Seq<CaseView>, i: int, t: Seq<(usize, usize)>)
    requires
        0 <= i < s.len(),
        groups_ok(s.take(i), t),
    ensures
        s.take(i + 1).drop_last() == s.take(i),
        s.take(i + 1)[i] == s[i],
        forall|g: int| 0 <= g < t.len() ==> group_key(s.take(i + 1), t, g) == group_key(s.take(i), t, g),
        forall|g: int| 0 <= g < t.len() ==> s.take(i + 1).take(#[trigger] t[g].0 as int) == s.take(i).take(t[g].0 as int),
        forall|m: int| 0 <= m < i ==> s.take(i + 1)[m] == #[trigger] s.take(i)[m],
{
    reveal(groups_ok);
    let si = s.take(i);
    let sn = s.take(i + 1);
    assert(sn.drop_last() =~= si);
    assert forall|g: int| 0 <= g < t.len() implies group_key(sn, t, g) == group_key(si, t, g) by {
        assert(t[g].0 < si.len());
        assert(sn[t[g].0 as int] == si[t[g].0 as int]);
    }
    assert forall|g: int| 0 <= g < t.len() implies sn.take(#[trigger] t[g].0 as int) == si.take(t[g].0 as int) by {
        assert(t[g].0 < si.len());
        assert(sn.take(t[g].0 as int) =~= si.take(t[g].0 as int));
    }
}

proof fn lemma_step_other(s: Seq<CaseView>, i: int, t: Seq<(usize, usize)>)
    requires
        0 <= i < s.len(),
        groups_ok(s.take(i), t),
        !is_mismatch(s[i]),
    ensures
        groups_ok(s.take(i + 1), t),
{
    reveal(groups_ok);
    lemma_prefix_facts(s, i, t);
    let si = s.take(i);
    let sn = s.take(i + 1);
    assert forall|m: int| 0 <= m < sn.len() && is_mismatch(#[trigger] sn[m]) implies exists|h: int|
        0 <= h < t.len() && group_key(sn, t, h) == mismatch_key(sn[m]) by {
        assert(sn[m] == si[m]);
        let h = choose|h: int| 0 <= h < t.len() && group_key(si, t, h) == mismatch_key(si[m]);
        assert(group_key(sn, t, h) == mismatch_key(sn[m]));
    }
}

proof fn lemma_step_found(s: Seq<CaseView>, i: int, t: Seq<(usize, usize)>, g: int)
    requires
        0 <= i < s.len(),
        groups_ok(s.take(i), t),
        is_mismatch(s[i]),
        0 <= g < t.len(),
        group_key(s.take(i), t, g) == mismatch_key(s[i]),
        t[g].1 + 1 <= usize::MAX,
    ensures
        groups_ok(s.take(i + 1), t.update(g, (t[g].0, (t[g].1 + 1) as usize))),
{
    reveal(groups_ok);
    lemma_prefix_facts(s, i, t);
    let si = s.take(i);
    let sn = s.take(i + 1);
    let tn = t.update(g, (t[g].0, (t[g].1 + 1) as usize));
    assert forall|h: int| 0 <= h < tn.len() implies group_key(sn, tn, h) == group_key(si, t, h) by {
        assert(tn[h].0 == t[h].0);
    }
    assert forall|h: int| 0 <= h < tn.len() implies #[trigger] tn[h].1 == mismatch_count(sn, group_key(sn, tn, h)) by {
        assert(tn[h].0 == t[h].0);
    }
    assert forall|h: int| 0 <= h < tn.len() implies sn.take(#[trigger] tn[h].0 as int) == si.take(t[h].0 as int) by {
        assert(tn[h].0 == t[h].0);
    }
    assert forall|m: int| 0 <= m < sn.len() && is_mismatch(#[trigger] sn[m]) implies exists|h: int|
        0 <= h < tn.len() && group_key(sn, tn, h) == mismatch_key(sn[m]) by {
        if m < i {
            assert(sn[m] == si[m]);
            let h = choose|h: int| 0 <= h < t.len() && group_key(si, t, h) == mismatch_key(si[m]);
            assert(group_key(sn, tn, h) == mismatch_key(sn[m]));
        } else {
            assert(group_key(sn, tn, g) == mismatch_key(sn[m]));
        }
    }
}

proof fn lemma_step_new(s: Seq<CaseView>, i: int, t: Seq<(usize, usize)>)
    requires
        0 <= i < s.len(),
        i <= usize::MAX,
        groups_ok(s.take(i), t),
        is_mismatch(s[i]),
        forall|g: int| 0 <= g < t.len() ==> group_key(s.take(i), t, g) != mismatch_key(s[i]),
    ensures
        groups_ok(s.take(i + 1), t.push((i as usize, 1usize))),
{
    reveal(groups_ok);
    lemma_prefix_facts(s, i, t);
    let si = s.take(i);
    let sn = s.take(i + 1);
    let k = mismatch_key(s[i]);
    if mismatch_count(si, k) > 0 {
        lemma_mismatch_count_witness(si, k);
        let m = choose|m: int| 0 <= m < si.len() && is_mismatch(#[trigger] si[m]) && mismatch_key(si[m]) == k;
        let h = choose|h: int| 0 <= h < t.len() && group_key(si, t, h) == mismatch_key(si[m]);
        assert(group_key(si, t, h) == k);
    }
    assert(s.take(i) =~= sn.take(i));
    let tn = t.push((i as usize, 1usize));
    assert forall|h: int| 0 <= h < tn.len() implies group_key(sn, tn, h) == (if h < t.len() {
        group_key(si, t, h)
    } else {
        k
    }) by {
        if h < t.len() {
            assert(tn[h] == t[h]);
        }
    }
    assert forall|h: int| 0 <= h < t.len() implies sn.take(#[trigger] tn[h].0 as int) == si.take(t[h].0 as int) by {
        assert(tn[h] == t[h]);
    }
    assert forall|m: int| 0 <= m < sn.len() && is_mismatch(#[trigger] sn[m]) implies exists|h: int|
        0 <= h < tn.len() && group_key(sn, tn, h) == mismatch_key(sn[m]) by {
        if m < i {
            assert(sn[m] == si[m]);
            let h = choose|h: int| 0 <= h < t.len() && group_key(si, t, h) == mismatch_key(si[m]);
            assert(group_key(sn, tn, h) == mismatch_key(sn[m]));
        } else {
            assert(group_key(sn, tn, t.len() as int) == mismatch_key(sn[m]));
        }
    }
}

proof fn lemma_groups_prefix(s: Seq<CaseView>, i: int, t: Seq<(usize, usize)>)
    requires
        0 <= i <= s.len(),
        groups_ok(s.take(i), t),
    ensures
        forall|g: int| 0 <= g < t.len() ==> #[trigger] t[g].0 < i,
        forall|g: int| 0 <= g < t.len() ==> #[trigger] group_key(s.take(i), t, g) == group_key(s, t, g),
{
    reveal(groups_ok);
    assert forall|g: int| 0 <= g < t.len() implies group_key(s.take(i), t, g) == #[trigger] group_key(s, t, g) by {
        assert(t[g].0 < s.take(i).len());
    }
}

proof fn lemma_groups_count_bound(s: Seq<CaseView>, i: int, t: Seq<(usize, usize)>, g: int)
    requires
        0 <= i <= s.len(),
        groups_ok(s.take(i), t),
        0 <= g < t.len(),
    ensures
        t[g].1 <= i,
{
    reveal(groups_ok);
    lemma_mismatch_count_le(s.take(i), group_key(s.take(i), t, g));
}

/// The mismatch groups of `records`, in order of first occurrence.
fn mismatch_groups(records: &[CaseRecord]) -> (t: Vec<(usize, usize)>)
    ensures
        groups_ok(case_views(records@), t@),
{
    let ghost s = case_views(records@);
    let mut t: Vec<(usize, usize)> = Vec::new();
    let mut i: usize = 0;
    assert(groups_ok(s.take(0), t@)) by {
        reveal(groups_ok);
    }
    while i < records.len()
        invariant
            s == case_views(records@),
            i <= records@.len(),
            groups_ok(s.take(i as int), t@),
        decreases records@.len() - i,
    {
        proof {
            lemma_groups_prefix(s, i as int, t@);
        }
        if records[i].verdict == Verdict::SemanticMismatch {
            let found = find_group(records, &t, i);
            match found {
                Some(g) => {
                    let (first, n) = t[g];
                    proof {
                        lemma_groups_count_bound(s, i as int, t@, g as int);
                        lemma_step_found(s, i as int, t@, g as int);
                    }
                    t.set(g, (first, n + 1));
                },
                None => {
                    proof {
                        lemma_step_new(s, i as int, t@);
                    }
                    t.push((i, 1));
                },
            }
        } else {
            proof {
                lemma_step_other(s, i as int, t@);
            }
        }
        i += 1;
    }
    assert(s.take(records@.len() as int) =~= s);
    t
}


pub open spec fn group_view(s: Seq<CaseView>, t: Seq<(usize, usize)>, g: int) -> MismatchView {
    MismatchView {
        api: s[t[g].0 as int].api,
        detail: s[t[g].0 as int].detail,
        count: t[g].1 as nat,
        example: s[t[g].0 as int].scenario_id,
    }
}

/// Group `a` of the table ranks before group `b`.
pub open spec fn group_before(s: Seq<CaseView>, t: Seq<(usize, usize)>, a: usize, b: usize) -> bool {
    ranks_before(t[a as int].1 as nat, s[t[a as int].0 as int].detail, t[b as int].1 as nat, s[t[b as int].0 as int].detail)
}

/// `p` lists distinct groups of the table, best first, and no unlisted
/// group ranks before a listed one.
pub open spec fn picks_ok(s: Seq<CaseView>, t: Seq<(usize, usize)>, p: Seq<usize>) -> bool {
    &&& p.len() <= TOP_LIMIT
    &&& forall|a: int| 0 <= a < p.len() ==> #[trigger] p[a] < t.len()
    &&& forall|a: int, b: int| 0 <= a < b < p.len() ==> p[a] != p[b]
    &&& forall|a: int, b: int| 0 <= a < b < p.len() ==> !group_before(s, t, p[b], p[a])
    &&& forall|g: usize, a: int|
        g < t.len() && !p.contains(g) && 0 <= a < p.len() ==> !#[trigger] group_before(s, t, g, p[a])
}

proof fn lemma_ranks_before_order(c1: nat, d1: Seq<char>, c2: nat, d2: Seq<char>, c3: nat, d3: Seq<char>)
    ensures
        !ranks_before(c1, d1, c1, d1),
        ranks_before(c1, d1, c2, d2) && ranks_before(c2, d2, c3, d3) ==> ranks_before(c1, d1, c3, d3),
{
    crate::text::lemma_chars_lt_order(d1, d2, d3);
    crate::text::lemma_chars_lt_order(d1, d1, d1);
}

fn contains_index(v: &Vec<usize>, x: usize) -> (r: bool)
    ensures
        r == v@.contains(x),
{
    let mut i: usize = 0;
    while i < v.len()
        invariant
            i <= v@.len(),
            forall|j: int| 0 <= j < i ==> v@[j] != x,
        decreases v@.len() - i,
    {
        if v[i] == x {
            return true;
        }
        i += 1;
    }
    false
}

fn count_detail_before(n1: usize, d1: &Vec<char>, n2: usize, d2: &Vec<char>) -> (r: bool)
    ensures
        r == ranks_before(n1 as nat, d1@, n2 as nat, d2@),
{
    n1 > n2 || (n1 == n2 && chars_less(d1.as_slice(), d2.as_slice()))
}

/// The best group of the table that `picked` does not list yet.
fn best_remaining(
    records: &[CaseRecord],
    t: &Vec<(usize, usize)>,
    details: &Vec<Vec<char>>,
    picked: &Vec<usize>,
) -> (r: Option<usize>)
    requires
        details@.len() == t@.len(),
        forall|g: int| 0 <= g < t@.len() ==> #[trigger] t@[g].0 < records@.len(),
        forall|g: int| 0 <= g < t@.len() ==> #[trigger] details@[g]@ == case_views(records@)[t@[g].0 as int].detail,
    ensures
        match r {
            Some(b) => {
                &&& b < t@.len()
                &&& !picked@.contains(b)
                &&& forall|g: usize|
                    g < t@.len() && !picked@.contains(g) ==> !#[trigger] group_before(case_views(records@), t@, g, b)
            },
            None => forall|g: usize| g < t@.len() ==> #[trigger] picked@.contains(g),
        },
{
    let ghost s = case_views(records@);
    let mut best: Option<usize> = None;
    let mut g: usize = 0;
    while g < t.len()
        invariant
            s == case_views(records@),
            details@.len() == t@.len(),
            forall|h: int| 0 <= h < t@.len() ==> #[trigger] t@[h].0 < records@.len(),
            forall|h: int| 0 <= h < t@.len() ==> #[trigger] details@[h]@ == s[t@[h].0 as int].detail,
            g <= t@.len(),
            match best {
                Some(b) => {
                    &&& b < g
                    &&& !picked@.contains(b)
                    &&& forall|h: usize| h < g && !picked@.contains(h) ==> !#[trigger] group_before(s, t@, h, b)
                },
                None => forall|h: usize| h < g ==> #[trigger] picked@.contains(h),
            },
        decreases t@.len() - g,
    {
        if !contains_index(picked, g) {
            let take = match best {
                None => true,
                Some(b) => count_detail_before(t[g].1, &details[g], t[b].1, &details[b]),
            };
            if take {
                proof {
                    if let Some(b) = best {
                        assert(details@[g as int]@ == s[t@[g as int].0 as int].detail);
                        assert(details@[b as int]@ == s[t@[b as int].0 as int].detail);
                        assert(group_before(s, t@, g, b));
                        assert forall|h: usize| h < g + 1 && !picked@.contains(h) implies !#[trigger] group_before(s, t@, h, g) by {
                            if h < g {
                                assert(!group_before(s, t@, h, b));
                            }
                            lemma_ranks_before_order(
                                t@[h as int].1 as nat, s[t@[h as int].0 as int].detail,
                                t@[g as int].1 as nat, s[t@[g as int].0 as int].detail,
                                t@[b as int].1 as nat, s[t@[b as int].0 as int].detail,
                            );
                        }
                    } else {
                        assert forall|h: usize| h < g + 1 && !picked@.contains(h) implies !#[trigger] group_before(s, t@, h, g) by {
                            lemma_ranks_before_order(
                                t@[h as int].1 as nat, s[t@[h as int].0 as int].detail,
                                t@[h as int].1 as nat, s[t@[h as int].0 as int].detail,
                                t@[h as int].1 as nat, s[t@[h as int].0 as int].detail,
                            );
                        }
                    }
                }
                best = Some(g);
            }
        }
        g += 1;
    }
    best
}

/// Indices of the `TOP_LIMIT` best groups of the table, best first.
fn pick_top(records: &[CaseRecord], t: &Vec<(usize, usize)>) -> (p: Vec<usize>)
    requires
        forall|g: int| 0 <= g < t@.len() ==> #[trigger] t@[g].0 < records@.len(),
    ensures
        picks_ok(case_views(records@), t@, p@),
        p@.len() == TOP_LIMIT || forall|g: usize| g < t@.len() ==> #[trigger] p@.contains(g),
{
    let ghost s = case_views(records@);
    let mut details: Vec<Vec<char>> = Vec::new();
    let mut k: usize = 0;
    while k < t.len()
        invariant
            s == case_views(records@),
            forall|g: int| 0 <= g < t@.len() ==> #[trigger] t@[g].0 < records@.len(),
            k <= t@.len(),
            details@.len() == k,
            forall|g: int| 0 <= g < k ==> #[trigger] details@[g]@ == s[t@[g].0 as int].detail,
        decreases t@.len() - k,
    {
        details.push(chars_of(records[t[k].0].detail.as_str()));
        k += 1;
    }
    let mut p: Vec<usize> = Vec::new();
    let mut done = false;
    while !done && p.len() < TOP_LIMIT
        invariant
            s == case_views(records@),
            forall|g: int| 0 <= g < t@.len() ==> #[trigger] t@[g].0 < records@.len(),
            details@.len() == t@.len(),
            forall|g: int| 0 <= g < t@.len() ==> #[trigger] details@[g]@ == s[t@[g].0 as int].detail,
            picks_ok(s, t@, p@),
            done ==> forall|g: usize| g < t@.len() ==> #[trigger] p@.contains(g),
        decreases TOP_LIMIT - p@.len(), (if done { 0int } else { 1int }),
    {
        match best_remaining(records, t, &details, &p) {
            None => {
                done = true;
            },
            Some(b) => {
                let ghost old_p = p@;
                p.push(b);
                proof {
                    assert forall|g: usize, a: int|
                        g < t@.len() && !p@.contains(g) && 0 <= a < p@.len() implies !#[trigger] group_before(s, t@, g, p@[a]) by {
                        if a < old_p.len() {
                            assert(p@[a] == old_p[a]);
                            assert(!old_p.contains(g)) by {
                                if old_p.contains(g) {
                                    let j = choose|j: int| 0 <= j < old_p.len() && old_p[j] == g;
                                    assert(p@[j] == g);
                                }
                            }
                        } else {
                            assert(!old_p.contains(g)) by {
                                if old_p.contains(g) {
                                    let j = choose|j: int| 0 <= j < old_p.len() && old_p[j] == g;
                                    assert(p@[j] == g);
                                }
                            }
                        }
                    }
                    assert forall|a: int, c: int| 0 <= a < c < p@.len() implies p@[a] != p@[c] by {
                        if c == old_p.len() {
                            assert(old_p.contains(p@[a]));
                        }
                    }
                    assert forall|a: int, c: int| 0 <= a < c < p@.len() implies !group_before(s, t@, p@[c], p@[a]) by {
                        if c == old_p.len() {
                            assert(p@[a] == old_p[a]);
                        } else {
                            assert(p@[a] == old_p[a] && p@[c] == old_p[c]);
                        }
                    }
                    assert forall|a: int| 0 <= a < p@.len() implies #[trigger] p@[a] < t@.len() by {
                        if a < old_p.len() {
                            assert(p@[a] == old_p[a]);
                        }
                    }
                }
            },
        }
    }
    p
}


proof fn lemma_groups_entry(s: Seq<CaseView>, t: Seq<(usize, usize)>, g: int)
    requires
        groups_ok(s, t),
        0 <= g < t.len(),
    ensures
        t[g].0 < s.len(),
        is_mismatch(s[t[g].0 as int]),
        mismatch_count(s.take(t[g].0 as int), group_key(s, t, g)) == 0,
        t[g].1 == mismatch_count(s, group_key(s, t, g)),
        t[g].1 >= 1,
{
    reveal(groups_ok);
}

proof fn lemma_groups_distinct(s: Seq<CaseView>, t: Seq<(usize, usize)>, g1: int, g2: int)
    requires
        groups_ok(s, t),
        0 <= g1 < t.len(),
        0 <= g2 < t.len(),
        g1 != g2,
    ensures
        group_key(s, t, g1) != group_key(s, t, g2),
{
    reveal(groups_ok);
    if g2 < g1 {
        assert(group_key(s, t, g2) != group_key(s, t, g1));
    }
}

proof fn lemma_groups_cover(s: Seq<CaseView>, t: Seq<(usize, usize)>, m: int) -> (g: int)
    requires
        groups_ok(s, t),
        0 <= m < s.len(),
        is_mismatch(s[m]),
    ensures
        0 <= g < t.len(),
        group_key(s, t, g) == mismatch_key(s[m]),
{
    reveal(groups_ok);
    choose|g: int| 0 <= g < t.len() && group_key(s, t, g) == mismatch_key(s[m])
}

proof fn lemma_top_groups(s: Seq<CaseView>, t: Seq<(usize, usize)>, p: Seq<usize>, r: Seq<MismatchView>)
    requires
        groups_ok(s, t),
        forall|a: int| 0 <= a < p.len() ==> #[trigger] p[a] < t.len(),
        r.len() == p.len(),
        forall|a: int| 0 <= a < p.len() ==> #[trigger] r[a] == group_view(s, t, p[a] as int),
    ensures
        forall|i: int| 0 <= i < r.len() ==> is_group(s, #[trigger] r[i]),
{
    assert forall|i: int| 0 <= i < r.len() implies is_group(s, #[trigger] r[i]) by {
        let g = p[i] as int;
        assert(r[i] == group_view(s, t, g));
        lemma_groups_entry(s, t, g);
        let m = t[g].0 as int;
        assert(is_mismatch(s[m]) && mismatch_key(s[m]) == (r[i].api, r[i].detail));
    }
}

proof fn lemma_top_distinct(s: Seq<CaseView>, t: Seq<(usize, usize)>, p: Seq<usize>, r: Seq<MismatchView>)
    requires
        groups_ok(s, t),
        forall|a: int| 0 <= a < p.len() ==> #[trigger] p[a] < t.len(),
        forall|a: int, b: int| 0 <= a < b < p.len() ==> p[a] != p[b],
        r.len() == p.len(),
        forall|a: int| 0 <= a < p.len() ==> #[trigger] r[a] == group_view(s, t, p[a] as int),
    ensures
        forall|i: int, j: int| 0 <= i < j < r.len() ==> (r[i].api, r[i].detail) != (r[j].api, r[j].detail),
{
    assert forall|i: int, j: int| 0 <= i < j < r.len() implies (r[i].api, r[i].detail) != (r[j].api, r[j].detail) by {
        let gi = p[i] as int;
        let gj = p[j] as int;
        assert(r[i] == group_view(s, t, gi));
        assert(r[j] == group_view(s, t, gj));
        lemma_groups_distinct(s, t, gi, gj);
    }
}

proof fn lemma_top_complete(s: Seq<CaseView>, t: Seq<(usize, usize)>, p: Seq<usize>, r: Seq<MismatchView>, m: int)
    requires
        t.len() <= usize::MAX,
        groups_ok(s, t),
        picks_ok(s, t, p),
        p.len() == TOP_LIMIT || forall|g: usize| g < t.len() ==> #[trigger] p.contains(g),
        r.len() == p.len(),
        forall|a: int| 0 <= a < p.len() ==> #[trigger] r[a] == group_view(s, t, p[a] as int),
        0 <= m < s.len(),
        is_mismatch(s[m]),
    ensures
        (exists|i: int| 0 <= i < r.len() && (r[i].api, r[i].detail) == mismatch_key(s[m])) || (r.len()
            == TOP_LIMIT && !ranks_before(
            mismatch_count(s, mismatch_key(s[m])),
            s[m].detail,
            r[TOP_LIMIT - 1].count,
            r[TOP_LIMIT - 1].detail,
        )),
{
    let g = lemma_groups_cover(s, t, m);
    lemma_groups_entry(s, t, g);
    if p.contains(g as usize) {
        let a = choose|a: int| 0 <= a < p.len() && p[a] == g as usize;
        assert(r[a] == group_view(s, t, p[a] as int));
        assert(p[a] as int == g);
        assert(r[a].api == s[t[g].0 as int].api);
        assert(r[a].detail == s[t[g].0 as int].detail);
        assert(group_key(s, t, g) == mismatch_key(s[t[g].0 as int]));
        assert((r[a].api, r[a].detail) == mismatch_key(s[m]));
    } else {
        assert(p.len() == TOP_LIMIT);
        let last: int = TOP_LIMIT - 1;
        assert(!group_before(s, t, g as usize, p[last]));
        assert(r[last] == group_view(s, t, p[last] as int));
    }
}

proof fn lemma_top_spec(s: Seq<CaseView>, t: Seq<(usize, usize)>, p: Seq<usize>, r: Seq<MismatchView>)
    requires
        t.len() <= usize::MAX,
        groups_ok(s, t),
        picks_ok(s, t, p),
        p.len() == TOP_LIMIT || forall|g: usize| g < t.len() ==> #[trigger] p.contains(g),
        r.len() == p.len(),
        forall|a: int| 0 <= a < p.len() ==> #[trigger] r[a] == group_view(s, t, p[a] as int),
    ensures
        top_spec(s, r),
{
    lemma_top_groups(s, t, p, r);
    lemma_top_distinct(s, t, p, r);
    assert forall|i: int, j: int| 0 <= i < j < r.len() implies !ranks_before(r[j].count, r[j].detail, r[i].count, r[i].detail) by {
        assert(r[i] == group_view(s, t, p[i] as int));
        assert(r[j] == group_view(s, t, p[j] as int));
        assert(!group_before(s, t, p[j], p[i]));
    }
    assert forall|m: int| 0 <= m < s.len() && is_mismatch(#[trigger] s[m]) implies (exists|i: int|
        0 <= i < r.len() && (r[i].api, r[i].detail) == mismatch_key(s[m])) || (r.len() == TOP_LIMIT
        && !ranks_before(
        mismatch_count(s, mismatch_key(s[m])),
        s[m].detail,
        r[TOP_LIMIT - 1].count,
        r[TOP_LIMIT - 1].detail,
    )) by {
        lemma_top_complete(s, t, p, r, m);
    }
}

/// The most frequent semantic-mismatch groups of `records` (grouped by
/// `(api, detail)`), best first, at most `TOP_LIMIT`, each with the
/// scenario of its first mismatch as example.
pub fn top_mismatches(records: &[CaseRecord]) -> (r: Vec<TopMismatch>)
    ensures
        top_spec(case_views(records@), top_views(r@)),
{
    let ghost s = case_views(records@);
    let t = mismatch_groups(records);
    proof {
        reveal(groups_ok);
    }
    let p = pick_top(records, &t);
    let mut r: Vec<TopMismatch> = Vec::new();
    let mut a: usize = 0;
    while a < p.len()
        invariant
            s == case_views(records@),
            groups_ok(s, t@),
            picks_ok(s, t@, p@),
            forall|g: int| 0 <= g < t@.len() ==> #[trigger] t@[g].0 < records@.len(),
            a <= p@.len(),
            r@.len() == a,
            forall|b: int| 0 <= b < a ==> #[trigger] top_views(r@)[b] == group_view(s, t@, p@[b] as int),
        decreases p@.len() - a,
    {
        let (first, n) = t[p[a]];
        proof {
            assert(p@[a as int] < t@.len());
        }
        let rec = &records[first];
        let ghost old_r = r@;
        r.push(TopMismatch {
            api: owned(rec.api.as_str()),
            detail: owned(rec.detail.as_str()),
            count: n,
            example_scenario: owned(rec.scenario_id.as_str()),
        });
        proof {
            assert(s[first as int] == records@[first as int]@);
            assert(top_views(r@)[a as int] == top_view(r@[a as int]));
            assert(t@[p@[a as int] as int] == (first, n));
            assert(top_view(r@[a as int]).api == s[first as int].api);
            assert(top_view(r@[a as int]).example == s[first as int].scenario_id);
            assert(top_view(r@[a as int]) == group_view(s, t@, p@[a as int] as int));
            assert forall|b: int| 0 <= b < a + 1 implies #[trigger] top_views(r@)[b] == group_view(s, t@, p@[b] as int) by {
                if b < a {
                    assert(r@[b] == old_r[b]);
                    assert(top_views(old_r)[b] == top_view(old_r[b]));
                    assert(top_views(r@)[b] == top_view(r@[b]));
                }
            }
        }
        a += 1;
    }
    proof {
        assert(t@.len() == t.len());
        lemma_top_spec(s, t@, p@, top_views(r@));
    }
    r
}


pub open spec fn dim_views(d: Seq<(String, String)>) -> Seq<(Seq<char>, Seq<char>)> {
    d.map_values(|p: (String, String)| (p.0@, p.1@))
}

/// Number of occurrences of the pair `k` in `d`.
pub open spec fn pair_count(d: Seq<(Seq<char>, Seq<char>)>, k: (Seq<char>, Seq<char>)) -> nat
    decreases d.len(),
{
    if d.len() == 0 {
        0
    } else {
        pair_count(d.drop_last(), k) + if d.last() == k { 1nat } else { 0nat }
    }
}

/// Lexicographic order of `(dimension, value)` pairs.
pub open spec fn pair_lt(a: (Seq<char>, Seq<char>), b: (Seq<char>, Seq<char>)) -> bool {
    chars_lt(a.0, b.0) || (a.0 == b.0 && chars_lt(a.1, b.1))
}

pub open spec fn cell_view(c: CoverageCell) -> ((Seq<char>, Seq<char>), nat) {
    ((c.dimension@, c.value@), c.seen as nat)
}

pub open spec fn cell_views(v: Seq<CoverageCell>) -> Seq<((Seq<char>, Seq<char>), nat)> {
    v.map_values(|c: CoverageCell| cell_view(c))
}

/// Some cell of `r` is for the pair `k`.
pub open spec fn pair_listed(r: Seq<((Seq<char>, Seq<char>), nat)>, k: (Seq<char>, Seq<char>)) -> bool {
    exists|i: int| 0 <= i < r.len() && r[i].0 == k
}

/// One cell per distinct pair of `d`, with its number of occurrences,
/// sorted by pair.
pub open spec fn coverage_spec(d: Seq<(Seq<char>, Seq<char>)>, r: Seq<((Seq<char>, Seq<char>), nat)>) -> bool {
    &&& forall|i: int| 0 <= i < r.len() ==> #[trigger] r[i].1 == pair_count(d, r[i].0) && r[i].1 > 0
    &&& forall|i: int, j: int| 0 <= i < j < r.len() ==> pair_lt(r[i].0, r[j].0)
    &&& forall|m: int| 0 <= m < d.len() ==> pair_listed(r, #[trigger] d[m])
}

proof fn lemma_pair_lt_order(a: (Seq<char>, Seq<char>), b: (Seq<char>, Seq<char>), c: (Seq<char>, Seq<char>))
    ensures
        !pair_lt(a, a),
        a != b ==> pair_lt(a, b) || pair_lt(b, a),
        pair_lt(a, b) && pair_lt(b, c) ==> pair_lt(a, c),
{
    crate::text::lemma_chars_lt_order(a.0, b.0, c.0);
    crate::text::lemma_chars_lt_order(a.1, b.1, c.1);
    crate::text::lemma_chars_lt_order(a.0, a.0, a.0);
    crate::text::lemma_chars_lt_order(a.1, a.1, a.1);
}

proof fn lemma_pair_count_le(d: Seq<(Seq<char>, Seq<char>)>, k: (Seq<char>, Seq<char>))
    ensures
        pair_count(d, k) <= d.len(),
    decreases d.len(),
{
    if d.len() > 0 {
        lemma_pair_count_le(d.drop_last(), k);
    }
}

proof fn lemma_pair_count_witness(d: Seq<(Seq<char>, Seq<char>)>, k: (Seq<char>, Seq<char>))
    requires
        pair_count(d, k) > 0,
    ensures
        exists|m: int| 0 <= m < d.len() && #[trigger] d[m] == k,
    decreases d.len(),
{
    if d.last() != k {
        lemma_pair_count_witness(d.drop_last(), k);
        let m = choose|m: int| 0 <= m < d.drop_last().len() && #[trigger] d.drop_last()[m] == k;
        assert(d[m] == d.drop_last()[m]);
    } else {
        assert(d[d.len() - 1] == k);
    }
}

/// Cell table: `(index of the pair's first occurrence, count)`.
#[verifier::opaque]
pub open spec fn cells_ok(d: Seq<(Seq<char>, Seq<char>)>, t: Seq<(usize, u64)>) -> bool {
    &&& forall|g: int|
        #![trigger t[g]]
        0 <= g < t.len() ==> t[g].0 < d.len() && t[g].1 == pair_count(d, d[t[g].0 as int]) && t[g].1 >= 1
    &&& forall|g1: int, g2: int| 0 <= g1 < g2 < t.len() ==> d[t[g1].0 as int] != d[t[g2].0 as int]
    &&& forall|m: int|
        0 <= m < d.len() ==> exists|g: int| 0 <= g < t.len() && d[t[g].0 as int] == #[trigger] d[m]
}

proof fn lemma_cells_prefix(d: Seq<(Seq<char>, Seq<char>)>, i: int, t: Seq<(usize, u64)>)
    requires
        0 <= i <= d.len(),
        cells_ok(d.take(i), t),
    ensures
        forall|g: int| 0 <= g < t.len() ==> #[trigger] t[g].0 < i,
        forall|g: int| 0 <= g < t.len() ==> #[trigger] d.take(i)[t[g].0 as int] == d[t[g].0 as int],
        forall|g: int| 0 <= g < t.len() ==> #[trigger] t[g].1 <= i,
{
    reveal(cells_ok);
    assert forall|g: int| 0 <= g < t.len() implies #[trigger] t[g].1 <= i by {
        lemma_pair_count_le(d.take(i), d.take(i)[t[g].0 as int]);
    }
}

proof fn lemma_cells_step(d: Seq<(Seq<char>, Seq<char>)>, i: int, t: Seq<(usize, u64)>, found: Option<int>)
    requires
        0 <= i < d.len(),
        i <= usize::MAX,
        cells_ok(d.take(i), t),
        match found {
            Some(g) => 0 <= g < t.len() && d[t[g].0 as int] == d[i] && t[g].1 + 1 <= u64::MAX,
            None => forall|g: int| 0 <= g < t.len() ==> d[t[g].0 as int] != d[i],
        },
    ensures
        cells_ok(
            d.take(i + 1),
            match found {
                Some(g) => t.update(g, (t[g].0, (t[g].1 + 1) as u64)),
                None => t.push((i as usize, 1u64)),
            },
        ),
{
    reveal(cells_ok);
    let di = d.take(i);
    let dn = d.take(i + 1);
    assert(dn.drop_last() =~= di);
    assert forall|g: int| 0 <= g < t.len() implies #[trigger] dn[t[g].0 as int] == di[t[g].0 as int] && di[t[g].0 as int] == d[t[g].0 as int] by {
        assert(t[g].0 < di.len());
    }
    let tn = match found {
        Some(g) => t.update(g, (t[g].0, (t[g].1 + 1) as u64)),
        None => t.push((i as usize, 1u64)),
    };
    match found {
        Some(g0) => {
            assert forall|g: int| 0 <= g < tn.len() implies #[trigger] tn[g].0 == t[g].0 by {}
            assert forall|m: int| 0 <= m < dn.len() implies exists|g: int| 0 <= g < tn.len() && dn[tn[g].0 as int] == #[trigger] dn[m] by {
                if m < i {
                    assert(dn[m] == di[m]);
                    let g = choose|g: int| 0 <= g < t.len() && di[t[g].0 as int] == di[m];
                    assert(dn[tn[g].0 as int] == dn[m]);
                } else {
                    assert(dn[tn[g0].0 as int] == dn[m]);
                }
            }
        },
        None => {
            if pair_count(di, d[i]) > 0 {
                lemma_pair_count_witness(di, d[i]);
                let m = choose|m: int| 0 <= m < di.len() && #[trigger] di[m] == d[i];
                let g = choose|g: int| 0 <= g < t.len() && di[t[g].0 as int] == di[m];
                assert(d[t[g].0 as int] == d[i]);
            }
            assert forall|g: int| 0 <= g < t.len() implies #[trigger] tn[g] == t[g] by {}
            assert(dn[i] == d[i]);
            assert forall|m: int| 0 <= m < dn.len() implies exists|g: int| 0 <= g < tn.len() && dn[tn[g].0 as int] == #[trigger] dn[m] by {
                if m < i {
                    assert(dn[m] == di[m]);
                    let g = choose|g: int| 0 <= g < t.len() && di[t[g].0 as int] == di[m];
                    assert(tn[g] == t[g]);
                    assert(dn[tn[g].0 as int] == dn[m]);
                } else {
                    assert(dn[tn[t.len() as int].0 as int] == dn[m]);
                }
            }
        },
    }
}


proof fn lemma_cells_entry(d: Seq<(Seq<char>, Seq<char>)>, t: Seq<(usize, u64)>)
    requires
        cells_ok(d, t),
    ensures
        forall|g: int| 0 <= g < t.len() ==> #[trigger] t[g].0 < d.len(),
        forall|g: int| 0 <= g < t.len() ==> #[trigger] t[g].1 == pair_count(d, d[t[g].0 as int]) && t[g].1 >= 1,
{
    reveal(cells_ok);
}

proof fn lemma_cells_distinct(d: Seq<(Seq<char>, Seq<char>)>, t: Seq<(usize, u64)>, g1: int, g2: int)
    requires
        cells_ok(d, t),
        0 <= g1 < t.len(),
        0 <= g2 < t.len(),
        g1 != g2,
    ensures
        d[t[g1].0 as int] != d[t[g2].0 as int],
{
    reveal(cells_ok);
    if g2 < g1 {
        assert(d[t[g2].0 as int] != d[t[g1].0 as int]);
    }
}

proof fn lemma_cells_cover(d: Seq<(Seq<char>, Seq<char>)>, t: Seq<(usize, u64)>, m: int) -> (g: int)
    requires
        cells_ok(d, t),
        0 <= m < d.len(),
    ensures
        0 <= g < t.len(),
        d[t[g].0 as int] == d[m],
{
    reveal(cells_ok);
    choose|g: int| 0 <= g < t.len() && d[t[g].0 as int] == d[m]
}

proof fn lemma_coverage_spec(
    d: Seq<(Seq<char>, Seq<char>)>,
    t: Seq<(usize, u64)>,
    order: Seq<usize>,
    r: Seq<((Seq<char>, Seq<char>), nat)>,
)
    requires
        cells_ok(d, t),
        t.len() <= usize::MAX,
        forall|b: int| 0 <= b < order.len() ==> #[trigger] order[b] < t.len(),
        forall|g: usize| g < t.len() ==> #[trigger] order.contains(g),
        forall|a: int, b: int|
            0 <= a < b < order.len() ==> pair_lt(d[t[order[a] as int].0 as int], d[t[order[b] as int].0 as int]),
        r.len() == order.len(),
        forall|b: int| 0 <= b < order.len() ==> #[trigger] r[b] == (d[t[order[b] as int].0 as int], t[order[b] as int].1 as nat),
    ensures
        coverage_spec(d, r),
{
    lemma_cells_entry(d, t);
    assert forall|i: int| 0 <= i < r.len() implies #[trigger] r[i].1 == pair_count(d, r[i].0) && r[i].1 > 0 by {
        assert(r[i] == (d[t[order[i] as int].0 as int], t[order[i] as int].1 as nat));
    }
    assert forall|i: int, j: int| 0 <= i < j < r.len() implies pair_lt(r[i].0, r[j].0) by {
        assert(r[i] == (d[t[order[i] as int].0 as int], t[order[i] as int].1 as nat));
        assert(r[j] == (d[t[order[j] as int].0 as int], t[order[j] as int].1 as nat));
    }
    assert forall|m: int| 0 <= m < d.len() implies pair_listed(r, #[trigger] d[m]) by {
        let g = lemma_cells_cover(d, t, m);
        assert(order.contains(g as usize));
        let i = choose|i: int| 0 <= i < order.len() && order[i] == g as usize;
        assert(order[i] as int == g);
        assert(r[i] == (d[t[order[i] as int].0 as int], t[order[i] as int].1 as nat));
        assert(0 <= i < r.len() && r[i].0 == d[m]);
    }
}

fn find_cell(dims: &[(String, String)], t: &Vec<(usize, u64)>, i: usize) -> (r: Option<usize>)
    requires
        i < dims@.len(),
        forall|g: int| 0 <= g < t@.len() ==> #[trigger] t@[g].0 < dims@.len(),
    ensures
        match r {
            Some(g) => g < t@.len() && dim_views(dims@)[t@[g as int].0 as int] == dim_views(dims@)[i as int],
            None => forall|g: int|
                0 <= g < t@.len() ==> dim_views(dims@)[t@[g].0 as int] != dim_views(dims@)[i as int],
        },
{
    let mut g: usize = 0;
    while g < t.len()
        invariant
            i < dims@.len(),
            forall|h: int| 0 <= h < t@.len() ==> #[trigger] t@[h].0 < dims@.len(),
            g <= t@.len(),
            forall|h: int| 0 <= h < g ==> dim_views(dims@)[t@[h].0 as int] != dim_views(dims@)[i as int],
        decreases t@.len() - g,
    {
        let first = t[g].0;
        if str_eq(dims[first].0.as_str(), dims[i].0.as_str()) && str_eq(dims[first].1.as_str(), dims[i].1.as_str()) {
            return Some(g);
        }
        g += 1;
    }
    None
}

fn cell_table(dims: &[(String, String)]) -> (t: Vec<(usize, u64)>)
    ensures
        cells_ok(dim_views(dims@), t@),
{
    let ghost d = dim_views(dims@);
    let mut t: Vec<(usize, u64)> = Vec::new();
    let mut i: usize = 0;
    assert(cells_ok(d.take(0), t@)) by {
        reveal(cells_ok);
    }
    while i < dims.len()
        invariant
            d == dim_views(dims@),
            i <= dims@.len(),
            cells_ok(d.take(i as int), t@),
        decreases dims@.len() - i,
    {
        proof {
            lemma_cells_prefix(d, i as int, t@);
        }
        match find_cell(dims, &t, i) {
            Some(g) => {
                let (first, n) = t[g];
                proof {
                    assert(t@[g as int].1 <= i);
                    lemma_cells_step(d, i as int, t@, Some(g as int));
                }
                t.set(g, (first, n + 1));
            },
            None => {
                proof {
                    lemma_cells_step(d, i as int, t@, None);
                }
                t.push((i, 1));
            },
        }
        i += 1;
    }
    assert(d.take(dims@.len() as int) =~= d);
    t
}

pub open spec fn keys_ok(
    ks0: Seq<Vec<char>>,
    ks1: Seq<Vec<char>>,
    d: Seq<(Seq<char>, Seq<char>)>,
    t: Seq<(usize, u64)>,
) -> bool {
    &&& ks0.len() == t.len()
    &&& ks1.len() == t.len()
    &&& forall|g: int| 0 <= g < t.len() ==> (#[trigger] ks0[g])@ == d[t[g].0 as int].0
    &&& forall|g: int| 0 <= g < t.len() ==> (#[trigger] ks1[g])@ == d[t[g].0 as int].1
}

fn pair_less(a0: &Vec<char>, a1: &Vec<char>, b0: &Vec<char>, b1: &Vec<char>) -> (r: bool)
    ensures
        r == pair_lt((a0@, a1@), (b0@, b1@)),
{
    chars_less(a0.as_slice(), b0.as_slice()) || (crate::text::seq_eq(a0.as_slice(), b0.as_slice())
        && chars_less(a1.as_slice(), b1.as_slice()))
}

/// Behavioural coverage: how often each `(dimension, value)` pair was
/// seen, one cell per pair, sorted by pair.
pub fn coverage_cells(dims: &[(String, String)]) -> (r: Vec<CoverageCell>)
    ensures
        coverage_spec(dim_views(dims@), cell_views(r@)),
{
    let ghost d = dim_views(dims@);
    let t = cell_table(dims);
    proof {
        lemma_cells_entry(d, t@);
    }
    let mut ks0: Vec<Vec<char>> = Vec::new();
    let mut ks1: Vec<Vec<char>> = Vec::new();
    let mut k: usize = 0;
    while k < t.len()
        invariant
            d == dim_views(dims@),
            cells_ok(d, t@),
            forall|g: int| 0 <= g < t@.len() ==> #[trigger] t@[g].0 < dims@.len(),
            k <= t@.len(),
            ks0@.len() == k,
            ks1@.len() == k,
            forall|g: int| 0 <= g < k ==> (#[trigger] ks0@[g])@ == d[t@[g].0 as int].0,
            forall|g: int| 0 <= g < k ==> (#[trigger] ks1@[g])@ == d[t@[g].0 as int].1,
        decreases t@.len() - k,
    {
        let first = t[k].0;
        ks0.push(chars_of(dims[first].0.as_str()));
        ks1.push(chars_of(dims[first].1.as_str()));
        k += 1;
    }
    // Insertion sort of the table by pair.
    let mut order: Vec<usize> = Vec::new();
    let mut j: usize = 0;
    while j < t.len()
        invariant
            d == dim_views(dims@),
            cells_ok(d, t@),
            forall|g: int| 0 <= g < t@.len() ==> #[trigger] t@[g].0 < dims@.len(),
            keys_ok(ks0@, ks1@, d, t@),
            j <= t@.len(),
            forall|a: int| 0 <= a < order@.len() ==> #[trigger] order@[a] < j,
            forall|g: usize| g < j ==> #[trigger] order@.contains(g),
            forall|a: int, b: int|
                0 <= a < b < order@.len() ==> pair_lt(d[t@[order@[a] as int].0 as int], d[t@[order@[b] as int].0 as int]),
        decreases t@.len() - j,
    {
        let ghost kj = d[t@[j as int].0 as int];
        let mut pos: usize = 0;
        while pos < order.len()
            invariant
                d == dim_views(dims@),
                forall|g: int| 0 <= g < t@.len() ==> #[trigger] t@[g].0 < dims@.len(),
                forall|a: int| 0 <= a < order@.len() ==> #[trigger] order@[a] < j,
                j < t@.len(),
                keys_ok(ks0@, ks1@, d, t@),
                pos <= order@.len(),
                forall|a: int| 0 <= a < pos ==> !pair_lt(kj, #[trigger] d[t@[order@[a] as int].0 as int]),
                kj == d[t@[j as int].0 as int],
            ensures
                pos == order@.len() || pair_lt(kj, d[t@[order@[pos as int] as int].0 as int]),
            decreases order@.len() - pos,
        {
            let o = order[pos];
            if pair_less(&ks0[j], &ks1[j], &ks0[o], &ks1[o]) {
                proof {
                    assert(ks0@[j as int]@ == kj.0 && ks1@[j as int]@ == kj.1);
                    assert(order@[pos as int] < j);
                    assert(ks0@[o as int]@ == d[t@[o as int].0 as int].0 && ks1@[o as int]@ == d[t@[o as int].0 as int].1);
                }
                break;
            }
            pos += 1;
        }
        let ghost old_order = order@;
        order.insert(pos, j);
        proof {
            assert forall|a: int| 0 <= a < order@.len() implies #[trigger] order@[a] < j + 1 by {
                if a < pos {
                    assert(order@[a] == old_order[a]);
                } else if a > pos {
                    assert(order@[a] == old_order[a - 1]);
                }
            }
            assert forall|g: usize| g < j + 1 implies #[trigger] order@.contains(g) by {
                if g < j {
                    assert(old_order.contains(g));
                    let a = choose|a: int| 0 <= a < old_order.len() && old_order[a] == g;
                    if a < pos {
                        assert(order@[a] == g);
                    } else {
                        assert(order@[a + 1] == g);
                    }
                } else {
                    assert(order@[pos as int] == g);
                }
            }
            assert forall|a: int, b: int|
                0 <= a < b < order@.len() implies pair_lt(d[t@[order@[a] as int].0 as int], d[t@[order@[b] as int].0 as int]) by {
                let ka = d[t@[order@[a] as int].0 as int];
                let kb = d[t@[order@[b] as int].0 as int];
                if a == pos {
                    // kb is an old entry at index b - 1 >= pos.
                    assert(order@[b] == old_order[b - 1]);
                    let kp = d[t@[old_order[pos as int] as int].0 as int];
                    if b - 1 > pos {
                        assert(pair_lt(kp, kb));
                    }
                    lemma_pair_lt_order(kj, kp, kb);
                } else if b == pos {
                    assert(order@[a] == old_order[a]);
                    assert(!pair_lt(kj, ka));
                    lemma_cells_distinct(d, t@, old_order[a] as int, j as int);
                    lemma_pair_lt_order(ka, kj, ka);
                } else {
                    let oa = if a < pos { a } else { a - 1 };
                    let ob = if b < pos { b } else { b - 1 };
                    assert(order@[a] == old_order[oa]);
                    assert(order@[b] == old_order[ob]);
                }
            }
        }
        j += 1;
    }
    let mut r: Vec<CoverageCell> = Vec::new();
    let mut a: usize = 0;
    while a < order.len()
        invariant
            d == dim_views(dims@),
            cells_ok(d, t@),
            forall|g: int| 0 <= g < t@.len() ==> #[trigger] t@[g].0 < dims@.len(),
            forall|b: int| 0 <= b < order@.len() ==> #[trigger] order@[b] < t@.len(),
            a <= order@.len(),
            r@.len() == a,
            forall|b: int| 0 <= b < a ==> #[trigger] cell_views(r@)[b] == (d[t@[order@[b] as int].0 as int], t@[order@[b] as int].1 as nat),
        decreases order@.len() - a,
    {
        let (first, n) = t[order[a]];
        let ghost old_r = r@;
        r.push(CoverageCell {
            dimension: owned(dims[first].0.as_str()),
            value: owned(dims[first].1.as_str()),
            seen: n,
        });
        proof {
            assert(t@[order@[a as int] as int] == (first, n));
            assert(d[first as int] == (dims@[first as int].0@, dims@[first as int].1@));
            assert forall|b: int| 0 <= b < a + 1 implies #[trigger] cell_views(r@)[b] == (d[t@[order@[b] as int].0 as int], t@[order@[b] as int].1 as nat) by {
                if b < a {
                    assert(r@[b] == old_r[b]);
                    assert(cell_views(old_r)[b] == cell_view(old_r[b]));
                }
            }
        }
        a += 1;
    }
    proof {
        assert(t@.len() == t.len());
        lemma_coverage_spec(d, t@, order@, cell_views(r@));
    }
    r
}


fn copy_records(records: &[CaseRecord]) -> (r: Vec<CaseRecord>)
    ensures
        case_views(r@) == case_views(records@),
{
    let mut r: Vec<CaseRecord> = Vec::new();
    let mut i: usize = 0;
    while i < records.len()
        invariant
            i <= records@.len(),
            r@.len() == i,
            forall|j: int| 0 <= j < i ==> (#[trigger] r@[j])@ == records@[j]@,
        decreases records@.len() - i,
    {
        r.push(records[i].copy());
        i += 1;
    }
    assert(case_views(r@) =~= case_views(records@));
    r
}

/// The report of a campaign: per-verdict totals, top mismatch groups and
/// coverage cells counted from `records` and `coverage_dims`, stamped with
/// `generated_at_unix`.
pub fn aggregate(
    cfg: &AggregateCfg,
    records: &[CaseRecord],
    coverage_dims: &[(String, String)],
    generated_at_unix: u64,
) -> (rep: CampaignReport)
    ensures
        rep.schema == 1,
        rep.target@ == cfg.target@,
        rep.api@ == cfg.api@,
        rep.seed == cfg.seed,
        rep.cases == records@.len(),
        rep.workers == cfg.workers,
        rep.rine_version@ == cfg.rine_version@,
        totals_view(rep.per_verdict@) == per_verdict_spec(case_views(records@), 8),
        top_spec(case_views(records@), top_views(rep.top_mismatches@)),
        coverage_spec(dim_views(coverage_dims@), cell_views(rep.coverage@)),
        rep.generated_at_unix == generated_at_unix,
        case_views(rep.records@) == case_views(records@),
{
    CampaignReport {
        schema: 1,
        target: owned(cfg.target.as_str()),
        api: owned(cfg.api.as_str()),
        seed: cfg.seed,
        cases: records.len(),
        workers: cfg.workers,
        rine_version: owned(cfg.rine_version.as_str()),
        per_verdict: per_verdict_totals(records),
        top_mismatches: top_mismatches(records),
        coverage: coverage_cells(coverage_dims),
        generated_at_unix,
        records: copy_records(records),
    }
}

/// Count recorded for the verdict named `name` (0 when absent).
pub open spec fn total_for(t: Seq<(Seq<char>, nat)>, name: Seq<char>) -> nat
    decreases t.len(),
{
    if t.len() == 0 {
        0
    } else if t[0].0 == name {
        t[0].1
    } else {
        total_for(t.drop_first(), name)
    }
}

/// One line per verdict of `all_verdicts()[..k]`: `<name>: <count>`.
pub open spec fn verdict_lines(t: Seq<(Seq<char>, nat)>, k: int) -> Seq<char>
    decreases k,
{
    if k <= 0 {
        seq![]
    } else {
        let v = all_verdicts()[k - 1];
        verdict_lines(t, k - 1) + verdict_text(v) + ": "@ + decimal(total_for(t, verdict_text(v))) + "\n"@
    }
}

/// One line per group: `- <detail> (<count>×, ex. <scenario>)`.
pub open spec fn top_lines(g: Seq<MismatchView>) -> Seq<char>
    decreases g.len(),
{
    if g.len() == 0 {
        seq![]
    } else {
        let m = g.last();
        top_lines(g.drop_last()) + "- "@ + m.detail + " ("@ + decimal(m.count) + "×, ex. "@ + m.example + ")\n"@
    }
}

/// The human summary of a report, rate line excluded.
pub open spec fn render_spec(api: Seq<char>, cases: nat, t: Seq<(Seq<char>, nat)>, g: Seq<MismatchView>) -> Seq<char> {
    "API: "@ + api + "\nCases: "@ + decimal(cases) + "\n"@ + verdict_lines(t, 8) + if g.len() > 0 {
        "\nTop mismatches:\n"@ + top_lines(g)
    } else {
        seq![]
    }
}

fn total_of(t: &Vec<(String, usize)>, name: &str) -> (n: usize)
    ensures
        n as nat == total_for(totals_view(t@), name@),
{
    let mut i: usize = 0;
    assert(totals_view(t@).skip(0) =~= totals_view(t@));
    while i < t.len()
        invariant
            i <= t@.len(),
            total_for(totals_view(t@), name@) == total_for(totals_view(t@).skip(i as int), name@),
        decreases t@.len() - i,
    {
        let ghost rest = totals_view(t@).skip(i as int);
        proof {
            assert(rest[0] == (t@[i as int].0@, t@[i as int].1 as nat));
            assert(rest.drop_first() =~= totals_view(t@).skip(i + 1));
        }
        if str_eq(t[i].0.as_str(), name) {
            return t[i].1;
        }
        i += 1;
    }
    assert(totals_view(t@).skip(i as int).len() == 0);
    0
}

/// The human summary of `rep` (API, case count, one line per verdict,
/// then the top mismatches); the caller appends the throughput line.
pub fn render_human(rep: &CampaignReport) -> (s: String)
    ensures
        s@ == render_spec(rep.api@, rep.cases as nat, totals_view(rep.per_verdict@), top_views(rep.top_mismatches@)),
{
    let mut out: Vec<char> = chars_of("API: ");
    extend_chars(&mut out, chars_of(rep.api.as_str()).as_slice());
    extend_chars(&mut out, chars_of("\nCases: ").as_slice());
    extend_chars(&mut out, u64_decimal(rep.cases as u64).as_slice());
    extend_chars(&mut out, chars_of("\n").as_slice());
    let ghost head = out@;
    let mut k: usize = 0;
    while k < 8
        invariant
            k <= 8,
            out@ == head + verdict_lines(totals_view(rep.per_verdict@), k as int),
        decreases 8 - k,
    {
        let v = verdict_at(k);
        extend_chars(&mut out, chars_of(verdict_name(v)).as_slice());
        extend_chars(&mut out, chars_of(": ").as_slice());
        let n = total_of(&rep.per_verdict, verdict_name(v));
        extend_chars(&mut out, u64_decimal(n as u64).as_slice());
        extend_chars(&mut out, chars_of("\n").as_slice());
        k += 1;
    }
    if rep.top_mismatches.len() > 0 {
        extend_chars(&mut out, chars_of("\nTop mismatches:\n").as_slice());
        let ghost mid = out@;
        let mut i: usize = 0;
        while i < rep.top_mismatches.len()
            invariant
                i <= rep.top_mismatches@.len(),
                out@ == mid + top_lines(top_views(rep.top_mismatches@).take(i as int)),
            decreases rep.top_mismatches@.len() - i,
        {
            let m = &rep.top_mismatches[i];
            proof {
                let g = top_views(rep.top_mismatches@).take(i + 1);
                assert(g.drop_last() =~= top_views(rep.top_mismatches@).take(i as int));
                assert(g.last() == top_view(*m));
            }
            extend_chars(&mut out, chars_of("- ").as_slice());
            extend_chars(&mut out, chars_of(m.detail.as_str()).as_slice());
            extend_chars(&mut out, chars_of(" (").as_slice());
            extend_chars(&mut out, u64_decimal(m.count as u64).as_slice());
            extend_chars(&mut out, chars_of("×, ex. ").as_slice());
            extend_chars(&mut out, chars_of(m.example_scenario.as_str()).as_slice());
            extend_chars(&mut out, chars_of(")\n").as_slice());
            i += 1;
        }
        assert(top_views(rep.top_mismatches@).take(rep.top_mismatches@.len() as int) =~= top_views(rep.top_mismatches@));
    }
    string_of(out.as_slice())
}


/// Sum of the counts of a totals list.
pub open spec fn totals_sum(t: Seq<(Seq<char>, nat)>) -> nat
    decreases t.len(),
{
    if t.len() == 0 {
        0
    } else {
        totals_sum(t.drop_last()) + t.last().1
    }
}

/// Sum of the counts of the first `k` verdicts of `all_verdicts`.
pub open spec fn verdict_sum(s: Seq<CaseView>, k: int) -> nat
    decreases k,
{
    if k <= 0 {
        0
    } else {
        verdict_sum(s, k - 1) + verdict_count(s, all_verdicts()[k - 1])
    }
}

proof fn lemma_per_verdict_sum(s: Seq<CaseView>, k: int)
    requires
        0 <= k <= 8,
    ensures
        totals_sum(per_verdict_spec(s, k)) == verdict_sum(s, k),
    decreases k,
{
    if k > 0 {
        lemma_per_verdict_sum(s, k - 1);
        let t = per_verdict_spec(s, k - 1);
        let v = all_verdicts()[k - 1];
        if verdict_count(s, v) > 0 {
            assert(t.push((verdict_text(v), verdict_count(s, v))).drop_last() =~= t);
        }
    }
}

proof fn lemma_verdict_sum_all(s: Seq<CaseView>)
    ensures
        verdict_sum(s, 8) == s.len(),
    decreases s.len(),
{
    reveal_with_fuel(verdict_sum, 9);
    if s.len() > 0 {
        lemma_verdict_sum_all(s.drop_last());
        let p = s.drop_last();
        assert(verdict_sum(p, 8) == p.len());
    }
}

/// Every record is counted once: the per-verdict totals of a report add
/// up to its number of cases.
pub proof fn law_verdict_totals_cover_all_cases(records: Seq<CaseRecord>)
    ensures
        totals_sum(per_verdict_spec(case_views(records), 8)) == records.len(),
{
    lemma_per_verdict_sum(case_views(records), 8);
    lemma_verdict_sum_all(case_views(records));
}


/// Verdicts that fail a campaign run.
pub open spec fn failing_verdicts() -> Seq<Verdict> {
    seq![
        Verdict::SemanticMismatch,
        Verdict::Crash,
        Verdict::Timeout,
        Verdict::RineFailure,
        Verdict::InfrastructureFailure,
    ]
}

pub open spec fn failing_sum(t: Seq<(Seq<char>, nat)>, k: int) -> nat
    decreases k,
{
    if k <= 0 {
        0
    } else {
        failing_sum(t, k - 1) + total_for(t, verdict_text(failing_verdicts()[k - 1]))
    }
}

/// Cases of a report whose verdict fails the run (mismatch, crash,
/// timeout, Rine or infrastructure failure), saturating at `usize::MAX`.
pub fn failing_total(rep: &CampaignReport) -> (n: usize)
    ensures
        n as nat == if failing_sum(totals_view(rep.per_verdict@), 5) <= usize::MAX {
            failing_sum(totals_view(rep.per_verdict@), 5)
        } else {
            usize::MAX as nat
        },
{
    let vs: [Verdict; 5] = [
        Verdict::SemanticMismatch,
        Verdict::Crash,
        Verdict::Timeout,
        Verdict::RineFailure,
        Verdict::InfrastructureFailure,
    ];
    let ghost t = totals_view(rep.per_verdict@);
    let mut n: usize = 0;
    let mut k: usize = 0;
    while k < 5
        invariant
            k <= 5,
            t == totals_view(rep.per_verdict@),
            vs@ == failing_verdicts(),
            n as nat == if failing_sum(t, k as int) <= usize::MAX { failing_sum(t, k as int) } else { usize::MAX as nat },
        decreases 5 - k,
    {
        let c = total_of(&rep.per_verdict, verdict_name(vs[k]));
        n = n.saturating_add(c);
        k += 1;
    }
    n
}


/// A campaign's line in the compatibility matrix.
#[derive(Debug, Clone)]
pub struct MatrixEntry {
    pub api: String,
    pub target: String,
    pub scenarios: usize,
    pub matches: usize,
    pub known_differences: usize,
    pub mismatches: usize,
    pub crashes: usize,
    pub timeouts: usize,
    pub rine_version: String,
    pub seed: u64,
    pub generated_at_unix: u64,
}

/// The matrix line of a report: its counts per verdict (0 when absent).
pub fn matrix_entry(rep: &CampaignReport) -> (e: MatrixEntry)
    ensures
        e.api@ == rep.api@,
        e.target@ == rep.target@,
        e.scenarios == rep.cases,
        e.matches as nat == total_for(totals_view(rep.per_verdict@), "Match"@),
        e.known_differences as nat == total_for(totals_view(rep.per_verdict@), "KnownDifference"@),
        e.mismatches as nat == total_for(totals_view(rep.per_verdict@), "SemanticMismatch"@),
        e.crashes as nat == total_for(totals_view(rep.per_verdict@), "Crash"@),
        e.timeouts as nat == total_for(totals_view(rep.per_verdict@), "Timeout"@),
        e.rine_version@ == rep.rine_version@,
        e.seed == rep.seed,
        e.generated_at_unix == rep.generated_at_unix,
{
    MatrixEntry {
        api: owned(rep.api.as_str()),
        target: owned(rep.target.as_str()),
        scenarios: rep.cases,
        matches: total_of(&rep.per_verdict, "Match"),
        known_differences: total_of(&rep.per_verdict, "KnownDifference"),
        mismatches: total_of(&rep.per_verdict, "SemanticMismatch"),
        crashes: total_of(&rep.per_verdict, "Crash"),
        timeouts: total_of(&rep.per_verdict, "Timeout"),
        rine_version: owned(rep.rine_version.as_str()),
        seed: rep.seed,
        generated_at_unix: rep.generated_at_unix,
    }
}

pub open spec fn key_views(keys: Seq<(Option<String>, Option<String>)>) -> Seq<(Option<Seq<char>>, Option<Seq<char>>)> {
    keys.map_values(|k: (Option<String>, Option<String>)| (crate::normalize::opt_chars(k.0), crate::normalize::opt_chars(k.1)))
}

/// Entries of the matrix's campaign list (given by their `(api, target)`
/// string fields, `None` when not a string) that stay when the campaign
/// `(api, target)` is merged in: all the others, in order. The caller
/// appends the new entry, so merging is additive and merging the same
/// campaign twice leaves one entry for it.
pub fn merge_keep(keys: &[(Option<String>, Option<String>)], api: &str, target: &str) -> (kept: Vec<usize>)
    ensures
        forall|a: int, b: int| 0 <= a < b < kept@.len() ==> kept@[a] < kept@[b],
        forall|a: int| 0 <= a < kept@.len() ==> #[trigger] kept@[a] < keys@.len(),
        forall|i: int|
            0 <= i < keys@.len() ==> (kept@.contains(i as usize) <==> #[trigger] key_views(keys@)[i] != (
                Some(api@),
                Some(target@),
            )),
{
    let mut kept: Vec<usize> = Vec::new();
    let mut i: usize = 0;
    while i < keys.len()
        invariant
            i <= keys@.len(),
            forall|a: int, b: int| 0 <= a < b < kept@.len() ==> kept@[a] < kept@[b],
            forall|a: int| 0 <= a < kept@.len() ==> #[trigger] kept@[a] < i,
            forall|j: int|
                0 <= j < i ==> (kept@.contains(j as usize) <==> #[trigger] key_views(keys@)[j] != (
                    Some(api@),
                    Some(target@),
                )),
        decreases keys@.len() - i,
    {
        let same_api = match &keys[i].0 {
            Some(a) => str_eq(a.as_str(), api),
            None => false,
        };
        let same_target = match &keys[i].1 {
            Some(t) => str_eq(t.as_str(), target),
            None => false,
        };
        let ghost before = kept@;
        if !(same_api && same_target) {
            kept.push(i);
        }
        proof {
            assert(key_views(keys@)[i as int] == (crate::normalize::opt_chars(keys@[i as int].0), crate::normalize::opt_chars(keys@[i as int].1)));
            assert forall|j: int| 0 <= j < i + 1 implies (kept@.contains(j as usize) <==> #[trigger] key_views(keys@)[j] != (
                Some(api@),
                Some(target@),
            )) by {
                if j < i {
                    if kept@.contains(j as usize) {
                        let a = choose|a: int| 0 <= a < kept@.len() && kept@[a] == j as usize;
                        if a < before.len() {
                            assert(before[a] == j as usize);
                        }
                    }
                    if before.contains(j as usize) {
                        let a = choose|a: int| 0 <= a < before.len() && before[a] == j as usize;
                        assert(kept@[a] == j as usize);
                    }
                } else {
                    if kept@.contains(j as usize) {
                        let a = choose|a: int| 0 <= a < kept@.len() && kept@[a] == j as usize;
                        if a < before.len() {
                            assert(before[a] < i);
                        }
                    }
                    if !(same_api && same_target) {
                        assert(kept@[before.len() as int] == i);
                    }
                }
            }
        }
        i += 1;
    }
    kept
}

} // verus!
