//! API coverage: real exports crossed with what Rine implements and what
//! its behavioural tests exercise, plus the provenance of generated data.
//!
//! Status meanings: `Missing` (exists on Windows, nothing in Rine), `Stub`,
//! `Partial`, `Implemented` (resolves, full semantics on the claimed
//! subset), `BehaviorTested` (plus an end-to-end test in Rine),
//! `DifferentiallyVerified` (plus the same test on real Windows).
use vstd::prelude::*;
use crate::api_record::{ExportRec, ForwarderRec, PeRecord, ScanOutput, SCHEMA};
use crate::text::{
    ascii_lower, chars_less, chars_lt, chars_of, concat, decimal, lemma_chars_lt_order, lower, owned, seq_eq, str_eq,
    string_of, u64_decimal,
};

verus! {

#[derive(Debug, Clone, Copy, PartialEq, Eq, Structural)]
pub enum ApiStatus {
    Missing,
    Stub,
    Partial,
    Implemented,
    BehaviorTested,
    DifferentiallyVerified,
}

pub open spec fn status_text(s: ApiStatus) -> Seq<char> {
    match s {
        ApiStatus::Missing => "Missing"@,
        ApiStatus::Stub => "Stub"@,
        ApiStatus::Partial => "Partial"@,
        ApiStatus::Implemented => "Implemented"@,
        ApiStatus::BehaviorTested => "BehaviorTested"@,
        ApiStatus::DifferentiallyVerified => "DifferentiallyVerified"@,
    }
}

impl ApiStatus {
    /// The variant's name (the key of the report totals).
    pub fn name(&self) -> (r: &'static str)
        ensures
            r@ == status_text(*self),
    {
        match self {
            ApiStatus::Missing => "Missing",
            ApiStatus::Stub => "Stub",
            ApiStatus::Partial => "Partial",
            ApiStatus::Implemented => "Implemented",
            ApiStatus::BehaviorTested => "BehaviorTested",
            ApiStatus::DifferentiallyVerified => "DifferentiallyVerified",
        }
    }
}

#[derive(Debug, Clone)]
pub struct ApiCoverage {
    pub dll: String,
    pub name: String,
    pub ordinal: Option<u32>,
    pub forwarder: Option<String>,
    pub status: ApiStatus,
    /// Where the claim comes from (test, doc); empty: no evidence.
    pub evidence: String,
}

#[derive(Debug, Clone)]
pub struct CoverageReport {
    pub provenance: String,
    /// Number of APIs per status name, for the statuses that occur (in
    /// declaration order of `ApiStatus`).
    pub totals: Vec<(String, usize)>,
    pub apis: Vec<ApiCoverage>,
}

/// Rine's implemented exports per DLL.
#[derive(Debug, Clone)]
pub struct RineImpls {
    pub kernel32: Vec<String>,
    pub ntdll: Vec<String>,
}

pub open spec fn str_list_has(v: Seq<String>, n: Seq<char>) -> bool {
    exists|i: int| 0 <= i < v.len() && v[i]@ == n
}

/// `dll` (any case, with or without `.dll`) is kernel32 or ntdll and
/// lists `name`.
pub open spec fn rine_has(rine: RineImpls, dll: Seq<char>, name: Seq<char>) -> bool {
    let l = lower(dll);
    if l == "kernel32.dll"@ || l == "kernel32"@ {
        str_list_has(rine.kernel32@, name)
    } else if l == "ntdll.dll"@ || l == "ntdll"@ {
        str_list_has(rine.ntdll@, name)
    } else {
        false
    }
}

fn list_has(v: &Vec<String>, name: &str) -> (r: bool)
    ensures
        r == str_list_has(v@, name@),
{
    let mut i: usize = 0;
    while i < v.len()
        invariant
            i <= v@.len(),
            forall|j: int| 0 <= j < i ==> v@[j]@ != name@,
        decreases v@.len() - i,
    {
        if str_eq(v[i].as_str(), name) {
            return true;
        }
        i += 1;
    }
    false
}

impl RineImpls {
    pub fn contains(&self, dll: &str, name: &str) -> (r: bool)
        ensures
            r == rine_has(*self, dll@, name@),
    {
        let d = chars_of(dll);
        let l = ascii_lower(d.as_slice());
        let k1 = chars_of("kernel32.dll");
        let k2 = chars_of("kernel32");
        let n1 = chars_of("ntdll.dll");
        let n2 = chars_of("ntdll");
        if seq_eq(l.as_slice(), k1.as_slice()) || seq_eq(l.as_slice(), k2.as_slice()) {
            list_has(&self.kernel32, name)
        } else if seq_eq(l.as_slice(), n1.as_slice()) || seq_eq(l.as_slice(), n2.as_slice()) {
            list_has(&self.ntdll, name)
        } else {
            false
        }
    }
}

/// `(dll, name)` exercised by Rine's behavioural (end-to-end) tests.
pub open spec fn behavior_list() -> Seq<(Seq<char>, Seq<char>)> {
    seq![
        ("kernel32.dll"@, "GetStdHandle"@),
        ("kernel32.dll"@, "WriteFile"@),
        ("kernel32.dll"@, "ExitProcess"@),
        ("kernel32.dll"@, "CreateFileA"@),
        ("kernel32.dll"@, "ReadFile"@),
        ("kernel32.dll"@, "CloseHandle"@),
        ("kernel32.dll"@, "VirtualAlloc"@),
        ("kernel32.dll"@, "VirtualFree"@),
        ("kernel32.dll"@, "VirtualProtect"@),
        ("kernel32.dll"@, "GetCommandLineW"@),
        ("kernel32.dll"@, "TlsAlloc"@),
        ("kernel32.dll"@, "TlsFree"@),
        ("kernel32.dll"@, "TlsGetValue"@),
        ("kernel32.dll"@, "TlsSetValue"@),
        ("kernel32.dll"@, "GetLastError"@),
        ("kernel32.dll"@, "Sleep"@),
        ("ntdll.dll"@, "RtlExitUserProcess"@),
        ("ntdll.dll"@, "NtTerminateProcess"@),
    ]
}

pub open spec fn pairs_of(v: Seq<(String, String)>) -> Seq<(Seq<char>, Seq<char>)> {
    v.map_values(|p: (String, String)| (p.0@, p.1@))
}

pub fn behavior_tested() -> (r: Vec<(String, String)>)
    ensures
        pairs_of(r@) == behavior_list(),
{
    let k = "kernel32.dll";
    let names = [
        "GetStdHandle", "WriteFile", "ExitProcess", "CreateFileA", "ReadFile", "CloseHandle", "VirtualAlloc",
        "VirtualFree", "VirtualProtect", "GetCommandLineW", "TlsAlloc", "TlsFree", "TlsGetValue", "TlsSetValue",
        "GetLastError", "Sleep",
    ];
    let mut v: Vec<(String, String)> = Vec::new();
    let mut i: usize = 0;
    while i < 16
        invariant
            i <= 16,
            names@ == seq![
                "GetStdHandle", "WriteFile", "ExitProcess", "CreateFileA", "ReadFile", "CloseHandle", "VirtualAlloc",
                "VirtualFree", "VirtualProtect", "GetCommandLineW", "TlsAlloc", "TlsFree", "TlsGetValue", "TlsSetValue",
                "GetLastError", "Sleep",
            ],
            k@ == "kernel32.dll"@,
            pairs_of(v@) == behavior_list().take(i as int),
        decreases 16 - i,
    {
        let ghost v0 = v@;
        v.push((owned(k), owned(names[i])));
        assert(pairs_of(v@) =~= pairs_of(v0).push((k@, names@[i as int]@)));
        assert(pairs_of(v@) =~= behavior_list().take(i + 1));
        i += 1;
    }
    let ghost v0 = v@;
    v.push((owned("ntdll.dll"), owned("RtlExitUserProcess")));
    assert(pairs_of(v@) =~= pairs_of(v0).push(("ntdll.dll"@, "RtlExitUserProcess"@)));
    let ghost v1 = v@;
    v.push((owned("ntdll.dll"), owned("NtTerminateProcess")));
    assert(pairs_of(v@) =~= pairs_of(v1).push(("ntdll.dll"@, "NtTerminateProcess"@)));
    assert(pairs_of(v@) =~= behavior_list());
    v
}

// ---------------------------------------------------------------------------
// The report.
// ---------------------------------------------------------------------------

pub open spec fn export_label(e: ExportRec) -> Seq<char> {
    match e.name {
        Some(n) => n@,
        None => "#"@ + decimal(e.ordinal as nat),
    }
}

pub open spec fn export_implemented(rine: RineImpls, dll: Seq<char>, e: ExportRec) -> bool {
    match e.name {
        Some(n) => rine_has(rine, dll, n@),
        None => false,
    }
}

pub open spec fn export_tested(behavior: Seq<(Seq<char>, Seq<char>)>, dll: Seq<char>, e: ExportRec) -> bool {
    match e.name {
        Some(n) => behavior.contains((dll, n@)),
        None => false,
    }
}

pub open spec fn forwarder_label(f: Option<ForwarderRec>) -> Option<Seq<char>> {
    match f {
        Some(f) => Some(f.dll@ + "!"@ + f.symbol@),
        None => None,
    }
}

/// Evidence recorded for a behaviour-tested export.
pub open spec fn test_evidence() -> Seq<char> {
    "launcher/tests/{hello,v02,suite}.rs"@
}

/// An API row as plain values: `(dll, name, ordinal, forwarder, status,
/// evidence)`.
pub type CoverageView = (Seq<char>, Seq<char>, Option<u32>, Option<Seq<char>>, ApiStatus, Seq<char>);

pub open spec fn cov_view(a: ApiCoverage) -> CoverageView {
    (a.dll@, a.name@, a.ordinal, match a.forwarder {
        Some(f) => Some(f@),
        None => None,
    }, a.status, a.evidence@)
}

/// The row for export `e` of the DLL `dll`: `BehaviorTested` when both
/// implemented and tested, `Implemented` when implemented, else `Missing`.
pub open spec fn export_row(rine: RineImpls, behavior: Seq<(Seq<char>, Seq<char>)>, dll: Seq<char>, e: ExportRec) -> CoverageView {
    let implemented = export_implemented(rine, dll, e);
    let tested = export_tested(behavior, dll, e);
    let status = if tested && implemented {
        ApiStatus::BehaviorTested
    } else if implemented {
        ApiStatus::Implemented
    } else {
        ApiStatus::Missing
    };
    (dll, export_label(e), Some(e.ordinal), forwarder_label(e.forwarder), status, if tested {
        test_evidence()
    } else {
        seq![]
    })
}

pub open spec fn record_rows(rine: RineImpls, behavior: Seq<(Seq<char>, Seq<char>)>, r: PeRecord) -> Seq<CoverageView> {
    r.exports@.map_values(|e: ExportRec| export_row(rine, behavior, r.filename@, e))
}

/// Rows of every export of every record, in input order.
pub open spec fn all_rows(rine: RineImpls, behavior: Seq<(Seq<char>, Seq<char>)>, records: Seq<PeRecord>) -> Seq<CoverageView>
    decreases records.len(),
{
    if records.len() == 0 {
        seq![]
    } else {
        all_rows(rine, behavior, records.drop_last()) + record_rows(rine, behavior, records.last())
    }
}

/// `(dll, name)` order: by DLL, then by name.
pub open spec fn key_le(a: CoverageView, b: CoverageView) -> bool {
    chars_lt(a.0, b.0) || (a.0 == b.0 && !chars_lt(b.1, a.1))
}

pub open spec fn rows_sorted(s: Seq<CoverageView>) -> bool {
    forall|i: int, j: int| 0 <= i < j < s.len() ==> key_le(#[trigger] s[i], #[trigger] s[j])
}

pub open spec fn count_status(s: Seq<CoverageView>, st: ApiStatus) -> nat
    decreases s.len(),
{
    if s.len() == 0 {
        0
    } else {
        count_status(s.drop_last(), st) + if s.last().4 == st { 1nat } else { 0nat }
    }
}

pub open spec fn all_statuses() -> Seq<ApiStatus> {
    seq![
        ApiStatus::Missing,
        ApiStatus::Stub,
        ApiStatus::Partial,
        ApiStatus::Implemented,
        ApiStatus::BehaviorTested,
        ApiStatus::DifferentiallyVerified,
    ]
}

/// `(status name, count)` for the statuses that occur in `s`, in
/// declaration order.
pub open spec fn totals_spec(s: Seq<CoverageView>, k: int) -> Seq<(Seq<char>, nat)>
    decreases k,
{
    if k <= 0 {
        seq![]
    } else {
        let t = totals_spec(s, k - 1);
        let st = all_statuses()[k - 1];
        if count_status(s, st) > 0 { t.push((status_text(st), count_status(s, st))) } else { t }
    }
}

pub open spec fn report_provenance() -> Seq<char> {
    "rine-api-scan coverage (ver api-db/README.md)"@
}

fn key_less_eq(a: &ApiCoverage, b: &ApiCoverage) -> (r: bool)
    ensures
        r == key_le(cov_view(*a), cov_view(*b)),
{
    let ad = chars_of(a.dll.as_str());
    let bd = chars_of(b.dll.as_str());
    if chars_less(ad.as_slice(), bd.as_slice()) {
        return true;
    }
    if !seq_eq(ad.as_slice(), bd.as_slice()) {
        return false;
    }
    let an = chars_of(a.name.as_str());
    let bn = chars_of(b.name.as_str());
    !chars_less(bn.as_slice(), an.as_slice())
}

proof fn lemma_key_order(a: CoverageView, b: CoverageView, c: CoverageView)
    ensures
        key_le(a, a),
        key_le(a, b) || key_le(b, a),
        key_le(a, b) && key_le(b, c) ==> key_le(a, c),
        !key_le(b, a) ==> key_le(a, b),
{
    lemma_chars_lt_order(a.0, b.0, c.0);
    lemma_chars_lt_order(a.1, b.1, c.1);
    lemma_chars_lt_order(c.1, b.1, a.1);
    lemma_chars_lt_order(b.0, a.0, c.0);
    lemma_chars_lt_order(b.1, a.1, c.1);
    lemma_chars_lt_order(a.0, c.0, b.0);
    lemma_chars_lt_order(b.1, c.1, a.1);
    lemma_chars_lt_order(c.1, a.1, b.1);
}

/// Inserts `x` after every row that does not sort after it (stable).
fn insert_sorted(v: &mut Vec<ApiCoverage>, x: ApiCoverage)
    requires
        rows_sorted(old(v)@.map_values(|a: ApiCoverage| cov_view(a))),
    ensures
        rows_sorted(final(v)@.map_values(|a: ApiCoverage| cov_view(a))),
        final(v)@.map_values(|a: ApiCoverage| cov_view(a)).to_multiset() == old(v)@.map_values(|a: ApiCoverage| cov_view(a)).to_multiset().insert(cov_view(x)),
{
    let ghost s = v@.map_values(|a: ApiCoverage| cov_view(a));
    let ghost xv = cov_view(x);
    let mut p: usize = 0;
    let mut stop = false;
    while p < v.len() && !stop
        invariant
            p <= v@.len(),
            s == v@.map_values(|a: ApiCoverage| cov_view(a)),
            xv == cov_view(x),
            forall|j: int| 0 <= j < p ==> key_le(s[j], xv),
            stop ==> p < s.len() && !key_le(s[p as int], xv),
        decreases v@.len() - p + (if stop { 0int } else { 1int }),
    {
        if key_less_eq(&v[p], &x) {
            p += 1;
        } else {
            stop = true;
        }
    }
    v.insert(p, x);
    proof {
        let t = v@.map_values(|a: ApiCoverage| cov_view(a));
        assert(t =~= s.insert(p as int, xv));
        if p < s.len() {
            lemma_key_order(s[p as int], xv, xv);
            assert(key_le(xv, s[p as int]));
        }
        assert forall|i: int, j: int| 0 <= i < j < t.len() implies key_le(#[trigger] t[i], #[trigger] t[j]) by {
            if j < p {
                assert(t[i] == s[i] && t[j] == s[j]);
            } else if j == p {
                assert(t[i] == s[i]);
            } else if i == p {
                assert(t[j] == s[j - 1]);
                if j - 1 > p {
                    lemma_key_order(xv, s[p as int], s[j - 1]);
                }
            } else if i < p {
                assert(t[i] == s[i] && t[j] == s[j - 1]);
                if j - 1 > p {
                    lemma_key_order(xv, s[p as int], s[j - 1]);
                }
                lemma_key_order(s[i], xv, s[j - 1]);
            } else {
                assert(t[i] == s[i - 1] && t[j] == s[j - 1]);
            }
        }
        vstd::seq_lib::to_multiset_insert(s, p as int, xv);
    }
}

fn count_of(v: &Vec<ApiCoverage>, st: ApiStatus) -> (n: usize)
    ensures
        n == count_status(v@.map_values(|a: ApiCoverage| cov_view(a)), st),
{
    let ghost s = v@.map_values(|a: ApiCoverage| cov_view(a));
    let mut n: usize = 0;
    let mut i: usize = 0;
    assert(s.take(0) =~= Seq::<CoverageView>::empty());
    while i < v.len()
        invariant
            i <= v@.len(),
            s == v@.map_values(|a: ApiCoverage| cov_view(a)),
            n == count_status(s.take(i as int), st),
            n <= i,
        decreases v@.len() - i,
    {
        assert(s.take(i + 1).drop_last() =~= s.take(i as int));
        if v[i].status == st {
            n += 1;
        }
        i += 1;
    }
    assert(s.take(v@.len() as int) =~= s);
    n
}

fn status_at(k: usize) -> (st: ApiStatus)
    requires
        k < 6,
    ensures
        st == all_statuses()[k as int],
{
    if k == 0 {
        ApiStatus::Missing
    } else if k == 1 {
        ApiStatus::Stub
    } else if k == 2 {
        ApiStatus::Partial
    } else if k == 3 {
        ApiStatus::Implemented
    } else if k == 4 {
        ApiStatus::BehaviorTested
    } else {
        ApiStatus::DifferentiallyVerified
    }
}

fn copy_string_opt(o: &Option<ForwarderRec>) -> (r: Option<String>)
    ensures
        match r {
            Some(s) => forwarder_label(*o) == Some(s@),
            None => forwarder_label(*o) is None,
        },
{
    match o {
        Some(f) => {
            let a = concat(f.dll.as_str(), "!");
            Some(concat(a.as_str(), f.symbol.as_str()))
        },
        None => None,
    }
}

fn behavior_has(behavior: &[(String, String)], dll: &str, name: &str) -> (r: bool)
    ensures
        r == pairs_of(behavior@).contains((dll@, name@)),
{
    let mut i: usize = 0;
    while i < behavior.len()
        invariant
            i <= behavior@.len(),
            forall|j: int| 0 <= j < i ==> pairs_of(behavior@)[j] != (dll@, name@),
        decreases behavior@.len() - i,
    {
        if str_eq(behavior[i].0.as_str(), dll) && str_eq(behavior[i].1.as_str(), name) {
            assert(pairs_of(behavior@)[i as int] == (dll@, name@));
            return true;
        }
        i += 1;
    }
    false
}

/// Coverage report of the exports of `records`: one row per export (name, or
/// `#ordinal` when unnamed), sorted by `(dll, name)`, with per-status
/// totals.
pub fn report(records: &[PeRecord], rine: &RineImpls, behavior: &[(String, String)]) -> (rep: CoverageReport)
    ensures
        rep.provenance@ == report_provenance(),
        rows_sorted(rep.apis@.map_values(|a: ApiCoverage| cov_view(a))),
        rep.apis@.map_values(|a: ApiCoverage| cov_view(a)).to_multiset() == all_rows(*rine, pairs_of(behavior@), records@).to_multiset(),
        rep.totals@.map_values(|t: (String, usize)| (t.0@, t.1 as nat)) == totals_spec(rep.apis@.map_values(|a: ApiCoverage| cov_view(a)), 6),
{
    let ghost bv = pairs_of(behavior@);
    let mut apis: Vec<ApiCoverage> = Vec::new();
    assert(apis@.map_values(|a: ApiCoverage| cov_view(a)) =~= Seq::<CoverageView>::empty());
    let mut r: usize = 0;
    assert(records@.take(0) =~= Seq::<PeRecord>::empty());
    while r < records.len()
        invariant
            r <= records@.len(),
            bv == pairs_of(behavior@),
            rows_sorted(apis@.map_values(|a: ApiCoverage| cov_view(a))),
            apis@.map_values(|a: ApiCoverage| cov_view(a)).to_multiset() == all_rows(*rine, bv, records@.take(r as int)).to_multiset(),
        decreases records@.len() - r,
    {
        let rec = &records[r];
        let ghost before = all_rows(*rine, bv, records@.take(r as int));
        assert(records@.take(r + 1).drop_last() =~= records@.take(r as int));
        assert(records@.take(r + 1).last() == *rec);
        let mut e: usize = 0;
        assert(record_rows(*rine, bv, *rec).take(0) =~= Seq::<CoverageView>::empty());
        assert(before + Seq::<CoverageView>::empty() =~= before);
        while e < rec.exports.len()
            invariant
                bv == pairs_of(behavior@),
                e <= rec.exports@.len(),
                rows_sorted(apis@.map_values(|a: ApiCoverage| cov_view(a))),
                apis@.map_values(|a: ApiCoverage| cov_view(a)).to_multiset() == (before + record_rows(*rine, bv, *rec).take(e as int)).to_multiset(),
            decreases rec.exports@.len() - e,
        {
            let ex = &rec.exports[e];
            let name = match &ex.name {
                Some(n) => owned(n.as_str()),
                None => {
                    let mut cs = chars_of("#");
                    let d = u64_decimal(ex.ordinal as u64);
                    crate::text::extend_chars(&mut cs, d.as_slice());
                    string_of(cs.as_slice())
                },
            };
            let implemented = match &ex.name {
                Some(n) => rine.contains(rec.filename.as_str(), n.as_str()),
                None => false,
            };
            let tested = match &ex.name {
                Some(n) => behavior_has(behavior, rec.filename.as_str(), n.as_str()),
                None => false,
            };
            let status = if tested && implemented {
                ApiStatus::BehaviorTested
            } else if implemented {
                ApiStatus::Implemented
            } else {
                ApiStatus::Missing
            };
            let row = ApiCoverage {
                dll: owned(rec.filename.as_str()),
                name,
                ordinal: Some(ex.ordinal),
                forwarder: copy_string_opt(&ex.forwarder),
                status,
                evidence: if tested { owned("launcher/tests/{hello,v02,suite}.rs") } else { String::new() },
            };
            assert(cov_view(row) == export_row(*rine, bv, rec.filename@, *ex));
            let ghost rr = record_rows(*rine, bv, *rec);
            assert(rr.take(e + 1) =~= rr.take(e as int).push(cov_view(row)));
            assert(before + rr.take(e + 1) =~= (before + rr.take(e as int)).push(cov_view(row)));
            insert_sorted(&mut apis, row);
            proof {
                vstd::seq_lib::to_multiset_build(before + rr.take(e as int), cov_view(row));
            }
            e += 1;
        }
        assert(record_rows(*rine, bv, *rec).take(rec.exports@.len() as int) =~= record_rows(*rine, bv, *rec));
        r += 1;
    }
    assert(records@.take(records@.len() as int) =~= records@);
    let ghost av = apis@.map_values(|a: ApiCoverage| cov_view(a));
    let mut totals: Vec<(String, usize)> = Vec::new();
    let mut k: usize = 0;
    while k < 6
        invariant
            k <= 6,
            av == apis@.map_values(|a: ApiCoverage| cov_view(a)),
            totals@.map_values(|t: (String, usize)| (t.0@, t.1 as nat)) == totals_spec(av, k as int),
        decreases 6 - k,
    {
        let st = status_at(k);
        let c = count_of(&apis, st);
        if c > 0 {
            let ghost t0 = totals@;
            totals.push((owned(st.name()), c));
            assert(totals@.map_values(|t: (String, usize)| (t.0@, t.1 as nat)) =~= t0.map_values(|t: (String, usize)| (t.0@, t.1 as nat)).push((status_text(st), c as nat)));
        }
        k += 1;
    }
    CoverageReport { provenance: owned("rine-api-scan coverage (ver api-db/README.md)"), totals, apis }
}

// ---------------------------------------------------------------------------
// Provenance of generated data.
// ---------------------------------------------------------------------------

/// Provenance header written into every generated artifact.
#[derive(Debug, Clone)]
pub struct Provenance {
    pub generator: String,
    pub generator_version: String,
    pub schema: u32,
    pub reference: String,
    pub note: String,
}

pub open spec fn provenance_note() -> Seq<char> {
    "GERADO — não editar; regenerar com `cargo run -p api-scan -- scan`"@
}

/// Provenance for data generated from `reference` by the scanner at
/// `generator_version`.
pub fn provenance(reference: &str, generator_version: &str) -> (p: Provenance)
    ensures
        p.generator@ == "rine-api-scan"@,
        p.generator_version@ == generator_version@,
        p.schema == SCHEMA,
        p.reference@ == reference@,
        p.note@ == provenance_note(),
{
    Provenance {
        generator: owned("rine-api-scan"),
        generator_version: owned(generator_version),
        schema: SCHEMA,
        reference: owned(reference),
        note: owned("GERADO — não editar; regenerar com `cargo run -p api-scan -- scan`"),
    }
}

#[derive(Debug, Clone)]
pub struct Metadata {
    pub provenance: Provenance,
    pub dll_count: usize,
    pub export_count: usize,
    pub import_edge_count: usize,
    pub forwarder_count: usize,
    pub apiset_files: usize,
    pub skipped_count: usize,
}

#[derive(Debug, Clone)]
pub struct DllFile {
    pub provenance: Provenance,
    pub record: PeRecord,
}

pub open spec fn export_total(rs: Seq<PeRecord>) -> nat
    decreases rs.len(),
{
    if rs.len() == 0 { 0 } else { export_total(rs.drop_last()) + rs.last().exports@.len() }
}

pub open spec fn edge_total(imports: Seq<crate::api_record::ImportRec>) -> nat
    decreases imports.len(),
{
    if imports.len() == 0 { 0 } else { edge_total(imports.drop_last()) + imports.last().symbols@.len() }
}

pub open spec fn import_edge_total(rs: Seq<PeRecord>) -> nat
    decreases rs.len(),
{
    if rs.len() == 0 { 0 } else { import_edge_total(rs.drop_last()) + edge_total(rs.last().imports@) }
}

pub open spec fn forwarders_in(es: Seq<ExportRec>) -> nat
    decreases es.len(),
{
    if es.len() == 0 { 0 } else { forwarders_in(es.drop_last()) + if es.last().forwarder is Some { 1nat } else { 0nat } }
}

pub open spec fn forwarder_total(rs: Seq<PeRecord>) -> nat
    decreases rs.len(),
{
    if rs.len() == 0 { 0 } else { forwarder_total(rs.drop_last()) + forwarders_in(rs.last().exports@) }
}

pub open spec fn apiset_total(rs: Seq<PeRecord>) -> nat
    decreases rs.len(),
{
    if rs.len() == 0 { 0 } else { apiset_total(rs.drop_last()) + if rs.last().is_api_set { 1nat } else { 0nat } }
}

proof fn lemma_forwarders_le(es: Seq<ExportRec>)
    ensures
        forwarders_in(es) <= es.len(),
    decreases es.len(),
{
    if es.len() > 0 {
        lemma_forwarders_le(es.drop_last());
    }
}

proof fn lemma_totals_mono(rs: Seq<PeRecord>, k: int)
    requires
        0 <= k <= rs.len(),
    ensures
        export_total(rs.take(k)) <= export_total(rs),
        import_edge_total(rs.take(k)) <= import_edge_total(rs),
        forwarder_total(rs.take(k)) <= forwarder_total(rs),
        apiset_total(rs.take(k)) <= k,
    decreases rs.len(),
{
    if k < rs.len() {
        assert(rs.drop_last().take(k) =~= rs.take(k));
        lemma_totals_mono(rs.drop_last(), k);
    } else {
        assert(rs.take(k) =~= rs);
        lemma_apiset_le(rs);
    }
}

proof fn lemma_apiset_le(rs: Seq<PeRecord>)
    ensures
        apiset_total(rs) <= rs.len(),
    decreases rs.len(),
{
    if rs.len() > 0 {
        lemma_apiset_le(rs.drop_last());
    }
}

/// Summary counts of a scan, as written to `metadata.json`.
pub fn db_metadata(out: &ScanOutput, prov: Provenance) -> (m: Metadata)
    requires
        export_total(out.records@) <= usize::MAX,
        import_edge_total(out.records@) <= usize::MAX,
        forwarder_total(out.records@) <= usize::MAX,
    ensures
        m.provenance == prov,
        m.dll_count == out.records@.len(),
        m.export_count == export_total(out.records@),
        m.import_edge_count == import_edge_total(out.records@),
        m.forwarder_count == forwarder_total(out.records@),
        m.apiset_files == apiset_total(out.records@),
        m.skipped_count == out.skipped@.len(),
{
    let ghost rs = out.records@;
    let mut export_count: usize = 0;
    let mut import_edges: usize = 0;
    let mut forwarder_count: usize = 0;
    let mut apiset_files: usize = 0;
    let mut i: usize = 0;
    assert(rs.take(0) =~= Seq::<PeRecord>::empty());
    while i < out.records.len()
        invariant
            i <= rs.len(),
            rs == out.records@,
            export_total(rs) <= usize::MAX,
            import_edge_total(rs) <= usize::MAX,
            forwarder_total(rs) <= usize::MAX,
            export_count == export_total(rs.take(i as int)),
            import_edges == import_edge_total(rs.take(i as int)),
            forwarder_count == forwarder_total(rs.take(i as int)),
            apiset_files == apiset_total(rs.take(i as int)),
        decreases rs.len() - i,
    {
        let r = &out.records[i];
        assert(rs.take(i + 1).drop_last() =~= rs.take(i as int));
        assert(rs.take(i + 1).last() == *r);
        proof {
            lemma_totals_mono(rs, i + 1);
        }
        export_count = export_count + r.exports.len();
        let mut d: usize = 0;
        let ghost base_edges = import_edges;
        assert(r.imports@.take(0) =~= Seq::<crate::api_record::ImportRec>::empty());
        while d < r.imports.len()
            invariant
                d <= r.imports@.len(),
                import_edges == base_edges + edge_total(r.imports@.take(d as int)),
                base_edges + edge_total(r.imports@) <= usize::MAX,
            decreases r.imports@.len() - d,
        {
            assert(r.imports@.take(d + 1).drop_last() =~= r.imports@.take(d as int));
            proof {
                lemma_edge_mono(r.imports@, d + 1);
            }
            import_edges = import_edges + r.imports[d].symbols.len();
            d += 1;
        }
        assert(r.imports@.take(r.imports@.len() as int) =~= r.imports@);
        let mut e: usize = 0;
        let ghost base_fw = forwarder_count;
        assert(r.exports@.take(0) =~= Seq::<ExportRec>::empty());
        while e < r.exports.len()
            invariant
                e <= r.exports@.len(),
                forwarder_count == base_fw + forwarders_in(r.exports@.take(e as int)),
                base_fw + forwarders_in(r.exports@) <= usize::MAX,
            decreases r.exports@.len() - e,
        {
            assert(r.exports@.take(e + 1).drop_last() =~= r.exports@.take(e as int));
            proof {
                lemma_forwarders_mono(r.exports@, e + 1);
            }
            if r.exports[e].forwarder.is_some() {
                forwarder_count = forwarder_count + 1;
            }
            e += 1;
        }
        assert(r.exports@.take(r.exports@.len() as int) =~= r.exports@);
        if r.is_api_set {
            apiset_files = apiset_files + 1;
        }
        i += 1;
    }
    assert(rs.take(rs.len() as int) =~= rs);
    Metadata {
        provenance: prov,
        dll_count: out.records.len(),
        export_count,
        import_edge_count: import_edges,
        forwarder_count,
        apiset_files,
        skipped_count: out.skipped.len(),
    }
}

proof fn lemma_edge_mono(s: Seq<crate::api_record::ImportRec>, k: int)
    requires
        0 <= k <= s.len(),
    ensures
        edge_total(s.take(k)) <= edge_total(s),
    decreases s.len(),
{
    if k < s.len() {
        assert(s.drop_last().take(k) =~= s.take(k));
        lemma_edge_mono(s.drop_last(), k);
    } else {
        assert(s.take(k) =~= s);
    }
}

proof fn lemma_forwarders_mono(s: Seq<ExportRec>, k: int)
    requires
        0 <= k <= s.len(),
    ensures
        forwarders_in(s.take(k)) <= forwarders_in(s),
    decreases s.len(),
{
    if k < s.len() {
        assert(s.drop_last().take(k) =~= s.take(k));
        lemma_forwarders_mono(s.drop_last(), k);
    } else {
        assert(s.take(k) =~= s);
    }
}

/// Stem of a file name: the text before the last `.` (the whole name when
/// it has none).
pub open spec fn file_stem(f: Seq<char>) -> Seq<char> {
    match crate::text::find_last_char(f, '.') {
        Some(i) => f.take(i),
        None => f,
    }
}

pub open spec fn upper(s: Seq<char>) -> Seq<char> {
    s.map_values(|c: char| crate::nt_file::lower_to_upper(c))
}

/// Name of a DLL's record file: `<STEM>.json`, stem in ASCII uppercase.
pub fn dll_json_name(filename: &str) -> (r: String)
    ensures
        r@ == upper(file_stem(filename@)) + ".json"@,
{
    let f = chars_of(filename);
    let stem = match crate::text::rfind_char(f.as_slice(), '.') {
        Some(i) => crate::text::slice_copy(f.as_slice(), 0, i),
        None => f,
    };
    let mut out: Vec<char> = Vec::new();
    let mut i: usize = 0;
    while i < stem.len()
        invariant
            i <= stem@.len(),
            out@ == upper(stem@).take(i as int),
        decreases stem@.len() - i,
    {
        out.push(crate::nt_file::ascii_upper_char(stem[i]));
        assert(out@ =~= upper(stem@).take(i + 1));
        i += 1;
    }
    assert(upper(stem@).take(stem@.len() as int) =~= upper(stem@));
    let ext = chars_of(".json");
    crate::text::extend_chars(&mut out, ext.as_slice());
    string_of(out.as_slice())
}

/// Sum of the counts of a totals list.
pub open spec fn sum_counts(t: Seq<(Seq<char>, nat)>) -> nat
    decreases t.len(),
{
    if t.len() == 0 { 0 } else { sum_counts(t.drop_last()) + t.last().1 }
}

/// Rows counted under the first `k` statuses.
pub open spec fn status_count_sum(s: Seq<CoverageView>, k: int) -> nat
    decreases k,
{
    if k <= 0 { 0 } else { status_count_sum(s, k - 1) + count_status(s, all_statuses()[k - 1]) }
}

proof fn lemma_totals_sum(s: Seq<CoverageView>, k: int)
    requires
        0 <= k <= 6,
    ensures
        sum_counts(totals_spec(s, k)) == status_count_sum(s, k),
    decreases k,
{
    if k > 0 {
        lemma_totals_sum(s, k - 1);
        let t = totals_spec(s, k - 1);
        let st = all_statuses()[k - 1];
        if count_status(s, st) > 0 {
            assert(t.push((status_text(st), count_status(s, st))).drop_last() =~= t);
        }
    }
}

proof fn lemma_status_counts_cover(s: Seq<CoverageView>)
    ensures
        status_count_sum(s, 6) == s.len(),
    decreases s.len(),
{
    reveal_with_fuel(status_count_sum, 7);
    if s.len() > 0 {
        lemma_status_counts_cover(s.drop_last());
        let p = s.drop_last();
        assert(status_count_sum(p, 6) == p.len());
        match s.last().4 {
            ApiStatus::Missing => {},
            ApiStatus::Stub => {},
            ApiStatus::Partial => {},
            ApiStatus::Implemented => {},
            ApiStatus::BehaviorTested => {},
            ApiStatus::DifferentiallyVerified => {},
        }
    }
}

/// The per-status totals of a list of rows add up to its number of rows:
/// every row has exactly one status, and a status that no row has is left
/// out of the totals, not counted.
pub proof fn law_report_totals_sum(rows: Seq<CoverageView>)
    ensures
        sum_counts(totals_spec(rows, 6)) == rows.len(),
{
    lemma_totals_sum(rows, 6);
    lemma_status_counts_cover(rows);
}

/// Row `k` of the coverage rows is the row of some export of some record.
pub open spec fn row_of_some_export(rine: RineImpls, behavior: Seq<(Seq<char>, Seq<char>)>, records: Seq<PeRecord>, row: CoverageView) -> bool {
    exists|i: int, j: int|
        0 <= i < records.len() && 0 <= j < records[i].exports@.len() && row == #[trigger] export_row(
            rine,
            behavior,
            records[i].filename@,
            records[i].exports@[j],
        )
}

/// The coverage rows, row by row: one per export of the records; each is
/// the row of an export (name, or `#ordinal`); its status is
/// `BehaviorTested`, `Implemented` or `Missing`, never `Stub`, `Partial` or
/// `DifferentiallyVerified`; `BehaviorTested` exactly when the export is
/// implemented and tested; and it carries evidence exactly when tested.
pub proof fn law_report_rows(rine: RineImpls, behavior: Seq<(Seq<char>, Seq<char>)>, records: Seq<PeRecord>)
    ensures
        all_rows(rine, behavior, records).len() == export_total(records),
        forall|k: int|
            0 <= k < all_rows(rine, behavior, records).len() ==> row_of_some_export(
                rine,
                behavior,
                records,
                #[trigger] all_rows(rine, behavior, records)[k],
            ),
        forall|dll: Seq<char>, e: ExportRec|
            {
                let row = #[trigger] export_row(rine, behavior, dll, e);
                &&& row.1 == export_label(e)
                &&& (row.4 == ApiStatus::BehaviorTested || row.4 == ApiStatus::Implemented || row.4 == ApiStatus::Missing)
                &&& (row.4 == ApiStatus::BehaviorTested <==> export_implemented(rine, dll, e) && export_tested(behavior, dll, e))
                &&& (row.4 == ApiStatus::Implemented <==> export_implemented(rine, dll, e) && !export_tested(behavior, dll, e))
                &&& (row.5.len() > 0 <==> export_tested(behavior, dll, e))
            },
    decreases records.len(),
{
    reveal_strlit("launcher/tests/{hello,v02,suite}.rs");
    if records.len() > 0 {
        let init = records.drop_last();
        law_report_rows(rine, behavior, init);
        let pre = all_rows(rine, behavior, init);
        let last = record_rows(rine, behavior, records.last());
        let all = all_rows(rine, behavior, records);
        assert(all == pre + last);
        assert forall|k: int| 0 <= k < all.len() implies row_of_some_export(rine, behavior, records, #[trigger] all[k]) by {
            if k < pre.len() {
                assert(all[k] == pre[k]);
                assert(row_of_some_export(rine, behavior, init, pre[k]));
                let (i, j) = choose|i: int, j: int|
                    0 <= i < init.len() && 0 <= j < init[i].exports@.len() && pre[k] == #[trigger] export_row(
                        rine,
                        behavior,
                        init[i].filename@,
                        init[i].exports@[j],
                    );
                assert(records[i] == init[i]);
            } else {
                let j = k - pre.len();
                let i = records.len() - 1;
                assert(all[k] == last[j]);
                assert(last[j] == export_row(rine, behavior, records[i].filename@, records[i].exports@[j]));
            }
        }
    }
}

} // verus!
