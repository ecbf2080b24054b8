//! Differential comparator: an `Expectation` against a normalized run
//! result gives a `Verdict`. The taxonomy is closed and never collapsed to
//! pass/fail internally: a timeout is not a crash, an oracle failure is
//! not a Rine failure.
use vstd::prelude::*;
use crate::text::{chars_of, decimal, is_prefix, is_suffix, owned, seq_eq, starts_with, ends_with, str_eq};

verus! {

#[derive(Debug, Clone, Copy, PartialEq, Eq, Structural)]
pub enum Verdict {
    Match,
    KnownDifference,
    SemanticMismatch,
    Crash,
    Timeout,
    OracleFailure,
    RineFailure,
    InfrastructureFailure,
}

impl Verdict {
    /// `Match` and `KnownDifference` pass; everything else does not.
    pub fn is_pass(&self) -> (r: bool)
        ensures
            r == (*self == Verdict::Match || *self == Verdict::KnownDifference),
    {
        match self {
            Verdict::Match | Verdict::KnownDifference => true,
            _ => false,
        }
    }
}

/// The parts of a normalized run result the comparator reads.
#[derive(Debug, Clone)]
pub struct OracleResult {
    pub exit_code: Option<i32>,
    pub stdout_text: Option<String>,
    pub stderr_text: Option<String>,
    /// Size in bytes of the captured stdout / stderr.
    pub stdout_bytes: usize,
    pub stderr_bytes: usize,
    pub crash: Option<String>,
    pub timed_out: bool,
    /// Files the run left in its working directory (relative names).
    pub files_created: Vec<String>,
}

/// A documented, known difference (never "ignore to pass").
#[derive(Debug, Clone)]
pub struct KnownDifference {
    /// Prefix of the scenario id, or `"*"` for any.
    pub scenario_prefix: String,
    /// API or `"*"`.
    pub api: String,
    /// Aspect (`"exit_code"`, `"stdout"`, `"files"`, ...) or `"*"`.
    pub aspect: String,
    /// Why it differs, and when the entry can go.
    pub reason: String,
}

pub open spec fn kd_matches(k: KnownDifference, scenario_id: Seq<char>, api: Seq<char>, aspect: Seq<char>) -> bool {
    &&& (k.scenario_prefix@ == "*"@ || is_prefix(k.scenario_prefix@, scenario_id))
    &&& (k.api@ == "*"@ || k.api@ == api)
    &&& (k.aspect@ == "*"@ || k.aspect@ == aspect)
}

impl KnownDifference {
    pub fn matches(&self, scenario_id: &str, api: &str, aspect: &str) -> (r: bool)
        ensures
            r == kd_matches(*self, scenario_id@, api@, aspect@),
            self.aspect@ != "*"@ && self.aspect@ != aspect@ ==> !r,
            self.api@ != "*"@ && self.api@ != api@ ==> !r,
            self.scenario_prefix@ != "*"@ && !is_prefix(self.scenario_prefix@, scenario_id@) ==> !r,
            self.aspect@ == "*"@ && self.api@ == "*"@ && self.scenario_prefix@ == "*"@ ==> r,
    {
        proof {
            law_known_difference_scope(seq![*self], scenario_id@, api@, aspect@);
        }
        let star = "*";
        let sc = chars_of(scenario_id);
        let pre = chars_of(self.scenario_prefix.as_str());
        (str_eq(self.scenario_prefix.as_str(), star) || starts_with(sc.as_slice(), pre.as_slice()))
            && (str_eq(self.api.as_str(), star) || str_eq(self.api.as_str(), api))
            && (str_eq(self.aspect.as_str(), star) || str_eq(self.aspect.as_str(), aspect))
    }
}

/// A known difference is scoped: an entry absorbs a mismatch only for its
/// own aspect, API and scenario prefix (each may be `"*"` for any). So a
/// `KnownDifference` verdict needs an entry naming the aspect (or `"*"`),
/// the API (or `"*"`) and a prefix of the scenario id (or `"*"`); an entry
/// for another aspect never hides a mismatch; and an all-`"*"` entry
/// covers everything.
pub proof fn law_known_difference_scope(known: Seq<KnownDifference>, scenario_id: Seq<char>, api: Seq<char>, aspect: Seq<char>)
    ensures
        forall|i: int|
            0 <= i < known.len() && known[i].aspect@ != "*"@ && known[i].aspect@ != aspect ==> !kd_matches(
                #[trigger] known[i],
                scenario_id,
                api,
                aspect,
            ),
        forall|i: int|
            0 <= i < known.len() && known[i].api@ != "*"@ && known[i].api@ != api ==> !kd_matches(
                #[trigger] known[i],
                scenario_id,
                api,
                aspect,
            ),
        forall|i: int|
            0 <= i < known.len() && known[i].scenario_prefix@ != "*"@ && !is_prefix(known[i].scenario_prefix@, scenario_id)
                ==> !kd_matches(#[trigger] known[i], scenario_id, api, aspect),
        forall|i: int|
            0 <= i < known.len() && known[i].aspect@ == "*"@ && known[i].api@ == "*"@ && known[i].scenario_prefix@ == "*"@
                ==> kd_matches(#[trigger] known[i], scenario_id, api, aspect),
        known_or_mismatch_spec(known, scenario_id, api, aspect) == Verdict::KnownDifference ==> exists|i: int|
            0 <= i < known.len() && (known[i].aspect@ == "*"@ || known[i].aspect@ == aspect) && (known[i].api@ == "*"@
                || known[i].api@ == api) && (known[i].scenario_prefix@ == "*"@ || is_prefix(
                known[i].scenario_prefix@,
                scenario_id,
            )),
        (forall|i: int| 0 <= i < known.len() ==> (#[trigger] known[i]).aspect@ != "*"@ && known[i].aspect@ != aspect)
            ==> known_or_mismatch_spec(known, scenario_id, api, aspect) == Verdict::SemanticMismatch,
{
}

/// `KnownDifference` when a documented entry covers the aspect, else
/// `SemanticMismatch`.
pub open spec fn known_or_mismatch_spec(known: Seq<KnownDifference>, scenario_id: Seq<char>, api: Seq<char>, aspect: Seq<char>) -> Verdict {
    if exists|i: int| 0 <= i < known.len() && kd_matches(known[i], scenario_id, api, aspect) {
        Verdict::KnownDifference
    } else {
        Verdict::SemanticMismatch
    }
}

pub fn known_or_mismatch(known: &[KnownDifference], scenario_id: &str, api: &str, aspect: &str) -> (v: Verdict)
    ensures
        v == known_or_mismatch_spec(known@, scenario_id@, api@, aspect@),
{
    let mut i: usize = 0;
    while i < known.len()
        invariant
            i <= known@.len(),
            forall|j: int| 0 <= j < i ==> !kd_matches(known@[j], scenario_id@, api@, aspect@),
        decreases known@.len() - i,
    {
        if known[i].matches(scenario_id, api, aspect) {
            return Verdict::KnownDifference;
        }
        i += 1;
    }
    Verdict::SemanticMismatch
}

/// `needle` occurs in `hay`.
pub open spec fn contains_text(hay: Seq<char>, needle: Seq<char>) -> bool {
    exists|i: int| 0 <= i && i + needle.len() <= hay.len() && #[trigger] hay.subrange(i, i + needle.len()) == needle
}

pub fn text_contains(hay: &[char], needle: &[char]) -> (r: bool)
    ensures
        r == contains_text(hay@, needle@),
{
    let hl: usize = hay.len();
    if needle.len() > hl {
        return false;
    }
    let last: usize = hl - needle.len();
    let mut i: usize = 0;
    loop
        invariant
            hl == hay@.len(),
            last + needle@.len() == hay@.len(),
            i <= last,
            forall|j: int| 0 <= j < i ==> #[trigger] hay@.subrange(j, j + needle@.len()) != needle@,
        decreases last - i,
    {
        let piece = crate::text::slice_copy(hay, i, i + needle.len());
        if seq_eq(piece.as_slice(), needle) {
            return true;
        }
        if i == last {
            proof {
                assert forall|j: int| 0 <= j && j + needle@.len() <= hay@.len() implies #[trigger] hay@.subrange(j, j + needle@.len()) != needle@ by {
                    assert(j <= last);
                }
            }
            return false;
        }
        i += 1;
    }
}

/// What the model (or a recorded oracle) expects of a run.
#[derive(Debug, Clone)]
pub struct Expectation {
    pub exit_code: Option<i32>,
    /// Substrings stdout must contain (all of them).
    pub stdout_contains: Vec<String>,
    /// Final files `{name: bytes}`, in name order.
    pub files: Vec<(String, Vec<u8>)>,
}

pub open spec fn stdout_view(r: OracleResult) -> Seq<char> {
    match r.stdout_text {
        Some(s) => s@,
        None => seq![],
    }
}

pub open spec fn expected_name(e: Expectation, name: Seq<char>) -> bool {
    exists|i: int| 0 <= i < e.files@.len() && e.files@[i].0@ == name
}

/// Verdict of `e` against result `r`, where `got[i]` is the content read
/// back for `e.files[i]` (`None`: it could not be read). Timeout, then
/// crash, then exit code, stdout, file contents, and finally unexpected
/// extra `.txt` files; a mismatch is absorbed by a matching known
/// difference for that aspect.
pub open spec fn check_spec(
    e: Expectation,
    r: OracleResult,
    got: Seq<Option<Vec<u8>>>,
    known: Seq<KnownDifference>,
    scenario_id: Seq<char>,
    api: Seq<char>,
) -> Verdict {
    if r.timed_out {
        Verdict::Timeout
    } else if r.crash is Some {
        Verdict::Crash
    } else if r.exit_code != e.exit_code {
        known_or_mismatch_spec(known, scenario_id, api, "exit_code"@)
    } else if !(forall|i: int| 0 <= i < e.stdout_contains@.len() ==> contains_text(stdout_view(r), #[trigger] e.stdout_contains@[i]@)) {
        known_or_mismatch_spec(known, scenario_id, api, "stdout"@)
    } else if !(forall|i: int| 0 <= i < e.files@.len() ==> (#[trigger] got[i] matches Some(g) && g@ == e.files@[i].1@)) {
        known_or_mismatch_spec(known, scenario_id, api, "files"@)
    } else if exists|i: int| 0 <= i < r.files_created@.len() && is_suffix(".txt"@, #[trigger] r.files_created@[i]@) && !expected_name(e, r.files_created@[i]@) {
        known_or_mismatch_spec(known, scenario_id, api, "extra-files"@)
    } else {
        Verdict::Match
    }
}

/// What a verdict says of a run. A timeout or a crash is reported as such
/// whatever else differs. `Match` means the run agrees with the
/// expectation: no timeout, no crash, the expected exit code, every
/// expected stdout piece present, every expected file read back with the
/// expected bytes. With no documented known difference, a different exit
/// code is a `SemanticMismatch`; a verdict is only `KnownDifference` when
/// some entry is documented at all.
pub proof fn law_check_verdict(
    e: Expectation,
    r: OracleResult,
    got: Seq<Option<Vec<u8>>>,
    known: Seq<KnownDifference>,
    scenario_id: Seq<char>,
    api: Seq<char>,
)
    ensures
        r.timed_out ==> check_spec(e, r, got, known, scenario_id, api) == Verdict::Timeout,
        !r.timed_out && r.crash is Some ==> check_spec(e, r, got, known, scenario_id, api) == Verdict::Crash,
        check_spec(e, r, got, known, scenario_id, api) == Verdict::Match ==> {
            &&& !r.timed_out && r.crash is None
            &&& r.exit_code == e.exit_code
            &&& forall|i: int| 0 <= i < e.stdout_contains@.len() ==> contains_text(stdout_view(r), #[trigger] e.stdout_contains@[i]@)
            &&& forall|i: int| 0 <= i < e.files@.len() ==> (#[trigger] got[i] matches Some(g) && g@ == e.files@[i].1@)
        },
        !r.timed_out && r.crash is None && r.exit_code != e.exit_code && known.len() == 0 ==> check_spec(
            e,
            r,
            got,
            known,
            scenario_id,
            api,
        ) == Verdict::SemanticMismatch,
        known.len() == 0 ==> check_spec(e, r, got, known, scenario_id, api) != Verdict::KnownDifference,
{
}

fn bytes_equal(a: &[u8], b: &[u8]) -> (r: bool)
    ensures
        r == (a@ == b@),
{
    if a.len() != b.len() {
        return false;
    }
    let mut i: usize = 0;
    while i < a.len()
        invariant
            a@.len() == b@.len(),
            i <= a@.len(),
            forall|j: int| 0 <= j < i ==> a@[j] == b@[j],
        decreases a@.len() - i,
    {
        if a[i] != b[i] {
            return false;
        }
        i += 1;
    }
    assert(a@ =~= b@);
    true
}

impl Expectation {
    fn has_file(&self, name: &str) -> (r: bool)
        ensures
            r == expected_name(*self, name@),
    {
        let mut i: usize = 0;
        while i < self.files.len()
            invariant
                i <= self.files@.len(),
                forall|j: int| 0 <= j < i ==> self.files@[j].0@ != name@,
            decreases self.files@.len() - i,
        {
            if str_eq(self.files[i].0.as_str(), name) {
                return true;
            }
            i += 1;
        }
        false
    }

    /// Compares a normalized result and the file contents read back from
    /// its working directory (`got[i]` for `self.files[i]`).
    pub fn check(
        &self,
        r: &OracleResult,
        got: &[Option<Vec<u8>>],
        known: &[KnownDifference],
        scenario_id: &str,
        api: &str,
    ) -> (v: Verdict)
        requires
            got@.len() == self.files@.len(),
        ensures
            v == check_spec(*self, *r, got@, known@, scenario_id@, api@),
    {
        if r.timed_out {
            return Verdict::Timeout;
        }
        if r.crash.is_some() {
            return Verdict::Crash;
        }
        let same_exit = match (r.exit_code, self.exit_code) {
            (Some(a), Some(b)) => a == b,
            (None, None) => true,
            _ => false,
        };
        if !same_exit {
            return known_or_mismatch(known, scenario_id, api, "exit_code");
        }
        let out = match &r.stdout_text {
            Some(s) => chars_of(s.as_str()),
            None => Vec::new(),
        };
        let mut i: usize = 0;
        while i < self.stdout_contains.len()
            invariant
                !r.timed_out,
                r.crash is None,
                r.exit_code == self.exit_code,
                i <= self.stdout_contains@.len(),
                out@ == stdout_view(*r),
                forall|j: int| 0 <= j < i ==> contains_text(stdout_view(*r), #[trigger] self.stdout_contains@[j]@),
            decreases self.stdout_contains@.len() - i,
        {
            let needle = chars_of(self.stdout_contains[i].as_str());
            if !text_contains(out.as_slice(), needle.as_slice()) {
                assert(!contains_text(stdout_view(*r), self.stdout_contains@[i as int]@));
                return known_or_mismatch(known, scenario_id, api, "stdout");
            }
            i += 1;
        }
        let mut k: usize = 0;
        while k < self.files.len()
            invariant
                !r.timed_out,
                r.crash is None,
                r.exit_code == self.exit_code,
                forall|j: int| 0 <= j < self.stdout_contains@.len() ==> contains_text(stdout_view(*r), #[trigger] self.stdout_contains@[j]@),
                k <= self.files@.len(),
                got@.len() == self.files@.len(),
                forall|j: int| 0 <= j < k ==> (#[trigger] got@[j] matches Some(g) && g@ == self.files@[j].1@),
            decreases self.files@.len() - k,
        {
            let ok = match &got[k] {
                Some(g) => bytes_equal(g.as_slice(), self.files[k].1.as_slice()),
                None => false,
            };
            if !ok {
                assert(!(got@[k as int] matches Some(g) && g@ == self.files@[k as int].1@));
                return known_or_mismatch(known, scenario_id, api, "files");
            }
            k += 1;
        }
        let txt = chars_of(".txt");
        let mut m: usize = 0;
        while m < r.files_created.len()
            invariant
                !r.timed_out,
                r.crash is None,
                r.exit_code == self.exit_code,
                forall|j: int| 0 <= j < self.stdout_contains@.len() ==> contains_text(stdout_view(*r), #[trigger] self.stdout_contains@[j]@),
                got@.len() == self.files@.len(),
                forall|j: int| 0 <= j < self.files@.len() ==> (#[trigger] got@[j] matches Some(g) && g@ == self.files@[j].1@),
                m <= r.files_created@.len(),
                txt@ == ".txt"@,
                forall|j: int| 0 <= j < m ==> !(is_suffix(".txt"@, #[trigger] r.files_created@[j]@) && !expected_name(*self, r.files_created@[j]@)),
            decreases r.files_created@.len() - m,
        {
            let name = chars_of(r.files_created[m].as_str());
            if ends_with(name.as_slice(), txt.as_slice()) && !self.has_file(r.files_created[m].as_str()) {
                assert(is_suffix(".txt"@, r.files_created@[m as int]@) && !expected_name(*self, r.files_created@[m as int]@));
                return known_or_mismatch(known, scenario_id, api, "extra-files");
            }
            m += 1;
        }
        Verdict::Match
    }
}


/// The first file divergence of `e` against `r` (`got[i]` read back for
/// `e.files[i]`): a file whose bytes differ (with both sizes), a missing
/// one, an unexpected `.txt` file, else exit code or stdout.
pub open spec fn files_detail_spec(e: Expectation, r: OracleResult, got: Seq<Option<Vec<u8>>>, k: int) -> Seq<char>
    decreases e.files@.len() - k,
{
    if k < 0 || k >= e.files@.len() {
        extra_detail(e, r, 0)
    } else {
        match got[k] {
            Some(g) => if g@ == e.files@[k].1@ {
                files_detail_spec(e, r, got, k + 1)
            } else {
                "files:"@ + e.files@[k].0@ + " diverge ("@ + decimal(g@.len()) + "B vs "@ + decimal(e.files@[k].1@.len()) + "B)"@
            },
            None => "files:"@ + e.files@[k].0@ + " ausente"@,
        }
    }
}

pub open spec fn extra_detail(e: Expectation, r: OracleResult, k: int) -> Seq<char>
    decreases r.files_created@.len() - k,
{
    if k < 0 || k >= r.files_created@.len() {
        "exit/stdout diverge"@
    } else if is_suffix(".txt"@, r.files_created@[k]@) && !expected_name(e, r.files_created@[k]@) {
        "files:extra "@ + r.files_created@[k]@
    } else {
        extra_detail(e, r, k + 1)
    }
}

fn push_str_chars(out: &mut Vec<char>, s: &str)
    ensures
        final(out)@ == old(out)@ + s@,
{
    let c = chars_of(s);
    crate::text::extend_chars(out, c.as_slice());
}

/// The detail reported for a failed file comparison (see
/// `files_detail_spec`).
pub fn files_detail(e: &Expectation, r: &OracleResult, got: &[Option<Vec<u8>>]) -> (d: String)
    requires
        got@.len() == e.files@.len(),
    ensures
        d@ == files_detail_spec(*e, *r, got@, 0),
{
    let mut k: usize = 0;
    while k < e.files.len()
        invariant
            got@.len() == e.files@.len(),
            k <= e.files@.len(),
            files_detail_spec(*e, *r, got@, 0) == files_detail_spec(*e, *r, got@, k as int),
        decreases e.files@.len() - k,
    {
        match &got[k] {
            Some(g) => {
                if !bytes_equal(g.as_slice(), e.files[k].1.as_slice()) {
                    let mut out: Vec<char> = chars_of("files:");
                    push_str_chars(&mut out, e.files[k].0.as_str());
                    push_str_chars(&mut out, " diverge (");
                    let a = crate::text::u64_decimal(g.len() as u64);
                    crate::text::extend_chars(&mut out, a.as_slice());
                    push_str_chars(&mut out, "B vs ");
                    let b = crate::text::u64_decimal(e.files[k].1.len() as u64);
                    crate::text::extend_chars(&mut out, b.as_slice());
                    push_str_chars(&mut out, "B)");
                    return crate::text::string_of(out.as_slice());
                }
            },
            None => {
                let mut out: Vec<char> = chars_of("files:");
                push_str_chars(&mut out, e.files[k].0.as_str());
                push_str_chars(&mut out, " ausente");
                return crate::text::string_of(out.as_slice());
            },
        }
        k += 1;
    }
    let txt = chars_of(".txt");
    let mut j: usize = 0;
    while j < r.files_created.len()
        invariant
            txt@ == ".txt"@,
            j <= r.files_created@.len(),
            files_detail_spec(*e, *r, got@, 0) == extra_detail(*e, *r, j as int),
        decreases r.files_created@.len() - j,
    {
        let name = chars_of(r.files_created[j].as_str());
        if ends_with(name.as_slice(), txt.as_slice()) && !e.has_file(r.files_created[j].as_str()) {
            let mut out: Vec<char> = chars_of("files:extra ");
            push_str_chars(&mut out, r.files_created[j].as_str());
            return crate::text::string_of(out.as_slice());
        }
        j += 1;
    }
    owned("exit/stdout diverge")
}

} // verus!
