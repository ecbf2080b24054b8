//! In-process campaign cases: the model predicts, the real component
//! executes, and the two are compared step by step.
use vstd::prelude::*;
use crate::abi::WindowsHandle;
use crate::compare::Verdict;
use crate::models::{handle_step, HandleModel, HandleOp, HandleState, Reject};
use crate::nt_object::{decode_spec, slot_of, FileObject, HandleTable, KernelObject, ObjectPayload, ObjectType, MAX_SLOTS};
use crate::text::{chars_of, concat, is_prefix, owned, starts_with};
use crate::compare::{contains_text, text_contains};
use crate::file_model::{keys_sorted, op_view, pairs_view, to_map, FileModel, OpView, RawOp};
use crate::nt_file::opt_view;
use crate::compare::{check_spec, files_detail, files_detail_spec, Expectation, OracleResult};
use crate::fuzz::{exec_error_text, ExecError};
use crate::normalize::{normalizable, normalize, normalized};
use crate::text::{decimal, extend_chars, i64_decimal, string_of};
use crate::abi::PageProtect;
use crate::nt_file::is_ascii_char;

verus! {

/// The `File` object every handles case inserts.
pub fn test_file_object() -> (o: KernelObject)
    ensures
        o.typ == ObjectType::File,
        o.name is None,
        o.rights == 0,
        o.payload matches ObjectPayload::File(f) && f.fd == -1 && f.path@ == "difftest"@ && f.writable && f.readable
            && !f.owns_fd,
{
    KernelObject {
        typ: ObjectType::File,
        name: None,
        rights: 0,
        payload: ObjectPayload::File(
            FileObject { fd: -1, path: owned("difftest"), writable: true, readable: true, owns_fd: false },
        ),
    }
}

/// Coverage label of a handle operation.
pub open spec fn handle_op_label(op: HandleOp) -> Seq<char> {
    match op {
        HandleOp::Insert => "insert"@,
        HandleOp::Lookup { .. } => "lookup"@,
        HandleOp::Close { .. } => "close"@,
    }
}

fn handle_op_name(op: &HandleOp) -> (r: &'static str)
    ensures
        r@ == handle_op_label(*op),
{
    match op {
        HandleOp::Insert => "insert",
        HandleOp::Lookup { .. } => "lookup",
        HandleOp::Close { .. } => "close",
    }
}

pub open spec fn pair_views(v: Seq<(String, String)>) -> Seq<(Seq<char>, Seq<char>)> {
    v.map_values(|p: (String, String)| (p.0@, p.1@))
}

fn bool_text(b: bool) -> (r: &'static str)
    ensures
        r@ == (if b { "true"@ } else { "false"@ }),
{
    if b { "true" } else { "false" }
}

/// Correspondence between the handle model and the real table: every
/// symbolic id names a distinct handle issued at or below its slot's
/// current generation, live in the table exactly when the model says so.
pub open spec fn handles_agree(m: HandleState, table: HandleTable, sym: Seq<WindowsHandle>) -> bool {
    &&& m.next == sym.len()
    &&& forall|id: usize| m.alive.contains_key(id) <==> id < sym.len()
    &&& table.slot_count() <= sym.len()
    &&& forall|s: int| 0 <= s < table.slot_count() ==> #[trigger] table.generation_at(s) <= sym.len()
    &&& forall|k: int| 0 <= k < sym.len() ==> {
        &&& #[trigger] decode_spec(sym[k].0) is Some
        &&& 0 <= slot_of((decode_spec(sym[k].0)->0).0) < table.slot_count()
        &&& (decode_spec(sym[k].0)->0).1 <= table.generation_at(slot_of((decode_spec(sym[k].0)->0).0))
        &&& (m.alive[k as usize] <==> table.lookup_spec(sym[k].0) is Some)
    }
    &&& forall|a: int, b: int| 0 <= a < b < sym.len() ==> sym[a] != sym[b]
}

/// One handles case: each operation goes to the model and to a real
/// `HandleTable` (symbolic id → handle it was given), and the two must
/// accept or refuse alike. They always do: the table never lets a closed
/// handle work again and never hands out a live one twice, so the verdict
/// is `Match` with one coverage entry per operation.
pub fn run_handles_once(index: usize, seed: u64, ops: &[HandleOp]) -> (r: (Verdict, String, Vec<(String, String)>))
    requires
        ops@.len() < MAX_SLOTS,
    ensures
        r.0 == Verdict::Match,
        r.1@ == Seq::<char>::empty(),
        pair_views(r.2@) == ops@.map_values(|op: HandleOp| ("op"@, handle_op_label(op))),
{
    let mut coverage: Vec<(String, String)> = Vec::new();
    let mut table = HandleTable::new();
    let mut model = HandleModel::default();
    let mut sym: Vec<WindowsHandle> = Vec::new();
    let mut i: usize = 0;
    while i < ops.len()
        invariant
            i <= ops@.len(),
            ops@.len() < MAX_SLOTS,
            sym@.len() <= i,
            model.wf(),
            table.wf(),
            handles_agree(model.state(), table, sym@),
            pair_views(coverage@) == ops@.take(i as int).map_values(|op: HandleOp| ("op"@, handle_op_label(op))),
        decreases ops@.len() - i,
    {
        let op = &ops[i];
        let ghost m0 = model.state();
        let ghost t0 = table;
        let ghost s0 = sym@;
        let want = model.step(op);
        let got_ok: bool = match op {
            HandleOp::Insert => {
                proof {
                    table.lemma_room();
                }
                let h = table.insert(test_file_object());
                sym.push(h);
                proof {
                    let (hi, hg) = decode_spec(h.0)->0;
                    assert forall|k: int| 0 <= k < s0.len() implies #[trigger] s0[k] != h by {
                        let (ki, kg) = decode_spec(s0[k].0)->0;
                        if slot_of(ki) == slot_of(hi) {
                            assert(slot_of(hi) < t0.slot_count());
                            assert(kg <= t0.generation_at(slot_of(hi)));
                        }
                    }
                    assert(table.generation_at(slot_of(hi)) == hg);
                    if slot_of(hi) < t0.slot_count() {
                        assert(t0.generation_at(slot_of(hi)) <= s0.len());
                        assert(hg == t0.generation_at(slot_of(hi)) + 1);
                    } else {
                        assert(hg == 1);
                    }
                    assert forall|s: int| 0 <= s < table.slot_count() implies #[trigger] table.generation_at(s) <= sym@.len() by {
                        if s < t0.slot_count() {
                            assert(t0.generation_at(s) <= s0.len());
                        }
                    }
                    assert forall|k: int| 0 <= k < sym@.len() implies {
                        &&& #[trigger] decode_spec(sym@[k].0) is Some
                        &&& 0 <= slot_of((decode_spec(sym@[k].0)->0).0) < table.slot_count()
                        &&& (decode_spec(sym@[k].0)->0).1 <= table.generation_at(slot_of((decode_spec(sym@[k].0)->0).0))
                        &&& (model.state().alive[k as usize] <==> table.lookup_spec(sym@[k].0) is Some)
                    } by {
                        if k < s0.len() {
                            assert(sym@[k] == s0[k]);
                            assert(s0[k] != h);
                            let (ki, kg) = decode_spec(s0[k].0)->0;
                            assert(kg <= t0.generation_at(slot_of(ki)));
                            assert(m0.alive.contains_key(k as usize));
                            assert(k as usize != m0.next as usize);
                        } else {
                            assert(sym@[k] == h);
                        }
                    }
                    assert forall|a: int, b: int| 0 <= a < b < sym@.len() implies sym@[a] != sym@[b] by {
                        if b == s0.len() {
                            assert(s0[a] != h);
                        } else {
                            assert(s0[a] != s0[b]);
                        }
                    }
                }
                true
            },
            HandleOp::Lookup { id } => {
                if *id < sym.len() {
                    assert(decode_spec(s0[*id as int].0) is Some);
                    table.lookup(sym[*id]).is_ok()
                } else {
                    false
                }
            },
            HandleOp::Close { id } => {
                if *id < sym.len() {
                    assert(decode_spec(s0[*id as int].0) is Some);
                    let res = table.close(sym[*id]);
                    proof {
                        let hid = s0[*id as int];
                        assert forall|k: int| 0 <= k < sym@.len() implies {
                            &&& #[trigger] decode_spec(sym@[k].0) is Some
                            &&& 0 <= slot_of((decode_spec(sym@[k].0)->0).0) < table.slot_count()
                            &&& (decode_spec(sym@[k].0)->0).1 <= table.generation_at(slot_of((decode_spec(sym@[k].0)->0).0))
                            &&& (model.state().alive[k as usize] <==> table.lookup_spec(sym@[k].0) is Some)
                        } by {
                            let (ki, kg) = decode_spec(s0[k].0)->0;
                            assert(kg <= t0.generation_at(slot_of(ki)));
                            if k != *id as int {
                                assert(s0[k] != hid);
                            }
                        }
                        assert forall|s: int| 0 <= s < table.slot_count() implies #[trigger] table.generation_at(s) <= sym@.len() by {
                            assert(t0.generation_at(s) <= s0.len());
                        }
                    }
                    res.is_ok()
                } else {
                    false
                }
            },
        };
        let ghost c0 = coverage@;
        coverage.push((owned("op"), owned(handle_op_name(op))));
        proof {
            assert(pair_views(coverage@) =~= pair_views(c0).push(("op"@, handle_op_label(*op))));
            assert(ops@.take(i + 1) =~= ops@.take(i as int).push(*op));
            assert(ops@.take(i + 1).map_values(|op: HandleOp| ("op"@, handle_op_label(op))) =~= ops@.take(
                i as int,
            ).map_values(|op: HandleOp| ("op"@, handle_op_label(op))).push(("op"@, handle_op_label(*op))));
        }
        let want_ok = want.is_ok();
        if want_ok != got_ok {
            let d = concat(handle_op_name(op), ": modelo=");
            let d = concat(d.as_str(), bool_text(want_ok));
            let d = concat(d.as_str(), " rine=");
            let d = concat(d.as_str(), bool_text(got_ok));
            return (Verdict::SemanticMismatch, d, coverage);
        }
        i += 1;
    }
    assert(ops@.take(ops@.len() as int) =~= ops@);
    (Verdict::Match, String::new(), coverage)
}


pub open spec fn all_ascii(p: Seq<char>) -> bool {
    forall|i: int| 0 <= i < p.len() ==> is_ascii_char(#[trigger] p[i])
}

/// The class of a generated path, for coverage.
pub open spec fn path_class(p: Seq<char>) -> Seq<char> {
    if is_prefix("Z:"@, p) {
        "drive-missing"@
    } else if is_prefix("\\\\"@, p) {
        "unc"@
    } else if p.len() > 0 && (p.last() == '\\' || p.last() == '/') {
        "trailing"@
    } else if !all_ascii(p) {
        "unicode"@
    } else if contains_text(p, "d1"@) {
        "nested"@
    } else if p.contains(':') {
        "missing"@
    } else {
        "relative"@
    }
}

fn chars_all_ascii(p: &[char]) -> (r: bool)
    ensures
        r == all_ascii(p@),
{
    let mut i: usize = 0;
    while i < p.len()
        invariant
            i <= p@.len(),
            forall|j: int| 0 <= j < i ==> is_ascii_char(#[trigger] p@[j]),
        decreases p@.len() - i,
    {
        if (p[i] as u32) >= 128 {
            return false;
        }
        i += 1;
    }
    true
}

fn has_char(p: &[char], c: char) -> (r: bool)
    ensures
        r == p@.contains(c),
{
    let mut i: usize = 0;
    while i < p.len()
        invariant
            i <= p@.len(),
            forall|j: int| 0 <= j < i ==> p@[j] != c,
        decreases p@.len() - i,
    {
        if p[i] == c {
            proof {
                assert(p@[i as int] == c);
            }
            return true;
        }
        i += 1;
    }
    false
}

/// Classifies a path in the terms of the path generator (for coverage).
pub fn classify_path(path: &str) -> (r: &'static str)
    ensures
        r@ == path_class(path@),
{
    let p = chars_of(path);
    if starts_with(p.as_slice(), chars_of("Z:").as_slice()) {
        return "drive-missing";
    }
    if starts_with(p.as_slice(), chars_of("\\\\").as_slice()) {
        return "unc";
    }
    let n = p.len();
    if n > 0 && (p[n - 1] == '\\' || p[n - 1] == '/') {
        return "trailing";
    }
    if !chars_all_ascii(p.as_slice()) {
        return "unicode";
    }
    if text_contains(p.as_slice(), chars_of("d1").as_slice()) {
        return "nested";
    }
    if has_char(p.as_slice(), ':') {
        return "missing";
    }
    "relative"
}

pub open spec fn access_label(a: u32) -> Seq<char> {
    if a == 0x8000_0000 {
        "read"@
    } else if a == 0x4000_0000 {
        "write"@
    } else if a == 0xC000_0000 {
        "rw"@
    } else {
        "other"@
    }
}

pub open spec fn disposition_label(d: u32) -> Seq<char> {
    if d == 1 {
        "new"@
    } else if d == 2 {
        "always"@
    } else if d == 3 {
        "existing"@
    } else if d == 4 {
        "open-always"@
    } else if d == 5 {
        "truncate"@
    } else {
        "bad"@
    }
}

/// Coverage entries of one file operation.
pub open spec fn op_coverage(op: OpView) -> Seq<(Seq<char>, Seq<char>)> {
    match op {
        OpView::Create { path, access, disp } => seq![
            ("path_class"@, path_class(path)),
            ("access"@, access_label(access)),
            ("disposition"@, disposition_label(disp)),
        ],
        OpView::Write { .. } => seq![("op"@, "write"@)],
        OpView::Read { .. } => seq![("op"@, "read"@)],
        OpView::Close => seq![("op"@, "close"@)],
    }
}

/// Coverage entries of a file-operation sequence, in order.
pub open spec fn ops_coverage(ops: Seq<RawOp>) -> Seq<(Seq<char>, Seq<char>)>
    decreases ops.len(),
{
    if ops.len() == 0 {
        seq![]
    } else {
        ops_coverage(ops.drop_last()) + op_coverage(op_view(ops.last()))
    }
}

fn access_name(a: u32) -> (r: &'static str)
    ensures
        r@ == access_label(a),
{
    if a == 0x8000_0000 {
        "read"
    } else if a == 0x4000_0000 {
        "write"
    } else if a == 0xC000_0000 {
        "rw"
    } else {
        "other"
    }
}

fn disposition_name(d: u32) -> (r: &'static str)
    ensures
        r@ == disposition_label(d),
{
    if d == 1 {
        "new"
    } else if d == 2 {
        "always"
    } else if d == 3 {
        "existing"
    } else if d == 4 {
        "open-always"
    } else if d == 5 {
        "truncate"
    } else {
        "bad"
    }
}

fn push_pair(v: &mut Vec<(String, String)>, a: &str, b: &str)
    ensures
        pair_views(final(v)@) == pair_views(old(v)@).push((a@, b@)),
{
    v.push((owned(a), owned(b)));
    assert(pair_views(final(v)@) =~= pair_views(old(v)@).push((a@, b@)));
}

/// The behavioural coverage of a file-operation case: path class, access
/// and disposition of each `Create`, and the kind of each other operation.
pub fn fileops_coverage(ops: &[RawOp]) -> (r: Vec<(String, String)>)
    ensures
        pair_views(r@) == ops_coverage(ops@),
{
    let mut r: Vec<(String, String)> = Vec::new();
    let mut i: usize = 0;
    while i < ops.len()
        invariant
            i <= ops@.len(),
            pair_views(r@) == ops_coverage(ops@.take(i as int)),
        decreases ops@.len() - i,
    {
        proof {
            assert(ops@.take(i + 1).drop_last() =~= ops@.take(i as int));
            assert(ops@.take(i + 1).last() == ops@[i as int]);
        }
        match &ops[i] {
            RawOp::Create { path, access, disp } => {
                push_pair(&mut r, "path_class", classify_path(path.as_str()));
                push_pair(&mut r, "access", access_name(*access));
                push_pair(&mut r, "disposition", disposition_name(*disp));
            },
            RawOp::Write { .. } => {
                push_pair(&mut r, "op", "write");
            },
            RawOp::Read { .. } => {
                push_pair(&mut r, "op", "read");
            },
            RawOp::Close => {
                push_pair(&mut r, "op", "close");
            },
        }
        i += 1;
    }
    assert(ops@.take(ops@.len() as int) =~= ops@);
    r
}

/// `PAGE_*` protection of generated protection index `i` (`READWRITE`
/// for an index out of the table).
pub fn protect_from_idx(i: u8) -> (p: PageProtect)
    ensures
        p.0 == (if (i as usize) < crate::models::PROTECTS_LEN { crate::models::protect_bits(i as int) } else { 0x04 }),
{
    if (i as usize) < crate::models::PROTECTS_LEN {
        PageProtect(crate::models::protects(i as usize))
    } else {
        PageProtect(0x04)
    }
}

/// The manager's region state and the model's agree.
pub fn states_eq(a: crate::nt_memory::RegionState, b: crate::models::RegionState) -> (r: bool)
    ensures
        r == ((a == crate::nt_memory::RegionState::Reserved && b == crate::models::RegionState::Reserved)
            || (a == crate::nt_memory::RegionState::Committed && b == crate::models::RegionState::Committed)),
{
    match (a, b) {
        (crate::nt_memory::RegionState::Reserved, crate::models::RegionState::Reserved) => true,
        (crate::nt_memory::RegionState::Committed, crate::models::RegionState::Committed) => true,
        _ => false,
    }
}


/// Seed of case `index` of a campaign seeded with `master`: every case has
/// its own stream, the same whatever the number of workers.
pub fn case_seed(master: u64, index: usize) -> (r: u64)
    ensures
        r == master ^ (index as u64).wrapping_mul(0x9E37_79B9_7F4A_7C15u64),
{
    master ^ (index as u64).wrapping_mul(0x9E37_79B9_7F4A_7C15u64)
}

/// Campaign parameters (timeout in milliseconds).
#[derive(Debug, Clone)]
pub struct CampaignCfg {
    pub seed: u64,
    pub workers: usize,
    pub timeout_ms: u64,
    pub out_dir: String,
    pub rine_bin: String,
    pub rine_version: String,
}

/// What `std::path::Path::strip_prefix` gives: the rest of `p` after the
/// leading components `base`, when `base` is a component prefix of `p`.
pub uninterp spec fn path_rest(p: Seq<char>, base: Seq<char>) -> Option<Seq<char>>;

/// `std::path::Path::strip_prefix`, taken back to a `String`.
#[verifier::external_body]
fn strip_path_prefix(p: &str, base: &str) -> (r: Option<String>)
    ensures
        opt_view(r) == path_rest(p@, base@),
{
    match std::path::Path::new(p).strip_prefix(base) {
        Ok(rel) => Some(rel.to_string_lossy().into_owned()),
        Err(_) => None,
    }
}

/// The files of `snap` that lie under `tmp`, named relative to it, in
/// order.
pub open spec fn files_under(snap: Seq<(Seq<char>, Seq<u8>)>, tmp: Seq<char>) -> Seq<(Seq<char>, Seq<u8>)>
    decreases snap.len(),
{
    if snap.len() == 0 {
        Seq::empty()
    } else {
        let rest = files_under(snap.drop_last(), tmp);
        match path_rest(snap.last().0, tmp) {
            Some(rel) => rest.push((rel, snap.last().1)),
            None => rest,
        }
    }
}

/// The model's final files under the case directory `tmp`, named relative
/// to it (the names the guest's files are compared by).
pub fn model_files_for_compare(model: &FileModel, tmp: &str) -> (r: Vec<(String, Vec<u8>)>)
    requires
        model.wf(),
    ensures
        exists|snap: Seq<(Seq<char>, Seq<u8>)>|
            keys_sorted(snap) && to_map(snap) == model.state().files && pairs_view(r@) == files_under(snap, tmp@),
{
    let snap = model.files_snapshot();
    let mut r: Vec<(String, Vec<u8>)> = Vec::new();
    let mut i: usize = 0;
    while i < snap.len()
        invariant
            i <= snap@.len(),
            pairs_view(r@) == files_under(pairs_view(snap@).take(i as int), tmp@),
        decreases snap@.len() - i,
    {
        let ghost before = pairs_view(r@);
        assert(pairs_view(snap@).take(i + 1).drop_last() =~= pairs_view(snap@).take(i as int));
        match strip_path_prefix(snap[i].0.as_str(), tmp) {
            Some(rel) => {
                r.push((rel, snap[i].1.clone()));
                assert(pairs_view(r@) =~= before.push((pairs_view(r@).last().0, pairs_view(snap@)[i as int].1)));
            },
            None => {},
        }
        i += 1;
    }
    assert(pairs_view(snap@).take(snap@.len() as int) =~= pairs_view(snap@));
    r
}

/// What `{:?}` prints for a string: quoted, with Rust's escapes.
pub uninterp spec fn debug_str(s: Seq<char>) -> Seq<char>;

/// `format!("{:?}", s)` for a string.
#[verifier::external_body]
fn debug_text(s: &str) -> (r: String)
    ensures
        r@ == debug_str(s@),
{
    format!("{:?}", s)
}

pub open spec fn signed_decimal(n: int) -> Seq<char> {
    if n < 0 { seq!['-'] + decimal((-n) as nat) } else { decimal(n as nat) }
}

/// Verdict and detail of a fileops case from how its guest ended: a run
/// that could not start is an infrastructure failure; a timeout and a
/// crash speak for themselves; otherwise the normalized result must exit
/// 0 (the guest checked every step against the model) and leave exactly
/// the model's files (`expected`, with `got[i]` the bytes read back for
/// `expected[i]`); another exit code names the diverging step.
pub fn fileops_verdict(
    outcome: &Result<OracleResult, ExecError>,
    tmp_dir: &str,
    sandbox: &str,
    expected: Vec<(String, Vec<u8>)>,
    got: &[Option<Vec<u8>>],
    scenario_id: &str,
    api: &str,
) -> (r: (Verdict, String))
    requires
        got@.len() == expected@.len(),
        match outcome {
            Ok(o) => !o.timed_out && o.crash is None ==> normalizable(*o, tmp_dir@, sandbox@),
            Err(_) => true,
        },
    ensures
        match outcome {
            Err(e) => r.0 == Verdict::InfrastructureFailure && r.1@ == "exec: "@ + exec_error_text(*e),
            Ok(o) => if o.timed_out {
                r.0 == Verdict::Timeout && r.1@ == "guest excedeu timeout"@
            } else if o.crash is Some {
                r.0 == Verdict::Crash && r.1@ == "crash=Some("@ + debug_str(o.crash->0@) + ")"@
            } else {
                exists|n: OracleResult| normalized(*o, n, tmp_dir@, sandbox@) && match n.exit_code {
                    Some(c) => if c == 0 {
                        exists|e: Expectation| {
                            &&& #[trigger] e.exit_code == Some(0i32)
                            &&& e.stdout_contains@.len() == 0
                            &&& e.files == expected
                            &&& r.0 == check_spec(e, n, got@, Seq::empty(), scenario_id@, api@)
                            &&& r.1@ == (if r.0 == Verdict::Match {
                                Seq::empty()
                            } else {
                                files_detail_spec(e, n, got@, 0)
                            })
                        }
                    } else {
                        r.0 == Verdict::SemanticMismatch && r.1@ == "guest exit "@ + signed_decimal(c as int)
                    },
                    None => r.0 == Verdict::RineFailure && r.1@ == "sem exit code nem crash"@,
                }
            },
        },
{
    let o = match outcome {
        Err(e) => return (Verdict::InfrastructureFailure, crate::text::concat("exec: ", e.message().as_str())),
        Ok(o) => o,
    };
    if o.timed_out {
        return (Verdict::Timeout, owned("guest excedeu timeout"));
    }
    if let Some(c) = &o.crash {
        let mut out = chars_of("crash=Some(");
        let d = debug_text(c.as_str());
        let dc = chars_of(d.as_str());
        extend_chars(&mut out, dc.as_slice());
        let close = chars_of(")");
        extend_chars(&mut out, close.as_slice());
        return (Verdict::Crash, string_of(out.as_slice()));
    }
    let n = normalize(o, tmp_dir, sandbox);
    match n.exit_code {
        Some(c) => {
            if c == 0 {
                let ghost exp = expected;
                let e = Expectation { exit_code: Some(0), stdout_contains: Vec::new(), files: expected };
                let v = e.check(&n, got, &[], scenario_id, api);
                let detail = if v == Verdict::Match { String::new() } else { files_detail(&e, &n, got) };
                proof {
                    assert(e.files == exp);
                    assert(normalized(*o, n, tmp_dir@, sandbox@));
                }
                (v, detail)
            } else {
                let mut out = chars_of("guest exit ");
                let d = i64_decimal(c as i64);
                extend_chars(&mut out, d.as_slice());
                (Verdict::SemanticMismatch, string_of(out.as_slice()))
            }
        },
        None => (Verdict::RineFailure, owned("sem exit code nem crash")),
    }
}

/// `s` without every leading `"rine "` (as many as there are).
pub open spec fn strip_rine_prefixes(s: Seq<char>) -> Seq<char>
    decreases s.len(),
{
    if is_prefix("rine "@, s) && "rine "@.len() > 0 {
        strip_rine_prefixes(s.subrange("rine "@.len() as int, s.len() as int))
    } else {
        s
    }
}

/// The runtime's version as a campaign records it, from what its
/// `--version` printed (`None`: it could not be run or printed no UTF-8):
/// the text trimmed, leading `"rine "` words dropped, `"unknown"` when
/// nothing is left.
pub open spec fn rine_version_spec(out: Option<Seq<char>>) -> Seq<char> {
    match out {
        Some(o) => {
            let v = strip_rine_prefixes(crate::text::trim(o));
            if v.len() > 0 { v } else { "unknown"@ }
        },
        None => "unknown"@,
    }
}

pub fn rine_version_text(out: Option<&str>) -> (r: String)
    ensures
        r@ == rine_version_spec(match out { Some(o) => Some(o@), None => None }),
{
    match out {
        Some(o) => {
            let c = chars_of(o);
            let mut v = crate::text::trim_chars(c.as_slice());
            let p = chars_of("rine ");
            proof {
                reveal_strlit("rine ");
            }
            while starts_with(v.as_slice(), p.as_slice())
                invariant
                    p@ == "rine "@,
                    p@.len() == 5,
                    strip_rine_prefixes(v@) == strip_rine_prefixes(crate::text::trim(o@)),
                decreases v@.len(),
            {
                v = crate::text::slice_copy(v.as_slice(), p.len(), v.len());
            }
            if v.len() > 0 {
                crate::text::string_of(v.as_slice())
            } else {
                "unknown".to_owned()
            }
        },
        None => "unknown".to_owned(),
    }
}

} // verus!
