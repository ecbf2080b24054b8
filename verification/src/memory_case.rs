//! One differential memory case as a state machine: each operation goes to
//! the memory model and to the region manager; the manager's host work
//! (mapping, protecting, unmapping pages) is handed to the caller as a
//! `HostCall` and its answer comes back as a `HostReply`. The first
//! disagreement between model and manager decides the case.
use vstd::prelude::*;
use crate::abi::{AllocType, PageProtect, MEM_COMMIT, MEM_RELEASE, MEM_RESERVE};
use crate::campaign::{protect_from_idx, states_eq};
use crate::compare::Verdict;
use crate::models::{mem_step, page_round, protect_bits, MemOp, MemoryModel, Region, PROTECTS_LEN};
use crate::nt_memory::{
    floor_base, free_spec, host_prot_spec, host_protect, plan_spec, protect_spec, round_up, AllocAction, FreeAction,
    MemoryManager, Prot, RegionState, RegionView,
};
use crate::text::{chars_of, decimal, extend_chars, owned, string_of, u64_decimal};

verus! {

/// Host work the case needs before it can go on.
#[derive(Debug, Clone, Copy, PartialEq, Eq, Structural)]
pub enum HostCall {
    /// Map `len` bytes anywhere and give them protection `prot`; answer
    /// `Mapped` with the base, or `None` when either step failed.
    MapPages { len: usize, prot: Prot },
    /// Give `[base, base + len)` protection `prot`; answer `Done`.
    Protect { base: usize, len: usize, prot: Prot },
    /// Unmap `[base, base + len)`; answer `Done`.
    Unmap { base: usize, len: usize },
}

/// The host's answer to a `HostCall`.
#[derive(Debug, Clone, Copy, PartialEq, Eq, Structural)]
pub enum HostReply {
    Mapped(Option<usize>),
    Done(bool),
}

/// An operation waiting for its host answer.
#[derive(Debug, Clone, Copy, PartialEq, Eq, Structural)]
pub enum Pending {
    Reserve { id: usize, size: usize, len: usize, state: RegionState, protect: PageProtect },
    Commit { base: usize, protect: PageProtect },
    Protect { base: usize, protect: PageProtect },
    Release { id: usize, base: usize },
}

pub open spec fn bool_text(b: bool) -> Seq<char> {
    if b { "true"@ } else { "false"@ }
}

/// `MemOp` as `{:?}` prints it.
pub open spec fn mem_op_text(op: MemOp) -> Seq<char> {
    match op {
        MemOp::Reserve { id, size, protect } => "Reserve { id: "@ + decimal(id as nat) + ", size: "@ + decimal(
            size as nat,
        ) + ", protect: "@ + decimal(protect as nat) + " }"@,
        MemOp::Commit { id, protect } => "Commit { id: "@ + decimal(id as nat) + ", protect: "@ + decimal(
            protect as nat,
        ) + " }"@,
        MemOp::Protect { id, protect } => "Protect { id: "@ + decimal(id as nat) + ", protect: "@ + decimal(
            protect as nat,
        ) + " }"@,
        MemOp::Query { id, offset } => "Query { id: "@ + decimal(id as nat) + ", offset: "@ + decimal(
            offset as nat,
        ) + " }"@,
        MemOp::Release { id } => "Release { id: "@ + decimal(id as nat) + " }"@,
    }
}

/// Detail of a disagreement on `op`.
pub open spec fn mismatch_text(op: MemOp, want: bool, got: bool) -> Seq<char> {
    "op "@ + mem_op_text(op) + ": modelo="@ + bool_text(want) + " rine="@ + bool_text(got)
}

/// Coverage label of a memory operation.
pub open spec fn mem_op_label(op: MemOp) -> Seq<char> {
    match op {
        MemOp::Reserve { .. } => "reserve"@,
        MemOp::Commit { .. } => "commit"@,
        MemOp::Protect { .. } => "protect"@,
        MemOp::Query { .. } => "query"@,
        MemOp::Release { .. } => "release"@,
    }
}

/// The outcome after settling `op` with the model's and the manager's
/// answers: the first disagreement is kept.
pub open spec fn settled(outcome: Option<(Verdict, Seq<char>)>, op: MemOp, want: bool, got: bool) -> Option<
    (Verdict, Seq<char>),
> {
    if outcome is None && want != got {
        Some((Verdict::SemanticMismatch, mismatch_text(op, want, got)))
    } else {
        outcome
    }
}

pub open spec fn outcome_view(o: Option<(Verdict, String)>) -> Option<(Verdict, Seq<char>)> {
    match o {
        Some((v, d)) => Some((v, d@)),
        None => None,
    }
}

fn push_text(out: &mut Vec<char>, s: &str)
    ensures
        final(out)@ == old(out)@ + s@,
{
    let c = chars_of(s);
    extend_chars(out, c.as_slice());
}

fn push_num(out: &mut Vec<char>, n: u64)
    ensures
        final(out)@ == old(out)@ + decimal(n as nat),
{
    let d = u64_decimal(n);
    extend_chars(out, d.as_slice());
}

fn bool_str(b: bool) -> (r: &'static str)
    ensures
        r@ == bool_text(b),
{
    if b { "true" } else { "false" }
}

/// `op` as `{:?}` prints it.
pub fn mem_op_debug(op: &MemOp) -> (r: String)
    ensures
        r@ == mem_op_text(*op),
{
    let mut out: Vec<char> = Vec::new();
    match *op {
        MemOp::Reserve { id, size, protect } => {
            push_text(&mut out, "Reserve { id: ");
            push_num(&mut out, id as u64);
            push_text(&mut out, ", size: ");
            push_num(&mut out, size as u64);
            push_text(&mut out, ", protect: ");
            push_num(&mut out, protect as u64);
            push_text(&mut out, " }");
        },
        MemOp::Commit { id, protect } => {
            push_text(&mut out, "Commit { id: ");
            push_num(&mut out, id as u64);
            push_text(&mut out, ", protect: ");
            push_num(&mut out, protect as u64);
            push_text(&mut out, " }");
        },
        MemOp::Protect { id, protect } => {
            push_text(&mut out, "Protect { id: ");
            push_num(&mut out, id as u64);
            push_text(&mut out, ", protect: ");
            push_num(&mut out, protect as u64);
            push_text(&mut out, " }");
        },
        MemOp::Query { id, offset } => {
            push_text(&mut out, "Query { id: ");
            push_num(&mut out, id as u64);
            push_text(&mut out, ", offset: ");
            push_num(&mut out, offset);
            push_text(&mut out, " }");
        },
        MemOp::Release { id } => {
            push_text(&mut out, "Release { id: ");
            push_num(&mut out, id as u64);
            push_text(&mut out, " }");
        },
    }
    string_of(out.as_slice())
}

fn mismatch_detail(op: &MemOp, want: bool, got: bool) -> (r: String)
    ensures
        r@ == mismatch_text(*op, want, got),
{
    let mut out: Vec<char> = chars_of("op ");
    let d = mem_op_debug(op);
    push_text(&mut out, d.as_str());
    push_text(&mut out, ": modelo=");
    push_text(&mut out, bool_str(want));
    push_text(&mut out, " rine=");
    push_text(&mut out, bool_str(got));
    string_of(out.as_slice())
}

fn op_label(op: &MemOp) -> (r: &'static str)
    ensures
        r@ == mem_op_label(*op),
{
    match op {
        MemOp::Reserve { .. } => "reserve",
        MemOp::Commit { .. } => "commit",
        MemOp::Protect { .. } => "protect",
        MemOp::Query { .. } => "query",
        MemOp::Release { .. } => "release",
    }
}


/// Lowest base a host hands out in the agreement law: far above the
/// synthetic commit hints of ids below 256.
pub const LOW_BASE: usize = 0x100_0000;

/// Whether the manager accepted an operation that reached the host.
pub open spec fn accepted(p: Pending, reply: HostReply) -> bool {
    match (p, reply) {
        (Pending::Reserve { len, .. }, HostReply::Mapped(Some(b))) => b as nat + len as nat <= usize::MAX,
        (Pending::Reserve { .. }, _) => false,
        (_, HostReply::Done(ok)) => ok,
        _ => false,
    }
}

pub open spec fn query_text(id: usize) -> Seq<char> {
    "query "@ + decimal(id as nat) + " diverge"@
}

pub open spec fn leak_text(rine: nat, model: nat) -> Seq<char> {
    "leak: rine="@ + decimal(rine) + " modelo="@ + decimal(model)
}

/// The manager's regions once `p` completed with `reply`: a granted
/// reserve, commit or protect is recorded; a release stops tracking the
/// region whatever the host answered.
pub open spec fn manager_after(g: Map<usize, RegionView>, p: Pending, reply: HostReply) -> Map<usize, RegionView> {
    match p {
        Pending::Reserve { len, state, protect, .. } => match reply {
            HostReply::Mapped(Some(b)) => if b as nat + len as nat <= usize::MAX {
                g.insert(b, (len, state, protect))
            } else {
                g
            },
            _ => g,
        },
        Pending::Commit { base, protect } => if reply == HostReply::Done(true) {
            g.insert(base, (g[base].0, RegionState::Committed, protect))
        } else {
            g
        },
        Pending::Protect { base, protect } => if reply == HostReply::Done(true) {
            g.insert(base, (g[base].0, g[base].1, protect))
        } else {
            g
        },
        Pending::Release { base, .. } => g.remove(base),
    }
}

/// The host call that pending `p` needs, over the manager's regions `g`.
pub open spec fn call_fits(p: Pending, c: HostCall, g: Map<usize, RegionView>) -> bool {
    match (p, c) {
        (Pending::Reserve { len, .. }, HostCall::MapPages { len: l, prot }) => l == len && prot == Prot {
            read: false,
            write: false,
            execute: false,
        },
        (Pending::Commit { base, protect }, HostCall::Protect { base: b, len, prot }) => b == base && len == g[base].0
            && prot == host_prot_spec(protect),
        (Pending::Protect { base, protect }, HostCall::Protect { base: b, len, prot }) => b == base && len
            == g[base].0 && prot == host_prot_spec(protect),
        (Pending::Release { base, .. }, HostCall::Unmap { base: b, len }) => b == base && len == g[base].0,
        _ => false,
    }
}

/// The operations the agreement law speaks of: reserves whose size leaves
/// room for page rounding, and commits of ids below 256 (whose synthetic
/// hint for an unknown id stays below `LOW_BASE`).
pub open spec fn in_scope(op: MemOp) -> bool {
    match op {
        MemOp::Reserve { size, .. } => size <= usize::MAX - 4095,
        MemOp::Commit { id, .. } => id < 256,
        _ => true,
    }
}

pub open spec fn state_match(a: RegionState, b: crate::models::RegionState) -> bool {
    (a == RegionState::Reserved && b == crate::models::RegionState::Reserved) || (a == RegionState::Committed && b
        == crate::models::RegionState::Committed)
}

/// Entry `(id, base, size)` of the case: the model's region `id` and the
/// manager's region at `base` are the same region.
#[verifier::opaque]
pub open spec fn entry_agrees(m: Map<usize, Region>, g: Map<usize, RegionView>, e: (usize, usize, usize)) -> bool {
    let (id, base, size) = e;
    &&& m.contains_key(id)
    &&& g.contains_key(base)
    &&& 0 < size <= usize::MAX - 4095
    &&& LOW_BASE <= base
    &&& base + g[base].0 <= usize::MAX
    &&& 4096 <= g[base].0
    &&& m[id].0 == page_round(size as nat)
    &&& g[base].0 == m[id].0
    &&& state_match(g[base].1, m[id].1)
    &&& g[base].2.0 == m[id].2
}

/// Two entries name different ids and disjoint regions.
#[verifier::opaque]
pub open spec fn entries_apart(g: Map<usize, RegionView>, a: (usize, usize, usize), b: (usize, usize, usize)) -> bool {
    &&& a.0 != b.0
    &&& a.1 != b.1
    &&& (a.1 + g[a.1].0 <= b.1 || b.1 + g[b.1].0 <= a.1)
}

/// The entries `s` map the model's regions `m` one to one onto the
/// manager's regions `g`.
#[verifier::opaque]
pub open spec fn consistent(m: Map<usize, Region>, g: Map<usize, RegionView>, s: Seq<(usize, usize, usize)>) -> bool {
    &&& forall|i: int| 0 <= i < s.len() ==> entry_agrees(m, g, #[trigger] s[i])
    &&& forall|i: int, j: int| 0 <= i < j < s.len() ==> entries_apart(g, #[trigger] s[i], #[trigger] s[j])
    &&& forall|id: usize| #[trigger] m.contains_key(id) ==> exists|i: int| 0 <= i < s.len() && s[i].0 == id
    &&& forall|b: usize| #[trigger] g.contains_key(b) ==> exists|i: int| 0 <= i < s.len() && s[i].1 == b
}

pub open spec fn has_entry(s: Seq<(usize, usize, usize)>, id: usize, base: usize) -> bool {
    exists|k: int| 0 <= k < s.len() && s[k].0 == id && s[k].1 == base
}

/// Well-formedness of a pending operation against the manager's regions.
pub open spec fn pending_wf(op: MemOp, p: Pending, g: Map<usize, RegionView>) -> bool {
    match p {
        Pending::Reserve { id, size, .. } => op matches MemOp::Reserve { id: i, size: s, .. } && i == id && s == size
            && size <= usize::MAX - 4095,
        Pending::Commit { base, .. } => op is Commit && g.contains_key(base),
        Pending::Protect { base, .. } => op is Protect && g.contains_key(base),
        Pending::Release { id, .. } => op == MemOp::Release { id },
    }
}

/// `k` is the first entry for `id` in `s`.
pub open spec fn is_first(s: Seq<(usize, usize, usize)>, id: usize, k: int) -> bool {
    &&& 0 <= k < s.len()
    &&& s[k].0 == id
    &&& forall|j: int| 0 <= j < k ==> s[j].0 != id
}

/// The first entry for `id`.
pub open spec fn entry_for(s: Seq<(usize, usize, usize)>, id: usize) -> Option<(usize, usize, usize)> {
    if exists|k: int| is_first(s, id, k) {
        Some(s[choose|k: int| is_first(s, id, k)])
    } else {
        None
    }
}

/// `s` without its first entry for `id`.
pub open spec fn without_first(s: Seq<(usize, usize, usize)>, id: usize) -> Seq<(usize, usize, usize)> {
    if exists|k: int| is_first(s, id, k) {
        s.remove(choose|k: int| is_first(s, id, k))
    } else {
        s
    }
}

proof fn lemma_first(s: Seq<(usize, usize, usize)>, id: usize, k: int)
    requires
        is_first(s, id, k),
    ensures
        entry_for(s, id) == Some(s[k]),
        without_first(s, id) == s.remove(k),
{
    let c = choose|c: int| is_first(s, id, c);
    assert(is_first(s, id, c));
    if c < k {
        assert(s[c].0 != id);
    } else if c > k {
        assert(s[k].0 != id);
    }
}

proof fn lemma_no_first(s: Seq<(usize, usize, usize)>, id: usize)
    requires
        forall|j: int| 0 <= j < s.len() ==> #[trigger] s[j].0 != id,
    ensures
        entry_for(s, id) is None,
        without_first(s, id) == s,
{
    assert(!exists|k: int| is_first(s, id, k));
}

/// Hint of a commit of an id the case does not know: a base outside any
/// region (`id * 0x10000`, wrapping, at least 0x1000).
pub open spec fn synthetic_hint(id: usize) -> usize {
    let h = vstd::wrapping::usize_specs::wrapping_mul(id, 0x1_0000);
    if h < 0x1000 { 0x1000 } else { h }
}

/// Address and size a commit of `id` hands the manager.
pub open spec fn commit_target(s: Seq<(usize, usize, usize)>, id: usize) -> (usize, usize) {
    match entry_for(s, id) {
        Some(e) => (e.1, e.2),
        None => (synthetic_hint(id), 4096),
    }
}

/// Whether the manager accepts `op` far enough to need host work (else it
/// refuses at once): entries `s`, manager regions `g`, host page `page`.
pub open spec fn needs_host(s: Seq<(usize, usize, usize)>, g: Map<usize, RegionView>, page: usize, op: MemOp) -> bool {
    match op {
        MemOp::Reserve { id, size, protect } => entry_for(s, id) is None && size != 0 && protect < 6,
        MemOp::Commit { id, protect } => protect < 6 && plan_spec(
            g,
            page,
            commit_target(s, id).0,
            commit_target(s, id).1,
            AllocType(MEM_COMMIT),
            PageProtect(protect_bits(protect as int)),
        ) is Ok,
        MemOp::Protect { id, protect } => entry_for(s, id) matches Some(e) && protect < 6 && protect_spec(g, e.1) is Ok,
        MemOp::Release { id } => entry_for(s, id) matches Some(e) && free_spec(g, e.1, AllocType(MEM_RELEASE)) is Ok,
        MemOp::Query { .. } => false,
    }
}

/// The case's entries once `p` completed with `reply`: a granted reserve
/// adds `(id, base, size)`; a release drops the id's entry.
pub open spec fn entries_after(s: Seq<(usize, usize, usize)>, p: Pending, reply: HostReply) -> Seq<(usize, usize, usize)> {
    match p {
        Pending::Reserve { id, size, len, .. } => match reply {
            HostReply::Mapped(Some(b)) => if b as nat + len as nat <= usize::MAX {
                s.push((id, b, size))
            } else {
                s
            },
            _ => s,
        },
        Pending::Release { id, .. } => without_first(s, id),
        _ => s,
    }
}

/// One memory case in progress.
pub struct MemoryCase {
    model: MemoryModel,
    mgr: MemoryManager,
    /// `(id, base, requested size)` of the regions the manager reserved.
    sym: Vec<(usize, usize, usize)>,
    coverage: Vec<(String, String)>,
    outcome: Option<(Verdict, String)>,
    pending: Option<(MemOp, bool, Pending)>,
}

impl MemoryCase {
    pub closed spec fn wf(&self) -> bool {
        &&& self.mgr.wf()
        &&& 1 <= self.mgr.page() <= 65536
        &&& forall|i: int| 0 <= i < self.sym@.len() ==> #[trigger] self.sym@[i].2 <= usize::MAX - 4095
            && self.sym@[i].2 as nat + self.mgr.page() <= usize::MAX + 1
        &&& match self.pending {
            Some((op, _, p)) => self.outcome is None && pending_wf(op, p, self.mgr.regions()) && (p matches Pending::Reserve {
                size,
                ..
            } ==> size as nat + self.mgr.page() <= usize::MAX + 1),
            None => true,
        }
    }

    /// Regions of the model, by symbolic id.
    pub closed spec fn model_regions(&self) -> Map<usize, Region> {
        self.model.regions()
    }

    /// Regions of the manager, by base.
    pub closed spec fn manager_regions(&self) -> Map<usize, RegionView> {
        self.mgr.regions()
    }

    /// The first disagreement, once there is one.
    pub closed spec fn outcome(&self) -> Option<(Verdict, Seq<char>)> {
        outcome_view(self.outcome)
    }

    /// The operation waiting for its host answer, with the model's answer.
    pub closed spec fn pending(&self) -> Option<(MemOp, bool, Pending)> {
        self.pending
    }

    /// `(id, base, requested size)` of each region the manager reserved
    /// for the case, in reservation order.
    pub closed spec fn entries(&self) -> Seq<(usize, usize, usize)> {
        self.sym@
    }

    /// Host page size of the manager.
    pub closed spec fn page(&self) -> usize {
        self.mgr.page()
    }

    /// Coverage entries recorded so far.
    pub closed spec fn coverage_view(&self) -> Seq<(Seq<char>, Seq<char>)> {
        self.coverage@.map_values(|e: (String, String)| (e.0@, e.1@))
    }

    /// Model and manager agree: the case is undecided, pages are 4096
    /// bytes, and the ids the case knows map one to one onto the manager's
    /// regions, which are disjoint, lie at or above `LOW_BASE`, and have
    /// the model's length, state and protection.
    pub closed spec fn agrees(&self) -> bool {
        &&& self.outcome is None
        &&& self.mgr.page() == 4096
        &&& consistent(self.model.regions(), self.mgr.regions(), self.sym@)
    }

    /// The pending operation is one the model accepts, and it concerns the
    /// region the case knows for its id.
    pub closed spec fn pending_ok(&self) -> bool {
        let m = self.model.regions();
        let s = self.sym@;
        match self.pending {
            Some((op, want, p)) => want && mem_step(m, op).1 is Ok && match p {
                Pending::Reserve { id, size, len, state, protect } => op matches MemOp::Reserve {
                    protect: pi,
                    ..
                } && len == page_round(size as nat) && state == RegionState::Reserved && protect.0 == protect_bits(
                    pi as int,
                ),
                Pending::Commit { base, protect } => op matches MemOp::Commit { id, protect: pi } && has_entry(
                    s,
                    id,
                    base,
                ) && protect.0 == protect_bits(pi as int),
                Pending::Protect { base, protect } => op matches MemOp::Protect { id, protect: pi } && has_entry(
                    s,
                    id,
                    base,
                ) && protect.0 == protect_bits(pi as int),
                Pending::Release { id, base } => has_entry(s, id, base),
            },
            None => false,
        }
    }

    /// The host grants the pending operation: a reserve is mapped at or
    /// above `LOW_BASE`, clear of every region the manager tracks; anything
    /// else succeeds.
    pub open spec fn grants(&self, reply: HostReply) -> bool {
        let g = self.manager_regions();
        match self.pending() {
            Some((_, _, Pending::Reserve { len, .. })) => match reply {
                HostReply::Mapped(Some(b)) => LOW_BASE <= b && b + len <= usize::MAX && forall|k: usize|
                    #[trigger] g.contains_key(k) ==> b + len <= k || k + g[k].0 <= b,
                _ => false,
            },
            Some(_) => reply == HostReply::Done(true),
            None => false,
        }
    }

    /// A case with empty model and manager (host pages of `page` bytes).
    pub fn new(page: usize) -> (c: MemoryCase)
        requires
            1 <= page <= 65536,
        ensures
            c.wf(),
            c.outcome() is None,
            c.pending() is None,
            c.coverage_view() == Seq::<(Seq<char>, Seq<char>)>::empty(),
            c.model_regions() == Map::<usize, Region>::empty(),
            c.manager_regions() == Map::<usize, RegionView>::empty(),
            c.entries() == Seq::<(usize, usize, usize)>::empty(),
            c.page() == page,
            page == 4096 ==> c.agrees(),
    {
        let c = MemoryCase {
            model: MemoryModel::default(),
            mgr: MemoryManager::new(page),
            sym: Vec::new(),
            coverage: Vec::new(),
            outcome: None,
            pending: None,
        };
        assert(c.coverage_view() =~= Seq::<(Seq<char>, Seq<char>)>::empty());
        proof {
            reveal(consistent);
        }
        c
    }

    /// Whether `begin` can take `op`: a reserve must leave room to round
    /// its size up to the model's 4096-byte pages and, when it reaches the
    /// manager (an unknown id, a valid protection), to the host page.
    pub fn can_begin(&self, op: &MemOp) -> (r: bool)
        requires
            self.wf(),
        ensures
            r == match *op {
                MemOp::Reserve { id, size, protect } => size <= usize::MAX - 4095 && (entry_for(self.entries(), id) is None
                    && protect < 6 ==> size as nat + self.page() <= usize::MAX + 1),
                _ => true,
            },
    {
        match *op {
            MemOp::Reserve { id, size, protect } => {
                if size > usize::MAX - 4095 {
                    return false;
                }
                let known = self.sym_find(id);
                proof {
                    match known {
                        Some(k) => lemma_first(self.sym@, id, k as int),
                        None => lemma_no_first(self.sym@, id),
                    }
                }
                if known.is_some() || protect >= 6 {
                    return true;
                }
                let page = self.mgr.page_size();
                page - 1 <= usize::MAX - size
            },
            _ => true,
        }
    }

    /// Index of the first entry for `id`.
    fn sym_find(&self, id: usize) -> (r: Option<usize>)
        ensures
            r matches Some(k) ==> k < self.sym@.len() && self.sym@[k as int].0 == id && forall|j: int|
                0 <= j < k ==> #[trigger] self.sym@[j].0 != id,
            r is None ==> forall|j: int| 0 <= j < self.sym@.len() ==> #[trigger] self.sym@[j].0 != id,
    {
        let mut i: usize = 0;
        while i < self.sym.len()
            invariant
                i <= self.sym@.len(),
                forall|j: int| 0 <= j < i ==> #[trigger] self.sym@[j].0 != id,
            decreases self.sym@.len() - i,
        {
            if self.sym[i].0 == id {
                return Some(i);
            }
            i += 1;
        }
        None
    }

    /// Removes the first entry for `id`.
    fn sym_take(&mut self, id: usize)
        ensures
            final(self).mgr == old(self).mgr,
            final(self).model == old(self).model,
            final(self).outcome == old(self).outcome,
            final(self).pending == old(self).pending,
            final(self).coverage == old(self).coverage,
            (forall|j: int| 0 <= j < old(self).sym@.len() ==> #[trigger] old(self).sym@[j].0 != id)
                ==> final(self).sym@ == old(self).sym@,
            (exists|j: int| 0 <= j < old(self).sym@.len() && #[trigger] old(self).sym@[j].0 == id)
                ==> exists|k: int| 0 <= k < old(self).sym@.len() && old(self).sym@[k].0 == id
                && final(self).sym@ == old(self).sym@.remove(k),
            final(self).sym@ == without_first(old(self).sym@, id),
    {
        match self.sym_find(id) {
            Some(k) => {
                proof {
                    lemma_first(self.sym@, id, k as int);
                }
                self.sym.remove(k);
            },
            None => {
                proof {
                    lemma_no_first(self.sym@, id);
                }
            },
        }
    }

    fn push_coverage(&mut self, op: &MemOp)
        ensures
            final(self).model == old(self).model,
            final(self).mgr == old(self).mgr,
            final(self).outcome == old(self).outcome,
            final(self).pending == old(self).pending,
            final(self).sym == old(self).sym,
            final(self).coverage_view() == old(self).coverage_view().push(("op"@, mem_op_label(*op))),
    {
        let ghost c0 = self.coverage_view();
        self.coverage.push((owned("op"), owned(op_label(op))));
        proof {
            reveal_strlit("op");
            assert(self.coverage_view() =~= c0.push(("op"@, mem_op_label(*op))));
        }
    }

    /// Records the answers to `op`: the first disagreement decides the case.
    fn settle(&mut self, op: &MemOp, want: bool, got: bool)
        ensures
            final(self).model == old(self).model,
            final(self).mgr == old(self).mgr,
            final(self).pending == old(self).pending,
            final(self).sym == old(self).sym,
            final(self).outcome() == settled(old(self).outcome(), *op, want, got),
            final(self).coverage_view() == old(self).coverage_view().push(("op"@, mem_op_label(*op))),
    {
        self.push_coverage(op);
        if self.outcome.is_none() && want != got {
            self.outcome = Some((Verdict::SemanticMismatch, mismatch_detail(op, want, got)));
        }
    }

    fn query(&mut self, id: usize, offset: u64)
        requires
            old(self).wf(),
            old(self).outcome() is None,
            old(self).pending() is None,
        ensures
            final(self).wf(),
            final(self).model == old(self).model,
            final(self).mgr == old(self).mgr,
            final(self).pending == old(self).pending,
            final(self).sym == old(self).sym,
            final(self).coverage_view() == old(self).coverage_view().push(
                ("op"@, mem_op_label(MemOp::Query { id, offset })),
            ),
            final(self).outcome() is None || final(self).outcome() == Some((Verdict::SemanticMismatch, query_text(id))),
            old(self).agrees() ==> final(self).outcome() is None,
    {
        let want = self.model.query_desc(id);
        let known = self.sym_find(id);
        let addr = match known {
            Some(k) => self.sym[k].1.wrapping_add((offset % 4096) as usize),
            None => 0,
        };
        let got = self.mgr.region_at(addr);
        let agree = match (want, got) {
            (Some(w), Some((b, l, st, p))) => match known {
                Some(k) => self.sym[k].1 == b && l == w.0 && states_eq(st, w.1) && p.0 == w.2,
                None => false,
            },
            (None, None) => true,
            _ => false,
        };
        proof {
            if self.agrees() {
                let m = self.model.regions();
                let g = self.mgr.regions();
                let s = self.sym@;
                lemma_bases(m, g, s);
                match known {
                    Some(k) => {
                        let e = s[k as int];
                        lemma_entry(m, g, s, k as int);
                        assert(addr == e.1 + (offset % 4096) as usize);
                        lemma_region_of(m, g, s, k as int, addr);
                    },
                    None => {
                        lemma_absent(m, g, s, id);
                    },
                }
            }
        }
        self.push_coverage(&MemOp::Query { id, offset });
        if !agree {
            let mut out: Vec<char> = chars_of("query ");
            push_num(&mut out, id as u64);
            push_text(&mut out, " diverge");
            proof {
                reveal_strlit("query ");
            }
            self.outcome = Some((Verdict::SemanticMismatch, string_of(out.as_slice())));
        }
    }

    /// Settles `op` as refused by the manager without host work.
    fn refuse(&mut self, op: &MemOp, want: bool) -> (r: Option<HostCall>)
        requires
            old(self).wf(),
            old(self).pending is None,
            old(self).outcome is None,
            want == (mem_step(old(self).model.regions(), *op).1 is Ok),
            match *op {
                MemOp::Reserve { size, .. } => size <= usize::MAX - 4095,
                _ => true,
            },
        ensures
            r is None,
            final(self).wf(),
            final(self).pending is None,
            final(self).mgr == old(self).mgr,
            final(self).model.regions() == mem_step(old(self).model.regions(), *op).0,
            final(self).outcome() == settled(None, *op, want, false),
            final(self).coverage_view() == old(self).coverage_view().push(("op"@, mem_op_label(*op))),
            final(self).sym@ == (if op is Release {
                without_first(old(self).sym@, op->Release_id)
            } else {
                old(self).sym@
            }),
            old(self).agrees() && !want ==> final(self).agrees(),
    {
        let _ = self.model.step(op);
        if let MemOp::Release { id } = *op {
            proof {
                if old(self).agrees() && !want {
                    assert forall|j: int| 0 <= j < self.sym@.len() implies #[trigger] self.sym@[j].0 != id by {
                        lemma_entry(old(self).model.regions(), old(self).mgr.regions(), self.sym@, j);
                    }
                }
            }
            self.sym_take(id);
        }
        self.settle(op, want, false);
        None
    }

    /// Starts `op`. A query is answered at once. Otherwise the model
    /// answers at once, and the manager either refuses at once (the case
    /// settles `op`) or needs the returned host call, whose answer goes to
    /// `complete`, which then applies `op` to both. Nothing happens once
    /// the case is decided.
    #[verifier::rlimit(80)]
    #[verifier::spinoff_prover]
    pub fn begin(&mut self, op: &MemOp) -> (r: Option<HostCall>)
        requires
            old(self).wf(),
            old(self).pending() is None,
            match *op {
                MemOp::Reserve { id, size, protect } => size <= usize::MAX - 4095 && (entry_for(old(self).entries(), id)
                    is None && protect < 6 ==> size as nat + old(self).page() <= usize::MAX + 1),
                _ => true,
            },
        ensures
            final(self).wf(),
            final(self).page() == old(self).page(),
            old(self).outcome() is Some ==> {
                &&& r is None
                &&& final(self).entries() == old(self).entries()
                &&& final(self).outcome() == old(self).outcome()
                &&& final(self).pending() is None
                &&& final(self).model_regions() == old(self).model_regions()
                &&& final(self).manager_regions() == old(self).manager_regions()
                &&& final(self).coverage_view() == old(self).coverage_view()
            },
            old(self).outcome() is None && op is Query ==> {
                &&& r is None
                &&& final(self).entries() == old(self).entries()
                &&& final(self).pending() is None
                &&& final(self).model_regions() == old(self).model_regions()
                &&& final(self).manager_regions() == old(self).manager_regions()
                &&& final(self).coverage_view() == old(self).coverage_view().push(("op"@, mem_op_label(*op)))
                &&& (final(self).outcome() is None || final(self).outcome() == Some(
                    (Verdict::SemanticMismatch, query_text(op->Query_id)),
                ))
            },
            old(self).outcome() is None && !(op is Query) ==> {
                let want = mem_step(old(self).model_regions(), *op).1 is Ok;
                &&& final(self).manager_regions() == old(self).manager_regions()
                &&& (r is Some <==> needs_host(old(self).entries(), old(self).manager_regions(), old(self).page(), *op))
                &&& final(self).entries() == (if r is None && op is Release {
                    without_first(old(self).entries(), op->Release_id)
                } else {
                    old(self).entries()
                })
                &&& match r {
                    Some(c) => {
                        &&& final(self).pending() matches Some((o, w, p)) && o == *op && w == want && call_fits(
                            p,
                            c,
                            final(self).manager_regions(),
                        )
                        &&& final(self).outcome() is None
                        &&& final(self).model_regions() == old(self).model_regions()
                        &&& final(self).coverage_view() == old(self).coverage_view()
                    },
                    None => {
                        &&& final(self).pending() is None
                        &&& final(self).outcome() == settled(None, *op, want, false)
                        &&& final(self).model_regions() == mem_step(old(self).model_regions(), *op).0
                        &&& final(self).coverage_view() == old(self).coverage_view().push(
                            ("op"@, mem_op_label(*op)),
                        )
                    },
                }
            },
            old(self).agrees() && in_scope(*op) ==> {
                &&& final(self).agrees()
                &&& !(op is Query) ==> (r is Some <==> mem_step(old(self).model_regions(), *op).1 is Ok)
                &&& r is Some ==> final(self).pending_ok()
            },
    {
        if self.outcome.is_some() {
            return None;
        }
        if let MemOp::Query { id, offset } = *op {
            self.query(id, offset);
            return None;
        }
        let want = self.model.accepts(op);
        let ghost m = self.model.regions();
        let ghost g = self.mgr.regions();
        let ghost s = self.sym@;
        let id = match *op {
            MemOp::Reserve { id, .. } => id,
            MemOp::Commit { id, .. } => id,
            MemOp::Protect { id, .. } => id,
            MemOp::Query { id, .. } => id,
            MemOp::Release { id } => id,
        };
        let known = self.sym_find(id);
        proof {
            match known {
                Some(k) => lemma_first(s, id, k as int),
                None => lemma_no_first(s, id),
            }
            lemma_commit_flags();
            lemma_reserve_flags();
            lemma_release_flags();
            if self.agrees() {
                lemma_bases(m, g, s);
                match known {
                    Some(k) => {
                        lemma_entry(m, g, s, k as int);
                    },
                    None => {
                        lemma_absent(m, g, s, id);
                    },
                }
            }
        }
        match *op {
            MemOp::Reserve { id, size, protect } => {
                if known.is_some() || size == 0 || (protect as usize) >= PROTECTS_LEN {
                    return self.refuse(op, want);
                }
                proof {
                    lemma_reserve_flags();
                }
                match self.mgr.plan_allocate(0, size, AllocType::reserve(), protect_from_idx(protect)) {
                    Ok(AllocAction::Reserve { fixed: _, len, state, protect: p, host_prot }) => {
                        self.pending = Some((*op, want, Pending::Reserve { id, size, len, state, protect: p }));
                        proof {
                            if self.agrees() {
                                lemma_round_page(size as nat);
                            }
                        }
                        Some(HostCall::MapPages { len, prot: host_prot })
                    },
                    _ => self.refuse(op, want),
                }
            },
            MemOp::Commit { id, protect } => {
                if (protect as usize) >= PROTECTS_LEN {
                    return self.refuse(op, want);
                }
                let (hint, size) = match known {
                    Some(k) => (self.sym[k].1, self.sym[k].2),
                    None => {
                        let synthetic = id.wrapping_mul(0x1_0000);
                        (if synthetic < 0x1000 {
                            0x1000
                        } else {
                            synthetic
                        }, 4096)
                    },
                };
                proof {
                    lemma_commit_flags();
                    if self.agrees() && in_scope(*op) {
                        match known {
                            Some(k) => {
                                lemma_floor_at_key(g, hint);
                            },
                            None => {
                                lemma_synthetic_hint(id);
                                lemma_floor_below(g, hint);
                            },
                        }
                    }
                }
                match self.mgr.plan_allocate(hint, size, AllocType::commit(), protect_from_idx(protect)) {
                    Ok(AllocAction::Commit { base, len, protect: p, host_prot }) => {
                        self.pending = Some((*op, want, Pending::Commit { base, protect: p }));
                        Some(HostCall::Protect { base, len, prot: host_prot })
                    },
                    _ => self.refuse(op, want),
                }
            },
            MemOp::Protect { id, protect } => {
                match known {
                    Some(k) => {
                        let base = self.sym[k].1;
                        if (protect as usize) >= PROTECTS_LEN {
                            return self.refuse(op, want);
                        }
                        let p = protect_from_idx(protect);
                        match self.mgr.plan_protect(base) {
                            Ok((len, _)) => {
                                self.pending = Some((*op, want, Pending::Protect { base, protect: p }));
                                Some(HostCall::Protect { base, len, prot: host_protect(p) })
                            },
                            Err(_) => self.refuse(op, want),
                        }
                    },
                    None => self.refuse(op, want),
                }
            },
            MemOp::Release { id } => {
                match known {
                    Some(k) => {
                        let base = self.sym[k].1;
                        proof {
                            lemma_release_flags();
                        }
                        match self.mgr.plan_free(base, AllocType::release()) {
                            Ok(FreeAction::Release { base: b, len }) => {
                                self.pending = Some((*op, want, Pending::Release { id, base: b }));
                                Some(HostCall::Unmap { base: b, len })
                            },
                            _ => self.refuse(op, want),
                        }
                    },
                    None => self.refuse(op, want),
                }
            },
            MemOp::Query { .. } => None,
        }
    }

    /// Completes the pending operation with the host's answer: the model
    /// applies it, the manager records it where the host granted it (a
    /// release is untracked whatever the answer), and the answers are
    /// settled.
    #[verifier::rlimit(50)]
    #[verifier::spinoff_prover]
    pub fn complete(&mut self, reply: HostReply)
        requires
            old(self).wf(),
            old(self).pending() is Some,
        ensures
            final(self).wf(),
            final(self).pending() is None,
            ({
                let (op, want, p) = old(self).pending()->0;
                &&& final(self).outcome() == settled(old(self).outcome(), op, want, accepted(p, reply))
                &&& final(self).model_regions() == mem_step(old(self).model_regions(), op).0
                &&& final(self).manager_regions() == manager_after(old(self).manager_regions(), p, reply)
                &&& final(self).entries() == entries_after(old(self).entries(), p, reply)
                &&& final(self).coverage_view() == old(self).coverage_view().push(("op"@, mem_op_label(op)))
            }),
            final(self).page() == old(self).page(),
            old(self).agrees() && old(self).pending_ok() && old(self).grants(reply) ==> final(self).agrees(),
    {
        let (op, want, p) = match self.pending {
            Some(t) => t,
            None => return ,
        };
        let ghost m = self.model.regions();
        let ghost g = self.mgr.regions();
        let ghost s = self.sym@;
        let ghost good = self.agrees() && self.pending_ok() && self.grants(reply);
        self.pending = None;
        let _ = self.model.step(&op);
        let got: bool = match p {
            Pending::Reserve { id, size, len, state, protect } => match reply {
                HostReply::Mapped(Some(b)) => {
                    if len <= usize::MAX - b {
                        self.mgr.finish_reserve(b, len, state, protect);
                        self.sym.push((id, b, size));
                        proof {
                            if good {
                                lemma_reserve_consistent(m, g, s, op, id, b, size, len, protect);
                            }
                        }
                        true
                    } else {
                        false
                    }
                },
                _ => false,
            },
            Pending::Commit { base, protect } => {
                if reply == HostReply::Done(true) {
                    self.mgr.finish_commit(base, protect);
                    proof {
                        if good {
                            lemma_commit_consistent(m, g, s, op, base, protect);
                        }
                    }
                    true
                } else {
                    false
                }
            },
            Pending::Protect { base, protect } => {
                if reply == HostReply::Done(true) {
                    self.mgr.finish_protect(base, protect);
                    proof {
                        if good {
                            lemma_protect_consistent(m, g, s, op, base, protect);
                        }
                    }
                    true
                } else {
                    false
                }
            },
            Pending::Release { id, base } => {
                proof {
                    if good {
                        let k = choose|k: int| 0 <= k < s.len() && s[k].0 == id && s[k].1 == base;
                        assert(s[k].0 == id);
                    }
                }
                self.sym_take(id);
                self.mgr.untrack(base);
                proof {
                    if good {
                        let k = choose|k: int| 0 <= k < s.len() && s[k].0 == id && self.sym@ == s.remove(k);
                        lemma_release_consistent(m, g, s, k, id, base);
                    }
                }
                match reply {
                    HostReply::Done(ok) => ok,
                    _ => false,
                }
            },
        };
        self.settle(&op, want, got);
    }

    /// Outcome of the whole case. A recorded disagreement decides it; when
    /// there is none, the manager must track as many regions as the model
    /// holds (otherwise regions leaked). An agreeing case is a `Match`.
    pub fn verdict(&self) -> (r: (Verdict, String))
        requires
            self.wf(),
        ensures
            match self.outcome() {
                Some((v, d)) => r.0 == v && r.1@ == d,
                None => if self.manager_regions().len() == self.model_regions().len() {
                    r.0 == Verdict::Match && r.1@ == Seq::<char>::empty()
                } else {
                    r.0 == Verdict::SemanticMismatch && r.1@ == leak_text(
                        self.manager_regions().len(),
                        self.model_regions().len(),
                    )
                },
            },
            self.agrees() ==> r.0 == Verdict::Match && r.1@ == Seq::<char>::empty(),
    {
        match &self.outcome {
            Some((v, d)) => {
                return (*v, d.clone());
            },
            None => {},
        }
        let rine = self.mgr.region_count();
        let model = self.model.live_count();
        proof {
            if self.agrees() {
                lemma_consistent_counts(self.model.regions(), self.mgr.regions(), self.sym@);
            }
        }
        if rine != model {
            let mut out: Vec<char> = chars_of("leak: rine=");
            push_num(&mut out, rine as u64);
            push_text(&mut out, " modelo=");
            push_num(&mut out, model as u64);
            proof {
                reveal_strlit("leak: rine=");
            }
            return (Verdict::SemanticMismatch, string_of(out.as_slice()));
        }
        (Verdict::Match, String::new())
    }

    /// `(base, len)` of every region the manager still tracks: what the
    /// host unmaps once the case is over.
    pub fn leftovers(&self) -> (v: Vec<(usize, usize)>)
        requires
            self.wf(),
        ensures
            v@.len() == self.manager_regions().len(),
            forall|i: int|
                0 <= i < v@.len() ==> self.manager_regions().contains_key(#[trigger] v@[i].0)
                    && self.manager_regions()[v@[i].0].0 == v@[i].1,
            forall|i: int, j: int| 0 <= i < j < v@.len() ==> v@[i].0 != v@[j].0,
    {
        let regions = self.mgr.debug_regions();
        let mut v: Vec<(usize, usize)> = Vec::new();
        let mut i: usize = 0;
        while i < regions.len()
            invariant
                i <= regions@.len(),
                v@.len() == i,
                forall|k: int| 0 <= k < i ==> #[trigger] v@[k] == (regions@[k].0, regions@[k].1),
            decreases regions@.len() - i,
        {
            v.push((regions[i].0, regions[i].1));
            i += 1;
        }
        v
    }

    /// The coverage entries recorded so far, one per settled operation.
    pub fn coverage(&self) -> (r: Vec<(String, String)>)
        ensures
            r@.map_values(|e: (String, String)| (e.0@, e.1@)) == self.coverage_view(),
    {
        let mut r: Vec<(String, String)> = Vec::new();
        let mut i: usize = 0;
        while i < self.coverage.len()
            invariant
                i <= self.coverage@.len(),
                r@.len() == i,
                forall|k: int| 0 <= k < i ==> #[trigger] r@[k] == self.coverage@[k],
            decreases self.coverage@.len() - i,
        {
            let e = &self.coverage[i];
            r.push((e.0.clone(), e.1.clone()));
            i += 1;
        }
        assert(r@.map_values(|e: (String, String)| (e.0@, e.1@)) =~= self.coverage_view());
        r
    }
}

proof fn lemma_reserve_flags()
    ensures
        AllocType(MEM_RESERVE).has(AllocType(MEM_RESERVE)),
        !AllocType(MEM_RESERVE).has(AllocType(MEM_RELEASE)),
        !AllocType(MEM_RESERVE).has(AllocType(MEM_COMMIT)),
{
    assert(0x2000u32 & 0x2000u32 == 0x2000u32) by (bit_vector);
    assert(0x2000u32 & 0x8000u32 != 0x8000u32) by (bit_vector);
    assert(0x2000u32 & 0x1000u32 != 0x1000u32) by (bit_vector);
}

proof fn lemma_commit_flags()
    ensures
        AllocType(MEM_COMMIT).has(AllocType(MEM_COMMIT)),
        !AllocType(MEM_COMMIT).has(AllocType(MEM_RELEASE)),
        !AllocType(MEM_COMMIT).has(AllocType(MEM_RESERVE)),
{
    assert(0x1000u32 & 0x1000u32 == 0x1000u32) by (bit_vector);
    assert(0x1000u32 & 0x8000u32 != 0x8000u32) by (bit_vector);
    assert(0x1000u32 & 0x2000u32 != 0x2000u32) by (bit_vector);
}

proof fn lemma_release_flags()
    ensures
        AllocType(MEM_RELEASE).has(AllocType(MEM_RELEASE)),
{
    assert(0x8000u32 & 0x8000u32 == 0x8000u32) by (bit_vector);
}

proof fn lemma_round_page(size: nat)
    ensures
        round_up(size, 4096) == page_round(size),
{
}

proof fn lemma_page_round_pos(size: nat)
    requires
        size > 0,
    ensures
        page_round(size) >= 4096,
{
    assert((size + 4095) / 4096 >= 1) by (nonlinear_arith)
        requires
            size > 0,
    ;
    assert(((size + 4095) / 4096) * 4096 >= 4096) by (nonlinear_arith)
        requires
            (size + 4095) / 4096 >= 1,
    ;
}

proof fn lemma_synthetic_hint(id: usize)
    requires
        id < 256,
    ensures
        vstd::wrapping::usize_specs::wrapping_mul(id, 0x1_0000) <= 0xFF_0000,
{
    let p: nat = id as nat * 0x1_0000;
    assert(p <= 0xFF_0000) by (nonlinear_arith)
        requires
            id < 256,
            p == id as nat * 0x1_0000,
    ;
    vstd::arithmetic::div_mod::lemma_small_mod(p, (usize::MAX - usize::MIN + 1) as nat);
}

proof fn lemma_floor_at_key(g: Map<usize, RegionView>, h: usize)
    requires
        g.contains_key(h),
    ensures
        floor_base(g, h) == Some(h),
{
    assert(g.contains_key(h) && h <= h);
    let c = choose|b: usize| g.contains_key(b) && b <= h && forall|c: usize| g.contains_key(c) && c <= h ==> c <= b;
    assert(exists|b: usize|
        g.contains_key(b) && b <= h && forall|c: usize| g.contains_key(c) && c <= h ==> c <= b) by {
        assert(forall|c: usize| g.contains_key(c) && c <= h ==> c <= h);
    }
}

proof fn lemma_floor_below(g: Map<usize, RegionView>, h: usize)
    requires
        h < LOW_BASE,
        forall|b: usize| #[trigger] g.contains_key(b) ==> LOW_BASE <= b,
    ensures
        floor_base(g, h) is None,
{
}

proof fn lemma_entry_frame(
    m: Map<usize, Region>,
    g: Map<usize, RegionView>,
    m2: Map<usize, Region>,
    g2: Map<usize, RegionView>,
    e: (usize, usize, usize),
)
    requires
        entry_agrees(m, g, e),
        m2.contains_key(e.0),
        m2[e.0] == m[e.0],
        g2.contains_key(e.1),
        g2[e.1] == g[e.1],
    ensures
        entry_agrees(m2, g2, e),
{
    reveal(entry_agrees);
}

proof fn lemma_apart_frame(
    g: Map<usize, RegionView>,
    g2: Map<usize, RegionView>,
    a: (usize, usize, usize),
    b: (usize, usize, usize),
)
    requires
        entries_apart(g, a, b),
        g2[a.1].0 == g[a.1].0,
        g2[b.1].0 == g[b.1].0,
    ensures
        entries_apart(g2, a, b),
{
    reveal(entries_apart);
}

/// What a consistent case knows of its entry `k`.
proof fn lemma_entry(m: Map<usize, Region>, g: Map<usize, RegionView>, s: Seq<(usize, usize, usize)>, k: int)
    requires
        consistent(m, g, s),
        0 <= k < s.len(),
    ensures
        entry_agrees(m, g, s[k]),
        m.contains_key(s[k].0),
        g.contains_key(s[k].1),
        0 < s[k].2 <= usize::MAX - 4095,
        LOW_BASE <= s[k].1,
        s[k].1 + g[s[k].1].0 <= usize::MAX,
        4096 <= g[s[k].1].0,
        m[s[k].0].0 == page_round(s[k].2 as nat),
        g[s[k].1].0 == m[s[k].0].0,
        state_match(g[s[k].1].1, m[s[k].0].1),
        g[s[k].1].2.0 == m[s[k].0].2,
        forall|j: int|
            0 <= j < s.len() && j != k ==> s[k].0 != #[trigger] s[j].0 && s[k].1 != s[j].1 && (s[k].1 + g[s[k].1].0
                <= s[j].1 || s[j].1 + g[s[j].1].0 <= s[k].1),
{
    reveal(consistent);
    assert(entry_agrees(m, g, s[k]));
    reveal(entry_agrees);
    assert forall|j: int| 0 <= j < s.len() && j != k implies s[k].0 != #[trigger] s[j].0 && s[k].1 != s[j].1 && (
    s[k].1 + g[s[k].1].0 <= s[j].1 || s[j].1 + g[s[j].1].0 <= s[k].1) by {
        reveal(entries_apart);
        if j < k {
            assert(entries_apart(g, s[j], s[k]));
        } else {
            assert(entries_apart(g, s[k], s[j]));
        }
    }
}

proof fn lemma_absent(m: Map<usize, Region>, g: Map<usize, RegionView>, s: Seq<(usize, usize, usize)>, id: usize)
    requires
        consistent(m, g, s),
        forall|j: int| 0 <= j < s.len() ==> #[trigger] s[j].0 != id,
    ensures
        !m.contains_key(id),
{
    reveal(consistent);
}

/// Every region of the manager belongs to an entry, lies at or above
/// `LOW_BASE` and spans at least a page.
proof fn lemma_bases(m: Map<usize, Region>, g: Map<usize, RegionView>, s: Seq<(usize, usize, usize)>)
    requires
        consistent(m, g, s),
    ensures
        forall|b: usize| #[trigger] g.contains_key(b) ==> LOW_BASE <= b && 4096 <= g[b].0 && b + g[b].0 <= usize::MAX,
{
    assert forall|b: usize| #[trigger] g.contains_key(b) implies LOW_BASE <= b && 4096 <= g[b].0 && b + g[b].0
        <= usize::MAX by {
        reveal(consistent);
        let i = choose|i: int| 0 <= i < s.len() && s[i].1 == b;
        lemma_entry(m, g, s, i);
    }
}

/// Inside the region of entry `k`, no other region of the manager starts
/// at or below `addr` and reaches past it.
proof fn lemma_region_of(
    m: Map<usize, Region>,
    g: Map<usize, RegionView>,
    s: Seq<(usize, usize, usize)>,
    k: int,
    addr: usize,
)
    requires
        consistent(m, g, s),
        0 <= k < s.len(),
        s[k].1 <= addr < s[k].1 + g[s[k].1].0,
    ensures
        forall|b: usize| #[trigger] g.contains_key(b) && b <= addr && addr < b + g[b].0 ==> b == s[k].1,
{
    lemma_entry(m, g, s, k);
    assert forall|b: usize| #[trigger] g.contains_key(b) && b <= addr && addr < b + g[b].0 implies b == s[k].1 by {
        reveal(consistent);
        let i = choose|i: int| 0 <= i < s.len() && s[i].1 == b;
        if i != k {
            assert(s[k].0 != s[i].0 && s[k].1 != s[i].1);
        }
    }
}

/// The entries of a consistent case are as many as the model's regions
/// and as the manager's.
proof fn lemma_consistent_counts(m: Map<usize, Region>, g: Map<usize, RegionView>, s: Seq<(usize, usize, usize)>)
    requires
        consistent(m, g, s),
    ensures
        m.len() == s.len(),
        g.len() == s.len(),
{
    let ids = s.map_values(|e: (usize, usize, usize)| e.0);
    let bases = s.map_values(|e: (usize, usize, usize)| e.1);
    assert(ids.no_duplicates() && bases.no_duplicates()) by {
        assert forall|a: int, b: int| 0 <= a < s.len() && 0 <= b < s.len() && a != b implies ids[a] != ids[b]
            && bases[a] != bases[b] by {
            lemma_entry(m, g, s, a);
            assert(s[a].0 != s[b].0);
        }
    }
    ids.unique_seq_to_set();
    bases.unique_seq_to_set();
    assert(m.dom() =~= ids.to_set()) by {
        assert forall|x: usize| m.dom().contains(x) <==> ids.to_set().contains(x) by {
            reveal(consistent);
            if m.dom().contains(x) {
                let i = choose|i: int| 0 <= i < s.len() && s[i].0 == x;
                assert(ids[i] == x);
            }
            if ids.to_set().contains(x) {
                let i = choose|i: int| 0 <= i < ids.len() && ids[i] == x;
                lemma_entry(m, g, s, i);
            }
        }
    }
    assert(g.dom() =~= bases.to_set()) by {
        assert forall|x: usize| g.dom().contains(x) <==> bases.to_set().contains(x) by {
            reveal(consistent);
            if g.dom().contains(x) {
                let i = choose|i: int| 0 <= i < s.len() && s[i].1 == x;
                assert(bases[i] == x);
            }
            if bases.to_set().contains(x) {
                let i = choose|i: int| 0 <= i < bases.len() && bases[i] == x;
                lemma_entry(m, g, s, i);
            }
        }
    }
}

/// A granted reserve of a new id keeps a consistent case consistent.
proof fn lemma_reserve_consistent(
    m: Map<usize, Region>,
    g: Map<usize, RegionView>,
    s: Seq<(usize, usize, usize)>,
    op: MemOp,
    id: usize,
    b: usize,
    size: usize,
    len: usize,
    p: PageProtect,
)
    requires
        consistent(m, g, s),
        op matches MemOp::Reserve { id: i, size: sz, protect: pi } && i == id && sz == size && p.0 == protect_bits(
            pi as int,
        ),
        mem_step(m, op).1 is Ok,
        size <= usize::MAX - 4095,
        len == page_round(size as nat),
        LOW_BASE <= b,
        b + len <= usize::MAX,
        forall|k: usize| #[trigger] g.contains_key(k) ==> b + len <= k || k + g[k].0 <= b,
    ensures
        consistent(mem_step(m, op).0, g.insert(b, (len, RegionState::Reserved, p)), s.push((id, b, size))),
{
    let m2 = mem_step(m, op).0;
    let g2 = g.insert(b, (len, RegionState::Reserved, p));
    let s2 = s.push((id, b, size));
    let pi = op->Reserve_protect;
    assert(m2 == m.insert(id, (len, crate::models::RegionState::Reserved, protect_bits(pi as int), protect_bits(
        pi as int,
    ))));
    lemma_page_round_pos(size as nat);
    lemma_bases(m, g, s);
    assert(!g.contains_key(b));
    assert(!m.contains_key(id));
    assert forall|i: int| 0 <= i < s2.len() implies entry_agrees(m2, g2, #[trigger] s2[i]) by {
        if i < s.len() {
            assert(s2[i] == s[i]);
            lemma_entry(m, g, s, i);
            lemma_entry_frame(m, g, m2, g2, s[i]);
        } else {
            reveal(entry_agrees);
        }
    }
    assert forall|i: int, j: int| 0 <= i < j < s2.len() implies entries_apart(g2, #[trigger] s2[i], #[trigger] s2[j]) by {
        assert(s2[i] == s[i]);
        lemma_entry(m, g, s, i);
        if j < s.len() {
            assert(s2[j] == s[j]);
            lemma_entry(m, g, s, j);
            reveal(consistent);
            assert(entries_apart(g, s[i], s[j]));
            lemma_apart_frame(g, g2, s[i], s[j]);
        } else {
            reveal(entries_apart);
        }
    }
    assert forall|x: usize| #[trigger] m2.contains_key(x) implies exists|i: int| 0 <= i < s2.len() && s2[i].0 == x by {
        if x == id {
            assert(s2[s.len() as int].0 == x);
        } else {
            reveal(consistent);
            let i = choose|i: int| 0 <= i < s.len() && s[i].0 == x;
            assert(s2[i] == s[i]);
        }
    }
    assert forall|x: usize| #[trigger] g2.contains_key(x) implies exists|i: int| 0 <= i < s2.len() && s2[i].1 == x by {
        if x == b {
            assert(s2[s.len() as int].1 == x);
        } else {
            reveal(consistent);
            let i = choose|i: int| 0 <= i < s.len() && s[i].1 == x;
            assert(s2[i] == s[i]);
        }
    }
    reveal(consistent);
}

/// Recording a new state and protection for the region of entry `k` on
/// both sides keeps a consistent case consistent.
proof fn lemma_update_consistent(
    m: Map<usize, Region>,
    g: Map<usize, RegionView>,
    s: Seq<(usize, usize, usize)>,
    k: int,
    ms: crate::models::RegionState,
    mp: u32,
    gs: RegionState,
    gp: PageProtect,
)
    requires
        consistent(m, g, s),
        0 <= k < s.len(),
        state_match(gs, ms),
        gp.0 == mp,
    ensures
        consistent(
            m.insert(s[k].0, (m[s[k].0].0, ms, mp, m[s[k].0].3)),
            g.insert(s[k].1, (g[s[k].1].0, gs, gp)),
            s,
        ),
{
    let (id, base, _) = s[k];
    let m2 = m.insert(id, (m[id].0, ms, mp, m[id].3));
    let g2 = g.insert(base, (g[base].0, gs, gp));
    lemma_entry(m, g, s, k);
    assert forall|i: int| 0 <= i < s.len() implies entry_agrees(m2, g2, #[trigger] s[i]) by {
        lemma_entry(m, g, s, i);
        if i == k {
            reveal(entry_agrees);
        } else {
            lemma_entry_frame(m, g, m2, g2, s[i]);
        }
    }
    assert forall|i: int, j: int| 0 <= i < j < s.len() implies entries_apart(g2, #[trigger] s[i], #[trigger] s[j]) by {
        lemma_entry(m, g, s, i);
        lemma_entry(m, g, s, j);
        reveal(consistent);
        assert(entries_apart(g, s[i], s[j]));
        lemma_apart_frame(g, g2, s[i], s[j]);
    }
    assert forall|x: usize| #[trigger] m2.contains_key(x) implies exists|i: int| 0 <= i < s.len() && s[i].0 == x by {
        reveal(consistent);
        if x == id {
            assert(s[k].0 == x);
        } else {
            assert(m.contains_key(x));
        }
    }
    assert forall|x: usize| #[trigger] g2.contains_key(x) implies exists|i: int| 0 <= i < s.len() && s[i].1 == x by {
        reveal(consistent);
        if x == base {
            assert(s[k].1 == x);
        } else {
            assert(g.contains_key(x));
        }
    }
    reveal(consistent);
}

/// A granted commit of a reserved region keeps a consistent case
/// consistent.
proof fn lemma_commit_consistent(
    m: Map<usize, Region>,
    g: Map<usize, RegionView>,
    s: Seq<(usize, usize, usize)>,
    op: MemOp,
    base: usize,
    p: PageProtect,
)
    requires
        consistent(m, g, s),
        op matches MemOp::Commit { id, protect: pi } && has_entry(s, id, base) && p.0 == protect_bits(pi as int),
        mem_step(m, op).1 is Ok,
    ensures
        consistent(mem_step(m, op).0, g.insert(base, (g[base].0, RegionState::Committed, p)), s),
{
    let id = op->Commit_id;
    let k = choose|k: int| 0 <= k < s.len() && s[k].0 == id && s[k].1 == base;
    lemma_update_consistent(m, g, s, k, crate::models::RegionState::Committed, p.0, RegionState::Committed, p);
}

/// A granted protection change of a committed region keeps a consistent
/// case consistent.
proof fn lemma_protect_consistent(
    m: Map<usize, Region>,
    g: Map<usize, RegionView>,
    s: Seq<(usize, usize, usize)>,
    op: MemOp,
    base: usize,
    p: PageProtect,
)
    requires
        consistent(m, g, s),
        op matches MemOp::Protect { id, protect: pi } && has_entry(s, id, base) && p.0 == protect_bits(pi as int),
        mem_step(m, op).1 is Ok,
    ensures
        consistent(mem_step(m, op).0, g.insert(base, (g[base].0, g[base].1, p)), s),
{
    let id = op->Protect_id;
    let k = choose|k: int| 0 <= k < s.len() && s[k].0 == id && s[k].1 == base;
    lemma_entry(m, g, s, k);
    lemma_update_consistent(m, g, s, k, m[id].1, p.0, g[base].1, p);
}

/// Releasing the region of entry `k` on both sides keeps a consistent case
/// consistent.
proof fn lemma_release_consistent(
    m: Map<usize, Region>,
    g: Map<usize, RegionView>,
    s: Seq<(usize, usize, usize)>,
    k: int,
    id: usize,
    base: usize,
)
    requires
        consistent(m, g, s),
        0 <= k < s.len(),
        s[k].0 == id,
        has_entry(s, id, base),
    ensures
        consistent(m.remove(id), g.remove(base), s.remove(k)),
{
    let k2 = choose|k2: int| 0 <= k2 < s.len() && s[k2].0 == id && s[k2].1 == base;
    lemma_entry(m, g, s, k);
    assert(k2 == k);
    let m2 = m.remove(id);
    let g2 = g.remove(base);
    let s2 = s.remove(k);
    assert forall|i: int| 0 <= i < s2.len() implies entry_agrees(m2, g2, #[trigger] s2[i]) by {
        let i2 = if i < k { i } else { i + 1 };
        assert(s2[i] == s[i2]);
        lemma_entry(m, g, s, i2);
        lemma_entry_frame(m, g, m2, g2, s[i2]);
    }
    assert forall|i: int, j: int| 0 <= i < j < s2.len() implies entries_apart(g2, #[trigger] s2[i], #[trigger] s2[j]) by {
        let i2 = if i < k { i } else { i + 1 };
        let j2 = if j < k { j } else { j + 1 };
        assert(s2[i] == s[i2]);
        assert(s2[j] == s[j2]);
        lemma_entry(m, g, s, i2);
        lemma_entry(m, g, s, j2);
        reveal(consistent);
        assert(entries_apart(g, s[i2], s[j2]));
        lemma_apart_frame(g, g2, s[i2], s[j2]);
    }
    assert forall|x: usize| #[trigger] m2.contains_key(x) implies exists|i: int| 0 <= i < s2.len() && s2[i].0 == x by {
        reveal(consistent);
        let i = choose|i: int| 0 <= i < s.len() && s[i].0 == x;
        assert(i != k);
        if i < k {
            assert(s2[i] == s[i]);
        } else {
            assert(s2[i - 1] == s[i]);
        }
    }
    assert forall|x: usize| #[trigger] g2.contains_key(x) implies exists|i: int| 0 <= i < s2.len() && s2[i].1 == x by {
        reveal(consistent);
        let i = choose|i: int| 0 <= i < s.len() && s[i].1 == x;
        assert(i != k);
        if i < k {
            assert(s2[i] == s[i]);
        } else {
            assert(s2[i - 1] == s[i]);
        }
    }
    reveal(consistent);
}

} // verus!
