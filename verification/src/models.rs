//! Expected-state models for the handle and memory campaigns: the minimal
//! executable specification that Rine's answers are compared against.
//! Models never touch the host: pure state over symbolic ids.
use vstd::prelude::*;
use std::collections::HashMap;

verus! {

broadcast use vstd::std_specs::hash::group_hash_axioms;

/// The model's verdict that Rine must refuse an operation.
#[derive(Debug, Clone, Copy, PartialEq, Eq, Structural)]
pub struct Reject;

// ---------------------------------------------------------------------------
// Handles: insert / lookup / close over symbolic ids.
// ---------------------------------------------------------------------------

/// Symbolic handle operation; ids name earlier inserts in creation order.
#[derive(Debug, Clone, Copy, PartialEq, Eq, Structural)]
pub enum HandleOp {
    Insert,
    Lookup { id: usize },
    Close { id: usize },
}

/// Handle-model state: the number of inserts so far and which ids are live.
pub struct HandleState {
    pub next: nat,
    pub alive: Map<usize, bool>,
}

/// Whether `id` names a live handle.
pub open spec fn is_live(alive: Map<usize, bool>, id: usize) -> bool {
    alive.contains_key(id) && alive[id]
}

/// One handle step: `Insert` gives the next id; `Lookup`/`Close` of a dead
/// or unknown id is refused; `Close` of a live id kills it.
pub open spec fn handle_step(s: HandleState, op: HandleOp) -> (HandleState, Result<Option<usize>, Reject>) {
    match op {
        HandleOp::Insert => (
            HandleState { next: s.next + 1, alive: s.alive.insert(s.next as usize, true) },
            Ok(Some(s.next as usize)),
        ),
        HandleOp::Lookup { id } => (s, if is_live(s.alive, id) { Ok(None) } else { Err(Reject) }),
        HandleOp::Close { id } => if is_live(s.alive, id) {
            (HandleState { next: s.next, alive: s.alive.insert(id, false) }, Ok(None))
        } else {
            (s, Err(Reject))
        },
    }
}

/// The handle model's life cycle, as two or three steps relate: an insert
/// returns a fresh id (the next one) that a lookup then finds and the
/// insert after it does not reuse; closing a live id succeeds once, after
/// which looking it up or closing it again is refused; a dead or unknown
/// id is refused by lookup and close, which then change nothing.
pub proof fn law_handle_lifecycle(s: HandleState, id: usize)
    requires
        s.next < usize::MAX,
        forall|k: usize| s.alive.contains_key(k) ==> k < s.next,
    ensures
        ({
            let (s1, r1) = handle_step(s, HandleOp::Insert);
            let (s2, r2) = handle_step(s1, HandleOp::Insert);
            &&& r1 == Ok::<Option<usize>, Reject>(Some(s.next as usize))
            &&& handle_step(s1, HandleOp::Lookup { id: s.next as usize }).1 is Ok
            &&& !s.alive.contains_key(s.next as usize)
            &&& (r2 matches Ok(Some(j)) && j != s.next as usize)
        }),
        is_live(s.alive, id) ==> ({
            let (t, r) = handle_step(s, HandleOp::Close { id });
            &&& r is Ok
            &&& handle_step(t, HandleOp::Lookup { id }).1 is Err
            &&& handle_step(t, HandleOp::Close { id }).1 is Err
            &&& forall|k: usize| k != id ==> is_live(t.alive, k) == is_live(s.alive, k)
        }),
        !is_live(s.alive, id) ==> handle_step(s, HandleOp::Lookup { id }) == (s, Err::<Option<usize>, Reject>(Reject))
            && handle_step(s, HandleOp::Close { id }) == (s, Err::<Option<usize>, Reject>(Reject)),
{
}

pub struct HandleModel {
    alive: HashMap<usize, bool>,
    next: usize,
}

impl HandleModel {
    pub closed spec fn state(&self) -> HandleState {
        HandleState { next: self.next as nat, alive: self.alive@ }
    }

    /// Ids handed out so far are exactly `0..next`.
    pub closed spec fn wf(&self) -> bool {
        forall|id: usize| self.alive@.contains_key(id) <==> id < self.next
    }

    /// Whether another `Insert` can be numbered.
    pub open spec fn can_insert(&self) -> bool {
        self.state().next < usize::MAX
    }

    /// Applies `op`: `Ok` if Rine must accept it (with the new id for
    /// `Insert`), `Err(Reject)` if Rine must refuse it.
    pub fn step(&mut self, op: &HandleOp) -> (r: Result<Option<usize>, Reject>)
        requires
            old(self).wf(),
            *op == HandleOp::Insert ==> old(self).can_insert(),
        ensures
            final(self).wf(),
            (final(self).state(), r) == handle_step(old(self).state(), *op),
    {
        match op {
            HandleOp::Insert => {
                let id = self.next;
                self.next = self.next + 1;
                self.alive.insert(id, true);
                Ok(Some(id))
            },
            HandleOp::Lookup { id } => {
                let live = match self.alive.get(id) {
                    Some(b) => *b,
                    None => false,
                };
                if live { Ok(None) } else { Err(Reject) }
            },
            HandleOp::Close { id } => {
                let live = match self.alive.get(id) {
                    Some(b) => *b,
                    None => false,
                };
                if live {
                    self.alive.insert(*id, false);
                    Ok(None)
                } else {
                    Err(Reject)
                }
            },
        }
    }
}

impl Default for HandleModel {
    fn default() -> (m: HandleModel)
        ensures
            m.wf(),
            m.state().next == 0,
            m.state().alive == Map::<usize, bool>::empty(),
    {
        HandleModel { alive: HashMap::new(), next: 0 }
    }
}

// ---------------------------------------------------------------------------
// Memory: reserve / commit / protect / query / release over symbolic ids.
// ---------------------------------------------------------------------------

/// Symbolic memory operation; `protect` is an index into `PROTECTS`.
#[derive(Debug, Clone, Copy, PartialEq, Eq, Structural)]
pub enum MemOp {
    Reserve { id: usize, size: usize, protect: u8 },
    /// Commit sets the current protection; the allocation protection stays
    /// the one given at reserve time.
    Commit { id: usize, protect: u8 },
    Protect { id: usize, protect: u8 },
    /// Pure query of the region at `base + offset` (no effect on either side).
    Query { id: usize, offset: u64 },
    Release { id: usize },
}

/// The six basic `PAGE_*` protections, by index.
pub open spec fn protect_bits(i: int) -> u32 {
    if i == 0 { 0x01 } else if i == 1 { 0x02 } else if i == 2 { 0x04 } else if i == 3 { 0x10 } else if i
        == 4 { 0x20 } else { 0x40 }
}

pub const PROTECTS_LEN: usize = 6;

/// `PAGE_*` bits of protection index `i` (`i < PROTECTS_LEN`).
pub fn protects(i: usize) -> (r: u32)
    requires
        i < PROTECTS_LEN,
    ensures
        r == protect_bits(i as int),
{
    let table: [u32; 6] = [0x01, 0x02, 0x04, 0x10, 0x20, 0x40];
    table[i]
}

#[derive(Debug, Clone, Copy, PartialEq, Eq, Structural)]
pub enum RegionState {
    Reserved,
    Committed,
}

/// `size` rounded up to whole 4096-byte pages.
pub open spec fn page_round(size: nat) -> nat {
    ((size + 4095) / 4096 * 4096) as nat
}

/// Region descriptor: `(len, state, protect, alloc_protect)`.
pub type Region = (usize, RegionState, u32, u32);

/// One memory step over the id → region map.
pub open spec fn mem_step(m: Map<usize, Region>, op: MemOp) -> (Map<usize, Region>, Result<(), Reject>) {
    match op {
        MemOp::Reserve { id, size, protect } => if size == 0 || m.contains_key(id) || protect >= 6 {
            (m, Err(Reject))
        } else {
            let bits = protect_bits(protect as int);
            (m.insert(id, (page_round(size as nat) as usize, RegionState::Reserved, bits, bits)), Ok(()))
        },
        MemOp::Commit { id, protect } => if m.contains_key(id) && m[id].1 == RegionState::Reserved
            && protect < 6 {
            let r = m[id];
            (m.insert(id, (r.0, RegionState::Committed, protect_bits(protect as int), r.3)), Ok(()))
        } else {
            (m, Err(Reject))
        },
        MemOp::Protect { id, protect } => if m.contains_key(id) && m[id].1 == RegionState::Committed
            && protect < 6 {
            let r = m[id];
            (m.insert(id, (r.0, r.1, protect_bits(protect as int), r.3)), Ok(()))
        } else {
            (m, Err(Reject))
        },
        MemOp::Query { id, .. } => (m, if m.contains_key(id) { Ok(()) } else { Err(Reject) }),
        MemOp::Release { id } => if m.contains_key(id) {
            (m.remove(id), Ok(()))
        } else {
            (m, Err(Reject))
        },
    }
}

/// The memory model's rules, as steps relate: a reserve of a fresh id
/// with a valid size and protection succeeds, rounded up to whole 4096-byte
/// pages, reserved (not committed); a commit needs a reserved region and a
/// second commit is refused; a protect needs a committed region; a release
/// removes the region, after which commit, protect and release of the id
/// are refused; a reserve of an id in use is refused. A refused step
/// changes nothing.
pub proof fn law_memory_lifecycle(m: Map<usize, Region>, id: usize, size: usize, p: u8, q: u8)
    requires
        size <= usize::MAX - 4095,
    ensures
        !m.contains_key(id) && size > 0 && p < 6 ==> ({
            let (m1, r1) = mem_step(m, MemOp::Reserve { id, size, protect: p });
            &&& r1 is Ok
            &&& m1.contains_key(id) && m1[id].1 == RegionState::Reserved
            &&& m1[id].0 % 4096 == 0 && size <= m1[id].0 < size + 4096
            &&& mem_step(m1, MemOp::Protect { id, protect: q }).1 is Err
            &&& mem_step(m1, MemOp::Reserve { id, size, protect: p }).1 is Err
            &&& (q < 6 ==> ({
                let (m2, r2) = mem_step(m1, MemOp::Commit { id, protect: q });
                &&& r2 is Ok && m2[id].1 == RegionState::Committed && m2[id].0 == m1[id].0
                &&& mem_step(m2, MemOp::Commit { id, protect: q }).1 is Err
                &&& mem_step(m2, MemOp::Protect { id, protect: q }).1 is Ok
            }))
            &&& mem_step(m1, MemOp::Release { id }).1 is Ok
            &&& mem_step(m1, MemOp::Release { id }).0 == m
        }),
        m.contains_key(id) ==> ({
            let (m1, r1) = mem_step(m, MemOp::Release { id });
            &&& r1 is Ok && !m1.contains_key(id)
            &&& mem_step(m1, MemOp::Commit { id, protect: q }).1 is Err
            &&& mem_step(m1, MemOp::Protect { id, protect: q }).1 is Err
            &&& mem_step(m1, MemOp::Release { id }).1 is Err
        }),
        m.contains_key(id) ==> mem_step(m, MemOp::Reserve { id, size, protect: p }) == (m, Err::<(), Reject>(Reject)),
{
    let len = page_round(size as nat);
    assert(len % 4096 == 0 && size <= len < size + 4096) by (nonlinear_arith)
        requires
            len == (size + 4095) / 4096 * 4096,
            size >= 0,
    ;
    if !m.contains_key(id) && size > 0 && p < 6 {
        let (m1, r1) = mem_step(m, MemOp::Reserve { id, size, protect: p });
        assert(m1.remove(id) =~= m);
    }
}

pub struct MemoryModel {
    regions: HashMap<usize, Region>,
}

fn round_to_page(size: usize) -> (r: usize)
    requires
        size <= usize::MAX - 4095,
    ensures
        r == page_round(size as nat),
{
    let t: usize = size + 4095;
    let r = t & !4095usize;
    assert((t & !4095usize) == t - t % 4096) by (bit_vector);
    r
}

impl MemoryModel {
    pub closed spec fn regions(&self) -> Map<usize, Region> {
        self.regions@
    }

    /// Applies `op`: `Ok` if Rine must accept it. Reserve sizes are rounded
    /// up to pages.
    pub fn step(&mut self, op: &MemOp) -> (r: Result<(), Reject>)
        requires
            match *op {
                MemOp::Reserve { size, .. } => size <= usize::MAX - 4095,
                _ => true,
            },
        ensures
            (final(self).regions(), r) == mem_step(old(self).regions(), *op),
    {
        match op {
            MemOp::Reserve { id, size, protect } => {
                if *size == 0 || self.regions.contains_key(id) || (*protect as usize) >= PROTECTS_LEN {
                    return Err(Reject);
                }
                let len = round_to_page(*size);
                let bits = protects(*protect as usize);
                self.regions.insert(*id, (len, RegionState::Reserved, bits, bits));
                Ok(())
            },
            MemOp::Commit { id, protect } => {
                let cur = match self.regions.get(id) {
                    Some(r) => *r,
                    None => return Err(Reject),
                };
                if cur.1 == RegionState::Reserved && (*protect as usize) < PROTECTS_LEN {
                    let bits = protects(*protect as usize);
                    self.regions.insert(*id, (cur.0, RegionState::Committed, bits, cur.3));
                    Ok(())
                } else {
                    Err(Reject)
                }
            },
            MemOp::Protect { id, protect } => {
                let cur = match self.regions.get(id) {
                    Some(r) => *r,
                    None => return Err(Reject),
                };
                if cur.1 == RegionState::Committed && (*protect as usize) < PROTECTS_LEN {
                    let bits = protects(*protect as usize);
                    self.regions.insert(*id, (cur.0, cur.1, bits, cur.3));
                    Ok(())
                } else {
                    Err(Reject)
                }
            },
            MemOp::Query { id, .. } => {
                if self.regions.contains_key(id) { Ok(()) } else { Err(Reject) }
            },
            MemOp::Release { id } => {
                match self.regions.remove(id) {
                    Some(_) => Ok(()),
                    None => Err(Reject),
                }
            },
        }
    }

    /// Whether `step(op)` would accept, without applying it.
    pub fn accepts(&self, op: &MemOp) -> (r: bool)
        ensures
            r == (mem_step(self.regions(), *op).1 is Ok),
    {
        match op {
            MemOp::Reserve { id, size, protect } => !(*size == 0 || self.regions.contains_key(id)
                || (*protect as usize) >= PROTECTS_LEN),
            MemOp::Commit { id, protect } => match self.regions.get(id) {
                Some(r) => r.1 == RegionState::Reserved && (*protect as usize) < PROTECTS_LEN,
                None => false,
            },
            MemOp::Protect { id, protect } => match self.regions.get(id) {
                Some(r) => r.1 == RegionState::Committed && (*protect as usize) < PROTECTS_LEN,
                None => false,
            },
            MemOp::Query { id, .. } => self.regions.contains_key(id),
            MemOp::Release { id } => self.regions.contains_key(id),
        }
    }

    /// Expected descriptor for `Query(id)`; `None` for an unknown id.
    pub fn query_desc(&self, id: usize) -> (r: Option<Region>)
        ensures
            r == (if self.regions().contains_key(id) { Some(self.regions()[id]) } else { None::<Region> }),
    {
        match self.regions.get(&id) {
            Some(r) => Some(*r),
            None => None,
        }
    }

    /// Number of live regions.
    pub fn live_count(&self) -> (n: usize)
        ensures
            n == self.regions().len(),
    {
        self.regions.len()
    }
}

impl Default for MemoryModel {
    fn default() -> (m: MemoryModel)
        ensures
            m.regions() == Map::<usize, Region>::empty(),
    {
        MemoryModel { regions: HashMap::new() }
    }
}

} // verus!
