//! NT virtual memory over `mmap`: Windows regions (`MEM_RESERVE` /
//! `COMMIT` / `DECOMMIT` / `RELEASE` with `PAGE_*`) as explicit state.
//! `VirtualAlloc` is a region state transition with `mmap`/`mprotect` as
//! its effect: this module decides each transition and the host effect it
//! needs; the caller performs the effect on the host and reports back.
use vstd::prelude::*;
use crate::abi::{
    AllocType, NtStatus, PageProtect, MEM_COMMIT, MEM_DECOMMIT, MEM_RELEASE, MEM_RESERVE, PAGE_EXECUTE,
    PAGE_EXECUTE_READ, PAGE_EXECUTE_READWRITE, PAGE_EXECUTE_WRITECOPY, PAGE_NOACCESS, PAGE_READONLY, PAGE_READWRITE,
    PAGE_WRITECOPY, STATUS_INVALID_PARAMETER, STATUS_NO_MEMORY,
};

verus! {

/// Failure of a host system call (with its errno).
#[derive(Debug, Clone, Copy, PartialEq, Eq, Structural)]
pub enum HostError {
    Mmap(i32),
    Mprotect(i32),
    Munmap(i32),
    ArchPrctl(i32),
    Io(i32),
}

/// Host page protection (mirrors `PAGE_*` without Linux values).
#[derive(Debug, Clone, Copy, PartialEq, Eq, Structural)]
pub struct Prot {
    pub read: bool,
    pub write: bool,
    pub execute: bool,
}

impl Prot {
    pub fn none() -> (p: Prot)
        ensures
            p == (Prot { read: false, write: false, execute: false }),
    {
        Prot { read: false, write: false, execute: false }
    }
}

/// Seek origin (`FILE_BEGIN` / `CURRENT` / `END`).
#[derive(Debug, Clone, Copy, PartialEq, Eq, Structural)]
pub enum SeekFrom {
    Start,
    Current,
    End,
}

#[derive(Debug, Clone, Copy, PartialEq, Eq, Structural)]
pub enum MemError {
    InvalidParameter,
    NoMemory,
    /// The fixed address overlaps a tracked region.
    Conflict,
    Host(HostError),
}

pub open spec fn mem_error_status(e: MemError) -> NtStatus {
    match e {
        MemError::InvalidParameter => NtStatus(STATUS_INVALID_PARAMETER),
        MemError::NoMemory => NtStatus(STATUS_NO_MEMORY),
        MemError::Conflict => NtStatus(STATUS_INVALID_PARAMETER),
        MemError::Host(_) => NtStatus(STATUS_NO_MEMORY),
    }
}

impl MemError {
    /// The `NTSTATUS` reported for this error.
    pub fn status(&self) -> (s: NtStatus)
        ensures
            s == mem_error_status(*self),
    {
        match self {
            MemError::InvalidParameter => NtStatus(STATUS_INVALID_PARAMETER),
            MemError::NoMemory => NtStatus(STATUS_NO_MEMORY),
            MemError::Conflict => NtStatus(STATUS_INVALID_PARAMETER),
            MemError::Host(_) => NtStatus(STATUS_NO_MEMORY),
        }
    }
}

#[derive(Debug, Clone, Copy, PartialEq, Eq, Structural)]
pub enum RegionState {
    /// Address space only: no access, no commit.
    Reserved,
    /// Accessible with its protection.
    Committed,
}

/// `p` holds every bit of `q`.
pub open spec fn prot_has(p: PageProtect, q: u32) -> bool {
    p.0 & q == q
}

/// `p` shares a bit with `q`.
pub open spec fn prot_meets(p: PageProtect, q: u32) -> bool {
    p.0 & q != 0
}

/// Host protection of a `PAGE_*` value: `NOACCESS` → none; any execute
/// flavour → +X; any writable flavour → +W; otherwise readable. `GUARD` has
/// no equivalent and is treated as plain committed memory.
pub open spec fn host_prot_spec(p: PageProtect) -> Prot {
    if prot_has(p, PAGE_NOACCESS) {
        Prot { read: false, write: false, execute: false }
    } else {
        Prot {
            read: true,
            write: prot_meets(p, PAGE_READWRITE | PAGE_WRITECOPY | PAGE_EXECUTE_READWRITE | PAGE_EXECUTE_WRITECOPY),
            execute: prot_meets(p, PAGE_EXECUTE | PAGE_EXECUTE_READ | PAGE_EXECUTE_READWRITE | PAGE_EXECUTE_WRITECOPY),
        }
    }
}

pub fn host_protect(p: PageProtect) -> (r: Prot)
    ensures
        r == host_prot_spec(p),
        p.0 & 0x01 != 0 ==> !r.read && !r.write && !r.execute,
        p.0 & 0x01 == 0 ==> r.read && (r.write <==> p.0 & 0xCC != 0) && (r.execute <==> p.0 & 0xF0 != 0),
{
    proof {
        law_host_protect(p);
    }
    if p.0 & PAGE_NOACCESS == PAGE_NOACCESS {
        return Prot { read: false, write: false, execute: false };
    }
    let execute = p.0 & (PAGE_EXECUTE | PAGE_EXECUTE_READ | PAGE_EXECUTE_READWRITE | PAGE_EXECUTE_WRITECOPY) != 0;
    let write = p.0 & (PAGE_READWRITE | PAGE_WRITECOPY | PAGE_EXECUTE_READWRITE | PAGE_EXECUTE_WRITECOPY) != 0;
    Prot { read: true, write, execute }
}

/// What each `PAGE_*` flavour maps to on the host. Over all values: with
/// the `NOACCESS` bit (0x01) nothing is allowed; otherwise the memory is
/// readable, writable exactly when one of the writable flavours
/// `READWRITE` (0x04), `WRITECOPY` (0x08), `EXECUTE_READWRITE` (0x40) or
/// `EXECUTE_WRITECOPY` (0x80) is set, and executable exactly when one of
/// `EXECUTE` (0x10), `EXECUTE_READ` (0x20), `EXECUTE_READWRITE` (0x40) or
/// `EXECUTE_WRITECOPY` (0x80) is set. In particular each plain flavour
/// gives the literal protection listed below.
pub proof fn law_host_protect(p: PageProtect)
    ensures
        p.0 & 0x01 != 0 ==> host_prot_spec(p) == (Prot { read: false, write: false, execute: false }),
        p.0 & 0x01 == 0 ==> host_prot_spec(p).read && (host_prot_spec(p).write <==> p.0 & 0xCC != 0) && (
        host_prot_spec(p).execute <==> p.0 & 0xF0 != 0),
        host_prot_spec(PageProtect(0x01)) == (Prot { read: false, write: false, execute: false }),
        host_prot_spec(PageProtect(0x02)) == (Prot { read: true, write: false, execute: false }),
        host_prot_spec(PageProtect(0x04)) == (Prot { read: true, write: true, execute: false }),
        host_prot_spec(PageProtect(0x08)) == (Prot { read: true, write: true, execute: false }),
        host_prot_spec(PageProtect(0x10)) == (Prot { read: true, write: false, execute: true }),
        host_prot_spec(PageProtect(0x20)) == (Prot { read: true, write: false, execute: true }),
        host_prot_spec(PageProtect(0x40)) == (Prot { read: true, write: true, execute: true }),
        host_prot_spec(PageProtect(0x80)) == (Prot { read: true, write: true, execute: true }),
{
    let v = p.0;
    assert(v & 0x01u32 == 0x01u32 <==> v & 0x01u32 != 0) by (bit_vector);
    assert(PAGE_READWRITE | PAGE_WRITECOPY | PAGE_EXECUTE_READWRITE | PAGE_EXECUTE_WRITECOPY == 0xCCu32) by (bit_vector);
    assert(PAGE_EXECUTE | PAGE_EXECUTE_READ | PAGE_EXECUTE_READWRITE | PAGE_EXECUTE_WRITECOPY == 0xF0u32) by (bit_vector);
    assert(0x01u32 & 0x01u32 == 0x01u32 && 0x02u32 & 0x01u32 == 0 && 0x04u32 & 0x01u32 == 0 && 0x08u32 & 0x01u32 == 0
        && 0x10u32 & 0x01u32 == 0 && 0x20u32 & 0x01u32 == 0 && 0x40u32 & 0x01u32 == 0 && 0x80u32 & 0x01u32 == 0)
        by (bit_vector);
    assert(0x02u32 & 0xCCu32 == 0 && 0x04u32 & 0xCCu32 != 0 && 0x08u32 & 0xCCu32 != 0 && 0x10u32 & 0xCCu32 == 0
        && 0x20u32 & 0xCCu32 == 0 && 0x40u32 & 0xCCu32 != 0 && 0x80u32 & 0xCCu32 != 0) by (bit_vector);
    assert(0x02u32 & 0xF0u32 == 0 && 0x04u32 & 0xF0u32 == 0 && 0x08u32 & 0xF0u32 == 0 && 0x10u32 & 0xF0u32 != 0
        && 0x20u32 & 0xF0u32 != 0 && 0x40u32 & 0xF0u32 != 0 && 0x80u32 & 0xF0u32 != 0) by (bit_vector);
}

/// `PAGE_*` of a PE section's characteristics, as the Windows loader maps
/// them (bits 29/30/31 = execute/read/write).
pub open spec fn section_protect_spec(c: u32) -> PageProtect {
    let x = c & 0x2000_0000 != 0;
    let r = c & 0x4000_0000 != 0;
    let w = c & 0x8000_0000 != 0;
    if x && r && w {
        PageProtect(PAGE_EXECUTE_READWRITE)
    } else if x && r {
        PageProtect(PAGE_EXECUTE_READ)
    } else if x {
        PageProtect(PAGE_EXECUTE_READWRITE)
    } else if r && w {
        PageProtect(PAGE_READWRITE)
    } else if r {
        PageProtect(PAGE_READONLY)
    } else if w {
        PageProtect(PAGE_READWRITE)
    } else {
        PageProtect(PAGE_NOACCESS)
    }
}

pub fn section_protect(characteristics: u32) -> (p: PageProtect)
    ensures
        p == section_protect_spec(characteristics),
{
    let x = characteristics & 0x2000_0000 != 0;
    let r = characteristics & 0x4000_0000 != 0;
    let w = characteristics & 0x8000_0000 != 0;
    if x && r && w {
        PageProtect(PAGE_EXECUTE_READWRITE)
    } else if x && r {
        PageProtect(PAGE_EXECUTE_READ)
    } else if x {
        PageProtect(PAGE_EXECUTE_READWRITE)
    } else if r && w {
        PageProtect(PAGE_READWRITE)
    } else if r {
        PageProtect(PAGE_READONLY)
    } else if w {
        PageProtect(PAGE_READWRITE)
    } else {
        PageProtect(PAGE_NOACCESS)
    }
}

/// A tracked region.
#[derive(Debug, Clone, Copy, PartialEq, Eq, Structural)]
pub struct Region {
    pub base: usize,
    pub len: usize,
    pub state: RegionState,
    pub protect: PageProtect,
}

/// What the host must do for an accepted `allocate`.
#[derive(Debug, Clone, Copy, PartialEq, Eq, Structural)]
pub enum AllocAction {
    /// Map `len` bytes (at `fixed` when given, else anywhere), then set
    /// their host protection to `host_prot`; on success call
    /// `finish_reserve`. A failed map is `NoMemory`; a failed protect is
    /// `Host`.
    Reserve { fixed: Option<usize>, len: usize, state: RegionState, protect: PageProtect, host_prot: Prot },
    /// Set the host protection of the reserved region `[base, base+len)`
    /// to `host_prot`; on success call `finish_commit`.
    Commit { base: usize, len: usize, protect: PageProtect, host_prot: Prot },
}

/// Region view: `(len, state, protect)` by base address.
pub type RegionView = (usize, RegionState, PageProtect);

/// `size` rounded up to a multiple of `page` (for the host's power-of-two
/// pages, the same as masking with `!(page - 1)`).
pub open spec fn round_up(size: nat, page: nat) -> nat {
    ((size + page - 1) as nat / page) * page
}

pub open spec fn overlaps(a: usize, alen: usize, b: usize, blen: usize) -> bool {
    a < b + blen && a + alen > b
}

/// Region holding the highest base at or below `hint`.
pub open spec fn floor_base(m: Map<usize, RegionView>, hint: usize) -> Option<usize> {
    if exists|b: usize| m.contains_key(b) && b <= hint {
        Some(choose|b: usize| m.contains_key(b) && b <= hint && forall|c: usize| m.contains_key(c) && c <= hint ==> c <= b)
    } else {
        None
    }
}

/// Decision of `allocate(hint, size, alloc, protect)` over the regions `m`
/// with page size `page`. Size 0, `MEM_RELEASE`, or neither reserve nor
/// commit: `InvalidParameter`. Reserve: at `hint` rounded down to a page
/// (unless 0), refusing an overlap with a tracked region (`Conflict`);
/// committed at once with `MEM_COMMIT`. Commit alone: the region with the
/// highest base at or below `hint` must be reserved and start at `hint`.
pub open spec fn plan_spec(m: Map<usize, RegionView>, page: usize, hint: usize, size: usize, alloc: AllocType, protect: PageProtect) -> Result<
    AllocAction,
    MemError,
> {
    let len = round_up(size as nat, page as nat) as usize;
    if size == 0 || alloc.has(AllocType(MEM_RELEASE)) {
        Err(MemError::InvalidParameter)
    } else if alloc.has(AllocType(MEM_RESERVE)) {
        let state = if alloc.has(AllocType(MEM_COMMIT)) { RegionState::Committed } else { RegionState::Reserved };
        let host = if state == RegionState::Committed {
            host_prot_spec(protect)
        } else {
            Prot { read: false, write: false, execute: false }
        };
        if hint != 0 {
            let aligned = (hint - hint % page) as usize;
            if exists|b: usize| m.contains_key(b) && #[trigger] overlaps(aligned, len, b, m[b].0) {
                Err(MemError::Conflict)
            } else {
                Ok(AllocAction::Reserve { fixed: Some(aligned), len, state, protect, host_prot: host })
            }
        } else {
            Ok(AllocAction::Reserve { fixed: None, len, state, protect, host_prot: host })
        }
    } else if alloc.has(AllocType(MEM_COMMIT)) {
        match floor_base(m, hint) {
            None => Err(MemError::InvalidParameter),
            Some(b) => if m[b].1 == RegionState::Committed || hint != b {
                Err(MemError::InvalidParameter)
            } else {
                Ok(AllocAction::Commit { base: b, len: m[b].0, protect, host_prot: host_prot_spec(protect) })
            },
        }
    } else {
        Err(MemError::InvalidParameter)
    }
}

proof fn lemma_floor_max(m: Map<usize, RegionView>, h: usize)
    ensures
        (exists|b: usize| m.contains_key(b) && b <= h) ==> exists|b: usize|
            m.contains_key(b) && b <= h && forall|c: usize| m.contains_key(c) && c <= h ==> c <= b,
    decreases h,
{
    if m.contains_key(h) {
        assert(forall|c: usize| m.contains_key(c) && c <= h ==> c <= h);
    } else if h > 0 {
        lemma_floor_max(m, (h - 1) as usize);
        if exists|b: usize| m.contains_key(b) && b <= h {
            let b = choose|b: usize| m.contains_key(b) && b <= h;
            assert(b <= h - 1);
            let w = choose|w: usize| m.contains_key(w) && w <= (h - 1) as usize && forall|c: usize| m.contains_key(c)
                && c <= (h - 1) as usize ==> c <= w;
            assert forall|c: usize| m.contains_key(c) && c <= h implies c <= w by {
                assert(c != h);
            }
        }
    }
}

proof fn lemma_floor_at_key_nm(m: Map<usize, RegionView>, h: usize)
    requires
        m.contains_key(h),
    ensures
        floor_base(m, h) == Some(h),
{
    assert(m.contains_key(h) && h <= h);
    assert(exists|b: usize| m.contains_key(b) && b <= h && forall|c: usize| m.contains_key(c) && c <= h ==> c <= b) by {
        assert(forall|c: usize| m.contains_key(c) && c <= h ==> c <= h);
    }
    let b = choose|b: usize| m.contains_key(b) && b <= h && forall|c: usize| m.contains_key(c) && c <= h ==> c <= b;
    assert(h <= b);
}

proof fn lemma_floor_not_key(m: Map<usize, RegionView>, h: usize)
    requires
        !m.contains_key(h),
    ensures
        floor_base(m, h) matches Some(b) ==> b != h && m.contains_key(b),
{
    lemma_floor_max(m, h);
}

/// The decisions of `VirtualAlloc`, over all inputs (flags as raw bits:
/// `MEM_COMMIT` 0x1000, `MEM_RESERVE` 0x2000, `MEM_RELEASE` 0x8000):
/// a zero size or the release flag is an invalid parameter; a reserve asks
/// the host for whole pages covering the size (at the hint rounded down to
/// a page, when there is one), committed exactly when the commit flag is
/// set and then with the host protection of the requested `PAGE_*`; a
/// reserve at a hint that overlaps a tracked region is a conflict; a
/// commit without reserve works only on the base of a reserved region,
/// and covers that whole region.
pub proof fn law_plan_allocate(m: Map<usize, RegionView>, page: usize, hint: usize, size: usize, alloc: AllocType, protect: PageProtect)
    requires
        page >= 1,
        size as nat + page <= usize::MAX + 1,
    ensures
        size == 0 || alloc.0 & 0x8000 == 0x8000 ==> plan_spec(m, page, hint, size, alloc, protect) == Err::<
            AllocAction,
            MemError,
        >(MemError::InvalidParameter),
        size > 0 && alloc.0 & 0x8000 != 0x8000 && alloc.0 & 0x2000 == 0x2000 ==> (plan_spec(
            m,
            page,
            hint,
            size,
            alloc,
            protect,
        ) matches Ok(AllocAction::Reserve { fixed, len, state, protect: p2, host_prot }) ==> {
            &&& len % page == 0 && size <= len < size + page
            &&& p2 == protect
            &&& (state == RegionState::Committed <==> alloc.0 & 0x1000 == 0x1000)
            &&& (state == RegionState::Committed ==> host_prot == host_prot_spec(protect))
            &&& (state == RegionState::Reserved ==> !host_prot.read && !host_prot.write && !host_prot.execute)
            &&& (hint == 0 <==> fixed is None)
            &&& (fixed matches Some(f) ==> f <= hint && hint - f < page && f % page == 0)
        }),
        size > 0 && alloc.0 & 0x8000 != 0x8000 && alloc.0 & 0x2000 == 0x2000 && hint == 0 ==> plan_spec(
            m,
            page,
            hint,
            size,
            alloc,
            protect,
        ) is Ok,
        size > 0 && alloc.0 & 0x8000 != 0x8000 && alloc.0 & 0x2000 == 0x2000 && hint != 0 ==> (plan_spec(
            m,
            page,
            hint,
            size,
            alloc,
            protect,
        ) == Err::<AllocAction, MemError>(MemError::Conflict) <==> exists|b: usize| m.contains_key(b) && #[trigger] overlaps(
            (hint - hint % page) as usize,
            round_up(size as nat, page as nat) as usize,
            b,
            m[b].0,
        )),
        size > 0 && alloc.0 & 0xA000 == 0x0000 && alloc.0 & 0x1000 == 0x1000 ==> (plan_spec(
            m,
            page,
            hint,
            size,
            alloc,
            protect,
        ) is Ok <==> m.contains_key(hint) && m[hint].1 == RegionState::Reserved),
        size > 0 && alloc.0 & 0xA000 == 0x0000 && alloc.0 & 0x1000 == 0x1000 && m.contains_key(hint) && m[hint].1
            == RegionState::Reserved ==> plan_spec(m, page, hint, size, alloc, protect) == Ok::<AllocAction, MemError>(
            AllocAction::Commit { base: hint, len: m[hint].0, protect, host_prot: host_prot_spec(protect) },
        ),
{
    let len = round_up(size as nat, page as nat) as int;
    let pg = page as int;
    let q = (size + page - 1) as nat / page as nat;
    vstd::arithmetic::div_mod::lemma_fundamental_div_mod((size + page - 1) as int, pg);
    assert(len == q * pg);
    assert(len % pg == 0) by {
        vstd::arithmetic::div_mod::lemma_mod_multiples_basic(q as int, pg);
    }
    assert(0 <= (size + page - 1) as int % pg < pg);
    assert(len <= size + page - 1);
    assert(size > 0 ==> size <= len);
    vstd::arithmetic::div_mod::lemma_fundamental_div_mod(hint as int, pg);
    let f = hint - hint % page;
    assert(f == pg * (hint as int / pg));
    assert(f % pg == 0) by {
        vstd::arithmetic::div_mod::lemma_mod_multiples_basic(hint as int / pg, pg);
        assert(pg * (hint as int / pg) == (hint as int / pg) * pg) by (nonlinear_arith);
    }
    let a = alloc.0;
    assert(a & 0x8000u32 == 0x8000u32 <==> a & MEM_RELEASE == MEM_RELEASE) by (bit_vector);
    assert(a & 0x2000u32 == 0x2000u32 <==> a & MEM_RESERVE == MEM_RESERVE) by (bit_vector);
    assert(a & 0x1000u32 == 0x1000u32 <==> a & MEM_COMMIT == MEM_COMMIT) by (bit_vector);
    assert(a & 0xA000u32 == 0 ==> a & 0x8000u32 != 0x8000u32 && a & 0x2000u32 != 0x2000u32) by (bit_vector);
    if m.contains_key(hint) {
        lemma_floor_at_key_nm(m, hint);
    } else {
        lemma_floor_not_key(m, hint);
    }
}

/// Region manager: regions by base, and the host page size.
pub struct MemoryManager {
    regions: Vec<Region>,
    page: usize,
}

impl MemoryManager {
    /// Regions by base address.
    pub closed spec fn regions(&self) -> Map<usize, RegionView> {
        Map::new(
            |b: usize| exists|i: int| 0 <= i < self.regions@.len() && self.regions@[i].base == b,
            |b: usize| {
                let i = choose|i: int| 0 <= i < self.regions@.len() && self.regions@[i].base == b;
                (self.regions@[i].len, self.regions@[i].state, self.regions@[i].protect)
            },
        )
    }

    pub closed spec fn page(&self) -> usize {
        self.page
    }

    /// Distinct bases; every region ends within the address space.
    pub closed spec fn wf(&self) -> bool {
        &&& forall|i: int, j: int| 0 <= i < j < self.regions@.len() ==> self.regions@[i].base != self.regions@[j].base
        &&& forall|i: int| 0 <= i < self.regions@.len() ==> #[trigger] self.regions@[i].base + self.regions@[i].len <= usize::MAX
        &&& self.page >= 1
    }

    /// Empty manager for host pages of `page` bytes.
    /// The host page size the manager rounds to.
    pub fn page_size(&self) -> (p: usize)
        ensures
            p == self.page(),
    {
        self.page
    }

    pub fn new(page: usize) -> (m: MemoryManager)
        requires
            page >= 1,
        ensures
            m.wf(),
            m.page() == page,
            m.regions() == Map::<usize, RegionView>::empty(),
    {
        let m = MemoryManager { regions: Vec::new(), page };
        assert(m.regions() =~= Map::<usize, RegionView>::empty());
        m
    }

    proof fn lemma_index(&self, i: int)
        requires
            self.wf(),
            0 <= i < self.regions@.len(),
        ensures
            self.regions().contains_key(self.regions@[i].base),
            self.regions()[self.regions@[i].base] == (self.regions@[i].len, self.regions@[i].state, self.regions@[i].protect),
    {
        let b = self.regions@[i].base;
        let j = choose|j: int| 0 <= j < self.regions@.len() && self.regions@[j].base == b;
        if j != i {
            if j < i {
                assert(self.regions@[j].base != self.regions@[i].base);
            } else {
                assert(self.regions@[i].base != self.regions@[j].base);
            }
        }
    }

    fn find(&self, base: usize) -> (r: Option<usize>)
        requires
            self.wf(),
        ensures
            match r {
                Some(i) => i < self.regions@.len() && self.regions@[i as int].base == base,
                None => !self.regions().contains_key(base),
            },
    {
        let mut i: usize = 0;
        while i < self.regions.len()
            invariant
                i <= self.regions@.len(),
                forall|j: int| 0 <= j < i ==> self.regions@[j].base != base,
            decreases self.regions@.len() - i,
        {
            if self.regions[i].base == base {
                return Some(i);
            }
            i += 1;
        }
        None
    }

    /// Some tracked region overlaps `[start, start + len)`.
    fn overlaps_any(&self, start: usize, len: usize) -> (r: bool)
        requires
            self.wf(),
        ensures
            r == exists|b: usize| self.regions().contains_key(b) && #[trigger] overlaps(start, len, b, self.regions()[b].0),
    {
        let mut i: usize = 0;
        while i < self.regions.len()
            invariant
                self.wf(),
                i <= self.regions@.len(),
                forall|j: int| 0 <= j < i ==> !overlaps(start, len, #[trigger] self.regions@[j].base, self.regions@[j].len),
            decreases self.regions@.len() - i,
        {
            let r = self.regions[i];
            assert(r.base + r.len <= usize::MAX);
            if start < r.base + r.len && (start > r.base || len > r.base - start) {
                proof {
                    self.lemma_index(i as int);
                    assert(overlaps(start, len, r.base, self.regions()[r.base].0));
                }
                return true;
            }
            i += 1;
        }
        proof {
            assert forall|b: usize| self.regions().contains_key(b) implies !#[trigger] overlaps(start, len, b, self.regions()[b].0) by {
                let j = choose|j: int| 0 <= j < self.regions@.len() && self.regions@[j].base == b;
                self.lemma_index(j);
            }
        }
        false
    }

    /// Index of the region with the highest base at or below `hint`.
    fn floor_region(&self, hint: usize) -> (r: Option<usize>)
        requires
            self.wf(),
        ensures
            match r {
                Some(k) => k < self.regions@.len() && floor_base(self.regions(), hint) == Some(self.regions@[k as int].base),
                None => floor_base(self.regions(), hint) is None,
            },
    {
        let mut best: Option<usize> = None;
        let mut i: usize = 0;
        while i < self.regions.len()
            invariant
                self.wf(),
                i <= self.regions@.len(),
                match best {
                    Some(k) => k < i && self.regions@[k as int].base <= hint
                        && forall|j: int| 0 <= j < i && self.regions@[j].base <= hint ==> self.regions@[j].base <= self.regions@[k as int].base,
                    None => forall|j: int| 0 <= j < i ==> self.regions@[j].base > hint,
                },
            decreases self.regions@.len() - i,
        {
            if self.regions[i].base <= hint {
                let better = match best {
                    Some(k) => self.regions[i].base > self.regions[k].base,
                    None => true,
                };
                if better {
                    best = Some(i);
                }
            }
            i += 1;
        }
        proof {
            let m = self.regions();
            match best {
                None => {
                    assert forall|b: usize| m.contains_key(b) implies !(b <= hint) by {
                        let j = choose|j: int| 0 <= j < self.regions@.len() && self.regions@[j].base == b;
                    }
                },
                Some(k) => {
                    let rb = self.regions@[k as int].base;
                    self.lemma_index(k as int);
                    assert forall|c: usize| m.contains_key(c) && c <= hint implies c <= rb by {
                        let j = choose|j: int| 0 <= j < self.regions@.len() && self.regions@[j].base == c;
                    }
                    assert(m.contains_key(rb) && rb <= hint);
                    let fb = choose|b: usize| m.contains_key(b) && b <= hint && forall|c: usize| m.contains_key(c) && c <= hint ==> c <= b;
                    assert(fb <= rb && rb <= fb);
                },
            }
        }
        best
    }

    /// Decides `allocate`: the host action to take, or the error.
    pub fn plan_allocate(&self, hint: usize, size: usize, alloc: AllocType, protect: PageProtect) -> (r: Result<
        AllocAction,
        MemError,
    >)
        requires
            self.wf(),
            size as nat + self.page() <= usize::MAX + 1,
            alloc.has(AllocType(MEM_RESERVE)) && hint != 0 && (hint - hint % self.page()) + round_up(
                size as nat,
                self.page() as nat,
            ) > usize::MAX ==> forall|b: usize| #[trigger] self.regions().contains_key(b) ==> b + self.regions()[b].0 <= hint
                - hint % self.page(),
        ensures
            r == plan_spec(self.regions(), self.page(), hint, size, alloc, protect),
            r matches Ok(AllocAction::Commit { base, len, .. }) ==> self.regions().contains_key(base) && len
                == self.regions()[base].0,
    {
        if size == 0 {
            return Err(MemError::InvalidParameter);
        }
        let page = self.page;
        let t: usize = size + (page - 1);
        let len: usize = t - t % page;
        assert(len == round_up(size as nat, page as nat)) by (nonlinear_arith)
            requires
                t == size + page - 1,
                len == t - t % page,
                page >= 1,
        ;
        if alloc.contains(AllocType(MEM_RELEASE)) {
            return Err(MemError::InvalidParameter);
        }
        if alloc.contains(AllocType(MEM_RESERVE)) {
            let state = if alloc.contains(AllocType(MEM_COMMIT)) { RegionState::Committed } else { RegionState::Reserved };
            let host = if state == RegionState::Committed { host_protect(protect) } else { Prot::none() };
            if hint != 0 {
                assert(hint % page <= hint) by (nonlinear_arith)
                    requires
                        page >= 1,
                ;
                let aligned: usize = hint - hint % page;
                if self.overlaps_any(aligned, len) {
                    return Err(MemError::Conflict);
                }
                return Ok(AllocAction::Reserve { fixed: Some(aligned), len, state, protect, host_prot: host });
            }
            return Ok(AllocAction::Reserve { fixed: None, len, state, protect, host_prot: host });
        }
        if alloc.contains(AllocType(MEM_COMMIT)) {
            match self.floor_region(hint) {
                None => return Err(MemError::InvalidParameter),
                Some(k) => {
                    let r = self.regions[k];
                    proof {
                        self.lemma_index(k as int);
                    }
                    if r.state == RegionState::Committed || hint != r.base {
                        return Err(MemError::InvalidParameter);
                    }
                    return Ok(AllocAction::Commit { base: r.base, len: r.len, protect, host_prot: host_protect(protect) });
                },
            }
        }
        Err(MemError::InvalidParameter)
    }

    /// Records a region the host mapped at `base` (replacing any region
    /// tracked at that base).
    pub fn finish_reserve(&mut self, base: usize, len: usize, state: RegionState, protect: PageProtect)
        requires
            old(self).wf(),
            base as nat + len as nat <= usize::MAX,
        ensures
            final(self).wf(),
            final(self).page() == old(self).page(),
            final(self).regions() == old(self).regions().insert(base, (len, state, protect)),
    {
        let reg = Region { base, len, state, protect };
        let ghost m0 = self.regions();
        match self.find(base) {
            Some(i) => {
                self.regions.set(i, reg);
            },
            None => {
                self.regions.push(reg);
            },
        }
        proof {
            assert forall|b: usize| #[trigger] self.regions().contains_key(b) == m0.insert(base, (len, state, protect)).contains_key(b) by {
                if m0.contains_key(b) {
                    let j = choose|j: int| 0 <= j < old(self).regions@.len() && old(self).regions@[j].base == b;
                    if b != base { assert(self.regions@[j] == old(self).regions@[j]); }
                }
                if self.regions().contains_key(b) && b != base {
                    let j = choose|j: int| 0 <= j < self.regions@.len() && self.regions@[j].base == b;
                    assert(self.regions@[j] == old(self).regions@[j]);
                }
                if b == base {
                    let j = if self.regions@.len() > old(self).regions@.len() { old(self).regions@.len() as int } else {
                        choose|j: int| 0 <= j < old(self).regions@.len() && old(self).regions@[j].base == base
                    };
                    assert(self.regions@[j].base == base);
                }
            }
            assert forall|b: usize| #[trigger] self.regions().contains_key(b) implies self.regions()[b] == m0.insert(base, (len, state, protect))[b] by {
                let j = choose|j: int| 0 <= j < self.regions@.len() && self.regions@[j].base == b;
                self.lemma_index(j);
                if b != base {
                    assert(self.regions@[j] == old(self).regions@[j]);
                    old(self).lemma_index(j);
                }
            }
            assert(self.regions() =~= m0.insert(base, (len, state, protect)));
        }
    }
}

/// What the host must do for an accepted `free`.
#[derive(Debug, Clone, Copy, PartialEq, Eq, Structural)]
pub enum FreeAction {
    /// Stop tracking the region (`untrack`), then unmap `[base, base+len)`.
    Release { base: usize, len: usize },
    /// Set `[base, base+len)` to no access, then call `finish_decommit`.
    Decommit { base: usize, len: usize },
}

/// Decision of `free(base, alloc)`: `MEM_RELEASE` or `MEM_DECOMMIT` of a
/// tracked region starting at `base`; anything else `InvalidParameter`.
pub open spec fn free_spec(m: Map<usize, RegionView>, base: usize, alloc: AllocType) -> Result<FreeAction, MemError> {
    if !m.contains_key(base) || !(alloc.has(AllocType(MEM_RELEASE)) || alloc.has(AllocType(MEM_DECOMMIT))) {
        Err(MemError::InvalidParameter)
    } else if alloc.has(AllocType(MEM_RELEASE)) {
        Ok(FreeAction::Release { base, len: m[base].0 })
    } else {
        Ok(FreeAction::Decommit { base, len: m[base].0 })
    }
}

/// Decision of `protect_region(base, protect)`: a committed region at
/// `base` gives its length and previous protection.
pub open spec fn protect_spec(m: Map<usize, RegionView>, base: usize) -> Result<(usize, PageProtect), MemError> {
    if !m.contains_key(base) || m[base].1 != RegionState::Committed {
        Err(MemError::InvalidParameter)
    } else {
        Ok((m[base].0, m[base].2))
    }
}

impl MemoryManager {
    /// Sets state and protection of the region at `base`.
    fn set_region(&mut self, base: usize, state: RegionState, protect: PageProtect)
        requires
            old(self).wf(),
            old(self).regions().contains_key(base),
        ensures
            final(self).wf(),
            final(self).page() == old(self).page(),
            final(self).regions() == old(self).regions().insert(base, (old(self).regions()[base].0, state, protect)),
    {
        let i = match self.find(base) {
            Some(i) => i,
            None => return,
        };
        let r = self.regions[i];
        proof {
            self.lemma_index(i as int);
        }
        self.finish_reserve(base, r.len, state, protect);
    }

    /// The host committed the region at `base` with `protect`.
    pub fn finish_commit(&mut self, base: usize, protect: PageProtect)
        requires
            old(self).wf(),
            old(self).regions().contains_key(base),
        ensures
            final(self).wf(),
            final(self).page() == old(self).page(),
            final(self).regions() == old(self).regions().insert(base, (old(self).regions()[base].0, RegionState::Committed, protect)),
    {
        self.set_region(base, RegionState::Committed, protect);
    }

    /// Decides `free`.
    pub fn plan_free(&self, base: usize, alloc: AllocType) -> (r: Result<FreeAction, MemError>)
        requires
            self.wf(),
        ensures
            r == free_spec(self.regions(), base, alloc),
    {
        let rel = alloc.contains(AllocType(MEM_RELEASE));
        let dec = alloc.contains(AllocType(MEM_DECOMMIT));
        if !rel && !dec {
            return Err(MemError::InvalidParameter);
        }
        match self.find(base) {
            None => Err(MemError::InvalidParameter),
            Some(i) => {
                let r = self.regions[i];
                proof {
                    self.lemma_index(i as int);
                }
                if rel {
                    Ok(FreeAction::Release { base, len: r.len })
                } else {
                    Ok(FreeAction::Decommit { base, len: r.len })
                }
            },
        }
    }

    /// The host made the region at `base` inaccessible: it is reserved
    /// again (protection kept).
    pub fn finish_decommit(&mut self, base: usize)
        requires
            old(self).wf(),
            old(self).regions().contains_key(base),
        ensures
            final(self).wf(),
            final(self).page() == old(self).page(),
            final(self).regions() == old(self).regions().insert(
                base,
                (old(self).regions()[base].0, RegionState::Reserved, old(self).regions()[base].2),
            ),
    {
        let i = match self.find(base) {
            Some(i) => i,
            None => return,
        };
        let r = self.regions[i];
        proof {
            self.lemma_index(i as int);
        }
        self.set_region(base, RegionState::Reserved, r.protect);
    }

    /// Decides `protect_region`: the region's length and old protection.
    pub fn plan_protect(&self, base: usize) -> (r: Result<(usize, PageProtect), MemError>)
        requires
            self.wf(),
        ensures
            r == protect_spec(self.regions(), base),
    {
        match self.find(base) {
            None => Err(MemError::InvalidParameter),
            Some(i) => {
                let r = self.regions[i];
                proof {
                    self.lemma_index(i as int);
                }
                if r.state != RegionState::Committed {
                    Err(MemError::InvalidParameter)
                } else {
                    Ok((r.len, r.protect))
                }
            },
        }
    }

    /// The host changed the protection of the region at `base`.
    pub fn finish_protect(&mut self, base: usize, protect: PageProtect)
        requires
            old(self).wf(),
            old(self).regions().contains_key(base),
        ensures
            final(self).wf(),
            final(self).page() == old(self).page(),
            final(self).regions() == old(self).regions().insert(
                base,
                (old(self).regions()[base].0, old(self).regions()[base].1, protect),
            ),
    {
        let i = match self.find(base) {
            Some(i) => i,
            None => return,
        };
        let r = self.regions[i];
        proof {
            self.lemma_index(i as int);
        }
        self.set_region(base, r.state, protect);
    }

    /// Tracks an external mapping (e.g. a mapped PE image) as committed.
    pub fn track_external(&mut self, base: usize, len: usize, protect: PageProtect)
        requires
            old(self).wf(),
            base as nat + len as nat <= usize::MAX,
        ensures
            final(self).wf(),
            final(self).page() == old(self).page(),
            final(self).regions() == old(self).regions().insert(base, (len, RegionState::Committed, protect)),
    {
        self.finish_reserve(base, len, RegionState::Committed, protect);
    }

    /// Stops tracking the region at `base` (no-op when there is none).
    pub fn untrack(&mut self, base: usize)
        requires
            old(self).wf(),
        ensures
            final(self).wf(),
            final(self).page() == old(self).page(),
            final(self).regions() == old(self).regions().remove(base),
    {
        let ghost m0 = self.regions();
        match self.find(base) {
            None => {
                assert(m0.remove(base) =~= m0);
            },
            Some(i) => {
                let ghost old_regs = self.regions@;
                self.regions.remove(i);
                proof {
                    assert forall|a: int, b: int| 0 <= a < b < self.regions@.len() implies self.regions@[a].base != self.regions@[b].base by {
                        let a2 = if a < i { a } else { a + 1 };
                        let b2 = if b < i { b } else { b + 1 };
                        assert(self.regions@[a] == old_regs[a2]);
                        assert(self.regions@[b] == old_regs[b2]);
                    }
                    assert forall|k: int| 0 <= k < self.regions@.len() implies #[trigger] self.regions@[k].base + self.regions@[k].len <= usize::MAX by {
                        let k2 = if k < i { k } else { k + 1 };
                        assert(self.regions@[k] == old_regs[k2]);
                    }
                    assert forall|b: usize| #[trigger] self.regions().contains_key(b) == m0.remove(base).contains_key(b) by {
                        if m0.contains_key(b) && b != base {
                            let j = choose|j: int| 0 <= j < old_regs.len() && old_regs[j].base == b;
                            assert(j != i);
                            let j2 = if j < i { j } else { j - 1 };
                            assert(self.regions@[j2] == old_regs[j]);
                        }
                        if self.regions().contains_key(b) {
                            let j = choose|j: int| 0 <= j < self.regions@.len() && self.regions@[j].base == b;
                            let j2 = if j < i { j } else { j + 1 };
                            assert(self.regions@[j] == old_regs[j2]);
                            assert(j2 != i);
                        }
                    }
                    assert forall|b: usize| #[trigger] self.regions().contains_key(b) implies self.regions()[b] == m0[b] by {
                        let j = choose|j: int| 0 <= j < self.regions@.len() && self.regions@[j].base == b;
                        self.lemma_index(j);
                        let j2 = if j < i { j } else { j + 1 };
                        assert(self.regions@[j] == old_regs[j2]);
                        old(self).lemma_index(j2);
                    }
                    assert(self.regions() =~= m0.remove(base));
                }
            },
        }
    }

    /// A region is tracked at `base`.
    pub fn has_region(&self, base: usize) -> (r: bool)
        requires
            self.wf(),
        ensures
            r == self.regions().contains_key(base),
    {
        match self.find(base) {
            Some(i) => {
                proof {
                    self.lemma_index(i as int);
                }
                true
            },
            None => false,
        }
    }

    /// The tracked region containing `addr`, as `(base, len, state,
    /// protect)`.
    pub fn region_at(&self, addr: usize) -> (r: Option<(usize, usize, RegionState, PageProtect)>)
        requires
            self.wf(),
        ensures
            match r {
                Some((b, l, st, p)) => self.regions().contains_key(b) && self.regions()[b] == (l, st, p) && b <= addr
                    && addr < b + l,
                None => forall|b: usize|
                    #[trigger] self.regions().contains_key(b) ==> !(b <= addr && addr < b + self.regions()[b].0),
            },
    {
        let mut i: usize = 0;
        while i < self.regions.len()
            invariant
                self.wf(),
                i <= self.regions@.len(),
                forall|j: int|
                    0 <= j < i ==> !(#[trigger] self.regions@[j].base <= addr && addr < self.regions@[j].base
                        + self.regions@[j].len),
            decreases self.regions@.len() - i,
        {
            let r = self.regions[i];
            proof {
                self.lemma_index(i as int);
            }
            if r.base <= addr && addr - r.base < r.len {
                return Some((r.base, r.len, r.state, r.protect));
            }
            i += 1;
        }
        proof {
            assert forall|b: usize| #[trigger] self.regions().contains_key(b) implies !(b <= addr && addr < b + self.regions()[b].0) by {
                let j = choose|j: int| 0 <= j < self.regions@.len() && self.regions@[j].base == b;
                self.lemma_index(j);
            }
        }
        None
    }


    /// Number of tracked regions.
    pub fn region_count(&self) -> (n: usize)
        requires
            self.wf(),
        ensures
            n == self.regions().len(),
    {
        proof {
            self.lemma_len();
        }
        self.regions.len()
    }

    proof fn lemma_len(&self)
        requires
            self.wf(),
        ensures
            self.regions().len() == self.regions@.len(),
            self.regions().dom().finite(),
    {
        let bases = self.regions@.map_values(|r: Region| r.base);
        assert(bases.no_duplicates()) by {
            assert forall|a: int, b: int| 0 <= a < bases.len() && 0 <= b < bases.len() && a != b implies bases[a] != bases[b] by {
                if a < b {} else {}
            }
        }
        bases.unique_seq_to_set();
        assert(self.regions().dom() =~= bases.to_set()) by {
            assert forall|b: usize| self.regions().dom().contains(b) <==> bases.to_set().contains(b) by {
                if self.regions().dom().contains(b) {
                    let j = choose|j: int| 0 <= j < self.regions@.len() && self.regions@[j].base == b;
                    assert(bases[j] == b);
                }
                if bases.to_set().contains(b) {
                    let j = choose|j: int| 0 <= j < bases.len() && bases[j] == b;
                }
            }
        }
    }

    /// `(base, len, state)` of every tracked region.
    pub fn debug_regions(&self) -> (v: Vec<(usize, usize, RegionState)>)
        requires
            self.wf(),
        ensures
            v@.len() == self.regions().len(),
            forall|i: int| 0 <= i < v@.len() ==> {
                &&& self.regions().contains_key(#[trigger] v@[i].0)
                &&& self.regions()[v@[i].0].0 == v@[i].1
                &&& self.regions()[v@[i].0].1 == v@[i].2
            },
            forall|i: int, j: int| 0 <= i < j < v@.len() ==> v@[i].0 != v@[j].0,
    {
        let mut v: Vec<(usize, usize, RegionState)> = Vec::new();
        let mut i: usize = 0;
        while i < self.regions.len()
            invariant
                self.wf(),
                i <= self.regions@.len(),
                v@.len() == i,
                forall|k: int| 0 <= k < i ==> #[trigger] v@[k] == (self.regions@[k].base, self.regions@[k].len, self.regions@[k].state),
            decreases self.regions@.len() - i,
        {
            let r = self.regions[i];
            v.push((r.base, r.len, r.state));
            i += 1;
        }
        proof {
            self.lemma_len();
            assert forall|k: int| 0 <= k < v@.len() implies {
                &&& self.regions().contains_key(#[trigger] v@[k].0)
                &&& self.regions()[v@[k].0].0 == v@[k].1
                &&& self.regions()[v@[k].0].1 == v@[k].2
            } by {
                self.lemma_index(k);
            }
        }
        v
    }
}

/// A region recorded by `finish_reserve` at an untracked base is gone
/// again after `untrack`: reserve then release leaves the manager's
/// regions as they were.
pub proof fn lemma_reserve_release(m: Map<usize, RegionView>, base: usize, r: RegionView)
    requires
        !m.contains_key(base),
    ensures
        m.insert(base, r).remove(base) == m,
{
    assert(m.insert(base, r).remove(base) =~= m);
}

} // verus!
