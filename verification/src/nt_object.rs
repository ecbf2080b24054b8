//! NT object manager: kernel objects and the generational handle table.
//!
//! Handle encoding: `handle = (generation << 32) | index`, with `index >= 4`
//! and a multiple of 4 (like real user-mode handles). Generation 0 means
//! never allocated; each reuse of a slot changes its generation, so a stale
//! handle never silently resurrects.
use vstd::prelude::*;
use crate::abi::{NtStatus, WindowsHandle, STATUS_INVALID_HANDLE};
use crate::text::owned;

verus! {

/// NT object type.
#[derive(Debug, Clone, Copy, PartialEq, Eq, Structural)]
pub enum ObjectType {
    File,
    Event,
    Mutex,
    Semaphore,
    Process,
    Thread,
    Section,
    Timer,
    RegistryKey,
    Token,
}

pub open spec fn object_type_name(t: ObjectType) -> Seq<char> {
    match t {
        ObjectType::File => "File"@,
        ObjectType::Event => "Event"@,
        ObjectType::Mutex => "Mutant"@,
        ObjectType::Semaphore => "Semaphore"@,
        ObjectType::Process => "Process"@,
        ObjectType::Thread => "Thread"@,
        ObjectType::Section => "Section"@,
        ObjectType::Timer => "Timer"@,
        ObjectType::RegistryKey => "Key"@,
        ObjectType::Token => "Token"@,
    }
}

impl ObjectType {
    /// Object-manager type name (`Mutex` is `Mutant`, `RegistryKey` is `Key`).
    pub fn name(self) -> (r: &'static str)
        ensures
            r@ == object_type_name(self),
    {
        match self {
            ObjectType::File => "File",
            ObjectType::Event => "Event",
            ObjectType::Mutex => "Mutant",
            ObjectType::Semaphore => "Semaphore",
            ObjectType::Process => "Process",
            ObjectType::Thread => "Thread",
            ObjectType::Section => "Section",
            ObjectType::Timer => "Timer",
            ObjectType::RegistryKey => "Key",
            ObjectType::Token => "Token",
        }
    }
}

/// A host file behind a `File` object.
#[derive(Debug, Clone, PartialEq, Eq)]
pub struct FileObject {
    /// Underlying Linux fd (1/2 for the console).
    pub fd: i32,
    pub path: String,
    pub writable: bool,
    /// Reading allowed (GENERIC_READ or access 0); console out/err: false.
    pub readable: bool,
    /// The runtime owns the fd and must close it (created files); false for
    /// the host's console fds.
    pub owns_fd: bool,
}

/// Per-type payload.
#[derive(Debug, Clone, PartialEq, Eq)]
pub enum ObjectPayload {
    File(FileObject),
}

/// Kernel object: type, optional name, access rights and payload.
#[derive(Debug, Clone, PartialEq, Eq)]
pub struct KernelObject {
    pub typ: ObjectType,
    pub name: Option<String>,
    pub rights: u32,
    pub payload: ObjectPayload,
}

impl KernelObject {
    pub fn type_label(&self) -> (r: &'static str)
        ensures
            r@ == object_type_name(self.typ),
    {
        self.typ.name()
    }
}

/// Value of the handle for `(index, generation)`.
pub open spec fn handle_value(index: u32, generation: u32) -> u64 {
    (generation as nat * 0x1_0000_0000 + index as nat) as u64
}

/// `(index, generation)` of a well-formed handle value.
pub open spec fn decode_spec(h: u64) -> Option<(u32, u32)> {
    let index = (h % 0x1_0000_0000) as u32;
    let generation = (h / 0x1_0000_0000) as u32;
    if h == 0 || h == 0xFFFF_FFFF_FFFF_FFFF || index % 4 != 0 || index < 4 || generation == 0 {
        None
    } else {
        Some((index, generation))
    }
}

/// Generation of a reused slot: one more, wrapping past `u32::MAX` to 1.
pub open spec fn next_generation(g: u32) -> u32 {
    if g == u32::MAX { 1 } else { (g + 1) as u32 }
}

/// Table slot of a handle index.
pub open spec fn slot_of(index: u32) -> int {
    index / 4 - 1
}

/// Largest slot count whose handle indices still fit in 32 bits.
pub const MAX_SLOTS: usize = 0x3FFF_FFFE;

/// Table entry: generation plus the object while the handle is live.
#[derive(Debug)]
pub struct Entry {
    pub generation: u32,
    pub object: Option<KernelObject>,
}

/// Generational handle table.
#[derive(Debug)]
pub struct HandleTable {
    entries: Vec<Entry>,
    free: Vec<u32>,
}

impl HandleTable {
    pub closed spec fn slots(&self) -> Seq<(u32, Option<KernelObject>)> {
        self.entries@.map_values(|e: Entry| (e.generation, e.object))
    }

    pub closed spec fn free_list(&self) -> Seq<u32> {
        self.free@
    }

    /// Internal invariant: every slot has a non-zero generation; the free
    /// list holds, without repetition, the indices of empty slots only.
    pub closed spec fn wf(&self) -> bool {
        &&& self.entries@.len() <= MAX_SLOTS
        &&& forall|s: int| 0 <= s < self.entries@.len() ==> #[trigger] self.entries@[s].generation >= 1
        &&& forall|k: int| 0 <= k < self.free@.len() ==> {
            let i = #[trigger] self.free@[k];
            &&& i % 4 == 0
            &&& i >= 4
            &&& 0 <= slot_of(i) < self.entries@.len()
            &&& self.entries@[slot_of(i)].object is None
        }
        &&& self.free@.no_duplicates()
    }

    /// Current generation of slot `s`.
    pub closed spec fn generation_at(&self, s: int) -> u32 {
        self.entries@[s].generation
    }

    pub closed spec fn slot_count(&self) -> nat {
        self.entries@.len()
    }

    /// Object designated by handle value `h`, if the handle is live.
    pub closed spec fn lookup_spec(&self, h: u64) -> Option<KernelObject> {
        match decode_spec(h) {
            Some((index, generation)) => {
                let s = slot_of(index);
                if 0 <= s < self.entries@.len() && self.entries@[s].generation == generation {
                    self.entries@[s].object
                } else {
                    None
                }
            },
            None => None,
        }
    }

    /// `h` names a slot at its current generation but the slot is empty:
    /// a handle that was closed and whose slot has not been reused.
    pub closed spec fn is_stale(&self, h: u64) -> bool {
        match decode_spec(h) {
            Some((index, generation)) => {
                let s = slot_of(index);
                &&& 0 <= s < self.entries@.len()
                &&& self.entries@[s].generation == generation
                &&& self.entries@[s].object is None
            },
            None => false,
        }
    }

    /// Room for one more handle (a free slot, or a new one that still fits).
    pub closed spec fn can_insert(&self) -> bool {
        self.free@.len() > 0 || self.entries@.len() < MAX_SLOTS
    }

    /// A handle is live only at its slot's current generation: a handle
    /// that is found decodes to an index of an existing slot whose
    /// generation is the handle's; so after a slot is reused (its
    /// generation moved on), the older handle is not found. A closed handle
    /// whose slot was not reused is not found either; `0`, the all-ones
    /// value and misaligned indices never are.
    pub proof fn law_lookup_generation(&self, h: u64)
        ensures
            self.lookup_spec(h) is Some ==> (decode_spec(h) matches Some((i, g)) && 0 <= slot_of(i) < self.slot_count()
                && self.generation_at(slot_of(i)) == g),
            self.is_stale(h) ==> self.lookup_spec(h) is None,
            self.lookup_spec(0) is None,
            self.lookup_spec(0xFFFF_FFFF_FFFF_FFFF) is None,
            h % 0x1_0000_0000 % 4 != 0 ==> self.lookup_spec(h) is None,
    {
    }

    /// A table below the slot limit always has room.
    pub proof fn lemma_room(&self)
        ensures
            self.slot_count() < MAX_SLOTS ==> self.can_insert(),
    {
    }

    pub fn new() -> (t: HandleTable)
        ensures
            t.wf(),
            t.can_insert(),
            t.slot_count() == 0,
            forall|h: u64| t.lookup_spec(h) is None,
    {
        HandleTable { entries: Vec::new(), free: Vec::new() }
    }

    pub fn encode(index: u32, generation: u32) -> (h: WindowsHandle)
        ensures
            h.0 == handle_value(index, generation),
    {
        let g = generation as u64;
        let i = index as u64;
        let h = (g << 32u64) | i;
        assert(h == g * 0x1_0000_0000 + i) by (bit_vector)
            requires
                g < 0x1_0000_0000,
                i < 0x1_0000_0000,
                h == (g << 32u64) | i,
        ;
        WindowsHandle(h)
    }

    pub fn decode(handle: WindowsHandle) -> (r: Option<(u32, u32)>)
        ensures
            r == decode_spec(handle.0),
    {
        let h = handle.0;
        if h == 0 || h == 0xFFFF_FFFF_FFFF_FFFFu64 {
            return None;
        }
        let lo = h & 0xFFFF_FFFFu64;
        let hi = h >> 32u64;
        assert(lo == h % 0x1_0000_0000 && hi == h / 0x1_0000_0000) by (bit_vector)
            requires
                lo == h & 0xFFFF_FFFFu64,
                hi == h >> 32u64,
        ;
        let index = lo as u32;
        let generation = hi as u32;
        if index % 4 != 0 || index < 4 || generation == 0 {
            return None;
        }
        Some((index, generation))
    }

    pub proof fn lemma_decode_encode(index: u32, generation: u32)
        requires
            index % 4 == 0,
            index >= 4,
            generation >= 1,
        ensures
            decode_spec(handle_value(index, generation)) == Some((index, generation)),
    {
        let h = handle_value(index, generation);
        assert(h as nat == generation as nat * 0x1_0000_0000 + index as nat);
        assert(h % 0x1_0000_0000 == index as nat) by (nonlinear_arith)
            requires
                h as nat == generation as nat * 0x1_0000_0000 + index as nat,
                index < 0x1_0000_0000,
        ;
        assert(h / 0x1_0000_0000 == generation as nat) by (nonlinear_arith)
            requires
                h as nat == generation as nat * 0x1_0000_0000 + index as nat,
                index < 0x1_0000_0000,
        ;
    }

    /// Registers `object`; returns a fresh live handle for it.
    pub fn insert(&mut self, object: KernelObject) -> (h: WindowsHandle)
        requires
            old(self).wf(),
            old(self).can_insert(),
        ensures
            final(self).wf(),
            old(self).lookup_spec(h.0) is None,
            final(self).lookup_spec(h.0) == Some(object),
            forall|h2: u64| h2 != h.0 ==> final(self).lookup_spec(h2) == old(self).lookup_spec(h2),
            forall|h2: u64| old(self).is_stale(h2) ==> h2 != h.0,
            decode_spec(h.0) is Some,
            final(self).free_list().len() < old(self).free_list().len() ==> final(self).slot_count() == old(self).slot_count(),
            final(self).free_list().len() >= old(self).free_list().len() ==> final(self).slot_count() == old(self).slot_count() + 1,
            final(self).free_list().len() + 1 == old(self).free_list().len() || final(self).free_list().len() == old(self).free_list().len(),
            final(self).slot_count() >= old(self).slot_count(),
            old(self).free_list().len() > 0 ==> {
                let index = old(self).free_list().last();
                let g0 = old(self).generation_at(slot_of(index));
                &&& h.0 == handle_value(index, next_generation(g0))
                &&& final(self).free_list() == old(self).free_list().drop_last()
                &&& final(self).slot_count() == old(self).slot_count()
            },
            old(self).free_list().len() == 0 ==> {
                &&& h.0 == handle_value(((old(self).slot_count() + 1) * 4) as u32, 1)
                &&& final(self).free_list() == old(self).free_list()
                &&& final(self).slot_count() == old(self).slot_count() + 1
            },
            forall|s: int| 0 <= s < old(self).slot_count() && s != slot_of((decode_spec(h.0)->0).0)
                ==> final(self).generation_at(s) == old(self).generation_at(s),
            ({
                let (i, g) = decode_spec(h.0)->0;
                &&& 0 <= slot_of(i) < final(self).slot_count()
                &&& final(self).generation_at(slot_of(i)) == g
                &&& slot_of(i) < old(self).slot_count() && old(self).generation_at(slot_of(i)) < u32::MAX
                    ==> g == old(self).generation_at(slot_of(i)) + 1
                &&& slot_of(i) >= old(self).slot_count() ==> g == 1 && slot_of(i) == old(self).slot_count()
                &&& final(self).slot_count() == old(self).slot_count() || (final(self).slot_count() == old(self).slot_count()
                    + 1 && slot_of(i) == old(self).slot_count())
            }),
    {
        if let Some(index) = self.free.pop() {
            let ghost k = self.free@.len();
            assert(old(self).free@[k as int] == index);
            let slot = (index / 4 - 1) as usize;
            let ghost old_gen = self.entries@[slot as int].generation;
            let g0 = self.entries[slot].generation;
            let mut g = g0.wrapping_add(1);
            if g < 1 {
                g = 1;
            }
            assert(g != g0);
            let ghost old_entries = self.entries@;
            self.entries.set(slot, Entry { generation: g, object: Some(object) });
            proof {
                Self::lemma_decode_encode(index, g);
                assert forall|k2: int| 0 <= k2 < self.free@.len() implies slot_of(#[trigger] self.free@[k2]) != slot as int by {
                    assert(old(self).free@[k2] == self.free@[k2]);
                    assert(old(self).free@[k2] != old(self).free@[k as int]);
                    assert(self.free@[k2] % 4 == 0 && index % 4 == 0);
                }
                assert forall|h2: u64| h2 != handle_value(index, g) implies self.lookup_spec(h2) == old(self).lookup_spec(h2) by {
                    match decode_spec(h2) {
                        Some((i2, g2)) => {
                            if slot_of(i2) == slot as int {
                                assert(i2 == index);
                                assert(g2 != g);
                            }
                        },
                        None => {},
                    }
                }
                assert forall|h2: u64| old(self).is_stale(h2) implies h2 != handle_value(index, g) by {
                    match decode_spec(h2) {
                        Some((i2, g2)) => {},
                        None => {},
                    }
                }
            }
            Self::encode(index, g)
        } else {
            let slot = self.entries.len() as u32;
            let index = (slot + 1) * 4;
            self.entries.push(Entry { generation: 1, object: Some(object) });
            proof {
                Self::lemma_decode_encode(index, 1);
                assert forall|h2: u64| h2 != handle_value(index, 1) implies self.lookup_spec(h2) == old(self).lookup_spec(h2) by {
                    match decode_spec(h2) {
                        Some((i2, g2)) => {
                            if slot_of(i2) == slot as int {
                                assert(i2 == index);
                            }
                        },
                        None => {},
                    }
                }
                assert forall|k2: int| 0 <= k2 < self.free@.len() implies {
                    let i = #[trigger] self.free@[k2];
                    0 <= slot_of(i) < self.entries@.len() && self.entries@[slot_of(i)].object is None
                } by {
                    assert(false);
                }
            }
            Self::encode(index, 1)
        }
    }

    /// The object of a live handle; `INVALID_HANDLE` otherwise.
    pub fn lookup(&self, handle: WindowsHandle) -> (r: Result<&KernelObject, NtStatus>)
        requires
            self.wf(),
        ensures
            match self.lookup_spec(handle.0) {
                Some(o) => r == Ok::<&KernelObject, NtStatus>(&o),
                None => r == Err::<&KernelObject, NtStatus>(NtStatus(STATUS_INVALID_HANDLE)),
            },
    {
        let (index, generation) = match Self::decode(handle) {
            Some(p) => p,
            None => return Err(NtStatus(STATUS_INVALID_HANDLE)),
        };
        let slot = (index / 4 - 1) as usize;
        if slot >= self.entries.len() {
            return Err(NtStatus(STATUS_INVALID_HANDLE));
        }
        let e = &self.entries[slot];
        match &e.object {
            Some(o) => {
                if e.generation == generation {
                    Ok(o)
                } else {
                    Err(NtStatus(STATUS_INVALID_HANDLE))
                }
            },
            None => Err(NtStatus(STATUS_INVALID_HANDLE)),
        }
    }

    /// Closes a live handle (its slot becomes reusable);
    /// `INVALID_HANDLE` and no change otherwise.
    pub fn close(&mut self, handle: WindowsHandle) -> (r: Result<(), NtStatus>)
        requires
            old(self).wf(),
        ensures
            final(self).wf(),
            old(self).lookup_spec(handle.0) is Some ==> {
                &&& r is Ok
                &&& final(self).lookup_spec(handle.0) is None
                &&& final(self).is_stale(handle.0)
                &&& forall|h2: u64| h2 != handle.0 ==> final(self).lookup_spec(h2) == old(self).lookup_spec(h2)
                &&& final(self).can_insert()
                &&& final(self).slot_count() == old(self).slot_count()
                &&& final(self).free_list() == old(self).free_list().push((decode_spec(handle.0)->0).0)
                &&& forall|s: int| 0 <= s < old(self).slot_count() ==> final(self).generation_at(s) == old(self).generation_at(s)
            },
            old(self).lookup_spec(handle.0) is None ==> {
                &&& r == Err::<(), NtStatus>(NtStatus(STATUS_INVALID_HANDLE))
                &&& final(self).slots() == old(self).slots()
                &&& final(self).free_list() == old(self).free_list()
                &&& forall|h2: u64| final(self).lookup_spec(h2) == old(self).lookup_spec(h2)
            },
            final(self).slot_count() == old(self).slot_count(),
            forall|s: int| 0 <= s < old(self).slot_count() ==> final(self).generation_at(s) == old(self).generation_at(s),
    {
        let (index, generation) = match Self::decode(handle) {
            Some(p) => p,
            None => return Err(NtStatus(STATUS_INVALID_HANDLE)),
        };
        let slot = (index / 4 - 1) as usize;
        if slot >= self.entries.len() {
            return Err(NtStatus(STATUS_INVALID_HANDLE));
        }
        let live = match &self.entries[slot].object {
            Some(_) => self.entries[slot].generation == generation,
            None => false,
        };
        if !live {
            return Err(NtStatus(STATUS_INVALID_HANDLE));
        }
        let g = self.entries[slot].generation;
        self.entries.set(slot, Entry { generation: g, object: None });
        proof {
            assert(!self.free@.contains(index)) by {
                if self.free@.contains(index) {
                    let k = choose|k: int| 0 <= k < self.free@.len() && self.free@[k] == index;
                    assert(old(self).entries@[slot_of(old(self).free@[k])].object is None);
                }
            }
        }
        self.free.push(index);
        proof {
            assert forall|h2: u64| h2 != handle.0 implies self.lookup_spec(h2) == old(self).lookup_spec(h2) by {
                match decode_spec(h2) {
                    Some((i2, g2)) => {
                        if slot_of(i2) == slot as int {
                            assert(i2 == index);
                            assert(g2 != generation || h2 == handle.0) by {
                                if g2 == generation {
                                    assert(h2 % 0x1_0000_0000 == handle.0 % 0x1_0000_0000);
                                    assert(h2 / 0x1_0000_0000 == handle.0 / 0x1_0000_0000);
                                    assert(h2 == handle.0) by (nonlinear_arith)
                                        requires
                                            h2 % 0x1_0000_0000 == handle.0 % 0x1_0000_0000,
                                            h2 / 0x1_0000_0000 == handle.0 / 0x1_0000_0000,
                                    ;
                                }
                            }
                        }
                    },
                    None => {},
                }
            }
        }
        Ok(())
    }
}

/// Console object for host fd `fd` at `path` (write-only, fd not owned).
pub open spec fn console_object(fd: i32, path: Seq<char>, o: KernelObject) -> bool {
    &&& o.typ == ObjectType::File
    &&& o.name is None
    &&& o.rights == 0x120089
    &&& match o.payload {
        ObjectPayload::File(f) => f.fd == fd && f.path@ == path && f.writable && !f.readable && !f.owns_fd,
    }
}

fn console(fd: i32, path: &str) -> (o: KernelObject)
    ensures
        console_object(fd, path@, o),
{
    KernelObject {
        typ: ObjectType::File,
        name: None,
        rights: 0x120089,
        payload: ObjectPayload::File(FileObject { fd, path: owned(path), writable: true, readable: false, owns_fd: false }),
    }
}

impl HandleTable {
    /// Registers the console: stdout (fd 1) and stderr (fd 2) as
    /// write-only `File` objects; returns their two fresh handles.
    pub fn init_console(&mut self) -> (r: (WindowsHandle, WindowsHandle))
        requires
            old(self).wf(),
            old(self).slot_count() + 2 <= MAX_SLOTS,
        ensures
            final(self).wf(),
            r.0 != r.1,
            old(self).lookup_spec(r.0.0) is None,
            old(self).lookup_spec(r.1.0) is None,
            final(self).lookup_spec(r.0.0) matches Some(o) && console_object(1, "\\Device\\Console\\Stdout"@, o),
            final(self).lookup_spec(r.1.0) matches Some(o) && console_object(2, "\\Device\\Console\\Stderr"@, o),
            forall|h: u64| h != r.0.0 && h != r.1.0 ==> final(self).lookup_spec(h) == old(self).lookup_spec(h),
    {
        let out = console(1, "\\Device\\Console\\Stdout");
        let err = console(2, "\\Device\\Console\\Stderr");
        proof {
            self.lemma_room();
        }
        let h1 = self.insert(out);
        proof {
            self.lemma_room();
        }
        let ghost mid = *self;
        let h2 = self.insert(err);
        (h1, h2)
    }
}

} // verus!
