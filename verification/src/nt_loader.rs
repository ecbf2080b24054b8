//! Image fix-ups over an already mapped image, held as its bytes: base
//! relocations and import address table patching. Every write is range
//! checked against the image size first, so a bad table becomes an error.
use vstd::prelude::*;
use crate::abi::NtStatus;
use crate::text::{chars_of, concat, decimal, extend_chars, owned, string_of, u64_decimal};

verus! {

/// One base-relocation entry: type and offset within its page.
#[derive(Debug, Clone, Copy)]
pub struct RelocEntry {
    pub typ: u16,
    pub offset: u16,
}

/// One base-relocation block.
#[derive(Debug, Clone)]
pub struct RelocBlock {
    pub page_rva: u32,
    pub entries: Vec<RelocEntry>,
}

/// One imported symbol and the RVA of its IAT slot.
#[derive(Debug, Clone)]
pub struct ImportSymbol {
    pub dll: String,
    pub name: Option<String>,
    pub ordinal: Option<u16>,
    pub iat_rva: u32,
}

/// Why a fix-up failed.
#[derive(Debug, Clone)]
pub enum LoaderError {
    /// The image itself could not be parsed.
    Pe(String),
    /// A relocation type this loader does not apply.
    BadReloc { typ: u16, rva: u32 },
    /// An import the resolver could not find.
    Unresolved { dll: String, name: String },
    /// A write that would leave the image.
    RelocRange(u32),
    Status(NtStatus),
}

/// A fix-up error as plain values.
pub enum LoaderFault {
    Pe(Seq<char>),
    BadReloc(u16, u32),
    Unresolved(Seq<char>, Seq<char>),
    RelocRange(u32),
    Status(NtStatus),
}

pub open spec fn fault_of(e: LoaderError) -> LoaderFault {
    match e {
        LoaderError::Pe(m) => LoaderFault::Pe(m@),
        LoaderError::BadReloc { typ, rva } => LoaderFault::BadReloc(typ, rva),
        LoaderError::Unresolved { dll, name } => LoaderFault::Unresolved(dll@, name@),
        LoaderError::RelocRange(r) => LoaderFault::RelocRange(r),
        LoaderError::Status(s) => LoaderFault::Status(s),
    }
}

impl LoaderError {
    /// The NT status a failed fix-up reports.
    pub fn status(&self) -> (s: NtStatus)
        ensures
            s == match fault_of(*self) {
                LoaderFault::Unresolved(_, _) => NtStatus(crate::abi::STATUS_OBJECT_NAME_NOT_FOUND),
                LoaderFault::Status(st) => st,
                _ => NtStatus(crate::abi::STATUS_UNSUCCESSFUL),
            },
    {
        match self {
            LoaderError::Unresolved { .. } => NtStatus::object_name_not_found(),
            LoaderError::Status(s) => *s,
            _ => NtStatus::unsuccessful(),
        }
    }
}

/// The little-endian `u64` at offset `o` of `b`.
pub open spec fn le64(b: Seq<u8>, o: int) -> u64 {
    (b[o] as u64) | ((b[o + 1] as u64) << 8u64) | ((b[o + 2] as u64) << 16u64) | ((b[o + 3] as u64) << 24u64)
        | ((b[o + 4] as u64) << 32u64) | ((b[o + 5] as u64) << 40u64) | ((b[o + 6] as u64) << 48u64) | ((b[o
        + 7] as u64) << 56u64)
}

/// `b` with the little-endian bytes of `v` at offset `o`.
pub open spec fn put64(b: Seq<u8>, o: int, v: u64) -> Seq<u8> {
    b.update(o, (v & 0xff) as u8).update(o + 1, ((v >> 8u64) & 0xff) as u8).update(o + 2, ((v >> 16u64) & 0xff) as u8).update(
        o + 3,
        ((v >> 24u64) & 0xff) as u8,
    ).update(o + 4, ((v >> 32u64) & 0xff) as u8).update(o + 5, ((v >> 40u64) & 0xff) as u8).update(
        o + 6,
        ((v >> 48u64) & 0xff) as u8,
    ).update(o + 7, ((v >> 56u64) & 0xff) as u8)
}

fn read_le64(b: &Vec<u8>, o: usize) -> (v: u64)
    requires
        o + 8 <= b@.len(),
    ensures
        v == le64(b@, o as int),
{
    let _n = b.len();
    (b[o] as u64) | ((b[o + 1] as u64) << 8u64) | ((b[o + 2] as u64) << 16u64) | ((b[o + 3] as u64) << 24u64)
        | ((b[o + 4] as u64) << 32u64) | ((b[o + 5] as u64) << 40u64) | ((b[o + 6] as u64) << 48u64) | ((b[o
        + 7] as u64) << 56u64)
}

fn write_le64(b: &mut Vec<u8>, o: usize, v: u64)
    requires
        o + 8 <= old(b)@.len(),
    ensures
        final(b)@ == put64(old(b)@, o as int, v),
{
    let _n = b.len();
    b.set(o, (v & 0xff) as u8);
    b.set(o + 1, ((v >> 8u64) & 0xff) as u8);
    b.set(o + 2, ((v >> 16u64) & 0xff) as u8);
    b.set(o + 3, ((v >> 24u64) & 0xff) as u8);
    b.set(o + 4, ((v >> 32u64) & 0xff) as u8);
    b.set(o + 5, ((v >> 40u64) & 0xff) as u8);
    b.set(o + 6, ((v >> 48u64) & 0xff) as u8);
    b.set(o + 7, ((v >> 56u64) & 0xff) as u8);
}


/// Reading back the `u64` just written at an offset gives the value
/// written, and the bytes outside the eight written ones are unchanged.
pub proof fn lemma_put64_le64(b: Seq<u8>, o: int, v: u64)
    requires
        0 <= o,
        o + 8 <= b.len(),
    ensures
        le64(put64(b, o, v), o) == v,
        put64(b, o, v).len() == b.len(),
        forall|i: int| 0 <= i < b.len() && (i < o || i >= o + 8) ==> #[trigger] put64(b, o, v)[i] == b[i],
{
    let p = put64(b, o, v);
    assert(p[o] == (v & 0xff) as u8);
    assert(p[o + 1] == ((v >> 8u64) & 0xff) as u8);
    assert(p[o + 2] == ((v >> 16u64) & 0xff) as u8);
    assert(p[o + 3] == ((v >> 24u64) & 0xff) as u8);
    assert(p[o + 4] == ((v >> 32u64) & 0xff) as u8);
    assert(p[o + 5] == ((v >> 40u64) & 0xff) as u8);
    assert(p[o + 6] == ((v >> 48u64) & 0xff) as u8);
    assert(p[o + 7] == ((v >> 56u64) & 0xff) as u8);
    assert((((v & 0xff) as u8) as u64) | (((((v >> 8u64) & 0xff) as u8) as u64) << 8u64) | (((((v >> 16u64) & 0xff) as u8) as u64) << 16u64)
        | (((((v >> 24u64) & 0xff) as u8) as u64) << 24u64) | (((((v >> 32u64) & 0xff) as u8) as u64) << 32u64)
        | (((((v >> 40u64) & 0xff) as u8) as u64) << 40u64) | (((((v >> 48u64) & 0xff) as u8) as u64) << 48u64)
        | (((((v >> 56u64) & 0xff) as u8) as u64) << 56u64) == v) by (bit_vector);
}

/// The entries of a block as `(rva, type)`.
pub open spec fn block_entries(b: RelocBlock) -> Seq<(u32, u16)> {
    b.entries@.map_values(|e: RelocEntry| (b.page_rva.wrapping_add(e.offset as u32), e.typ))
}

/// All relocation entries, block by block.
pub open spec fn flat_relocs(blocks: Seq<RelocBlock>) -> Seq<(u32, u16)>
    decreases blocks.len(),
{
    if blocks.len() == 0 {
        seq![]
    } else {
        flat_relocs(blocks.drop_last()) + block_entries(blocks.last())
    }
}

/// One relocation applied to `img` with displacement `delta`: the new
/// bytes and whether it counts as applied, or the fault.
pub open spec fn reloc_step(img: Seq<u8>, delta: u64, e: (u32, u16)) -> Result<(Seq<u8>, bool), LoaderFault> {
    let (rva, typ) = e;
    if rva as int + 8 > img.len() {
        Err(LoaderFault::RelocRange(rva))
    } else if typ == 0 {
        Ok((img, false))
    } else if typ == 1 {
        Ok((put64(img, rva as int, le64(img, rva as int).wrapping_add(delta)), true))
    } else if typ == 3 || typ == 4 {
        Ok((img, true))
    } else {
        Err(LoaderFault::BadReloc(typ, rva))
    }
}

/// The image, the applied count and the first fault after the first `k`
/// entries (nothing is done after a fault).
pub open spec fn relocs_run(img: Seq<u8>, delta: u64, fl: Seq<(u32, u16)>, k: int) -> (Seq<u8>, nat, Option<LoaderFault>)
    decreases k,
{
    if k <= 0 {
        (img, 0, None)
    } else {
        let (m, n, f) = relocs_run(img, delta, fl, k - 1);
        if f is Some {
            (m, n, f)
        } else {
            match reloc_step(m, delta, fl[k - 1]) {
                Ok((m2, counted)) => (m2, if counted { n + 1 } else { n }, None),
                Err(fault) => (m, n, Some(fault)),
            }
        }
    }
}

proof fn lemma_relocs_run_len(img: Seq<u8>, delta: u64, fl: Seq<(u32, u16)>, k: int)
    ensures
        relocs_run(img, delta, fl, k).0.len() == img.len(),
        relocs_run(img, delta, fl, k).1 <= if k < 0 { 0 } else { k },
    decreases k,
{
    if k > 0 {
        lemma_relocs_run_len(img, delta, fl, k - 1);
    }
}

proof fn lemma_relocs_run_stops(img: Seq<u8>, delta: u64, fl: Seq<(u32, u16)>, k: int, j: int)
    requires
        0 <= k <= j,
        relocs_run(img, delta, fl, k).2 is Some,
    ensures
        relocs_run(img, delta, fl, j) == relocs_run(img, delta, fl, k),
    decreases j - k,
{
    if j > k {
        lemma_relocs_run_stops(img, delta, fl, k, j - 1);
    }
}

fn flatten_relocs(blocks: &[RelocBlock]) -> (fl: Vec<(u32, u16)>)
    ensures
        fl@ == flat_relocs(blocks@),
{
    let mut fl: Vec<(u32, u16)> = Vec::new();
    let mut bi: usize = 0;
    while bi < blocks.len()
        invariant
            bi <= blocks@.len(),
            fl@ == flat_relocs(blocks@.take(bi as int)),
        decreases blocks@.len() - bi,
    {
        let b = &blocks[bi];
        let ghost before = fl@;
        let mut ei: usize = 0;
        while ei < b.entries.len()
            invariant
                ei <= b.entries@.len(),
                fl@ == before + block_entries(*b).take(ei as int),
            decreases b.entries@.len() - ei,
        {
            let e = b.entries[ei];
            fl.push((b.page_rva.wrapping_add(e.offset as u32), e.typ));
            proof {
                assert(block_entries(*b).take(ei + 1) =~= block_entries(*b).take(ei as int).push(
                    (b.page_rva.wrapping_add(e.offset as u32), e.typ),
                ));
            }
            ei += 1;
        }
        proof {
            assert(block_entries(*b).take(b.entries@.len() as int) =~= block_entries(*b));
            assert(blocks@.take(bi + 1).drop_last() =~= blocks@.take(bi as int));
        }
        bi += 1;
    }
    assert(blocks@.take(blocks@.len() as int) =~= blocks@);
    fl
}

/// Applies the base relocations of `blocks` to `image`, mapped at `base`
/// but linked for `preferred`: each `ADDR64` slot gets `base - preferred`
/// added (wrapping), `ADDR32NB` and `REL32` are base-independent and only
/// counted, `ABSOLUTE` is padding. Returns how many were applied; the
/// first entry that would leave the image or has another type stops the
/// run with its error. Nothing happens when `base == preferred`.
pub fn apply_relocs(image: &mut Vec<u8>, base: u64, preferred: u64, blocks: &[RelocBlock]) -> (r: Result<u32, LoaderError>)
    requires
        flat_relocs(blocks@).len() <= u32::MAX,
    ensures
        base == preferred ==> r == Ok::<u32, LoaderError>(0) && final(image)@ == old(image)@,
        base != preferred ==> {
            let (m, n, f) = relocs_run(old(image)@, base.wrapping_sub(preferred), flat_relocs(blocks@), flat_relocs(blocks@).len() as int);
            &&& final(image)@ == m
            &&& match f {
                None => r == Ok::<u32, LoaderError>(n as u32),
                Some(fault) => r is Err && fault_of(r->Err_0) == fault,
            }
        },
{
    if preferred == base {
        return Ok(0);
    }
    let delta = base.wrapping_sub(preferred);
    let fl = flatten_relocs(blocks);
    let ghost img0 = image@;
    let mut applied: u32 = 0;
    let mut k: usize = 0;
    while k < fl.len()
        invariant
            base != preferred,
            delta == base.wrapping_sub(preferred),
            img0 == old(image)@,
            fl@ == flat_relocs(blocks@),
            fl@.len() <= u32::MAX,
            k <= fl@.len(),
            relocs_run(img0, delta, fl@, k as int) == (image@, applied as nat, None::<LoaderFault>),
        decreases fl@.len() - k,
    {
        proof {
            lemma_relocs_run_len(img0, delta, fl@, k as int);
        }
        let (rva, typ) = fl[k];
        if (rva as u64) + 8 > image.len() as u64 {
            proof {
                lemma_relocs_run_stops(img0, delta, fl@, k + 1, fl@.len() as int);
            }
            return Err(LoaderError::RelocRange(rva));
        }
        if typ == 0 {
        } else if typ == 1 {
            let v = read_le64(image, rva as usize);
            write_le64(image, rva as usize, v.wrapping_add(delta));
            applied = applied + 1;
        } else if typ == 3 || typ == 4 {
            applied = applied + 1;
        } else {
            proof {
                lemma_relocs_run_stops(img0, delta, fl@, k + 1, fl@.len() as int);
            }
            return Err(LoaderError::BadReloc { typ, rva });
        }
        k += 1;
    }
    Ok(applied)
}


/// Displayed name of an import: its name, or `#<ordinal>`.
pub open spec fn import_label(name: Option<Seq<char>>, ordinal: Option<u16>) -> Seq<char> {
    match name {
        Some(n) => n,
        None => "#"@ + decimal(
            match ordinal {
                Some(o) => o as nat,
                None => 0,
            },
        ),
    }
}

pub open spec fn opt_chars(o: Option<String>) -> Option<Seq<char>> {
    match o {
        Some(s) => Some(s@),
        None => None,
    }
}

/// One import patched into `img`: the resolved address is written to its
/// IAT slot, or the fault (unresolved first, then out of range).
pub open spec fn import_step(img: Seq<u8>, s: ImportSymbol, addr: Option<u64>) -> Result<Seq<u8>, LoaderFault> {
    match addr {
        None => Err(LoaderFault::Unresolved(s.dll@, import_label(opt_chars(s.name), s.ordinal))),
        Some(a) => if s.iat_rva as int + 8 > img.len() {
            Err(LoaderFault::RelocRange(s.iat_rva))
        } else {
            Ok(put64(img, s.iat_rva as int, a))
        },
    }
}

/// The image, the count and the first fault after the first `k` imports.
pub open spec fn imports_run(img: Seq<u8>, syms: Seq<ImportSymbol>, addrs: Seq<Option<u64>>, k: int) -> (Seq<u8>, nat, Option<LoaderFault>)
    decreases k,
{
    if k <= 0 {
        (img, 0, None)
    } else {
        let (m, n, f) = imports_run(img, syms, addrs, k - 1);
        if f is Some {
            (m, n, f)
        } else {
            match import_step(m, syms[k - 1], addrs[k - 1]) {
                Ok(m2) => (m2, n + 1, None),
                Err(fault) => (m, n, Some(fault)),
            }
        }
    }
}

proof fn lemma_imports_run_stops(img: Seq<u8>, syms: Seq<ImportSymbol>, addrs: Seq<Option<u64>>, k: int, j: int)
    requires
        0 <= k <= j,
        imports_run(img, syms, addrs, k).2 is Some,
    ensures
        imports_run(img, syms, addrs, j) == imports_run(img, syms, addrs, k),
    decreases j - k,
{
    if j > k {
        lemma_imports_run_stops(img, syms, addrs, k, j - 1);
    }
}

fn import_name(s: &ImportSymbol) -> (r: String)
    ensures
        r@ == import_label(opt_chars(s.name), s.ordinal),
{
    match &s.name {
        Some(n) => owned(n.as_str()),
        None => {
            let o: u64 = match s.ordinal {
                Some(o) => o as u64,
                None => 0,
            };
            let mut v = chars_of("#");
            extend_chars(&mut v, u64_decimal(o).as_slice());
            string_of(v.as_slice())
        },
    }
}

/// Patches the IAT of `image`: `resolved[i]` is the address the resolver
/// gave for `symbols[i]` (`None`: not found), written little-endian at the
/// symbol's IAT RVA. Returns how many were patched; the first unresolved
/// symbol, or slot out of the image, stops with its error.
pub fn resolve_imports(image: &mut Vec<u8>, symbols: &[ImportSymbol], resolved: &[Option<u64>]) -> (r: Result<u32, LoaderError>)
    requires
        resolved@.len() == symbols@.len(),
        symbols@.len() <= u32::MAX,
    ensures
        ({
            let (m, n, f) = imports_run(old(image)@, symbols@, resolved@, symbols@.len() as int);
            &&& final(image)@ == m
            &&& match f {
                None => r == Ok::<u32, LoaderError>(n as u32),
                Some(fault) => r is Err && fault_of(r->Err_0) == fault,
            }
        }),
{
    let ghost img0 = image@;
    let mut count: u32 = 0;
    let mut k: usize = 0;
    while k < symbols.len()
        invariant
            img0 == old(image)@,
            resolved@.len() == symbols@.len(),
            symbols@.len() <= u32::MAX,
            k <= symbols@.len(),
            imports_run(img0, symbols@, resolved@, k as int) == (image@, count as nat, None::<LoaderFault>),
        decreases symbols@.len() - k,
    {
        proof {
            assert(count <= k) by {
                lemma_imports_run_count(img0, symbols@, resolved@, k as int);
            }
        }
        let s = &symbols[k];
        match resolved[k] {
            None => {
                let name = import_name(s);
                proof {
                    lemma_imports_run_stops(img0, symbols@, resolved@, k + 1, symbols@.len() as int);
                }
                return Err(LoaderError::Unresolved { dll: owned(s.dll.as_str()), name });
            },
            Some(addr) => {
                if (s.iat_rva as u64) + 8 > image.len() as u64 {
                    proof {
                        lemma_imports_run_stops(img0, symbols@, resolved@, k + 1, symbols@.len() as int);
                    }
                    return Err(LoaderError::RelocRange(s.iat_rva));
                }
                write_le64(image, s.iat_rva as usize, addr);
                count = count + 1;
            },
        }
        k += 1;
    }
    Ok(count)
}

proof fn lemma_imports_run_count(img: Seq<u8>, syms: Seq<ImportSymbol>, addrs: Seq<Option<u64>>, k: int)
    ensures
        imports_run(img, syms, addrs, k).1 <= if k < 0 { 0 } else { k },
        imports_run(img, syms, addrs, k).0.len() == img.len(),
    decreases k,
{
    if k > 0 {
        lemma_imports_run_count(img, syms, addrs, k - 1);
        let (m, n, f) = imports_run(img, syms, addrs, k - 1);
        if f is None {
            match addrs[k - 1] {
                Some(a) => {
                    if syms[k - 1].iat_rva as int + 8 <= m.len() {
                        lemma_put64_le64(m, syms[k - 1].iat_rva as int, a);
                    }
                },
                None => {},
            }
        }
    }
}


/// An `ADDR64` relocation inside the image adds the displacement
/// (wrapping) to the address stored at its RVA and changes no other byte.
pub proof fn law_addr64_adds_displacement(img: Seq<u8>, delta: u64, rva: u32)
    requires
        rva as int + 8 <= img.len(),
    ensures
        reloc_step(img, delta, (rva, 1u16)) is Ok,
        le64(reloc_step(img, delta, (rva, 1u16))->Ok_0.0, rva as int) == le64(img, rva as int).wrapping_add(delta),
        forall|i: int|
            0 <= i < img.len() && (i < rva || i >= rva + 8) ==> #[trigger] reloc_step(img, delta, (rva, 1u16))->Ok_0.0[i] == img[i],
{
    lemma_put64_le64(img, rva as int, le64(img, rva as int).wrapping_add(delta));
}

/// A resolved import in range leaves its address in its IAT slot.
pub proof fn law_import_lands_in_iat(img: Seq<u8>, s: ImportSymbol, addr: u64)
    requires
        s.iat_rva as int + 8 <= img.len(),
    ensures
        import_step(img, s, Some(addr)) is Ok,
        le64(import_step(img, s, Some(addr))->Ok_0, s.iat_rva as int) == addr,
{
    lemma_put64_le64(img, s.iat_rva as int, addr);
}

} // verus!
