//! PE image mapping plan (reserve → copy → protect). The host work (map,
//! copy bytes, `mprotect`) follows the plan this module computes and
//! checks: image size, section ranges against the image and the file, the
//! entry point, and the final per-section page protections.
use vstd::prelude::*;
use crate::nt_memory::{host_prot_spec, host_protect, section_protect, section_protect_spec, HostError, Prot};
use crate::text::owned;

verus! {

/// One section header, as parsed.
#[derive(Debug, Clone)]
pub struct SectionInfo {
    pub name: String,
    pub virtual_address: u32,
    pub virtual_size: u32,
    pub raw_offset: u32,
    pub raw_size: u32,
    pub characteristics: u32,
}

/// The parts of a parsed PE image the mapper reads.
#[derive(Debug, Clone)]
pub struct ImageInfo {
    pub size_of_image: u32,
    pub size_of_headers: u32,
    pub image_base: u64,
    pub entry_point_rva: u32,
    pub sections: Vec<SectionInfo>,
}

#[derive(Debug, Clone)]
pub enum MapError {
    Pe(String),
    Loader(String),
    Host(HostError),
    BadImageSize(u32),
    SectionRange(String),
}

/// A mapped image (addresses as integers; the host owns the memory).
#[derive(Debug, Clone, Copy, PartialEq, Eq, Structural)]
pub struct MappedImage {
    pub base: u64,
    pub size: usize,
    pub entry_rva: u32,
    pub image_base_preferred: u64,
}

impl MappedImage {
    pub fn base_addr(&self) -> (r: u64)
        ensures
            r == self.base,
    {
        self.base
    }

    /// Address of the entry point.
    pub fn entry_point(&self) -> (r: u64)
        requires
            self.base + self.entry_rva <= u64::MAX,
        ensures
            r == self.base + self.entry_rva,
    {
        self.base + self.entry_rva as u64
    }
}

/// Largest accepted `SizeOfImage` (1 GiB).
pub const MAX_IMAGE: u32 = 0x4000_0000;

/// Byte copy `data[src..src+len]` → `image[dst..dst+len]`, then zero
/// `image[zero_at..zero_at+zero_len]`.
#[derive(Debug, Clone, Copy, PartialEq, Eq, Structural)]
pub struct SectionCopy {
    pub src: usize,
    pub dst: usize,
    pub len: usize,
    pub zero_at: usize,
    pub zero_len: usize,
}

/// Mapping plan: image size, the page-aligned preferred base to try
/// first, header bytes to copy, and the section copies in order.
#[derive(Debug, Clone)]
pub struct MapPlan {
    pub size: usize,
    pub preferred: u64,
    pub header_len: usize,
    pub copies: Vec<SectionCopy>,
}

pub open spec fn min_nat(a: nat, b: nat) -> nat {
    if a < b { a } else { b }
}

/// Copy of section `s` in an image of `size` bytes from a file of
/// `data_len` bytes: `None` when its raw data does not fit the image or
/// the file.
pub open spec fn section_copy(s: SectionInfo, size: nat, data_len: nat) -> Option<SectionCopy> {
    let vend = s.virtual_address + s.raw_size;
    let src_end = s.raw_offset + s.raw_size;
    if vend > size {
        None
    } else if s.raw_size == 0 {
        Some(SectionCopy { src: 0, dst: s.virtual_address as usize, len: 0, zero_at: 0, zero_len: 0 })
    } else if src_end > data_len {
        None
    } else {
        let zero = s.virtual_size > s.raw_size && s.virtual_address + s.virtual_size <= size;
        Some(
            SectionCopy {
                src: s.raw_offset as usize,
                dst: s.virtual_address as usize,
                len: s.raw_size as usize,
                zero_at: if zero { (s.virtual_address + s.raw_size) as usize } else { 0 },
                zero_len: if zero { (s.virtual_size - s.raw_size) as usize } else { 0 },
            },
        )
    }
}

/// First section (by index) whose data does not fit, if any.
pub open spec fn first_bad_index(ss: Seq<SectionInfo>, size: nat, data_len: nat) -> int {
    choose|i: int| 0 <= i < ss.len() && section_copy(ss[i], size, data_len) is None
        && forall|j: int| 0 <= j < i ==> section_copy(ss[j], size, data_len) is Some
}

pub open spec fn first_bad(ss: Seq<SectionInfo>, size: nat, data_len: nat) -> Option<int> {
    if exists|i: int| 0 <= i < ss.len() && section_copy(ss[i], size, data_len) is None {
        Some(first_bad_index(ss, size, data_len))
    } else {
        None
    }
}

/// Decision of mapping `img` from a file of `data_len` bytes with host
/// pages of `page` bytes.
pub open spec fn plan_image_spec(img: ImageInfo, data_len: nat, page: nat) -> Result<(nat, u64, nat, Seq<SectionCopy>), MapError> {
    let size = img.size_of_image as nat;
    let ss = img.sections@;
    if img.size_of_image == 0 || img.size_of_image > MAX_IMAGE {
        Err(MapError::BadImageSize(img.size_of_image))
    } else {
        match first_bad(ss, size, data_len) {
            Some(i) => Err(MapError::SectionRange(ss[i].name)),
            None => if img.entry_point_rva >= size {
                Err(MapError::BadImageSize(img.entry_point_rva))
            } else {
                Ok((
                    size,
                    (img.image_base as int - (img.image_base as int) % (page as int)) as u64,
                    min_nat(min_nat(data_len, img.size_of_headers as nat), size),
                    ss.map_values(|s: SectionInfo| section_copy(s, size, data_len)->0),
                ))
            },
        }
    }
}

fn section_plan(s: &SectionInfo, size: usize, data_len: usize) -> (r: Option<SectionCopy>)
    requires
        size <= MAX_IMAGE,
    ensures
        r == section_copy(*s, size as nat, data_len as nat),
{
    let vend: u64 = s.virtual_address as u64 + s.raw_size as u64;
    if vend > size as u64 {
        return None;
    }
    if s.raw_size == 0 {
        return Some(SectionCopy { src: 0, dst: s.virtual_address as usize, len: 0, zero_at: 0, zero_len: 0 });
    }
    let src_end: u64 = s.raw_offset as u64 + s.raw_size as u64;
    if src_end > data_len as u64 {
        return None;
    }
    let zero = s.virtual_size > s.raw_size && (s.virtual_address as u64 + s.virtual_size as u64) <= size as u64;
    Some(
        SectionCopy {
            src: s.raw_offset as usize,
            dst: s.virtual_address as usize,
            len: s.raw_size as usize,
            zero_at: if zero { (s.virtual_address + s.raw_size) as usize } else { 0 },
            zero_len: if zero { (s.virtual_size - s.raw_size) as usize } else { 0 },
        },
    )
}

/// Plans the mapping of `img`: `SizeOfImage` must be in `1..=1 GiB`;
/// each section's raw data must fit both the image and the file (the
/// first that does not is a `SectionRange` error); the entry point must
/// lie inside the image. Headers copy `min(file, SizeOfHeaders, image)`
/// bytes; a section whose virtual size exceeds its raw size is
/// zero-filled up to the virtual size when that still fits.
pub fn plan_image(img: &ImageInfo, data_len: usize, page: usize) -> (r: Result<MapPlan, MapError>)
    requires
        page >= 1,
    ensures
        match (r, plan_image_spec(*img, data_len as nat, page as nat)) {
            (Ok(p), Ok(q)) => p.size == q.0 && p.preferred == q.1 && p.header_len == q.2 && p.copies@ == q.3,
            (Err(MapError::BadImageSize(a)), Err(MapError::BadImageSize(b))) => a == b,
            (Err(MapError::SectionRange(a)), Err(MapError::SectionRange(b))) => a@ == b@,
            _ => false,
        },
{
    if img.size_of_image == 0 || img.size_of_image > MAX_IMAGE {
        return Err(MapError::BadImageSize(img.size_of_image));
    }
    let size = img.size_of_image as usize;
    let ghost ss = img.sections@;
    let mut copies: Vec<SectionCopy> = Vec::new();
    let mut i: usize = 0;
    while i < img.sections.len()
        invariant
            i <= ss.len(),
            ss == img.sections@,
            size == img.size_of_image,
            0 < size <= MAX_IMAGE,
            copies@.len() == i,
            forall|j: int| 0 <= j < i ==> #[trigger] section_copy(ss[j], size as nat, data_len as nat) == Some(copies@[j]),
        decreases ss.len() - i,
    {
        match section_plan(&img.sections[i], size, data_len) {
            Some(c) => {
                copies.push(c);
            },
            None => {
                proof {
                    let sz = size as nat;
                    let dl = data_len as nat;
                    assert(section_copy(ss[i as int], sz, dl) is None);
                    assert(forall|j: int| 0 <= j < i ==> section_copy(ss[j], sz, dl) is Some);
                    let k = first_bad_index(ss, sz, dl);
                    if k < i {
                        assert(section_copy(ss[k], sz, dl) == Some(copies@[k]));
                    }
                    if k > i {
                        assert(section_copy(ss[i as int], sz, dl) is Some);
                    }
                }
                return Err(MapError::SectionRange(owned(img.sections[i].name.as_str())));
            },
        }
        i += 1;
    }
    if (img.entry_point_rva as usize) >= size {
        return Err(MapError::BadImageSize(img.entry_point_rva));
    }
    let hl0: usize = if data_len < img.size_of_headers as usize { data_len } else { img.size_of_headers as usize };
    let header_len: usize = if hl0 < size { hl0 } else { size };
    assert(img.image_base % (page as u64) <= img.image_base) by (nonlinear_arith)
        requires
            page >= 1,
    ;
    let preferred: u64 = img.image_base - img.image_base % (page as u64);
    proof {
        assert(!exists|k: int| 0 <= k < ss.len() && section_copy(ss[k], size as nat, data_len as nat) is None) by {
            if exists|k: int| 0 <= k < ss.len() && section_copy(ss[k], size as nat, data_len as nat) is None {
                let k = choose|k: int| 0 <= k < ss.len() && section_copy(ss[k], size as nat, data_len as nat) is None;
                assert(section_copy(ss[k], size as nat, data_len as nat) == Some(copies@[k]));
            }
        }
    }
    assert(copies@ =~= ss.map_values(|s: SectionInfo| section_copy(s, size as nat, data_len as nat)->0));
    Ok(MapPlan { size, preferred, header_len, copies })
}

/// `v` rounded up to a multiple of `a`.
pub open spec fn align_up_spec(v: nat, a: nat) -> nat {
    ((v + a - 1) as nat / a) * a
}

/// Page range `(start, len)` and host protection a section gets: from its
/// page-aligned virtual address to the page-aligned end of
/// `max(virtual, raw)` size, clipped to the image; `None` when empty.
pub open spec fn section_range(s: SectionInfo, size: nat, page: nat) -> Option<(usize, usize, Prot)> {
    let start = s.virtual_address as int - (s.virtual_address as int) % (page as int);
    let span = if s.virtual_size > s.raw_size { s.virtual_size } else { s.raw_size };
    let end0 = align_up_spec((s.virtual_address + span) as nat, page);
    let end = if end0 < size { end0 } else { size };
    if end > start {
        Some((start as usize, (end - start) as usize, host_prot_spec(section_protect_spec(s.characteristics))))
    } else {
        None
    }
}

/// Final protections to apply (after relocations and imports), in section
/// order, skipping empty ranges.
pub fn protect_plan(img: &ImageInfo, size: usize, page: usize) -> (r: Vec<(usize, usize, Prot)>)
    requires
        page >= 1,
        page <= 0x1_0000_0000,
    ensures
        r@ == img.sections@.filter_map(|s: SectionInfo| section_range(s, size as nat, page as nat)),
{
    let ghost ss = img.sections@;
    let ghost f = |s: SectionInfo| section_range(s, size as nat, page as nat);
    let mut out: Vec<(usize, usize, Prot)> = Vec::new();
    let mut i: usize = 0;
    assert(ss.take(0).filter_map(f) =~= Seq::<(usize, usize, Prot)>::empty());
    while i < img.sections.len()
        invariant
            i <= ss.len(),
            ss == img.sections@,
            page >= 1,
            page <= 0x1_0000_0000,
            f == (|s: SectionInfo| section_range(s, size as nat, page as nat)),
            out@ == ss.take(i as int).filter_map(f),
        decreases ss.len() - i,
    {
        let s = &img.sections[i];
        let va = s.virtual_address as u64;
        assert(va % (page as u64) <= va) by (nonlinear_arith)
            requires
                page >= 1,
        ;
        let start: u64 = va - va % (page as u64);
        let span: u64 = if s.virtual_size > s.raw_size { s.virtual_size as u64 } else { s.raw_size as u64 };
        let t: u64 = va + span + (page as u64 - 1);
        let end0: u64 = t - t % (page as u64);
        assert(end0 == align_up_spec((va + span) as nat, page as nat)) by (nonlinear_arith)
            requires
                t == va + span + page - 1,
                end0 == t - t % (page as u64),
                page >= 1,
        ;
        let end: u64 = if end0 < size as u64 { end0 } else { size as u64 };
        proof {
            assert(ss.take(i + 1).drop_last() =~= ss.take(i as int));
            assert(ss.take(i + 1).last() == ss[i as int]);
        }
        if end > start {
            let prot = host_protect(section_protect(s.characteristics));
            let ghost o0 = out@;
            out.push((start as usize, (end - start) as usize, prot));
            proof {
                assert(f(ss[i as int]) == Some((start as usize, (end - start) as usize, prot)));
                assert(out@ =~= o0 + seq![(start as usize, (end - start) as usize, prot)]);
            }
        } else {
            assert(f(ss[i as int]) is None);
        }
        i += 1;
    }
    assert(ss.take(ss.len() as int) =~= ss);
    out
}

} // verus!
