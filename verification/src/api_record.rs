//! Structural record of one scanned PE file (`schema = 1`) and the scan
//! output: records plus skipped files with their reason.
use vstd::prelude::*;
use crate::text::{chars_of, concat, decimal, ends_with, is_prefix, is_suffix, owned, starts_with, str_eq, string_of, u64_decimal, u64_hex_upper_fixed, hex_upper_fixed};

verus! {

/// Record format version; readers reject an unknown `schema`.
pub const SCHEMA: u32 = 1;

#[derive(Debug, Clone)]
pub struct SectionRec {
    pub name: String,
    pub va: u32,
    pub vsize: u32,
    pub raw_size: u32,
    pub characteristics: u32,
}

#[derive(Debug, Clone)]
pub struct ImportSym {
    pub name: Option<String>,
    pub ordinal: Option<u16>,
}

#[derive(Debug, Clone)]
pub struct ImportRec {
    pub dll: String,
    pub symbols: Vec<ImportSym>,
}

#[derive(Debug, Clone)]
pub struct ForwarderRec {
    pub dll: String,
    pub symbol: String,
}

#[derive(Debug, Clone)]
pub struct ExportRec {
    pub name: Option<String>,
    pub ordinal: u32,
    pub rva: u32,
    pub forwarder: Option<ForwarderRec>,
}

#[derive(Debug, Clone)]
pub struct PeRecord {
    pub schema: u32,
    /// File name in lowercase (the reference file system ignores case).
    pub filename: String,
    /// Path relative to the scanned root, with `/`.
    pub path: String,
    pub machine: u16,
    /// `"x86_64"`, `"i386"`, `"arm64"` or `"other(0xNNNN)"`.
    pub arch: String,
    /// Always true: only PE32+ images are recorded.
    pub pe32plus: bool,
    pub image_base: u64,
    pub entry_rva: u32,
    pub subsystem: u16,
    pub dll_characteristics: u16,
    pub sections: Vec<SectionRec>,
    pub imports: Vec<ImportRec>,
    pub exports: Vec<ExportRec>,
    /// `api-ms-win-*` / `ext-ms-win-*` (never a physical DLL).
    pub is_api_set: bool,
}

pub const MACHINE_AMD64: u16 = 0x8664;
pub const MACHINE_I386: u16 = 0x14C;
pub const MACHINE_ARM64: u16 = 0xAA64;

pub open spec fn arch_text(machine: u16) -> Seq<char> {
    if machine == MACHINE_AMD64 {
        "x86_64"@
    } else if machine == MACHINE_I386 {
        "i386"@
    } else if machine == MACHINE_ARM64 {
        "arm64"@
    } else {
        "other(0x"@ + hex_upper_fixed(machine as nat, 4) + ")"@
    }
}

/// Architecture name of a COFF machine value (`other(0xNNNN)`, four
/// uppercase hex digits, for unknown ones).
pub fn arch_name(machine: u16) -> (r: String)
    ensures
        r@ == arch_text(machine),
{
    if machine == MACHINE_AMD64 {
        owned("x86_64")
    } else if machine == MACHINE_I386 {
        owned("i386")
    } else if machine == MACHINE_ARM64 {
        owned("arm64")
    } else {
        let mut cs = chars_of("other(0x");
        let hex = u64_hex_upper_fixed(machine as u64, 4);
        crate::text::extend_chars(&mut cs, hex.as_slice());
        let close = chars_of(")");
        crate::text::extend_chars(&mut cs, close.as_slice());
        string_of(cs.as_slice())
    }
}

pub open spec fn api_set_name(f: Seq<char>) -> bool {
    is_prefix("api-ms-win-"@, f) || is_prefix("ext-ms-win-"@, f)
}

/// `api-ms-win-*` or `ext-ms-win-*` (of a lowercase file name).
pub fn is_api_set_name(filename_lower: &str) -> (r: bool)
    ensures
        r == api_set_name(filename_lower@),
{
    let f = chars_of(filename_lower);
    let a = chars_of("api-ms-win-");
    let e = chars_of("ext-ms-win-");
    starts_with(f.as_slice(), a.as_slice()) || starts_with(f.as_slice(), e.as_slice())
}

/// Extensions scanned as PE files.
pub open spec fn pe_ext(i: int) -> Seq<char> {
    if i == 0 { ".dll"@ } else if i == 1 { ".exe"@ } else if i == 2 { ".sys"@ } else if i == 3 { ".ocx"@ } else if i
        == 4 { ".cpl"@ } else if i == 5 { ".scr"@ } else if i == 6 { ".mui"@ } else { ".ax"@ }
}

pub open spec fn has_pe_extension(name: Seq<char>) -> bool {
    exists|i: int| 0 <= i < 8 && is_suffix(pe_ext(i), name)
}

/// The (lowercase) name ends in a scanned PE extension.
pub fn pe_extension(name_lower: &str) -> (r: bool)
    ensures
        r == has_pe_extension(name_lower@),
{
    let exts = [".dll", ".exe", ".sys", ".ocx", ".cpl", ".scr", ".mui", ".ax"];
    let n = chars_of(name_lower);
    let mut i: usize = 0;
    while i < 8
        invariant
            i <= 8,
            n@ == name_lower@,
            exts@ == seq![".dll", ".exe", ".sys", ".ocx", ".cpl", ".scr", ".mui", ".ax"],
            forall|j: int| 0 <= j < i ==> !is_suffix(pe_ext(j), name_lower@),
        decreases 8 - i,
    {
        let e = chars_of(exts[i]);
        assert(e@ == pe_ext(i as int));
        if ends_with(n.as_slice(), e.as_slice()) {
            return true;
        }
        i += 1;
    }
    false
}

/// Scan failure of one file (the scan goes on; the file is skipped).
#[derive(Debug, Clone)]
pub enum ScanError {
    Io(String),
    Parse(String),
}

impl ScanError {
    /// `io: ...` / `parse: ...`.
    pub fn message(&self) -> (r: String)
        ensures
            r@ == match *self {
                ScanError::Io(m) => "io: "@ + m@,
                ScanError::Parse(m) => "parse: "@ + m@,
            },
    {
        match self {
            ScanError::Io(m) => concat("io: ", m.as_str()),
            ScanError::Parse(m) => concat("parse: ", m.as_str()),
        }
    }
}

/// A skipped file and why.
#[derive(Debug, Clone)]
pub struct Skipped {
    pub path: String,
    pub reason: String,
}

#[derive(Debug, Clone)]
pub struct ScanOutput {
    pub records: Vec<PeRecord>,
    pub skipped: Vec<Skipped>,
}

impl ScanOutput {
    pub fn new() -> (r: ScanOutput)
        ensures
            r.records@.len() == 0,
            r.skipped@.len() == 0,
    {
        ScanOutput { records: Vec::new(), skipped: Vec::new() }
    }
}

/// One imported symbol as the PE parser reports it, with its DLL.
#[derive(Debug, Clone)]
pub struct RawImport {
    pub dll: String,
    pub name: Option<String>,
    pub ordinal: Option<u16>,
}

pub open spec fn opt_str(o: Option<String>) -> Option<Seq<char>> {
    match o {
        Some(s) => Some(s@),
        None => None,
    }
}

/// A group of imports as views: DLL and `(name, ordinal)` per symbol.
pub open spec fn group_view(g: ImportRec) -> (Seq<char>, Seq<(Option<Seq<char>>, Option<u16>)>) {
    (g.dll@, g.symbols@.map_values(|s: ImportSym| (opt_str(s.name), s.ordinal)))
}

/// Imports grouped by DLL, preserving order: a symbol joins the last group
/// when it names the same DLL, else opens a new group.
pub open spec fn group_spec(raw: Seq<RawImport>) -> Seq<(Seq<char>, Seq<(Option<Seq<char>>, Option<u16>)>)>
    decreases raw.len(),
{
    if raw.len() == 0 {
        seq![]
    } else {
        let g = group_spec(raw.drop_last());
        let s = raw.last();
        let sym = (opt_str(s.name), s.ordinal);
        if g.len() > 0 && g.last().0 == s.dll@ {
            g.update(g.len() - 1, (g.last().0, g.last().1.push(sym)))
        } else {
            g.push((s.dll@, seq![sym]))
        }
    }
}

pub fn opt_string_copy(o: &Option<String>) -> (r: Option<String>)
    ensures
        opt_str(r) == opt_str(*o),
{
    match o {
        Some(s) => Some(owned(s.as_str())),
        None => None,
    }
}

/// Groups raw imports by DLL, preserving order.
pub fn group_imports(raw: &[RawImport]) -> (r: Vec<ImportRec>)
    ensures
        r@.map_values(|g: ImportRec| group_view(g)) == group_spec(raw@),
{
    let mut out: Vec<ImportRec> = Vec::new();
    let mut i: usize = 0;
    assert(raw@.take(0) =~= Seq::<RawImport>::empty());
    while i < raw.len()
        invariant
            i <= raw@.len(),
            out@.map_values(|g: ImportRec| group_view(g)) == group_spec(raw@.take(i as int)),
        decreases raw@.len() - i,
    {
        let s = &raw[i];
        let sym = ImportSym { name: opt_string_copy(&s.name), ordinal: s.ordinal };
        assert(raw@.take(i + 1).drop_last() =~= raw@.take(i as int));
        assert(raw@.take(i + 1).last() == *s);
        let ghost before = out@.map_values(|g: ImportRec| group_view(g));
        let n = out.len();
        let same = n > 0 && str_eq(out[n - 1].dll.as_str(), s.dll.as_str());
        if same {
            let last = out.pop().unwrap();
            let mut syms = last.symbols;
            let ghost sv = syms@.map_values(|x: ImportSym| (opt_str(x.name), x.ordinal));
            syms.push(sym);
            assert(syms@.map_values(|x: ImportSym| (opt_str(x.name), x.ordinal)) =~= sv.push((opt_str(s.name), s.ordinal)));
            out.push(ImportRec { dll: last.dll, symbols: syms });
            assert(out@.map_values(|g: ImportRec| group_view(g)) =~= before.update(before.len() - 1, (before.last().0, before.last().1.push((opt_str(s.name), s.ordinal)))));
        } else {
            let syms = vec![sym];
            assert(syms@.map_values(|x: ImportSym| (opt_str(x.name), x.ordinal)) =~= seq![(opt_str(s.name), s.ordinal)]);
            out.push(ImportRec { dll: owned(s.dll.as_str()), symbols: syms });
            assert(out@.map_values(|g: ImportRec| group_view(g)) =~= before.push((s.dll@, seq![(opt_str(s.name), s.ordinal)])));
        }
        i += 1;
    }
    assert(raw@.take(raw@.len() as int) =~= raw@);
    out
}

/// Where a forwarded export points: a name, or an ordinal.
#[derive(Debug, Clone)]
pub enum ForwardedSymbol {
    Name(String),
    Ordinal(u32),
}

/// Record text of a forwarded symbol: the name, or `#<ordinal>`.
pub fn forwarded_symbol_text(s: &ForwardedSymbol) -> (r: String)
    ensures
        r@ == match *s {
            ForwardedSymbol::Name(n) => n@,
            ForwardedSymbol::Ordinal(o) => "#"@ + decimal(o as nat),
        },
{
    match s {
        ForwardedSymbol::Name(n) => owned(n.as_str()),
        ForwardedSymbol::Ordinal(o) => {
            let mut cs = chars_of("#");
            let d = u64_decimal(*o as u64);
            crate::text::extend_chars(&mut cs, d.as_slice());
            string_of(cs.as_slice())
        },
    }
}

} // verus!
