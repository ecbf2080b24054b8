//! Module registry of the in-process DLLs: module-name normalization,
//! ApiSet routing, `GetModuleHandle`/`LoadLibrary`/`FreeLibrary`,
//! `GetProcAddress` by name or ordinal, and kernel32-to-ntdll forwarders.
use vstd::prelude::*;
use crate::abi::{Win32Error, ERROR_MOD_NOT_FOUND, ERROR_PROC_NOT_FOUND, KERNEL32_PSEUDO_BASE, NTDLL_PSEUDO_BASE};
use crate::apiset_table::{apiset_entry, apiset_module, apiset_name, APISET_LEN};
use crate::apiset_order::{lemma_row, lemma_rows_distinct};
use crate::nt_file::lower_to_upper;
use crate::symbols::Proc;
use crate::symbol_lookup::{
    forwarder_find, forwarder_lookup, kernel32_export_find, kernel32_export_lookup,
    kernel32_ordinal_find, kernel32_ordinal_lookup, ntdll_export_find, ntdll_export_lookup,
    ntdll_ordinal_find, ntdll_ordinal_lookup,
};
use crate::text::{
    ascii_lower, chars_of, ends_with, is_suffix, lower, lower_char, seq_eq, slice_copy, str_eq, string_of,
};

verus! {

/// A module implemented by the runtime.
#[derive(Debug, Clone, Copy, PartialEq, Eq, Structural)]
pub enum KnownModule {
    Kernel32,
    Ntdll,
}

/// `HMODULE` → module (`0` or unknown handle: none).
pub open spec fn lookup_spec(hmodule: u64) -> Option<KnownModule> {
    if hmodule == KERNEL32_PSEUDO_BASE {
        Some(KnownModule::Kernel32)
    } else if hmodule == NTDLL_PSEUDO_BASE {
        Some(KnownModule::Ntdll)
    } else {
        None
    }
}

pub open spec fn pseudo_spec(m: KnownModule) -> u64 {
    match m {
        KnownModule::Kernel32 => KERNEL32_PSEUDO_BASE,
        KnownModule::Ntdll => NTDLL_PSEUDO_BASE,
    }
}

pub fn lookup(hmodule: u64) -> (r: Option<KnownModule>)
    ensures
        r == lookup_spec(hmodule),
{
    if hmodule == KERNEL32_PSEUDO_BASE {
        Some(KnownModule::Kernel32)
    } else if hmodule == NTDLL_PSEUDO_BASE {
        Some(KnownModule::Ntdll)
    } else {
        None
    }
}

/// The `HMODULE` token of a module.
pub fn pseudo_of(module: KnownModule) -> (r: u64)
    ensures
        r == pseudo_spec(module),
{
    match module {
        KnownModule::Kernel32 => KERNEL32_PSEUDO_BASE,
        KnownModule::Ntdll => NTDLL_PSEUDO_BASE,
    }
}

pub open spec fn is_name_sep(c: char) -> bool {
    c == '\\' || c == '/' || c == ':'
}

/// Part of `s` after its last `\`, `/` or `:` (all of `s` if none).
pub open spec fn last_segment(s: Seq<char>) -> Seq<char>
    decreases s.len(),
{
    if s.len() == 0 {
        s
    } else if is_name_sep(s.last()) {
        Seq::empty()
    } else {
        last_segment(s.drop_last()).push(s.last())
    }
}

/// `s` without a trailing `.dll`.
pub open spec fn strip_dll(s: Seq<char>) -> Seq<char> {
    if is_suffix(".dll"@, s) { s.subrange(0, s.len() - ".dll"@.len()) } else { s }
}

/// Module named by `name` the way the Windows loader reads it: path
/// ignored, case-insensitive, `.dll` optional.
pub open spec fn normalize_spec(name: Seq<char>) -> Option<KnownModule> {
    let base = strip_dll(lower(last_segment(name)));
    if base == "kernel32"@ {
        Some(KnownModule::Kernel32)
    } else if base == "ntdll"@ {
        Some(KnownModule::Ntdll)
    } else {
        None
    }
}

/// First ApiSet row at or after `i` with namespace `key`.
pub open spec fn apiset_find(key: Seq<char>, i: int) -> Option<KnownModule>
    decreases APISET_LEN - i,
{
    if i < 0 || i >= APISET_LEN {
        None
    } else if apiset_name(i) == key {
        Some(apiset_module(i))
    } else {
        apiset_find(key, i + 1)
    }
}

/// Host module of an ApiSet namespace (case-insensitive, `.dll` optional).
pub open spec fn apiset_host_spec(dll: Seq<char>) -> Option<KnownModule> {
    apiset_find(strip_dll(lower(dll)), 0)
}

/// Direct module name, else ApiSet namespace.
pub open spec fn resolve_dll_spec(dll: Seq<char>) -> Option<KnownModule> {
    match normalize_spec(dll) {
        Some(m) => Some(m),
        None => apiset_host_spec(dll),
    }
}

fn last_segment_of(s: &[char]) -> (r: Vec<char>)
    ensures
        r@ == last_segment(s@),
{
    let mut i = s.len();
    assert(s@.subrange(0, i as int) =~= s@);
    assert(last_segment(s@) + s@.subrange(i as int, i as int) =~= last_segment(s@));
    while i > 0
        invariant
            i <= s@.len(),
            last_segment(s@) == last_segment(s@.subrange(0, i as int)) + s@.subrange(i as int, s@.len() as int),
            forall|j: int| i <= j < s@.len() ==> !is_name_sep(s@[j]),
        decreases i,
    {
        if s[i - 1] == '\\' || s[i - 1] == '/' || s[i - 1] == ':' {
            proof {
                let p = s@.subrange(0, i as int);
                assert(p.drop_last() =~= s@.subrange(0, i - 1));
                assert(last_segment(p) == Seq::<char>::empty());
            }
            let r = slice_copy(s, i, s.len());
            assert(last_segment(s@) =~= r@);
            return r;
        }
        proof {
            let p = s@.subrange(0, i as int);
            assert(p.drop_last() =~= s@.subrange(0, i - 1));
            assert(last_segment(p) == last_segment(s@.subrange(0, i - 1)).push(s@[i - 1]));
            assert(last_segment(s@.subrange(0, i - 1)).push(s@[i - 1]) + s@.subrange(i as int, s@.len() as int)
                =~= last_segment(s@.subrange(0, i - 1)) + s@.subrange(i - 1, s@.len() as int));
        }
        i -= 1;
    }
    assert(s@.subrange(0, 0) =~= Seq::<char>::empty());
    assert(s@.subrange(0, s@.len() as int) =~= s@);
    slice_copy(s, 0, s.len())
}

fn strip_dll_of(s: Vec<char>) -> (r: Vec<char>)
    ensures
        r@ == strip_dll(s@),
{
    let suf = chars_of(".dll");
    if ends_with(s.as_slice(), suf.as_slice()) {
        slice_copy(s.as_slice(), 0, s.len() - suf.len())
    } else {
        s
    }
}

/// Module named by `name` (path, case and `.dll` ignored). ApiSets do not
/// resolve here; see `resolve_dll`.
pub fn normalize(name: &str) -> (r: Option<KnownModule>)
    ensures
        r == normalize_spec(name@),
{
    let cs = chars_of(name);
    let seg = last_segment_of(cs.as_slice());
    let low = ascii_lower(seg.as_slice());
    let base = strip_dll_of(low);
    let k = chars_of("kernel32");
    if seq_eq(base.as_slice(), k.as_slice()) {
        return Some(KnownModule::Kernel32);
    }
    let n = chars_of("ntdll");
    if seq_eq(base.as_slice(), n.as_slice()) {
        return Some(KnownModule::Ntdll);
    }
    None
}

/// ApiSet namespace → implemented host module (`None`: another host such
/// as UCRT or USER32, or a name outside the namespace).
pub fn apiset_host(dll: &str) -> (r: Option<KnownModule>)
    ensures
        r == apiset_host_spec(dll@),
{
    let cs = chars_of(dll);
    let low = ascii_lower(cs.as_slice());
    let key_v = strip_dll_of(low);
    let key = string_of(key_v.as_slice());
    let mut i: usize = 0;
    while i < APISET_LEN
        invariant
            i <= APISET_LEN,
            key@ == strip_dll(lower(dll@)),
            apiset_find(key@, 0) == apiset_find(key@, i as int),
        decreases APISET_LEN - i,
    {
        let (name, module) = apiset_entry(i);
        if str_eq(name, key.as_str()) {
            return Some(module);
        }
        i += 1;
    }
    None
}

proof fn lemma_find_row(i: int, j: int)
    requires
        0 <= j <= i < APISET_LEN,
    ensures
        apiset_find(apiset_name(i), j) == Some(apiset_module(i)),
    decreases i - j,
{
    if j < i {
        lemma_rows_distinct(j, i);
        lemma_find_row(i, j + 1);
    }
}

/// Every row of the ApiSet table is found: a name that reads as its
/// namespace once lowercased and stripped of `.dll` routes to the row's
/// host module; so do the namespace itself, the namespace with `.dll`, and
/// the namespace in ASCII upper case.
pub proof fn law_apiset_rows_found(i: int, dll: Seq<char>)
    requires
        0 <= i < APISET_LEN,
    ensures
        strip_dll(lower(dll)) == apiset_name(i) ==> apiset_host_spec(dll) == Some(apiset_module(i)),
        apiset_host_spec(apiset_name(i)) == Some(apiset_module(i)),
        apiset_host_spec(apiset_name(i) + ".dll"@) == Some(apiset_module(i)),
        apiset_host_spec(apiset_name(i).map_values(|c: char| lower_to_upper(c))) == Some(apiset_module(i)),
{
    lemma_find_row(i, 0);
    lemma_row(i);
    let n = apiset_name(i);
    reveal_strlit(".dll");
    assert(lower(n) == n);
    assert(!is_suffix(".dll"@, n)) by {
        if is_suffix(".dll"@, n) {
            assert(n.subrange(n.len() - 4, n.len() as int)[3] == ".dll"@[3]);
        }
    }
    assert(strip_dll(lower(n)) == n);
    let d = n + ".dll"@;
    assert(lower(d) =~= d) by {
        assert forall|k: int| 0 <= k < d.len() implies lower_char(#[trigger] d[k]) == d[k] by {
            if k < n.len() {
                assert(lower(n)[k] == lower_char(n[k]));
            }
        }
    }
    assert(is_suffix(".dll"@, d)) by {
        assert(d.subrange(d.len() - 4, d.len() as int) =~= ".dll"@);
    }
    assert(d.subrange(0, d.len() - 4) =~= n);
    let u = n.map_values(|c: char| lower_to_upper(c));
    assert(lower(u) =~= n) by {
        assert forall|k: int| 0 <= k < n.len() implies lower_char(#[trigger] u[k]) == n[k] by {
            assert(lower(n)[k] == lower_char(n[k]));
            assert(lower_char(n[k]) == n[k]);
        }
    }
}

/// Direct module name OR ApiSet namespace routed to an implemented module.
pub fn resolve_dll(dll: &str) -> (r: Option<KnownModule>)
    ensures
        r == resolve_dll_spec(dll@),
{
    match normalize(dll) {
        Some(m) => Some(m),
        None => apiset_host(dll),
    }
}

/// `GetModuleHandle(name?)`: `None` is the process image (`exe_base`);
/// a known name gives its token; anything else `MOD_NOT_FOUND`.
pub fn get_module_handle(name: Option<&str>, exe_base: u64) -> (r: Result<u64, Win32Error>)
    ensures
        name is None ==> r == Ok::<u64, Win32Error>(exe_base),
        name matches Some(n) ==> r == match resolve_dll_spec(n@) {
            Some(m) => Ok::<u64, Win32Error>(pseudo_spec(m)),
            None => Err(Win32Error(ERROR_MOD_NOT_FOUND)),
        },
{
    match name {
        None => Ok(exe_base),
        Some(n) => match resolve_dll(n) {
            Some(m) => Ok(pseudo_of(m)),
            None => Err(Win32Error(ERROR_MOD_NOT_FOUND)),
        },
    }
}

/// `LoadLibrary(name)`: only the already-loaded set; a new image is
/// `MOD_NOT_FOUND`, never a fake success.
pub fn load_library(name: &str) -> (r: Result<u64, Win32Error>)
    ensures
        r == match resolve_dll_spec(name@) {
            Some(m) => Ok::<u64, Win32Error>(pseudo_spec(m)),
            None => Err(Win32Error(ERROR_MOD_NOT_FOUND)),
        },
{
    match resolve_dll(name) {
        Some(m) => Ok(pseudo_of(m)),
        None => Err(Win32Error(ERROR_MOD_NOT_FOUND)),
    }
}

/// `FreeLibrary(h)`: the static set never unloads (TRUE for tokens and the
/// image base); unknown handles are `MOD_NOT_FOUND`.
pub fn free_library(hmodule: u64, exe_base: u64) -> (r: Result<(), Win32Error>)
    ensures
        r == if lookup_spec(hmodule) is Some || (exe_base != 0 && hmodule == exe_base) {
            Ok::<(), Win32Error>(())
        } else {
            Err(Win32Error(ERROR_MOD_NOT_FOUND))
        },
{
    if lookup(hmodule).is_some() || (exe_base != 0 && hmodule == exe_base) {
        Ok(())
    } else {
        Err(Win32Error(ERROR_MOD_NOT_FOUND))
    }
}

/// Import-resolver entry: `dll!name` for any name of kernel32 (direct or
/// via an ApiSet routed to it).
pub open spec fn resolve_spec(dll: Seq<char>, name: Seq<char>) -> Option<Proc> {
    if resolve_dll_spec(dll) == Some(KnownModule::Kernel32) {
        kernel32_export_find(name, 0)
    } else {
        None
    }
}

pub fn resolve(dll: &str, name: &str) -> (r: Option<Proc>)
    ensures
        r == resolve_spec(dll@, name@),
{
    if resolve_dll(dll) != Some(KnownModule::Kernel32) {
        return None;
    }
    kernel32_export_lookup(name)
}

proof fn lemma_last_segment_plain(s: Seq<char>)
    requires
        forall|k: int| 0 <= k < s.len() ==> !is_name_sep(#[trigger] s[k]),
    ensures
        last_segment(s) == s,
    decreases s.len(),
{
    if s.len() > 0 {
        assert(!is_name_sep(s[s.len() - 1]));
        lemma_last_segment_plain(s.drop_last());
        assert(s.drop_last().push(s.last()) =~= s);
    }
}

proof fn lemma_last_segment_after_sep(dir: Seq<char>, sep: char, n: Seq<char>)
    requires
        is_name_sep(sep),
        forall|k: int| 0 <= k < n.len() ==> !is_name_sep(#[trigger] n[k]),
    ensures
        last_segment(dir + seq![sep] + n) == n,
    decreases n.len(),
{
    let t = dir + seq![sep] + n;
    if n.len() == 0 {
        assert(t.last() == sep);
    } else {
        assert(t.last() == n.last());
        assert(!is_name_sep(n[n.len() - 1]));
        assert(t.drop_last() =~= dir + seq![sep] + n.drop_last());
        lemma_last_segment_after_sep(dir, sep, n.drop_last());
        assert(n.drop_last().push(n.last()) =~= n);
    }
}

/// How the loader reads a module name: the directory part is ignored
/// (whatever comes before the last `\\`, `/` or `:`), and letter case
/// does not matter. `kernel32` and `ntdll` (any case, `.dll` optional)
/// are the two modules.
pub proof fn law_module_name(dir: Seq<char>, sep: char, n: Seq<char>)
    requires
        is_name_sep(sep),
        forall|k: int| 0 <= k < n.len() ==> !is_name_sep(#[trigger] n[k]),
    ensures
        normalize_spec(dir + seq![sep] + n) == normalize_spec(n),
        normalize_spec(lower(n)) == normalize_spec(n),
        normalize_spec("kernel32"@) == Some(KnownModule::Kernel32),
        normalize_spec("NTDLL.DLL"@) == Some(KnownModule::Ntdll),
{
    lemma_last_segment_after_sep(dir, sep, n);
    lemma_last_segment_plain(n);
    let l = lower(n);
    assert forall|k: int| 0 <= k < l.len() implies !is_name_sep(#[trigger] l[k]) by {
        assert(l[k] == lower_char(n[k]));
    }
    lemma_last_segment_plain(l);
    assert(lower(l) =~= l);
    reveal_strlit("kernel32");
    reveal_strlit("NTDLL.DLL");
    reveal_strlit("ntdll");
    reveal_strlit(".dll");
    let k = "kernel32"@;
    lemma_last_segment_plain(k);
    assert(lower(k) =~= k);
    assert(!is_suffix(".dll"@, k)) by {
        if is_suffix(".dll"@, k) {
            assert(k.subrange(k.len() - 4, k.len() as int)[3] == ".dll"@[3]);
        }
    }
    let d = "NTDLL.DLL"@;
    lemma_last_segment_plain(d);
    assert(lower(d) =~= "ntdll.dll"@) by {
        reveal_strlit("ntdll.dll");
    }
    reveal_strlit("ntdll.dll");
    let ld = lower(d);
    assert(ld.subrange(ld.len() - 4, ld.len() as int) =~= ".dll"@);
    assert(strip_dll(ld) =~= "ntdll"@);
}

/// `KERNEL32.dll`, the name imports usually give, is kernel32.
pub proof fn lemma_kernel32_dll_name()
    ensures
        resolve_dll_spec("KERNEL32.dll"@) == Some(KnownModule::Kernel32),
{
    let n = "KERNEL32.dll"@;
    reveal_strlit("KERNEL32.dll");
    reveal_strlit("kernel32.dll");
    reveal_strlit("kernel32");
    reveal_strlit(".dll");
    lemma_last_segment_plain(n);
    let l = lower(n);
    assert(l =~= "kernel32.dll"@);
    assert(l.subrange(l.len() - 4, l.len() as int) =~= ".dll"@);
    assert(strip_dll(l) =~= "kernel32"@);
}

/// An import resolves through kernel32's exports whatever name it gives
/// kernel32 (`kernel32`, `KERNEL32.dll`, a path, an ApiSet routed to it),
/// and not at all through a name that does not reach kernel32.
pub proof fn law_resolve_through_kernel32(dll: Seq<char>, name: Seq<char>)
    ensures
        resolve_spec(dll, name) == if resolve_dll_spec(dll) == Some(KnownModule::Kernel32) {
            resolve_spec("KERNEL32.dll"@, name)
        } else {
            None
        },
{
    lemma_kernel32_dll_name();
}

/// ntdll procedure named `name`.
pub fn ntdll_addr(name: &str) -> (r: Option<Proc>)
    ensures
        r == ntdll_export_find(name@, 0),
{
    ntdll_export_lookup(name)
}

pub open spec fn resolve_by_name_spec(module: KnownModule, name: Seq<char>) -> Option<Proc> {
    match module {
        KnownModule::Kernel32 => kernel32_export_find(name, 0),
        KnownModule::Ntdll => ntdll_export_find(name, 0),
    }
}

/// Resolves `name` in the module (case-sensitive, like `GetProcAddress`).
pub fn resolve_by_name(module: KnownModule, name: &str) -> (r: Option<Proc>)
    ensures
        r == resolve_by_name_spec(module, name@),
{
    match module {
        KnownModule::Kernel32 => kernel32_export_lookup(name),
        KnownModule::Ntdll => ntdll_export_lookup(name),
    }
}

pub open spec fn resolve_by_ordinal_spec(module: KnownModule, ordinal: u16) -> Option<Proc> {
    let name = match module {
        KnownModule::Kernel32 => kernel32_ordinal_find(ordinal, 0),
        KnownModule::Ntdll => ntdll_ordinal_find(ordinal, 0),
    };
    match name {
        Some(n) => resolve_by_name_spec(module, n),
        None => None,
    }
}

/// Resolves an export ordinal of the module (real Windows 11 ordinals).
pub fn resolve_by_ordinal(module: KnownModule, ordinal: u16) -> (r: Option<Proc>)
    ensures
        r == resolve_by_ordinal_spec(module, ordinal),
{
    let name = match module {
        KnownModule::Kernel32 => kernel32_ordinal_lookup(ordinal),
        KnownModule::Ntdll => ntdll_ordinal_lookup(ordinal),
    };
    match name {
        Some(n) => resolve_by_name(module, n),
        None => None,
    }
}

/// Follows a `kernel32!name → ntdll!target` forwarder.
pub fn forward(name: &str) -> (r: Option<Proc>)
    ensures
        r == match forwarder_find(name@, 0) {
            Some(t) => ntdll_export_find(t, 0),
            None => None,
        },
{
    match forwarder_lookup(name) {
        Some(t) => ntdll_addr(t),
        None => None,
    }
}

pub open spec fn get_proc_address_spec(hmodule: u64, proc_name: Option<Seq<char>>, ordinal: Option<u16>) -> Result<Proc, Win32Error> {
    match lookup_spec(hmodule) {
        None => Err(Win32Error(ERROR_MOD_NOT_FOUND)),
        Some(m) => {
            let p = match (proc_name, ordinal) {
                (Some(n), _) => resolve_by_name_spec(m, n),
                (None, Some(o)) => resolve_by_ordinal_spec(m, o),
                (None, None) => None,
            };
            match p {
                Some(x) => Ok(x),
                None => Err(Win32Error(ERROR_PROC_NOT_FOUND)),
            }
        },
    }
}

/// A symbol that was found, or `ERROR_PROC_NOT_FOUND` (127).
pub open spec fn found_or_missing(p: Option<Proc>) -> Result<Proc, Win32Error> {
    match p {
        Some(x) => Ok(x),
        None => Err(Win32Error(127)),
    }
}

/// `GetProcAddress` looks in the module its handle names: by name in that
/// module's export table (ntdll's for the ntdll handle, kernel32's for the
/// kernel32 handle), by ordinal through that module's ordinal table then
/// its exports; a name wins over an ordinal; anything else is
/// `ERROR_MOD_NOT_FOUND` (126) for an unknown handle and
/// `ERROR_PROC_NOT_FOUND` (127) for a missing symbol.
pub proof fn law_get_proc_address(hmodule: u64, name: Option<Seq<char>>, ordinal: Option<u16>)
    ensures
        hmodule == NTDLL_PSEUDO_BASE ==> (name matches Some(n) ==> get_proc_address_spec(hmodule, name, ordinal)
            == found_or_missing(ntdll_export_find(n, 0))),
        hmodule == KERNEL32_PSEUDO_BASE ==> (name matches Some(n) ==> get_proc_address_spec(hmodule, name, ordinal)
            == found_or_missing(kernel32_export_find(n, 0))),
        hmodule == NTDLL_PSEUDO_BASE && name is None ==> (ordinal matches Some(o) ==> get_proc_address_spec(
            hmodule,
            name,
            ordinal,
        ) == found_or_missing(
            match ntdll_ordinal_find(o, 0) {
                Some(n) => ntdll_export_find(n, 0),
                None => None,
            },
        )),
        hmodule == KERNEL32_PSEUDO_BASE && name is None ==> (ordinal matches Some(o) ==> get_proc_address_spec(
            hmodule,
            name,
            ordinal,
        ) == found_or_missing(
            match kernel32_ordinal_find(o, 0) {
                Some(n) => kernel32_export_find(n, 0),
                None => None,
            },
        )),
        (hmodule == NTDLL_PSEUDO_BASE || hmodule == KERNEL32_PSEUDO_BASE) && name is None && ordinal is None
            ==> get_proc_address_spec(hmodule, name, ordinal) == Err::<Proc, Win32Error>(Win32Error(127)),
        hmodule != NTDLL_PSEUDO_BASE && hmodule != KERNEL32_PSEUDO_BASE ==> get_proc_address_spec(hmodule, name, ordinal)
            == Err::<Proc, Win32Error>(Win32Error(126)),
{
    assert(KERNEL32_PSEUDO_BASE != NTDLL_PSEUDO_BASE);
}

/// `GetProcAddress(h, name | ordinal)`: unknown module `MOD_NOT_FOUND`,
/// missing symbol or ordinal `PROC_NOT_FOUND`.
pub fn get_proc_address(hmodule: u64, proc_name: Option<&str>, ordinal: Option<u16>) -> (r: Result<Proc, Win32Error>)
    ensures
        r == get_proc_address_spec(hmodule, match proc_name { Some(n) => Some(n@), None => None }, ordinal),
        hmodule == NTDLL_PSEUDO_BASE ==> (proc_name matches Some(n) ==> r == found_or_missing(ntdll_export_find(n@, 0))),
        hmodule == KERNEL32_PSEUDO_BASE ==> (proc_name matches Some(n) ==> r == found_or_missing(
            kernel32_export_find(n@, 0),
        )),
        hmodule != NTDLL_PSEUDO_BASE && hmodule != KERNEL32_PSEUDO_BASE ==> r == Err::<Proc, Win32Error>(Win32Error(126)),
{
    proof {
        law_get_proc_address(hmodule, match proc_name { Some(n) => Some(n@), None => None }, ordinal);
    }
    let module = match lookup(hmodule) {
        Some(m) => m,
        None => return Err(Win32Error(ERROR_MOD_NOT_FOUND)),
    };
    let addr = match (proc_name, ordinal) {
        (Some(n), _) => resolve_by_name(module, n),
        (None, Some(o)) => resolve_by_ordinal(module, o),
        (None, None) => None,
    };
    match addr {
        Some(a) => Ok(a),
        None => Err(Win32Error(ERROR_PROC_NOT_FOUND)),
    }
}

} // verus!
