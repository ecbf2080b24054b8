//! The decisions of the kernel32 exports: the NUL-terminated strings a
//! caller's pointers name, the name-or-ordinal form of `GetProcAddress`,
//! UTF-8 and UTF-16 names, and how each result becomes the export's return
//! value plus the thread's last error. Reading the caller's memory through
//! its pointers is left to the caller of these functions, which hands over
//! the window of memory read (`None` for a null pointer).
use vstd::prelude::*;
use vstd::utf8::{decode_utf8, valid_utf8};
use crate::abi::{
    Win32Error, WindowsHandle, ERROR_INVALID_PARAMETER, ERROR_MOD_NOT_FOUND, ERROR_PROC_NOT_FOUND, ERROR_SUCCESS,
    HANDLE_INVALID,
};
use crate::kernelbase::{get_std_handle, nul_end, nul_position, prefix_bytes, utf8_text};
use crate::modules::{
    free_library, get_module_handle, get_proc_address, get_proc_address_spec, load_library, lookup_spec, pseudo_spec,
    resolve_dll_spec,
};
use crate::symbols::Proc;

verus! {

/// Bytes an export reads through a caller's ANSI string pointer.
pub const ANSI_WINDOW: usize = 32768;

/// UTF-16 units an export reads through a caller's wide string pointer.
pub const WIDE_WINDOW: usize = 16384;

pub open spec fn has_nul(b: Seq<u8>) -> bool {
    exists|i: int| 0 <= i < b.len() && b[i] == 0
}

/// The string a caller's ANSI pointer names, given the window read through
/// it: the bytes before the first NUL; a null pointer, or no NUL within the
/// window, is `ERROR_INVALID_PARAMETER`.
pub open spec fn ansi_arg(w: Option<Seq<u8>>) -> Result<Seq<u8>, Win32Error> {
    match w {
        Some(b) => if has_nul(b) {
            Ok(b.take(nul_end(b)))
        } else {
            Err(Win32Error(ERROR_INVALID_PARAMETER))
        },
        None => Err(Win32Error(ERROR_INVALID_PARAMETER)),
    }
}

pub open spec fn has_nul16(b: Seq<u16>) -> bool {
    exists|i: int| 0 <= i < b.len() && b[i] == 0
}

/// Index of the first NUL unit, or the length.
pub open spec fn nul_end16(b: Seq<u16>) -> int {
    if has_nul16(b) {
        choose|i: int| 0 <= i < b.len() && b[i] == 0 && forall|j: int| 0 <= j < i ==> b[j] != 0
    } else {
        b.len() as int
    }
}

/// `ansi_arg` for wide strings.
pub open spec fn wide_arg(w: Option<Seq<u16>>) -> Result<Seq<u16>, Win32Error> {
    match w {
        Some(b) => if has_nul16(b) {
            Ok(b.take(nul_end16(b)))
        } else {
            Err(Win32Error(ERROR_INVALID_PARAMETER))
        },
        None => Err(Win32Error(ERROR_INVALID_PARAMETER)),
    }
}

/// UTF-16 decoding: a high surrogate must be followed by a low one; a lone
/// surrogate makes the units invalid.
pub open spec fn utf16_decode(u: Seq<u16>) -> Option<Seq<char>>
    decreases u.len(),
{
    if u.len() == 0 {
        Some(Seq::empty())
    } else if 0xD800 <= u[0] <= 0xDBFF {
        if u.len() >= 2 && 0xDC00 <= u[1] <= 0xDFFF {
            match utf16_decode(u.subrange(2, u.len() as int)) {
                Some(rest) => Some(seq![(0x10000 + (u[0] - 0xD800) * 0x400 + (u[1] - 0xDC00)) as char] + rest),
                None => None,
            }
        } else {
            None
        }
    } else if 0xDC00 <= u[0] <= 0xDFFF {
        None
    } else {
        match utf16_decode(u.subrange(1, u.len() as int)) {
            Some(rest) => Some(seq![u[0] as char] + rest),
            None => None,
        }
    }
}

/// Text of UTF-16 units (std `String::from_utf16`): the decoded characters
/// when the units are valid UTF-16, else nothing.
#[verifier::external_body]
fn utf16_text(units: &[u16]) -> (r: Option<String>)
    ensures
        match utf16_decode(units@) {
            Some(t) => r matches Some(s) && s@ == t,
            None => r is None,
        },
{
    String::from_utf16(units).ok()
}

pub open spec fn opt_bytes(w: Option<&[u8]>) -> Option<Seq<u8>> {
    match w {
        Some(b) => Some(b@),
        None => None,
    }
}

pub open spec fn opt_units(w: Option<&[u16]>) -> Option<Seq<u16>> {
    match w {
        Some(b) => Some(b@),
        None => None,
    }
}

/// The string named by an ANSI pointer (see `ansi_arg`).
pub fn ansi_slice(window: Option<&[u8]>) -> (r: Result<Vec<u8>, Win32Error>)
    ensures
        match (r, ansi_arg(opt_bytes(window))) {
            (Ok(v), Ok(b)) => v@ == b,
            (Err(e), Err(f)) => e == f,
            _ => false,
        },
{
    let b = match window {
        Some(b) => b,
        None => return Err(Win32Error(ERROR_INVALID_PARAMETER)),
    };
    let n = nul_position(b);
    if n == b.len() {
        return Err(Win32Error(ERROR_INVALID_PARAMETER));
    }
    Ok(prefix_bytes(b, n))
}

fn nul_position16(b: &[u16]) -> (r: usize)
    ensures
        r as int == nul_end16(b@),
        r <= b@.len(),
        r < b@.len() ==> b@[r as int] == 0,
        forall|j: int| 0 <= j < r ==> b@[j] != 0,
{
    let mut i: usize = 0;
    while i < b.len()
        invariant
            i <= b@.len(),
            forall|j: int| 0 <= j < i ==> b@[j] != 0,
        decreases b@.len() - i,
    {
        if b[i] == 0 {
            proof {
                let k = choose|k: int| 0 <= k < b@.len() && b@[k] == 0 && forall|j: int| 0 <= j < k ==> b@[j] != 0;
                if k < i {
                } else if k > i {
                    assert(b@[i as int] == 0);
                }
            }
            return i;
        }
        i += 1;
    }
    i
}

/// The string named by a wide pointer (see `wide_arg`).
pub fn wide_slice(window: Option<&[u16]>) -> (r: Result<Vec<u16>, Win32Error>)
    ensures
        match (r, wide_arg(opt_units(window))) {
            (Ok(v), Ok(b)) => v@ == b,
            (Err(e), Err(f)) => e == f,
            _ => false,
        },
{
    let b = match window {
        Some(b) => b,
        None => return Err(Win32Error(ERROR_INVALID_PARAMETER)),
    };
    let n = nul_position16(b);
    if n == b.len() {
        return Err(Win32Error(ERROR_INVALID_PARAMETER));
    }
    let mut r: Vec<u16> = Vec::new();
    let mut i: usize = 0;
    while i < n
        invariant
            n < b@.len(),
            i <= n,
            r@ == b@.take(i as int),
        decreases n - i,
    {
        r.push(b[i]);
        assert(b@.take(i + 1) =~= b@.take(i as int).push(b@[i as int]));
        i += 1;
    }
    Ok(r)
}

/// A Win32 result as an export returns it: the value with last error
/// `ERROR_SUCCESS`, or `fail` with the error.
pub open spec fn outcome<T>(r: Result<T, Win32Error>, fail: T) -> (T, Win32Error) {
    match r {
        Ok(v) => (v, Win32Error(ERROR_SUCCESS)),
        Err(e) => (fail, e),
    }
}

pub fn win32_outcome<T>(r: Result<T, Win32Error>, fail: T) -> (o: (T, Win32Error))
    ensures
        o == outcome(r, fail),
{
    match r {
        Ok(v) => (v, Win32Error(ERROR_SUCCESS)),
        Err(e) => (fail, e),
    }
}

/// `GetStdHandle(n)`: the handle, or `INVALID_HANDLE_VALUE` with the error.
pub fn get_std_handle_export(n: i32, stdout_handle: WindowsHandle, stderr_handle: WindowsHandle) -> (o: (
    u64,
    Win32Error,
))
    ensures
        o == (if n == -10 {
            (HANDLE_INVALID, Win32Error(crate::abi::ERROR_FILE_NOT_FOUND))
        } else if n == -11 {
            (stdout_handle.0, Win32Error(ERROR_SUCCESS))
        } else if n == -12 {
            (stderr_handle.0, Win32Error(ERROR_SUCCESS))
        } else {
            (HANDLE_INVALID, Win32Error(ERROR_INVALID_PARAMETER))
        }),
{
    match get_std_handle(n, stdout_handle, stderr_handle) {
        Ok(h) => (h.0, Win32Error(ERROR_SUCCESS)),
        Err(e) => (WindowsHandle::invalid().0, e),
    }
}

pub open spec fn proc_outcome(r: Result<Proc, Win32Error>) -> (Option<Proc>, Win32Error) {
    match r {
        Ok(p) => (Some(p), Win32Error(ERROR_SUCCESS)),
        Err(e) => (None, e),
    }
}

/// `GetProcAddress(h, lpProcName)`: a null `lpProcName` is
/// `ERROR_INVALID_PARAMETER`; one up to 0xFFFF is an ordinal (never read);
/// otherwise `name` is the memory it points to, whose string must be UTF-8
/// (else `ERROR_PROC_NOT_FOUND`). The procedure found, or `None` (NULL)
/// with the error.
pub fn get_proc_address_export(h_module: u64, lp_proc_name: u64, name: Option<&[u8]>) -> (o: (
    Option<Proc>,
    Win32Error,
))
    ensures
        lp_proc_name == 0 ==> o == (None::<Proc>, Win32Error(ERROR_INVALID_PARAMETER)),
        0 < lp_proc_name <= 0xFFFF ==> o == proc_outcome(get_proc_address_spec(h_module, None, Some(lp_proc_name as u16))),
        lp_proc_name > 0xFFFF ==> match ansi_arg(opt_bytes(name)) {
            Err(e) => o == (None::<Proc>, e),
            Ok(b) => if valid_utf8(b) {
                o == proc_outcome(get_proc_address_spec(h_module, Some(decode_utf8(b)), None))
            } else {
                o == (None::<Proc>, Win32Error(ERROR_PROC_NOT_FOUND))
            },
        },
{
    if lp_proc_name == 0 {
        return (None, Win32Error(ERROR_INVALID_PARAMETER));
    }
    let r = if lp_proc_name <= 0xFFFF {
        get_proc_address(h_module, None, Some(lp_proc_name as u16))
    } else {
        let bytes = match ansi_slice(name) {
            Ok(b) => b,
            Err(e) => return (None, e),
        };
        let text = match utf8_text(bytes.as_slice()) {
            Some(t) => t,
            None => return (None, Win32Error(ERROR_PROC_NOT_FOUND)),
        };
        get_proc_address(h_module, Some(text.as_str()), None)
    };
    match r {
        Ok(p) => (Some(p), Win32Error(ERROR_SUCCESS)),
        Err(e) => (None, e),
    }
}

/// `GetModuleHandle(name?)` over a name already decoded.
pub open spec fn module_handle_spec(name: Option<Seq<char>>, exe_base: u64) -> Result<u64, Win32Error> {
    match name {
        None => Ok(exe_base),
        Some(n) => match resolve_dll_spec(n) {
            Some(m) => Ok(pseudo_spec(m)),
            None => Err(Win32Error(ERROR_MOD_NOT_FOUND)),
        },
    }
}

/// `GetModuleHandleA(lpModuleName)`: a null name is the process image;
/// otherwise its string must be UTF-8 (else `ERROR_MOD_NOT_FOUND`). The
/// handle, or 0 with the error.
pub fn get_module_handle_a_export(name: Option<&[u8]>, exe_base: u64) -> (o: (u64, Win32Error))
    ensures
        name is None ==> o == outcome(module_handle_spec(None, exe_base), 0),
        name is Some ==> match ansi_arg(opt_bytes(name)) {
            Err(e) => o == (0u64, e),
            Ok(b) => if valid_utf8(b) {
                o == outcome(module_handle_spec(Some(decode_utf8(b)), exe_base), 0)
            } else {
                o == (0u64, Win32Error(ERROR_MOD_NOT_FOUND))
            },
        },
{
    let r = match name {
        None => get_module_handle(None, exe_base),
        Some(_) => {
            let bytes = match ansi_slice(name) {
                Ok(b) => b,
                Err(e) => return (0, e),
            };
            let text = match utf8_text(bytes.as_slice()) {
                Some(t) => t,
                None => return (0, Win32Error(ERROR_MOD_NOT_FOUND)),
            };
            get_module_handle(Some(text.as_str()), exe_base)
        },
    };
    win32_outcome(r, 0)
}

/// `GetModuleHandleW(lpModuleName)`: as `GetModuleHandleA`, with a UTF-16
/// name (invalid UTF-16 is `ERROR_MOD_NOT_FOUND`).
pub fn get_module_handle_w_export(name: Option<&[u16]>, exe_base: u64) -> (o: (u64, Win32Error))
    ensures
        name is None ==> o == outcome(module_handle_spec(None, exe_base), 0),
        name is Some ==> match wide_arg(opt_units(name)) {
            Err(e) => o == (0u64, e),
            Ok(u) => match utf16_decode(u) {
                Some(t) => o == outcome(module_handle_spec(Some(t), exe_base), 0),
                None => o == (0u64, Win32Error(ERROR_MOD_NOT_FOUND)),
            },
        },
{
    let r = match name {
        None => get_module_handle(None, exe_base),
        Some(_) => {
            let units = match wide_slice(name) {
                Ok(u) => u,
                Err(e) => return (0, e),
            };
            let text = match utf16_text(units.as_slice()) {
                Some(t) => t,
                None => return (0, Win32Error(ERROR_MOD_NOT_FOUND)),
            };
            get_module_handle(Some(text.as_str()), exe_base)
        },
    };
    win32_outcome(r, 0)
}

/// `LoadLibrary` over a name already decoded.
pub open spec fn load_library_spec(name: Seq<char>) -> Result<u64, Win32Error> {
    match resolve_dll_spec(name) {
        Some(m) => Ok(pseudo_spec(m)),
        None => Err(Win32Error(ERROR_MOD_NOT_FOUND)),
    }
}

/// `LoadLibraryA(lpLibFileName)`: the name must be a string (a null
/// pointer is `ERROR_INVALID_PARAMETER`) in UTF-8 (else
/// `ERROR_MOD_NOT_FOUND`). The handle, or 0 with the error.
pub fn load_library_a_export(name: Option<&[u8]>) -> (o: (u64, Win32Error))
    ensures
        match ansi_arg(opt_bytes(name)) {
            Err(e) => o == (0u64, e),
            Ok(b) => if valid_utf8(b) {
                o == outcome(load_library_spec(decode_utf8(b)), 0)
            } else {
                o == (0u64, Win32Error(ERROR_MOD_NOT_FOUND))
            },
        },
{
    let bytes = match ansi_slice(name) {
        Ok(b) => b,
        Err(e) => return (0, e),
    };
    let text = match utf8_text(bytes.as_slice()) {
        Some(t) => t,
        None => return (0, Win32Error(ERROR_MOD_NOT_FOUND)),
    };
    win32_outcome(load_library(text.as_str()), 0)
}

/// `LoadLibraryW(lpLibFileName)`: as `LoadLibraryA`, with a UTF-16 name.
pub fn load_library_w_export(name: Option<&[u16]>) -> (o: (u64, Win32Error))
    ensures
        match wide_arg(opt_units(name)) {
            Err(e) => o == (0u64, e),
            Ok(u) => match utf16_decode(u) {
                Some(t) => o == outcome(load_library_spec(t), 0),
                None => o == (0u64, Win32Error(ERROR_MOD_NOT_FOUND)),
            },
        },
{
    let units = match wide_slice(name) {
        Ok(u) => u,
        Err(e) => return (0, e),
    };
    let text = match utf16_text(units.as_slice()) {
        Some(t) => t,
        None => return (0, Win32Error(ERROR_MOD_NOT_FOUND)),
    };
    win32_outcome(load_library(text.as_str()), 0)
}

/// `FreeLibrary(h)`: TRUE (1) for a module token or the process image,
/// else FALSE (0) with `ERROR_MOD_NOT_FOUND`.
pub fn free_library_export(h_module: u64, exe_base: u64) -> (o: (i32, Win32Error))
    ensures
        o == (if lookup_spec(h_module) is Some || (exe_base != 0 && h_module == exe_base) {
            (1i32, Win32Error(ERROR_SUCCESS))
        } else {
            (0i32, Win32Error(ERROR_MOD_NOT_FOUND))
        }),
{
    match free_library(h_module, exe_base) {
        Ok(()) => (1, Win32Error(ERROR_SUCCESS)),
        Err(e) => (0, e),
    }
}

} // verus!
