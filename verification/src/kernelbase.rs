//! The Win32 layer over the NT services: status translation, standard
//! handles and the argument checks of `CreateFileA`.
use vstd::prelude::*;
use vstd::utf8::{decode_utf8, valid_utf8};
use crate::abi::{
    NtStatus, Win32Error, WindowsHandle, ERROR_ACCESS_DENIED, ERROR_FILE_EXISTS, ERROR_FILE_NOT_FOUND,
    ERROR_INVALID_HANDLE, ERROR_INVALID_PARAMETER, ERROR_NOT_ENOUGH_MEMORY, ERROR_NOT_SUPPORTED, ERROR_SUCCESS,
    STATUS_ACCESS_DENIED, STATUS_INVALID_HANDLE, STATUS_INVALID_PARAMETER, STATUS_NO_MEMORY,
    STATUS_OBJECT_NAME_COLLISION, STATUS_OBJECT_NAME_NOT_FOUND, STATUS_SUCCESS,
};
use crate::nt_file::CreateOptions;

verus! {

/// Win32 error of an NT status.
pub open spec fn win32_of(s: u32) -> u32 {
    if s == STATUS_SUCCESS {
        ERROR_SUCCESS
    } else if s == STATUS_INVALID_HANDLE {
        ERROR_INVALID_HANDLE
    } else if s == STATUS_NO_MEMORY {
        ERROR_NOT_ENOUGH_MEMORY
    } else if s == STATUS_INVALID_PARAMETER {
        ERROR_INVALID_PARAMETER
    } else if s == STATUS_ACCESS_DENIED {
        ERROR_ACCESS_DENIED
    } else if s == STATUS_OBJECT_NAME_NOT_FOUND {
        ERROR_FILE_NOT_FOUND
    } else if s == STATUS_OBJECT_NAME_COLLISION {
        ERROR_FILE_EXISTS
    } else {
        ERROR_NOT_SUPPORTED
    }
}

/// The Win32 error reported for an NT status (unknown statuses are
/// `ERROR_NOT_SUPPORTED`).
pub fn nt_to_win32(s: NtStatus) -> (e: Win32Error)
    ensures
        e.0 == win32_of(s.0),
{
    if s.0 == STATUS_SUCCESS {
        Win32Error(ERROR_SUCCESS)
    } else if s.0 == STATUS_INVALID_HANDLE {
        Win32Error(ERROR_INVALID_HANDLE)
    } else if s.0 == STATUS_NO_MEMORY {
        Win32Error(ERROR_NOT_ENOUGH_MEMORY)
    } else if s.0 == STATUS_INVALID_PARAMETER {
        Win32Error(ERROR_INVALID_PARAMETER)
    } else if s.0 == STATUS_ACCESS_DENIED {
        Win32Error(ERROR_ACCESS_DENIED)
    } else if s.0 == STATUS_OBJECT_NAME_NOT_FOUND {
        Win32Error(ERROR_FILE_NOT_FOUND)
    } else if s.0 == STATUS_OBJECT_NAME_COLLISION {
        Win32Error(ERROR_FILE_EXISTS)
    } else {
        Win32Error(ERROR_NOT_SUPPORTED)
    }
}

/// `GetStdHandle(n)` given the process's standard output and error
/// handles: -11 and -12 name them; -10 (stdin) is not modelled
/// (`ERROR_FILE_NOT_FOUND`); anything else is `ERROR_INVALID_PARAMETER`.
pub fn get_std_handle(n_std_handle: i32, stdout_handle: WindowsHandle, stderr_handle: WindowsHandle) -> (r: Result<
    WindowsHandle,
    Win32Error,
>)
    ensures
        r == if n_std_handle == -10 {
            Err(Win32Error(ERROR_FILE_NOT_FOUND))
        } else if n_std_handle == -11 {
            Ok(stdout_handle)
        } else if n_std_handle == -12 {
            Ok(stderr_handle)
        } else {
            Err::<WindowsHandle, Win32Error>(Win32Error(ERROR_INVALID_PARAMETER))
        },
{
    if n_std_handle == -10 {
        Err(Win32Error(ERROR_FILE_NOT_FOUND))
    } else if n_std_handle == -11 {
        Ok(stdout_handle)
    } else if n_std_handle == -12 {
        Ok(stderr_handle)
    } else {
        Err(Win32Error(ERROR_INVALID_PARAMETER))
    }
}

/// `Ok` for a successful NT status, else its Win32 error.
pub fn status_result(s: NtStatus) -> (r: Result<(), Win32Error>)
    ensures
        s.0 == STATUS_SUCCESS <==> r is Ok,
        r matches Err(e) ==> e.0 == win32_of(s.0),
{
    if s.0 == STATUS_SUCCESS {
        Ok(())
    } else {
        Err(nt_to_win32(s))
    }
}

/// Text of UTF-8 bytes (std `str::from_utf8`): the decoded characters
/// when the bytes are valid UTF-8, else an error.
#[verifier::external_body]
pub(crate) fn utf8_text(bytes: &[u8]) -> (r: Option<String>)
    ensures
        r is Some <==> valid_utf8(bytes@),
        r matches Some(s) ==> s@ == decode_utf8(bytes@),
{
    match std::str::from_utf8(bytes) {
        Ok(s) => Some(s.to_owned()),
        Err(_) => None,
    }
}

/// Index of the first NUL byte, or the length.
pub open spec fn nul_end(b: Seq<u8>) -> int {
    if exists|i: int| 0 <= i < b.len() && b[i] == 0 {
        choose|i: int| 0 <= i < b.len() && b[i] == 0 && forall|j: int| 0 <= j < i ==> b[j] != 0
    } else {
        b.len() as int
    }
}

/// The longest a path argument may be.
pub const MAX_PATH_BYTES: usize = 32767;

pub(crate) fn nul_position(b: &[u8]) -> (r: usize)
    ensures
        r as int == nul_end(b@),
        r <= b@.len(),
        r < b@.len() ==> b@[r as int] == 0,
        forall|j: int| 0 <= j < r ==> b@[j] != 0,
{
    let mut i: usize = 0;
    while i < b.len()
        invariant
            i <= b@.len(),
            forall|j: int| 0 <= j < i ==> b@[j] != 0,
        decreases b@.len() - i,
    {
        if b[i] == 0 {
            proof {
                let k = choose|k: int| 0 <= k < b@.len() && b@[k] == 0 && forall|j: int| 0 <= j < k ==> b@[j] != 0;
                if k < i {
                } else if k > i {
                    assert(b@[i as int] == 0);
                }
            }
            return i;
        }
        i += 1;
    }
    i
}

pub(crate) fn prefix_bytes(b: &[u8], n: usize) -> (r: Vec<u8>)
    requires
        n <= b@.len(),
    ensures
        r@ == b@.take(n as int),
{
    let mut r: Vec<u8> = Vec::new();
    let mut i: usize = 0;
    while i < n
        invariant
            n <= b@.len(),
            i <= n,
            r@ == b@.take(i as int),
        decreases n - i,
    {
        r.push(b[i]);
        assert(b@.take(i + 1) =~= b@.take(i as int).push(b@[i as int]));
        i += 1;
    }
    r
}

/// The arguments `CreateFileA` hands to `NtCreateFile`: the path (the
/// bytes up to the first NUL, which must be UTF-8; at most `MAX_PATH_BYTES`
/// bytes in all) and the create options of `access` and `disposition`;
/// each refusal is its Win32 error.
pub fn create_file_a(path_ansi: &[u8], access: u32, disposition: u32) -> (r: Result<(String, CreateOptions), Win32Error>)
    ensures
        path_ansi@.len() > MAX_PATH_BYTES ==> r == Err::<(String, CreateOptions), Win32Error>(Win32Error(ERROR_INVALID_PARAMETER)),
        path_ansi@.len() <= MAX_PATH_BYTES && !valid_utf8(path_ansi@.take(nul_end(path_ansi@))) ==> r == Err::<
            (String, CreateOptions),
            Win32Error,
        >(Win32Error(ERROR_INVALID_PARAMETER)),
        path_ansi@.len() <= MAX_PATH_BYTES && valid_utf8(path_ansi@.take(nul_end(path_ansi@))) ==> {
            &&& (1 <= disposition <= 5 <==> r is Ok)
            &&& !(1 <= disposition <= 5) ==> r == Err::<(String, CreateOptions), Win32Error>(Win32Error(ERROR_INVALID_PARAMETER))
            &&& r matches Ok((p, o)) ==> p@ == decode_utf8(path_ansi@.take(nul_end(path_ansi@))) && o == CreateOptions {
                read: (access & crate::nt_file::GENERIC_READ) != 0 || (access & (crate::nt_file::GENERIC_READ
                    | crate::nt_file::GENERIC_WRITE)) == 0,
                write: (access & crate::nt_file::GENERIC_WRITE) != 0,
                disposition,
            }
        },
{
    if path_ansi.len() > MAX_PATH_BYTES {
        return Err(Win32Error(ERROR_INVALID_PARAMETER));
    }
    let nul = nul_position(path_ansi);
    let prefix = prefix_bytes(path_ansi, nul);
    let path = match utf8_text(prefix.as_slice()) {
        Some(p) => p,
        None => return Err(Win32Error(ERROR_INVALID_PARAMETER)),
    };
    match CreateOptions::from_win32(access, disposition) {
        Ok(o) => Ok((path, o)),
        Err(s) => {
            let e = nt_to_win32(s);
            assert(e.0 == ERROR_INVALID_PARAMETER);
            Err(e)
        },
    }
}

} // verus!
