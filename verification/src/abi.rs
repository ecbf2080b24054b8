//! Windows ABI values used across the runtime: NT status codes, Win32
//! error codes, handles, page protections and allocation types.
use vstd::prelude::*;

verus! {

pub const STATUS_SUCCESS: u32 = 0;
pub const STATUS_UNSUCCESSFUL: u32 = 0xC000_0001;
pub const STATUS_NOT_IMPLEMENTED: u32 = 0xC000_0002;
pub const STATUS_INVALID_HANDLE: u32 = 0xC000_0008;
pub const STATUS_INVALID_PARAMETER: u32 = 0xC000_000D;
pub const STATUS_NO_MEMORY: u32 = 0xC000_0017;
pub const STATUS_ACCESS_DENIED: u32 = 0xC000_0022;
pub const STATUS_OBJECT_NAME_NOT_FOUND: u32 = 0xC000_0034;
pub const STATUS_OBJECT_NAME_COLLISION: u32 = 0xC000_0035;
pub const STATUS_OBJECT_PATH_INVALID: u32 = 0xC000_0039;
pub const STATUS_NOT_SUPPORTED: u32 = 0xC000_00BB;
pub const ERROR_SUCCESS: u32 = 0;
pub const ERROR_FILE_NOT_FOUND: u32 = 2;
pub const ERROR_ACCESS_DENIED: u32 = 5;
pub const ERROR_INVALID_HANDLE: u32 = 6;
pub const ERROR_NOT_ENOUGH_MEMORY: u32 = 8;
pub const ERROR_NOT_SUPPORTED: u32 = 50;
pub const ERROR_FILE_EXISTS: u32 = 80;
pub const ERROR_INVALID_PARAMETER: u32 = 87;
pub const ERROR_MOD_NOT_FOUND: u32 = 126;
pub const ERROR_PROC_NOT_FOUND: u32 = 127;
pub const HANDLE_NULL: u64 = 0;
pub const HANDLE_INVALID: u64 = 0xFFFF_FFFF_FFFF_FFFF;
pub const PAGE_NOACCESS: u32 = 0x01;
pub const PAGE_READONLY: u32 = 0x02;
pub const PAGE_READWRITE: u32 = 0x04;
pub const PAGE_WRITECOPY: u32 = 0x08;
pub const PAGE_EXECUTE: u32 = 0x10;
pub const PAGE_EXECUTE_READ: u32 = 0x20;
pub const PAGE_EXECUTE_READWRITE: u32 = 0x40;
pub const PAGE_EXECUTE_WRITECOPY: u32 = 0x80;
pub const MEM_COMMIT: u32 = 0x1000;
pub const MEM_RESERVE: u32 = 0x2000;
pub const MEM_DECOMMIT: u32 = 0x4000;
pub const MEM_RELEASE: u32 = 0x8000;

/// `NTSTATUS`.
#[derive(Debug, Clone, Copy, PartialEq, Eq, Structural)]
pub struct NtStatus(pub u32);

impl NtStatus {
    pub fn success() -> (r: NtStatus)
        ensures
            r == NtStatus(STATUS_SUCCESS),
    {
        NtStatus(STATUS_SUCCESS)
    }

    pub fn unsuccessful() -> (r: NtStatus)
        ensures
            r == NtStatus(STATUS_UNSUCCESSFUL),
    {
        NtStatus(STATUS_UNSUCCESSFUL)
    }

    pub fn not_implemented() -> (r: NtStatus)
        ensures
            r == NtStatus(STATUS_NOT_IMPLEMENTED),
    {
        NtStatus(STATUS_NOT_IMPLEMENTED)
    }

    pub fn invalid_handle() -> (r: NtStatus)
        ensures
            r == NtStatus(STATUS_INVALID_HANDLE),
    {
        NtStatus(STATUS_INVALID_HANDLE)
    }

    pub fn invalid_parameter() -> (r: NtStatus)
        ensures
            r == NtStatus(STATUS_INVALID_PARAMETER),
    {
        NtStatus(STATUS_INVALID_PARAMETER)
    }

    pub fn no_memory() -> (r: NtStatus)
        ensures
            r == NtStatus(STATUS_NO_MEMORY),
    {
        NtStatus(STATUS_NO_MEMORY)
    }

    pub fn access_denied() -> (r: NtStatus)
        ensures
            r == NtStatus(STATUS_ACCESS_DENIED),
    {
        NtStatus(STATUS_ACCESS_DENIED)
    }

    pub fn object_name_not_found() -> (r: NtStatus)
        ensures
            r == NtStatus(STATUS_OBJECT_NAME_NOT_FOUND),
    {
        NtStatus(STATUS_OBJECT_NAME_NOT_FOUND)
    }

    pub fn object_name_collision() -> (r: NtStatus)
        ensures
            r == NtStatus(STATUS_OBJECT_NAME_COLLISION),
    {
        NtStatus(STATUS_OBJECT_NAME_COLLISION)
    }

    pub fn object_path_invalid() -> (r: NtStatus)
        ensures
            r == NtStatus(STATUS_OBJECT_PATH_INVALID),
    {
        NtStatus(STATUS_OBJECT_PATH_INVALID)
    }

    pub fn not_supported() -> (r: NtStatus)
        ensures
            r == NtStatus(STATUS_NOT_SUPPORTED),
    {
        NtStatus(STATUS_NOT_SUPPORTED)
    }

}

/// Win32 `GetLastError` code.
#[derive(Debug, Clone, Copy, PartialEq, Eq, Structural)]
pub struct Win32Error(pub u32);

impl Win32Error {
    pub fn success() -> (r: Win32Error)
        ensures
            r == Win32Error(ERROR_SUCCESS),
    {
        Win32Error(ERROR_SUCCESS)
    }

    pub fn file_not_found() -> (r: Win32Error)
        ensures
            r == Win32Error(ERROR_FILE_NOT_FOUND),
    {
        Win32Error(ERROR_FILE_NOT_FOUND)
    }

    pub fn access_denied() -> (r: Win32Error)
        ensures
            r == Win32Error(ERROR_ACCESS_DENIED),
    {
        Win32Error(ERROR_ACCESS_DENIED)
    }

    pub fn invalid_handle() -> (r: Win32Error)
        ensures
            r == Win32Error(ERROR_INVALID_HANDLE),
    {
        Win32Error(ERROR_INVALID_HANDLE)
    }

    pub fn not_enough_memory() -> (r: Win32Error)
        ensures
            r == Win32Error(ERROR_NOT_ENOUGH_MEMORY),
    {
        Win32Error(ERROR_NOT_ENOUGH_MEMORY)
    }

    pub fn not_supported() -> (r: Win32Error)
        ensures
            r == Win32Error(ERROR_NOT_SUPPORTED),
    {
        Win32Error(ERROR_NOT_SUPPORTED)
    }

    pub fn file_exists() -> (r: Win32Error)
        ensures
            r == Win32Error(ERROR_FILE_EXISTS),
    {
        Win32Error(ERROR_FILE_EXISTS)
    }

    pub fn invalid_parameter() -> (r: Win32Error)
        ensures
            r == Win32Error(ERROR_INVALID_PARAMETER),
    {
        Win32Error(ERROR_INVALID_PARAMETER)
    }

    pub fn mod_not_found() -> (r: Win32Error)
        ensures
            r == Win32Error(ERROR_MOD_NOT_FOUND),
    {
        Win32Error(ERROR_MOD_NOT_FOUND)
    }

    pub fn proc_not_found() -> (r: Win32Error)
        ensures
            r == Win32Error(ERROR_PROC_NOT_FOUND),
    {
        Win32Error(ERROR_PROC_NOT_FOUND)
    }

}

/// Opaque Windows `HANDLE` value.
#[derive(Debug, Clone, Copy, PartialEq, Eq, Structural)]
pub struct WindowsHandle(pub u64);

impl WindowsHandle {
    pub fn null() -> (r: WindowsHandle)
        ensures
            r == WindowsHandle(HANDLE_NULL),
    {
        WindowsHandle(HANDLE_NULL)
    }

    pub fn invalid() -> (r: WindowsHandle)
        ensures
            r == WindowsHandle(HANDLE_INVALID),
    {
        WindowsHandle(HANDLE_INVALID)
    }

}

/// `PAGE_*` protection bits.
#[derive(Debug, Clone, Copy, PartialEq, Eq, Structural)]
pub struct PageProtect(pub u32);

impl PageProtect {
    pub fn noaccess() -> (r: PageProtect)
        ensures
            r == PageProtect(PAGE_NOACCESS),
    {
        PageProtect(PAGE_NOACCESS)
    }

    pub fn readonly() -> (r: PageProtect)
        ensures
            r == PageProtect(PAGE_READONLY),
    {
        PageProtect(PAGE_READONLY)
    }

    pub fn readwrite() -> (r: PageProtect)
        ensures
            r == PageProtect(PAGE_READWRITE),
    {
        PageProtect(PAGE_READWRITE)
    }

    pub fn writecopy() -> (r: PageProtect)
        ensures
            r == PageProtect(PAGE_WRITECOPY),
    {
        PageProtect(PAGE_WRITECOPY)
    }

    pub fn execute() -> (r: PageProtect)
        ensures
            r == PageProtect(PAGE_EXECUTE),
    {
        PageProtect(PAGE_EXECUTE)
    }

    pub fn execute_read() -> (r: PageProtect)
        ensures
            r == PageProtect(PAGE_EXECUTE_READ),
    {
        PageProtect(PAGE_EXECUTE_READ)
    }

    pub fn execute_readwrite() -> (r: PageProtect)
        ensures
            r == PageProtect(PAGE_EXECUTE_READWRITE),
    {
        PageProtect(PAGE_EXECUTE_READWRITE)
    }

    pub fn execute_writecopy() -> (r: PageProtect)
        ensures
            r == PageProtect(PAGE_EXECUTE_WRITECOPY),
    {
        PageProtect(PAGE_EXECUTE_WRITECOPY)
    }


    pub fn bits(&self) -> (r: u32)
        ensures
            r == self.0,
    {
        self.0
    }
}

/// `MEM_*` allocation-type bits.
#[derive(Debug, Clone, Copy, PartialEq, Eq, Structural)]
pub struct AllocType(pub u32);

impl AllocType {
    pub fn commit() -> (r: AllocType)
        ensures
            r == AllocType(MEM_COMMIT),
    {
        AllocType(MEM_COMMIT)
    }

    pub fn reserve() -> (r: AllocType)
        ensures
            r == AllocType(MEM_RESERVE),
    {
        AllocType(MEM_RESERVE)
    }

    pub fn decommit() -> (r: AllocType)
        ensures
            r == AllocType(MEM_DECOMMIT),
    {
        AllocType(MEM_DECOMMIT)
    }

    pub fn release() -> (r: AllocType)
        ensures
            r == AllocType(MEM_RELEASE),
    {
        AllocType(MEM_RELEASE)
    }


    /// Does `self` hold every bit of `other`?
    pub open spec fn has(self, other: AllocType) -> bool {
        self.0 & other.0 == other.0
    }

    pub fn contains(&self, other: AllocType) -> (r: bool)
        ensures
            r == self.has(other),
    {
        self.0 & other.0 == other.0
    }

    pub fn union(self, other: AllocType) -> (r: AllocType)
        ensures
            r.0 == self.0 | other.0,
    {
        AllocType(self.0 | other.0)
    }
}

/// Opaque module-handle tokens returned for the modules implemented
/// in-process (never dereferenceable).
pub const KERNEL32_PSEUDO_BASE: u64 = 0x7FF0_0000_0000;
pub const NTDLL_PSEUDO_BASE: u64 = 0x7FF1_0000_0000;

/// Minimal process environment block.
#[derive(Debug, Clone, Copy, PartialEq, Eq, Structural)]
pub struct PebMinimal {
    pub image_base: u64,
    pub process_parameters: u64,
    pub loader_data: u64,
}

} // verus!
