//! Symbol tables of the in-process modules: kernel32 exports (with their
//! forwarders to ntdll), ntdll exports, and the real export ordinals.
use vstd::prelude::*;

verus! {

/// A procedure implemented in-process. The host maps each to the address
/// of its ABI entry point.
#[derive(Debug, Clone, Copy, PartialEq, Eq, Structural)]
pub enum Proc {
    GetStdHandle,
    WriteFile,
    ReadFile,
    CreateFileA,
    CreateFileW,
    GetFileAttributesW,
    SetFilePointerEx,
    GetFileSizeEx,
    DeleteFileW,
    MoveFileExW,
    CreateDirectoryW,
    RemoveDirectoryW,
    CloseHandle,
    VirtualAlloc,
    VirtualFree,
    VirtualProtect,
    GetCommandLineW,
    TlsAlloc,
    TlsFree,
    TlsGetValue,
    TlsSetValue,
    GetLastError,
    GetProcAddress,
    GetModuleHandleA,
    GetModuleHandleW,
    LoadLibraryA,
    LoadLibraryW,
    FreeLibrary,
    Sleep,
    SetUnhandledExceptionFilter,
    VirtualQuery,
    ExitProcess,
    FindFirstFileW,
    FindNextFileW,
    FindClose,
    RtlExitUserProcess,
    NtTerminateProcess,
    RtlInitializeCriticalSection,
    RtlDeleteCriticalSection,
    RtlEnterCriticalSection,
    RtlLeaveCriticalSection,
}

/// Number of rows of the kernel32 export table.
pub const KERNEL32_EXPORT_LEN: usize = 39;

/// Key of row `i` of the kernel32 export table.
pub open spec fn kernel32_export_key(i: int) -> Seq<char> {
    match i as usize {
        0 => "GetStdHandle"@,
        1 => "WriteFile"@,
        2 => "ReadFile"@,
        3 => "CreateFileA"@,
        4 => "CreateFileW"@,
        5 => "GetFileAttributesW"@,
        6 => "SetFilePointerEx"@,
        7 => "GetFileSizeEx"@,
        8 => "DeleteFileW"@,
        9 => "MoveFileExW"@,
        10 => "CreateDirectoryW"@,
        11 => "RemoveDirectoryW"@,
        12 => "CloseHandle"@,
        13 => "VirtualAlloc"@,
        14 => "VirtualFree"@,
        15 => "VirtualProtect"@,
        16 => "GetCommandLineW"@,
        17 => "TlsAlloc"@,
        18 => "TlsFree"@,
        19 => "TlsGetValue"@,
        20 => "TlsSetValue"@,
        21 => "GetLastError"@,
        22 => "GetProcAddress"@,
        23 => "GetModuleHandleA"@,
        24 => "GetModuleHandleW"@,
        25 => "LoadLibraryA"@,
        26 => "LoadLibraryW"@,
        27 => "FreeLibrary"@,
        28 => "Sleep"@,
        29 => "InitializeCriticalSection"@,
        30 => "DeleteCriticalSection"@,
        31 => "EnterCriticalSection"@,
        32 => "LeaveCriticalSection"@,
        33 => "SetUnhandledExceptionFilter"@,
        34 => "VirtualQuery"@,
        35 => "ExitProcess"@,
        36 => "FindFirstFileW"@,
        37 => "FindNextFileW"@,
        38 => "FindClose"@,
        _ => Seq::empty(),
    }
}

/// Value of row `i` of the kernel32 export table.
pub open spec fn kernel32_export_val(i: int) -> Proc {
    match i as usize {
        0 => Proc::GetStdHandle,
        1 => Proc::WriteFile,
        2 => Proc::ReadFile,
        3 => Proc::CreateFileA,
        4 => Proc::CreateFileW,
        5 => Proc::GetFileAttributesW,
        6 => Proc::SetFilePointerEx,
        7 => Proc::GetFileSizeEx,
        8 => Proc::DeleteFileW,
        9 => Proc::MoveFileExW,
        10 => Proc::CreateDirectoryW,
        11 => Proc::RemoveDirectoryW,
        12 => Proc::CloseHandle,
        13 => Proc::VirtualAlloc,
        14 => Proc::VirtualFree,
        15 => Proc::VirtualProtect,
        16 => Proc::GetCommandLineW,
        17 => Proc::TlsAlloc,
        18 => Proc::TlsFree,
        19 => Proc::TlsGetValue,
        20 => Proc::TlsSetValue,
        21 => Proc::GetLastError,
        22 => Proc::GetProcAddress,
        23 => Proc::GetModuleHandleA,
        24 => Proc::GetModuleHandleW,
        25 => Proc::LoadLibraryA,
        26 => Proc::LoadLibraryW,
        27 => Proc::FreeLibrary,
        28 => Proc::Sleep,
        29 => Proc::RtlInitializeCriticalSection,
        30 => Proc::RtlDeleteCriticalSection,
        31 => Proc::RtlEnterCriticalSection,
        32 => Proc::RtlLeaveCriticalSection,
        33 => Proc::SetUnhandledExceptionFilter,
        34 => Proc::VirtualQuery,
        35 => Proc::ExitProcess,
        36 => Proc::FindFirstFileW,
        37 => Proc::FindNextFileW,
        38 => Proc::FindClose,
        _ => Proc::GetStdHandle,
    }
}

/// Row `i` of the kernel32 export table.
pub fn kernel32_export_row(i: usize) -> (r: (&'static str, Proc))
    requires
        i < KERNEL32_EXPORT_LEN,
    ensures
        r.0@ == kernel32_export_key(i as int),
        r.1 == kernel32_export_val(i as int),
{
    match i as usize {
        0 => ("GetStdHandle", Proc::GetStdHandle),
        1 => ("WriteFile", Proc::WriteFile),
        2 => ("ReadFile", Proc::ReadFile),
        3 => ("CreateFileA", Proc::CreateFileA),
        4 => ("CreateFileW", Proc::CreateFileW),
        5 => ("GetFileAttributesW", Proc::GetFileAttributesW),
        6 => ("SetFilePointerEx", Proc::SetFilePointerEx),
        7 => ("GetFileSizeEx", Proc::GetFileSizeEx),
        8 => ("DeleteFileW", Proc::DeleteFileW),
        9 => ("MoveFileExW", Proc::MoveFileExW),
        10 => ("CreateDirectoryW", Proc::CreateDirectoryW),
        11 => ("RemoveDirectoryW", Proc::RemoveDirectoryW),
        12 => ("CloseHandle", Proc::CloseHandle),
        13 => ("VirtualAlloc", Proc::VirtualAlloc),
        14 => ("VirtualFree", Proc::VirtualFree),
        15 => ("VirtualProtect", Proc::VirtualProtect),
        16 => ("GetCommandLineW", Proc::GetCommandLineW),
        17 => ("TlsAlloc", Proc::TlsAlloc),
        18 => ("TlsFree", Proc::TlsFree),
        19 => ("TlsGetValue", Proc::TlsGetValue),
        20 => ("TlsSetValue", Proc::TlsSetValue),
        21 => ("GetLastError", Proc::GetLastError),
        22 => ("GetProcAddress", Proc::GetProcAddress),
        23 => ("GetModuleHandleA", Proc::GetModuleHandleA),
        24 => ("GetModuleHandleW", Proc::GetModuleHandleW),
        25 => ("LoadLibraryA", Proc::LoadLibraryA),
        26 => ("LoadLibraryW", Proc::LoadLibraryW),
        27 => ("FreeLibrary", Proc::FreeLibrary),
        28 => ("Sleep", Proc::Sleep),
        29 => ("InitializeCriticalSection", Proc::RtlInitializeCriticalSection),
        30 => ("DeleteCriticalSection", Proc::RtlDeleteCriticalSection),
        31 => ("EnterCriticalSection", Proc::RtlEnterCriticalSection),
        32 => ("LeaveCriticalSection", Proc::RtlLeaveCriticalSection),
        33 => ("SetUnhandledExceptionFilter", Proc::SetUnhandledExceptionFilter),
        34 => ("VirtualQuery", Proc::VirtualQuery),
        35 => ("ExitProcess", Proc::ExitProcess),
        36 => ("FindFirstFileW", Proc::FindFirstFileW),
        37 => ("FindNextFileW", Proc::FindNextFileW),
        38 => ("FindClose", Proc::FindClose),
        _ => ("", Proc::GetStdHandle),
    }
}

/// Number of rows of the ntdll export table.
pub const NTDLL_EXPORT_LEN: usize = 6;

/// Key of row `i` of the ntdll export table.
pub open spec fn ntdll_export_key(i: int) -> Seq<char> {
    match i as usize {
        0 => "RtlExitUserProcess"@,
        1 => "NtTerminateProcess"@,
        2 => "RtlInitializeCriticalSection"@,
        3 => "RtlDeleteCriticalSection"@,
        4 => "RtlEnterCriticalSection"@,
        5 => "RtlLeaveCriticalSection"@,
        _ => Seq::empty(),
    }
}

/// Value of row `i` of the ntdll export table.
pub open spec fn ntdll_export_val(i: int) -> Proc {
    match i as usize {
        0 => Proc::RtlExitUserProcess,
        1 => Proc::NtTerminateProcess,
        2 => Proc::RtlInitializeCriticalSection,
        3 => Proc::RtlDeleteCriticalSection,
        4 => Proc::RtlEnterCriticalSection,
        5 => Proc::RtlLeaveCriticalSection,
        _ => Proc::RtlExitUserProcess,
    }
}

/// Row `i` of the ntdll export table.
pub fn ntdll_export_row(i: usize) -> (r: (&'static str, Proc))
    requires
        i < NTDLL_EXPORT_LEN,
    ensures
        r.0@ == ntdll_export_key(i as int),
        r.1 == ntdll_export_val(i as int),
{
    match i as usize {
        0 => ("RtlExitUserProcess", Proc::RtlExitUserProcess),
        1 => ("NtTerminateProcess", Proc::NtTerminateProcess),
        2 => ("RtlInitializeCriticalSection", Proc::RtlInitializeCriticalSection),
        3 => ("RtlDeleteCriticalSection", Proc::RtlDeleteCriticalSection),
        4 => ("RtlEnterCriticalSection", Proc::RtlEnterCriticalSection),
        5 => ("RtlLeaveCriticalSection", Proc::RtlLeaveCriticalSection),
        _ => ("", Proc::RtlExitUserProcess),
    }
}

/// Number of rows of the kernel32 ordinal table.
pub const KERNEL32_ORDINAL_LEN: usize = 23;

/// Key of row `i` of the kernel32 ordinal table.
pub open spec fn kernel32_ordinal_key(i: int) -> u16 {
    match i as usize {
        0 => 772u16,
        1 => 1633u16,
        2 => 1194u16,
        3 => 223u16,
        4 => 158u16,
        5 => 1557u16,
        6 => 1560u16,
        7 => 1563u16,
        8 => 513u16,
        9 => 1515u16,
        10 => 1516u16,
        11 => 1517u16,
        12 => 1519u16,
        13 => 654u16,
        14 => 1481u16,
        15 => 918u16,
        16 => 304u16,
        17 => 344u16,
        18 => 1009u16,
        19 => 1465u16,
        20 => 1565u16,
        21 => 734u16,
        22 => 391u16,
        _ => 0u16,
    }
}

/// Value of row `i` of the kernel32 ordinal table.
pub open spec fn kernel32_ordinal_val(i: int) -> Seq<char> {
    match i as usize {
        0 => "GetStdHandle"@,
        1 => "WriteFile"@,
        2 => "ReadFile"@,
        3 => "CreateFileA"@,
        4 => "CloseHandle"@,
        5 => "VirtualAlloc"@,
        6 => "VirtualFree"@,
        7 => "VirtualProtect"@,
        8 => "GetCommandLineW"@,
        9 => "TlsAlloc"@,
        10 => "TlsFree"@,
        11 => "TlsGetValue"@,
        12 => "TlsSetValue"@,
        13 => "GetLastError"@,
        14 => "Sleep"@,
        15 => "InitializeCriticalSection"@,
        16 => "DeleteCriticalSection"@,
        17 => "EnterCriticalSection"@,
        18 => "LeaveCriticalSection"@,
        19 => "SetUnhandledExceptionFilter"@,
        20 => "VirtualQuery"@,
        21 => "GetProcAddress"@,
        22 => "ExitProcess"@,
        _ => Seq::empty(),
    }
}

/// Row `i` of the kernel32 ordinal table.
pub fn kernel32_ordinal_row(i: usize) -> (r: (u16, &'static str))
    requires
        i < KERNEL32_ORDINAL_LEN,
    ensures
        r.0 == kernel32_ordinal_key(i as int),
        r.1@ == kernel32_ordinal_val(i as int),
{
    match i as usize {
        0 => (772u16, "GetStdHandle"),
        1 => (1633u16, "WriteFile"),
        2 => (1194u16, "ReadFile"),
        3 => (223u16, "CreateFileA"),
        4 => (158u16, "CloseHandle"),
        5 => (1557u16, "VirtualAlloc"),
        6 => (1560u16, "VirtualFree"),
        7 => (1563u16, "VirtualProtect"),
        8 => (513u16, "GetCommandLineW"),
        9 => (1515u16, "TlsAlloc"),
        10 => (1516u16, "TlsFree"),
        11 => (1517u16, "TlsGetValue"),
        12 => (1519u16, "TlsSetValue"),
        13 => (654u16, "GetLastError"),
        14 => (1481u16, "Sleep"),
        15 => (918u16, "InitializeCriticalSection"),
        16 => (304u16, "DeleteCriticalSection"),
        17 => (344u16, "EnterCriticalSection"),
        18 => (1009u16, "LeaveCriticalSection"),
        19 => (1465u16, "SetUnhandledExceptionFilter"),
        20 => (1565u16, "VirtualQuery"),
        21 => (734u16, "GetProcAddress"),
        22 => (391u16, "ExitProcess"),
        _ => (0u16, ""),
    }
}

/// Number of rows of the ntdll ordinal table.
pub const NTDLL_ORDINAL_LEN: usize = 6;

/// Key of row `i` of the ntdll ordinal table.
pub open spec fn ntdll_ordinal_key(i: int) -> u16 {
    match i as usize {
        0 => 1000u16,
        1 => 658u16,
        2 => 1190u16,
        3 => 915u16,
        4 => 977u16,
        5 => 1282u16,
        _ => 0u16,
    }
}

/// Value of row `i` of the ntdll ordinal table.
pub open spec fn ntdll_ordinal_val(i: int) -> Seq<char> {
    match i as usize {
        0 => "RtlExitUserProcess"@,
        1 => "NtTerminateProcess"@,
        2 => "RtlInitializeCriticalSection"@,
        3 => "RtlDeleteCriticalSection"@,
        4 => "RtlEnterCriticalSection"@,
        5 => "RtlLeaveCriticalSection"@,
        _ => Seq::empty(),
    }
}

/// Row `i` of the ntdll ordinal table.
pub fn ntdll_ordinal_row(i: usize) -> (r: (u16, &'static str))
    requires
        i < NTDLL_ORDINAL_LEN,
    ensures
        r.0 == ntdll_ordinal_key(i as int),
        r.1@ == ntdll_ordinal_val(i as int),
{
    match i as usize {
        0 => (1000u16, "RtlExitUserProcess"),
        1 => (658u16, "NtTerminateProcess"),
        2 => (1190u16, "RtlInitializeCriticalSection"),
        3 => (915u16, "RtlDeleteCriticalSection"),
        4 => (977u16, "RtlEnterCriticalSection"),
        5 => (1282u16, "RtlLeaveCriticalSection"),
        _ => (0u16, ""),
    }
}

/// Number of rows of the kernel32-to-ntdll forwarder table.
pub const FORWARDER_LEN: usize = 4;

/// Key of row `i` of the kernel32-to-ntdll forwarder table.
pub open spec fn forwarder_key(i: int) -> Seq<char> {
    match i as usize {
        0 => "InitializeCriticalSection"@,
        1 => "DeleteCriticalSection"@,
        2 => "EnterCriticalSection"@,
        3 => "LeaveCriticalSection"@,
        _ => Seq::empty(),
    }
}

/// Value of row `i` of the kernel32-to-ntdll forwarder table.
pub open spec fn forwarder_val(i: int) -> Seq<char> {
    match i as usize {
        0 => "RtlInitializeCriticalSection"@,
        1 => "RtlDeleteCriticalSection"@,
        2 => "RtlEnterCriticalSection"@,
        3 => "RtlLeaveCriticalSection"@,
        _ => Seq::empty(),
    }
}

/// Row `i` of the kernel32-to-ntdll forwarder table.
pub fn forwarder_row(i: usize) -> (r: (&'static str, &'static str))
    requires
        i < FORWARDER_LEN,
    ensures
        r.0@ == forwarder_key(i as int),
        r.1@ == forwarder_val(i as int),
{
    match i as usize {
        0 => ("InitializeCriticalSection", "RtlInitializeCriticalSection"),
        1 => ("DeleteCriticalSection", "RtlDeleteCriticalSection"),
        2 => ("EnterCriticalSection", "RtlEnterCriticalSection"),
        3 => ("LeaveCriticalSection", "RtlLeaveCriticalSection"),
        _ => ("", ""),
    }
}

/// Names of the kernel32 exports (the import resolver and the coverage
/// report read them from here).
pub open spec fn export_names() -> Seq<Seq<char>> {
    Seq::new(KERNEL32_EXPORT_LEN as nat, |i: int| kernel32_export_key(i))
}

pub fn exports() -> (v: Vec<&'static str>)
    ensures
        v@.len() == KERNEL32_EXPORT_LEN,
        forall|i: int| 0 <= i < v@.len() ==> #[trigger] v@[i]@ == kernel32_export_key(i),
{
    let mut v: Vec<&'static str> = Vec::new();
    let mut i: usize = 0;
    while i < KERNEL32_EXPORT_LEN
        invariant
            i <= KERNEL32_EXPORT_LEN,
            v@.len() == i,
            forall|j: int| 0 <= j < i ==> #[trigger] v@[j]@ == kernel32_export_key(j),
        decreases KERNEL32_EXPORT_LEN - i,
    {
        v.push(kernel32_export_row(i).0);
        i += 1;
    }
    v
}

} // verus!
