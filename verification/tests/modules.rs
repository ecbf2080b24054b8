use rine::abi::{Win32Error, KERNEL32_PSEUDO_BASE, NTDLL_PSEUDO_BASE};
use rine::modules::{
    apiset_host, forward, free_library, get_module_handle, get_proc_address, load_library,
    normalize, ntdll_addr, resolve, resolve_by_ordinal, KnownModule,
};
use rine::symbols::{exports, Proc};

#[test]
fn exports_all_resolve() {
    let ex = exports();
    assert!(!ex.is_empty());
    for name in ex {
        assert!(resolve("KERNEL32.dll", name).is_some(), "{name} in exports but not resolved");
        assert!(resolve("kernel32", name).is_some());
    }
    assert!(resolve("KERNEL32.dll", "Nope").is_none());
    assert!(resolve("NTDLL.dll", "GetStdHandle").is_none());
}

#[test]
fn find_file_exports_resolve() {
    for name in ["FindFirstFileW", "FindNextFileW", "FindClose"] {
        assert!(resolve("KERNEL32.dll", name).is_some(), "{name} must resolve from kernel32");
    }
}

#[test]
fn known_names_resolve_to_real_addresses() {
    let a = get_proc_address(KERNEL32_PSEUDO_BASE, Some("WriteFile"), None).unwrap();
    assert_eq!(a, Proc::WriteFile);
    assert!(get_proc_address(KERNEL32_PSEUDO_BASE, Some("writefile"), None).is_err());
}

#[test]
fn real_ordinals_resolve() {
    let by_ord = get_proc_address(KERNEL32_PSEUDO_BASE, None, Some(1633)).unwrap();
    let by_name = get_proc_address(KERNEL32_PSEUDO_BASE, Some("WriteFile"), None).unwrap();
    assert_eq!(by_ord, by_name);
    assert!(get_proc_address(NTDLL_PSEUDO_BASE, None, Some(1000)).is_ok());
}

#[test]
fn unknown_module_symbol_ordinal_fail_clean() {
    assert_eq!(get_proc_address(0xDEAD_BEEF, Some("WriteFile"), None), Err(Win32Error::mod_not_found()));
    assert_eq!(get_proc_address(0, Some("WriteFile"), None), Err(Win32Error::mod_not_found()));
    assert_eq!(
        get_proc_address(KERNEL32_PSEUDO_BASE, Some("NoSuchExportZZZ"), None),
        Err(Win32Error::proc_not_found())
    );
    assert_eq!(get_proc_address(KERNEL32_PSEUDO_BASE, None, Some(1)), Err(Win32Error::proc_not_found()));
    assert_eq!(get_proc_address(KERNEL32_PSEUDO_BASE, None, None), Err(Win32Error::proc_not_found()));
}

#[test]
fn module_names_normalize_like_windows() {
    let k32 = KERNEL32_PSEUDO_BASE;
    let ntdll = NTDLL_PSEUDO_BASE;
    for n in [
        "kernel32.dll",
        "KERNEL32.DLL",
        "kernel32",
        "C:\\Windows\\System32\\kernel32.dll",
        "C:/Windows/System32/KERNEL32",
    ] {
        assert_eq!(normalize(n), Some(KnownModule::Kernel32), "{n}");
        assert_eq!(get_module_handle(Some(n), 0), Ok(k32), "{n}");
        assert_eq!(load_library(n), Ok(k32), "{n}");
    }
    assert_eq!(normalize("ntdll.dll"), Some(KnownModule::Ntdll));
    assert_eq!(get_module_handle(Some("NTDLL"), 0), Ok(ntdll));
    assert_eq!(normalize("api-ms-win-crt-heap-l1-1-0.dll"), None);
    assert_eq!(
        get_module_handle(Some("api-ms-win-crt-heap-l1-1-0.dll"), 0),
        Err(Win32Error::mod_not_found())
    );
    assert_eq!(load_library("user32.dll"), Err(Win32Error::mod_not_found()));
}

#[test]
fn apiset_routes_sample() {
    let k32 = KERNEL32_PSEUDO_BASE;
    assert_eq!(get_module_handle(Some("api-ms-win-core-synch-ansi-l1-1-0.dll"), 0), Ok(k32));
    assert_eq!(get_module_handle(Some("API-MS-WIN-core-SYNCH-ansi-L1-1-0"), 0), Ok(k32));
    assert_eq!(load_library("api-ms-win-core-memory-l1-1-9.dll"), Ok(k32));
    assert_eq!(
        get_module_handle(Some("api-ms-win-core-rtlsupport-l1-1-1.dll"), 0),
        Ok(NTDLL_PSEUDO_BASE)
    );
    assert_eq!(
        get_module_handle(Some("ext-ms-win-ntuser-synch-l1-1-0.dll"), 0),
        Err(Win32Error::mod_not_found())
    );
    assert_eq!(apiset_host("api-ms-win-core-apiquery-l1-1-2.dll"), Some(KnownModule::Ntdll));
}

#[test]
fn null_module_is_the_exe_base() {
    assert_eq!(get_module_handle(None, 0x0014_0000_0000), Ok(0x0014_0000_0000));
    assert!(free_library(KERNEL32_PSEUDO_BASE, 0).is_ok());
    assert!(free_library(0x0014_0000_0000, 0x0014_0000_0000).is_ok());
    assert_eq!(free_library(0xDEAD_BEEF, 0x0014_0000_0000), Err(Win32Error::mod_not_found()));
}

#[test]
fn critical_sections_forward_to_ntdll() {
    for (k32, rtl) in [
        ("InitializeCriticalSection", "RtlInitializeCriticalSection"),
        ("DeleteCriticalSection", "RtlDeleteCriticalSection"),
        ("EnterCriticalSection", "RtlEnterCriticalSection"),
        ("LeaveCriticalSection", "RtlLeaveCriticalSection"),
    ] {
        let via_k32 = resolve("KERNEL32.dll", k32).unwrap();
        let via_ntdll = ntdll_addr(rtl).unwrap();
        assert_eq!(via_k32, via_ntdll, "{k32}");
        assert_eq!(forward(k32), Some(via_ntdll));
        assert_eq!(get_proc_address(KERNEL32_PSEUDO_BASE, Some(k32), None).unwrap(), via_ntdll, "{k32}");
    }
    assert_eq!(
        get_proc_address(KERNEL32_PSEUDO_BASE, None, Some(344)).unwrap(),
        ntdll_addr("RtlEnterCriticalSection").unwrap()
    );
    assert_eq!(resolve_by_ordinal(KnownModule::Ntdll, 977), Some(Proc::RtlEnterCriticalSection));
    assert_eq!(forward("WriteFile"), None);
}

#[test]
fn every_apiset_row_is_found() {
    for i in 0..rine::apiset_table::APISET_LEN {
        let (ns, host) = rine::apiset_table::apiset_entry(i);
        assert_eq!(apiset_host(ns), Some(host), "{ns}");
        assert_eq!(apiset_host(&format!("{ns}.dll")), Some(host), "{ns}.dll");
        assert_eq!(apiset_host(&ns.to_ascii_uppercase()), Some(host), "{ns} upper");
    }
}

#[test]
fn resolve_goes_through_kernel32_names() {
    for name in ["Sleep", "GetStdHandle", "WriteFile", "Nope"] {
        let direct = resolve("KERNEL32.dll", name);
        assert_eq!(resolve("kernel32", name), direct);
        assert_eq!(resolve("C:\\Windows\\System32\\Kernel32.DLL", name), direct);
        assert_eq!(resolve("api-ms-win-core-synch-l1-2-1.dll", name), direct);
        assert_eq!(resolve("api-ms-win-core-rtlsupport-l1-1-1.dll", name), None);
        assert_eq!(resolve("user32.dll", name), None);
    }
}
