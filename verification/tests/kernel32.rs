use rine::abi::{Win32Error, WindowsHandle, KERNEL32_PSEUDO_BASE, NTDLL_PSEUDO_BASE};
use rine::kernel32::{
    ansi_slice, free_library_export, get_module_handle_a_export, get_module_handle_w_export, get_proc_address_export,
    get_std_handle_export, load_library_a_export, load_library_w_export, wide_slice, win32_outcome,
};
use rine::symbols::Proc;

fn wide(s: &str) -> Vec<u16> {
    let mut v: Vec<u16> = s.encode_utf16().collect();
    v.push(0);
    v
}

#[test]
fn ansi_strings_end_at_the_first_nul() {
    assert_eq!(ansi_slice(Some(b"abc\0def\0")), Ok(b"abc".to_vec()));
    assert_eq!(ansi_slice(Some(b"\0")), Ok(Vec::new()));
    assert_eq!(ansi_slice(Some(b"no terminator")), Err(Win32Error(87)));
    assert_eq!(ansi_slice(None), Err(Win32Error(87)));
}

#[test]
fn wide_strings_end_at_the_first_nul() {
    assert_eq!(wide_slice(Some(&wide("ab"))), Ok(vec![0x61, 0x62]));
    assert_eq!(wide_slice(Some(&[0x61, 0x62])), Err(Win32Error(87)));
    assert_eq!(wide_slice(None), Err(Win32Error(87)));
}

#[test]
fn outcome_sets_last_error() {
    assert_eq!(win32_outcome::<u64>(Ok(5), 0), (5, Win32Error(0)));
    assert_eq!(win32_outcome::<u64>(Err(Win32Error(126)), 0), (0, Win32Error(126)));
}

#[test]
fn std_handle_export_returns_invalid_on_error() {
    let out = WindowsHandle(7);
    let err = WindowsHandle(8);
    assert_eq!(get_std_handle_export(-11, out, err), (7, Win32Error(0)));
    assert_eq!(get_std_handle_export(-12, out, err), (8, Win32Error(0)));
    assert_eq!(get_std_handle_export(-10, out, err), (u64::MAX, Win32Error(2)));
    assert_eq!(get_std_handle_export(3, out, err), (u64::MAX, Win32Error(87)));
}

#[test]
fn get_proc_address_by_name_and_errors() {
    assert_eq!(get_proc_address_export(KERNEL32_PSEUDO_BASE, 0, None), (None, Win32Error(87)));
    assert_eq!(
        get_proc_address_export(KERNEL32_PSEUDO_BASE, 0x10000, Some(b"GetStdHandle\0")),
        (Some(Proc::GetStdHandle), Win32Error(0))
    );
    assert_eq!(
        get_proc_address_export(KERNEL32_PSEUDO_BASE, 0x10000, Some(b"getstdhandle\0")),
        (None, Win32Error(127))
    );
    assert_eq!(
        get_proc_address_export(KERNEL32_PSEUDO_BASE, 0x10000, Some(&[0xFF, 0x00])),
        (None, Win32Error(127))
    );
    assert_eq!(
        get_proc_address_export(KERNEL32_PSEUDO_BASE, 0x10000, Some(b"unterminated")),
        (None, Win32Error(87))
    );
    assert_eq!(get_proc_address_export(0x1234, 0x10000, Some(b"GetStdHandle\0")), (None, Win32Error(126)));
    assert_eq!(get_proc_address_export(0x1234, 7, None), (None, Win32Error(126)));
}

#[test]
fn module_handles_from_ansi_and_wide_names() {
    assert_eq!(get_module_handle_a_export(None, 0x40_0000), (0x40_0000, Win32Error(0)));
    assert_eq!(get_module_handle_a_export(Some(b"KERNEL32.dll\0"), 0x40_0000), (KERNEL32_PSEUDO_BASE, Win32Error(0)));
    assert_eq!(get_module_handle_a_export(Some(b"nope.dll\0"), 0x40_0000), (0, Win32Error(126)));
    assert_eq!(get_module_handle_a_export(Some(&[0xC3, 0x00]), 0x40_0000), (0, Win32Error(126)));
    assert_eq!(get_module_handle_w_export(Some(&wide("ntdll.dll")), 0), (NTDLL_PSEUDO_BASE, Win32Error(0)));
    assert_eq!(get_module_handle_w_export(Some(&[0xD800, 0x0000]), 0), (0, Win32Error(126)));
    assert_eq!(get_module_handle_w_export(None, 9), (9, Win32Error(0)));
}

#[test]
fn load_and_free_library_exports() {
    assert_eq!(load_library_a_export(None), (0, Win32Error(87)));
    assert_eq!(load_library_a_export(Some(b"kernel32\0")), (KERNEL32_PSEUDO_BASE, Win32Error(0)));
    assert_eq!(load_library_a_export(Some(b"user32.dll\0")), (0, Win32Error(126)));
    assert_eq!(load_library_w_export(Some(&wide("NTDLL.DLL"))), (NTDLL_PSEUDO_BASE, Win32Error(0)));
    assert_eq!(load_library_w_export(Some(&[0xDC00, 0x0000])), (0, Win32Error(126)));
    assert_eq!(free_library_export(KERNEL32_PSEUDO_BASE, 0), (1, Win32Error(0)));
    assert_eq!(free_library_export(0x40_0000, 0x40_0000), (1, Win32Error(0)));
    assert_eq!(free_library_export(0x1234, 0x40_0000), (0, Win32Error(126)));
}
