use rine::abi::{NtStatus, WindowsHandle};
use rine::file_model::{expects_to_driver, DriverOp, FileExpect, RawOp};
use rine::kernelbase::{create_file_a, get_std_handle, nt_to_win32, status_result};

#[test]
fn nt_statuses_map_to_win32_errors() {
    let pairs = [
        (0u32, 0u32),
        (0xC000_0008, 6),
        (0xC000_0017, 8),
        (0xC000_000D, 87),
        (0xC000_0022, 5),
        (0xC000_0034, 2),
        (0xC000_0035, 80),
        (0xC000_0001, 50),
    ];
    for (s, e) in pairs {
        assert_eq!(nt_to_win32(NtStatus(s)).0, e, "status {s:#x}");
    }
    assert!(status_result(NtStatus(0)).is_ok());
    assert_eq!(status_result(NtStatus(0xC000_0008)).unwrap_err().0, 6);
}

#[test]
fn std_handles_by_number() {
    let out = WindowsHandle(0x10);
    let err = WindowsHandle(0x20);
    assert_eq!(get_std_handle(-11, out, err).unwrap().0, 0x10);
    assert_eq!(get_std_handle(-12, out, err).unwrap().0, 0x20);
    assert_eq!(get_std_handle(-10, out, err).unwrap_err().0, 2);
    assert_eq!(get_std_handle(7, out, err).unwrap_err().0, 87);
}

#[test]
fn create_file_a_checks_its_arguments() {
    let (path, o) = create_file_a(b"C:\\a.txt\0ignored", 0x8000_0000, 3).unwrap();
    assert_eq!(path, "C:\\a.txt");
    assert!(o.read && !o.write);
    assert_eq!(o.disposition, 3);
    let (_, q) = create_file_a(b"x", 0, 1).unwrap();
    assert!(q.read && !q.write);
    assert_eq!(create_file_a(&[0xff, 0xfe], 0, 1).unwrap_err().0, 87);
    assert_eq!(create_file_a(b"ok", 0, 9).unwrap_err().0, 87);
    assert_eq!(create_file_a(&vec![b'a'; 40000], 0, 1).unwrap_err().0, 87);
    let (p2, _) = create_file_a("ação".as_bytes(), 0x4000_0000, 2).unwrap();
    assert_eq!(p2, "ação");
}

#[test]
fn driver_steps_pair_ops_with_expectations() {
    let ops = vec![
        RawOp::Create { path: "C:\\f.txt".into(), access: 0xC000_0000, disp: 2 },
        RawOp::Write { len: 11 },
        RawOp::Read { len: 4 },
        RawOp::Close,
    ];
    let ex = vec![
        FileExpect { valid: true, ok: true, count: 0, verify: false },
        FileExpect { valid: true, ok: true, count: 11, verify: false },
        FileExpect { valid: true, ok: false, count: 0, verify: true },
        FileExpect { valid: true, ok: true, count: 0, verify: false },
    ];
    let steps = expects_to_driver(&ops, &ex);
    assert_eq!(
        steps,
        vec![
            DriverOp::Create { path: "C:\\f.txt".into(), access: 0xC000_0000, disp: 2, expect_valid: true },
            DriverOp::Write { len: 11, expect_ok: true, expect_written: 11 },
            DriverOp::Read { len: 4, expect_ok: false, expect_count: 0, verify: true },
            DriverOp::Close { expect_ok: true },
        ]
    );
    assert_eq!(expects_to_driver(&ops, &ex[..1]).len(), 1);
}
