use rine::abi::{AllocType, NtStatus, PageProtect, WindowsHandle};
use rine::loader::{plan_image, protect_plan, ImageInfo, MapError, MappedImage, SectionInfo};
use rine::nt_exception::{ExceptionRecord, ACCESS_VIOLATION};
use rine::nt_file::{close_handle, io_to_status, open_plan, read_target, register_file, write_target, CreateOptions, DriveMap, HostOpen, IoKind};
use rine::nt_memory::{host_protect, section_protect, AllocAction, FreeAction, MemError, MemoryManager, Prot, RegionState};
use rine::nt_object::{FileObject, HandleTable, KernelObject, ObjectPayload, ObjectType};
use rine::nt_process::{Process, ProcessParameters};

fn drive_map() -> DriveMap {
    DriveMap::new(vec![('C', "/tmp".to_string())], None)
}

#[test]
fn translate_drive_absolute() {
    let m = drive_map();
    assert_eq!(m.translate("C:\\a\\b.txt").unwrap(), "/tmp/a/b.txt");
    assert_eq!(m.translate("c:/a").unwrap(), "/tmp/a");
    assert_eq!(m.translate("\\??\\C:\\a").unwrap(), "/tmp/a");
}

#[test]
fn translate_clamps_dotdot_to_drive() {
    let m = drive_map();
    assert_eq!(m.translate("C:\\..\\x").unwrap(), "/tmp/x");
    assert_eq!(m.translate("C:\\a\\..\\..\\x").unwrap(), "/tmp/x");
    assert_eq!(m.translate("C:\\a\\.\\b").unwrap(), "/tmp/a/b");
}

#[test]
fn translate_trailing_is_dir_not_file() {
    let m = drive_map();
    assert!(m.translate("C:\\a\\").is_err());
    assert!(m.translate("rel\\").is_err());
    assert!(m.translate("C:\\").is_ok());
}

#[test]
fn translate_rejects_lacunas() {
    let m = drive_map();
    assert!(m.translate("Z:\\a").is_err());
    assert!(m.translate("\\\\.\\C:").is_err());
    assert!(m.translate("\\\\srv\\x").is_err());
    assert!(m.translate("C:rel").is_err());
}

#[test]
fn translate_hostile_paths() {
    let m = DriveMap::empty();
    let long = "A".repeat(5000);
    for p in [
        "", "\\", "\\\\", "\\\\??\\", "C:", "C:\\", "c:/..\\..\\x", "\\??\\C:\\a", "\\\\.\\x", "\\\\srv\\x", "X:rel",
        "rel\\..\\..\\..\\x", "C:\\a\u{0}b", "C:\\é\\ü\\日", long.as_str(), "C:\\con", "C:\\a\\",
    ] {
        let _ = m.translate(p);
    }
}

#[test]
fn translate_errors_and_relative_paths() {
    let m = DriveMap::new(vec![('d', "/data/".to_string())], Some("/work".to_string()));
    assert_eq!(m.translate("D:\\x"), Ok("/data/x".to_string()));
    assert_eq!(m.translate("rel\\f.txt"), Ok("/work/rel/f.txt".to_string()));
    assert_eq!(m.translate("Z:\\x"), Err(NtStatus::object_path_invalid()));
    assert_eq!(m.translate("\\\\srv\\x"), Err(NtStatus::not_implemented()));
    let h = DriveMap::empty().with_host_cwd(Some("/home/u".to_string()));
    assert_eq!(h.translate("a\\b"), Ok("/home/u/a/b".to_string()));
    assert_eq!(DriveMap::empty().translate("a"), Err(NtStatus::object_path_invalid()));
}

#[test]
fn create_options_map_access() {
    let o = CreateOptions::from_win32(0, 2).unwrap();
    assert!(o.read && !o.write);
    let o = CreateOptions::from_win32(0x4000_0000, 1).unwrap();
    assert!(!o.read && o.write);
    assert_eq!(CreateOptions::from_win32(0x8000_0000, 9), Err(NtStatus::invalid_parameter()));
}

fn file_obj(fd: i32) -> KernelObject {
    KernelObject {
        typ: ObjectType::File,
        name: None,
        rights: 0,
        payload: ObjectPayload::File(FileObject { fd, path: "x".into(), writable: true, readable: true, owns_fd: false }),
    }
}

#[test]
fn insert_lookup_close() {
    let mut t = HandleTable::new();
    let h = t.insert(file_obj(1));
    assert!(t.lookup(h).is_ok());
    t.close(h).unwrap();
    assert!(matches!(t.lookup(h), Err(e) if e == NtStatus::invalid_handle()));
}

#[test]
fn stale_generation_rejected() {
    let mut t = HandleTable::new();
    let h1 = t.insert(file_obj(1));
    t.close(h1).unwrap();
    let h2 = t.insert(file_obj(2));
    assert_ne!(h1, h2);
    assert!(t.lookup(h1).is_err());
    assert!(t.lookup(h2).is_ok());
}

#[test]
fn insert_hands_out_index_and_next_generation() {
    let mut t = HandleTable::new();
    let h1 = t.insert(file_obj(1));
    assert_eq!(h1.0, (1u64 << 32) | 4);
    let h2 = t.insert(file_obj(2));
    assert_eq!(h2.0, (1u64 << 32) | 8);
    t.close(h1).unwrap();
    let h3 = t.insert(file_obj(3));
    assert_eq!(h3.0, (2u64 << 32) | 4);
}

#[test]
fn null_invalid_rejected() {
    let t = HandleTable::new();
    assert!(t.lookup(WindowsHandle::null()).is_err());
    assert!(t.lookup(WindowsHandle::invalid()).is_err());
}

#[test]
fn console_handles_are_write_only() {
    let mut t = HandleTable::new();
    let (out, err) = t.init_console();
    assert_ne!(out, err);
    assert_eq!(rine::nt_file::write_target(&t, out), Ok(1));
    assert_eq!(rine::nt_file::write_target(&t, err), Ok(2));
    assert_eq!(rine::nt_file::read_target(&t, out), Err(NtStatus::access_denied()));
    assert_eq!(rine::nt_file::close_handle(&mut t, out), Ok(None));
    assert_eq!(rine::nt_file::close_handle(&mut t, out), Err(NtStatus::invalid_handle()));
}

#[test]
fn reserve_commit_release_cycle() {
    let ps = 4096usize;
    let mut m = MemoryManager::new(ps);
    let plan = m.plan_allocate(0, ps, AllocType::reserve(), PageProtect::readwrite()).unwrap();
    let base = 0x7000_0000usize;
    match plan {
        AllocAction::Reserve { fixed, len, state, protect, host_prot } => {
            assert_eq!(fixed, None);
            assert_eq!(len, ps);
            assert_eq!(state, RegionState::Reserved);
            assert_eq!(host_prot, Prot::none());
            m.finish_reserve(base, len, state, protect);
        }
        other => panic!("{other:?}"),
    }
    match m.plan_allocate(base, ps, AllocType::commit(), PageProtect::readwrite()).unwrap() {
        AllocAction::Commit { base: b, len, protect, host_prot } => {
            assert_eq!((b, len), (base, ps));
            assert_eq!(host_prot, Prot { read: true, write: true, execute: false });
            m.finish_commit(b, protect);
        }
        other => panic!("{other:?}"),
    }
    assert_eq!(m.plan_free(base, AllocType::release()), Ok(FreeAction::Release { base, len: ps }));
    m.untrack(base);
    assert_eq!(m.region_count(), 0);
}

#[test]
fn reserve_commit_atomically() {
    let ps = 4096usize;
    let mut m = MemoryManager::new(ps);
    let plan = m.plan_allocate(0, ps, AllocType::reserve().union(AllocType::commit()), PageProtect::readwrite()).unwrap();
    match plan {
        AllocAction::Reserve { len, state, protect, .. } => {
            assert_eq!(state, RegionState::Committed);
            m.finish_reserve(0x1000_0000, len, state, protect);
        }
        other => panic!("{other:?}"),
    }
    assert_eq!(m.region_count(), 1);
    assert_eq!(m.debug_regions(), vec![(0x1000_0000, ps, RegionState::Committed)]);
}

#[test]
fn zero_size_rejected() {
    let m = MemoryManager::new(4096);
    assert_eq!(m.plan_allocate(0, 0, AllocType::reserve(), PageProtect::readwrite()), Err(MemError::InvalidParameter));
}

#[test]
fn conflicts_commits_and_protects() {
    let mut m = MemoryManager::new(4096);
    m.finish_reserve(0x10000, 8192, RegionState::Reserved, PageProtect::readwrite());
    assert_eq!(m.plan_allocate(0x11000, 100, AllocType::reserve(), PageProtect::readwrite()), Err(MemError::Conflict));
    match m.plan_allocate(0x20123, 100, AllocType::reserve(), PageProtect::readwrite()).unwrap() {
        AllocAction::Reserve { fixed, len, .. } => assert_eq!((fixed, len), (Some(0x20000), 4096)),
        other => panic!("{other:?}"),
    }
    assert_eq!(m.plan_allocate(0x10010, 100, AllocType::commit(), PageProtect::readwrite()), Err(MemError::InvalidParameter));
    assert_eq!(m.plan_protect(0x10000), Err(MemError::InvalidParameter));
    m.finish_commit(0x10000, PageProtect::readonly());
    assert_eq!(m.plan_protect(0x10000), Ok((8192, PageProtect::readonly())));
    m.finish_protect(0x10000, PageProtect::execute_read());
    assert_eq!(m.plan_free(0x10000, AllocType::decommit()), Ok(FreeAction::Decommit { base: 0x10000, len: 8192 }));
    m.finish_decommit(0x10000);
    assert_eq!(m.debug_regions(), vec![(0x10000, 8192, RegionState::Reserved)]);
    assert_eq!(m.plan_free(0x10000, AllocType::commit()), Err(MemError::InvalidParameter));
    assert_eq!(MemError::Conflict.status(), NtStatus::invalid_parameter());
}

#[test]
fn section_protect_matches_windows_mapping() {
    assert_eq!(section_protect(0x6000_0020), PageProtect::execute_read());
    assert_eq!(section_protect(0x4000_0040), PageProtect::readonly());
    assert_eq!(section_protect(0xC000_0040), PageProtect::readwrite());
    assert_eq!(section_protect(0), PageProtect::noaccess());
    assert_eq!(host_protect(PageProtect::execute_read()), Prot { read: true, write: false, execute: true });
    assert_eq!(host_protect(PageProtect::noaccess()), Prot::none());
}

#[test]
fn terminate_records_exit_code() {
    let mut p = Process::new(
        0x1000,
        0x0014_0000_0000,
        ProcessParameters { image_path: "hello.exe".into(), command_line: "hello.exe".into(), current_dir: "C:\\".into() },
    );
    assert_eq!(p.exit_code(), None);
    p.terminate(3);
    assert_eq!(p.exit_code(), Some(3));
    assert_eq!(p.peb.image_base, 0x0014_0000_0000);
}

#[test]
fn access_violation_record() {
    let r = ExceptionRecord::access_violation(0xdead);
    assert_eq!(r.code, ACCESS_VIOLATION);
    assert_eq!(r.parameters, vec![0, 0xdead]);
    assert_eq!(r.status(), NtStatus(0xC0000005));
}

fn image(sections: Vec<SectionInfo>) -> ImageInfo {
    ImageInfo { size_of_image: 0x3000, size_of_headers: 0x400, image_base: 0x1_4000_0123, entry_point_rva: 0x1000, sections }
}

fn section(name: &str, va: u32, vsize: u32, raw_off: u32, raw: u32, ch: u32) -> SectionInfo {
    SectionInfo { name: name.into(), virtual_address: va, virtual_size: vsize, raw_offset: raw_off, raw_size: raw, characteristics: ch }
}

#[test]
fn image_plan_checks_ranges() {
    let img = image(vec![section(".text", 0x1000, 0x800, 0x400, 0x200, 0x6000_0020), section(".bss", 0x2000, 0x100, 0, 0, 0xC000_0080)]);
    let p = plan_image(&img, 0x600, 4096).unwrap();
    assert_eq!(p.size, 0x3000);
    assert_eq!(p.preferred, 0x1_4000_0000);
    assert_eq!(p.header_len, 0x400);
    assert_eq!(p.copies[0].len, 0x200);
    assert_eq!((p.copies[0].zero_at, p.copies[0].zero_len), (0x1200, 0x600));
    let bad = image(vec![section(".big", 0x2800, 0x1000, 0x400, 0x1000, 0)]);
    assert!(matches!(plan_image(&bad, 0x2000, 4096), Err(MapError::SectionRange(n)) if n == ".big"));
    let mut zero = image(vec![]);
    zero.size_of_image = 0;
    assert!(matches!(plan_image(&zero, 0, 4096), Err(MapError::BadImageSize(0))));
    let mut entry = image(vec![]);
    entry.entry_point_rva = 0x3000;
    assert!(matches!(plan_image(&entry, 0, 4096), Err(MapError::BadImageSize(0x3000))));
    let prot = protect_plan(&img, 0x3000, 4096);
    assert_eq!(prot[0], (0x1000, 0x1000, Prot { read: true, write: false, execute: true }));
    assert_eq!(prot[1], (0x2000, 0x1000, Prot { read: true, write: true, execute: false }));
    let m = MappedImage { base: 0x5000_0000, size: 0x3000, entry_rva: 0x1000, image_base_preferred: 0x1_4000_0000 };
    assert_eq!(m.base_addr(), 0x5000_0000);
    assert_eq!(m.entry_point(), 0x5000_1000);
}

#[test]
fn open_plan_creates_before_read_only_opens() {
    let ro_new = CreateOptions { read: true, write: false, disposition: 1 };
    let p = open_plan(&ro_new).unwrap();
    assert_eq!(
        p.ensure,
        Some(HostOpen { read: false, write: true, create: false, create_new: true, truncate: false })
    );
    assert_eq!(p.open, HostOpen { read: true, write: false, create: false, create_new: false, truncate: false });
    let rw_always = CreateOptions { read: true, write: true, disposition: 2 };
    let q = open_plan(&rw_always).unwrap();
    assert_eq!(q.ensure, None);
    assert_eq!(q.open, HostOpen { read: true, write: true, create: true, create_new: false, truncate: true });
    let trunc_ro = CreateOptions { read: true, write: false, disposition: 5 };
    assert_eq!(open_plan(&trunc_ro).unwrap_err().0, 0xC000_0022);
    let existing = CreateOptions { read: true, write: false, disposition: 3 };
    let e = open_plan(&existing).unwrap();
    assert_eq!(e.ensure, None);
    assert!(!e.open.create && !e.open.create_new && !e.open.truncate);
}

#[test]
fn host_open_failures_map_to_statuses() {
    assert_eq!(io_to_status(IoKind::NotFound, 3).0, 0xC000_0034);
    assert_eq!(io_to_status(IoKind::AlreadyExists, 1).0, 0xC000_0035);
    assert_eq!(io_to_status(IoKind::PermissionDenied, 3).0, 0xC000_0022);
    assert_eq!(io_to_status(IoKind::InvalidInput, 3).0, 0xC000_000D);
    assert_eq!(io_to_status(IoKind::Other, 1).0, 0xC000_0035);
    assert_eq!(io_to_status(IoKind::Other, 2).0, 0xC000_0001);
}

#[test]
fn read_without_read_access_is_denied() {
    let mut table = HandleTable::new();
    let opts_w = CreateOptions::from_win32(0x4000_0000, 2).unwrap();
    let h = register_file(&mut table, 10, "/tmp/t/ro.txt".to_string(), &opts_w);
    assert_eq!(read_target(&table, h), Err(NtStatus::access_denied()));
    assert_eq!(close_handle(&mut table, h), Ok(Some(10)));
}

#[test]
fn query_only_create_succeeds_readonly() {
    let opts = CreateOptions::from_win32(0, 2).unwrap();
    let plan = open_plan(&opts).unwrap();
    assert_eq!(
        plan.ensure,
        Some(HostOpen { read: false, write: true, create: true, create_new: false, truncate: true })
    );
    assert_eq!(plan.open, HostOpen { read: true, write: false, create: false, create_new: false, truncate: false });
    let mut table = HandleTable::new();
    let h = register_file(&mut table, 11, "/tmp/t/q0.txt".to_string(), &opts);
    assert_eq!(read_target(&table, h), Ok(11));
    assert_eq!(write_target(&table, h), Err(NtStatus::access_denied()));
    assert_eq!(close_handle(&mut table, h), Ok(Some(11)));
    let opts_t = CreateOptions::from_win32(0, 5).unwrap();
    assert_eq!(open_plan(&opts_t), Err(NtStatus::access_denied()));
}

#[test]
fn truncate_existing_truncates() {
    let opts = CreateOptions::from_win32(0x4000_0000, 5).unwrap();
    let plan = open_plan(&opts).unwrap();
    assert_eq!(plan.ensure, None);
    assert!(plan.open.truncate && plan.open.write && !plan.open.create);
}

#[test]
fn create_write_read_roundtrip() {
    let mut table = HandleTable::new();
    let opts = CreateOptions::from_win32(0x4000_0000, 2).unwrap();
    let h = register_file(&mut table, 12, "/tmp/t/rt.txt".to_string(), &opts);
    assert_eq!(write_target(&table, h), Ok(12));
    assert_eq!(close_handle(&mut table, h), Ok(Some(12)));
    assert!(table.lookup(h).is_err());
    let opts_r = CreateOptions::from_win32(0x8000_0000, 3).unwrap();
    let h2 = register_file(&mut table, 13, "/tmp/t/rt.txt".to_string(), &opts_r);
    assert_eq!(read_target(&table, h2), Ok(13));
    assert_eq!(write_target(&table, h2), Err(NtStatus::access_denied()));
}
