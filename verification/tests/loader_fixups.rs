use rine::nt_loader::{apply_relocs, resolve_imports, ImportSymbol, LoaderError, RelocBlock, RelocEntry};

fn read64(m: &[u8], o: usize) -> u64 {
    u64::from_le_bytes(m[o..o + 8].try_into().unwrap())
}

#[test]
fn reloc_delta_zero_noop() {
    let mut mem = vec![0u8; 0x1000];
    let base: u64 = 0x7f00_0000_0000;
    let blocks = vec![RelocBlock { page_rva: 0x100, entries: vec![] }];
    let n = apply_relocs(&mut mem, base, base, &blocks).unwrap();
    assert_eq!(n, 0);
}

#[test]
fn reloc_addr64_applies_delta() {
    let mut mem = vec![0u8; 0x2000];
    let base: u64 = 0x7f00_0000_0000;
    let preferred = base.wrapping_sub(0x10000);
    mem[0x100..0x108].copy_from_slice(&(preferred + 0x100).to_le_bytes());
    let blocks = vec![RelocBlock { page_rva: 0x100, entries: vec![RelocEntry { typ: 1, offset: 0 }] }];
    apply_relocs(&mut mem, base, preferred, &blocks).unwrap();
    assert_eq!(read64(&mem, 0x100), base + 0x100);
}

#[test]
fn reloc_counts_and_skips_padding() {
    let mut mem = vec![0u8; 0x100];
    let blocks = vec![RelocBlock {
        page_rva: 0x10,
        entries: vec![
            RelocEntry { typ: 0, offset: 0 },
            RelocEntry { typ: 3, offset: 8 },
            RelocEntry { typ: 4, offset: 16 },
            RelocEntry { typ: 1, offset: 24 },
        ],
    }];
    let n = apply_relocs(&mut mem, 0x3000, 0x1000, &blocks).unwrap();
    assert_eq!(n, 3);
    assert_eq!(read64(&mem, 0x28), 0x2000);
    assert_eq!(read64(&mem, 0x10), 0);
}

#[test]
fn reloc_out_of_range_and_bad_type_are_errors() {
    let mut mem = vec![0u8; 0x100];
    let far = vec![RelocBlock { page_rva: 0xF9, entries: vec![RelocEntry { typ: 1, offset: 0 }] }];
    assert!(matches!(apply_relocs(&mut mem, 2, 1, &far), Err(LoaderError::RelocRange(0xF9))));
    let bad = vec![RelocBlock { page_rva: 0, entries: vec![RelocEntry { typ: 1, offset: 0 }, RelocEntry { typ: 7, offset: 8 }] }];
    let mut mem2 = vec![0u8; 0x100];
    match apply_relocs(&mut mem2, 0x11, 0x10, &bad) {
        Err(LoaderError::BadReloc { typ, rva }) => assert_eq!((typ, rva), (7, 8)),
        other => panic!("{other:?}"),
    }
    // The entry before the bad one was applied.
    assert_eq!(read64(&mem2, 0), 1);
}

fn sym(name: Option<&str>, ordinal: Option<u16>, iat: u32) -> ImportSymbol {
    ImportSymbol { dll: "KERNEL32.dll".into(), name: name.map(|s| s.into()), ordinal, iat_rva: iat }
}

#[test]
fn imports_patch_the_iat() {
    let mut mem = vec![0u8; 0x40];
    let syms = vec![sym(Some("WriteFile"), None, 0x10), sym(None, Some(3), 0x18)];
    let n = resolve_imports(&mut mem, &syms, &[Some(0xAABB), Some(0x1122_3344_5566_7788)]).unwrap();
    assert_eq!(n, 2);
    assert_eq!(read64(&mem, 0x10), 0xAABB);
    assert_eq!(read64(&mem, 0x18), 0x1122_3344_5566_7788);
}

#[test]
fn unresolved_import_names_symbol_or_ordinal() {
    let mut mem = vec![0u8; 0x40];
    let syms = vec![sym(None, Some(5), 0x10)];
    match resolve_imports(&mut mem, &syms, &[None]) {
        Err(LoaderError::Unresolved { dll, name }) => {
            assert_eq!(dll, "KERNEL32.dll");
            assert_eq!(name, "#5");
        }
        other => panic!("{other:?}"),
    }
    let out = vec![sym(Some("X"), None, 0x3C)];
    assert!(matches!(resolve_imports(&mut mem, &out, &[Some(1)]), Err(LoaderError::RelocRange(0x3C))));
    assert_eq!(LoaderError::Unresolved { dll: "a".into(), name: "b".into() }.status().0, 0xC000_0034);
    assert_eq!(LoaderError::RelocRange(1).status().0, 0xC000_0001);
}
