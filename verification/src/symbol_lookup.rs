//! Table lookups (first matching row) over the symbol tables.
use vstd::prelude::*;
use crate::symbols::{kernel32_export_key, kernel32_export_val, kernel32_export_row, KERNEL32_EXPORT_LEN, ntdll_export_key, ntdll_export_val, ntdll_export_row, NTDLL_EXPORT_LEN, kernel32_ordinal_key, kernel32_ordinal_val, kernel32_ordinal_row, KERNEL32_ORDINAL_LEN, ntdll_ordinal_key, ntdll_ordinal_val, ntdll_ordinal_row, NTDLL_ORDINAL_LEN, forwarder_key, forwarder_val, forwarder_row, FORWARDER_LEN, Proc};

verus! {

/// First row of the kernel32 export table at or after `i` whose key is `key`.
pub open spec fn kernel32_export_find(key: Seq<char>, i: int) -> Option<Proc>
    decreases KERNEL32_EXPORT_LEN - i,
{
    if i < 0 || i >= KERNEL32_EXPORT_LEN {
        None
    } else if kernel32_export_key(i) == key {
        Some(kernel32_export_val(i))
    } else {
        kernel32_export_find(key, i + 1)
    }
}

pub fn kernel32_export_lookup(key: &str) -> (r: Option<Proc>)
    ensures
        r == kernel32_export_find(key@, 0),
{
    let mut i: usize = 0;
    while i < KERNEL32_EXPORT_LEN
        invariant
            i <= KERNEL32_EXPORT_LEN,
            kernel32_export_find(key@, 0) == kernel32_export_find(key@, i as int),
        decreases KERNEL32_EXPORT_LEN - i,
    {
        let row = kernel32_export_row(i);
        if crate::text::str_eq(row.0, key) {
            return Some(row.1);
        }
        i += 1;
    }
    None
}

/// First row of the ntdll export table at or after `i` whose key is `key`.
pub open spec fn ntdll_export_find(key: Seq<char>, i: int) -> Option<Proc>
    decreases NTDLL_EXPORT_LEN - i,
{
    if i < 0 || i >= NTDLL_EXPORT_LEN {
        None
    } else if ntdll_export_key(i) == key {
        Some(ntdll_export_val(i))
    } else {
        ntdll_export_find(key, i + 1)
    }
}

pub fn ntdll_export_lookup(key: &str) -> (r: Option<Proc>)
    ensures
        r == ntdll_export_find(key@, 0),
{
    let mut i: usize = 0;
    while i < NTDLL_EXPORT_LEN
        invariant
            i <= NTDLL_EXPORT_LEN,
            ntdll_export_find(key@, 0) == ntdll_export_find(key@, i as int),
        decreases NTDLL_EXPORT_LEN - i,
    {
        let row = ntdll_export_row(i);
        if crate::text::str_eq(row.0, key) {
            return Some(row.1);
        }
        i += 1;
    }
    None
}

/// First row of the kernel32 ordinal table at or after `i` whose key is `key`.
pub open spec fn kernel32_ordinal_find(key: u16, i: int) -> Option<Seq<char>>
    decreases KERNEL32_ORDINAL_LEN - i,
{
    if i < 0 || i >= KERNEL32_ORDINAL_LEN {
        None
    } else if kernel32_ordinal_key(i) == key {
        Some(kernel32_ordinal_val(i))
    } else {
        kernel32_ordinal_find(key, i + 1)
    }
}

pub fn kernel32_ordinal_lookup(key: u16) -> (r: Option<&'static str>)
    ensures
        match (r, kernel32_ordinal_find(key, 0)) { (Some(a), Some(b)) => a@ == b, (None, None) => true, _ => false },
{
    let mut i: usize = 0;
    while i < KERNEL32_ORDINAL_LEN
        invariant
            i <= KERNEL32_ORDINAL_LEN,
            kernel32_ordinal_find(key, 0) == kernel32_ordinal_find(key, i as int),
        decreases KERNEL32_ORDINAL_LEN - i,
    {
        let row = kernel32_ordinal_row(i);
        if row.0 == key {
            return Some(row.1);
        }
        i += 1;
    }
    None
}

/// First row of the ntdll ordinal table at or after `i` whose key is `key`.
pub open spec fn ntdll_ordinal_find(key: u16, i: int) -> Option<Seq<char>>
    decreases NTDLL_ORDINAL_LEN - i,
{
    if i < 0 || i >= NTDLL_ORDINAL_LEN {
        None
    } else if ntdll_ordinal_key(i) == key {
        Some(ntdll_ordinal_val(i))
    } else {
        ntdll_ordinal_find(key, i + 1)
    }
}

pub fn ntdll_ordinal_lookup(key: u16) -> (r: Option<&'static str>)
    ensures
        match (r, ntdll_ordinal_find(key, 0)) { (Some(a), Some(b)) => a@ == b, (None, None) => true, _ => false },
{
    let mut i: usize = 0;
    while i < NTDLL_ORDINAL_LEN
        invariant
            i <= NTDLL_ORDINAL_LEN,
            ntdll_ordinal_find(key, 0) == ntdll_ordinal_find(key, i as int),
        decreases NTDLL_ORDINAL_LEN - i,
    {
        let row = ntdll_ordinal_row(i);
        if row.0 == key {
            return Some(row.1);
        }
        i += 1;
    }
    None
}

/// First row of the forwarder table at or after `i` whose key is `key`.
pub open spec fn forwarder_find(key: Seq<char>, i: int) -> Option<Seq<char>>
    decreases FORWARDER_LEN - i,
{
    if i < 0 || i >= FORWARDER_LEN {
        None
    } else if forwarder_key(i) == key {
        Some(forwarder_val(i))
    } else {
        forwarder_find(key, i + 1)
    }
}

pub fn forwarder_lookup(key: &str) -> (r: Option<&'static str>)
    ensures
        match (r, forwarder_find(key@, 0)) { (Some(a), Some(b)) => a@ == b, (None, None) => true, _ => false },
{
    let mut i: usize = 0;
    while i < FORWARDER_LEN
        invariant
            i <= FORWARDER_LEN,
            forwarder_find(key@, 0) == forwarder_find(key@, i as int),
        decreases FORWARDER_LEN - i,
    {
        let row = forwarder_row(i);
        if crate::text::str_eq(row.0, key) {
            return Some(row.1);
        }
        i += 1;
    }
    None
}

} // verus!
