//! NT exception records (SEH model): codes and the access-violation
//! record.
use vstd::prelude::*;
use crate::abi::NtStatus;

verus! {

pub const ACCESS_VIOLATION: u32 = 0xC0000005;
pub const ILLEGAL_INSTRUCTION: u32 = 0xC000001D;
pub const INT_DIVIDE_BY_ZERO: u32 = 0xC0000094;
pub const STACK_OVERFLOW: u32 = 0xC00000FD;

#[derive(Debug, Clone)]
pub struct ExceptionRecord {
    pub code: u32,
    pub flags: u32,
    pub address: u64,
    pub parameters: Vec<u64>,
}

impl ExceptionRecord {
    /// Access violation at `address`: parameters `[0 (read), address]`.
    pub fn access_violation(address: u64) -> (r: ExceptionRecord)
        ensures
            r.code == ACCESS_VIOLATION,
            r.flags == 0,
            r.address == address,
            r.parameters@ == seq![0u64, address],
    {
        let parameters = vec![0u64, address];
        assert(parameters@ =~= seq![0u64, address]);
        ExceptionRecord { code: ACCESS_VIOLATION, flags: 0, address, parameters }
    }

    /// The exception code as an `NTSTATUS`.
    pub fn status(&self) -> (s: NtStatus)
        ensures
            s == NtStatus(self.code),
    {
        NtStatus(self.code)
    }
}

} // verus!
