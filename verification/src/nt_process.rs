//! NT process model: parameters, minimal PEB and exit code.
use vstd::prelude::*;
use crate::abi::PebMinimal;

verus! {

#[derive(Debug, Clone)]
pub struct ProcessParameters {
    pub image_path: String,
    pub command_line: String,
    pub current_dir: String,
}

/// An emulated process (lives inside the host process).
#[derive(Debug)]
pub struct Process {
    pub pid_win: u32,
    pub image_base: u64,
    pub peb: PebMinimal,
    pub params: ProcessParameters,
    pub exit_code: Option<u32>,
}

impl Process {
    /// A running process: PEB with the image base and no parameters or
    /// loader data yet; no exit code.
    pub fn new(pid_win: u32, image_base: u64, params: ProcessParameters) -> (p: Process)
        ensures
            p.pid_win == pid_win,
            p.image_base == image_base,
            p.peb == (PebMinimal { image_base, process_parameters: 0, loader_data: 0 }),
            p.params == params,
            p.exit_code is None,
    {
        Process {
            pid_win,
            image_base,
            peb: PebMinimal { image_base, process_parameters: 0, loader_data: 0 },
            params,
            exit_code: None,
        }
    }

    /// Records the exit code (the last call wins).
    pub fn terminate(&mut self, code: u32)
        ensures
            final(self).exit_code == Some(code),
            final(self).pid_win == old(self).pid_win,
            final(self).image_base == old(self).image_base,
            final(self).peb == old(self).peb,
            final(self).params == old(self).params,
    {
        self.exit_code = Some(code);
    }

    pub fn exit_code(&self) -> (r: Option<u32>)
        ensures
            r == self.exit_code,
    {
        self.exit_code
    }
}

} // verus!
