//! Verified core of the Rine Windows-compatibility runtime and its
//! differential-testing platform.

pub mod abi;
pub mod rng;
pub mod text;
pub mod nt_object;
pub mod symbols;
pub mod symbol_lookup;
pub mod apiset_table;
pub mod apiset_order;
pub mod modules;
pub mod manager_error;
pub mod run;
pub mod launcher;
pub mod shrink;
pub mod nt_file;
pub mod scenario;
pub mod models;
pub mod file_model;
pub mod gen;
pub mod compare;
pub mod campaign;
pub mod api_record;
pub mod api_coverage;
pub mod fuzz;
pub mod nt_memory;
pub mod loader;
pub mod registry;
pub mod manager;
pub mod nt_exception;
pub mod nt_process;
pub mod report;
pub mod nt_loader;
pub mod memory_case;
pub mod kernelbase;
pub mod normalize;
pub mod kernel32;
