//! Typed errors of the management layer: each variant has a stable code
//! for the frontend plus a human message.
use vstd::prelude::*;
use crate::text::{concat, decimal, i64_decimal, owned, string_of, u64_decimal};

verus! {

/// Error at the manager ↔ user/runtime boundary.
#[derive(Debug, Clone, PartialEq, Eq)]
pub enum ManagerError {
    /// `rine` binary missing or invalid.
    RuntimeNotFound(String),
    /// Runtime version differs from the manager's (never silent).
    ProtocolMismatch { manager: String, runtime: String },
    /// Bytes are not a supported x86_64 PE.
    UnsupportedPe(String),
    /// Unreadable or invalid capsule.
    InvalidCapsule { path: String, reason: String },
    /// Refused at load time: imports without implementation.
    ImportBlocked { missing: usize },
    /// Runtime exited non-zero without a structured crash.
    RuntimeFailed { code: i32 },
    /// Inconsistent registry or library.
    InvalidRegistry(String),
    /// I/O (disk, spawn) with its operation.
    Io { op: String, reason: String },
}

pub open spec fn code_spec(e: ManagerError) -> Seq<char> {
    match e {
        ManagerError::RuntimeNotFound(_) => "RUNTIME_NOT_FOUND"@,
        ManagerError::ProtocolMismatch { .. } => "PROTOCOL_MISMATCH"@,
        ManagerError::UnsupportedPe(_) => "UNSUPPORTED_PE"@,
        ManagerError::InvalidCapsule { .. } => "INVALID_CAPSULE"@,
        ManagerError::ImportBlocked { .. } => "IMPORT_BLOCKED"@,
        ManagerError::RuntimeFailed { .. } => "RUNTIME_FAILED"@,
        ManagerError::InvalidRegistry(_) => "INVALID_REGISTRY"@,
        ManagerError::Io { .. } => "IO"@,
    }
}

/// Signed decimal rendering.
pub open spec fn signed_decimal(n: int) -> Seq<char> {
    if n < 0 { seq!['-'] + decimal((-n) as nat) } else { decimal(n as nat) }
}

/// Human message of each variant.
pub open spec fn message_spec(e: ManagerError) -> Seq<char> {
    match e {
        ManagerError::RuntimeNotFound(s) => "runtime Rine não encontrado: "@ + s@,
        ManagerError::ProtocolMismatch { manager, runtime } =>
            "incompatibilidade de versão (manager "@ + manager@ + ", runtime "@ + runtime@ + ")"@,
        ManagerError::UnsupportedPe(s) => "PE não suportado: "@ + s@,
        ManagerError::InvalidCapsule { path, reason } => "capsule inválida ("@ + path@ + "): "@ + reason@,
        ManagerError::ImportBlocked { missing } => "bloqueado por imports ("@ + decimal(missing as nat) + " em falta)"@,
        ManagerError::RuntimeFailed { code } => "runtime saiu com código "@ + signed_decimal(code as int),
        ManagerError::InvalidRegistry(s) => "registro inválido: "@ + s@,
        ManagerError::Io { op, reason } => "io ("@ + op@ + "): "@ + reason@,
    }
}

impl ManagerError {
    /// Stable code for the frontend (never only the human message).
    pub fn code(&self) -> (r: &'static str)
        ensures
            r@ == code_spec(*self),
    {
        match self {
            ManagerError::RuntimeNotFound(_) => "RUNTIME_NOT_FOUND",
            ManagerError::ProtocolMismatch { .. } => "PROTOCOL_MISMATCH",
            ManagerError::UnsupportedPe(_) => "UNSUPPORTED_PE",
            ManagerError::InvalidCapsule { .. } => "INVALID_CAPSULE",
            ManagerError::ImportBlocked { .. } => "IMPORT_BLOCKED",
            ManagerError::RuntimeFailed { .. } => "RUNTIME_FAILED",
            ManagerError::InvalidRegistry(_) => "INVALID_REGISTRY",
            ManagerError::Io { .. } => "IO",
        }
    }

    /// Human message (what the error displays).
    pub fn message(&self) -> (r: String)
        ensures
            r@ == message_spec(*self),
    {
        match self {
            ManagerError::RuntimeNotFound(s) => concat("runtime Rine não encontrado: ", s.as_str()),
            ManagerError::ProtocolMismatch { manager, runtime } => {
                let a = concat("incompatibilidade de versão (manager ", manager.as_str());
                let b = concat(a.as_str(), ", runtime ");
                let c = concat(b.as_str(), runtime.as_str());
                concat(c.as_str(), ")")
            },
            ManagerError::UnsupportedPe(s) => concat("PE não suportado: ", s.as_str()),
            ManagerError::InvalidCapsule { path, reason } => {
                let a = concat("capsule inválida (", path.as_str());
                let b = concat(a.as_str(), "): ");
                concat(b.as_str(), reason.as_str())
            },
            ManagerError::ImportBlocked { missing } => {
                let d = string_of(u64_decimal(*missing as u64).as_slice());
                let a = concat("bloqueado por imports (", d.as_str());
                concat(a.as_str(), " em falta)")
            },
            ManagerError::RuntimeFailed { code } => {
                let d = string_of(i64_decimal(*code as i64).as_slice());
                concat("runtime saiu com código ", d.as_str())
            },
            ManagerError::InvalidRegistry(s) => concat("registro inválido: ", s.as_str()),
            ManagerError::Io { op, reason } => {
                let a = concat("io (", op.as_str());
                let b = concat(a.as_str(), "): ");
                concat(b.as_str(), reason.as_str())
            },
        }
    }
}

#[verifier::external_type_specification]
#[verifier::external_body]
pub struct ExIoError(std::io::Error);

/// Text of an I/O error (std `Display` of `io::Error`; what the operating
/// system reports is not specified here).
#[verifier::external_body]
fn io_error_text(e: &std::io::Error) -> String {
    e.to_string()
}

/// `Io` error carrying the failed operation and the system's reason.
pub fn io_err(op: &str, e: std::io::Error) -> (r: ManagerError)
    ensures
        r matches ManagerError::Io { op: o, .. } && o@ == op@,
{
    ManagerError::Io { op: owned(op), reason: io_error_text(&e) }
}

} // verus!
