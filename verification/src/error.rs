//! The error taxonomy surfaced to callers, and the total mapping from
//! error kinds to host-side error classes that every language binding uses.

use vstd::prelude::*;

verus! {

/// The operation that an error arose from, used both for capability
/// checks and for error context.
#[derive(Clone, Copy, PartialEq, Eq, Structural, Debug)]
pub enum Operation {
    Stat,
    Read,
    Write,
    Delete,
    Copy,
    Rename,
    List,
    Presign,
    Batch,
}

/// The kind of an error, as surfaced to callers.
#[derive(Clone, Copy, PartialEq, Eq, Structural, Debug)]
pub enum ErrorKind {
    NotFound,
    AlreadyExists,
    PermissionDenied,
    Unsupported,
    InvalidInput,
    IsADirectory,
    NotADirectory,
    RateLimited,
    Unexpected,
}

/// An error with its operation and path context attached.  `temporary`
/// marks transient faults (timeouts, connection resets) that a retry
/// layer may reattempt.
#[derive(Clone, PartialEq, Eq, Structural, Debug)]
pub struct OpError {
    pub kind: ErrorKind,
    pub op: Operation,
    pub temporary: bool,
}

impl OpError {
    /// Build an error carrying the given context.
    pub fn new(kind: ErrorKind, op: Operation, temporary: bool) -> (r: OpError)
        ensures
            r == (OpError { kind, op, temporary }),
    {
        OpError { kind, op, temporary }
    }

    /// Whether a retry layer may reattempt an operation that failed with
    /// this error.
    pub fn is_retryable(&self) -> (r: bool)
        ensures
            r == self.temporary,
    {
        self.temporary
    }
}

/// The host-side error class a kind maps to.  Each language binding
/// renders these as its native exception types.
#[derive(Clone, Copy, PartialEq, Eq, Structural, Debug)]
pub enum HostErrorClass {
    FileNotFound,
    FileExists,
    Permission,
    NotImplemented,
    General,
}

/// What `host_error_class` returns on each kind.
pub open spec fn spec_host_error_class(kind: ErrorKind) -> HostErrorClass {
    match kind {
        ErrorKind::NotFound => HostErrorClass::FileNotFound,
        ErrorKind::AlreadyExists => HostErrorClass::FileExists,
        ErrorKind::PermissionDenied => HostErrorClass::Permission,
        ErrorKind::Unsupported => HostErrorClass::NotImplemented,
        _ => HostErrorClass::General,
    }
}

/// The pure, total, order-independent mapping from an error kind to the
/// host error class; kinds with no dedicated class fall back to the
/// general one.
pub fn host_error_class(kind: ErrorKind) -> (r: HostErrorClass)
    ensures
        r == spec_host_error_class(kind),
{
    match kind {
        ErrorKind::NotFound => HostErrorClass::FileNotFound,
        ErrorKind::AlreadyExists => HostErrorClass::FileExists,
        ErrorKind::PermissionDenied => HostErrorClass::Permission,
        ErrorKind::Unsupported => HostErrorClass::NotImplemented,
        ErrorKind::InvalidInput => HostErrorClass::General,
        ErrorKind::IsADirectory => HostErrorClass::General,
        ErrorKind::NotADirectory => HostErrorClass::General,
        ErrorKind::RateLimited => HostErrorClass::General,
        ErrorKind::Unexpected => HostErrorClass::General,
    }
}

} // verus!
