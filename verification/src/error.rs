//! Error values shared by every component.

use vstd::prelude::*;

verus! {

/// The classes of failure that the library reports.
#[derive(Clone, Copy, Debug, PartialEq, Eq, Structural)]
pub enum ErrorKind {
    /// Malformed parameters, rejected before any work is done.
    IllegalInput,
    /// A value has a data type that the operation does not accept.
    IllegalDataType,
    /// An argument is outside the set of accepted values.
    BadArguments,
    /// A read or write against the backing store failed.
    StorageIO,
    /// A commit met a concurrent mutation that cannot be reconciled.
    StorageConflict,
    /// The session that issued the request was aborted.
    AbortedSession,
    /// A setting name that the server does not know.
    UnknownVariable,
    /// An invariant was violated: counter overflow or an impossible transition.
    Internal,
}

/// An error: its class and a message for the operator.
#[derive(Clone, Debug)]
pub struct ErrorCode {
    pub kind: ErrorKind,
    pub message: String,
}

impl ErrorCode {
    /// Builds an error of the given class.
    pub fn new(kind: ErrorKind, message: &str) -> (e: ErrorCode)
        ensures
            e.kind == kind,
            e.message@ == message@,
    {
        ErrorCode { kind, message: message.to_owned() }
    }

    /// The class of this error.
    pub fn kind(&self) -> (k: ErrorKind)
        ensures
            k == self.kind,
    {
        self.kind
    }

    /// The message of this error.
    pub fn message(&self) -> (m: &str)
        ensures
            m@ == self.message@,
    {
        self.message.as_str()
    }
}

} // verus!
