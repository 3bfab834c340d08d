//! Errors of the stores and statuses of remote calls.
use vstd::prelude::*;

verus! {

/// What went wrong in a store.
#[derive(Clone, Copy, Debug, PartialEq, Eq, Structural)]
pub enum ErrorKind {
    InvalidInput,
    InvalidData,
    NotFound,
    AlreadyExists,
    HostUnreachable,
    StorageFull,
    Other,
}

/// An error of a store, with a message for people.
#[derive(Debug)]
pub struct StoreError {
    pub kind: ErrorKind,
    pub message: String,
}

impl StoreError {
    /// An error of a kind, with its message.
    pub fn new(kind: ErrorKind, message: String) -> (r: Self)
        ensures
            r.is(kind, message@),
    {
        StoreError { kind, message }
    }

    /// Whether this is the error of that kind with that message.
    pub open spec fn is(self, kind: ErrorKind, message: Seq<char>) -> bool {
        self.kind == kind && self.message@ == message
    }

    /// What went wrong.
    pub fn kind(&self) -> (r: ErrorKind)
        ensures
            r == self.kind,
    {
        self.kind
    }
}

/// The outcome of a remote call that failed.
#[derive(Clone, Copy, Debug, PartialEq, Eq, Structural)]
pub enum Code {
    InvalidArgument,
    NotFound,
    AlreadyExists,
    ResourceExhausted,
    FailedPrecondition,
    Unavailable,
    Internal,
    Other,
}

/// A failed remote call: its code and a message.
#[derive(Debug)]
pub struct Status {
    pub code: Code,
    pub message: String,
}

impl Status {
    /// A status with its message.
    pub fn new(code: Code, message: String) -> (r: Self)
        ensures
            r.is(code, message@),
    {
        Status { code, message }
    }

    /// Whether this is the status of that code with that message.
    pub open spec fn is(self, code: Code, message: Seq<char>) -> bool {
        self.code == code && self.message@ == message
    }

    /// The code.
    pub fn code(&self) -> (r: Code)
        ensures
            r == self.code,
    {
        self.code
    }
}

} // verus!
