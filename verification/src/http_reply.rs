//! What a request is answered when it fails, and how requests are counted.
use vstd::prelude::*;

use crate::text::{decimal, decimal_text};

verus! {

pub const STATUS_BAD_REQUEST: u16 = 400;

pub const STATUS_NOT_FOUND: u16 = 404;

pub const STATUS_CONFLICT: u16 = 409;

pub const STATUS_TOO_LARGE: u16 = 413;

pub const STATUS_INTERNAL_ERROR: u16 = 500;

/// The labels under which requests are counted.
#[derive(Debug, PartialEq, Eq, Hash)]
pub struct RequestLabels {
    pub method: String,
    pub endpoint: String,
    pub status: String,
}

/// The labels under which the duration of an operation is recorded.
#[derive(Debug, PartialEq, Eq, Hash)]
pub struct OperationLabels {
    pub operation: String,
}

/// The labels for a request that was answered with `status`.
pub fn request_labels(method: &str, endpoint: &str, status: u16) -> (r: RequestLabels)
    ensures
        r.method@ == method@,
        r.endpoint@ == endpoint@,
        r.status@ == decimal_text(status as nat),
{
    RequestLabels {
        method: method.to_owned(),
        endpoint: endpoint.to_owned(),
        status: decimal(status as u64),
    }
}

/// The labels for an operation.
pub fn operation_labels(operation: &str) -> (r: OperationLabels)
    ensures
        r.operation@ == operation@,
{
    OperationLabels { operation: operation.to_owned() }
}

/// A failed request: the status and text of the answer, and whether the request
/// is counted.
#[derive(Debug)]
pub struct HttpFailure {
    pub status: u16,
    pub message: String,
    pub counted: bool,
}

/// What an [`HttpFailure`] stands for.
pub struct Failure {
    pub status: u16,
    pub message: Seq<char>,
    pub counted: bool,
}

impl View for HttpFailure {
    type V = Failure;

    open spec fn view(&self) -> Failure {
        Failure { status: self.status, message: self.message@, counted: self.counted }
    }
}

impl Clone for HttpFailure {
    fn clone(&self) -> (r: Self)
        ensures
            r@ == self@,
    {
        HttpFailure {
            status: self.status,
            message: self.message.clone(),
            counted: self.counted,
        }
    }
}

/// The failure of a request that has not failed.
pub open spec fn no_failure() -> Failure {
    Failure { status: 0, message: Seq::<char>::empty(), counted: false }
}

impl HttpFailure {
    /// A failed request that is counted.
    pub fn counted(status: u16, message: String) -> (r: Self)
        ensures
            r@ == (Failure { status, message: message@, counted: true }),
    {
        HttpFailure { status, message, counted: true }
    }

    /// A failed request that is not counted.
    pub fn uncounted(status: u16, message: String) -> (r: Self)
        ensures
            r@ == (Failure { status, message: message@, counted: false }),
    {
        HttpFailure { status, message, counted: false }
    }

    /// The failure of a request that has not failed.
    pub fn none() -> (r: Self)
        ensures
            r@ == no_failure(),
    {
        HttpFailure { status: 0, message: String::new(), counted: false }
    }
}

} // verus!
