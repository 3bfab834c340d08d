//! How a storage node answers requests.
use vstd::prelude::*;

use crate::status::{Code, ErrorKind, Status, StoreError};

verus! {

/// The code and text for a chunk that could not be written.
pub open spec fn write_status(kind: ErrorKind) -> (Code, Seq<char>) {
    match kind {
        ErrorKind::AlreadyExists => (Code::AlreadyExists, "chunk id already exists"@),
        ErrorKind::StorageFull => (Code::ResourceExhausted, "chunk store is full"@),
        _ => (Code::Internal, "failed to write chunk"@),
    }
}

/// The code and text for a chunk that could not be read.
pub open spec fn read_status(kind: ErrorKind) -> (Code, Seq<char>) {
    match kind {
        ErrorKind::NotFound => (Code::NotFound, "chunk not found"@),
        _ => (Code::Internal, "failed to read chunk"@),
    }
}

/// What a storage node answers.
pub struct StorageNodeImpl;

impl StorageNodeImpl {
    /// The answer once a chunk was written, or could not be.
    pub fn write_chunk_answer(outcome: Result<(), StoreError>) -> (r: Result<(), Status>)
        ensures
            match r {
                Ok(()) => outcome is Ok,
                Err(status) => outcome matches Err(e) && status.is(
                    write_status(e.kind).0,
                    write_status(e.kind).1,
                ),
            },
    {
        match outcome {
            Ok(()) => Ok(()),
            Err(e) => match e.kind {
                ErrorKind::AlreadyExists => Err(
                    Status::new(Code::AlreadyExists, "chunk id already exists".to_owned()),
                ),
                ErrorKind::StorageFull => Err(
                    Status::new(Code::ResourceExhausted, "chunk store is full".to_owned()),
                ),
                _ => Err(Status::new(Code::Internal, "failed to write chunk".to_owned())),
            },
        }
    }

    /// The answer once a chunk was read, or could not be.
    pub fn read_chunk_answer(outcome: Result<(Vec<u8>, u32), StoreError>) -> (r: Result<
        (Vec<u8>, u32),
        Status,
    >)
        ensures
            match r {
                Ok((bytes, checksum)) => outcome matches Ok((b, c)) && bytes@ == b@ && checksum
                    == c,
                Err(status) => outcome matches Err(e) && status.is(
                    read_status(e.kind).0,
                    read_status(e.kind).1,
                ),
            },
    {
        match outcome {
            Ok(found) => Ok(found),
            Err(e) => match e.kind {
                ErrorKind::NotFound => Err(
                    Status::new(Code::NotFound, "chunk not found".to_owned()),
                ),
                _ => Err(Status::new(Code::Internal, "failed to read chunk".to_owned())),
            },
        }
    }

    /// The answer once a chunk was deleted, or could not be.
    pub fn delete_chunk_answer(outcome: Result<(), StoreError>) -> (r: Result<(), Status>)
        ensures
            match r {
                Ok(()) => outcome is Ok,
                Err(status) => outcome is Err && status.is(
                    Code::Internal,
                    "failed to delete chunk"@,
                ),
            },
    {
        match outcome {
            Ok(()) => Ok(()),
            Err(_) => Err(Status::new(Code::Internal, "failed to delete chunk".to_owned())),
        }
    }
}

} // verus!
