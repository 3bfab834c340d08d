//! Which form of a request or an answer a client asks for.
use vstd::prelude::*;

use crate::text::{contains_text, occurs_in, starts_with};

verus! {

/// The longest body of a request that is read in one piece.
pub const MAX_JSON_BODY: usize = 1_500_000_000;

/// How an object arrives.
#[derive(Debug, Clone, Copy, PartialEq, Eq, Structural)]
pub enum PutForm {
    /// As a file in a form.
    Multipart,
    /// As base64 in a JSON body.
    Json,
}

/// How an object is given out.
#[derive(Debug, Clone, Copy, PartialEq, Eq, Structural)]
pub enum GetForm {
    /// As base64 in a JSON body.
    Json,
    /// As a stream of bytes.
    Stream,
}

/// How an object arrives, by the content type of the request, which may be
/// empty.
pub fn put_form(content_type: &str) -> (r: PutForm)
    ensures
        r == if "multipart/form-data"@.is_prefix_of(content_type@) {
            PutForm::Multipart
        } else {
            PutForm::Json
        },
{
    if starts_with(content_type, "multipart/form-data") {
        PutForm::Multipart
    } else {
        PutForm::Json
    }
}

/// How an object is given out to a client that accepts `accept`.
pub open spec fn form_for(accept: Seq<char>) -> GetForm {
    if occurs_in("application/json"@, accept) {
        GetForm::Json
    } else {
        GetForm::Stream
    }
}

/// How an object is given out, by what the client accepts, which may be empty.
pub fn get_form(accept: &str) -> (r: GetForm)
    ensures
        r == form_for(accept@),
{
    if contains_text(accept, "application/json") {
        GetForm::Json
    } else {
        GetForm::Stream
    }
}

/// The content type of an object that is given out in some form.
pub open spec fn content_type_for(form: GetForm) -> Seq<char> {
    match form {
        GetForm::Json => "application/json"@,
        GetForm::Stream => "application/octet-stream"@,
    }
}

/// The content type of an object that is given out in some form.
pub fn content_type(form: GetForm) -> (r: &'static str)
    ensures
        r@ == content_type_for(form),
{
    match form {
        GetForm::Json => "application/json",
        GetForm::Stream => "application/octet-stream",
    }
}

} // verus!
