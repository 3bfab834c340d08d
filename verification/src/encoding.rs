//! Base64, as request and response bodies carry bytes.
use base64::engine::general_purpose;
use base64::Engine;
use vstd::prelude::*;

verus! {

/// The bytes that a base64 text stands for, or why it stands for none.
pub uninterp spec fn base64_decoded(text: Seq<char>) -> Result<Seq<u8>, Seq<char>>;

/// The base64 text of some bytes.
pub uninterp spec fn base64_encoded(data: Seq<u8>) -> Seq<char>;

/// The outcome of a decoding that gave `data`.
pub open spec fn decoding_gave(data: Seq<u8>) -> Result<Seq<u8>, Seq<char>> {
    Ok(data)
}

/// The view of the outcome of a decoding.
pub open spec fn decoding_view(r: Result<Vec<u8>, String>) -> Result<Seq<u8>, Seq<char>> {
    match r {
        Ok(data) => Ok(data@),
        Err(message) => Err(message@),
    }
}

/// `decode` of `base64::engine::general_purpose::STANDARD`: the outcome, and
/// the text of the error, are functions of the text.
#[verifier::external_body]
pub(crate) fn decode_base64(text: &str) -> (r: Result<Vec<u8>, String>)
    ensures
        base64_decoded(text@) == decoding_view(r),
{
    match general_purpose::STANDARD.decode(text) {
        Ok(data) => Ok(data),
        Err(e) => Err(e.to_string()),
    }
}

/// Whether the base64 text of `len` bytes can be held in memory: it has four
/// characters for every three bytes or part of three, and no allocation is
/// larger than `isize::MAX`.
pub open spec fn fits_in_base64(len: nat) -> bool {
    len <= isize::MAX / 4 * 3
}

/// Whether the base64 text of `len` bytes can be held in memory.
pub fn can_encode(len: usize) -> (r: bool)
    ensures
        r == fits_in_base64(len as nat),
{
    len <= isize::MAX as usize / 4 * 3
}

/// `encode` of `base64::engine::general_purpose::STANDARD`: the text is a
/// function of the bytes, and decoding it gives the bytes back. Longer data than
/// [`can_encode`] allows makes it panic.
#[verifier::external_body]
pub(crate) fn encode_base64(data: &[u8]) -> (r: String)
    requires
        fits_in_base64(data@.len()),
    ensures
        r@ == base64_encoded(data@),
        base64_decoded(r@) == decoding_gave(data@),
{
    general_purpose::STANDARD.encode(data)
}

} // verus!
