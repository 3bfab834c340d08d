//! Which names an object may have.
use vstd::prelude::*;

use crate::text::{chars_of, decimal, decimal_text, join3};

verus! {

/// The longest name, in characters.
pub const MAX_OBJECT_NAME_LENGTH: usize = 1024;

/// Whether a character is alphabetic or numeric in Unicode.
pub uninterp spec fn unicode_alphanumeric(c: char) -> bool;

pub open spec fn ascii_alphanumeric(c: char) -> bool {
    let n = c as u32;
    0x30 <= n <= 0x39 || 0x41 <= n <= 0x5a || 0x61 <= n <= 0x7a
}

/// `char::is_alphanumeric` tells whether a character is alphabetic or numeric;
/// of the ASCII characters, letters and digits are.
pub assume_specification[ char::is_alphanumeric ](c: char) -> (r: bool)
    ensures
        r == unicode_alphanumeric(c),
        (c as u32) < 0x80 ==> r == ascii_alphanumeric(c),
;

/// Whether a character is a letter or a digit.
pub open spec fn is_letter_or_digit(c: char) -> bool {
    if (c as u32) < 0x80 {
        ascii_alphanumeric(c)
    } else {
        unicode_alphanumeric(c)
    }
}

/// Whether a character may stand in a name.
pub open spec fn allowed_in_name(c: char) -> bool {
    is_letter_or_digit(c) || c == '-' || c == '_' || c == '.' || c == '/'
}

pub open spec fn has_double_slash(name: Seq<char>) -> bool {
    exists|i: int| 0 <= i < name.len() - 1 && #[trigger] name[i] == '/' && name[i + 1] == '/'
}

/// Why a name is refused, if it is.
pub open spec fn name_error(name: Seq<char>) -> Option<Seq<char>> {
    if name.len() == 0 {
        Some("object name must not be empty"@)
    } else if name.len() > MAX_OBJECT_NAME_LENGTH {
        Some(
            "object name must not exceed "@ + decimal_text(MAX_OBJECT_NAME_LENGTH as nat)
                + " characters"@,
        )
    } else if exists|i: int| 0 <= i < name.len() && !allowed_in_name(#[trigger] name[i]) {
        Some(
            "object name may only contain alphanumeric characters, hyphens, underscores, dots, and slashes"@,
        )
    } else if name[0] == '/' || name.last() == '/' {
        Some("object name must not start or end with a slash"@)
    } else if has_double_slash(name) {
        Some("object name must not contain consecutive slashes"@)
    } else {
        None
    }
}

/// Accepts names of 1 to 1024 characters out of letters, digits, `-`, `_`, `.`
/// and `/`, the slashes single and inside the name.
pub fn validate_object_name(name: &str) -> (r: Result<(), String>)
    ensures
        match r {
            Ok(()) => name_error(name@) is None,
            Err(message) => name_error(name@) == Some(message@),
        },
{
    let chars: Vec<char> = chars_of(name);
    let len: usize = chars.len();
    if len == 0 {
        return Err("object name must not be empty".to_owned());
    }
    if len > MAX_OBJECT_NAME_LENGTH {
        return Err(
            join3(
                "object name must not exceed ",
                decimal(MAX_OBJECT_NAME_LENGTH as u64).as_str(),
                " characters",
            ),
        );
    }
    let mut i: usize = 0;
    while i < len
        invariant
            i <= len,
            len == chars@.len(),
            chars@ == name@,
            0 < len <= MAX_OBJECT_NAME_LENGTH,
            forall|j: int| 0 <= j < i ==> allowed_in_name(#[trigger] name@[j]),
        decreases len - i,
    {
        let c: char = chars[i];
        if !(c.is_alphanumeric() || c == '-' || c == '_' || c == '.' || c == '/') {
            assert(!allowed_in_name(name@[i as int]));
            return Err(
                "object name may only contain alphanumeric characters, hyphens, underscores, dots, and slashes".to_owned(),
            );
        }
        i = i + 1;
    }
    if chars[0] == '/' || chars[len - 1] == '/' {
        return Err("object name must not start or end with a slash".to_owned());
    }
    let mut k: usize = 0;
    while k < len - 1
        invariant
            k <= len - 1,
            len == chars@.len(),
            chars@ == name@,
            0 < len <= MAX_OBJECT_NAME_LENGTH,
            forall|j: int| 0 <= j < len ==> allowed_in_name(#[trigger] name@[j]),
            !(name@[0] == '/' || name@.last() == '/'),
            forall|j: int| 0 <= j < k ==> !(#[trigger] name@[j] == '/' && name@[j + 1] == '/'),
        decreases len - 1 - k,
    {
        if chars[k] == '/' && chars[k + 1] == '/' {
            assert(name@[k as int] == '/' && name@[k + 1] == '/');
            return Err("object name must not contain consecutive slashes".to_owned());
        }
        k = k + 1;
    }
    Ok(())
}

} // verus!
