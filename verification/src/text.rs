//! Decoding descriptive-text bytes into strings.

use vstd::prelude::*;

verus! {

/// What decoding a byte sequence as UTF-8 yields: the character sequence if
/// the bytes are valid UTF-8, `None` otherwise. The decoding depends on the
/// bytes alone.
pub uninterp spec fn utf8_of(b: Seq<u8>) -> Option<Seq<char>>;

/// Relies on `String::from_utf8` (std): returns the string whose bytes are
/// exactly `b` when `b` is valid UTF-8, and an error value otherwise.
#[verifier::external_body]
pub fn decode_utf8(b: &Vec<u8>) -> (r: Option<String>)
    ensures
        match r {
            Some(s) => utf8_of(b@) == Some(s@),
            None => utf8_of(b@) is None,
        },
{
    match String::from_utf8(b.clone()) {
        Ok(s) => Some(s),
        Err(_) => None,
    }
}

} // verus!
