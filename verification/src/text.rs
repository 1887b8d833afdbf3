//! Trusted conversion from raw bytes to text.

use vstd::prelude::*;

use vstd::utf8::valid_utf8;
use vstd::utf8::encode_utf8;

verus! {

/// Relies on String::from_utf8: it succeeds exactly on valid UTF-8,
/// and the returned string is the one whose UTF-8 bytes are the
/// input.
#[verifier::external_body]
pub(crate) fn string_from_utf8(v: Vec<u8>) -> (r: Option<String>)
    ensures
        r is Some <==> valid_utf8(v@),
        r matches Some(s) ==> encode_utf8(s@) == v@,
{
    match String::from_utf8(v) {
        Ok(s) => Some(s),
        Err(_) => None,
    }
}

} // verus!
