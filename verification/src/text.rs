//! The one step of rendering left to the standard library: turning the
//! rendered bytes into a `String` for callers that want one.

use vstd::prelude::*;

verus! {

/// The text that lossy UTF-8 decoding yields for a byte sequence; a
/// function of the bytes alone.
pub uninterp spec fn utf8_lossy(bytes: Seq<u8>) -> Seq<char>;

/// Relies on String::from_utf8_lossy: the result depends on the bytes
/// alone, and an empty input stays empty.
#[verifier::external_body]
pub(crate) fn lossy_string(bytes: &Vec<u8>) -> (r: String)
    ensures
        r@ == utf8_lossy(bytes@),
        bytes@.len() == 0 ==> r@.len() == 0,
{
    String::from_utf8_lossy(bytes.as_slice()).into_owned()
}

} // verus!
