//! Turning file contents into text.

use vstd::prelude::*;
use vstd::utf8::*;

verus! {

/// The text that `String::from_utf8_lossy` makes of `bytes`.
pub uninterp spec fn lossy_text(bytes: Seq<u8>) -> Seq<char>;

/// The message of the error that `std::str::from_utf8` gives for `bytes`.
pub uninterp spec fn utf8_error(bytes: Seq<u8>) -> Seq<char>;

/// Wraps `String::from_utf8_lossy`.
///
/// Trusted: the text depends on the bytes alone, and bytes that are valid
/// UTF-8 give the text that they encode. What stands in for invalid bytes is
/// left to the standard library.
#[verifier::external_body]
pub(crate) fn decode_lossy(bytes: &[u8]) -> (r: String)
    ensures
        r@ == lossy_text(bytes@),
        valid_utf8(bytes@) ==> r@ == decode_utf8(bytes@),
{
    String::from_utf8_lossy(bytes).into_owned()
}

/// Wraps `std::str::from_utf8` and hands out the message of its error.
///
/// Trusted: there is no error exactly if the bytes are valid UTF-8, and the
/// message depends on the bytes alone.
#[verifier::external_body]
pub(crate) fn utf8_error_of(bytes: &[u8]) -> (r: Option<String>)
    ensures
        r is None <==> valid_utf8(bytes@),
        r is Some ==> r->0@ == utf8_error(bytes@),
{
    match std::str::from_utf8(bytes) {
        Ok(_) => None,
        Err(err) => Some(err.to_string()),
    }
}

} // verus!
