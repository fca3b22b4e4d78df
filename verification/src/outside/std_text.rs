//! Functions of std on text.

use vstd::prelude::*;
use vstd::utf8::*;

verus! {

/// The text with its letters made small, in every script
/// (`str::to_lowercase`).
pub uninterp spec fn lowercase(text: Seq<char>) -> Seq<char>;

/// The text of bytes that may not be UTF-8 (`String::from_utf8_lossy`).
pub uninterp spec fn lossy(bytes: Seq<u8>) -> Seq<char>;

/// `str::to_lowercase` of std makes letters small by the rules of Unicode.
#[verifier::external_body]
pub(crate) fn to_lowercase(text: &str) -> (r: String)
    ensures
        r@ == lowercase(text@),
{
    text.to_lowercase()
}

/// `String::from_utf8_lossy` of std gives the text of the bytes where they are
/// UTF-8; else it stands in a replacement character for what is not.
#[verifier::external_body]
pub(crate) fn from_utf8_lossy(bytes: &[u8]) -> (r: String)
    ensures
        r@ == lossy(bytes@),
        valid_utf8(bytes@) ==> r@ == decode_utf8(bytes@),
{
    String::from_utf8_lossy(bytes).into_owned()
}

/// `std::str::from_utf8` gives the text of the bytes exactly where they are
/// UTF-8.
#[verifier::external_body]
pub(crate) fn from_utf8(bytes: &[u8]) -> (r: Option<String>)
    ensures
        (match r {
            Some(s) => valid_utf8(bytes@) && s@ == decode_utf8(bytes@),
            None => !valid_utf8(bytes@),
        }),
{
    std::str::from_utf8(bytes).ok().map(|s| s.to_owned())
}

} // verus!
