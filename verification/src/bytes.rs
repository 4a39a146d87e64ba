//! Raw bytes as text.

use vstd::prelude::*;

verus! {

/// The text that bytes which are not valid UTF-8 are read as.
pub uninterp spec fn replaced(bytes: Seq<u8>) -> Seq<char>;

/// The text that raw bytes are read as: what they encode, if they are valid
/// UTF-8.
pub open spec fn lossy(bytes: Seq<u8>) -> Seq<char> {
    if vstd::utf8::valid_utf8(bytes) {
        vstd::utf8::decode_utf8(bytes)
    } else {
        replaced(bytes)
    }
}

/// `String::from_utf8_lossy`: valid UTF-8 is decoded as it stands, and for other
/// bytes the result depends on the bytes alone. Left unsaid is where replacement
/// characters appear in a text that is not valid UTF-8.
#[verifier::external_body]
pub(crate) fn lossy_text(bytes: &[u8]) -> (r: String)
    ensures
        vstd::utf8::valid_utf8(bytes@) ==> r@ == vstd::utf8::decode_utf8(bytes@),
        !vstd::utf8::valid_utf8(bytes@) ==> r@ == replaced(bytes@),
{
    String::from_utf8_lossy(bytes).into_owned()
}

} // verus!
