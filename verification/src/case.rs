//! Letter case.

use vstd::prelude::*;

verus! {

/// A text in lower case.
pub uninterp spec fn lowercase(s: Seq<char>) -> Seq<char>;

/// `str::to_lowercase`: the result depends on the text alone. Left unsaid is
/// the case mapping itself, which Unicode's tables define.
#[verifier::external_body]
pub(crate) fn lowercase_text(s: &str) -> (r: String)
    ensures
        r@ == lowercase(s@),
{
    s.to_lowercase()
}

/// Has the character Unicode's `Uppercase` property?
pub uninterp spec fn is_upper(c: char) -> bool;

/// `char::is_uppercase`: the answer depends on the character alone. Left unsaid
/// is the property itself, which Unicode's tables define.
#[verifier::external_body]
pub(crate) fn upper(c: char) -> (r: bool)
    ensures
        r == is_upper(c),
{
    c.is_uppercase()
}

} // verus!
