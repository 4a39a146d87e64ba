//! Terminal cell widths of characters and texts.

use vstd::prelude::*;

verus! {

/// Cells that a character takes in a terminal; `None` for a control character.
pub uninterp spec fn char_cells(c: char) -> Option<usize>;

/// A control character: below the space, or from delete to the end of the
/// second control block.
pub open spec fn is_control(c: char) -> bool {
    (c as u32) <= 0x1f || (0x7f <= (c as u32) && (c as u32) <= 0x9f)
}

/// A printable ASCII character.
pub open spec fn is_printable_ascii(c: char) -> bool {
    0x20 <= (c as u32) && (c as u32) <= 0x7e
}

/// Cells that a character takes, none for control characters.
pub open spec fn cells(c: char) -> int {
    match char_cells(c) {
        Some(n) => n as int,
        None => 0,
    }
}

/// `UnicodeWidthChar::width`: control characters have no width, printable ASCII
/// takes one cell, and every other width depends on the character alone and
/// fits the byte it is looked up as.
#[verifier::external_body]
pub(crate) fn char_width(c: char) -> (r: Option<usize>)
    ensures
        r == char_cells(c),
        r is None <==> is_control(c),
        is_printable_ascii(c) ==> r == Some(1usize),
        r matches Some(n) ==> n <= 255,
{
    unicode_width::UnicodeWidthChar::width(c)
}

/// Cells that a whole text takes in a terminal.
pub uninterp spec fn str_cells(s: Seq<char>) -> usize;

/// `UnicodeWidthStr::width`: the width depends on the text alone. Left unsaid is
/// how it follows from the characters, which may join to one glyph.
#[verifier::external_body]
pub(crate) fn str_width(s: &str) -> (r: usize)
    ensures
        r == str_cells(s@),
{
    unicode_width::UnicodeWidthStr::width(s)
}

/// Cells that a character takes, none for control characters.
pub fn cell_width(c: char) -> (r: usize)
    ensures
        r == cells(c),
        r <= 255,
{
    match char_width(c) {
        Some(n) => n,
        None => 0,
    }
}

} // verus!
