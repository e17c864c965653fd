//! Display widths in terminal cells. The widths themselves are what the
//! `unicode-width` crate says; this module gives them names that contracts can
//! speak of.
use unicode_width::{UnicodeWidthChar, UnicodeWidthStr};
use vstd::prelude::*;

verus! {

/// What `UnicodeWidthChar::width` returns for a character.
pub uninterp spec fn glyph_width(c: char) -> Option<usize>;

/// What `UnicodeWidthStr::width` returns for a string.
pub uninterp spec fn text_width(s: Seq<char>) -> usize;

/// `UnicodeWidthChar::width`: the columns that one character takes, `None` for
/// a control code. Printable ASCII takes one column, control codes have no
/// width, and no character takes more than three columns.
#[verifier::external_body]
fn char_width(c: char) -> (r: Option<usize>)
    ensures
        r == glyph_width(c),
        0x20 <= c as u32 <= 0x7e ==> r == Some(1usize),
        c as u32 <= 0x1f || 0x7f <= c as u32 <= 0x9f ==> r is None,
        r is Some ==> r->0 <= 3,
{
    UnicodeWidthChar::width(c)
}

/// `UnicodeWidthStr::width`: the columns that a string takes. Ligatures and
/// emoji sequences make it differ from the sum over the characters.
#[verifier::external_body]
pub(crate) fn str_width(s: &str) -> (r: usize)
    ensures
        r == text_width(s@),
{
    UnicodeWidthStr::width(s)
}

/// Cells that a character takes; a control code takes none.
pub open spec fn cells(c: char) -> nat {
    match glyph_width(c) {
        Some(n) => n as nat,
        None => 0,
    }
}

/// Cells that a character takes; a control code takes none.
pub fn cell_width(c: char) -> (r: usize)
    ensures
        r == cells(c),
        r <= 3,
        0x20 <= c as u32 <= 0x7e ==> r == 1,
{
    match char_width(c) {
        Some(n) => n,
        None => 0,
    }
}

/// Whether `more` fits into `width` when `used` is taken already.
pub fn fits(used: usize, more: usize, width: usize) -> (r: bool)
    ensures
        r == (used + more <= width),
{
    more <= width && used <= width - more
}

} // verus!
