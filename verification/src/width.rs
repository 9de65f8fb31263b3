//! Display width in terminal columns.

use unicode_width::{UnicodeWidthChar, UnicodeWidthStr};
use vstd::prelude::*;

verus! {

/// Columns that a text takes up: what `UnicodeWidthStr::width` returns.
pub uninterp spec fn text_columns(s: Seq<char>) -> usize;

/// Columns that a character takes up: what `UnicodeWidthChar::width` returns.
pub uninterp spec fn char_columns(c: char) -> Option<usize>;

/// `UnicodeWidthStr::width`: the columns a string takes up, a function of its
/// characters alone.
#[verifier::external_body]
pub(crate) fn text_width(s: &str) -> (r: usize)
    ensures
        r == text_columns(s@),
{
    UnicodeWidthStr::width(s)
}

/// `UnicodeWidthChar::width`: the columns a character takes up, or `None` for
/// a control character.
#[verifier::external_body]
pub(crate) fn char_width(c: char) -> (r: Option<usize>)
    ensures
        r == char_columns(c),
{
    UnicodeWidthChar::width(c)
}

} // verus!
