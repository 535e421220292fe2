//! How many terminal columns text takes, by `unicode-width`.
use vstd::prelude::*;

use unicode_width::{UnicodeWidthChar, UnicodeWidthStr};

verus! {

/// The displayed width of the text `s`, as `UnicodeWidthStr::width` measures
/// it (which is not always the sum of its characters' widths).
pub uninterp spec fn str_width(s: Seq<char>) -> usize;

/// The displayed width of one character, as `UnicodeWidthChar::width`
/// measures it: `None` for a control character.
pub uninterp spec fn char_width(c: char) -> Option<usize>;

/// A character's width, a control character counting as none.
pub open spec fn columns(c: char) -> nat {
    match char_width(c) {
        Some(w) => w as nat,
        None => 0,
    }
}

/// Calls `UnicodeWidthStr::width(s)`.
///
/// Trusted: the result is the name [`str_width`] of the text.
#[verifier::external_body]
pub(crate) fn width_of_str(s: &str) -> (w: usize)
    ensures
        w == str_width(s@),
{
    UnicodeWidthStr::width(s)
}

/// Calls `UnicodeWidthChar::width(c)`.
///
/// Trusted: the result is the name [`char_width`] of the character.
#[verifier::external_body]
pub(crate) fn width_of_char(c: char) -> (w: Option<usize>)
    ensures
        w == char_width(c),
{
    UnicodeWidthChar::width(c)
}

} // verus!
