//! Display widths of text, as the `unicode-width` crate measures them.

use vstd::prelude::*;

verus! {

/// The display width of a string in terminal columns, as
/// `unicode_width::UnicodeWidthStr::width` computes it.
pub uninterp spec fn str_width(s: Seq<char>) -> usize;

/// The display width of one character, as `unicode_width::UnicodeWidthChar::width`
/// computes it (`None` for a control character).
pub uninterp spec fn char_width(c: char) -> Option<usize>;

/// The width a character contributes when it is laid out one by one: control
/// characters count as zero columns.
pub open spec fn char_cols(c: char) -> nat {
    match char_width(c) {
        Some(w) => w as nat,
        None => 0,
    }
}

/// Calls `unicode_width::UnicodeWidthStr::width`. Its result is named by
/// `str_width`; the crate documents no character wider than three columns
/// and no sequence wider than the sum of its characters, so the result is at
/// most three columns per character, and an empty string takes none.
#[verifier::external_body]
pub(crate) fn text_width(s: &str) -> (w: usize)
    ensures
        w == str_width(s@),
        w <= 3 * s@.len(),
        s@.len() == 0 ==> w == 0,
{
    unicode_width::UnicodeWidthStr::width(s)
}

/// Calls `unicode_width::UnicodeWidthChar::width`. Its result is named by
/// `char_width`; the crate documents widths of zero to three columns, and
/// `None` for control characters.
#[verifier::external_body]
pub(crate) fn char_display_width(c: char) -> (w: Option<usize>)
    ensures
        w == char_width(c),
        w matches Some(n) ==> n <= 3,
{
    unicode_width::UnicodeWidthChar::width(c)
}

} // verus!
