//! Display widths of characters, as the `unicode-width` crate assigns them.

use vstd::prelude::*;
use unicode_width::UnicodeWidthChar;

verus! {

/// What `unicode_width::UnicodeWidthChar::width` returns for `c`: the number
/// of terminal columns the character occupies, or `None` for a control
/// character. The value comes from the crate's lookup tables and is not
/// modelled further.
pub uninterp spec fn char_columns(c: char) -> Option<usize>;

/// The widest a single character can be.
pub const MAX_CHAR_WIDTH: usize = 3;

/// Columns that `c` occupies on screen; control characters occupy none.
///
/// The width table never reports more than [`MAX_CHAR_WIDTH`]; the cap is
/// written out here so that the bound is available to proofs as well.
pub open spec fn display_width(c: char) -> nat {
    match char_columns(c) {
        Some(w) => if w <= MAX_CHAR_WIDTH {
            w as nat
        } else {
            MAX_CHAR_WIDTH as nat
        },
        None => 0,
    }
}

/// Calls `unicode_width::UnicodeWidthChar::width` on `c`.
///
/// Trusted: the result is the crate's width for `c`, and it is at most
/// three columns. The crate takes the width from a table of two-bit
/// entries, and of the characters that the table marks as special none is
/// given more than three.
#[verifier::external_body]
pub(crate) fn char_width(c: char) -> (w: Option<usize>)
    ensures
        w == char_columns(c),
        w matches Some(n) ==> n <= MAX_CHAR_WIDTH,
{
    c.width()
}

/// Columns that `c` occupies, with control characters counted as zero.
pub fn width_of(c: char) -> (w: usize)
    ensures
        w as nat == display_width(c),
        w <= MAX_CHAR_WIDTH,
{
    match char_width(c) {
        Some(n) => n,
        None => 0,
    }
}

/// No character is wider than [`MAX_CHAR_WIDTH`] columns.
pub proof fn lemma_display_width_bound(c: char)
    ensures
        display_width(c) <= MAX_CHAR_WIDTH,
{
}

} // verus!
