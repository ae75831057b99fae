//! Display width of characters, as the terminal grid uses it.

use vstd::prelude::*;

verus! {

/// The displayed column width that the Unicode width tables assign to a
/// character, `None` for a control character.
pub uninterp spec fn unicode_display_width(c: char) -> Option<usize>;

/// Relies on unicode_width's `UnicodeWidthChar::width`: the character's
/// displayed width in columns, `None` for a control character (below 0x20, or
/// 0x7f up to but excluding 0xa0), and one column for printable ASCII.
#[verifier::external_body]
fn query_display_width(ch: char) -> (w: Option<usize>)
    ensures
        w == unicode_display_width(ch),
        0x20 <= (ch as u32) && (ch as u32) < 0x7f ==> w == Some(1usize),
        (ch as u32) < 0x20 || (0x7f <= (ch as u32) && (ch as u32) < 0xa0) ==> w is None,
{
    unicode_width::UnicodeWidthChar::width(ch)
}

/// The number of grid columns a character occupies when written: its Unicode
/// display width, with control characters counted as one column.
pub open spec fn char_cols(c: char) -> nat {
    match unicode_display_width(c) {
        Option::None => 1,
        Option::Some(w) => w as nat,
    }
}

/// The number of grid columns a character occupies when written: printable
/// ASCII and control characters take one column.
pub fn display_width(ch: char) -> (w: usize)
    ensures
        w as nat == char_cols(ch),
        0x20 <= (ch as u32) && (ch as u32) < 0x7f ==> w == 1,
        (ch as u32) < 0x20 || (0x7f <= (ch as u32) && (ch as u32) < 0xa0) ==> w == 1,
{
    match query_display_width(ch) {
        Some(w) => w,
        None => 1,
    }
}

} // verus!
