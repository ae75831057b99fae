//! A single character cell of the terminal grid.

use vstd::prelude::*;

use crate::color::{spec_transparent, spec_white, transparent, white, Color};

verus! {

/// One cell of the screen grid: a character, its colors, its style flags, and
/// a marker for the trailing half of a double-width glyph.
#[derive(Clone, Copy, Debug, PartialEq, Eq, Structural)]
pub struct TerminalCell {
    pub character: char,
    pub fg_color: Color,
    pub bg_color: Color,
    pub bold: bool,
    pub underline: bool,
    pub italic: bool,
    pub blink: bool,
    pub strikethrough: bool,
    pub hidden: bool,
    pub wide_tail: bool,
}

/// The default cell: a space, white on transparent, no styles.
pub open spec fn spec_default_cell() -> TerminalCell {
    TerminalCell {
        character: ' ',
        fg_color: spec_white(),
        bg_color: spec_transparent(),
        bold: false,
        underline: false,
        italic: false,
        blink: false,
        strikethrough: false,
        hidden: false,
        wide_tail: false,
    }
}

impl Default for TerminalCell {
    fn default() -> (c: Self)
        ensures
            c == spec_default_cell(),
    {
        TerminalCell {
            character: ' ',
            fg_color: white(),
            bg_color: transparent(),
            bold: false,
            underline: false,
            italic: false,
            blink: false,
            strikethrough: false,
            hidden: false,
            wide_tail: false,
        }
    }
}

} // verus!
