//! The tokens the byte stream decomposes into.

use vstd::prelude::*;

verus! {

/// One unit of terminal input: a control-sequence body, a printable
/// character, or a control character.
#[derive(Debug, Clone)]
pub enum SequenceToken {
    /// The body of a control sequence introduced by ESC `[`, terminator
    /// letter included.
    Csi(String),
    /// The body of an operating-system command introduced by ESC `]`,
    /// terminator excluded.
    Osc(String),
    /// A two-byte charset selector following ESC `(`.
    Dcs(String),
    /// A VT100 sequence routed directly to the DEC-private-mode handler.
    VT100(String),
    /// A graphic-rendition body routed directly to the SGR handler.
    Sgr(String),
    /// One decoded character.
    Character(char),
    /// One of the handled control characters (CR, LF, TAB, BS).
    ControlChar(u8),
}

/// The mathematical form of a token: bodies as character sequences.
pub enum TokenModel {
    Csi(Seq<char>),
    Osc(Seq<char>),
    Dcs(Seq<char>),
    VT100(Seq<char>),
    Sgr(Seq<char>),
    Character(char),
    ControlChar(u8),
}

impl View for SequenceToken {
    type V = TokenModel;

    open spec fn view(&self) -> TokenModel {
        match self {
            SequenceToken::Csi(s) => TokenModel::Csi(s@),
            SequenceToken::Osc(s) => TokenModel::Osc(s@),
            SequenceToken::Dcs(s) => TokenModel::Dcs(s@),
            SequenceToken::VT100(s) => TokenModel::VT100(s@),
            SequenceToken::Sgr(s) => TokenModel::Sgr(s@),
            SequenceToken::Character(c) => TokenModel::Character(*c),
            SequenceToken::ControlChar(b) => TokenModel::ControlChar(*b),
        }
    }
}

} // verus!
