//! A verified terminal-emulator protocol engine.
//!
//! The crate decodes an arbitrarily chunked byte stream coming from a
//! pseudo-terminal, interprets ANSI/VT100/xterm control sequences, and keeps a
//! virtual screen (a grid of styled cells, a cursor, scrollback history and
//! mode flags) in sync with it.  It also encodes keyboard and paste input back
//! into the byte sequences a shell expects.

pub mod color;
pub mod explorer_widget;
pub mod input;
pub mod parser;
pub mod terminal_buffer;
pub mod terminal_cell;
pub mod terminal_widget;
pub mod utf8;
pub mod width;

