//! Input encoding: the key table, paste wrapping, and typed text.

use explotty::input::{encode_key, encode_paste, encode_text, TerminalKey};
use explotty::terminal_widget::{InputEvent, TerminalWidget};

fn key_bytes(key: TerminalKey, ctrl: bool, decckm: bool) -> Vec<u8> {
    let mut out = Vec::new();
    encode_key(&mut out, key, ctrl, decckm);
    out
}

#[test]
fn key_table_normal_mode() {
    assert_eq!(key_bytes(TerminalKey::Enter, false, false), b"\r".to_vec());
    assert_eq!(key_bytes(TerminalKey::Backspace, false, false), b"\x08".to_vec());
    assert_eq!(key_bytes(TerminalKey::Tab, false, false), b"\t".to_vec());
    assert_eq!(key_bytes(TerminalKey::Escape, false, false), b"\x1b".to_vec());
    assert_eq!(key_bytes(TerminalKey::ArrowUp, false, false), b"\x1b[A".to_vec());
    assert_eq!(key_bytes(TerminalKey::ArrowDown, false, false), b"\x1b[B".to_vec());
    assert_eq!(key_bytes(TerminalKey::ArrowLeft, false, false), b"\x1b[D".to_vec());
    assert_eq!(key_bytes(TerminalKey::ArrowRight, false, false), b"\x1b[C".to_vec());
    assert_eq!(key_bytes(TerminalKey::KeyU, true, false), b"\x15".to_vec());
    assert_eq!(key_bytes(TerminalKey::KeyU, false, false), Vec::<u8>::new());
    assert_eq!(key_bytes(TerminalKey::Num5, false, false), Vec::<u8>::new());
    assert_eq!(key_bytes(TerminalKey::PageUp, false, false), Vec::<u8>::new());
}

#[test]
fn key_table_application_mode() {
    assert_eq!(key_bytes(TerminalKey::Enter, false, true), b"\x1bOM".to_vec());
    assert_eq!(key_bytes(TerminalKey::ArrowUp, false, true), b"\x1bOA".to_vec());
    assert_eq!(key_bytes(TerminalKey::ArrowRight, false, true), b"\x1bOC".to_vec());
    assert_eq!(key_bytes(TerminalKey::Num0, false, true), b"\x1bOp".to_vec());
    assert_eq!(key_bytes(TerminalKey::Num9, false, true), b"\x1bOy".to_vec());
    assert_eq!(key_bytes(TerminalKey::Plus, false, true), b"\x1bOl".to_vec());
    assert_eq!(key_bytes(TerminalKey::Minus, false, true), b"\x1bOm".to_vec());
    assert_eq!(key_bytes(TerminalKey::Slash, false, true), b"\x1bOo".to_vec());
    assert_eq!(key_bytes(TerminalKey::Period, false, true), b"\x1bOn".to_vec());
}

#[test]
fn paste_wraps_only_in_bracket_mode() {
    let mut plain = Vec::new();
    encode_paste(&mut plain, "hi", false);
    assert_eq!(plain, b"hi".to_vec());
    let mut wrapped = Vec::new();
    encode_paste(&mut wrapped, "hi", true);
    assert_eq!(wrapped, b"\x1b[200~hi\x1b[201~".to_vec());
}

#[test]
fn text_encodes_utf8_and_numpad_asterisk() {
    let mut out = Vec::new();
    encode_text(&mut out, "a\u{4f60}", false);
    assert_eq!(out, vec![0x61, 0xe4, 0xbd, 0xa0]);
    let mut star = Vec::new();
    encode_text(&mut star, "*", true);
    assert_eq!(star, b"\x1bOj".to_vec());
    let mut star_plain = Vec::new();
    encode_text(&mut star_plain, "*", false);
    assert_eq!(star_plain, b"*".to_vec());
}

#[test]
fn handle_input_collects_bytes_and_resets_scroll() {
    let mut w = TerminalWidget::new(3, 2);
    w.process_output(b"a\r\nb\r\nc\r\nd");
    w.handle_scroll(2);
    assert!(w.scroll_offset > 0);
    let events = vec![
        InputEvent::Key(TerminalKey::Enter, false),
        InputEvent::Text("ls".to_string()),
    ];
    let (bytes, copied) = w.handle_input(&events);
    assert_eq!(bytes, b"\rls".to_vec());
    assert!(copied.is_none());
    assert_eq!(w.scroll_offset, 0);
}

#[test]
fn handle_input_copy_returns_selection() {
    let mut w = TerminalWidget::new(5, 2);
    w.process_output(b"abcde\r\nfghij");
    w.selection_start = Some((1, 0));
    w.selection_end = Some((3, 1));
    let (bytes, copied) = w.handle_input(&vec![InputEvent::Copy]);
    assert!(bytes.is_empty());
    assert_eq!(copied, Some("bcd\nghi".to_string()));
    assert!(w.selection_start.is_none());
    assert!(w.selection_end.is_none());
}
