//! The tokenizer: chunk-boundary independence, resumption, and recovery.

use explotty::parser::sequence_token::SequenceToken;
use explotty::parser::sequence_tokenizer::SequenceTokenizer;

fn token_strings(tokens: &[SequenceToken]) -> Vec<String> {
    tokens
        .iter()
        .map(|t| match t {
            SequenceToken::Csi(s) => format!("csi:{s}"),
            SequenceToken::Osc(s) => format!("osc:{s}"),
            SequenceToken::Dcs(s) => format!("dcs:{s}"),
            SequenceToken::VT100(s) => format!("vt:{s}"),
            SequenceToken::Sgr(s) => format!("sgr:{s}"),
            SequenceToken::Character(c) => format!("ch:{c}"),
            SequenceToken::ControlChar(b) => format!("ctl:{b}"),
        })
        .collect()
}

fn tokens_of_whole(data: &[u8]) -> Vec<String> {
    let mut t = SequenceTokenizer::new();
    token_strings(&t.feed(data))
}

fn tokens_of_split(data: &[u8], cut: usize) -> Vec<String> {
    let mut t = SequenceTokenizer::new();
    let mut out = t.feed(&data[..cut]);
    out.extend(t.feed(&data[cut..]));
    token_strings(&out)
}

#[test]
fn chunk_boundary_independence() {
    let stream: &[u8] = b"ab\x1b[31mRed\x1b[0m\r\n\xe4\xbd\xa0\x1b]0;title\x07tail\x1b(B!";
    let whole = tokens_of_whole(stream);
    for cut in 0..=stream.len() {
        assert_eq!(tokens_of_split(stream, cut), whole, "split at {cut}");
    }
}

#[test]
fn incomplete_escape_is_retained() {
    let mut t = SequenceTokenizer::new();
    assert!(t.feed(b"\x1b[3").is_empty());
    let tokens = t.feed(b"1m");
    assert_eq!(token_strings(&tokens), vec!["csi:31m".to_string()]);
}

#[test]
fn incomplete_utf8_is_retained() {
    let mut t = SequenceTokenizer::new();
    assert!(t.feed(&[0xe4, 0xbd]).is_empty());
    let tokens = t.feed(&[0xa0]);
    assert_eq!(token_strings(&tokens), vec!["ch:\u{4f60}".to_string()]);
}

#[test]
fn lone_continuation_byte_is_dropped() {
    let mut t = SequenceTokenizer::new();
    let tokens = t.feed(&[0x80, b'a']);
    assert_eq!(token_strings(&tokens), vec!["ch:a".to_string()]);
}

#[test]
fn unknown_escape_introducer_is_skipped() {
    let mut t = SequenceTokenizer::new();
    let tokens = t.feed(b"\x1bXq");
    assert_eq!(token_strings(&tokens), vec!["ch:q".to_string()]);
}

#[test]
fn control_characters_tokenize() {
    let mut t = SequenceTokenizer::new();
    let tokens = t.feed(b"\r\n\t\x08\x00\x7f");
    assert_eq!(
        token_strings(&tokens),
        vec![
            "ctl:13".to_string(),
            "ctl:10".to_string(),
            "ctl:9".to_string(),
            "ctl:8".to_string()
        ]
    );
}

#[test]
fn osc_both_terminators() {
    let mut t = SequenceTokenizer::new();
    let tokens = t.feed(b"\x1b]0;bel\x07\x1b]0;st\x1b\\");
    assert_eq!(
        token_strings(&tokens),
        vec!["osc:0;bel".to_string(), "osc:0;st".to_string()]
    );
}

#[test]
fn dcs_two_byte_selector() {
    // The selector is the two bytes following ESC `(`.
    let mut t = SequenceTokenizer::new();
    let tokens = t.feed(b"\x1b(B0x");
    assert_eq!(
        token_strings(&tokens),
        vec!["dcs:B0".to_string(), "ch:x".to_string()]
    );
    let mut t2 = SequenceTokenizer::new();
    assert!(t2.feed(b"\x1b(B").is_empty());
    assert_eq!(token_strings(&t2.feed(b"0")), vec!["dcs:B0".to_string()]);
}

#[test]
fn csi_body_includes_terminator() {
    let mut t = SequenceTokenizer::new();
    let tokens = t.feed(b"\x1b[1;5H");
    assert_eq!(token_strings(&tokens), vec!["csi:1;5H".to_string()]);
}
