//! Incremental UTF-8 decoding over byte sequences.
//!
//! The decoder classifies the front of a byte sequence as a complete scalar, a
//! truncated (resumable) encoding, or an invalid prefix, and never changes its
//! verdict when more bytes arrive: that is what lets the tokenizer give the
//! same answer however a stream is chunked.

use vstd::prelude::*;

verus! {

/// The character pushed for undecodable input, U+FFFD.
pub open spec fn spec_replacement_char() -> char {
    '\u{fffd}'
}

#[verifier::when_used_as_spec(spec_replacement_char)]
pub fn replacement_char() -> (c: char)
    ensures
        c == spec_replacement_char(),
{
    '\u{fffd}'
}

/// How the front of a byte sequence decodes: a complete scalar of `len`
/// bytes, a truncated encoding that later bytes may complete, or an invalid
/// sequence whose longest well-formed prefix has `prefix` bytes.
#[derive(Clone, Copy, Debug, PartialEq, Eq, Structural)]
pub enum CharParse {
    Incomplete,
    Invalid { prefix: usize },
    Parsed { code: u32, len: usize },
}

/// A continuation byte, of the form 10xxxxxx.
pub open spec fn cont_ok(b: u8) -> bool {
    0x80 <= b <= 0xbf
}

/// The encoded length a leading byte announces; 0 for a byte that can lead no
/// scalar (stray continuation bytes, overlong leads 0xc0/0xc1, and 0xf5 up).
pub open spec fn lead_len(b0: u8) -> int {
    if b0 < 0x80 {
        1
    } else if 0xc2 <= b0 <= 0xdf {
        2
    } else if 0xe0 <= b0 <= 0xef {
        3
    } else if 0xf0 <= b0 <= 0xf4 {
        4
    } else {
        0
    }
}

/// The admissible range of the second byte, given the leading byte: the plain
/// continuation range, narrowed where a wider range would make the encoding
/// overlong, a surrogate, or a value past the Unicode maximum.
pub open spec fn second_ok(b0: u8, b1: u8) -> bool {
    if b0 == 0xe0 {
        0xa0 <= b1 <= 0xbf
    } else if b0 == 0xed {
        0x80 <= b1 <= 0x9f
    } else if b0 == 0xf0 {
        0x90 <= b1 <= 0xbf
    } else if b0 == 0xf4 {
        0x80 <= b1 <= 0x8f
    } else {
        cont_ok(b1)
    }
}

/// Classifies the front of a byte sequence.
pub open spec fn utf8_step(s: Seq<u8>) -> CharParse {
    if s.len() == 0 {
        CharParse::Incomplete
    } else {
        let b0 = s[0];
        if b0 < 0x80 {
            CharParse::Parsed { code: b0 as u32, len: 1 }
        } else if lead_len(b0) == 0 {
            CharParse::Invalid { prefix: 1 }
        } else if s.len() < 2 {
            CharParse::Incomplete
        } else if !second_ok(b0, s[1]) {
            CharParse::Invalid { prefix: 1 }
        } else if lead_len(b0) == 2 {
            CharParse::Parsed { code: (((b0 - 0xc0) * 0x40 + (s[1] - 0x80)) as u32), len: 2 }
        } else if s.len() < 3 {
            CharParse::Incomplete
        } else if !cont_ok(s[2]) {
            CharParse::Invalid { prefix: 2 }
        } else if lead_len(b0) == 3 {
            CharParse::Parsed {
                code: (((b0 - 0xe0) * 0x1000 + (s[1] - 0x80) * 0x40 + (s[2] - 0x80)) as u32),
                len: 3,
            }
        } else if s.len() < 4 {
            CharParse::Incomplete
        } else if !cont_ok(s[3]) {
            CharParse::Invalid { prefix: 3 }
        } else {
            CharParse::Parsed {
                code: (((b0 - 0xf0) * 0x40000 + (s[1] - 0x80) * 0x1000 + (s[2] - 0x80) * 0x40 + (
                s[3] - 0x80)) as u32),
                len: 4,
            }
        }
    }
}

/// A code is a Unicode scalar value: in range and not a surrogate.
pub open spec fn is_scalar_value(v: u32) -> bool {
    v < 0xd800 || (0xe000 <= v && v <= 0x10ffff)
}

/// A decoded step yields a scalar value and consumes one to four bytes, all of
/// them present; an invalid step names a nonempty prefix that is present.
pub proof fn lemma_utf8_step_shape(s: Seq<u8>)
    ensures
        utf8_step(s) matches CharParse::Parsed { code, len } ==> is_scalar_value(code) && 1 <= len
            <= 4 && len <= s.len(),
        utf8_step(s) matches CharParse::Invalid { prefix } ==> 1 <= prefix <= 3 && prefix
            <= s.len(),
{
}

/// The verdict on a decided front never changes when more bytes follow.
pub proof fn lemma_utf8_step_extend(s: Seq<u8>, t: Seq<u8>)
    requires
        utf8_step(s) != CharParse::Incomplete,
    ensures
        utf8_step(s + t) == utf8_step(s),
{
    let u = s + t;
    assert(u.len() == s.len() + t.len());
    assert(s.len() > 0);
    assert(u[0] == s[0]);
    if s.len() >= 2 {
        assert(u[1] == s[1]);
    }
    if s.len() >= 3 {
        assert(u[2] == s[2]);
    }
    if s.len() >= 4 {
        assert(u[3] == s[3]);
    }
}

/// The characters a byte sequence decodes to, with one replacement character
/// for each invalid prefix and for a truncated encoding at the end.
pub open spec fn lossy_decode(s: Seq<u8>) -> Seq<char>
    decreases s.len(),
{
    if s.len() == 0 {
        Seq::empty()
    } else {
        match utf8_step(s) {
            CharParse::Incomplete => seq![spec_replacement_char()],
            CharParse::Invalid { prefix } => {
                if 1 <= prefix <= s.len() {
                    seq![spec_replacement_char()] + lossy_decode(s.skip(prefix as int))
                } else {
                    seq![spec_replacement_char()]
                }
            },
            CharParse::Parsed { code, len } => {
                if 1 <= len <= s.len() {
                    seq![code as char] + lossy_decode(s.skip(len as int))
                } else {
                    Seq::empty()
                }
            },
        }
    }
}

/// Relies on std's `char::from_u32`: for a value that is a Unicode scalar it
/// returns the character with exactly that value.
#[verifier::external_body]
pub fn char_from_u32(v: u32) -> (c: char)
    requires
        is_scalar_value(v),
    ensures
        c as u32 == v,
{
    match char::from_u32(v) {
        Some(c) => c,
        None => ' ',
    }
}

/// Relies on std's `String::push`: it appends exactly the one character.
#[verifier::external_body]
pub fn push_char(s: &mut String, c: char)
    ensures
        final(s)@ == old(s)@.push(c),
{
    s.push(c);
}

/// Classifies the bytes of `buf` from `start` up to `end`.
pub fn parse_first_char(buf: &Vec<u8>, start: usize, end: usize) -> (r: CharParse)
    requires
        start < end,
        end <= buf@.len(),
    ensures
        r == utf8_step(buf@.subrange(start as int, end as int)),
{
    let ghost s = buf@.subrange(start as int, end as int);
    let b0 = buf[start];
    proof {
        assert(s[0] == buf@[start as int]);
    }
    if b0 < 0x80 {
        CharParse::Parsed { code: b0 as u32, len: 1 }
    } else if !(0xc2 <= b0 && b0 <= 0xf4) {
        CharParse::Invalid { prefix: 1 }
    } else if end - start < 2 {
        CharParse::Incomplete
    } else {
        let b1 = buf[start + 1];
        proof {
            assert(s[1] == buf@[start as int + 1]);
        }
        let second_fine = if b0 == 0xe0 {
            0xa0 <= b1 && b1 <= 0xbf
        } else if b0 == 0xed {
            0x80 <= b1 && b1 <= 0x9f
        } else if b0 == 0xf0 {
            0x90 <= b1 && b1 <= 0xbf
        } else if b0 == 0xf4 {
            0x80 <= b1 && b1 <= 0x8f
        } else {
            0x80 <= b1 && b1 <= 0xbf
        };
        if !second_fine {
            CharParse::Invalid { prefix: 1 }
        } else if b0 <= 0xdf {
            CharParse::Parsed {
                code: (b0 as u32 - 0xc0) * 0x40 + (b1 as u32 - 0x80),
                len: 2,
            }
        } else if end - start < 3 {
            CharParse::Incomplete
        } else {
            let b2 = buf[start + 2];
            proof {
                assert(s[2] == buf@[start as int + 2]);
            }
            if !(0x80 <= b2 && b2 <= 0xbf) {
                CharParse::Invalid { prefix: 2 }
            } else if b0 <= 0xef {
                CharParse::Parsed {
                    code: (b0 as u32 - 0xe0) * 0x1000 + (b1 as u32 - 0x80) * 0x40 + (b2 as u32
                        - 0x80),
                    len: 3,
                }
            } else if end - start < 4 {
                CharParse::Incomplete
            } else {
                let b3 = buf[start + 3];
                proof {
                    assert(s[3] == buf@[start as int + 3]);
                }
                if !(0x80 <= b3 && b3 <= 0xbf) {
                    CharParse::Invalid { prefix: 3 }
                } else {
                    CharParse::Parsed {
                        code: (b0 as u32 - 0xf0) * 0x40000 + (b1 as u32 - 0x80) * 0x1000 + (b2
                            as u32 - 0x80) * 0x40 + (b3 as u32 - 0x80),
                        len: 4,
                    }
                }
            }
        }
    }
}

/// Decodes the bytes of `buf` from `start` up to `end` into a string, putting
/// one replacement character for each undecodable prefix.
pub fn lossy_string(buf: &Vec<u8>, start: usize, end: usize) -> (r: String)
    requires
        start <= end,
        end <= buf@.len(),
    ensures
        r@ == lossy_decode(buf@.subrange(start as int, end as int)),
{
    let mut out = String::new();
    let mut i: usize = start;
    proof {
        assert(out@ + lossy_decode(buf@.subrange(start as int, end as int)) =~= lossy_decode(
            buf@.subrange(start as int, end as int),
        ));
    }
    while i < end
        invariant
            start <= i <= end,
            end <= buf@.len(),
            out@ + lossy_decode(buf@.subrange(i as int, end as int)) == lossy_decode(
                buf@.subrange(start as int, end as int),
            ),
        decreases end - i,
    {
        let ghost s = buf@.subrange(i as int, end as int);
        let step = parse_first_char(buf, i, end);
        proof {
            lemma_utf8_step_shape(s);
        }
        let ghost prev = out@;
        match step {
            CharParse::Incomplete => {
                push_char(&mut out, replacement_char());
                proof {
                    assert(lossy_decode(s) =~= seq![spec_replacement_char()]);
                    assert(lossy_decode(buf@.subrange(end as int, end as int)) =~= Seq::<
                        char,
                    >::empty());
                    assert(out@ + lossy_decode(buf@.subrange(end as int, end as int)) =~= prev
                        + lossy_decode(s));
                }
                i = end;
            },
            CharParse::Invalid { prefix } => {
                push_char(&mut out, replacement_char());
                proof {
                    assert(s.skip(prefix as int) =~= buf@.subrange(i + prefix as int, end as int));
                    assert(out@ + lossy_decode(s.skip(prefix as int)) =~= prev + lossy_decode(s));
                }
                i = i + prefix;
            },
            CharParse::Parsed { code, len } => {
                let c = char_from_u32(code);
                push_char(&mut out, c);
                proof {
                    vstd::utf8::char_u32_cast(c, code);
                    assert(s.skip(len as int) =~= buf@.subrange(i + len as int, end as int));
                    assert(out@ + lossy_decode(s.skip(len as int)) =~= prev + lossy_decode(s));
                }
                i = i + len;
            },
        }
    }
    proof {
        assert(lossy_decode(buf@.subrange(end as int, end as int)) =~= Seq::<char>::empty());
        assert(out@ =~= lossy_decode(buf@.subrange(start as int, end as int)));
    }
    out
}

/// The UTF-8 encoding of one character, by scalar value range.
pub open spec fn utf8_bytes(c: char) -> Seq<u8> {
    let v = c as u32;
    if v < 0x80 {
        seq![v as u8]
    } else if v < 0x800 {
        seq![(0xc0 + v / 0x40) as u8, (0x80 + v % 0x40) as u8]
    } else if v < 0x10000 {
        seq![
            (0xe0 + v / 0x1000) as u8,
            (0x80 + (v / 0x40) % 0x40) as u8,
            (0x80 + v % 0x40) as u8,
        ]
    } else {
        seq![
            (0xf0 + v / 0x40000) as u8,
            (0x80 + (v / 0x1000) % 0x40) as u8,
            (0x80 + (v / 0x40) % 0x40) as u8,
            (0x80 + v % 0x40) as u8,
        ]
    }
}

/// The UTF-8 encoding of a character sequence.
pub open spec fn encode_seq(s: Seq<char>) -> Seq<u8>
    decreases s.len(),
{
    if s.len() == 0 {
        Seq::empty()
    } else {
        utf8_bytes(s[0]) + encode_seq(s.skip(1))
    }
}

/// ASCII text encodes to its own byte values.
pub proof fn lemma_encode_seq_ascii(s: Seq<char>)
    requires
        forall|i: int| 0 <= i < s.len() ==> (#[trigger] s[i] as u32) < 0x80,
    ensures
        encode_seq(s) =~= Seq::new(s.len(), |i: int| ((s[i] as u32) as u8)),
    decreases s.len(),
{
    if s.len() > 0 {
        assert((s[0] as u32) < 0x80);
        assert(utf8_bytes(s[0]) =~= seq![(s[0] as u32) as u8]);
        assert(forall|i: int| 0 <= i < s.len() - 1 ==> s.skip(1)[i] == s[i + 1]);
        lemma_encode_seq_ascii(s.skip(1));
        assert(encode_seq(s) =~= seq![(s[0] as u32) as u8] + Seq::new(
            s.skip(1).len(),
            |i: int| ((s.skip(1)[i] as u32) as u8),
        ));
        assert(encode_seq(s) =~= Seq::new(s.len(), |i: int| ((s[i] as u32) as u8)));
    }
}

} // verus!
