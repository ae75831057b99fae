//! Encoding of user input into the byte sequences a shell expects.

use vstd::prelude::*;

use crate::utf8::utf8_bytes;

verus! {

/// The keys the encoder distinguishes; anything else encodes to nothing.
#[derive(Clone, Copy, Debug, PartialEq, Eq, Structural)]
pub enum TerminalKey {
    ArrowUp,
    ArrowDown,
    ArrowLeft,
    ArrowRight,
    Num0,
    Num1,
    Num2,
    Num3,
    Num4,
    Num5,
    Num6,
    Num7,
    Num8,
    Num9,
    Plus,
    Minus,
    Slash,
    Period,
    Enter,
    Backspace,
    Tab,
    Escape,
    KeyU,
    PageUp,
    PageDown,
    Home,
    End,
    Other,
}

/// The bytes a key sends: arrows switch between normal and application
/// (DECCKM) encodings; the numpad keys send their application codes only in
/// DECCKM mode; paging and history keys send nothing (they only scroll).
pub open spec fn spec_encode_key(key: TerminalKey, ctrl: bool, decckm: bool) -> Seq<u8> {
    match key {
        TerminalKey::PageUp => Seq::empty(),
        TerminalKey::PageDown => Seq::empty(),
        TerminalKey::Home => Seq::empty(),
        TerminalKey::End => Seq::empty(),
        TerminalKey::ArrowUp => if decckm {
            seq![0x1bu8, 0x4fu8, 0x41u8]
        } else {
            seq![0x1bu8, 0x5bu8, 0x41u8]
        },
        TerminalKey::ArrowDown => if decckm {
            seq![0x1bu8, 0x4fu8, 0x42u8]
        } else {
            seq![0x1bu8, 0x5bu8, 0x42u8]
        },
        TerminalKey::ArrowLeft => if decckm {
            seq![0x1bu8, 0x4fu8, 0x44u8]
        } else {
            seq![0x1bu8, 0x5bu8, 0x44u8]
        },
        TerminalKey::ArrowRight => if decckm {
            seq![0x1bu8, 0x4fu8, 0x43u8]
        } else {
            seq![0x1bu8, 0x5bu8, 0x43u8]
        },
        TerminalKey::Num0 => if decckm {
            seq![0x1bu8, 0x4fu8, 0x70u8]
        } else {
            Seq::empty()
        },
        TerminalKey::Num1 => if decckm {
            seq![0x1bu8, 0x4fu8, 0x71u8]
        } else {
            Seq::empty()
        },
        TerminalKey::Num2 => if decckm {
            seq![0x1bu8, 0x4fu8, 0x72u8]
        } else {
            Seq::empty()
        },
        TerminalKey::Num3 => if decckm {
            seq![0x1bu8, 0x4fu8, 0x73u8]
        } else {
            Seq::empty()
        },
        TerminalKey::Num4 => if decckm {
            seq![0x1bu8, 0x4fu8, 0x74u8]
        } else {
            Seq::empty()
        },
        TerminalKey::Num5 => if decckm {
            seq![0x1bu8, 0x4fu8, 0x75u8]
        } else {
            Seq::empty()
        },
        TerminalKey::Num6 => if decckm {
            seq![0x1bu8, 0x4fu8, 0x76u8]
        } else {
            Seq::empty()
        },
        TerminalKey::Num7 => if decckm {
            seq![0x1bu8, 0x4fu8, 0x77u8]
        } else {
            Seq::empty()
        },
        TerminalKey::Num8 => if decckm {
            seq![0x1bu8, 0x4fu8, 0x78u8]
        } else {
            Seq::empty()
        },
        TerminalKey::Num9 => if decckm {
            seq![0x1bu8, 0x4fu8, 0x79u8]
        } else {
            Seq::empty()
        },
        TerminalKey::Plus => if decckm {
            seq![0x1bu8, 0x4fu8, 0x6cu8]
        } else {
            Seq::empty()
        },
        TerminalKey::Minus => if decckm {
            seq![0x1bu8, 0x4fu8, 0x6du8]
        } else {
            Seq::empty()
        },
        TerminalKey::Slash => if decckm {
            seq![0x1bu8, 0x4fu8, 0x6fu8]
        } else {
            Seq::empty()
        },
        TerminalKey::Period => if decckm {
            seq![0x1bu8, 0x4fu8, 0x6eu8]
        } else {
            Seq::empty()
        },
        TerminalKey::Enter => if decckm {
            seq![0x1bu8, 0x4fu8, 0x4du8]
        } else {
            seq![0x0du8]
        },
        TerminalKey::Backspace => seq![0x08u8],
        TerminalKey::Tab => seq![0x09u8],
        TerminalKey::Escape => seq![0x1bu8],
        TerminalKey::KeyU => if ctrl {
            seq![0x15u8]
        } else {
            Seq::empty()
        },
        TerminalKey::Other => Seq::empty(),
    }
}

/// Appends the bytes a key sends to `out`.
pub fn encode_key(out: &mut Vec<u8>, key: TerminalKey, ctrl: bool, decckm: bool)
    ensures
        final(out)@ == old(out)@ + spec_encode_key(key, ctrl, decckm),
{
    let ghost target = old(out)@ + spec_encode_key(key, ctrl, decckm);
    match key {
        TerminalKey::PageUp => {},
        TerminalKey::PageDown => {},
        TerminalKey::Home => {},
        TerminalKey::End => {},
        TerminalKey::ArrowUp => {
            if decckm {
                push3(out, 0x1b, 0x4f, 0x41);
            } else {
                push3(out, 0x1b, 0x5b, 0x41);
            }
        },
        TerminalKey::ArrowDown => {
            if decckm {
                push3(out, 0x1b, 0x4f, 0x42);
            } else {
                push3(out, 0x1b, 0x5b, 0x42);
            }
        },
        TerminalKey::ArrowLeft => {
            if decckm {
                push3(out, 0x1b, 0x4f, 0x44);
            } else {
                push3(out, 0x1b, 0x5b, 0x44);
            }
        },
        TerminalKey::ArrowRight => {
            if decckm {
                push3(out, 0x1b, 0x4f, 0x43);
            } else {
                push3(out, 0x1b, 0x5b, 0x43);
            }
        },
        TerminalKey::Num0 => {
            if decckm {
                push3(out, 0x1b, 0x4f, 0x70);
            }
        },
        TerminalKey::Num1 => {
            if decckm {
                push3(out, 0x1b, 0x4f, 0x71);
            }
        },
        TerminalKey::Num2 => {
            if decckm {
                push3(out, 0x1b, 0x4f, 0x72);
            }
        },
        TerminalKey::Num3 => {
            if decckm {
                push3(out, 0x1b, 0x4f, 0x73);
            }
        },
        TerminalKey::Num4 => {
            if decckm {
                push3(out, 0x1b, 0x4f, 0x74);
            }
        },
        TerminalKey::Num5 => {
            if decckm {
                push3(out, 0x1b, 0x4f, 0x75);
            }
        },
        TerminalKey::Num6 => {
            if decckm {
                push3(out, 0x1b, 0x4f, 0x76);
            }
        },
        TerminalKey::Num7 => {
            if decckm {
                push3(out, 0x1b, 0x4f, 0x77);
            }
        },
        TerminalKey::Num8 => {
            if decckm {
                push3(out, 0x1b, 0x4f, 0x78);
            }
        },
        TerminalKey::Num9 => {
            if decckm {
                push3(out, 0x1b, 0x4f, 0x79);
            }
        },
        TerminalKey::Plus => {
            if decckm {
                push3(out, 0x1b, 0x4f, 0x6c);
            }
        },
        TerminalKey::Minus => {
            if decckm {
                push3(out, 0x1b, 0x4f, 0x6d);
            }
        },
        TerminalKey::Slash => {
            if decckm {
                push3(out, 0x1b, 0x4f, 0x6f);
            }
        },
        TerminalKey::Period => {
            if decckm {
                push3(out, 0x1b, 0x4f, 0x6e);
            }
        },
        TerminalKey::Enter => {
            if decckm {
                push3(out, 0x1b, 0x4f, 0x4d);
            } else {
                out.push(0x0d);
            }
        },
        TerminalKey::Backspace => {
            out.push(0x08);
        },
        TerminalKey::Tab => {
            out.push(0x09);
        },
        TerminalKey::Escape => {
            out.push(0x1b);
        },
        TerminalKey::KeyU => {
            if ctrl {
                out.push(0x15);
            }
        },
        TerminalKey::Other => {},
    }
    proof {
        assert(out@ =~= target);
    }
}

fn push3(out: &mut Vec<u8>, a: u8, b: u8, c: u8)
    ensures
        final(out)@ == old(out)@ + seq![a, b, c],
{
    out.push(a);
    out.push(b);
    out.push(c);
    proof {
        assert(out@ =~= old(out)@ + seq![a, b, c]);
    }
}

/// Appends the UTF-8 encoding of one character.
pub fn push_utf8(out: &mut Vec<u8>, c: char)
    ensures
        final(out)@ == old(out)@ + utf8_bytes(c),
{
    let v = c as u32;
    if v < 0x80 {
        out.push(v as u8);
    } else if v < 0x800 {
        out.push((0xc0 + v / 0x40) as u8);
        out.push((0x80 + v % 0x40) as u8);
    } else if v < 0x10000 {
        out.push((0xe0 + v / 0x1000) as u8);
        out.push((0x80 + (v / 0x40) % 0x40) as u8);
        out.push((0x80 + v % 0x40) as u8);
    } else {
        out.push((0xf0 + v / 0x40000) as u8);
        out.push((0x80 + (v / 0x1000) % 0x40) as u8);
        out.push((0x80 + (v / 0x40) % 0x40) as u8);
        out.push((0x80 + v % 0x40) as u8);
    }
    proof {
        vstd::utf8::char_is_scalar(c);
        assert(out@ =~= old(out)@ + utf8_bytes(c));
    }
}

/// The bytes typed text sends: each character as UTF-8, except that in
/// DECCKM mode an asterisk sends its numpad application code.
pub open spec fn spec_encode_text(s: Seq<char>, decckm: bool) -> Seq<u8>
    decreases s.len(),
{
    if s.len() == 0 {
        Seq::empty()
    } else {
        let head = (if s[0] == '*' && decckm {
            seq![0x1bu8, 0x4fu8, 0x6au8]
        } else {
            utf8_bytes(s[0])
        });
        head + spec_encode_text(s.skip(1), decckm)
    }
}

/// Appends the bytes typed text sends.
pub fn encode_text(out: &mut Vec<u8>, text: &str, decckm: bool)
    ensures
        final(out)@ == old(out)@ + spec_encode_text(text@, decckm),
{
    let cs = crate::parser::params::chars_of(text);
    let mut i: usize = 0;
    proof {
        assert(cs@.skip(0) =~= cs@);
    }
    while i < cs.len()
        invariant
            i <= cs@.len(),
            cs@ == text@,
            out@ + spec_encode_text(cs@.skip(i as int), decckm) == old(out)@ + spec_encode_text(
                cs@,
                decckm,
            ),
        decreases cs@.len() - i,
    {
        let ghost prev = out@;
        let c = cs[i];
        if c == '*' && decckm {
            push3(out, 0x1b, 0x4f, 0x6a);
        } else {
            push_utf8(out, c);
        }
        proof {
            assert(cs@.skip(i as int).skip(1) =~= cs@.skip(i + 1));
            assert(out@ + spec_encode_text(cs@.skip(i + 1), decckm) =~= prev + spec_encode_text(
                cs@.skip(i as int),
                decckm,
            ));
        }
        i += 1;
    }
    proof {
        assert(spec_encode_text(cs@.skip(cs@.len() as int), decckm) =~= Seq::<u8>::empty());
        assert(out@ =~= old(out)@ + spec_encode_text(text@, decckm));
    }
}

/// The bytes a paste sends: the text as UTF-8, wrapped in the bracketed
/// paste markers exactly when bracketed paste mode is on.
pub open spec fn spec_encode_paste(s: Seq<char>, bracket: bool) -> Seq<u8> {
    if bracket {
        crate::utf8::encode_seq(seq!['\u{1b}', '[', '2', '0', '0', '~']) + crate::utf8::encode_seq(
            s,
        ) + crate::utf8::encode_seq(seq!['\u{1b}', '[', '2', '0', '1', '~'])
    } else {
        crate::utf8::encode_seq(s)
    }
}

/// Appends the bytes a paste sends.
pub fn encode_paste(out: &mut Vec<u8>, text: &str, bracket: bool)
    ensures
        final(out)@ == old(out)@ + spec_encode_paste(text@, bracket),
{
    if bracket {
        push3(out, 0x1b, 0x5b, 0x32);
        push3(out, 0x30, 0x30, 0x7e);
        proof {
            assert(out@ =~= old(out)@ + crate::utf8::encode_seq(
                seq!['\u{1b}', '[', '2', '0', '0', '~'],
            )) by {
                crate::utf8::lemma_encode_seq_ascii(seq!['\u{1b}', '[', '2', '0', '0', '~']);
            }
        }
        push_str_utf8(out, text);
        push3(out, 0x1b, 0x5b, 0x32);
        push3(out, 0x30, 0x31, 0x7e);
        proof {
            assert(out@ =~= old(out)@ + spec_encode_paste(text@, bracket)) by {
                crate::utf8::lemma_encode_seq_ascii(seq!['\u{1b}', '[', '2', '0', '0', '~']);
                crate::utf8::lemma_encode_seq_ascii(seq!['\u{1b}', '[', '2', '0', '1', '~']);
            }
        }
    } else {
        push_str_utf8(out, text);
    }
}

/// Appends the UTF-8 bytes of a whole string.
fn push_str_utf8(out: &mut Vec<u8>, text: &str)
    ensures
        final(out)@ == old(out)@ + crate::utf8::encode_seq(text@),
{
    let cs = crate::parser::params::chars_of(text);
    let mut i: usize = 0;
    proof {
        assert(cs@.skip(0) =~= cs@);
    }
    while i < cs.len()
        invariant
            i <= cs@.len(),
            cs@ == text@,
            out@ + crate::utf8::encode_seq(cs@.skip(i as int)) == old(out)@
                + crate::utf8::encode_seq(cs@),
        decreases cs@.len() - i,
    {
        let ghost prev = out@;
        let c = cs[i];
        push_utf8(out, c);
        proof {
            assert(cs@.skip(i as int).skip(1) =~= cs@.skip(i + 1));
            assert(out@ + crate::utf8::encode_seq(cs@.skip(i + 1)) =~= prev
                + crate::utf8::encode_seq(cs@.skip(i as int)));
        }
        i += 1;
    }
    proof {
        assert(crate::utf8::encode_seq(cs@.skip(cs@.len() as int)) =~= Seq::<u8>::empty());
        assert(out@ =~= old(out)@ + crate::utf8::encode_seq(text@));
    }
}

} // verus!
