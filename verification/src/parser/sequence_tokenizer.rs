//! The incremental byte tokenizer: bytes go in, in chunks cut anywhere, and
//! complete tokens come out; an unfinished trailing sequence waits in the
//! buffer for the next feed.

use vstd::prelude::*;

use crate::parser::scan::{
    csi_end, is_ascii_letter, lemma_csi_end_at, lemma_csi_end_char, lemma_csi_end_none,
    lemma_osc_end_at, lemma_osc_end_char, lemma_osc_end_none, lemma_scan_step_shape, osc_end,
    osc_term_at, osc_term_len, scan, scan_step, StepModel,
};
use crate::parser::sequence_token::{SequenceToken, TokenModel};
use crate::utf8::{
    char_from_u32, lemma_utf8_step_shape, lossy_decode, lossy_string, parse_first_char, CharParse,
};

verus! {

/// The views of a sequence of tokens.
pub open spec fn token_views(tokens: Seq<SequenceToken>) -> Seq<TokenModel> {
    tokens.map_values(|t: SequenceToken| t@)
}

/// The resumable tokenizer; its state is the bytes not yet consumed.
pub struct SequenceTokenizer {
    buffer: Vec<u8>,
}

impl View for SequenceTokenizer {
    type V = Seq<u8>;

    closed spec fn view(&self) -> Seq<u8> {
        self.buffer@
    }
}

/// What an escape introducer parsed into.
enum EscapeParse {
    /// The sequence has not fully arrived yet.
    Incomplete,
    /// An introducer this engine does not know; both bytes are dropped.
    Unknown,
    /// A complete token and the number of bytes it covers.
    Found(SequenceToken, usize),
}

impl SequenceTokenizer {
    pub fn new() -> (t: Self)
        ensures
            t@ == Seq::<u8>::empty(),
    {
        let t = SequenceTokenizer { buffer: Vec::new() };
        proof {
            assert(t@ =~= Seq::<u8>::empty());
        }
        t
    }

    /// Finds the letter that terminates a control-sequence body starting at
    /// `start`, returning the decoded body (terminator included) and the
    /// number of bytes consumed.
    fn parse_csi(&self, start: usize) -> (r: Option<(String, usize)>)
        requires
            start <= self.buffer@.len(),
        ensures
            ({
                let s = self.buffer@.skip(start as int);
                match csi_end(s) {
                    None => r is None,
                    Some(i) => r matches Some(p) && p.0@ == lossy_decode(s.subrange(0, i + 1))
                        && p.1 as int == i + 1,
                }
            }),
    {
        let ghost s = self.buffer@.skip(start as int);
        let mut i: usize = start;
        while i < self.buffer.len()
            invariant
                start <= i <= self.buffer@.len(),
                s == self.buffer@.skip(start as int),
                forall|j: int| start <= j < i ==> !is_ascii_letter(#[trigger] self.buffer@[j]),
            decreases self.buffer@.len() - i,
        {
            let byte = self.buffer[i];
            if (0x41 <= byte && byte <= 0x5a) || (0x61 <= byte && byte <= 0x7a) {
                let body = lossy_string(&self.buffer, start, i + 1);
                proof {
                    assert(s[i - start] == self.buffer@[i as int]);
                    assert forall|j: int| 0 <= j < i - start implies !is_ascii_letter(
                        #[trigger] s[j],
                    ) by {
                        assert(s[j] == self.buffer@[start + j]);
                    }
                    lemma_csi_end_at(s, i - start);
                    assert(self.buffer@.subrange(start as int, i + 1) =~= s.subrange(
                        0,
                        i - start + 1,
                    ));
                }
                return Some((body, i + 1 - start));
            }
            i += 1;
        }
        proof {
            assert forall|j: int| 0 <= j < s.len() implies !is_ascii_letter(#[trigger] s[j]) by {
                assert(s[j] == self.buffer@[start + j]);
            }
            lemma_csi_end_none(s);
        }
        None
    }

    /// Finds the BEL or ESC-backslash terminator of an operating-system
    /// command starting at `start`, returning the decoded body (terminator
    /// excluded) and the number of bytes consumed including the terminator.
    fn parse_osc(&self, start: usize) -> (r: Option<(String, usize)>)
        requires
            start <= self.buffer@.len(),
        ensures
            ({
                let s = self.buffer@.skip(start as int);
                match osc_end(s) {
                    None => r is None,
                    Some(p) => r matches Some(q) && q.0@ == lossy_decode(s.subrange(0, p.0))
                        && q.1 as int == p.0 + p.1,
                }
            }),
    {
        let ghost s = self.buffer@.skip(start as int);
        let mut i: usize = start;
        while i < self.buffer.len()
            invariant
                start <= i <= self.buffer@.len(),
                s == self.buffer@.skip(start as int),
                forall|j: int| 0 <= j < i - start ==> !osc_term_at(s, j),
            decreases self.buffer@.len() - i,
        {
            let byte = self.buffer[i];
            proof {
                assert(s[i - start] == self.buffer@[i as int]);
            }
            if byte == 7 {
                let body = lossy_string(&self.buffer, start, i);
                proof {
                    assert(osc_term_at(s, i - start));
                    lemma_osc_end_at(s, i - start);
                    assert(self.buffer@.subrange(start as int, i as int) =~= s.subrange(
                        0,
                        i - start,
                    ));
                }
                return Some((body, i - start + 1));
            }
            if byte == 0x1b && i + 1 < self.buffer.len() {
                let nxt = self.buffer[i + 1];
                proof {
                    assert(s[i + 1 - start] == self.buffer@[i + 1]);
                }
                if nxt == 0x5c {
                    let body = lossy_string(&self.buffer, start, i);
                    proof {
                        assert(osc_term_at(s, i - start));
                        assert(osc_term_len(s, i - start) == 2);
                        lemma_osc_end_at(s, i - start);
                        assert(self.buffer@.subrange(start as int, i as int) =~= s.subrange(
                            0,
                            i - start,
                        ));
                    }
                    return Some((body, i - start + 2));
                }
            }
            proof {
                assert(!osc_term_at(s, i - start));
            }
            i += 1;
        }
        proof {
            assert forall|j: int| 0 <= j < s.len() implies !osc_term_at(s, j) by {}
            lemma_osc_end_none(s);
        }
        None
    }

    /// Reads the fixed two-byte charset selector following ESC `(`.
    fn parse_dcs(&self, start: usize) -> (r: Option<(String, usize)>)
        requires
            start <= self.buffer@.len(),
        ensures
            ({
                let s = self.buffer@.skip(start as int);
                if s.len() >= 2 {
                    r matches Some(p) && p.0@ == lossy_decode(s.subrange(0, 2)) && p.1 == 2usize
                } else {
                    r is None
                }
            }),
    {
        if self.buffer.len() - start >= 2 {
            let body = lossy_string(&self.buffer, start, start + 2);
            proof {
                assert(self.buffer@.subrange(start as int, start + 2) =~= self.buffer@.skip(
                    start as int,
                ).subrange(0, 2));
            }
            Some((body, 2))
        } else {
            None
        }
    }

    /// Parses the escape sequence that starts at `start` (which holds ESC):
    /// complete sequence, unfinished, or unknown introducer.
    fn parse_escape_sequence(&self, start: usize) -> (r: EscapeParse)
        requires
            start < self.buffer@.len(),
            self.buffer@[start as int] == 0x1b,
        ensures
            ({
                let s = self.buffer@.skip(start as int);
                match scan_step(s) {
                    StepModel::Incomplete => r is Incomplete,
                    StepModel::Skip { used } => r is Unknown && used == 2,
                    StepModel::Tok { token, used } => r matches EscapeParse::Found(tok, u) && tok@
                        == token && u as int == used,
                }
            }),
    {
        let ghost s = self.buffer@.skip(start as int);
        proof {
            assert(s[0] == self.buffer@[start as int]);
        }
        if self.buffer.len() - start < 2 {
            return EscapeParse::Incomplete;
        }
        let intro = self.buffer[start + 1];
        proof {
            assert(s[1] == self.buffer@[start + 1]);
            assert(s.skip(2) =~= self.buffer@.skip(start + 2));
        }
        if intro == 0x5b {
            match self.parse_csi(start + 2) {
                None => EscapeParse::Incomplete,
                Some((body, consumed)) => {
                    proof {
                        lemma_csi_end_char(s.skip(2));
                        let i = csi_end(s.skip(2))->0;
                        assert(s.skip(2).subrange(0, i + 1) =~= s.subrange(2, 2 + i + 1));
                    }
                    EscapeParse::Found(SequenceToken::Csi(body), consumed + 2)
                },
            }
        } else if intro == 0x5d {
            match self.parse_osc(start + 2) {
                None => EscapeParse::Incomplete,
                Some((body, consumed)) => {
                    proof {
                        lemma_osc_end_char(s.skip(2));
                        let p = osc_end(s.skip(2))->0;
                        assert(s.skip(2).subrange(0, p.0) =~= s.subrange(2, 2 + p.0));
                    }
                    EscapeParse::Found(SequenceToken::Osc(body), consumed + 2)
                },
            }
        } else if intro == 0x28 {
            match self.parse_dcs(start + 2) {
                None => EscapeParse::Incomplete,
                Some((body, consumed)) => {
                    proof {
                        assert(s.skip(2).subrange(0, 2) =~= s.subrange(2, 4));
                    }
                    EscapeParse::Found(SequenceToken::Dcs(body), consumed + 2)
                },
            }
        } else {
            EscapeParse::Unknown
        }
    }

    /// Adds incoming bytes to the buffer and extracts every complete token;
    /// an unfinished trailing sequence stays buffered for the next call.
    pub fn feed(&mut self, data: &[u8]) -> (tokens: Vec<SequenceToken>)
        ensures
            token_views(tokens@) == scan(old(self)@ + data@).tokens,
            final(self)@ == scan(old(self)@ + data@).rest,
    {
        let mut incoming = vstd::slice::slice_to_vec(data);
        self.buffer.append(&mut incoming);
        let ghost full = self.buffer@;
        let mut tokens: Vec<SequenceToken> = Vec::new();
        let mut cursor: usize = 0;
        let mut stalled = false;
        proof {
            assert(token_views(tokens@) =~= Seq::<TokenModel>::empty());
            assert(full.skip(0) =~= full);
            assert(token_views(tokens@) + scan(full.skip(0)).tokens =~= scan(full).tokens);
        }
        while !stalled && cursor < self.buffer.len()
            invariant
                cursor <= self.buffer@.len(),
                self.buffer@ == full,
                token_views(tokens@) + scan(full.skip(cursor as int)).tokens == scan(full).tokens,
                scan(full.skip(cursor as int)).rest == scan(full).rest,
                stalled ==> scan_step(full.skip(cursor as int)) == StepModel::Incomplete,
            decreases self.buffer@.len() - cursor, (if stalled { 0int } else { 1int }),
        {
            let ghost srem = full.skip(cursor as int);
            let ghost prev = tokens@;
            proof {
                lemma_scan_step_shape(srem);
                assert(srem[0] == full[cursor as int]);
            }
            let b = self.buffer[cursor];
            if b == 0x0d || b == 0x0a || b == 0x09 || b == 0x08 {
                tokens.push(SequenceToken::ControlChar(b));
                proof {
                    assert(scan_step(srem) == StepModel::Tok {
                        token: TokenModel::ControlChar(b),
                        used: 1int,
                    });
                    assert(srem.skip(1) =~= full.skip(cursor + 1));
                    assert(token_views(tokens@) =~= token_views(prev) + seq![
                        TokenModel::ControlChar(b),
                    ]);
                    assert(token_views(tokens@) + scan(full.skip(cursor + 1)).tokens =~= scan(
                        full,
                    ).tokens);
                }
                cursor += 1;
            } else if b == 0x1b {
                match self.parse_escape_sequence(cursor) {
                    EscapeParse::Incomplete => {
                        stalled = true;
                    },
                    EscapeParse::Unknown => {
                        proof {
                            assert(srem.skip(2) =~= full.skip(cursor + 2));
                        }
                        cursor += 2;
                    },
                    EscapeParse::Found(token, consumed) => {
                        let ghost tm = token@;
                        tokens.push(token);
                        proof {
                            assert(scan_step(srem) == StepModel::Tok {
                                token: tm,
                                used: consumed as int,
                            });
                            assert(srem.skip(consumed as int) =~= full.skip(
                                cursor + consumed as int,
                            ));
                            assert(token_views(tokens@) =~= token_views(prev) + seq![tm]);
                            assert(token_views(tokens@) + scan(full.skip(
                                cursor + consumed as int,
                            )).tokens =~= scan(full).tokens);
                        }
                        cursor += consumed;
                    },
                }
            } else if b < 0x20 || b == 0x7f {
                proof {
                    assert(srem.skip(1) =~= full.skip(cursor + 1));
                }
                cursor += 1;
            } else {
                let end = self.buffer.len();
                match parse_first_char(&self.buffer, cursor, end) {
                    CharParse::Incomplete => {
                        proof {
                            assert(self.buffer@.subrange(cursor as int, end as int) =~= srem);
                        }
                        stalled = true;
                    },
                    CharParse::Invalid { prefix: _ } => {
                        proof {
                            assert(self.buffer@.subrange(cursor as int, end as int) =~= srem);
                            assert(srem.skip(1) =~= full.skip(cursor + 1));
                        }
                        cursor += 1;
                    },
                    CharParse::Parsed { code, len } => {
                        proof {
                            assert(self.buffer@.subrange(cursor as int, end as int) =~= srem);
                            lemma_utf8_step_shape(srem);
                        }
                        let c = char_from_u32(code);
                        tokens.push(SequenceToken::Character(c));
                        proof {
                            vstd::utf8::char_u32_cast(c, code);
                            assert(scan_step(srem) == StepModel::Tok {
                                token: TokenModel::Character(c),
                                used: len as int,
                            });
                            assert(srem.skip(len as int) =~= full.skip(cursor + len as int));
                            assert(token_views(tokens@) =~= token_views(prev) + seq![
                                TokenModel::Character(c),
                            ]);
                            assert(token_views(tokens@) + scan(full.skip(
                                cursor + len as int,
                            )).tokens =~= scan(full).tokens);
                        }
                        cursor += len;
                    },
                }
            }
        }
        proof {
            if !stalled {
                assert(cursor == full.len());
                assert(full.skip(cursor as int) =~= Seq::<u8>::empty());
            }
            assert(scan(full.skip(cursor as int)).tokens =~= Seq::<TokenModel>::empty());
            assert(scan(full.skip(cursor as int)).rest =~= full.skip(cursor as int));
            assert(token_views(tokens@) =~= scan(full).tokens);
        }
        let tail = self.buffer.split_off(cursor);
        self.buffer = tail;
        proof {
            assert(self.buffer@ =~= full.skip(cursor as int));
        }
        tokens
    }
}

} // verus!
