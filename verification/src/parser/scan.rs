//! The mathematical model of the tokenizer: how a byte sequence decomposes
//! into tokens and an unconsumed tail, and why that decomposition does not
//! depend on how the stream was chunked.

use vstd::prelude::*;

use crate::parser::sequence_token::TokenModel;
use crate::utf8::{lossy_decode, utf8_step, CharParse};

verus! {

/// An ASCII letter, which terminates a control sequence.
pub open spec fn is_ascii_letter(b: u8) -> bool {
    (0x41 <= b <= 0x5a) || (0x61 <= b <= 0x7a)
}

/// The offset of the letter that terminates a control-sequence body, if one
/// has arrived.
pub open spec fn csi_end(s: Seq<u8>) -> Option<int>
    decreases s.len(),
{
    if s.len() == 0 {
        None
    } else if is_ascii_letter(s[0]) {
        Some(0)
    } else {
        match csi_end(s.skip(1)) {
            None => None,
            Some(j) => Some(j + 1),
        }
    }
}

/// What `csi_end` finds: the first letter.
pub proof fn lemma_csi_end_char(s: Seq<u8>)
    ensures
        csi_end(s) matches Some(i) ==> 0 <= i < s.len() && is_ascii_letter(s[i]) && (forall|j: int|
            0 <= j < i ==> !is_ascii_letter(s[j])),
        csi_end(s) is None ==> forall|j: int| 0 <= j < s.len() ==> !is_ascii_letter(s[j]),
    decreases s.len(),
{
    if s.len() > 0 && !is_ascii_letter(s[0]) {
        lemma_csi_end_char(s.skip(1));
        assert(forall|j: int| 1 <= j < s.len() ==> s[j] == s.skip(1)[j - 1]);
    }
}

/// A first letter at `i` is what `csi_end` returns.
pub proof fn lemma_csi_end_at(s: Seq<u8>, i: int)
    requires
        0 <= i < s.len(),
        is_ascii_letter(s[i]),
        forall|j: int| 0 <= j < i ==> !is_ascii_letter(s[j]),
    ensures
        csi_end(s) == Some(i),
    decreases i,
{
    if i > 0 {
        assert(s.skip(1)[i - 1] == s[i]);
        assert(forall|j: int| 0 <= j < i - 1 ==> s.skip(1)[j] == s[j + 1]);
        lemma_csi_end_at(s.skip(1), i - 1);
    }
}

/// No letter at all means no terminator.
pub proof fn lemma_csi_end_none(s: Seq<u8>)
    requires
        forall|j: int| 0 <= j < s.len() ==> !is_ascii_letter(s[j]),
    ensures
        csi_end(s) is None,
    decreases s.len(),
{
    if s.len() > 0 {
        assert(forall|j: int| 0 <= j < s.len() - 1 ==> s.skip(1)[j] == s[j + 1]);
        lemma_csi_end_none(s.skip(1));
    }
}

/// A found terminator does not move when more bytes arrive.
pub proof fn lemma_csi_end_extend(s: Seq<u8>, t: Seq<u8>)
    requires
        csi_end(s) is Some,
    ensures
        csi_end(s + t) == csi_end(s),
{
    let i = csi_end(s)->0;
    lemma_csi_end_char(s);
    assert(forall|j: int| 0 <= j < s.len() ==> (s + t)[j] == s[j]);
    lemma_csi_end_at(s + t, i);
}

/// Whether an operating-system-command terminator (BEL, or ESC backslash)
/// stands at offset `j`.
pub open spec fn osc_term_at(s: Seq<u8>, j: int) -> bool {
    &&& 0 <= j < s.len()
    &&& (s[j] == 7 || (s[j] == 0x1b && j + 1 < s.len() && s[j + 1] == 0x5c))
}

/// The length of the terminator standing at offset `j`.
pub open spec fn osc_term_len(s: Seq<u8>, j: int) -> int {
    if s[j] == 7 {
        1
    } else {
        2
    }
}

/// The offset of the first terminator of an operating-system command and its
/// length, if one has arrived.
pub open spec fn osc_end(s: Seq<u8>) -> Option<(int, int)>
    decreases s.len(),
{
    if s.len() == 0 {
        None
    } else if s[0] == 7 {
        Some((0, 1))
    } else if s[0] == 0x1b && s.len() >= 2 && s[1] == 0x5c {
        Some((0, 2))
    } else {
        match osc_end(s.skip(1)) {
            None => None,
            Some((j, t)) => Some((j + 1, t)),
        }
    }
}

/// What `osc_end` finds: the first terminator.
pub proof fn lemma_osc_end_char(s: Seq<u8>)
    ensures
        osc_end(s) matches Some(p) ==> 0 <= p.0 < s.len() && osc_term_at(s, p.0) && p.1
            == osc_term_len(s, p.0) && (forall|j: int| 0 <= j < p.0 ==> !osc_term_at(s, j)),
        osc_end(s) is None ==> forall|j: int| 0 <= j < s.len() ==> !osc_term_at(s, j),
    decreases s.len(),
{
    if s.len() > 0 && !(s[0] == 7) && !(s[0] == 0x1b && s.len() >= 2 && s[1] == 0x5c) {
        lemma_osc_end_char(s.skip(1));
        assert(forall|j: int| 1 <= j < s.len() ==> s[j] == s.skip(1)[j - 1]);
        assert forall|j: int| 1 <= j < s.len() implies (osc_term_at(s, j) <==> osc_term_at(
            s.skip(1),
            j - 1,
        )) by {
            if j + 1 < s.len() {
                assert(s[j + 1] == s.skip(1)[j]);
            }
        }
        assert(!osc_term_at(s, 0));
    }
}

/// A first terminator at `i` is what `osc_end` returns.
pub proof fn lemma_osc_end_at(s: Seq<u8>, i: int)
    requires
        osc_term_at(s, i),
        forall|j: int| 0 <= j < i ==> !osc_term_at(s, j),
    ensures
        osc_end(s) == Some((i, osc_term_len(s, i))),
    decreases i,
{
    if i > 0 {
        assert(!osc_term_at(s, 0));
        assert(s.skip(1)[i - 1] == s[i]);
        if i + 1 < s.len() {
            assert(s.skip(1)[i] == s[i + 1]);
        }
        assert(osc_term_at(s.skip(1), i - 1));
        assert forall|j: int| 0 <= j < i - 1 implies !osc_term_at(s.skip(1), j) by {
            assert(s.skip(1)[j] == s[j + 1]);
            if j + 2 < s.len() {
                assert(s.skip(1)[j + 1] == s[j + 2]);
            }
            assert(!osc_term_at(s, j + 1));
        }
        lemma_osc_end_at(s.skip(1), i - 1);
    }
}

/// No terminator at all means none found.
pub proof fn lemma_osc_end_none(s: Seq<u8>)
    requires
        forall|j: int| 0 <= j < s.len() ==> !osc_term_at(s, j),
    ensures
        osc_end(s) is None,
    decreases s.len(),
{
    if s.len() > 0 {
        assert(!osc_term_at(s, 0));
        assert forall|j: int| 0 <= j < s.len() - 1 implies !osc_term_at(s.skip(1), j) by {
            assert(s.skip(1)[j] == s[j + 1]);
            if j + 2 < s.len() {
                assert(s.skip(1)[j + 1] == s[j + 2]);
            }
            assert(!osc_term_at(s, j + 1));
        }
        lemma_osc_end_none(s.skip(1));
    }
}

/// A found terminator does not move when more bytes arrive.
pub proof fn lemma_osc_end_extend(s: Seq<u8>, t: Seq<u8>)
    requires
        osc_end(s) is Some,
    ensures
        osc_end(s + t) == osc_end(s),
{
    let (i, tl) = osc_end(s)->0;
    lemma_osc_end_char(s);
    assert(forall|j: int| 0 <= j < s.len() ==> (s + t)[j] == s[j]);
    assert(osc_term_at(s + t, i));
    assert(osc_term_len(s + t, i) == tl);
    assert forall|j: int| 0 <= j < i implies !osc_term_at(s + t, j) by {
        assert(!osc_term_at(s, j));
        assert((s + t)[j] == s[j]);
        if j + 1 < s.len() {
            assert((s + t)[j + 1] == s[j + 1]);
        }
    }
    lemma_osc_end_at(s + t, i);
}

/// One step of the tokenizer: what the front of the unconsumed bytes yields.
pub enum StepModel {
    /// The front is an unfinished sequence; wait for more bytes.
    Incomplete,
    /// The front carries no token (an unhandled control character, an unknown
    /// escape introducer, or an undecodable byte); consume `used` bytes.
    Skip { used: int },
    /// The front yields a token over `used` bytes.
    Tok { token: TokenModel, used: int },
}

/// Classifies the front of the unconsumed bytes.
pub open spec fn scan_step(s: Seq<u8>) -> StepModel {
    if s.len() == 0 {
        StepModel::Incomplete
    } else {
        let b = s[0];
        if b == 0x0d || b == 0x0a || b == 0x09 || b == 0x08 {
            StepModel::Tok { token: TokenModel::ControlChar(b), used: 1 }
        } else if b == 0x1b {
            if s.len() < 2 {
                StepModel::Incomplete
            } else if s[1] == 0x5b {
                match csi_end(s.skip(2)) {
                    None => StepModel::Incomplete,
                    Some(i) => StepModel::Tok {
                        token: TokenModel::Csi(lossy_decode(s.subrange(2, 2 + i + 1))),
                        used: 2 + i + 1,
                    },
                }
            } else if s[1] == 0x5d {
                match osc_end(s.skip(2)) {
                    None => StepModel::Incomplete,
                    Some(p) => StepModel::Tok {
                        token: TokenModel::Osc(lossy_decode(s.subrange(2, 2 + p.0))),
                        used: 2 + p.0 + p.1,
                    },
                }
            } else if s[1] == 0x28 {
                if s.len() < 4 {
                    StepModel::Incomplete
                } else {
                    StepModel::Tok {
                        token: TokenModel::Dcs(lossy_decode(s.subrange(2, 4))),
                        used: 4,
                    }
                }
            } else {
                StepModel::Skip { used: 2 }
            }
        } else if b < 0x20 || b == 0x7f {
            StepModel::Skip { used: 1 }
        } else {
            match utf8_step(s) {
                CharParse::Incomplete => StepModel::Incomplete,
                CharParse::Invalid { prefix } => StepModel::Skip { used: 1 },
                CharParse::Parsed { code, len } => StepModel::Tok {
                    token: TokenModel::Character(code as char),
                    used: len as int,
                },
            }
        }
    }
}

/// A decided step consumes at least one byte and no more than are there.
pub proof fn lemma_scan_step_shape(s: Seq<u8>)
    ensures
        scan_step(s) matches StepModel::Skip { used } ==> 1 <= used <= s.len(),
        scan_step(s) matches StepModel::Tok { token, used } ==> 1 <= used <= s.len(),
{
    if s.len() > 0 {
        let b = s[0];
        if b == 0x1b && s.len() >= 2 && s[1] == 0x5b {
            lemma_csi_end_char(s.skip(2));
        } else if b == 0x1b && s.len() >= 2 && s[1] == 0x5d {
            lemma_osc_end_char(s.skip(2));
        } else if !(b == 0x0d || b == 0x0a || b == 0x09 || b == 0x08) && b != 0x1b && !(b < 0x20
            || b == 0x7f) {
            crate::utf8::lemma_utf8_step_shape(s);
        }
    }
}

/// A decided step never changes when more bytes arrive.
pub proof fn lemma_scan_step_extend(s: Seq<u8>, t: Seq<u8>)
    requires
        scan_step(s) != StepModel::Incomplete,
    ensures
        scan_step(s + t) == scan_step(s),
{
    let u = s + t;
    assert(s.len() > 0);
    assert(u[0] == s[0]);
    let b = s[0];
    if b == 0x0d || b == 0x0a || b == 0x09 || b == 0x08 {
    } else if b == 0x1b {
        assert(s.len() >= 2);
        assert(u[1] == s[1]);
        if s[1] == 0x5b {
            assert(s.skip(2) + t =~= u.skip(2));
            lemma_csi_end_extend(s.skip(2), t);
            lemma_csi_end_char(s.skip(2));
            let i = csi_end(s.skip(2))->0;
            assert(u.subrange(2, 2 + i + 1) =~= s.subrange(2, 2 + i + 1));
        } else if s[1] == 0x5d {
            assert(s.skip(2) + t =~= u.skip(2));
            lemma_osc_end_extend(s.skip(2), t);
            lemma_osc_end_char(s.skip(2));
            let p = osc_end(s.skip(2))->0;
            assert(u.subrange(2, 2 + p.0) =~= s.subrange(2, 2 + p.0));
        } else if s[1] == 0x28 {
            assert(s.len() >= 4);
            assert(u.subrange(2, 4) =~= s.subrange(2, 4));
        }
    } else if b < 0x20 || b == 0x7f {
    } else {
        crate::utf8::lemma_utf8_step_extend(s, t);
    }
}

/// What scanning a byte sequence yields: the completed tokens in order, and
/// the unconsumed tail kept for the next feed.
#[verifier::ext_equal]
pub struct ScanResult {
    pub tokens: Seq<TokenModel>,
    pub rest: Seq<u8>,
}

/// Scans a byte sequence from the front, taking one step at a time until the
/// front is incomplete or the bytes run out.
pub open spec fn scan(s: Seq<u8>) -> ScanResult
    decreases s.len(),
{
    match scan_step(s) {
        StepModel::Incomplete => ScanResult { tokens: Seq::empty(), rest: s },
        StepModel::Skip { used } => {
            if 1 <= used <= s.len() {
                scan(s.skip(used))
            } else {
                ScanResult { tokens: Seq::empty(), rest: s }
            }
        },
        StepModel::Tok { token, used } => {
            if 1 <= used <= s.len() {
                let r = scan(s.skip(used));
                ScanResult { tokens: seq![token] + r.tokens, rest: r.rest }
            } else {
                ScanResult { tokens: Seq::empty(), rest: s }
            }
        },
    }
}

/// Chunk-boundary independence: splitting a stream anywhere and scanning the
/// pieces in order, carrying the unconsumed tail over, yields exactly the
/// tokens and tail of scanning the whole stream at once.
pub proof fn lemma_scan_chunks(a: Seq<u8>, b: Seq<u8>)
    ensures
        scan(a + b).tokens =~= scan(a).tokens + scan(scan(a).rest + b).tokens,
        scan(a + b).rest =~= scan(scan(a).rest + b).rest,
    decreases a.len(),
{
    lemma_scan_step_shape(a);
    match scan_step(a) {
        StepModel::Incomplete => {
            assert(scan(a).tokens =~= Seq::empty());
            assert(scan(a).rest == a);
            assert(scan(a).rest + b =~= a + b);
            assert(scan(a + b).tokens =~= scan(a).tokens + scan(scan(a).rest + b).tokens);
        },
        StepModel::Skip { used } => {
            lemma_scan_step_extend(a, b);
            assert(a.skip(used) + b =~= (a + b).skip(used));
            lemma_scan_chunks(a.skip(used), b);
            assert(scan(a) == scan(a.skip(used)));
            assert(scan(a + b) == scan((a + b).skip(used)));
        },
        StepModel::Tok { token, used } => {
            lemma_scan_step_extend(a, b);
            assert(a.skip(used) + b =~= (a + b).skip(used));
            lemma_scan_chunks(a.skip(used), b);
            assert(scan(a).tokens =~= seq![token] + scan(a.skip(used)).tokens);
            assert(scan(a).rest == scan(a.skip(used)).rest);
            assert(scan(a + b).tokens =~= seq![token] + scan((a + b).skip(used)).tokens);
            assert(scan((a + b).skip(used)).tokens =~= scan(a.skip(used)).tokens + scan(
                scan(a.skip(used)).rest + b,
            ).tokens);
            assert(scan(a + b).tokens =~= scan(a).tokens + scan(scan(a).rest + b).tokens);
        },
    }
}

} // verus!
