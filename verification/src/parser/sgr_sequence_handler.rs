//! Graphic rendition (SGR) sequences: the semicolon-separated parameters of
//! an `m`-terminated control sequence, applied left to right to the current
//! rendition state.

use vstd::prelude::*;

use crate::color::{
    process_256_color_palette, rgb, spec_black, spec_blue, spec_cyan, spec_green, spec_magenta,
    spec_palette_color, spec_red, spec_rgb, spec_to_bright, spec_to_faint, spec_transparent,
    spec_white, spec_yellow, to_bright, to_faint, Color,
};
use crate::parser::handler_context::{CtxView, HandlerContext};
use crate::parser::params::{
    all_digits, chars_of, digits_val, parse_num, parse_range, split_semi, split_semi_ranges,
    strip_trailing, strip_trailing_range,
};
use crate::terminal_buffer::{default_sgr, spec_default_sgr, BufView, SgrState};

verus! {

/// The session with only the rendition state replaced.
pub open spec fn with_sgr(c: CtxView, st: SgrState) -> CtxView {
    CtxView { buf: BufView { sgr: st, ..c.buf }, ..c }
}

/// The numeric code of one rendition parameter: its decimal value, written
/// without a leading zero.
pub open spec fn sgr_tok_code(t: Seq<char>) -> Option<int> {
    if t.len() >= 1 && all_digits(t) && (t.len() == 1 || t[0] != '0') {
        Some(digits_val(t))
    } else {
        None
    }
}

/// One of the eight base colors, by code offset.
pub open spec fn basic_color(n: int) -> Color {
    if n == 0 {
        spec_black()
    } else if n == 1 {
        spec_red()
    } else if n == 2 {
        spec_green()
    } else if n == 3 {
        spec_yellow()
    } else if n == 4 {
        spec_blue()
    } else if n == 5 {
        spec_magenta()
    } else if n == 6 {
        spec_cyan()
    } else {
        spec_white()
    }
}

pub open spec fn set_color(st: SgrState, c: Color, is_fg: bool) -> SgrState {
    if is_fg {
        SgrState { fg: c, ..st }
    } else {
        SgrState { bg: c, ..st }
    }
}

/// The value of a component of an extended color, with 0 where it is missing
/// or unreadable.
pub open spec fn ext_component(toks: Seq<Seq<char>>, j: int) -> int {
    if 0 <= j < toks.len() {
        match parse_num(toks[j], 255) {
            Some(v) => v,
            None => 0,
        }
    } else {
        0
    }
}

/// An extended color parameter (38 foreground, 48 background): a mode token,
/// then a palette index (mode 5) or three direct components (mode 2).
pub open spec fn sgr_extended(st: SgrState, toks: Seq<Seq<char>>, i: int, is_fg: bool) -> SgrState
    decreases toks.len() - i, 0int,
{
    if i + 1 >= toks.len() {
        st
    } else {
        let mode = toks[i + 1];
        if mode.len() == 1 && mode[0] == '5' {
            if i + 2 >= toks.len() {
                st
            } else {
                let st2 = (match parse_num(toks[i + 2], 255) {
                    Some(v) => set_color(st, spec_palette_color(v as u8), is_fg),
                    None => st,
                });
                sgr_run(st2, toks, i + 3)
            }
        } else if mode.len() == 1 && mode[0] == '2' {
            let r = ext_component(toks, i + 2);
            let g = ext_component(toks, i + 3);
            let b = ext_component(toks, i + 4);
            let next = if i + 5 <= toks.len() {
                i + 5
            } else {
                toks.len() as int
            };
            sgr_run(set_color(st, spec_rgb(r as u8, g as u8, b as u8), is_fg), toks, next)
        } else {
            sgr_run(st, toks, i + 2)
        }
    }
}

/// The rendition state after the parameters from position `i` on.
pub open spec fn sgr_run(st: SgrState, toks: Seq<Seq<char>>, i: int) -> SgrState
    decreases toks.len() - i, 1int,
{
    if i < 0 || i >= toks.len() {
        st
    } else {
        let raw = toks[i];
        if raw.len() == 0 {
            sgr_run(st, toks, i + 1)
        } else {
            let t = strip_trailing(raw, 'm');
            let code = sgr_tok_code(t);
            if t.len() == 0 || code == Some(0int) {
                sgr_run(spec_default_sgr(), toks, i + 1)
            } else if code == Some(1int) {
                sgr_run(SgrState { bold: true, ..st }, toks, i + 1)
            } else if code == Some(2int) {
                sgr_run(SgrState { fg: spec_to_faint(st.fg), ..st }, toks, i + 1)
            } else if code == Some(3int) {
                sgr_run(SgrState { italic: true, ..st }, toks, i + 1)
            } else if code == Some(4int) {
                sgr_run(SgrState { underline: true, ..st }, toks, i + 1)
            } else if code == Some(5int) || code == Some(6int) {
                sgr_run(SgrState { blink: true, ..st }, toks, i + 1)
            } else if code == Some(7int) || code == Some(27int) {
                sgr_run(SgrState { fg: st.bg, bg: st.fg, ..st }, toks, i + 1)
            } else if code == Some(8int) {
                sgr_run(SgrState { hidden: true, ..st }, toks, i + 1)
            } else if code == Some(9int) {
                sgr_run(SgrState { strikethrough: true, ..st }, toks, i + 1)
            } else if code == Some(22int) {
                sgr_run(SgrState { bold: false, ..st }, toks, i + 1)
            } else if code == Some(23int) {
                sgr_run(SgrState { italic: false, ..st }, toks, i + 1)
            } else if code == Some(24int) {
                sgr_run(SgrState { underline: false, ..st }, toks, i + 1)
            } else if code == Some(25int) {
                sgr_run(SgrState { blink: false, ..st }, toks, i + 1)
            } else if code == Some(28int) {
                sgr_run(SgrState { hidden: false, ..st }, toks, i + 1)
            } else if code == Some(29int) {
                sgr_run(SgrState { strikethrough: false, ..st }, toks, i + 1)
            } else if code matches Some(v) && 30 <= v <= 37 {
                sgr_run(SgrState { fg: basic_color(code->0 - 30), ..st }, toks, i + 1)
            } else if code == Some(39int) {
                sgr_run(SgrState { fg: spec_white(), ..st }, toks, i + 1)
            } else if code matches Some(v) && 40 <= v <= 47 {
                sgr_run(SgrState { bg: basic_color(code->0 - 40), ..st }, toks, i + 1)
            } else if code == Some(49int) {
                sgr_run(SgrState { bg: spec_transparent(), ..st }, toks, i + 1)
            } else if code matches Some(v) && 90 <= v <= 97 {
                sgr_run(SgrState { fg: spec_to_bright(basic_color(code->0 - 90)), ..st }, toks, i + 1)
            } else if code matches Some(v) && 100 <= v <= 107 {
                sgr_run(
                    SgrState { bg: spec_to_bright(basic_color(code->0 - 100)), ..st },
                    toks,
                    i + 1,
                )
            } else if code == Some(38int) {
                sgr_extended(st, toks, i, true)
            } else if code == Some(48int) {
                sgr_extended(st, toks, i, false)
            } else {
                sgr_run(st, toks, i + 1)
            }
        }
    }
}

/// The rendition state after a whole parameter body: an empty body or a bare
/// `0` resets everything; anything else is processed token by token.
pub open spec fn sgr_apply(st: SgrState, s: Seq<char>) -> SgrState {
    if s.len() == 0 || (s.len() == 1 && s[0] == '0') {
        spec_default_sgr()
    } else {
        sgr_run(st, split_semi(s), 0)
    }
}

/// Resetting the rendition is total and idempotent: a bare `0` body and an
/// empty body yield the default rendition whatever the prior state, so a
/// second reset changes nothing.
pub proof fn lemma_sgr_reset_total(st: SgrState)
    ensures
        sgr_apply(st, seq!['0']) == spec_default_sgr(),
        sgr_apply(st, Seq::<char>::empty()) == spec_default_sgr(),
        sgr_apply(sgr_apply(st, seq!['0']), seq!['0']) == spec_default_sgr(),
{
}

/// The numeric code of a token, capped: codes past the highest recognized
/// parameter are of no interest and come back as `None`.
fn sgr_code(cs: &Vec<char>, start: usize, end: usize) -> (r: Option<u32>)
    requires
        start <= end,
        end <= cs@.len(),
    ensures
        ({
            let t = cs@.subrange(start as int, end as int);
            &&& (r matches Some(u) ==> sgr_tok_code(t) == Some(u as int))
            &&& (r is None ==> (sgr_tok_code(t) is None || sgr_tok_code(t)->0 > 200))
        }),
{
    let ghost t = cs@.subrange(start as int, end as int);
    if end == start {
        return None;
    }
    let c0 = cs[start];
    let c0u = c0 as u32;
    proof {
        assert(t[0] == cs@[start as int]);
    }
    if !(0x30 <= c0u && c0u <= 0x39) {
        proof {
            assert(!all_digits(t));
        }
        return None;
    }
    if end - start > 1 && c0 == '0' {
        return None;
    }
    match parse_range(cs, start, end, 200) {
        Some(v) => {
            proof {
                assert(parse_num(t, 200) == Some(v as int));
                // The leading character is a digit, so the number has no sign
                // and the parsed digits are the token itself.
                assert(crate::parser::params::num_body(t) == t);
            }
            Some(v as u32)
        },
        None => {
            proof {
                assert(crate::parser::params::num_body(t) == t);
                if all_digits(t) {
                    assert(sgr_tok_code(t) == Some(digits_val(t)));
                    assert(digits_val(t) > 200);
                }
            }
            None
        },
    }
}

/// The handler of graphic-rendition parameters.
pub struct SgrSequenceHandler;

impl SgrSequenceHandler {
    /// Returns every color and style of the current rendition to the default.
    fn reset_sgr(ctx: &mut HandlerContext)
        ensures
            final(ctx)@ == with_sgr(old(ctx)@, spec_default_sgr()),
    {
        write_sgr(ctx, default_sgr());
    }

    /// Applies a rendition parameter body to the session.  Only the current
    /// rendition state changes; every unrecognized parameter is skipped and
    /// the rest of the body still applies.
    pub fn handle(&self, ctx: &mut HandlerContext, sequence: &str)
        requires
            old(ctx)@.wf(),
        ensures
            final(ctx)@ == with_sgr(old(ctx)@, sgr_apply(old(ctx)@.buf.sgr, sequence@)),
            final(ctx)@.wf(),
    {
        let cs = chars_of(sequence);
        if cs.len() == 0 || (cs.len() == 1 && cs[0] == '0') {
            Self::reset_sgr(ctx);
            return ;
        }
        let ghost toks = split_semi(sequence@);
        let n = cs.len();
        let ranges = split_semi_ranges(&cs, 0, n);
        proof {
            assert(cs@.subrange(0, cs@.len() as int) =~= cs@);
        }
        let mut k: usize = 0;
        while k < ranges.len()
            invariant
                cs@ == sequence@,
                toks == split_semi(sequence@),
                ranges@.len() == toks.len(),
                forall|j: int|
                    0 <= j < ranges@.len() ==> (#[trigger] ranges@[j]).0 <= ranges@[j].1
                        <= cs@.len() && cs@.subrange(ranges@[j].0 as int, ranges@[j].1 as int)
                        == toks[j],
                ctx@ == with_sgr(old(ctx)@, ctx@.buf.sgr),
                ctx@.wf(),
                sgr_run(ctx@.buf.sgr, toks, k as int) == sgr_run(old(ctx)@.buf.sgr, toks, 0),
            decreases ranges@.len() - k,
        {
            let ghost cprev = ctx@;
            let next = sgr_step(ctx, &cs, &ranges, k, Ghost(toks));
            proof {
                assert(ctx@ =~= with_sgr(old(ctx)@, ctx@.buf.sgr)) by {
                    assert(ctx@.buf =~= with_sgr(old(ctx)@, ctx@.buf.sgr).buf);
                }
            }
            k = next;
        }
    }
}

/// Applies the parameter at position `k`, returning the position to continue
/// at.  The session changes only in its rendition state, exactly as the
/// remaining-parameters function says.
#[verifier::rlimit(100)]
fn sgr_step(
    ctx: &mut HandlerContext,
    cs: &Vec<char>,
    ranges: &Vec<(usize, usize)>,
    k: usize,
    Ghost(toks): Ghost<Seq<Seq<char>>>,
) -> (next: usize)
    requires
        old(ctx)@.wf(),
        k < ranges@.len(),
        toks.len() == ranges@.len(),
        forall|j: int|
            0 <= j < ranges@.len() ==> (#[trigger] ranges@[j]).0 <= ranges@[j].1 <= cs@.len()
                && cs@.subrange(ranges@[j].0 as int, ranges@[j].1 as int) == toks[j],
    ensures
        k < next,
        next <= ranges@.len(),
        final(ctx)@ == with_sgr(old(ctx)@, final(ctx)@.buf.sgr),
        sgr_run(old(ctx)@.buf.sgr, toks, k as int) == sgr_run(
            final(ctx)@.buf.sgr,
            toks,
            next as int,
        ),
        final(ctx)@.wf(),
{
    let n = ranges.len();
    let (lo, hi) = ranges[k];
    let ghost raw = toks[k as int];
    let ghost stp = ctx@.buf.sgr;
    if hi == lo {
        proof {
            assert(raw.len() == 0);
            assert(ctx@ =~= with_sgr(old(ctx)@, ctx@.buf.sgr)) by {
                assert(ctx@.buf =~= with_sgr(old(ctx)@, ctx@.buf.sgr).buf);
            }
        }
        return k + 1;
    }
    let tend = strip_trailing_range(cs, lo, hi, 'm');
    let ghost t = strip_trailing(raw, 'm');
    proof {
        assert(cs@.subrange(lo as int, tend as int) == t);
    }
    if tend == lo {
        SgrSequenceHandler::reset_sgr(ctx);
        proof {
            assert(t.len() == 0);
        }
        return k + 1;
    }
    match sgr_code(cs, lo, tend) {
        None => {
            proof {
                assert(ctx@ =~= with_sgr(old(ctx)@, ctx@.buf.sgr)) by {
                    assert(ctx@.buf =~= with_sgr(old(ctx)@, ctx@.buf.sgr).buf);
                }
                assert(sgr_run(stp, toks, k as int) == sgr_run(stp, toks, k + 1));
            }
            k + 1
        },
        Some(code) => {
            if code == 38 || code == 48 {
                let is_fg = code == 38;
                proof {
                    assert(sgr_run(stp, toks, k as int) == sgr_extended(stp, toks, k as int, is_fg));
                }
                sgr_step_extended(ctx, cs, ranges, k, is_fg, Ghost(toks))
            } else {
                let st0 = read_sgr(ctx);
                let st1 = sgr_simple_effect_exec(st0, code);
                write_sgr(ctx, st1);
                proof {
                    lemma_sgr_simple_step(stp, toks, k as int, code as int);
                }
                k + 1
            }
        },
    }
}

/// The current rendition state, read back from the buffer.
fn read_sgr(ctx: &HandlerContext) -> (st: SgrState)
    ensures
        st == ctx@.buf.sgr,
{
    SgrState {
        fg: ctx.buffer.current_fg_color,
        bg: ctx.buffer.current_bg_color,
        bold: ctx.buffer.current_bold,
        underline: ctx.buffer.current_underline,
        italic: ctx.buffer.current_italic,
        blink: ctx.buffer.current_blink,
        strikethrough: ctx.buffer.current_strikethrough,
        hidden: ctx.buffer.current_hidden,
    }
}

/// Writes a rendition state into the buffer; nothing else changes.
#[verifier::rlimit(100)]
fn write_sgr(ctx: &mut HandlerContext, st: SgrState)
    ensures
        final(ctx)@ == with_sgr(old(ctx)@, st),
{
    ctx.buffer.current_fg_color = st.fg;
    ctx.buffer.current_bg_color = st.bg;
    ctx.buffer.current_bold = st.bold;
    ctx.buffer.current_underline = st.underline;
    ctx.buffer.current_italic = st.italic;
    ctx.buffer.current_blink = st.blink;
    ctx.buffer.current_strikethrough = st.strikethrough;
    ctx.buffer.current_hidden = st.hidden;
    proof {
        assert(ctx@.buf.grid =~= with_sgr(old(ctx)@, st).buf.grid);
        assert(ctx@.buf =~= with_sgr(old(ctx)@, st).buf);
        assert(ctx@.scrollback =~= with_sgr(old(ctx)@, st).scrollback);
        assert(ctx@.titles =~= with_sgr(old(ctx)@, st).titles);
        assert(ctx@ =~= with_sgr(old(ctx)@, st));
    }
}

/// The new rendition state one plain code produces.
fn sgr_simple_effect_exec(st: SgrState, code: u32) -> (r: SgrState)
    ensures
        r == sgr_simple_effect(st, code as int),
{
    if code == 0 {
        default_sgr()
    } else if code == 1 {
        SgrState { bold: true, ..st }
    } else if code == 2 {
        SgrState { fg: to_faint(st.fg), ..st }
    } else if code == 3 {
        SgrState { italic: true, ..st }
    } else if code == 4 {
        SgrState { underline: true, ..st }
    } else if code == 5 || code == 6 {
        SgrState { blink: true, ..st }
    } else if code == 7 || code == 27 {
        SgrState { fg: st.bg, bg: st.fg, ..st }
    } else if code == 8 {
        SgrState { hidden: true, ..st }
    } else if code == 9 {
        SgrState { strikethrough: true, ..st }
    } else if code == 22 {
        SgrState { bold: false, ..st }
    } else if code == 23 {
        SgrState { italic: false, ..st }
    } else if code == 24 {
        SgrState { underline: false, ..st }
    } else if code == 25 {
        SgrState { blink: false, ..st }
    } else if code == 28 {
        SgrState { hidden: false, ..st }
    } else if code == 29 {
        SgrState { strikethrough: false, ..st }
    } else if 30 <= code && code <= 37 {
        SgrState { fg: basic_color_exec((code - 30) as u8), ..st }
    } else if code == 39 {
        SgrState { fg: crate::color::white(), ..st }
    } else if 40 <= code && code <= 47 {
        SgrState { bg: basic_color_exec((code - 40) as u8), ..st }
    } else if code == 49 {
        SgrState { bg: crate::color::transparent(), ..st }
    } else if 90 <= code && code <= 97 {
        SgrState { fg: to_bright(basic_color_exec((code - 90) as u8)), ..st }
    } else if 100 <= code && code <= 107 {
        SgrState { bg: to_bright(basic_color_exec((code - 100) as u8)), ..st }
    } else {
        st
    }
}

/// The effect of one plain rendition code on the state.
pub open spec fn sgr_simple_effect(st: SgrState, code: int) -> SgrState {
    if code == 0 {
        spec_default_sgr()
    } else if code == 1 {
        SgrState { bold: true, ..st }
    } else if code == 2 {
        SgrState { fg: spec_to_faint(st.fg), ..st }
    } else if code == 3 {
        SgrState { italic: true, ..st }
    } else if code == 4 {
        SgrState { underline: true, ..st }
    } else if code == 5 || code == 6 {
        SgrState { blink: true, ..st }
    } else if code == 7 || code == 27 {
        SgrState { fg: st.bg, bg: st.fg, ..st }
    } else if code == 8 {
        SgrState { hidden: true, ..st }
    } else if code == 9 {
        SgrState { strikethrough: true, ..st }
    } else if code == 22 {
        SgrState { bold: false, ..st }
    } else if code == 23 {
        SgrState { italic: false, ..st }
    } else if code == 24 {
        SgrState { underline: false, ..st }
    } else if code == 25 {
        SgrState { blink: false, ..st }
    } else if code == 28 {
        SgrState { hidden: false, ..st }
    } else if code == 29 {
        SgrState { strikethrough: false, ..st }
    } else if 30 <= code <= 37 {
        SgrState { fg: basic_color(code - 30), ..st }
    } else if code == 39 {
        SgrState { fg: spec_white(), ..st }
    } else if 40 <= code <= 47 {
        SgrState { bg: basic_color(code - 40), ..st }
    } else if code == 49 {
        SgrState { bg: spec_transparent(), ..st }
    } else if 90 <= code <= 97 {
        SgrState { fg: spec_to_bright(basic_color(code - 90)), ..st }
    } else if 100 <= code <= 107 {
        SgrState { bg: spec_to_bright(basic_color(code - 100)), ..st }
    } else {
        st
    }
}

/// How one recognized plain code relates the remaining-parameters run to its
/// continuation.
proof fn lemma_sgr_simple_step(st: SgrState, toks: Seq<Seq<char>>, k: int, code: int)
    requires
        0 <= k < toks.len(),
        toks[k].len() > 0,
        strip_trailing(toks[k], 'm').len() > 0,
        sgr_tok_code(strip_trailing(toks[k], 'm')) == Some(code),
        code != 38,
        code != 48,
    ensures
        sgr_run(st, toks, k) == sgr_run(sgr_simple_effect(st, code), toks, k + 1),
{
}

/// Applies the extended-color tail that follows a 38 or 48 parameter.
#[verifier::rlimit(100)]
fn sgr_step_extended(
    ctx: &mut HandlerContext,
    cs: &Vec<char>,
    ranges: &Vec<(usize, usize)>,
    k: usize,
    is_fg: bool,
    Ghost(toks): Ghost<Seq<Seq<char>>>,
) -> (next: usize)
    requires
        old(ctx)@.wf(),
        k < ranges@.len(),
        toks.len() == ranges@.len(),
        forall|j: int|
            0 <= j < ranges@.len() ==> (#[trigger] ranges@[j]).0 <= ranges@[j].1 <= cs@.len()
                && cs@.subrange(ranges@[j].0 as int, ranges@[j].1 as int) == toks[j],
    ensures
        k < next,
        next <= ranges@.len(),
        final(ctx)@ == with_sgr(old(ctx)@, final(ctx)@.buf.sgr),
        sgr_extended(old(ctx)@.buf.sgr, toks, k as int, is_fg) == sgr_run(
            final(ctx)@.buf.sgr,
            toks,
            next as int,
        ),
        final(ctx)@.wf(),
{
    let n = ranges.len();
    let ghost stp = ctx@.buf.sgr;
    if k + 1 >= ranges.len() {
        proof {
            assert(sgr_extended(stp, toks, k as int, is_fg) == stp);
            assert(ctx@ =~= with_sgr(old(ctx)@, ctx@.buf.sgr)) by {
                assert(ctx@.buf =~= with_sgr(old(ctx)@, ctx@.buf.sgr).buf);
            }
        }
        return k + 1;
    }
    let (mlo, mhi) = ranges[k + 1];
    if mhi - mlo == 1 && cs[mlo] == '5' {
        proof {
            assert(toks[k + 1][0] == cs@[mlo as int]);
        }
        if k + 2 >= ranges.len() {
            proof {
                assert(sgr_extended(stp, toks, k as int, is_fg) == stp);
                assert(ctx@ =~= with_sgr(old(ctx)@, ctx@.buf.sgr)) by {
                    assert(ctx@.buf =~= with_sgr(old(ctx)@, ctx@.buf.sgr).buf);
                }
            }
            k + 2
        } else {
            let (ilo, ihi) = ranges[k + 2];
            match parse_range(cs, ilo, ihi, 255) {
                Some(idx) => {
                    let col = process_256_color_palette(idx as u8);
                    let st0 = read_sgr(ctx);
                    let st1 = if is_fg {
                        SgrState { fg: col, ..st0 }
                    } else {
                        SgrState { bg: col, ..st0 }
                    };
                    write_sgr(ctx, st1);
                },
                None => {},
            }
            proof {
                assert(sgr_extended(stp, toks, k as int, is_fg) == sgr_run(
                    ctx@.buf.sgr,
                    toks,
                    k + 3,
                ));
            }
            k + 3
        }
    } else if mhi - mlo == 1 && cs[mlo] == '2' {
        proof {
            assert(toks[k + 1][0] == cs@[mlo as int]);
        }
        let r = ext_component_exec(cs, ranges, k, 2, Ghost(toks));
        let g = ext_component_exec(cs, ranges, k, 3, Ghost(toks));
        let b = ext_component_exec(cs, ranges, k, 4, Ghost(toks));
        let col = rgb(r, g, b);
        let st0 = read_sgr(ctx);
        let st1 = if is_fg {
            SgrState { fg: col, ..st0 }
        } else {
            SgrState { bg: col, ..st0 }
        };
        write_sgr(ctx, st1);
        let next = if ranges.len() - k > 5 {
            k + 5
        } else {
            ranges.len()
        };
        proof {
            assert(sgr_extended(stp, toks, k as int, is_fg) == sgr_run(
                ctx@.buf.sgr,
                toks,
                next as int,
            ));
        }
        next
    } else {
        proof {
            let mode = toks[k + 1];
            if mode.len() == 1 {
                assert(mode[0] == cs@[mlo as int]);
            }
            assert(ctx@ =~= with_sgr(old(ctx)@, ctx@.buf.sgr)) by {
                assert(ctx@.buf =~= with_sgr(old(ctx)@, ctx@.buf.sgr).buf);
            }
            assert(sgr_extended(stp, toks, k as int, is_fg) == sgr_run(stp, toks, k + 2));
        }
        k + 2
    }
}

/// One of the eight base colors, by code offset.
fn basic_color_exec(n: u8) -> (c: Color)
    ensures
        c == basic_color(n as int),
{
    match n {
        0 => crate::color::black(),
        1 => crate::color::red(),
        2 => crate::color::green(),
        3 => crate::color::yellow(),
        4 => crate::color::blue(),
        5 => crate::color::magenta(),
        6 => crate::color::cyan(),
        _ => crate::color::white(),
    }
}

/// The value of a component of an extended color, with 0 where it is missing
/// or unreadable.
fn ext_component_exec(
    cs: &Vec<char>,
    ranges: &Vec<(usize, usize)>,
    base: usize,
    offset: usize,
    Ghost(toks): Ghost<Seq<Seq<char>>>,
) -> (r: u8)
    requires
        toks.len() == ranges@.len(),
        forall|i: int|
            0 <= i < ranges@.len() ==> (#[trigger] ranges@[i]).0 <= ranges@[i].1 <= cs@.len()
                && cs@.subrange(ranges@[i].0 as int, ranges@[i].1 as int) == toks[i],
    ensures
        r as int == ext_component(toks, base + offset as int),
{
    if ranges.len() > base && ranges.len() - base > offset {
        let j = base + offset;
        let (lo, hi) = ranges[j];
        match parse_range(cs, lo, hi, 255) {
            Some(v) => v as u8,
            None => 0,
        }
    } else {
        0
    }
}

} // verus!
