//! DEC private mode sequences: `?` followed by parameter numbers and a final
//! `h` (set) or `l` (reset), each parameter toggling one mode flag.

use vstd::prelude::*;

use crate::parser::handler_context::{CtxView, HandlerContext};
use crate::parser::params::{
    chars_of, parse_num, parse_range, spec_trim, split_semi, split_semi_ranges, trim_range,
};
use crate::terminal_buffer::{BufView, TerminalBuffer};

verus! {

/// The parse of a DEC private mode body: the parameter numbers and whether
/// the final letter sets (`h`) or resets (`l`) them.  Rejected unless the
/// body is `?`, then semicolon-separated numbers (blanks around each
/// allowed), then `h` or `l`.
pub open spec fn dec_parse(s: Seq<char>) -> Option<(Seq<int>, bool)> {
    if s.len() >= 2 && s[0] == '?' && (s.last() == 'h' || s.last() == 'l') {
        let pieces = split_semi(s.subrange(1, s.len() - 1));
        if pieces.len() > 0 && (forall|k: int|
            0 <= k < pieces.len() ==> parse_num(spec_trim(#[trigger] pieces[k]), 0xffff) is Some) {
            Some(
                (
                    pieces.map_values(|p: Seq<char>| parse_num(spec_trim(p), 0xffff)->0),
                    s.last() == 'h',
                ),
            )
        } else {
            None
        }
    } else {
        None
    }
}

/// The effect of one DEC private mode parameter.
pub open spec fn dec_apply_one(c: CtxView, param: int, is_set: bool) -> CtxView {
    if param == 1 {
        CtxView { decckm: is_set, ..c }
    } else if param == 5 {
        CtxView { reverse_video: is_set, ..c }
    } else if param == 6 {
        CtxView { decom: is_set, ..c }
    } else if param == 7 {
        CtxView { decawm: is_set, ..c }
    } else if param == 20 {
        CtxView { new_line: is_set, ..c }
    } else if param == 25 {
        CtxView { show_cursor: is_set, ..c }
    } else if param == 1049 {
        if is_set {
            // Entering the alternate screen: the live buffer is stored away
            // verbatim and replaced by a fresh buffer of the same size.
            CtxView { saved: Some(c.buf), buf: BufView::fresh(c.buf.width, c.buf.height), ..c }
        } else {
            // Leaving: the stored buffer returns verbatim; with nothing
            // stored, nothing changes.
            match c.saved {
                Some(b) => CtxView { buf: b, saved: None, ..c },
                None => CtxView { saved: None, ..c },
            }
        }
    } else if param == 2004 {
        CtxView { bracket_paste: is_set, ..c }
    } else {
        c
    }
}

/// The effect of a list of parameters, applied left to right.
pub open spec fn dec_apply(c: CtxView, params: Seq<int>, is_set: bool) -> CtxView
    decreases params.len(),
{
    if params.len() == 0 {
        c
    } else {
        dec_apply(dec_apply_one(c, params[0], is_set), params.skip(1), is_set)
    }
}

/// The effect of a whole DEC private mode body: nothing if it does not parse.
pub open spec fn vt100_apply(c: CtxView, s: Seq<char>) -> CtxView {
    match dec_parse(s) {
        None => c,
        Some(pv) => dec_apply(c, pv.0, pv.1),
    }
}

/// The alternate-screen round trip: entering the alternate screen and then
/// leaving it restores the exact prior session state, grid and cursor
/// included; leaving with nothing saved changes nothing.
pub proof fn lemma_alternate_screen_round_trip(c: CtxView)
    requires
        c.saved is None,
    ensures
        dec_apply_one(dec_apply_one(c, 1049, true), 1049, false) == c,
        dec_apply_one(c, 1049, false) == c,
{
    assert(dec_apply_one(dec_apply_one(c, 1049, true), 1049, false) =~= c);
    assert(dec_apply_one(c, 1049, false) =~= c);
}

/// The handler of DEC private mode sequences.
pub struct VT100SequenceHandler;

impl VT100SequenceHandler {
    /// Parses a `?`-prefixed, `h`- or `l`-terminated list of numbers.  A
    /// malformed parameter rejects the whole sequence.
    pub fn parse_dec_private_mode(&self, sequence: &str) -> (r: Option<(Vec<u16>, bool)>)
        ensures
            ({
                match dec_parse(sequence@) {
                    None => r is None,
                    Some(pv) => r matches Some(q) && q.0@.map_values(|x: u16| x as int) == pv.0
                        && q.1 == pv.1,
                }
            }),
    {
        let cs = chars_of(sequence);
        let n = cs.len();
        if n < 2 {
            return None;
        }
        if cs[0] != '?' {
            return None;
        }
        let last = cs[n - 1];
        if last != 'h' && last != 'l' {
            return None;
        }
        let is_set = last == 'h';
        let ghost mid = sequence@.subrange(1, sequence@.len() - 1);
        let ghost pieces = split_semi(mid);
        let ranges = split_semi_ranges(&cs, 1, n - 1);
        let mut params: Vec<u16> = Vec::new();
        let mut k: usize = 0;
        while k < ranges.len()
            invariant
                k <= ranges@.len(),
                cs@ == sequence@,
                mid == sequence@.subrange(1, sequence@.len() - 1),
                pieces == split_semi(mid),
                ranges@.len() == pieces.len(),
                forall|j: int|
                    0 <= j < ranges@.len() ==> 1 <= (#[trigger] ranges@[j]).0 <= ranges@[j].1
                        <= cs@.len() - 1 && cs@.subrange(ranges@[j].0 as int, ranges@[j].1 as int)
                        == pieces[j],
                params@.len() == k,
                forall|j: int|
                    0 <= j < k ==> parse_num(spec_trim(#[trigger] pieces[j]), 0xffff) == Some(
                        params@[j] as int,
                    ),
            decreases ranges@.len() - k,
        {
            let (lo, hi) = ranges[k];
            let (tl, th) = trim_range(&cs, lo, hi);
            proof {
                assert(cs@.subrange(tl as int, th as int) == spec_trim(pieces[k as int]));
            }
            match parse_range(&cs, tl, th, 0xffff) {
                Some(v) => {
                    params.push(v as u16);
                },
                None => {
                    return None;
                },
            }
            k += 1;
        }
        proof {
            assert(params@.map_values(|x: u16| x as int) =~= pieces.map_values(
                |p: Seq<char>| parse_num(spec_trim(p), 0xffff)->0,
            ));
        }
        if params.len() == 0 {
            return None;
        }
        Some((params, is_set))
    }

    /// Stores the live buffer away and starts a fresh one of the same size.
    fn enter_alternate_screen(ctx: &mut HandlerContext)
        requires
            old(ctx)@.wf(),
        ensures
            final(ctx)@ == dec_apply_one(old(ctx)@, 1049, true),
            final(ctx)@.wf(),
    {
        let w = ctx.buffer.width;
        let h = ctx.buffer.height;
        let mut new_buffer = TerminalBuffer::new(w, h);
        core::mem::swap(&mut ctx.buffer, &mut new_buffer);
        ctx.saved_screen_buffer = Some(new_buffer);
        ctx.buffer.cursor_x = 0;
        ctx.buffer.cursor_y = 0;
        proof {
            assert(ctx@ =~~= dec_apply_one(old(ctx)@, 1049, true));
        }
    }

    /// Restores the stored buffer; with nothing stored this is a no-op.
    fn leave_alternate_screen(ctx: &mut HandlerContext)
        requires
            old(ctx)@.wf(),
        ensures
            final(ctx)@ == dec_apply_one(old(ctx)@, 1049, false),
            final(ctx)@.wf(),
    {
        let mut saved: Option<TerminalBuffer> = None;
        core::mem::swap(&mut ctx.saved_screen_buffer, &mut saved);
        match saved {
            Some(saved_buffer) => {
                ctx.buffer = saved_buffer;
            },
            None => {},
        }
        ctx.saved_screen_buffer = None;
        proof {
            assert(ctx@ =~~= dec_apply_one(old(ctx)@, 1049, false));
        }
    }

    /// Applies a DEC private mode sequence to the session: each recognized
    /// parameter toggles its flag; an unknown parameter changes nothing; a
    /// malformed body leaves the whole session unchanged.
    #[verifier::rlimit(50)]
    pub fn handle(&self, ctx: &mut HandlerContext, sequence: &str)
        requires
            old(ctx)@.wf(),
        ensures
            final(ctx)@ == vt100_apply(old(ctx)@, sequence@),
            final(ctx)@.wf(),
    {
        match self.parse_dec_private_mode(sequence) {
            None => {},
            Some((params, is_set)) => {
                let ghost vals = params@.map_values(|x: u16| x as int);
                proof {
                    assert(vals.skip(0) =~= vals);
                }
                let mut k: usize = 0;
                while k < params.len()
                    invariant
                        k <= params@.len(),
                        vals == params@.map_values(|x: u16| x as int),
                        ctx@.wf(),
                        dec_apply(ctx@, vals.skip(k as int), is_set) == dec_apply(
                            old(ctx)@,
                            vals,
                            is_set,
                        ),
                    decreases params@.len() - k,
                {
                    let p = params[k];
                    let ghost cprev = ctx@;
                    proof {
                        assert(vals[k as int] == p as int);
                        assert(vals.skip(k as int).skip(1) =~= vals.skip(k + 1));
                    }
                    if p == 1 {
                        ctx.decckm_mode = is_set;
                    } else if p == 5 {
                        ctx.reverse_video_mode = is_set;
                    } else if p == 6 {
                        ctx.decom_mode = is_set;
                    } else if p == 7 {
                        ctx.decawm_mode = is_set;
                    } else if p == 20 {
                        ctx.new_line_mode = is_set;
                    } else if p == 25 {
                        ctx.show_cursor = is_set;
                    } else if p == 1049 {
                        if is_set {
                            Self::enter_alternate_screen(ctx);
                        } else {
                            Self::leave_alternate_screen(ctx);
                        }
                    } else if p == 2004 {
                        ctx.bracket_paste_mode = is_set;
                    }
                    proof {
                        assert(ctx@ =~~= dec_apply_one(cprev, p as int, is_set));
                        assert(dec_apply(cprev, vals.skip(k as int), is_set) == dec_apply(
                            ctx@,
                            vals.skip(k + 1),
                            is_set,
                        ));
                    }
                    k += 1;
                }
                proof {
                    assert(vals.skip(params@.len() as int) =~= Seq::<int>::empty());
                }
            },
        }
    }
}

} // verus!
