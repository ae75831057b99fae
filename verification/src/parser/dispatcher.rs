//! Routes each token to the handler of its family, against the session
//! state.  Dispatch is total: nothing a token can hold aborts the stream.

use vstd::prelude::*;

use crate::parser::csi_sequence_handler::{csi_apply, with_buf, CsiSequenceHandler};
use crate::parser::dcs_sequence_handler::DcsSequenceHandler;
use crate::parser::handler_context::{CtxView, HandlerContext};
use crate::parser::osc_sequence_handler::{osc_apply, OscSequenceHandler};
use crate::parser::sequence_token::{SequenceToken, TokenModel};
use crate::parser::sgr_sequence_handler::{sgr_apply, with_sgr, SgrSequenceHandler};
use crate::parser::vt100_sequence_handler::{vt100_apply, VT100SequenceHandler};

verus! {

/// The buffer after `n` spaces written at the cursor.
pub open spec fn put_spaces(b: crate::terminal_buffer::BufView, n: int) -> crate::terminal_buffer::BufView
    decreases n,
{
    if n <= 0 {
        b
    } else {
        put_spaces(b.put_char(' '), n - 1)
    }
}

/// The effect of one token on the session: a character is written at the
/// cursor; a carriage return, line feed, tab or backspace moves or edits; a
/// control-sequence body goes to its family's handler.  A tab advances to
/// the next 4-column stop by writing spaces.  A line feed on the bottom row
/// of the scroll region first evicts the top row of the grid into the
/// scrollback.
pub open spec fn dispatch_apply(c: CtxView, t: TokenModel) -> CtxView {
    match t {
        TokenModel::Csi(s) => csi_apply(c, s),
        TokenModel::Osc(s) => osc_apply(c, s),
        TokenModel::Dcs(s) => c,
        TokenModel::VT100(s) => vt100_apply(c, s),
        TokenModel::Sgr(s) => with_sgr(c, sgr_apply(c.buf.sgr, s)),
        TokenModel::Character(ch) => with_buf(c, c.buf.put_char(ch)),
        TokenModel::ControlChar(b) => {
            if b == 0x0d {
                with_buf(c, c.buf.carriage_return())
            } else if b == 0x0a {
                let c2 = (if c.buf.cursor_y >= c.buf.region_bottom {
                    c.push_scrollback(c.buf.grid[0])
                } else {
                    c
                });
                with_buf(c2, c2.buf.new_line(c2.new_line))
            } else if b == 0x09 {
                with_buf(c, put_spaces(c.buf, 4 - (c.buf.cursor_x as int) % 4))
            } else if b == 0x08 {
                with_buf(c, c.buf.backspace())
            } else {
                c
            }
        },
    }
}

/// The dispatcher and the five family handlers it routes to.
pub struct SequenceDispatcher {
    csi_handler: CsiSequenceHandler,
    osc_handler: OscSequenceHandler,
    dcs_handler: DcsSequenceHandler,
    vt100_handler: VT100SequenceHandler,
    sgr_handler: SgrSequenceHandler,
}

impl SequenceDispatcher {
    pub fn new() -> (r: SequenceDispatcher)
    {
        SequenceDispatcher {
            csi_handler: CsiSequenceHandler,
            osc_handler: OscSequenceHandler,
            dcs_handler: DcsSequenceHandler,
            vt100_handler: VT100SequenceHandler,
            sgr_handler: SgrSequenceHandler,
        }
    }

    /// Routes one token to its handler.
    #[verifier::rlimit(100)]
    pub fn dispatch(&self, ctx: &mut HandlerContext, token: SequenceToken)
        requires
            old(ctx)@.wf(),
        ensures
            final(ctx)@ == dispatch_apply(old(ctx)@, token@),
            final(ctx)@.wf(),
    {
        match token {
            SequenceToken::Csi(seq_body) => {
                self.csi_handler.handle(ctx, seq_body.as_str());
            },
            SequenceToken::Osc(seq_body) => {
                self.osc_handler.handle(ctx, seq_body.as_str());
            },
            SequenceToken::Dcs(seq_body) => {
                self.dcs_handler.handle(ctx, seq_body.as_str());
            },
            SequenceToken::VT100(seq_body) => {
                self.vt100_handler.handle(ctx, seq_body.as_str());
            },
            SequenceToken::Sgr(seq_body) => {
                self.sgr_handler.handle(ctx, seq_body.as_str());
            },
            SequenceToken::Character(ch) => {
                ctx.buffer.put_char(ch);
                proof {
                    lemma_unchanged_but_buffer(old(ctx)@, ctx@);
                }
            },
            SequenceToken::ControlChar(code) => {
                if code == 0x0d {
                    ctx.buffer.carriage_return();
                    proof {
                        lemma_unchanged_but_buffer(old(ctx)@, ctx@);
                    }
                } else if code == 0x0a {
                    if ctx.buffer.cursor_y >= ctx.buffer.scroll_region_bottom {
                        let top_line = clone_row(&ctx.buffer.cells[0]);
                        ctx.add_line_to_scrollback(top_line);
                        proof {
                            assert(ctx@ =~= old(ctx)@.push_scrollback(old(ctx)@.buf.grid[0]));
                        }
                    }
                    let ghost mid = ctx@;
                    let lmn = ctx.new_line_mode;
                    ctx.buffer.new_line(lmn);
                    proof {
                        lemma_unchanged_but_buffer(mid, ctx@);
                    }
                } else if code == 0x09 {
                    let n = 4 - ctx.buffer.cursor_x % 4;
                    let ghost buf0 = ctx.buffer@;
                    let mut k: usize = 0;
                    while k < n
                        invariant
                            k <= n,
                            n <= 4,
                            ctx.buffer@.wf(),
                            put_spaces(ctx.buffer@, n - k) == put_spaces(buf0, n as int),
                            ctx.scrollback_buffer == old(ctx).scrollback_buffer,
                            ctx.saved_screen_buffer == old(ctx).saved_screen_buffer,
                            ctx.decckm_mode == old(ctx).decckm_mode,
                            ctx.decom_mode == old(ctx).decom_mode,
                            ctx.decawm_mode == old(ctx).decawm_mode,
                            ctx.reverse_video_mode == old(ctx).reverse_video_mode,
                            ctx.show_cursor == old(ctx).show_cursor,
                            ctx.bracket_paste_mode == old(ctx).bracket_paste_mode,
                            ctx.new_line_mode == old(ctx).new_line_mode,
                            ctx.max_scroll_lines == old(ctx).max_scroll_lines,
                            ctx.reply == old(ctx).reply,
                            ctx.title_updates == old(ctx).title_updates,
                        decreases n - k,
                    {
                        ctx.buffer.put_char(' ');
                        k += 1;
                    }
                    proof {
                        assert(ctx.buffer@ == put_spaces(buf0, n as int));
                        lemma_unchanged_but_buffer(old(ctx)@, ctx@);
                    }
                } else if code == 0x08 {
                    ctx.buffer.backspace();
                    proof {
                        lemma_unchanged_but_buffer(old(ctx)@, ctx@);
                    }
                }
            },
        }
    }
}

/// A fresh copy of a row of cells.
pub fn clone_row(row: &Vec<crate::terminal_cell::TerminalCell>) -> (r: Vec<
    crate::terminal_cell::TerminalCell,
>)
    ensures
        r@ == row@,
{
    let mut r: Vec<crate::terminal_cell::TerminalCell> = Vec::new();
    let mut i: usize = 0;
    while i < row.len()
        invariant
            i <= row@.len(),
            r@ =~= row@.take(i as int),
        decreases row@.len() - i,
    {
        r.push(row[i]);
        proof {
            assert(row@.take(i + 1) =~= row@.take(i as int).push(row@[i as int]));
        }
        i += 1;
    }
    proof {
        assert(row@.take(row@.len() as int) =~= row@);
    }
    r
}

/// Two session states that differ at most in the buffer are related by
/// `with_buf`.
proof fn lemma_unchanged_but_buffer(c0: CtxView, c1: CtxView)
    requires
        c1.scrollback =~= c0.scrollback,
        c1.saved == c0.saved,
        c1.decckm == c0.decckm,
        c1.decom == c0.decom,
        c1.decawm == c0.decawm,
        c1.reverse_video == c0.reverse_video,
        c1.show_cursor == c0.show_cursor,
        c1.bracket_paste == c0.bracket_paste,
        c1.new_line == c0.new_line,
        c1.max_scroll == c0.max_scroll,
        c1.reply == c0.reply,
        c1.titles =~= c0.titles,
    ensures
        c1 == with_buf(c0, c1.buf),
{
    assert(c1 =~= with_buf(c0, c1.buf));
}

} // verus!
