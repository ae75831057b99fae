//! Control sequences of the cursor/erase family: numeric parameters followed
//! by a final letter, with DEC private mode and graphic-rendition bodies
//! routed to their own handlers.

use vstd::prelude::*;

use crate::parser::handler_context::{CtxView, HandlerContext};
use crate::parser::params::{
    chars_of, dec_bytes, parse_num, parse_range, push_decimal, split_semi, split_semi_ranges,
    strip_trailing, strip_trailing2, strip_trailing2_range, strip_trailing_range,
};
use crate::parser::sgr_sequence_handler::{sgr_apply, with_sgr, SgrSequenceHandler};
use crate::parser::vt100_sequence_handler::{dec_parse, vt100_apply, VT100SequenceHandler};
use crate::terminal_buffer::{default_row, BufView};
use crate::terminal_cell::{spec_default_cell, TerminalCell};

verus! {

/// The session with only the screen buffer replaced.
pub open spec fn with_buf(c: CtxView, b: BufView) -> CtxView {
    CtxView { buf: b, ..c }
}

/// The numeric parameter before the final letter, with a default where the
/// digits are missing or unreadable.
pub open spec fn csi_num(s: Seq<char>, letter: char, dflt: int) -> int {
    match parse_num(strip_trailing(s, letter), usize::MAX as int) {
        Some(v) => v,
        None => dflt,
    }
}

pub open spec fn sat_add(a: int, b: int) -> int {
    if a + b > usize::MAX {
        usize::MAX as int
    } else {
        a + b
    }
}

pub open spec fn sat_sub(a: int, b: int) -> int {
    if a - b < 0 {
        0
    } else {
        a - b
    }
}

/// The cursor position report: ESC `[` row `;` column `R`, 1-based.
pub open spec fn cpr_bytes(row: int, col: int) -> Seq<u8> {
    seq![0x1bu8, 0x5bu8] + dec_bytes(row) + seq![0x3bu8] + dec_bytes(col) + seq![0x52u8]
}

/// A row with `n` characters deleted at column `cx`: the cells to the right
/// shift left and default cells pad the end.
pub open spec fn row_delete(row: Seq<TerminalCell>, cx: int, n: int) -> Seq<TerminalCell> {
    let keep = if n <= row.len() - cx {
        n
    } else {
        row.len() - cx
    };
    row.take(cx) + row.subrange(cx + keep, row.len() as int) + default_row(keep as nat)
}

/// What a control-sequence body does to the session, arm by arm: DEC private
/// modes first, then the cursor, erase, rendition and delete families; an
/// unrecognized body changes nothing.
#[verifier::opaque]
pub open spec fn csi_apply(c: CtxView, s: Seq<char>) -> CtxView {
    let b = c.buf;
    let cx = b.cursor_x as int;
    let cy = b.cursor_y as int;
    let w = b.width as int;
    let h = b.height as int;
    if dec_parse(s) is Some {
        vt100_apply(c, s)
    } else if s.len() == 0 {
        c
    } else if s.last() == 'A' {
        with_buf(c, b.move_cursor(b.cursor_x as usize, sat_sub(cy, csi_num(s, 'A', 1)) as usize))
    } else if s.last() == 'B' {
        with_buf(c, b.move_cursor(b.cursor_x as usize, sat_add(cy, csi_num(s, 'B', 1)) as usize))
    } else if s.last() == 'C' {
        with_buf(c, b.move_cursor(sat_add(cx, csi_num(s, 'C', 1)) as usize, b.cursor_y as usize))
    } else if s.last() == 'D' {
        with_buf(c, b.move_cursor(sat_sub(cx, csi_num(s, 'D', 1)) as usize, b.cursor_y as usize))
    } else if s.last() == 'E' {
        with_buf(c, b.move_cursor(0, sat_add(cy, csi_num(s, 'E', 1)) as usize))
    } else if s.last() == 'F' {
        with_buf(c, b.move_cursor(0, sat_sub(cy, csi_num(s, 'F', 1)) as usize))
    } else if s.last() == 'G' {
        with_buf(c, b.move_cursor(sat_sub(csi_num(s, 'G', 1), 1) as usize, b.cursor_y as usize))
    } else if s.last() == 'H' || s.last() == 'f' {
        let parts = split_semi(strip_trailing2(s, 'H', 'f'));
        let row = (match parse_num(parts[0], usize::MAX as int) {
            Some(v) => v,
            None => 1,
        });
        let col = (if parts.len() >= 2 {
            match parse_num(parts[1], usize::MAX as int) {
                Some(v) => v,
                None => 1,
            }
        } else {
            1
        });
        with_buf(c, b.move_cursor(sat_sub(col, 1) as usize, sat_sub(row, 1) as usize))
    } else if s.last() == 's' {
        with_buf(c, BufView { saved_x: b.cursor_x, saved_y: b.cursor_y, ..b })
    } else if s.last() == 'u' {
        with_buf(c, b.move_cursor(b.saved_x as usize, b.saved_y as usize))
    } else if s.len() >= 2 && s[s.len() - 2] == '6' && s.last() == 'n' {
        CtxView { reply: c.reply + cpr_bytes(cy + 1, cx + 1), ..c }
    } else if s.last() == 'J' {
        let n = csi_num(s, 'J', 0);
        if n == 0 {
            let b1 = b.clear_range(
                Some((b.cursor_x as usize, b.cursor_y as usize)),
                Some(((w - 1) as usize, b.cursor_y as usize)),
            );
            if cy + 1 < h {
                with_buf(c, b1.clear_range(Some((0, (cy + 1) as usize)), None))
            } else {
                with_buf(c, b1)
            }
        } else if n == 1 {
            let b1 = (if cy > 0 {
                b.clear_range(None, Some(((w - 1) as usize, (cy - 1) as usize)))
            } else {
                b
            });
            with_buf(
                c,
                b1.clear_range(
                    Some((0, b.cursor_y as usize)),
                    Some((b.cursor_x as usize, b.cursor_y as usize)),
                ),
            )
        } else if n == 2 {
            // The whole screen clears; the cursor stays where it was.
            with_buf(c, b.clear_range(None, None))
        } else if n == 3 {
            CtxView { buf: b.clear_range(None, None), scrollback: Seq::empty(), ..c }
        } else {
            c
        }
    } else if s.last() == 'K' {
        let n = csi_num(s, 'K', 0);
        if n == 0 {
            with_buf(
                c,
                b.clear_range(
                    Some((b.cursor_x as usize, b.cursor_y as usize)),
                    Some(((w - 1) as usize, b.cursor_y as usize)),
                ),
            )
        } else if n == 1 {
            with_buf(
                c,
                b.clear_range(
                    Some((0, b.cursor_y as usize)),
                    Some((b.cursor_x as usize, b.cursor_y as usize)),
                ),
            )
        } else if n == 2 {
            with_buf(
                c,
                b.clear_range(Some((0, b.cursor_y as usize)), Some(((w - 1) as usize, b.cursor_y as usize))),
            )
        } else {
            c
        }
    } else if s.last() == 'm' {
        with_sgr(c, sgr_apply(b.sgr, strip_trailing(s, 'm')))
    } else if s.last() == 'P' {
        let n = csi_num(s, 'P', 1);
        if cx < w {
            let row2 = row_delete(b.grid[cy], cx, n);
            with_buf(c, BufView { grid: b.grid.update(cy, row2), ..b })
        } else {
            c
        }
    } else if s.last() == 'd' {
        with_buf(c, b.move_cursor(b.cursor_x as usize, sat_sub(csi_num(s, 'd', 1), 1) as usize))
    } else {
        c
    }
}

/// The handler of the cursor/erase control-sequence family.
pub struct CsiSequenceHandler;

impl CsiSequenceHandler {
    /// Applies one control-sequence body to the session.  An unrecognized
    /// body leaves the session unchanged; a recognized one acts exactly as
    /// the arm-by-arm description says.
    #[verifier::rlimit(100)]
    pub fn handle(&self, ctx: &mut HandlerContext, sequence: &str)
        requires
            old(ctx)@.wf(),
        ensures
            final(ctx)@ == csi_apply(old(ctx)@, sequence@),
            final(ctx)@.wf(),
    {
        let vt = VT100SequenceHandler;
        match vt.parse_dec_private_mode(sequence) {
            Some(_) => {
                vt.handle(ctx, sequence);
                proof {
                    assert(ctx@ == csi_apply(old(ctx)@, sequence@)) by {
                        reveal(csi_apply);
                    }
                }
                return ;
            },
            None => {},
        }
        let cs = chars_of(sequence);
        let n = cs.len();
        if n == 0 {
            proof {
                assert(ctx@ == csi_apply(old(ctx)@, sequence@)) by {
                    reveal(csi_apply);
                }
            }
            return ;
        }
        let last = cs[n - 1];
        proof {
            assert(cs@[n - 1] == sequence@.last());
        }
        if last == 'A' || last == 'B' || last == 'C' || last == 'D' || last == 'E' || last == 'F'
            || last == 'G' || last == 'd' || last == 's' || last == 'u' {
            Self::handle_motion(ctx, sequence, &cs, last);
        } else if last == 'H' || last == 'f' {
            Self::handle_position(ctx, sequence, &cs, last);
        } else if n >= 2 && cs[n - 2] == '6' && last == 'n' {
            Self::handle_report(ctx, sequence, &cs);
        } else if last == 'J' {
            Self::handle_erase_display(ctx, sequence, &cs);
        } else if last == 'K' {
            Self::handle_erase_line(ctx, sequence, &cs);
        } else if last == 'm' {
            let body_end = strip_trailing_range(&cs, 0, n, 'm');
            proof {
                assert(cs@.subrange(0, cs@.len() as int) =~= cs@);
            }
            let body = crate::parser::params::string_of_chars(&cs, 0, body_end);
            let sgr = SgrSequenceHandler;
            sgr.handle(ctx, body.as_str());
            proof {
                assert(ctx@ == csi_apply(old(ctx)@, sequence@)) by {
                    reveal(csi_apply);
                }
            }
        } else if last == 'P' {
            let num = Self::numeric_prefix(&cs, 'P', 1);
            Self::delete_chars(ctx, num);
            proof {
                assert(ctx@ == csi_apply(old(ctx)@, sequence@)) by {
                    reveal(csi_apply);
                }
            }
        } else {
            proof {
                assert(ctx@ == csi_apply(old(ctx)@, sequence@)) by {
                    reveal(csi_apply);
                }
            }
        }
    }

    /// The single-parameter cursor motions and the cursor save and restore.
    #[verifier::rlimit(100)]
    fn handle_motion(ctx: &mut HandlerContext, sequence: &str, cs: &Vec<char>, last: char)
        requires
            old(ctx)@.wf(),
            cs@ == sequence@,
            cs@.len() > 0,
            last == cs@.last(),
            dec_parse(sequence@) is None,
            last == 'A' || last == 'B' || last == 'C' || last == 'D' || last == 'E' || last == 'F'
                || last == 'G' || last == 'd' || last == 's' || last == 'u',
        ensures
            final(ctx)@ == csi_apply(old(ctx)@, sequence@),
            final(ctx)@.wf(),
    {
        if last == 'A' {
            let num = Self::numeric_prefix(cs, 'A', 1);
            let y = ctx.buffer.cursor_y.saturating_sub(num);
            let x = ctx.buffer.cursor_x;
            ctx.buffer.move_cursor(x, y);
        } else if last == 'B' {
            let num = Self::numeric_prefix(cs, 'B', 1);
            let y = ctx.buffer.cursor_y.saturating_add(num);
            let x = ctx.buffer.cursor_x;
            ctx.buffer.move_cursor(x, y);
        } else if last == 'C' {
            let num = Self::numeric_prefix(cs, 'C', 1);
            let x = ctx.buffer.cursor_x.saturating_add(num);
            let y = ctx.buffer.cursor_y;
            ctx.buffer.move_cursor(x, y);
        } else if last == 'D' {
            let num = Self::numeric_prefix(cs, 'D', 1);
            let x = ctx.buffer.cursor_x.saturating_sub(num);
            let y = ctx.buffer.cursor_y;
            ctx.buffer.move_cursor(x, y);
        } else if last == 'E' {
            let num = Self::numeric_prefix(cs, 'E', 1);
            let y = ctx.buffer.cursor_y.saturating_add(num);
            ctx.buffer.move_cursor(0, y);
        } else if last == 'F' {
            let num = Self::numeric_prefix(cs, 'F', 1);
            let y = ctx.buffer.cursor_y.saturating_sub(num);
            ctx.buffer.move_cursor(0, y);
        } else if last == 'G' {
            let num = Self::numeric_prefix(cs, 'G', 1);
            let y = ctx.buffer.cursor_y;
            ctx.buffer.move_cursor(num.saturating_sub(1), y);
        } else if last == 'd' {
            let num = Self::numeric_prefix(cs, 'd', 1);
            let x = ctx.buffer.cursor_x;
            ctx.buffer.move_cursor(x, num.saturating_sub(1));
        } else if last == 's' {
            ctx.buffer.saved_cursor_x = ctx.buffer.cursor_x;
            ctx.buffer.saved_cursor_y = ctx.buffer.cursor_y;
            proof {
                assert(ctx.buffer@ =~= (BufView {
                    saved_x: old(ctx)@.buf.cursor_x,
                    saved_y: old(ctx)@.buf.cursor_y,
                    ..old(ctx)@.buf
                }));
            }
        } else {
            let x = ctx.buffer.saved_cursor_x;
            let y = ctx.buffer.saved_cursor_y;
            ctx.buffer.move_cursor(x, y);
        }
        proof {
            lemma_only_buffer_changed(old(ctx)@, ctx@);
            assert(ctx@ == csi_apply(old(ctx)@, sequence@)) by {
                reveal(csi_apply);
            }
        }
    }

    /// The two-parameter cursor position (row, then column, both 1-based).
    #[verifier::rlimit(100)]
    fn handle_position(ctx: &mut HandlerContext, sequence: &str, cs: &Vec<char>, last: char)
        requires
            old(ctx)@.wf(),
            cs@ == sequence@,
            cs@.len() > 0,
            last == cs@.last(),
            dec_parse(sequence@) is None,
            last == 'H' || last == 'f',
        ensures
            final(ctx)@ == csi_apply(old(ctx)@, sequence@),
            final(ctx)@.wf(),
    {
        let n = cs.len();
        let body_end = strip_trailing2_range(cs, 0, n, 'H', 'f');
        proof {
            assert(cs@.subrange(0, cs@.len() as int) =~= cs@);
        }
        let parts = split_semi_ranges(cs, 0, body_end);
        let (l0, h0) = parts[0];
        let row = match parse_range(cs, l0, h0, usize::MAX) {
            Some(v) => v,
            None => 1,
        };
        let col = if parts.len() >= 2 {
            let (l1, h1) = parts[1];
            match parse_range(cs, l1, h1, usize::MAX) {
                Some(v) => v,
                None => 1,
            }
        } else {
            1
        };
        ctx.buffer.move_cursor(col.saturating_sub(1), row.saturating_sub(1));
        proof {
            lemma_only_buffer_changed(old(ctx)@, ctx@);
            assert(ctx@ == csi_apply(old(ctx)@, sequence@)) by {
                reveal(csi_apply);
            }
        }
    }

    /// The cursor position report: the 1-based position, appended to the
    /// bytes owed to the pseudo-terminal.
    #[verifier::rlimit(100)]
    fn handle_report(ctx: &mut HandlerContext, sequence: &str, cs: &Vec<char>)
        requires
            old(ctx)@.wf(),
            cs@ == sequence@,
            cs@.len() >= 2,
            cs@[cs@.len() - 2] == '6',
            cs@.last() == 'n',
            dec_parse(sequence@) is None,
        ensures
            final(ctx)@ == csi_apply(old(ctx)@, sequence@),
            final(ctx)@.wf(),
    {
        let y = ctx.buffer.cursor_y + 1;
        let x = ctx.buffer.cursor_x + 1;
        ctx.reply.push(0x1b);
        ctx.reply.push(0x5b);
        push_decimal(&mut ctx.reply, y);
        ctx.reply.push(0x3b);
        push_decimal(&mut ctx.reply, x);
        ctx.reply.push(0x52);
        proof {
            assert(ctx.reply@ =~= old(ctx).reply@ + cpr_bytes(
                (old(ctx)@.buf.cursor_y + 1) as int,
                (old(ctx)@.buf.cursor_x + 1) as int,
            ));
            assert(ctx@.scrollback =~= old(ctx)@.scrollback);
            assert(ctx@.titles =~= old(ctx)@.titles);
            assert(ctx@ =~= (CtxView {
                reply: old(ctx)@.reply + cpr_bytes(
                    (old(ctx)@.buf.cursor_y + 1) as int,
                    (old(ctx)@.buf.cursor_x + 1) as int,
                ),
                ..old(ctx)@
            }));
            assert(ctx@ == csi_apply(old(ctx)@, sequence@)) by {
                reveal(csi_apply);
            }
        }
    }

    /// Erase in display: from the cursor onward, up to the cursor, the whole
    /// screen, or the whole screen and the scrollback.
    #[verifier::rlimit(100)]
    fn handle_erase_display(ctx: &mut HandlerContext, sequence: &str, cs: &Vec<char>)
        requires
            old(ctx)@.wf(),
            cs@ == sequence@,
            cs@.len() > 0,
            cs@.last() == 'J',
            dec_parse(sequence@) is None,
        ensures
            final(ctx)@ == csi_apply(old(ctx)@, sequence@),
            final(ctx)@.wf(),
    {
        let num = Self::numeric_prefix(cs, 'J', 0);
        let cx = ctx.buffer.cursor_x;
        let cy = ctx.buffer.cursor_y;
        let w = ctx.buffer.width;
        let h = ctx.buffer.height;
        if num == 0 {
            ctx.buffer.clear_range(Some((cx, cy)), Some((w - 1, cy)));
            if cy + 1 < h {
                ctx.buffer.clear_range(Some((0, cy + 1)), None);
            }
            proof {
                lemma_only_buffer_changed(old(ctx)@, ctx@);
            }
        } else if num == 1 {
            if cy > 0 {
                ctx.buffer.clear_range(None, Some((w - 1, cy - 1)));
            }
            ctx.buffer.clear_range(Some((0, cy)), Some((cx, cy)));
            proof {
                lemma_only_buffer_changed(old(ctx)@, ctx@);
            }
        } else if num == 2 {
            ctx.buffer.clear_range(None, None);
            proof {
                lemma_only_buffer_changed(old(ctx)@, ctx@);
            }
        } else if num == 3 {
            ctx.buffer.clear_range(None, None);
            ctx.scrollback_buffer.clear();
            proof {
                assert(ctx@.scrollback =~= Seq::<Seq<TerminalCell>>::empty());
                assert(ctx@.titles =~= old(ctx)@.titles);
                assert(ctx@ =~= (CtxView {
                    buf: old(ctx)@.buf.clear_range(None, None),
                    scrollback: Seq::empty(),
                    ..old(ctx)@
                }));
            }
        }
        proof {
            assert(ctx@ == csi_apply(old(ctx)@, sequence@)) by {
                reveal(csi_apply);
            }
        }
    }

    /// Erase in line: from the cursor to the end, from the start to the
    /// cursor, or the whole line.
    #[verifier::rlimit(100)]
    fn handle_erase_line(ctx: &mut HandlerContext, sequence: &str, cs: &Vec<char>)
        requires
            old(ctx)@.wf(),
            cs@ == sequence@,
            cs@.len() > 0,
            cs@.last() == 'K',
            dec_parse(sequence@) is None,
        ensures
            final(ctx)@ == csi_apply(old(ctx)@, sequence@),
            final(ctx)@.wf(),
    {
        let num = Self::numeric_prefix(cs, 'K', 0);
        let cx = ctx.buffer.cursor_x;
        let cy = ctx.buffer.cursor_y;
        let w = ctx.buffer.width;
        if num == 0 {
            ctx.buffer.clear_range(Some((cx, cy)), Some((w - 1, cy)));
            proof {
                lemma_only_buffer_changed(old(ctx)@, ctx@);
            }
        } else if num == 1 {
            ctx.buffer.clear_range(Some((0, cy)), Some((cx, cy)));
            proof {
                lemma_only_buffer_changed(old(ctx)@, ctx@);
            }
        } else if num == 2 {
            ctx.buffer.clear_range(Some((0, cy)), Some((w - 1, cy)));
            proof {
                lemma_only_buffer_changed(old(ctx)@, ctx@);
            }
        }
        proof {
            assert(ctx@ == csi_apply(old(ctx)@, sequence@)) by {
                reveal(csi_apply);
            }
        }
    }

    /// The numeric parameter of a body whose final letter is `letter`.
    fn numeric_prefix(cs: &Vec<char>, letter: char, dflt: usize) -> (r: usize)
        ensures
            r as int == csi_num(cs@, letter, dflt as int),
    {
        let body_end = strip_trailing_range(cs, 0, cs.len(), letter);
        proof {
            assert(cs@.subrange(0, cs@.len() as int) =~= cs@);
        }
        match parse_range(cs, 0, body_end, usize::MAX) {
            Some(v) => v,
            None => dflt,
        }
    }

    /// Deletes `num` characters at the cursor: cells to the right shift left
    /// and default cells fill the row's end.
    fn delete_chars(ctx: &mut HandlerContext, num: usize)
        requires
            old(ctx)@.wf(),
        ensures
            final(ctx)@ == (if old(ctx)@.buf.cursor_x < old(ctx)@.buf.width {
                with_buf(
                    old(ctx)@,
                    BufView {
                        grid: old(ctx)@.buf.grid.update(
                            old(ctx)@.buf.cursor_y as int,
                            row_delete(
                                old(ctx)@.buf.grid[old(ctx)@.buf.cursor_y as int],
                                old(ctx)@.buf.cursor_x as int,
                                num as int,
                            ),
                        ),
                        ..old(ctx)@.buf
                    },
                )
            } else {
                old(ctx)@
            }),
            final(ctx)@.wf(),
    {
        delete_chars_in_buffer(&mut ctx.buffer, num);
        proof {
            lemma_only_buffer_changed(old(ctx)@, ctx@);
        }
    }
}

/// Deletes `num` characters at the cursor of a buffer.
fn delete_chars_in_buffer(buf: &mut crate::terminal_buffer::TerminalBuffer, num: usize)
    requires
        old(buf).wf(),
    ensures
        final(buf)@ == (if old(buf)@.cursor_x < old(buf)@.width {
            BufView {
                grid: old(buf)@.grid.update(
                    old(buf)@.cursor_y as int,
                    row_delete(
                        old(buf)@.grid[old(buf)@.cursor_y as int],
                        old(buf)@.cursor_x as int,
                        num as int,
                    ),
                ),
                ..old(buf)@
            }
        } else {
            old(buf)@
        }),
        final(buf).wf(),
{
    let cx = buf.cursor_x;
    let cy = buf.cursor_y;
    let w = buf.width;
    let ghost row0 = buf@.grid[cy as int];
    proof {
        assert(row0 == buf.cells@[cy as int]@);
        assert(row0.len() == old(buf)@.width);
    }
    if cx < w {
        let keep = if num < w - cx {
            num
        } else {
            w - cx
        };
        let mut k: usize = 0;
        while k < keep
            invariant
                old(buf).wf(),
                k <= keep,
                keep == (if (num as int) < w - cx {
                    num as int
                } else {
                    w - cx
                }),
                cx < w,
                cx == old(buf)@.cursor_x,
                cy == old(buf)@.cursor_y,
                w == old(buf)@.width,
                row0 == old(buf)@.grid[cy as int],
                row0.len() == w,
                buf.width == old(buf).width,
                buf.height == old(buf).height,
                buf.cursor_x == old(buf).cursor_x,
                buf.cursor_y == old(buf).cursor_y,
                buf.scroll_region_top == old(buf).scroll_region_top,
                buf.scroll_region_bottom == old(buf).scroll_region_bottom,
                buf.current_fg_color == old(buf).current_fg_color,
                buf.current_bg_color == old(buf).current_bg_color,
                buf.current_bold == old(buf).current_bold,
                buf.current_underline == old(buf).current_underline,
                buf.current_italic == old(buf).current_italic,
                buf.current_blink == old(buf).current_blink,
                buf.current_strikethrough == old(buf).current_strikethrough,
                buf.current_hidden == old(buf).current_hidden,
                buf.saved_cursor_x == old(buf).saved_cursor_x,
                buf.saved_cursor_y == old(buf).saved_cursor_y,
                buf.cells@.len() == old(buf).cells@.len(),
                forall|i: int|
                    0 <= i < buf.cells@.len() && i != cy ==> (#[trigger] buf.cells@[i]) == old(
                        buf,
                    ).cells@[i],
                buf.cells@[cy as int]@ =~= row0.take(cx as int) + row0.subrange(
                    cx + k,
                    row0.len() as int,
                ) + default_row(k as nat),
            decreases keep - k,
        {
            let row: &mut Vec<TerminalCell> = &mut buf.cells[cy];
            let _removed = row.remove(cx);
            row.push(TerminalCell::default());
            proof {
                assert(buf.cells@[cy as int]@ =~= row0.take(cx as int) + row0.subrange(
                    cx + k + 1,
                    row0.len() as int,
                ) + default_row((k + 1) as nat));
            }
            k += 1;
        }
        proof {
            assert(buf.cells@[cy as int]@ =~= row_delete(row0, cx as int, num as int));
            assert(buf@.grid =~= old(buf)@.grid.update(
                cy as int,
                row_delete(row0, cx as int, num as int),
            ));
            assert(buf@ =~= (BufView {
                grid: old(buf)@.grid.update(cy as int, row_delete(row0, cx as int, num as int)),
                ..old(buf)@
            }));
        }
    }
}

/// Two session states that differ at most in the buffer are related by
/// `with_buf`.
proof fn lemma_only_buffer_changed(c0: CtxView, c1: CtxView)
    requires
        c1.scrollback =~= c0.scrollback,
        c1.saved == c0.saved,
        c1.decckm == c0.decckm,
        c1.decom == c0.decom,
        c1.decawm == c0.decawm,
        c1.reverse_video == c0.reverse_video,
        c1.show_cursor == c0.show_cursor,
        c1.bracket_paste == c0.bracket_paste,
        c1.new_line == c0.new_line,
        c1.max_scroll == c0.max_scroll,
        c1.reply == c0.reply,
        c1.titles =~= c0.titles,
    ensures
        c1 == with_buf(c0, c1.buf),
{
    assert(c1 =~= with_buf(c0, c1.buf));
}

} // verus!
