//! The session state the sequence handlers act on: the screen buffer, the
//! scrollback, the saved alternate-screen buffer, the mode flags and the
//! outbound sinks.

use vstd::prelude::*;

use crate::terminal_buffer::{BufView, TerminalBuffer};
use crate::terminal_cell::TerminalCell;

verus! {

/// The mathematical state of a session.
#[verifier::ext_equal]
pub struct CtxView {
    pub buf: BufView,
    pub scrollback: Seq<Seq<TerminalCell>>,
    pub saved: Option<BufView>,
    pub decckm: bool,
    pub decom: bool,
    pub decawm: bool,
    pub reverse_video: bool,
    pub show_cursor: bool,
    pub bracket_paste: bool,
    pub new_line: bool,
    pub max_scroll: nat,
    pub reply: Seq<u8>,
    pub titles: Seq<Seq<char>>,
}

impl CtxView {
    pub open spec fn wf(self) -> bool {
        &&& self.buf.wf()
        &&& (self.saved matches Some(b) ==> b.wf())
        &&& self.scrollback.len() <= self.max_scroll
    }

    /// Pushing one evicted row into the scrollback: the row goes to the back,
    /// and once the bound is exceeded the oldest row leaves at the front.
    pub open spec fn push_scrollback(self, row: Seq<TerminalCell>) -> CtxView {
        let grown = self.scrollback.push(row);
        CtxView {
            scrollback: if grown.len() > self.max_scroll {
                grown.skip(1)
            } else {
                grown
            },
            ..self
        }
    }
}

/// The session after a sequence of evicted rows has entered the scrollback,
/// oldest first.
pub open spec fn push_rows(c: CtxView, rows: Seq<Seq<TerminalCell>>) -> CtxView
    decreases rows.len(),
{
    if rows.len() == 0 {
        c
    } else {
        push_rows(c.push_scrollback(rows[0]), rows.skip(1))
    }
}

/// The scrollback bound: after any number of evictions the scrollback holds
/// exactly the newest rows, no more than the bound many, oldest first.
pub proof fn lemma_scrollback_bound(c: CtxView, rows: Seq<Seq<TerminalCell>>)
    requires
        c.scrollback.len() <= c.max_scroll,
    ensures
        ({
            let c2 = push_rows(c, rows);
            let total = c.scrollback + rows;
            &&& c2.scrollback.len() == (if total.len() <= c.max_scroll {
                total.len()
            } else {
                c.max_scroll
            })
            &&& c2.scrollback =~= total.skip(total.len() - c2.scrollback.len())
            &&& c2.max_scroll == c.max_scroll
        }),
    decreases rows.len(),
{
    let total = c.scrollback + rows;
    if rows.len() == 0 {
        assert(total =~= c.scrollback);
        assert(push_rows(c, rows).scrollback =~= total.skip(0));
    } else {
        let c1 = c.push_scrollback(rows[0]);
        assert(c1.scrollback.len() <= c.max_scroll);
        lemma_scrollback_bound(c1, rows.skip(1));
        let c2 = push_rows(c1, rows.skip(1));
        assert(c1.scrollback + rows.skip(1) =~= (if c.scrollback.len() + 1 > c.max_scroll {
            total.skip(1)
        } else {
            total
        }));
        assert(c2.scrollback =~= total.skip(total.len() - c2.scrollback.len()));
    }
}

/// The session state: the live buffer, the scrollback rows (oldest first),
/// the buffer saved while the alternate screen is active, the DEC private
/// mode flags, the scrollback bound, and the two outbound sinks (bytes owed
/// to the pseudo-terminal and window-title updates).
pub struct HandlerContext {
    pub buffer: TerminalBuffer,
    pub scrollback_buffer: Vec<Vec<TerminalCell>>,
    pub saved_screen_buffer: Option<TerminalBuffer>,
    pub decckm_mode: bool,
    pub decom_mode: bool,
    pub decawm_mode: bool,
    pub reverse_video_mode: bool,
    pub show_cursor: bool,
    pub bracket_paste_mode: bool,
    pub new_line_mode: bool,
    pub max_scroll_lines: usize,
    pub reply: Vec<u8>,
    pub title_updates: Vec<String>,
}

impl View for HandlerContext {
    type V = CtxView;

    open spec fn view(&self) -> CtxView {
        CtxView {
            buf: self.buffer@,
            scrollback: Seq::new(self.scrollback_buffer@.len(), |i: int| self.scrollback_buffer@[i]@),
            saved: match self.saved_screen_buffer {
                Some(b) => Some(b@),
                None => None,
            },
            decckm: self.decckm_mode,
            decom: self.decom_mode,
            decawm: self.decawm_mode,
            reverse_video: self.reverse_video_mode,
            show_cursor: self.show_cursor,
            bracket_paste: self.bracket_paste_mode,
            new_line: self.new_line_mode,
            max_scroll: self.max_scroll_lines as nat,
            reply: self.reply@,
            titles: Seq::new(self.title_updates@.len(), |i: int| self.title_updates@[i]@),
        }
    }
}

impl HandlerContext {
    pub open spec fn wf(&self) -> bool {
        self@.wf()
    }

    /// The state a fresh session starts in.
    pub open spec fn new_spec(w: nat, h: nat) -> CtxView {
        CtxView {
            buf: BufView::fresh(w, h),
            scrollback: Seq::empty(),
            saved: None,
            decckm: false,
            decom: false,
            decawm: true,
            reverse_video: false,
            show_cursor: true,
            bracket_paste: false,
            new_line: true,
            max_scroll: 1000,
            reply: Seq::empty(),
            titles: Seq::empty(),
        }
    }

    /// A fresh session around a buffer of the given size, with the default
    /// mode flags: auto-wrap and new-line mode on, the cursor shown, a
    /// scrollback bound of 1000 rows, and everything else off.
    pub fn new(width: usize, height: usize) -> (r: HandlerContext)
        requires
            1 <= width,
            1 <= height,
        ensures
            r@ == Self::new_spec(width as nat, height as nat),
            r.wf(),
    {
        let r = HandlerContext {
            buffer: TerminalBuffer::new(width, height),
            scrollback_buffer: Vec::new(),
            saved_screen_buffer: None,
            decckm_mode: false,
            decom_mode: false,
            decawm_mode: true,
            reverse_video_mode: false,
            show_cursor: true,
            bracket_paste_mode: false,
            new_line_mode: true,
            max_scroll_lines: 1000,
            reply: Vec::new(),
            title_updates: Vec::new(),
        };
        proof {
            assert(r@ =~~= (CtxView {
                buf: BufView::fresh(width as nat, height as nat),
                scrollback: Seq::empty(),
                saved: None,
                decckm: false,
                decom: false,
                decawm: true,
                reverse_video: false,
                show_cursor: true,
                bracket_paste: false,
                new_line: true,
                max_scroll: 1000,
                reply: Seq::empty(),
                titles: Seq::empty(),
            }));
        }
        r
    }

    /// Appends one evicted row to the scrollback, dropping the oldest row
    /// once the bound is exceeded: within the store invariant the new length
    /// is the lesser of one more and the bound, and the kept rows stay in
    /// their oldest-first order.
    pub fn add_line_to_scrollback(&mut self, line: Vec<TerminalCell>)
        ensures
            final(self)@ == old(self)@.push_scrollback(line@),
            old(self)@.scrollback.len() <= old(self)@.max_scroll ==> final(self)@.scrollback.len()
                == crate::terminal_buffer::spec_min(
                old(self)@.scrollback.len() + 1,
                old(self)@.max_scroll,
            ),
            final(self)@.scrollback == (old(self)@.scrollback.push(line@)).skip(
                old(self)@.scrollback.len() + 1 - final(self)@.scrollback.len(),
            ),
    {
        let ghost target = old(self)@.push_scrollback(line@);
        self.scrollback_buffer.push(line);
        if self.scrollback_buffer.len() > self.max_scroll_lines {
            let _evicted = self.scrollback_buffer.remove(0);
        }
        proof {
            assert(self@.scrollback =~~= target.scrollback);
            assert(self@ =~~= target);
            assert((old(self)@.scrollback.push(line@)).skip(0) =~= old(self)@.scrollback.push(
                line@,
            ));
        }
    }
}

} // verus!
