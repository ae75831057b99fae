//! The terminal engine: the session state, the resumable tokenizer and the
//! dispatcher, driven by raw pseudo-terminal bytes and user input.

use vstd::prelude::*;

use crate::input::{
    encode_key, encode_paste, encode_text, spec_encode_key, spec_encode_paste, spec_encode_text,
    TerminalKey,
};
use crate::parser::dispatcher::{dispatch_apply, SequenceDispatcher};
use crate::parser::handler_context::{CtxView, HandlerContext};
use crate::parser::scan::scan;
use crate::parser::sequence_token::{SequenceToken, TokenModel};
use crate::parser::sequence_tokenizer::{token_views, SequenceTokenizer};
use crate::terminal_buffer::{default_row, spec_min};
use crate::terminal_cell::{spec_default_cell, TerminalCell};

verus! {

/// The session after a sequence of tokens, dispatched in order.
pub open spec fn engine_apply(c: CtxView, toks: Seq<TokenModel>) -> CtxView
    decreases toks.len(),
{
    if toks.len() == 0 {
        c
    } else {
        engine_apply(dispatch_apply(c, toks[0]), toks.skip(1))
    }
}

/// An input event, as the engine sees it: a key with its control-modifier
/// state, typed text, pasted text, or a copy request.
#[derive(Debug, Clone)]
pub enum InputEvent {
    Key(TerminalKey, bool),
    Text(String),
    Paste(String),
    Copy,
}

/// The mathematical form of an input event.
pub enum InputEventModel {
    Key(TerminalKey, bool),
    Text(Seq<char>),
    Paste(Seq<char>),
    Copy,
}

impl View for InputEvent {
    type V = InputEventModel;

    open spec fn view(&self) -> InputEventModel {
        match self {
            InputEvent::Key(k, c) => InputEventModel::Key(*k, *c),
            InputEvent::Text(s) => InputEventModel::Text(s@),
            InputEvent::Paste(s) => InputEventModel::Paste(s@),
            InputEvent::Copy => InputEventModel::Copy,
        }
    }
}

/// The bytes a sequence of input events sends to the pseudo-terminal.
pub open spec fn input_bytes(
    events: Seq<InputEventModel>,
    decckm: bool,
    bracket_paste: bool,
) -> Seq<u8>
    decreases events.len(),
{
    if events.len() == 0 {
        Seq::empty()
    } else {
        let head = (match events[0] {
            InputEventModel::Key(k, ctrl) => spec_encode_key(k, ctrl, decckm),
            InputEventModel::Text(s) => spec_encode_text(s, decckm),
            InputEventModel::Paste(s) => spec_encode_paste(s, bracket_paste),
            InputEventModel::Copy => Seq::empty(),
        });
        head + input_bytes(events.skip(1), decckm, bracket_paste)
    }
}

pub open spec fn has_copy(events: Seq<InputEventModel>) -> bool {
    exists|i: int| 0 <= i < events.len() && events[i] is Copy
}

/// The characters of one selected row: the cells from `c0` to `c1` that lie
/// inside the line.
pub open spec fn sel_row(lines: Seq<Seq<TerminalCell>>, r: int, c: int, c1: int) -> Seq<char>
    decreases c1 + 1 - c,
{
    if c > c1 {
        Seq::empty()
    } else {
        (if 0 <= r < lines.len() && 0 <= c < lines[r].len() {
            seq![lines[r][c].character]
        } else {
            Seq::empty()
        }) + sel_row(lines, r, c + 1, c1)
    }
}

/// The selected text: the rows from `r` to `r1`, newline-separated.
pub open spec fn sel_rows(
    lines: Seq<Seq<TerminalCell>>,
    r: int,
    r1: int,
    c0: int,
    c1: int,
) -> Seq<char>
    decreases r1 + 1 - r,
{
    if r > r1 {
        Seq::empty()
    } else {
        sel_row(lines, r, c0, c1) + (if r < r1 {
            seq!['\n']
        } else {
            Seq::empty()
        }) + sel_rows(lines, r + 1, r1, c0, c1)
    }
}

/// The rows on display: with no scroll offset the live grid; otherwise each
/// screen row shows, counted from the bottom, first the live grid, then the
/// scrollback (newest first), then blank rows past the history.
pub open spec fn visible_lines_spec(c: CtxView, offset: nat) -> Seq<Seq<TerminalCell>> {
    if offset == 0 {
        c.buf.grid
    } else {
        Seq::new(
            c.buf.height,
            |i: int|
                {
                    let from_bottom = offset + c.buf.height - 1 - i;
                    if from_bottom < c.buf.height {
                        c.buf.grid[c.buf.height - 1 - from_bottom]
                    } else {
                        let si = from_bottom - c.buf.height;
                        if si < c.scrollback.len() {
                            c.scrollback[c.scrollback.len() - 1 - si]
                        } else {
                            default_row(c.buf.width)
                        }
                    }
                },
        )
    }
}

/// The view of a vector of rows.
pub open spec fn rows_view(v: Seq<Vec<TerminalCell>>) -> Seq<Seq<TerminalCell>> {
    Seq::new(v.len(), |i: int| v[i]@)
}

/// The state of the whole engine.
#[verifier::ext_equal]
pub struct WidgetView {
    pub ctx: CtxView,
    pub pending: Seq<u8>,
    pub scroll_offset: nat,
    pub selection_start: Option<(usize, usize)>,
    pub selection_end: Option<(usize, usize)>,
}

/// The terminal engine: the session state, the byte tokenizer with its
/// unconsumed tail, the dispatcher, the scroll offset of the view, and the
/// current selection.
pub struct TerminalWidget {
    pub context: HandlerContext,
    pub tokenizer: SequenceTokenizer,
    pub dispatcher: SequenceDispatcher,
    pub scroll_offset: usize,
    pub selection_start: Option<(usize, usize)>,
    pub selection_end: Option<(usize, usize)>,
}

impl View for TerminalWidget {
    type V = WidgetView;

    open spec fn view(&self) -> WidgetView {
        WidgetView {
            ctx: self.context@,
            pending: self.tokenizer@,
            scroll_offset: self.scroll_offset as nat,
            selection_start: self.selection_start,
            selection_end: self.selection_end,
        }
    }
}

impl TerminalWidget {
    pub open spec fn wf(&self) -> bool {
        self.context@.wf()
    }

    /// A fresh engine around a screen of the given size, with the default
    /// mode flags, an empty scrollback and no pending bytes.
    pub fn new(width: usize, height: usize) -> (r: TerminalWidget)
        requires
            1 <= width,
            1 <= height,
        ensures
            r@.ctx == HandlerContext::new_spec(width as nat, height as nat),
            r@.pending == Seq::<u8>::empty(),
            r@.scroll_offset == 0,
            r@.selection_start is None,
            r@.selection_end is None,
            r.wf(),
    {
        TerminalWidget {
            context: HandlerContext::new(width, height),
            tokenizer: SequenceTokenizer::new(),
            dispatcher: SequenceDispatcher::new(),
            scroll_offset: 0,
            selection_start: None,
            selection_end: None,
        }
    }

    /// Feeds one chunk of pseudo-terminal output through the tokenizer and
    /// dispatches every completed token; an unfinished trailing sequence
    /// stays pending.  Only the session and the pending bytes change.
    pub fn process_output(&mut self, data: &[u8])
        requires
            old(self).wf(),
        ensures
            final(self)@.ctx == engine_apply(
                old(self)@.ctx,
                scan(old(self)@.pending + data@).tokens,
            ),
            final(self)@.pending == scan(old(self)@.pending + data@).rest,
            final(self)@.scroll_offset == old(self)@.scroll_offset,
            final(self)@.selection_start == old(self)@.selection_start,
            final(self)@.selection_end == old(self)@.selection_end,
            final(self).wf(),
    {
        let tokens = self.tokenizer.feed(data);
        let ghost toks = token_views(tokens@);
        let mut i: usize = 0;
        proof {
            assert(toks.skip(0) =~= toks);
        }
        while i < tokens.len()
            invariant
                i <= tokens@.len(),
                toks == token_views(tokens@),
                self.context@.wf(),
                engine_apply(self.context@, toks.skip(i as int)) == engine_apply(
                    old(self)@.ctx,
                    toks,
                ),
                self.tokenizer@ == scan(old(self)@.pending + data@).rest,
                self.scroll_offset == old(self).scroll_offset,
                self.selection_start == old(self).selection_start,
                self.selection_end == old(self).selection_end,
            decreases tokens@.len() - i,
        {
            let ghost cprev = self.context@;
            let token = clone_token(&tokens, i);
            self.dispatcher.dispatch(&mut self.context, token);
            proof {
                assert(toks[i as int] == tokens@[i as int]@);
                assert(toks.skip(i as int).skip(1) =~= toks.skip(i + 1));
                assert(engine_apply(cprev, toks.skip(i as int)) == engine_apply(
                    self.context@,
                    toks.skip(i + 1),
                ));
            }
            i += 1;
        }
        proof {
            assert(toks.skip(tokens@.len() as int) =~= Seq::<TokenModel>::empty());
        }
    }

    /// Resizes the screen and pads or truncates the stored scrollback rows to
    /// the new width, so that later display stays rectangular.
    pub fn resize(&mut self, new_width: usize, new_height: usize)
        requires
            old(self).wf(),
            1 <= new_width,
            1 <= new_height,
        ensures
            final(self)@.ctx.buf == old(self)@.ctx.buf.resize(new_width as nat, new_height as nat),
            final(self)@.ctx.scrollback.len() == old(self)@.ctx.scrollback.len(),
            forall|i: int|
                0 <= i < old(self)@.ctx.scrollback.len() ==> (
                #[trigger] final(self)@.ctx.scrollback[i]) == Seq::new(
                    new_width as nat,
                    |x: int|
                        if x < old(self)@.ctx.scrollback[i].len() {
                            old(self)@.ctx.scrollback[i][x]
                        } else {
                            spec_default_cell()
                        },
                ),
            final(self)@.ctx.saved == old(self)@.ctx.saved,
            final(self)@.ctx.reply == old(self)@.ctx.reply,
            final(self)@.ctx.titles == old(self)@.ctx.titles,
            final(self)@.pending == old(self)@.pending,
            final(self)@.scroll_offset == old(self)@.scroll_offset,
            final(self).wf(),
    {
        self.context.buffer.resize(new_width, new_height);
        self.adjust_scrollback_buffer_width(new_width);
    }

    /// Pads or truncates every stored scrollback row to the new width.
    pub fn adjust_scrollback_buffer_width(&mut self, new_width: usize)
        ensures
            final(self)@.ctx.scrollback.len() == old(self)@.ctx.scrollback.len(),
            forall|i: int|
                0 <= i < old(self)@.ctx.scrollback.len() ==> (
                #[trigger] final(self)@.ctx.scrollback[i]) == Seq::new(
                    new_width as nat,
                    |x: int|
                        if x < old(self)@.ctx.scrollback[i].len() {
                            old(self)@.ctx.scrollback[i][x]
                        } else {
                            spec_default_cell()
                        },
                ),
            final(self)@.ctx.buf == old(self)@.ctx.buf,
            final(self)@.ctx.saved == old(self)@.ctx.saved,
            final(self)@.ctx.reply == old(self)@.ctx.reply,
            final(self)@.ctx.titles == old(self)@.ctx.titles,
            final(self)@.pending == old(self)@.pending,
            final(self)@.scroll_offset == old(self)@.scroll_offset,
            final(self)@.selection_start == old(self)@.selection_start,
            final(self)@.selection_end == old(self)@.selection_end,
            final(self)@.ctx.decckm == old(self)@.ctx.decckm,
            final(self)@.ctx.decom == old(self)@.ctx.decom,
            final(self)@.ctx.decawm == old(self)@.ctx.decawm,
            final(self)@.ctx.reverse_video == old(self)@.ctx.reverse_video,
            final(self)@.ctx.show_cursor == old(self)@.ctx.show_cursor,
            final(self)@.ctx.bracket_paste == old(self)@.ctx.bracket_paste,
            final(self)@.ctx.new_line == old(self)@.ctx.new_line,
            final(self)@.ctx.max_scroll == old(self)@.ctx.max_scroll,
    {
        let rows = self.context.scrollback_buffer.len();
        let mut y: usize = 0;
        while y < rows
            invariant
                y <= rows,
                rows == self.context.scrollback_buffer@.len(),
                self.context.scrollback_buffer@.len() == old(
                    self,
                ).context.scrollback_buffer@.len(),
                self.context.buffer == old(self).context.buffer,
                self.context.saved_screen_buffer == old(self).context.saved_screen_buffer,
                self.context.decckm_mode == old(self).context.decckm_mode,
                self.context.decom_mode == old(self).context.decom_mode,
                self.context.decawm_mode == old(self).context.decawm_mode,
                self.context.reverse_video_mode == old(self).context.reverse_video_mode,
                self.context.show_cursor == old(self).context.show_cursor,
                self.context.bracket_paste_mode == old(self).context.bracket_paste_mode,
                self.context.new_line_mode == old(self).context.new_line_mode,
                self.context.max_scroll_lines == old(self).context.max_scroll_lines,
                self.context.reply == old(self).context.reply,
                self.context.title_updates == old(self).context.title_updates,
                self.tokenizer == old(self).tokenizer,
                self.scroll_offset == old(self).scroll_offset,
                self.selection_start == old(self).selection_start,
                self.selection_end == old(self).selection_end,
                forall|i: int|
                    y <= i < rows ==> (#[trigger] self.context.scrollback_buffer@[i]) == old(
                        self,
                    ).context.scrollback_buffer@[i],
                forall|i: int|
                    0 <= i < y ==> (#[trigger] self.context.scrollback_buffer@[i])@ == Seq::new(
                        new_width as nat,
                        |x: int|
                            if x < old(self).context.scrollback_buffer@[i]@.len() {
                                old(self).context.scrollback_buffer@[i]@[x]
                            } else {
                                spec_default_cell()
                            },
                    ),
            decreases rows - y,
        {
            let ghost before = self.context.scrollback_buffer@[y as int]@;
            let row_len = self.context.scrollback_buffer[y].len();
            if row_len < new_width {
                let line: &mut Vec<TerminalCell> = &mut self.context.scrollback_buffer[y];
                line.resize(new_width, TerminalCell::default());
            } else if row_len > new_width {
                let line: &mut Vec<TerminalCell> = &mut self.context.scrollback_buffer[y];
                line.truncate(new_width);
            }
            proof {
                assert(self.context.scrollback_buffer@[y as int]@ =~= Seq::new(
                    new_width as nat,
                    |x: int|
                        if x < before.len() {
                            before[x]
                        } else {
                            spec_default_cell()
                        },
                ));
            }
            y += 1;
        }
    }

    /// The rows on display for the current scroll offset.
    pub fn get_visible_lines(&self) -> (r: Vec<Vec<TerminalCell>>)
        requires
            self.wf(),
            self@.scroll_offset + self@.ctx.buf.height <= usize::MAX,
        ensures
            rows_view(r@) == visible_lines_spec(self@.ctx, self@.scroll_offset),
    {
        let mut r: Vec<Vec<TerminalCell>> = Vec::new();
        if self.scroll_offset == 0 {
            let mut i: usize = 0;
            let h = self.context.buffer.height;
            while i < h
                invariant
                    self.wf(),
                    h == self@.ctx.buf.height,
                    i <= h,
                    r@.len() == i,
                    forall|j: int| 0 <= j < i ==> (#[trigger] r@[j])@ == self@.ctx.buf.grid[j],
                decreases h - i,
            {
                proof {
                    assert(self@.ctx.buf.grid[i as int] == self.context.buffer.cells@[i as int]@);
                }
                r.push(crate::parser::dispatcher::clone_row(&self.context.buffer.cells[i]));
                i += 1;
            }
            proof {
                assert(rows_view(r@) =~= self@.ctx.buf.grid);
            }
        } else {
            let h = self.context.buffer.height;
            let w = self.context.buffer.width;
            let sb = self.context.scrollback_buffer.len();
            let mut i: usize = 0;
            while i < h
                invariant
                    self.wf(),
                    h == self@.ctx.buf.height,
                    w == self@.ctx.buf.width,
                    sb == self@.ctx.scrollback.len(),
                    self@.scroll_offset > 0,
                    self@.scroll_offset + h <= usize::MAX,
                    i <= h,
                    r@.len() == i,
                    forall|j: int|
                        0 <= j < i ==> (#[trigger] r@[j])@ == visible_lines_spec(
                            self@.ctx,
                            self@.scroll_offset,
                        )[j],
                decreases h - i,
            {
                let from_bottom = self.scroll_offset + (h - 1 - i);
                let line = if from_bottom < h {
                    proof {
                        assert(self@.ctx.buf.grid[h - 1 - from_bottom]
                            == self.context.buffer.cells@[h - 1 - from_bottom]@);
                    }
                    crate::parser::dispatcher::clone_row(
                        &self.context.buffer.cells[h - 1 - from_bottom],
                    )
                } else {
                    let si = from_bottom - h;
                    if si < sb {
                        proof {
                            assert(self@.ctx.scrollback[sb - 1 - si]
                                == self.context.scrollback_buffer@[sb - 1 - si]@);
                        }
                        crate::parser::dispatcher::clone_row(
                            &self.context.scrollback_buffer[sb - 1 - si],
                        )
                    } else {
                        crate::terminal_buffer::default_row_vec(w)
                    }
                };
                proof {
                    assert(line@ == visible_lines_spec(self@.ctx, self@.scroll_offset)[i as int]);
                }
                r.push(line);
                i += 1;
            }
            proof {
                assert(rows_view(r@) =~= visible_lines_spec(self@.ctx, self@.scroll_offset));
            }
        }
        r
    }

    /// Scrolls the view by whole lines: positive counts scroll back into the
    /// history, clamped to its length; negative counts scroll towards the
    /// live screen.
    pub fn handle_scroll(&mut self, lines_to_scroll: i64)
        ensures
            final(self)@ == (WidgetView {
                scroll_offset: (if lines_to_scroll > 0 {
                    (if old(self)@.scroll_offset + lines_to_scroll
                        <= old(self)@.ctx.scrollback.len() {
                        (old(self)@.scroll_offset + lines_to_scroll) as nat
                    } else {
                        old(self)@.ctx.scrollback.len()
                    })
                } else {
                    (if old(self)@.scroll_offset + lines_to_scroll >= 0 {
                        (old(self)@.scroll_offset + lines_to_scroll) as nat
                    } else {
                        0nat
                    })
                }),
                ..old(self)@
            }),
    {
        if lines_to_scroll > 0 {
            let max_scroll = self.context.scrollback_buffer.len();
            let want = lines_to_scroll as u64;
            let grown = if want > usize::MAX as u64 - self.scroll_offset as u64 {
                usize::MAX
            } else {
                self.scroll_offset + want as usize
            };
            self.scroll_offset = if grown < max_scroll {
                grown
            } else {
                max_scroll
            };
            proof {
                assert(self@ =~= (WidgetView {
                    scroll_offset: (if old(self)@.scroll_offset + lines_to_scroll
                        <= old(self)@.ctx.scrollback.len() {
                        (old(self)@.scroll_offset + lines_to_scroll) as nat
                    } else {
                        old(self)@.ctx.scrollback.len()
                    }),
                    ..old(self)@
                }));
            }
        } else {
            let down: u64 = if lines_to_scroll == i64::MIN {
                9223372036854775808u64
            } else {
                (-lines_to_scroll) as u64
            };
            self.scroll_offset = if down > self.scroll_offset as u64 {
                0
            } else {
                self.scroll_offset - down as usize
            };
            proof {
                assert(self@ =~= (WidgetView {
                    scroll_offset: (if old(self)@.scroll_offset + lines_to_scroll >= 0 {
                        (old(self)@.scroll_offset + lines_to_scroll) as nat
                    } else {
                        0
                    }),
                    ..old(self)@
                }));
            }
        }
    }

    /// One page up into the history: a screenful less one row, clamped.
    pub fn page_up(&mut self)
        ensures
            final(self)@ == (WidgetView {
                scroll_offset: (if old(self)@.scroll_offset + (if old(self)@.ctx.buf.height > 0 {
                    old(self)@.ctx.buf.height - 1
                } else {
                    0
                }) <= old(self)@.ctx.scrollback.len() {
                    (old(self)@.scroll_offset + (if old(self)@.ctx.buf.height > 0 {
                        old(self)@.ctx.buf.height - 1
                    } else {
                        0
                    })) as nat
                } else {
                    old(self)@.ctx.scrollback.len()
                }),
                ..old(self)@
            }),
    {
        let amount = self.context.buffer.height.saturating_sub(1);
        let max_scroll = self.context.scrollback_buffer.len();
        let grown = if amount > usize::MAX - self.scroll_offset {
            usize::MAX
        } else {
            self.scroll_offset + amount
        };
        self.scroll_offset = if grown < max_scroll {
            grown
        } else {
            max_scroll
        };
        proof {
            assert(self@ =~= (WidgetView {
                scroll_offset: (if old(self)@.scroll_offset + (if old(self)@.ctx.buf.height > 0 {
                    old(self)@.ctx.buf.height - 1
                } else {
                    0
                }) <= old(self)@.ctx.scrollback.len() {
                    (old(self)@.scroll_offset + (if old(self)@.ctx.buf.height > 0 {
                        old(self)@.ctx.buf.height - 1
                    } else {
                        0
                    })) as nat
                } else {
                    old(self)@.ctx.scrollback.len()
                }),
                ..old(self)@
            }));
        }
    }

    /// One page down towards the live screen: a screenful less one row.
    pub fn page_down(&mut self)
        requires
            old(self)@.ctx.buf.height >= 1,
        ensures
            final(self)@ == (WidgetView {
                scroll_offset: (if old(self)@.scroll_offset >= old(self)@.ctx.buf.height - 1 {
                    (old(self)@.scroll_offset - (old(self)@.ctx.buf.height - 1)) as nat
                } else {
                    0
                }),
                ..old(self)@
            }),
    {
        let amount = self.context.buffer.height.saturating_sub(1);
        self.scroll_offset = self.scroll_offset.saturating_sub(amount);
        proof {
            assert(self@ =~= (WidgetView {
                scroll_offset: (if old(self)@.scroll_offset >= old(self)@.ctx.buf.height - 1 {
                    (old(self)@.scroll_offset - (old(self)@.ctx.buf.height - 1)) as nat
                } else {
                    0
                }),
                ..old(self)@
            }));
        }
    }

    /// To the oldest history row.
    pub fn scroll_to_top(&mut self)
        ensures
            final(self)@ == (WidgetView {
                scroll_offset: old(self)@.ctx.scrollback.len(),
                ..old(self)@
            }),
    {
        self.scroll_offset = self.context.scrollback_buffer.len();
        proof {
            assert(self@ =~= (WidgetView {
                scroll_offset: old(self)@.ctx.scrollback.len(),
                ..old(self)@
            }));
        }
    }

    /// Back to the live screen.
    pub fn scroll_to_bottom(&mut self)
        ensures
            final(self)@ == (WidgetView { scroll_offset: 0, ..old(self)@ }),
    {
        self.scroll_offset = 0;
        proof {
            assert(self@ =~= (WidgetView { scroll_offset: 0nat, ..old(self)@ }));
        }
    }

    /// The text the current selection covers, rows joined by newlines; `None`
    /// without a complete selection.
    pub fn selection_text(&self) -> (r: Option<String>)
        requires
            self.wf(),
            self@.scroll_offset + self@.ctx.buf.height <= usize::MAX,
        ensures
            ({
                match (self@.selection_start, self@.selection_end) {
                    (Some(s), Some(e)) => r matches Some(t) && t@ == sel_rows(
                        visible_lines_spec(self@.ctx, self@.scroll_offset),
                        spec_min(s.1 as nat, e.1 as nat) as int,
                        (if s.1 >= e.1 {
                            s.1 as int
                        } else {
                            e.1 as int
                        }),
                        spec_min(s.0 as nat, e.0 as nat) as int,
                        (if s.0 >= e.0 {
                            s.0 as int
                        } else {
                            e.0 as int
                        }),
                    ),
                    _ => r is None,
                }
            }),
    {
        let (s, e) = match (self.selection_start, self.selection_end) {
            (Some(s), Some(e)) => (s, e),
            _ => {
                return None;
            },
        };
        let r0 = if s.1 < e.1 {
            s.1
        } else {
            e.1
        };
        let r1 = if s.1 >= e.1 {
            s.1
        } else {
            e.1
        };
        let c0 = if s.0 < e.0 {
            s.0
        } else {
            e.0
        };
        let c1 = if s.0 >= e.0 {
            s.0
        } else {
            e.0
        };
        let lines = self.get_visible_lines();
        let ghost lv = rows_view(lines@);
        let mut out = String::new();
        let mut r: usize = r0;
        proof {
            assert(out@ + sel_rows(lv, r0 as int, r1 as int, c0 as int, c1 as int) =~= sel_rows(
                lv,
                r0 as int,
                r1 as int,
                c0 as int,
                c1 as int,
            ));
        }
        while r < r1
            invariant
                r0 <= r <= r1,
                c0 <= c1,
                lv == rows_view(lines@),
                out@ + sel_rows(lv, r as int, r1 as int, c0 as int, c1 as int) == sel_rows(
                    lv,
                    r0 as int,
                    r1 as int,
                    c0 as int,
                    c1 as int,
                ),
            decreases r1 - r,
        {
            let ghost row_prev = out@;
            sel_push_row(&mut out, &lines, r, c0, c1, Ghost(lv));
            crate::utf8::push_char(&mut out, '\n');
            proof {
                assert(out@ + sel_rows(lv, r + 1, r1 as int, c0 as int, c1 as int) =~= row_prev
                    + sel_rows(lv, r as int, r1 as int, c0 as int, c1 as int));
            }
            r += 1;
        }
        let ghost last_prev = out@;
        sel_push_row(&mut out, &lines, r1, c0, c1, Ghost(lv));
        proof {
            assert(sel_rows(lv, r1 + 1, r1 as int, c0 as int, c1 as int) =~= Seq::<char>::empty());
            assert(out@ + sel_rows(lv, r1 + 1, r1 as int, c0 as int, c1 as int) =~= last_prev
                + sel_rows(lv, r1 as int, r1 as int, c0 as int, c1 as int));
            assert(out@ =~= sel_rows(lv, r0 as int, r1 as int, c0 as int, c1 as int));
        }
        Some(out)
    }

    /// Turns a batch of input events into the bytes owed to the shell and the
    /// text a copy request selected.  Any produced input scrolls the view
    /// back to the live screen; a completed copy clears the selection.
    pub fn handle_input(&mut self, events: &Vec<InputEvent>) -> (r: (Vec<u8>, Option<String>))
        requires
            old(self).wf(),
            old(self)@.scroll_offset + old(self)@.ctx.buf.height <= usize::MAX,
        ensures
            r.0@ == input_bytes(
                events@.map_values(|e: InputEvent| e@),
                old(self)@.ctx.decckm,
                old(self)@.ctx.bracket_paste,
            ),
            final(self)@.ctx == old(self)@.ctx,
            final(self)@.pending == old(self)@.pending,
            final(self)@.scroll_offset == (if r.0@.len() > 0 {
                0nat
            } else {
                old(self)@.scroll_offset
            }),
            r.1 is Some <==> (has_copy(events@.map_values(|e: InputEvent| e@))
                && old(self)@.selection_start is Some && old(self)@.selection_end is Some),
            final(self)@.selection_start == (if r.1 is Some {
                Option::<(usize, usize)>::None
            } else {
                old(self)@.selection_start
            }),
            final(self)@.selection_end == (if r.1 is Some {
                Option::<(usize, usize)>::None
            } else {
                old(self)@.selection_end
            }),
            final(self).wf(),
    {
        let ghost ems = events@.map_values(|e: InputEvent| e@);
        let mut output: Vec<u8> = Vec::new();
        let mut text_to_copy: Option<String> = None;
        let decckm = self.context.decckm_mode;
        let bracket = self.context.bracket_paste_mode;
        let mut i: usize = 0;
        proof {
            assert(ems.skip(0) =~= ems);
        }
        while i < events.len()
            invariant
                i <= events@.len(),
                old(self)@.scroll_offset + old(self)@.ctx.buf.height <= usize::MAX,
                ems == events@.map_values(|e: InputEvent| e@),
                decckm == old(self)@.ctx.decckm,
                bracket == old(self)@.ctx.bracket_paste,
                self == old(self),
                self.wf(),
                output@ + input_bytes(ems.skip(i as int), decckm, bracket) == input_bytes(
                    ems,
                    decckm,
                    bracket,
                ),
                text_to_copy is Some <==> (has_copy(ems.take(i as int)) && self@.selection_start
                    is Some && self@.selection_end is Some),
            decreases events@.len() - i,
        {
            let ghost prev = output@;
            proof {
                assert(ems[i as int] == events@[i as int]@);
                assert(ems.skip(i as int).skip(1) =~= ems.skip(i + 1));
                assert(ems.take(i + 1).drop_last() =~= ems.take(i as int));
            }
            match &events[i] {
                InputEvent::Key(k, ctrl) => {
                    encode_key(&mut output, *k, *ctrl, decckm);
                },
                InputEvent::Text(t) => {
                    encode_text(&mut output, t.as_str(), decckm);
                },
                InputEvent::Paste(t) => {
                    encode_paste(&mut output, t.as_str(), bracket);
                },
                InputEvent::Copy => {
                    match self.selection_text() {
                        Some(t) => {
                            text_to_copy = Some(t);
                        },
                        None => {},
                    }
                },
            }
            proof {
                assert(output@ + input_bytes(ems.skip(i + 1), decckm, bracket) =~= prev
                    + input_bytes(ems.skip(i as int), decckm, bracket));
                if has_copy(ems.take(i + 1)) {
                    let j = choose|j: int|
                        0 <= j < ems.take(i + 1).len() && (#[trigger] ems.take(i + 1)[j]) is Copy;
                    assert(ems.take(i + 1)[j] == ems[j]);
                    if j < i {
                        assert(ems.take(i as int)[j] == ems[j]);
                        assert(has_copy(ems.take(i as int)));
                    }
                }
                if has_copy(ems.take(i as int)) {
                    let j = choose|j: int|
                        0 <= j < ems.take(i as int).len() && (#[trigger] ems.take(i as int)[j])
                            is Copy;
                    assert(ems.take(i as int)[j] == ems[j]);
                    assert(ems.take(i + 1)[j] == ems[j]);
                    assert(has_copy(ems.take(i + 1)));
                }
                if ems[i as int] is Copy {
                    assert(ems.take(i + 1)[i as int] is Copy);
                    assert(has_copy(ems.take(i + 1)));
                }
            }
            i += 1;
        }
        proof {
            assert(input_bytes(ems.skip(events@.len() as int), decckm, bracket) =~= Seq::<
                u8,
            >::empty());
            assert(ems.take(events@.len() as int) =~= ems);
        }
        if output.len() > 0 && self.scroll_offset > 0 {
            self.scroll_offset = 0;
        }
        if text_to_copy.is_some() {
            self.selection_start = None;
            self.selection_end = None;
        }
        (output, text_to_copy)
    }
}

/// Appends the selected cells of one row.
fn sel_push_row(
    out: &mut String,
    lines: &Vec<Vec<TerminalCell>>,
    r: usize,
    c0: usize,
    c1: usize,
    Ghost(lv): Ghost<Seq<Seq<TerminalCell>>>,
)
    requires
        lv == rows_view(lines@),
        c0 <= c1,
    ensures
        final(out)@ == old(out)@ + sel_row(lv, r as int, c0 as int, c1 as int),
{
    let mut c: usize = c0;
    while c < c1
        invariant
            c0 <= c <= c1,
            lv == rows_view(lines@),
            out@ + sel_row(lv, r as int, c as int, c1 as int) == old(out)@ + sel_row(
                lv,
                r as int,
                c0 as int,
                c1 as int,
            ),
        decreases c1 - c,
    {
        let ghost prev = out@;
        if r < lines.len() && c < lines[r].len() {
            let ch = lines[r][c].character;
            proof {
                assert(lv[r as int][c as int] == lines@[r as int]@[c as int]);
            }
            crate::utf8::push_char(out, ch);
        }
        proof {
            assert(out@ + sel_row(lv, r as int, c + 1, c1 as int) =~= prev + sel_row(
                lv,
                r as int,
                c as int,
                c1 as int,
            ));
        }
        c += 1;
    }
    let ghost prev = out@;
    if r < lines.len() && c1 < lines[r].len() {
        let ch = lines[r][c1].character;
        proof {
            assert(lv[r as int][c1 as int] == lines@[r as int]@[c1 as int]);
        }
        crate::utf8::push_char(out, ch);
    }
    proof {
        assert(sel_row(lv, r as int, c1 + 1, c1 as int) =~= Seq::<char>::empty());
        assert(out@ + sel_row(lv, r as int, c1 + 1, c1 as int) =~= prev + sel_row(
            lv,
            r as int,
            c1 as int,
            c1 as int,
        ));
        assert(out@ =~= old(out)@ + sel_row(lv, r as int, c0 as int, c1 as int));
    }
}

/// A fresh token value equal to the one stored at `i`.
fn clone_token(tokens: &Vec<SequenceToken>, i: usize) -> (r: SequenceToken)
    requires
        i < tokens@.len(),
    ensures
        r@ == tokens@[i as int]@,
{
    match &tokens[i] {
        SequenceToken::Csi(s) => SequenceToken::Csi(clone_string(s)),
        SequenceToken::Osc(s) => SequenceToken::Osc(clone_string(s)),
        SequenceToken::Dcs(s) => SequenceToken::Dcs(clone_string(s)),
        SequenceToken::VT100(s) => SequenceToken::VT100(clone_string(s)),
        SequenceToken::Sgr(s) => SequenceToken::Sgr(clone_string(s)),
        SequenceToken::Character(c) => SequenceToken::Character(*c),
        SequenceToken::ControlChar(b) => SequenceToken::ControlChar(*b),
    }
}

fn clone_string(s: &String) -> (r: String)
    ensures
        r@ == s@,
{
    s.clone()
}

} // verus!
