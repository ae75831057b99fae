//! The terminal screen buffer: a grid of styled cells, the cursor, the scroll
//! region and the current graphic-rendition state.

use vstd::prelude::*;

use crate::color::{transparent, white, Color};
use crate::terminal_cell::{spec_default_cell, TerminalCell};
use crate::width::{char_cols, display_width};

verus! {

/// The graphic-rendition attributes applied to newly written cells.
#[derive(Clone, Copy, Debug, PartialEq, Eq, Structural)]
pub struct SgrState {
    pub fg: Color,
    pub bg: Color,
    pub bold: bool,
    pub underline: bool,
    pub italic: bool,
    pub blink: bool,
    pub strikethrough: bool,
    pub hidden: bool,
}

/// The default rendition: white on transparent, no style flags.
pub open spec fn spec_default_sgr() -> SgrState {
    SgrState {
        fg: crate::color::spec_white(),
        bg: crate::color::spec_transparent(),
        bold: false,
        underline: false,
        italic: false,
        blink: false,
        strikethrough: false,
        hidden: false,
    }
}

#[verifier::when_used_as_spec(spec_default_sgr)]
pub fn default_sgr() -> (s: SgrState)
    ensures
        s == spec_default_sgr(),
{
    SgrState {
        fg: white(),
        bg: transparent(),
        bold: false,
        underline: false,
        italic: false,
        blink: false,
        strikethrough: false,
        hidden: false,
    }
}

/// A row of default cells.
pub open spec fn default_row(w: nat) -> Seq<TerminalCell> {
    Seq::new(w, |i: int| spec_default_cell())
}

/// A grid of default cells.
pub open spec fn cleared_grid(w: nat, h: nat) -> Seq<Seq<TerminalCell>> {
    Seq::new(h, |y: int| default_row(w))
}

pub open spec fn spec_min(a: nat, b: nat) -> nat {
    if a <= b {
        a
    } else {
        b
    }
}

/// The mathematical state of a terminal buffer.
#[verifier::ext_equal]
pub struct BufView {
    pub grid: Seq<Seq<TerminalCell>>,
    pub width: nat,
    pub height: nat,
    pub cursor_x: nat,
    pub cursor_y: nat,
    pub region_top: nat,
    pub region_bottom: nat,
    pub sgr: SgrState,
    pub saved_x: nat,
    pub saved_y: nat,
}

impl BufView {
    /// The grid is a width x height rectangle of at least one column and one
    /// row, and the scroll region is a valid row range starting at the top.
    pub open spec fn grid_wf(self) -> bool {
        &&& 1 <= self.width
        &&& 1 <= self.height
        &&& self.grid.len() == self.height
        &&& (forall|y: int| 0 <= y < self.grid.len() ==> (#[trigger] self.grid[y]).len()
            == self.width)
        &&& self.region_top == 0
        &&& self.region_bottom < self.height
    }

    /// Well-formedness: a well-formed grid with the cursor inside it.
    pub open spec fn wf(self) -> bool {
        &&& self.grid_wf()
        &&& self.cursor_x < self.width
        &&& self.cursor_y < self.height
    }

    /// A fresh buffer: all cells default, cursor at the origin, scroll region
    /// covering the whole screen, default rendition.
    pub open spec fn fresh(w: nat, h: nat) -> BufView {
        BufView {
            grid: cleared_grid(w, h),
            width: w,
            height: h,
            cursor_x: 0,
            cursor_y: 0,
            region_top: 0,
            region_bottom: (h - 1) as nat,
            sgr: spec_default_sgr(),
            saved_x: 0,
            saved_y: 0,
        }
    }

    /// The cell that writing `ch` now would produce: the character styled with
    /// the current rendition.
    pub open spec fn make_cell(self, ch: char) -> TerminalCell {
        TerminalCell {
            character: ch,
            fg_color: self.sgr.fg,
            bg_color: self.sgr.bg,
            bold: self.sgr.bold,
            underline: self.sgr.underline,
            italic: self.sgr.italic,
            blink: self.sgr.blink,
            strikethrough: self.sgr.strikethrough,
            hidden: self.sgr.hidden,
            wide_tail: false,
        }
    }

    /// Writing one character at the cursor: zero-width characters are skipped;
    /// a double-width character fills the cursor cell and marks the next cell
    /// as its tail; the cursor advances, stopping at the last column.
    pub open spec fn put_char(self, ch: char) -> BufView {
        let w = char_cols(ch);
        if w == 0 || self.cursor_y >= self.height {
            self
        } else {
            let next_x = spec_min((self.cursor_x + 1) as nat, (self.width - 1) as nat);
            if w > 1 {
                let head = self.make_cell(ch);
                let tail = TerminalCell { wide_tail: true, ..self.make_cell(ch) };
                let row = self.grid[self.cursor_y as int].update(
                    self.cursor_x as int,
                    head,
                ).update(next_x as int, tail);
                BufView {
                    grid: self.grid.update(self.cursor_y as int, row),
                    cursor_x: spec_min((self.cursor_x + 2) as nat, (self.width - 1) as nat),
                    ..self
                }
            } else {
                let row = self.grid[self.cursor_y as int].update(
                    self.cursor_x as int,
                    self.make_cell(ch),
                );
                BufView {
                    grid: self.grid.update(self.cursor_y as int, row),
                    cursor_x: next_x,
                    ..self
                }
            }
        }
    }

    /// Scrolling the region up one row: rows shift towards the top, and the
    /// bottom row of the region becomes a default row.
    pub open spec fn scroll_up(self) -> BufView {
        BufView {
            grid: Seq::new(
                self.grid.len(),
                |y: int|
                    if self.region_top <= y < self.region_bottom {
                        self.grid[y + 1]
                    } else if y == self.region_bottom {
                        default_row(self.width)
                    } else {
                        self.grid[y]
                    },
            ),
            ..self
        }
    }

    /// A line feed: with new-line mode the column resets first; the cursor
    /// moves one row down, scrolling the region when it would leave it.
    pub open spec fn new_line(self, lmn_mode: bool) -> BufView {
        let b = if lmn_mode {
            BufView { cursor_x: 0, ..self }
        } else {
            self
        };
        let b2 = BufView { cursor_y: (b.cursor_y + 1) as nat, ..b };
        if b2.cursor_y > b2.region_bottom {
            BufView { cursor_y: b2.region_bottom, ..b2.scroll_up() }
        } else {
            b2
        }
    }

    /// A backspace: when not at the first column, the cursor moves one cell
    /// left and that cell is cleared.
    pub open spec fn backspace(self) -> BufView {
        if self.cursor_x > 0 {
            let nx = (self.cursor_x - 1) as nat;
            let row = self.grid[self.cursor_y as int].update(nx as int, spec_default_cell());
            BufView { cursor_x: nx, grid: self.grid.update(self.cursor_y as int, row), ..self }
        } else {
            self
        }
    }

    /// Clearing the whole screen: every cell becomes the default cell and the
    /// cursor homes.
    pub open spec fn clear_screen(self) -> BufView {
        BufView {
            grid: Seq::new(self.grid.len(), |y: int| default_row(self.grid[y].len())),
            cursor_x: 0,
            cursor_y: 0,
            ..self
        }
    }

    /// Clearing a range: rows from the start row to the end row have their
    /// cells from the start column to the end column defaulted.  `None` stands
    /// for the screen corner on that side; coordinates clamp to the grid.
    pub open spec fn clear_range(
        self,
        start_pos: Option<(usize, usize)>,
        end_pos: Option<(usize, usize)>,
    ) -> BufView {
        let start_x = (match start_pos {
            Some(p) => p.0 as int,
            None => 0,
        });
        let start_y = (match start_pos {
            Some(p) => p.1 as int,
            None => 0,
        });
        let end_x = (match end_pos {
            Some(p) => p.0 as int,
            None => self.width - 1,
        });
        let end_y = (match end_pos {
            Some(p) => p.1 as int,
            None => self.height - 1,
        });
        let y_lo = if start_y <= self.height {
            start_y
        } else {
            self.height as int
        };
        let y_hi = if end_y <= self.height - 1 {
            end_y
        } else {
            self.height - 1
        };
        let x_lo = if start_x <= self.width {
            start_x
        } else {
            self.width as int
        };
        let x_hi = if end_x <= self.width - 1 {
            end_x
        } else {
            self.width - 1
        };
        BufView {
            grid: Seq::new(
                self.grid.len(),
                |y: int|
                    if y_lo <= y <= y_hi && x_lo <= x_hi {
                        Seq::new(
                            self.grid[y].len(),
                            |x: int|
                                if x_lo <= x <= x_hi {
                                    spec_default_cell()
                                } else {
                                    self.grid[y][x]
                                },
                        )
                    } else {
                        self.grid[y]
                    },
            ),
            ..self
        }
    }

    /// Moving the cursor: both coordinates clamp into the grid.
    pub open spec fn move_cursor(self, x: usize, y: usize) -> BufView {
        BufView {
            cursor_x: spec_min(x as nat, (self.width - 1) as nat),
            cursor_y: spec_min(y as nat, (self.height - 1) as nat),
            ..self
        }
    }

    /// A carriage return: the cursor returns to the first column.
    pub open spec fn carriage_return(self) -> BufView {
        BufView { cursor_x: 0, ..self }
    }

    /// Resizing: cells at coordinates that survive keep their contents, new
    /// cells are default, the cursor reclamps, and the scroll region bottom
    /// returns to the last row.
    pub open spec fn resize(self, w: nat, h: nat) -> BufView {
        BufView {
            grid: Seq::new(
                h,
                |y: int|
                    Seq::new(
                        w,
                        |x: int|
                            if y < self.grid.len() && x < self.grid[y].len() {
                                self.grid[y][x]
                            } else {
                                spec_default_cell()
                            },
                    ),
            ),
            width: w,
            height: h,
            cursor_x: spec_min(self.cursor_x, (w - 1) as nat),
            cursor_y: spec_min(self.cursor_y, (h - 1) as nat),
            region_bottom: (h - 1) as nat,
            ..self
        }
    }
}

/// The screen buffer: a `width` x `height` grid of cells, the cursor, the
/// saved cursor, the scroll region and the current rendition.
pub struct TerminalBuffer {
    pub cells: Vec<Vec<TerminalCell>>,
    pub width: usize,
    pub height: usize,
    pub cursor_x: usize,
    pub cursor_y: usize,
    pub scroll_region_top: usize,
    pub scroll_region_bottom: usize,
    pub current_fg_color: Color,
    pub current_bg_color: Color,
    pub current_bold: bool,
    pub current_underline: bool,
    pub current_italic: bool,
    pub current_blink: bool,
    pub current_strikethrough: bool,
    pub current_hidden: bool,
    pub saved_cursor_x: usize,
    pub saved_cursor_y: usize,
}

impl View for TerminalBuffer {
    type V = BufView;

    open spec fn view(&self) -> BufView {
        BufView {
            grid: Seq::new(self.cells@.len(), |y: int| self.cells@[y]@),
            width: self.width as nat,
            height: self.height as nat,
            cursor_x: self.cursor_x as nat,
            cursor_y: self.cursor_y as nat,
            region_top: self.scroll_region_top as nat,
            region_bottom: self.scroll_region_bottom as nat,
            sgr: SgrState {
                fg: self.current_fg_color,
                bg: self.current_bg_color,
                bold: self.current_bold,
                underline: self.current_underline,
                italic: self.current_italic,
                blink: self.current_blink,
                strikethrough: self.current_strikethrough,
                hidden: self.current_hidden,
            },
            saved_x: self.saved_cursor_x as nat,
            saved_y: self.saved_cursor_y as nat,
        }
    }
}

/// A freshly allocated row of default cells.
pub fn default_row_vec(width: usize) -> (r: Vec<TerminalCell>)
    ensures
        r@ == default_row(width as nat),
{
    let mut r: Vec<TerminalCell> = Vec::new();
    let mut i: usize = 0;
    while i < width
        invariant
            i <= width,
            r@.len() == i,
            forall|j: int| 0 <= j < i ==> r@[j] == spec_default_cell(),
        decreases width - i,
    {
        r.push(TerminalCell::default());
        i += 1;
    }
    proof {
        assert(r@ =~= default_row(width as nat));
    }
    r
}

impl TerminalBuffer {
    pub open spec fn wf(&self) -> bool {
        self@.wf()
    }

    /// A fresh buffer of the given size.
    pub fn new(width: usize, height: usize) -> (r: TerminalBuffer)
        requires
            1 <= width,
            1 <= height,
        ensures
            r@ == BufView::fresh(width as nat, height as nat),
            r.wf(),
    {
        let mut cells: Vec<Vec<TerminalCell>> = Vec::new();
        let mut i: usize = 0;
        while i < height
            invariant
                i <= height,
                cells@.len() == i,
                forall|y: int| 0 <= y < i ==> (#[trigger] cells@[y])@ == default_row(width as nat),
            decreases height - i,
        {
            cells.push(default_row_vec(width));
            i += 1;
        }
        let r = TerminalBuffer {
            cells,
            width,
            height,
            cursor_x: 0,
            cursor_y: 0,
            scroll_region_top: 0,
            scroll_region_bottom: height - 1,
            current_fg_color: white(),
            current_bg_color: transparent(),
            current_bold: false,
            current_underline: false,
            current_italic: false,
            current_blink: false,
            current_strikethrough: false,
            current_hidden: false,
            saved_cursor_x: 0,
            saved_cursor_y: 0,
        };
        proof {
            assert(r@.grid =~~= cleared_grid(width as nat, height as nat));
            assert(r@ =~~= BufView::fresh(width as nat, height as nat));
        }
        r
    }

    /// The cell that writing `ch` now would produce.
    pub fn make_cell(&self, ch: char) -> (c: TerminalCell)
        ensures
            c == self@.make_cell(ch),
    {
        TerminalCell {
            character: ch,
            fg_color: self.current_fg_color,
            bg_color: self.current_bg_color,
            bold: self.current_bold,
            underline: self.current_underline,
            italic: self.current_italic,
            blink: self.current_blink,
            strikethrough: self.current_strikethrough,
            hidden: self.current_hidden,
            wide_tail: false,
        }
    }

    /// Grows or truncates the grid to the new size, keeping the cells that
    /// survive, reclamping the cursor, and resetting the scroll region bottom.
    pub fn resize(&mut self, new_width: usize, new_height: usize)
        requires
            old(self).wf(),
            1 <= new_width,
            1 <= new_height,
        ensures
            final(self)@ == old(self)@.resize(new_width as nat, new_height as nat),
            final(self).wf(),
    {
        self.width = new_width;
        self.height = new_height;

        if self.cells.len() < new_height {
            while self.cells.len() < new_height
                invariant
                    self.cells@.len() <= new_height,
                    old(self).cells@.len() <= self.cells@.len(),
                    forall|y: int|
                        0 <= y < old(self).cells@.len() ==> (#[trigger] self.cells@[y])
                            == old(self).cells@[y],
                    forall|y: int|
                        old(self).cells@.len() <= y < self.cells@.len() ==> (
                        #[trigger] self.cells@[y])@ == default_row(new_width as nat),
                    self.width == new_width,
                    self.height == new_height,
                    self.cursor_x == old(self).cursor_x,
                    self.cursor_y == old(self).cursor_y,
                    self.scroll_region_top == old(self).scroll_region_top,
                    self.scroll_region_bottom == old(self).scroll_region_bottom,
                    self.current_fg_color == old(self).current_fg_color,
                    self.current_bg_color == old(self).current_bg_color,
                    self.current_bold == old(self).current_bold,
                    self.current_underline == old(self).current_underline,
                    self.current_italic == old(self).current_italic,
                    self.current_blink == old(self).current_blink,
                    self.current_strikethrough == old(self).current_strikethrough,
                    self.current_hidden == old(self).current_hidden,
                    self.saved_cursor_x == old(self).saved_cursor_x,
                    self.saved_cursor_y == old(self).saved_cursor_y,
                decreases new_height - self.cells@.len(),
            {
                self.cells.push(default_row_vec(new_width));
            }
        } else if self.cells.len() > new_height {
            self.cells.truncate(new_height);
        }

        let ghost grown = self.cells@;
        let mut y: usize = 0;
        while y < self.cells.len()
            invariant
                self.cells@.len() == grown.len(),
                y <= self.cells@.len(),
                forall|i: int| y <= i < grown.len() ==> #[trigger] self.cells@[i] == grown[i],
                forall|i: int|
                    0 <= i < y ==> (#[trigger] self.cells@[i])@ == Seq::new(
                        new_width as nat,
                        |x: int|
                            if x < grown[i]@.len() {
                                grown[i]@[x]
                            } else {
                                spec_default_cell()
                            },
                    ),
                self.width == new_width,
                self.height == new_height,
                self.cursor_x == old(self).cursor_x,
                self.cursor_y == old(self).cursor_y,
                self.scroll_region_top == old(self).scroll_region_top,
                self.scroll_region_bottom == old(self).scroll_region_bottom,
                self.current_fg_color == old(self).current_fg_color,
                self.current_bg_color == old(self).current_bg_color,
                self.current_bold == old(self).current_bold,
                self.current_underline == old(self).current_underline,
                self.current_italic == old(self).current_italic,
                self.current_blink == old(self).current_blink,
                self.current_strikethrough == old(self).current_strikethrough,
                self.current_hidden == old(self).current_hidden,
                self.saved_cursor_x == old(self).saved_cursor_x,
                self.saved_cursor_y == old(self).saved_cursor_y,
            decreases self.cells@.len() - y,
        {
            let ghost before = self.cells@[y as int]@;
            let row_len = self.cells[y].len();
            if row_len < new_width {
                let row: &mut Vec<TerminalCell> = &mut self.cells[y];
                row.resize(new_width, TerminalCell::default());
            } else if row_len > new_width {
                let row: &mut Vec<TerminalCell> = &mut self.cells[y];
                row.truncate(new_width);
            }
            proof {
                assert(self.cells@[y as int]@ =~= Seq::new(
                    new_width as nat,
                    |x: int|
                        if x < before.len() {
                            before[x]
                        } else {
                            spec_default_cell()
                        },
                ));
            }
            y += 1;
        }

        self.cursor_x = if self.cursor_x < new_width - 1 {
            self.cursor_x
        } else {
            new_width - 1
        };
        self.cursor_y = if self.cursor_y < new_height - 1 {
            self.cursor_y
        } else {
            new_height - 1
        };
        self.scroll_region_bottom = new_height - 1;

        proof {
            assert(self@.grid =~~= old(self)@.resize(new_width as nat, new_height as nat).grid);
            assert(self@ =~~= old(self)@.resize(new_width as nat, new_height as nat));
        }
    }

    /// Writes one character at the cursor with the current rendition.
    pub fn put_char(&mut self, ch: char)
        requires
            old(self).wf(),
        ensures
            final(self)@ == old(self)@.put_char(ch),
            final(self).wf(),
    {
        let w = display_width(ch);
        if w == 0 {
            return ;
        }
        if self.cursor_y < self.height {
            let next_cursor_x = if self.cursor_x + 1 < self.width - 1 {
                self.cursor_x + 1
            } else {
                self.width - 1
            };
            proof {
                assert(self@.grid[self.cursor_y as int].len() == self@.width);
                assert(self@.grid[self.cursor_y as int] == self.cells@[self.cursor_y as int]@);
            }
            if w > 1 {
                let head = self.make_cell(ch);
                let mut tail = self.make_cell(ch);
                tail.wide_tail = true;
                let cursor_x = self.cursor_x;
                let cursor_y = self.cursor_y;
                let row: &mut Vec<TerminalCell> = &mut self.cells[cursor_y];
                row[cursor_x] = head;
                row[next_cursor_x] = tail;
                self.cursor_x = if self.width - 1 <= self.cursor_x + 1 {
                    self.width - 1
                } else {
                    self.cursor_x + 2
                };
            } else {
                let cell = self.make_cell(ch);
                let cursor_x = self.cursor_x;
                let cursor_y = self.cursor_y;
                let row: &mut Vec<TerminalCell> = &mut self.cells[cursor_y];
                row[cursor_x] = cell;
                self.cursor_x = next_cursor_x;
            }
            proof {
                assert(self@.grid =~~= old(self)@.put_char(ch).grid);
                assert(self@ =~~= old(self)@.put_char(ch));
            }
        }
    }

    /// Moves the cursor one row down, scrolling the region if needed; with
    /// new-line mode set the column also returns to 0.
    pub fn new_line(&mut self, lmn_mode: bool)
        requires
            old(self).wf(),
        ensures
            final(self)@ == old(self)@.new_line(lmn_mode),
            final(self).wf(),
    {
        if lmn_mode {
            self.cursor_x = 0;
        }
        self.cursor_y = self.cursor_y + 1;
        if self.cursor_y > self.scroll_region_bottom {
            self.scroll_up();
            self.cursor_y = self.scroll_region_bottom;
        }
        proof {
            assert(self@ =~~= old(self)@.new_line(lmn_mode));
        }
    }

    /// Moves the cursor one cell left and clears that cell, when not at the
    /// first column.
    pub fn backspace(&mut self)
        requires
            old(self).wf(),
        ensures
            final(self)@ == old(self)@.backspace(),
            final(self).wf(),
    {
        if self.cursor_x > 0 {
            self.cursor_x = self.cursor_x - 1;
            let cursor_x = self.cursor_x;
            let cursor_y = self.cursor_y;
            proof {
                assert(old(self)@.grid[cursor_y as int].len() == old(self)@.width);
                assert(old(self)@.grid[cursor_y as int] == self.cells@[cursor_y as int]@);
            }
            let row: &mut Vec<TerminalCell> = &mut self.cells[cursor_y];
            row[cursor_x] = TerminalCell::default();
        }
        proof {
            assert(self@.grid =~~= old(self)@.backspace().grid);
            assert(self@ =~~= old(self)@.backspace());
        }
    }

    /// Shifts the scroll region up one row and clears its bottom row.  The
    /// cursor is left untouched, so this is callable while the cursor sits
    /// one row past the region during a line feed.
    pub fn scroll_up(&mut self)
        requires
            old(self)@.grid_wf(),
        ensures
            final(self)@ == old(self)@.scroll_up(),
            final(self)@.grid_wf(),
    {
        let mut y: usize = self.scroll_region_top;
        while y < self.scroll_region_bottom
            invariant
                old(self)@.grid_wf(),
                self.scroll_region_top <= y <= self.scroll_region_bottom,
                self.width == old(self).width,
                self.height == old(self).height,
                self.cursor_x == old(self).cursor_x,
                self.cursor_y == old(self).cursor_y,
                self.scroll_region_top == old(self).scroll_region_top,
                self.scroll_region_bottom == old(self).scroll_region_bottom,
                self.current_fg_color == old(self).current_fg_color,
                self.current_bg_color == old(self).current_bg_color,
                self.current_bold == old(self).current_bold,
                self.current_underline == old(self).current_underline,
                self.current_italic == old(self).current_italic,
                self.current_blink == old(self).current_blink,
                self.current_strikethrough == old(self).current_strikethrough,
                self.current_hidden == old(self).current_hidden,
                self.saved_cursor_x == old(self).saved_cursor_x,
                self.saved_cursor_y == old(self).saved_cursor_y,
                self.cells@.len() == old(self).cells@.len(),
                forall|i: int|
                    self.scroll_region_top <= i < y ==> (#[trigger] self.cells@[i])@
                        == old(self).cells@[i + 1]@,
                forall|i: int|
                    (0 <= i < self.scroll_region_top || y <= i < self.cells@.len()) ==> (
                    #[trigger] self.cells@[i]) == old(self).cells@[i],
            decreases self.scroll_region_bottom - y,
        {
            let next = self.cells[y + 1].clone();
            proof {
                assert(next@ =~= old(self).cells@[y as int + 1]@);
            }
            self.cells[y] = next;
            y += 1;
        }
        let bottom = self.scroll_region_bottom;
        let w = self.width;
        self.cells[bottom] = default_row_vec(w);
        proof {
            assert(self@.grid =~~= old(self)@.scroll_up().grid);
            assert(self@ =~~= old(self)@.scroll_up());
        }
    }

    /// Clears every cell and homes the cursor.
    pub fn clear_screen(&mut self)
        requires
            old(self).wf(),
        ensures
            final(self)@ == old(self)@.clear_screen(),
            final(self).wf(),
    {
        let mut y: usize = 0;
        while y < self.cells.len()
            invariant
                y <= self.cells@.len(),
                self.cells@.len() == old(self).cells@.len(),
                self.width == old(self).width,
                self.height == old(self).height,
                self.cursor_x == old(self).cursor_x,
                self.cursor_y == old(self).cursor_y,
                self.scroll_region_top == old(self).scroll_region_top,
                self.scroll_region_bottom == old(self).scroll_region_bottom,
                self.current_fg_color == old(self).current_fg_color,
                self.current_bg_color == old(self).current_bg_color,
                self.current_bold == old(self).current_bold,
                self.current_underline == old(self).current_underline,
                self.current_italic == old(self).current_italic,
                self.current_blink == old(self).current_blink,
                self.current_strikethrough == old(self).current_strikethrough,
                self.current_hidden == old(self).current_hidden,
                self.saved_cursor_x == old(self).saved_cursor_x,
                self.saved_cursor_y == old(self).saved_cursor_y,
                forall|i: int|
                    0 <= i < y ==> (#[trigger] self.cells@[i])@ == default_row(
                        old(self).cells@[i]@.len(),
                    ),
                forall|i: int|
                    y <= i < self.cells@.len() ==> (#[trigger] self.cells@[i])
                        == old(self).cells@[i],
            decreases self.cells@.len() - y,
        {
            let len = self.cells[y].len();
            self.cells[y] = default_row_vec(len);
            y += 1;
        }
        self.cursor_x = 0;
        self.cursor_y = 0;
        proof {
            assert(self@.grid =~~= old(self)@.clear_screen().grid);
            assert(self@ =~~= old(self)@.clear_screen());
        }
    }

    /// Clears the cells between the two positions, row range by column range;
    /// `None` stands for the corner of the screen on that side.
    pub fn clear_range(
        &mut self,
        start_pos: Option<(usize, usize)>,
        end_pos: Option<(usize, usize)>,
    )
        requires
            old(self).wf(),
        ensures
            final(self)@ == old(self)@.clear_range(start_pos, end_pos),
            final(self).wf(),
    {
        let start_x = match start_pos {
            Some(p) => p.0,
            None => 0,
        };
        let start_y = match start_pos {
            Some(p) => p.1,
            None => 0,
        };
        let end_x = match end_pos {
            Some(p) => p.0,
            None => self.width - 1,
        };
        let end_y = match end_pos {
            Some(p) => p.1,
            None => self.height - 1,
        };

        let y_lo = if start_y < self.height {
            start_y
        } else {
            self.height
        };
        let y_hi = if end_y < self.height - 1 {
            end_y
        } else {
            self.height - 1
        };
        let x_lo = if start_x < self.width {
            start_x
        } else {
            self.width
        };
        let x_hi = if end_x < self.width - 1 {
            end_x
        } else {
            self.width - 1
        };

        if x_lo <= x_hi {
            let mut y: usize = y_lo;
            while y <= y_hi
                invariant
                    old(self).wf(),
                    y_lo <= y,
                    y <= y_hi + 1 || y == y_lo,
                    y_hi < self.cells@.len(),
                    x_lo <= x_hi < self.width,
                    self.cells@.len() == old(self).cells@.len(),
                    self.width == old(self).width,
                    self.height == old(self).height,
                    self.cursor_x == old(self).cursor_x,
                    self.cursor_y == old(self).cursor_y,
                    self.scroll_region_top == old(self).scroll_region_top,
                    self.scroll_region_bottom == old(self).scroll_region_bottom,
                    self.current_fg_color == old(self).current_fg_color,
                    self.current_bg_color == old(self).current_bg_color,
                    self.current_bold == old(self).current_bold,
                    self.current_underline == old(self).current_underline,
                    self.current_italic == old(self).current_italic,
                    self.current_blink == old(self).current_blink,
                    self.current_strikethrough == old(self).current_strikethrough,
                    self.current_hidden == old(self).current_hidden,
                    self.saved_cursor_x == old(self).saved_cursor_x,
                    self.saved_cursor_y == old(self).saved_cursor_y,
                    forall|i: int|
                        y_lo <= i < y ==> (#[trigger] self.cells@[i])@ == Seq::new(
                            old(self).cells@[i]@.len(),
                            |x: int|
                                if x_lo <= x <= x_hi {
                                    spec_default_cell()
                                } else {
                                    old(self).cells@[i]@[x]
                                },
                        ),
                    forall|i: int|
                        (0 <= i < y_lo || y <= i < self.cells@.len()) ==> (
                        #[trigger] self.cells@[i]) == old(self).cells@[i],
                decreases y_hi + 1 - y,
            {
                let ghost before = self.cells@[y as int]@;
                let ghost rows_snapshot = self.cells@;
                proof {
                    assert(self.cells@[y as int] == old(self).cells@[y as int]);
                    assert(old(self)@.grid[y as int].len() == old(self)@.width);
                    assert(old(self)@.grid[y as int] == old(self).cells@[y as int]@);
                    assert(before.len() == old(self)@.width);
                }
                let mut x: usize = x_lo;
                while x <= x_hi
                    invariant
                        x_lo <= x,
                        x <= x_hi + 1,
                        y_lo <= y <= y_hi,
                        y_hi < self.cells@.len(),
                        x_hi < before.len(),
                        x_hi < self.width,
                        self.cells@.len() == rows_snapshot.len(),
                        self.cells@[y as int]@.len() == before.len(),
                        forall|j: int|
                            x_lo <= j < x ==> (#[trigger] self.cells@[y as int]@[j])
                                == spec_default_cell(),
                        forall|j: int|
                            (0 <= j < x_lo || x <= j < before.len()) ==> (
                            #[trigger] self.cells@[y as int]@[j]) == before[j],
                        forall|i: int|
                            (0 <= i < self.cells@.len() && i != y) ==> (#[trigger] self.cells@[i])
                                == rows_snapshot[i],
                        self.width == old(self).width,
                        self.height == old(self).height,
                        self.cursor_x == old(self).cursor_x,
                        self.cursor_y == old(self).cursor_y,
                        self.scroll_region_top == old(self).scroll_region_top,
                        self.scroll_region_bottom == old(self).scroll_region_bottom,
                        self.current_fg_color == old(self).current_fg_color,
                        self.current_bg_color == old(self).current_bg_color,
                        self.current_bold == old(self).current_bold,
                        self.current_underline == old(self).current_underline,
                        self.current_italic == old(self).current_italic,
                        self.current_blink == old(self).current_blink,
                        self.current_strikethrough == old(self).current_strikethrough,
                        self.current_hidden == old(self).current_hidden,
                        self.saved_cursor_x == old(self).saved_cursor_x,
                        self.saved_cursor_y == old(self).saved_cursor_y,
                    decreases x_hi + 1 - x,
                {
                    let yy = y;
                    let row: &mut Vec<TerminalCell> = &mut self.cells[yy];
                    row[x] = TerminalCell::default();
                    x += 1;
                }
                proof {
                    assert(self.cells@[y as int]@ =~= Seq::new(
                        before.len(),
                        |j: int|
                            if x_lo <= j <= x_hi {
                                spec_default_cell()
                            } else {
                                before[j]
                            },
                    ));
                }
                y += 1;
            }
        }
        proof {
            let target = old(self)@.clear_range(start_pos, end_pos);
            assert forall|i: int| 0 <= i < old(self).cells@.len() implies old(self)@.grid[i]
                == old(self).cells@[i]@ by {}
            assert forall|i: int| 0 <= i < self.cells@.len() implies self@.grid[i]
                == self.cells@[i]@ by {}
            assert forall|i: int| 0 <= i < self.cells@.len() implies self@.grid[i]
                =~= target.grid[i] by {
                assert(old(self)@.grid[i] == old(self).cells@[i]@);
                assert(self@.grid[i] == self.cells@[i]@);
            }
            assert(self@.grid =~~= target.grid);
            assert(self@ =~~= target);
        }
    }

    /// Moves the cursor to the given position, clamped into the grid: the
    /// resulting cursor always lies within `[0, width)` x `[0, height)`.
    pub fn move_cursor(&mut self, x: usize, y: usize)
        requires
            old(self).wf(),
        ensures
            final(self)@ == old(self)@.move_cursor(x, y),
            final(self).wf(),
            final(self).cursor_x < final(self).width,
            final(self).cursor_y < final(self).height,
    {
        self.cursor_x = if x < self.width - 1 {
            x
        } else {
            self.width - 1
        };
        self.cursor_y = if y < self.height - 1 {
            y
        } else {
            self.height - 1
        };
        proof {
            assert(self@ =~~= old(self)@.move_cursor(x, y));
        }
    }

    /// Returns the cursor to the first column.
    pub fn carriage_return(&mut self)
        requires
            old(self).wf(),
        ensures
            final(self)@ == old(self)@.carriage_return(),
            final(self).wf(),
    {
        self.cursor_x = 0;
        proof {
            assert(self@ =~~= old(self)@.carriage_return());
        }
    }
}

} // verus!
