//! The screen buffer: cursor clamping, resizing, and editing.

use explotty::color;
use explotty::terminal_buffer::TerminalBuffer;
use explotty::terminal_cell::TerminalCell;

#[test]
fn cursor_clamps_into_grid() {
    let mut b = TerminalBuffer::new(80, 24);
    b.move_cursor(1000, 1000);
    assert_eq!((b.cursor_x, b.cursor_y), (79, 23));
    b.move_cursor(0, 0);
    assert_eq!((b.cursor_x, b.cursor_y), (0, 0));
    b.move_cursor(79, 24);
    assert_eq!((b.cursor_x, b.cursor_y), (79, 23));
    let mut small = TerminalBuffer::new(1, 1);
    small.move_cursor(usize::MAX, usize::MAX);
    assert_eq!((small.cursor_x, small.cursor_y), (0, 0));
}

#[test]
fn resize_preserves_surviving_content() {
    let mut b = TerminalBuffer::new(4, 2);
    b.put_char('a');
    b.put_char('b');
    b.put_char('c');
    let before: Vec<char> = b.cells[0].iter().map(|c| c.character).collect();
    assert_eq!(before, vec!['a', 'b', 'c', ' ']);

    // Shrinking the width truncates trailing columns.
    b.resize(2, 2);
    let row: Vec<char> = b.cells[0].iter().map(|c| c.character).collect();
    assert_eq!(row, vec!['a', 'b']);
    assert_eq!(b.scroll_region_bottom, 1);

    // Growing pads with default cells and keeps the rest byte for byte.
    b.resize(5, 3);
    let row: Vec<char> = b.cells[0].iter().map(|c| c.character).collect();
    assert_eq!(row, vec!['a', 'b', ' ', ' ', ' ']);
    assert_eq!(b.cells[0][2], TerminalCell::default());
    assert_eq!(b.cells.len(), 3);
    assert_eq!(b.cells[2].len(), 5);
    assert_eq!(b.scroll_region_bottom, 2);
}

#[test]
fn resize_reclamps_cursor() {
    let mut b = TerminalBuffer::new(80, 24);
    b.move_cursor(70, 20);
    b.resize(10, 5);
    assert_eq!((b.cursor_x, b.cursor_y), (9, 4));
}

#[test]
fn put_char_styles_and_advances() {
    let mut b = TerminalBuffer::new(3, 1);
    b.current_fg_color = color::red();
    b.put_char('x');
    assert_eq!(b.cells[0][0].character, 'x');
    assert_eq!(b.cells[0][0].fg_color, color::red());
    assert_eq!(b.cursor_x, 1);
    b.put_char('y');
    assert_eq!(b.cursor_x, 2);
    b.put_char('z');
    // The cursor stops at the last column.
    assert_eq!(b.cursor_x, 2);
    assert_eq!(b.cells[0][2].character, 'z');
}

#[test]
fn put_char_wide_marks_tail() {
    let mut b = TerminalBuffer::new(4, 1);
    b.put_char('\u{4f60}');
    assert_eq!(b.cells[0][0].character, '\u{4f60}');
    assert!(!b.cells[0][0].wide_tail);
    assert_eq!(b.cells[0][1].character, '\u{4f60}');
    assert!(b.cells[0][1].wide_tail);
    assert_eq!(b.cursor_x, 2);
}

#[test]
fn zero_width_character_is_skipped() {
    let mut b = TerminalBuffer::new(4, 1);
    b.put_char('\u{200b}');
    assert_eq!(b.cursor_x, 0);
    assert_eq!(b.cells[0][0].character, ' ');
}

#[test]
fn backspace_clears_previous_cell() {
    let mut b = TerminalBuffer::new(4, 1);
    b.put_char('a');
    b.put_char('b');
    b.backspace();
    assert_eq!(b.cursor_x, 1);
    assert_eq!(b.cells[0][1].character, ' ');
    assert_eq!(b.cells[0][0].character, 'a');
}

#[test]
fn scroll_up_shifts_rows() {
    let mut b = TerminalBuffer::new(2, 3);
    b.put_char('a');
    b.move_cursor(0, 1);
    b.put_char('b');
    b.move_cursor(0, 2);
    b.put_char('c');
    b.scroll_up();
    assert_eq!(b.cells[0][0].character, 'b');
    assert_eq!(b.cells[1][0].character, 'c');
    assert_eq!(b.cells[2][0].character, ' ');
}

#[test]
fn new_line_scrolls_at_bottom() {
    let mut b = TerminalBuffer::new(2, 2);
    b.put_char('a');
    b.new_line(true);
    assert_eq!((b.cursor_x, b.cursor_y), (0, 1));
    b.put_char('b');
    b.new_line(false);
    // Already on the bottom row: the grid scrolls and the cursor stays there.
    assert_eq!(b.cursor_y, 1);
    assert_eq!(b.cells[0][0].character, 'b');
    assert_eq!(b.cells[1][0].character, ' ');
}

#[test]
fn clear_range_fills_defaults() {
    let mut b = TerminalBuffer::new(3, 2);
    for _ in 0..3 {
        b.put_char('x');
    }
    b.move_cursor(0, 1);
    for _ in 0..3 {
        b.put_char('y');
    }
    b.clear_range(Some((1, 0)), Some((2, 0)));
    let row0: Vec<char> = b.cells[0].iter().map(|c| c.character).collect();
    assert_eq!(row0, vec!['x', ' ', ' ']);
    let row1: Vec<char> = b.cells[1].iter().map(|c| c.character).collect();
    assert_eq!(row1, vec!['y', 'y', 'y']);
}

#[test]
fn clear_screen_homes_cursor() {
    let mut b = TerminalBuffer::new(3, 2);
    b.put_char('q');
    b.clear_screen();
    assert_eq!((b.cursor_x, b.cursor_y), (0, 0));
    assert_eq!(b.cells[0][0], TerminalCell::default());
}
