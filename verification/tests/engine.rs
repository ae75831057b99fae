//! The whole engine: bytes in, screen state and replies out.

use explotty::color;
use explotty::terminal_widget::TerminalWidget;

fn row_text(w: &TerminalWidget, y: usize) -> String {
    w.context.buffer.cells[y].iter().map(|c| c.character).collect()
}

#[test]
fn plain_text_line_feeds() {
    let mut w = TerminalWidget::new(80, 24);
    w.process_output(b"Hello\r\n");
    assert_eq!((w.context.buffer.cursor_x, w.context.buffer.cursor_y), (0, 1));
    assert_eq!(&row_text(&w, 0)[..5], "Hello");
    for x in 5..80 {
        assert_eq!(
            w.context.buffer.cells[0][x],
            explotty::terminal_cell::TerminalCell::default()
        );
    }
}

#[test]
fn red_text_then_reset() {
    let mut w = TerminalWidget::new(80, 24);
    w.process_output(b"\x1b[31mRed\x1b[0m");
    for x in 0..3 {
        assert_eq!(w.context.buffer.cells[0][x].fg_color, color::red());
    }
    w.process_output(b"w");
    assert_eq!(w.context.buffer.cells[0][3].character, 'w');
    assert_eq!(w.context.buffer.cells[0][3].fg_color, color::white());
}

#[test]
fn sgr_reset_is_total() {
    let mut w = TerminalWidget::new(10, 2);
    w.process_output(b"\x1b[1;4;31;42m");
    assert!(w.context.buffer.current_bold);
    assert!(w.context.buffer.current_underline);
    assert_eq!(w.context.buffer.current_fg_color, color::red());
    assert_eq!(w.context.buffer.current_bg_color, color::green());
    w.process_output(b"\x1b[0m");
    assert!(!w.context.buffer.current_bold);
    assert!(!w.context.buffer.current_underline);
    assert_eq!(w.context.buffer.current_fg_color, color::white());
    assert_eq!(w.context.buffer.current_bg_color, color::transparent());
    // The short form resets as well, from any state.
    w.process_output(b"\x1b[7;9m\x1b[m");
    assert_eq!(w.context.buffer.current_fg_color, color::white());
    assert_eq!(w.context.buffer.current_bg_color, color::transparent());
    assert!(!w.context.buffer.current_strikethrough);
}

#[test]
fn sgr_extended_colors() {
    let mut w = TerminalWidget::new(10, 2);
    w.process_output(b"\x1b[38;5;196m");
    assert_eq!(w.context.buffer.current_fg_color, color::rgb(255, 0, 0));
    w.process_output(b"\x1b[48;2;1;2;3m");
    assert_eq!(w.context.buffer.current_bg_color, color::rgb(1, 2, 3));
}

#[test]
fn erase_display_keeps_cursor() {
    let mut w = TerminalWidget::new(10, 3);
    w.process_output(b"abc\r\ndef");
    let (cx, cy) = (w.context.buffer.cursor_x, w.context.buffer.cursor_y);
    w.process_output(b"\x1b[2J");
    assert_eq!((w.context.buffer.cursor_x, w.context.buffer.cursor_y), (cx, cy));
    for y in 0..3 {
        for x in 0..10 {
            assert_eq!(
                w.context.buffer.cells[y][x],
                explotty::terminal_cell::TerminalCell::default()
            );
        }
    }
}

#[test]
fn cursor_position_report() {
    let mut w = TerminalWidget::new(80, 24);
    w.process_output(b"\x1b[3;5H");
    assert_eq!((w.context.buffer.cursor_x, w.context.buffer.cursor_y), (4, 2));
    w.process_output(b"\x1b[6n");
    assert_eq!(w.context.reply, b"\x1b[3;5R".to_vec());
}

#[test]
fn alternate_screen_round_trip() {
    let mut w = TerminalWidget::new(10, 3);
    w.process_output(b"keep\x1b[1;31m");
    let cells_before = w.context.buffer.cells.clone();
    let cursor_before = (w.context.buffer.cursor_x, w.context.buffer.cursor_y);
    w.process_output(b"\x1b[?1049h");
    assert_eq!(w.context.buffer.cells[0][0].character, ' ');
    assert_eq!((w.context.buffer.cursor_x, w.context.buffer.cursor_y), (0, 0));
    w.process_output(b"other");
    w.process_output(b"\x1b[?1049l");
    assert_eq!(w.context.buffer.cells, cells_before);
    assert_eq!(
        (w.context.buffer.cursor_x, w.context.buffer.cursor_y),
        cursor_before
    );
    assert!(w.context.saved_screen_buffer.is_none());
    // Leaving again, with nothing saved, changes nothing.
    w.process_output(b"\x1b[?1049l");
    assert_eq!(w.context.buffer.cells, cells_before);
}

#[test]
fn dec_modes_toggle() {
    let mut w = TerminalWidget::new(10, 3);
    assert!(!w.context.decckm_mode);
    assert!(w.context.new_line_mode);
    w.process_output(b"\x1b[?1h\x1b[?2004h\x1b[?25l\x1b[?20l");
    assert!(w.context.decckm_mode);
    assert!(w.context.bracket_paste_mode);
    assert!(!w.context.show_cursor);
    assert!(!w.context.new_line_mode);
    w.process_output(b"\x1b[?1;2004l");
    assert!(!w.context.decckm_mode);
    assert!(!w.context.bracket_paste_mode);
    // A malformed body changes nothing.
    w.process_output(b"\x1b[?25xl");
    assert!(!w.context.show_cursor);
}

#[test]
fn scrollback_bound_keeps_newest() {
    let mut w = TerminalWidget::new(4, 2);
    w.context.max_scroll_lines = 3;
    // Each line feed on the bottom row evicts the top grid row.
    w.process_output(b"a\r\n");
    for i in 0..6u8 {
        let line = [b'b' + i, b'\r', b'\n'];
        w.process_output(&line);
    }
    assert_eq!(w.context.scrollback_buffer.len(), 3);
    let oldest: char = w.context.scrollback_buffer[0][0].character;
    let newest: char = w.context.scrollback_buffer[2][0].character;
    assert_eq!(oldest, 'd');
    assert_eq!(newest, 'f');
}

#[test]
fn window_title_updates() {
    let mut w = TerminalWidget::new(10, 3);
    w.process_output(b"\x1b]0;hello\x07");
    assert_eq!(w.context.title_updates, vec!["hello".to_string()]);
    w.process_output(b"\x1b]2;ignored\x07");
    assert_eq!(w.context.title_updates.len(), 1);
    // Only the one selector is stripped: the text is forwarded verbatim.
    w.process_output(b"\x1b]0;0;x\x07");
    assert_eq!(w.context.title_updates[1], "0;x".to_string());
    // An empty title makes no sink call.
    w.process_output(b"\x1b]0;\x07");
    assert_eq!(w.context.title_updates.len(), 2);
}

#[test]
fn delete_characters_shifts_left() {
    let mut w = TerminalWidget::new(6, 1);
    w.process_output(b"abcdef\x1b[1;2H");
    w.process_output(b"\x1b[2P");
    assert_eq!(row_text(&w, 0), "adef  ");
}

#[test]
fn tab_advances_to_next_stop() {
    // From column 1 the next 4-column stop is 4.
    let mut w = TerminalWidget::new(10, 1);
    w.process_output(b"x\ty");
    assert_eq!(row_text(&w, 0), "x   y     ");
    assert_eq!(w.context.buffer.cursor_x, 5);

    // From a stop the tab advances a full four columns.
    let mut v = TerminalWidget::new(10, 1);
    v.process_output(b"\tz");
    assert_eq!(row_text(&v, 0), "    z     ");
    assert_eq!(v.context.buffer.cursor_x, 5);
    v.process_output(b"\x1b[1;5H\tq");
    assert_eq!(v.context.buffer.cursor_x, 9);

    // At the right edge the cursor stays on the last column.
    let mut e = TerminalWidget::new(5, 1);
    e.process_output(b"abcd\te");
    assert_eq!(row_text(&e, 0), "abcde");
    assert_eq!(e.context.buffer.cursor_x, 4);
}

#[test]
fn visible_lines_follow_scroll() {
    let mut w = TerminalWidget::new(3, 2);
    w.process_output(b"a\r\nb\r\nc\r\nd");
    // Rows a and b were evicted; the grid shows c and d.
    assert_eq!(w.context.scrollback_buffer.len(), 2);
    let live = w.get_visible_lines();
    assert_eq!(live[0][0].character, 'c');
    assert_eq!(live[1][0].character, 'd');
    w.handle_scroll(1);
    let back = w.get_visible_lines();
    assert_eq!(back[0][0].character, 'b');
    assert_eq!(back[1][0].character, 'c');
    w.handle_scroll(10);
    assert_eq!(w.scroll_offset, 2);
    w.handle_scroll(-10);
    assert_eq!(w.scroll_offset, 0);
}

#[test]
fn resize_pads_scrollback_rows() {
    let mut w = TerminalWidget::new(3, 2);
    w.process_output(b"ab\r\nx\r\ny\r\n");
    assert!(w.context.scrollback_buffer.len() >= 1);
    w.resize(5, 2);
    for line in &w.context.scrollback_buffer {
        assert_eq!(line.len(), 5);
    }
    assert_eq!(w.context.buffer.width, 5);
}
