use ansiterm::screen::{Cell, TextArea, create_ta};
use ansiterm::color::Rgb;

fn ta(w: usize, h: usize) -> TextArea {
    create_ta(w, h, 8, 16)
}

fn cell(t: &TextArea, x: usize, y: usize) -> Cell {
    t.cells[y * t.width + x]
}

fn put(t: &mut TextArea, s: &str) {
    let _ = t.print_str(&s.as_bytes().to_vec());
}

#[test]
fn create_ta_initial_state() {
    let t = ta(4, 3);
    assert_eq!(t.width, 4);
    assert_eq!(t.height, 3);
    assert_eq!((t.x, t.y), (0, 0));
    assert_eq!((t.top_margin, t.bottom_margin), (0, 2));
    assert!(t.cursor_visible);
    assert!(t.buf.is_empty());
    for y in 0..3 {
        for x in 0..4 {
            let c = cell(&t, x, y);
            assert_eq!(c.ch, ' ');
            assert!(c.dirty);
            assert_eq!(c.fg, Rgb { r: 0xfc, g: 0xfc, b: 0xfc });
            assert_eq!(c.bg, Rgb { r: 0x23, g: 0x26, b: 0x27 });
            assert!(!c.bold);
            assert!(!c.inverse);
        }
    }
}

#[test]
fn set_cell_in_and_out_of_range() {
    let mut t = ta(4, 3);
    assert!(t.set_cell(1, 2, 'x'));
    assert_eq!(cell(&t, 1, 2).ch, 'x');
    assert!(!t.set_cell(4, 0, 'y'));
    assert!(!t.set_cell(0, 3, 'y'));
    assert_eq!((t.x, t.y), (0, 0));
}

#[test]
fn cell_from_marks_dirty() {
    let mut c = Cell {
        ch: 'q',
        fg: Rgb { r: 1, g: 2, b: 3 },
        bg: Rgb { r: 4, g: 5, b: 6 },
        bold: true,
        inverse: false,
        dirty: false,
    };
    c = Cell::from(c);
    assert!(c.dirty);
    assert_eq!(c.ch, 'q');
    assert!(c.bold);
}

#[test]
fn print_char_writes_and_advances() {
    let mut t = ta(4, 3);
    t.print_char('a');
    assert_eq!(cell(&t, 0, 0).ch, 'a');
    assert_eq!((t.x, t.y), (1, 0));
}

#[test]
fn print_char_wraps_after_last_column() {
    let mut t = ta(3, 3);
    t.print_char('a');
    t.print_char('b');
    t.print_char('c');
    assert_eq!((t.x, t.y), (0, 1));
    assert_eq!(cell(&t, 2, 0).ch, 'c');
    t.print_char('d');
    assert_eq!(cell(&t, 0, 1).ch, 'd');
}

#[test]
fn carriage_return_and_backspace() {
    let mut t = ta(4, 3);
    put(&mut t, "ab\rc");
    assert_eq!(cell(&t, 0, 0).ch, 'c');
    assert_eq!(cell(&t, 1, 0).ch, 'b');
    let mut t = ta(4, 3);
    put(&mut t, "ab\x08");
    assert_eq!((t.x, t.y), (1, 0));
    assert_eq!(cell(&t, 1, 0).ch, ' ');
    // backspace at the left edge does nothing
    let mut t2 = ta(4, 3);
    t2.print_char('\x08');
    assert_eq!((t2.x, t2.y), (0, 0));
}

#[test]
fn other_control_bytes_are_ignored() {
    let mut t = ta(4, 3);
    t.print_char('\x01');
    t.print_char('\x07');
    assert_eq!((t.x, t.y), (0, 0));
    assert_eq!(cell(&t, 0, 0).ch, ' ');
}

#[test]
fn clear_line_modes() {
    let mut t = ta(4, 2);
    put(&mut t, "abcd");
    // the wrap moved the cursor to row 1; go back to (2, 0)
    put(&mut t, "\x1b[1;3H");
    assert_eq!((t.x, t.y), (2, 0));
    let mut a = t;
    a.clear_line(0);
    assert_eq!(cell(&a, 0, 0).ch, 'a');
    assert_eq!(cell(&a, 1, 0).ch, 'b');
    assert_eq!(cell(&a, 2, 0).ch, ' ');
    assert_eq!(cell(&a, 3, 0).ch, ' ');
    let mut b = ta(4, 2);
    put(&mut b, "abcd\x1b[1;3H");
    b.clear_line(1);
    assert_eq!(cell(&b, 0, 0).ch, ' ');
    assert_eq!(cell(&b, 1, 0).ch, ' ');
    // mode 1 clears up to, not including, the cursor column
    assert_eq!(cell(&b, 2, 0).ch, 'c');
    assert_eq!(cell(&b, 3, 0).ch, 'd');
    let mut c = ta(4, 2);
    put(&mut c, "abcd\x1b[1;3H");
    c.clear_line(2);
    for x in 0..4 {
        assert_eq!(cell(&c, x, 0).ch, ' ');
    }
    let mut d = ta(4, 2);
    put(&mut d, "abcd\x1b[1;3H");
    d.clear_line(9);
    assert_eq!(cell(&d, 0, 0).ch, 'a');
}

#[test]
fn clear_screen_modes() {
    let mut a = ta(3, 3);
    put(&mut a, "ab\r\ncd\r\nef\x1b[2;2H");
    assert_eq!((a.x, a.y), (1, 1));
    a.clear_screen(0);
    assert_eq!(cell(&a, 0, 0).ch, 'a');
    assert_eq!(cell(&a, 1, 0).ch, 'b');
    assert_eq!(cell(&a, 0, 1).ch, 'c');
    assert_eq!(cell(&a, 1, 1).ch, ' ');
    assert_eq!(cell(&a, 0, 2).ch, ' ');
    assert_eq!(cell(&a, 1, 2).ch, ' ');
    let mut b = ta(3, 3);
    put(&mut b, "ab\r\ncd\r\nef\x1b[2;2H");
    b.clear_screen(1);
    assert_eq!(cell(&b, 0, 0).ch, ' ');
    assert_eq!(cell(&b, 1, 0).ch, ' ');
    assert_eq!(cell(&b, 0, 1).ch, ' ');
    // mode 1 clears the cursor row only before the cursor column
    assert_eq!(cell(&b, 1, 1).ch, 'd');
    assert_eq!(cell(&b, 0, 2).ch, 'e');
    assert_eq!(cell(&b, 1, 2).ch, 'f');
    let mut c = ta(3, 3);
    put(&mut c, "ab\r\ncd\r\nef\x1b[2;2H");
    c.clear_screen(2);
    for y in 0..3 {
        for x in 0..3 {
            assert_eq!(cell(&c, x, y).ch, ' ');
        }
    }
    assert_eq!((c.x, c.y), (1, 1));
}

#[test]
fn scroll_up_shifts_rows_and_blanks_bottom() {
    let mut t = ta(3, 3);
    put(&mut t, "ab\r\ncd\r\nef");
    t.scroll_up(1);
    assert_eq!(cell(&t, 0, 0).ch, 'c');
    assert_eq!(cell(&t, 1, 0).ch, 'd');
    assert_eq!(cell(&t, 0, 1).ch, 'e');
    assert_eq!(cell(&t, 1, 1).ch, 'f');
    assert_eq!(cell(&t, 0, 2).ch, ' ');
    assert_eq!(cell(&t, 1, 2).ch, ' ');
}

#[test]
fn scroll_down_shifts_rows_and_blanks_top() {
    let mut t = ta(3, 3);
    put(&mut t, "ab\r\ncd\r\nef");
    t.scroll_down(1);
    assert_eq!(cell(&t, 0, 0).ch, ' ');
    assert_eq!(cell(&t, 0, 1).ch, 'a');
    assert_eq!(cell(&t, 1, 1).ch, 'b');
    assert_eq!(cell(&t, 0, 2).ch, 'c');
    assert_eq!(cell(&t, 1, 2).ch, 'd');
}

#[test]
fn scroll_by_height_clears_everything() {
    let mut t = ta(3, 3);
    put(&mut t, "ab\r\ncd\r\nef");
    t.scroll_up(3);
    for y in 0..3 {
        for x in 0..3 {
            assert_eq!(cell(&t, x, y).ch, ' ');
        }
    }
}

#[test]
fn insert_line_shifts_rows_down_within_region() {
    let mut t = ta(3, 4);
    put(&mut t, "ab\r\ncd\r\nef\r\ngh");
    put(&mut t, "\x1b[1;1H");
    t.insert_lines(1);
    assert_eq!(cell(&t, 0, 0).ch, ' ');
    assert_eq!(cell(&t, 0, 1).ch, 'a');
    assert_eq!(cell(&t, 1, 1).ch, 'b');
    assert_eq!(cell(&t, 0, 2).ch, 'c');
    assert_eq!(cell(&t, 0, 3).ch, 'e');
}

#[test]
fn cursor_clamping_at_edges() {
    let mut t = ta(5, 4);
    t.cursor_up(100);
    assert_eq!(t.y, 0);
    t.cursor_back(100);
    assert_eq!(t.x, 0);
    t.cursor_forward(100);
    assert_eq!(t.x, 4);
    t.cursor_forward(7);
    assert_eq!(t.x, 4);
    t.cursor_down(2);
    assert_eq!(t.y, 2);
    t.cursor_down(100);
    // the advance scrolls and leaves the cursor on the bottom margin
    assert_eq!(t.y, 3);
}

#[test]
fn cursor_absolute_positioning() {
    let mut t = ta(5, 4);
    t.cursor_pos(3, 2);
    assert_eq!((t.x, t.y), (1, 2));
    t.cursor_pos(0, 0);
    assert_eq!((t.x, t.y), (0, 0));
    t.cursor_col(9);
    assert_eq!(t.x, 4);
    t.cursor_row(2);
    assert_eq!(t.y, 1);
    t.cursor_next_line(1);
    assert_eq!((t.x, t.y), (0, 2));
    t.cursor_prev_line(5);
    assert_eq!((t.x, t.y), (0, 0));
}

#[test]
fn decstbm_sets_clamps_and_homes() {
    let mut t = ta(10, 24);
    t.decstbm(5, 10);
    assert_eq!((t.top_margin, t.bottom_margin), (4, 9));
    assert_eq!((t.x, t.y), (0, 4));
    let mut t2 = ta(10, 24);
    t2.decstbm(0, 0);
    assert_eq!((t2.top_margin, t2.bottom_margin), (0, 1));
    let mut t3 = ta(10, 6);
    t3.decstbm(50, 50);
    assert_eq!((t3.top_margin, t3.bottom_margin), (4, 5));
    let mut t4 = ta(10, 24);
    t4.decstbm(10, 5);
    assert_eq!((t4.top_margin, t4.bottom_margin), (9, 10));
}

#[test]
fn reset_restores_rendition_and_margins_only() {
    let mut t = ta(4, 6);
    put(&mut t, "\x1b[31mZ");
    t.decstbm(2, 4);
    t.reset();
    assert_eq!((t.top_margin, t.bottom_margin), (0, 5));
    assert_eq!(t.rend, ansiterm::rend::default_rendition());
    assert_eq!(cell(&t, 0, 0).ch, 'Z');
}

#[test]
fn snapshot_hands_out_grid_and_clears_dirty() {
    let mut t = ta(3, 2);
    put(&mut t, "hi");
    let (grid, cursor, visible) = t.snapshot_and_clear_dirty();
    assert_eq!(grid.len(), 6);
    assert_eq!(grid[0].ch, 'h');
    assert!(grid[0].dirty);
    assert_eq!(cursor, (2, 0));
    assert!(visible);
    for c in &t.cells {
        assert!(!c.dirty);
    }
    // content survives the handoff
    assert_eq!(cell(&t, 1, 0).ch, 'i');
    // a new write dirties only what it touches
    t.print_char('\r');
    t.print_char('x');
    assert!(cell(&t, 0, 0).dirty);
    assert!(!cell(&t, 1, 0).dirty);
}
