use ansiterm::screen::{Cell, TextArea, create_ta};
use ansiterm::rend::default_rendition;
use ansiterm::color::Rgb;

fn ta80x24() -> TextArea {
    create_ta(80, 24, 8, 16)
}

fn cell(t: &TextArea, x: usize, y: usize) -> Cell {
    t.cells[y * t.width + x]
}

fn put(t: &mut TextArea, s: &str) -> Vec<Vec<u8>> {
    t.print_str(&s.as_bytes().to_vec())
}

#[test]
fn red_text_then_reset() {
    let mut t = ta80x24();
    let titles = put(&mut t, "\x1b[31mHi\x1b[0m");
    assert!(titles.is_empty());
    let red = Rgb { r: 0xed, g: 0x15, b: 0x15 };
    assert_eq!(cell(&t, 0, 0).ch, 'H');
    assert_eq!(cell(&t, 0, 0).fg, red);
    assert_eq!(cell(&t, 1, 0).ch, 'i');
    assert_eq!(cell(&t, 1, 0).fg, red);
    assert_eq!(t.rend, default_rendition());
    assert_eq!((t.x, t.y), (2, 0));
}

#[test]
fn erase_display_blanks_everything_with_active_rendition() {
    let mut t = ta80x24();
    put(&mut t, "\x1b[34mZZZ\x1b[5;10H");
    let (x, y) = (t.x, t.y);
    put(&mut t, "\x1b[2J");
    assert_eq!((t.x, t.y), (x, y));
    let blue = Rgb { r: 0x1d, g: 0x99, b: 0xf3 };
    for yy in 0..24 {
        for xx in 0..80 {
            let c = cell(&t, xx, yy);
            assert_eq!(c.ch, ' ');
            assert_eq!(c.fg, blue);
            assert!(c.dirty);
        }
    }
}

#[test]
fn window_title_is_handed_out() {
    let mut t = ta80x24();
    let before = t.cells.clone();
    let titles = put(&mut t, "\x1b]0;MyTitle\x07");
    assert_eq!(titles, vec![b"MyTitle".to_vec()]);
    assert_eq!((t.x, t.y), (0, 0));
    for (a, b) in before.iter().zip(t.cells.iter()) {
        assert_eq!(a, b);
    }
    // consumed length of the sequence equals its full byte length
    let (_, n) = ansiterm::ansi::escape(&b"\x1b]0;MyTitle\x07".to_vec());
    assert_eq!(n, 12);
}

#[test]
fn one_line_too_many_scrolls_once() {
    // height + 1 lines on a 3-row screen with no scroll region set
    let mut t = create_ta(8, 3, 8, 16);
    put(&mut t, "one\ntwo\nthree\nfour");
    assert_eq!(
        (0..4).map(|x| cell(&t, x, 0).ch).collect::<String>(),
        "two ".to_string()
    );
    assert_eq!(
        (0..5).map(|x| cell(&t, x, 1).ch).collect::<String>(),
        "three".to_string()
    );
    assert_eq!(
        (0..4).map(|x| cell(&t, x, 2).ch).collect::<String>(),
        "four".to_string()
    );
}

#[test]
fn overflow_row_is_blank_with_active_rendition() {
    let mut t = create_ta(8, 3, 8, 16);
    put(&mut t, "one\ntwo\nthree\x1b[31m\n");
    let red = Rgb { r: 0xed, g: 0x15, b: 0x15 };
    assert_eq!(
        (0..3).map(|x| cell(&t, x, 0).ch).collect::<String>(),
        "two".to_string()
    );
    for x in 0..8 {
        let c = cell(&t, x, 2);
        assert_eq!(c.ch, ' ');
        assert_eq!(c.fg, red);
    }
    assert_eq!((t.x, t.y), (0, 2));
}

#[test]
fn scroll_region_shifts_only_its_rows() {
    let mut t = ta80x24();
    // one distinct letter per row
    for r in 0..24 {
        let ch = (b'A' + r as u8) as char;
        put(&mut t, &format!("\x1b[{};1H{}", r + 1, ch));
    }
    let before: Vec<char> = (0..24).map(|r| cell(&t, 0, r).ch).collect();
    // region rows 5..=10 (1-based), then a line feed on its bottom row
    put(&mut t, "\x1b[5;10r\x1b[10;1H\n");
    // rows 1..=4 (0-based 0..=3) unchanged
    for r in 0..4 {
        for x in 0..80 {
            let c = cell(&t, x, r);
            if x == 0 {
                assert_eq!(c.ch, before[r]);
            } else {
                assert_eq!(c.ch, ' ');
            }
        }
    }
    // rows 5..=9 (0-based 4..=8) hold what rows 6..=10 held
    for r in 4..9 {
        assert_eq!(cell(&t, 0, r).ch, before[r + 1]);
    }
    // the region's bottom row is blank
    for x in 0..80 {
        assert_eq!(cell(&t, x, 9).ch, ' ');
    }
    // rows 11.. (0-based 10..) unchanged
    for r in 10..24 {
        assert_eq!(cell(&t, 0, r).ch, before[r]);
        for x in 1..80 {
            assert_eq!(cell(&t, x, r).ch, ' ');
        }
    }
    assert_eq!((t.x, t.y), (0, 9));
}

#[test]
fn incremental_feeding_matches_single_shot() {
    let mut whole = ta80x24();
    put(&mut whole, "\x1b[31mX");
    let mut split = ta80x24();
    put(&mut split, "\x1b[3");
    // nothing happened yet: the partial sequence is buffered
    assert_eq!(cell(&split, 0, 0).ch, ' ');
    assert_eq!(split.rend, default_rendition());
    put(&mut split, "1mX");
    assert_eq!(cell(&split, 0, 0), cell(&whole, 0, 0));
    assert_eq!(split.rend, whole.rend);
    assert_eq!((split.x, split.y), (whole.x, whole.y));

    let mut bytewise = ta80x24();
    for b in b"\x1b[31mX" {
        bytewise.print_str(&vec![*b]);
    }
    assert_eq!(cell(&bytewise, 0, 0), cell(&whole, 0, 0));
    assert_eq!(bytewise.rend, whole.rend);
}

#[test]
fn cursor_moves_by_sequences() {
    let mut t = ta80x24();
    put(&mut t, "\x1b[5A");
    assert_eq!((t.x, t.y), (0, 0));
    put(&mut t, "\x1b[3B\x1b[7C");
    assert_eq!((t.x, t.y), (7, 3));
    put(&mut t, "\x1b[200C");
    assert_eq!(t.x, 79);
    put(&mut t, "\x1b[2D\x1b[1A");
    assert_eq!((t.x, t.y), (77, 2));
    put(&mut t, "\x1b[5G\x1b[7d");
    assert_eq!((t.x, t.y), (4, 6));
    put(&mut t, "\x1b[2E");
    assert_eq!((t.x, t.y), (0, 8));
    put(&mut t, "\x1b[3F");
    assert_eq!((t.x, t.y), (0, 5));
}

#[test]
fn unknown_sequences_are_skipped() {
    let mut t = ta80x24();
    put(&mut t, "\x1b[9z\x1b[?25hX");
    assert_eq!(cell(&t, 0, 0).ch, 'X');
    assert_eq!((t.x, t.y), (1, 0));
    assert_eq!(t.rend, default_rendition());
}

#[test]
fn left_right_margins_are_unimplemented() {
    let mut t = ta80x24();
    put(&mut t, "ab\x1b[2;5s");
    assert_eq!((t.x, t.y), (2, 0));
    assert_eq!((t.top_margin, t.bottom_margin), (0, 23));
}

#[test]
fn full_reset_keeps_grid_contents() {
    let mut t = ta80x24();
    put(&mut t, "\x1b[31mQ\x1b[5;10r");
    assert_eq!((t.top_margin, t.bottom_margin), (4, 9));
    put(&mut t, "\x1bc");
    assert_eq!((t.top_margin, t.bottom_margin), (0, 23));
    assert_eq!(t.rend, default_rendition());
    assert_eq!(cell(&t, 0, 0).ch, 'Q');
}

#[test]
fn scroll_sequences_move_whole_buffer() {
    let mut t = create_ta(8, 4, 8, 16);
    put(&mut t, "a\x1b[2;1Hb\x1b[3;1Hc\x1b[4;1Hd");
    put(&mut t, "\x1b[2S");
    assert_eq!(cell(&t, 0, 0).ch, 'c');
    assert_eq!(cell(&t, 0, 1).ch, 'd');
    assert_eq!(cell(&t, 0, 2).ch, ' ');
    put(&mut t, "\x1b[1T");
    assert_eq!(cell(&t, 0, 0).ch, ' ');
    assert_eq!(cell(&t, 0, 1).ch, 'c');
}

#[test]
fn insert_line_sequence() {
    let mut t = create_ta(8, 4, 8, 16);
    put(&mut t, "a\x1b[2;1Hb\x1b[3;1Hc\x1b[4;1Hd\x1b[1;1H\x1b[1L");
    assert_eq!(cell(&t, 0, 0).ch, ' ');
    assert_eq!(cell(&t, 0, 1).ch, 'a');
    assert_eq!(cell(&t, 0, 2).ch, 'b');
    assert_eq!(cell(&t, 0, 3).ch, 'c');
}

#[test]
fn titles_come_out_in_order() {
    let mut t = ta80x24();
    let titles = put(&mut t, "\x1b]0;first\x07mid\x1b]2;second\x07");
    assert_eq!(titles, vec![b"first".to_vec(), b"second".to_vec()]);
    assert_eq!(cell(&t, 0, 0).ch, 'm');
    assert_eq!(cell(&t, 2, 0).ch, 'd');
}

#[test]
fn buffered_incomplete_osc_finishes_later() {
    let mut t = ta80x24();
    let titles = put(&mut t, "\x1b]0;My");
    assert!(titles.is_empty());
    assert!(!t.buf.is_empty());
    let titles = put(&mut t, "Title\x07done");
    assert_eq!(titles, vec![b"MyTitle".to_vec()]);
    assert!(t.buf.is_empty());
    assert_eq!(cell(&t, 0, 0).ch, 'd');
}
