use ansiterm::color::{Rgb, base_color, bold_color, indexed_color};
use ansiterm::rend::{apply_sgr, default_rendition};

fn apply(codes: &[u32]) -> ansiterm::rend::Rendition {
    apply_sgr(default_rendition(), &codes.to_vec())
}

#[test]
fn default_rendition_colors() {
    let r = default_rendition();
    assert_eq!(r.fg, Rgb { r: 0xfc, g: 0xfc, b: 0xfc });
    assert_eq!(r.bg, Rgb { r: 0x23, g: 0x26, b: 0x27 });
    assert!(!r.bold);
    assert!(!r.inverse);
    assert!(r.fg_default);
    assert!(r.bg_default);
}

#[test]
fn base_foreground_colors() {
    let r = apply(&[31]);
    assert_eq!(r.fg, Rgb { r: 0xed, g: 0x15, b: 0x15 });
    assert!(!r.fg_default);
}

#[test]
fn bold_changes_base_foreground_family() {
    let r = apply(&[1, 31]);
    assert!(r.bold);
    assert_eq!(r.fg, Rgb { r: 0xc0, g: 0x39, b: 0x2b });
}

#[test]
fn reset_is_bold_aware() {
    let r = apply(&[1, 31, 0]);
    assert!(!r.bold);
    assert!(r.fg_default);
    // bold was still set when the reset ran, so the bright default wins
    assert_eq!(r.fg, Rgb { r: 0xff, g: 0xff, b: 0xff });
    assert_eq!(r.bg, Rgb { r: 0x23, g: 0x26, b: 0x27 });
    let r2 = apply(&[31, 0]);
    assert_eq!(r2.fg, Rgb { r: 0xfc, g: 0xfc, b: 0xfc });
}

#[test]
fn clear_bold_and_inverse() {
    let r = apply(&[1, 22]);
    assert!(!r.bold);
    let r = apply(&[7]);
    assert!(r.inverse);
    let r = apply(&[7, 0]);
    assert!(!r.inverse);
}

#[test]
fn foreground_and_background_resets() {
    let r = apply(&[31, 39]);
    assert!(r.fg_default);
    assert_eq!(r.fg, Rgb { r: 0xfc, g: 0xfc, b: 0xfc });
    let r = apply(&[1, 39]);
    assert_eq!(r.fg, Rgb { r: 0xff, g: 0xff, b: 0xff });
    let r = apply(&[41, 49]);
    assert!(r.bg_default);
    assert_eq!(r.bg, Rgb { r: 0x23, g: 0x26, b: 0x27 });
}

#[test]
fn bright_and_background_families() {
    let r = apply(&[92]);
    assert_eq!(r.fg, Rgb { r: 0x1c, g: 0xdc, b: 0x9a });
    let r = apply(&[44]);
    assert_eq!(r.bg, Rgb { r: 0x1d, g: 0x99, b: 0xf3 });
    let r = apply(&[104]);
    assert_eq!(r.bg, Rgb { r: 0x3d, g: 0xae, b: 0xe9 });
}

#[test]
fn unknown_codes_change_nothing() {
    let r = apply(&[31, 12345]);
    assert_eq!(r.fg, Rgb { r: 0xed, g: 0x15, b: 0x15 });
}

#[test]
fn cube_index_196_is_pure_red() {
    // v = 180, indices (5, 0, 0): 55 + 40 * 5 = 255
    assert_eq!(indexed_color(196), Rgb { r: 255, g: 0, b: 0 });
    let r = apply(&[38, 5, 196]);
    assert_eq!(r.fg, Rgb { r: 255, g: 0, b: 0 });
    assert!(!r.fg_default);
}

#[test]
fn grayscale_index_255_is_238() {
    // 8 + (255 - 232) * 10 = 238
    assert_eq!(indexed_color(255), Rgb { r: 238, g: 238, b: 238 });
    let r = apply(&[48, 5, 255]);
    assert_eq!(r.bg, Rgb { r: 238, g: 238, b: 238 });
}

#[test]
fn cube_corners_and_ramp_start() {
    assert_eq!(indexed_color(16), Rgb { r: 0, g: 0, b: 0 });
    assert_eq!(indexed_color(231), Rgb { r: 255, g: 255, b: 255 });
    assert_eq!(indexed_color(232), Rgb { r: 8, g: 8, b: 8 });
    assert_eq!(indexed_color(3), base_color(3));
    assert_eq!(indexed_color(11), bold_color(3));
}

#[test]
fn extended_truecolor() {
    let r = apply(&[38, 2, 10, 20, 30]);
    assert_eq!(r.fg, Rgb { r: 10, g: 20, b: 30 });
    let r = apply(&[48, 2, 1, 2, 3]);
    assert_eq!(r.bg, Rgb { r: 1, g: 2, b: 3 });
}

#[test]
fn truecolor_out_of_range_channel_is_ignored() {
    let r = apply(&[38, 2, 300, 0, 0]);
    assert_eq!(r.fg, default_rendition().fg);
}

#[test]
fn extended_with_missing_subparameters_is_skipped() {
    assert_eq!(apply(&[38]), default_rendition());
    assert_eq!(apply(&[38, 5]), default_rendition());
    assert_eq!(apply(&[38, 2, 1, 2]), default_rendition());
}

#[test]
fn unknown_extended_selector_consumes_only_itself() {
    // 38 with selector 7 is ignored, and 31 is then processed normally
    let r = apply(&[38, 7, 31]);
    assert_eq!(r.fg, Rgb { r: 0xed, g: 0x15, b: 0x15 });
}

#[test]
fn extended_index_out_of_range_is_ignored() {
    let r = apply(&[38, 5, 300]);
    assert_eq!(r.fg, default_rendition().fg);
}

#[test]
fn processing_is_left_to_right() {
    let r = apply(&[31, 32]);
    assert_eq!(r.fg, Rgb { r: 0x11, g: 0xd1, b: 0x16 });
}
