//! The color palette: 8 base colors, 8 bold/bright variants, the 6x6x6
//! color cube (indices 16-231) and the 24-step grayscale ramp (232-255).

use vstd::prelude::*;

verus! {

/// One RGB color, as it is stored in a cell and handed to a renderer.
#[derive(Clone, Copy, PartialEq, Eq, Structural, Debug)]
pub struct Rgb {
    pub r: u8,
    pub g: u8,
    pub b: u8,
}

/// The 8 base palette colors, indices 0-7.
pub open spec fn spec_base_color(i: int) -> Rgb {
    if i == 0 {
        Rgb { r: 0x23, g: 0x26, b: 0x27 }
    } else if i == 1 {
        Rgb { r: 0xed, g: 0x15, b: 0x15 }
    } else if i == 2 {
        Rgb { r: 0x11, g: 0xd1, b: 0x16 }
    } else if i == 3 {
        Rgb { r: 0xf6, g: 0x74, b: 0x00 }
    } else if i == 4 {
        Rgb { r: 0x1d, g: 0x99, b: 0xf3 }
    } else if i == 5 {
        Rgb { r: 0x9b, g: 0x59, b: 0xb6 }
    } else if i == 6 {
        Rgb { r: 0x1a, g: 0xbc, b: 0x9c }
    } else {
        Rgb { r: 0xfc, g: 0xfc, b: 0xfc }
    }
}

/// The 8 bold/bright palette colors, indices 0-7.
pub open spec fn spec_bold_color(i: int) -> Rgb {
    if i == 0 {
        Rgb { r: 0x7f, g: 0x8c, b: 0x8d }
    } else if i == 1 {
        Rgb { r: 0xc0, g: 0x39, b: 0x2b }
    } else if i == 2 {
        Rgb { r: 0x1c, g: 0xdc, b: 0x9a }
    } else if i == 3 {
        Rgb { r: 0xfd, g: 0xbc, b: 0x4b }
    } else if i == 4 {
        Rgb { r: 0x3d, g: 0xae, b: 0xe9 }
    } else if i == 5 {
        Rgb { r: 0x8e, g: 0x44, b: 0xad }
    } else if i == 6 {
        Rgb { r: 0x16, g: 0xa0, b: 0x85 }
    } else {
        Rgb { r: 0xff, g: 0xff, b: 0xff }
    }
}

/// The default foreground color (base white).
pub open spec fn spec_default_fg() -> Rgb {
    spec_base_color(7)
}

/// The default foreground color while bold is set (bright white).
pub open spec fn spec_default_bold_fg() -> Rgb {
    spec_bold_color(7)
}

/// The default background color (base black).
pub open spec fn spec_default_bg() -> Rgb {
    spec_base_color(0)
}

/// One channel of the 6x6x6 color cube: 0 for index 0, else 55 + 40 * index.
pub open spec fn spec_cube_channel(i: int) -> u8 {
    if i > 0 {
        (55 + 40 * i) as u8
    } else {
        0
    }
}

/// The color of cube index c, for 16 <= c <= 231: the documented formula
/// over v = c - 16 with channel indices v / 36, (v % 36) / 6 and v % 6.
pub open spec fn spec_cube_color(c: int) -> Rgb {
    let v = c - 16;
    Rgb {
        r: spec_cube_channel(v / 36),
        g: spec_cube_channel((v % 36) / 6),
        b: spec_cube_channel(v % 6),
    }
}

/// The grayscale ramp: index c, for 232 <= c <= 255, maps every channel
/// to 8 + (c - 232) * 10.
pub open spec fn spec_gray_color(c: int) -> Rgb {
    let v = (8 + (c - 232) * 10) as u8;
    Rgb { r: v, g: v, b: v }
}

/// The color of an extended-palette index 0-255: base colors, bright
/// colors, the color cube, then the grayscale ramp.
pub open spec fn spec_indexed_color(c: int) -> Rgb {
    if 0 <= c < 8 {
        spec_base_color(c)
    } else if 8 <= c < 16 {
        spec_bold_color(c - 8)
    } else if 16 <= c < 232 {
        spec_cube_color(c)
    } else {
        spec_gray_color(c)
    }
}

/// Looks up one of the 8 base palette colors.
pub fn base_color(i: u8) -> (r: Rgb)
    requires
        i < 8,
    ensures
        r == spec_base_color(i as int),
{
    if i == 0 {
        Rgb { r: 0x23, g: 0x26, b: 0x27 }
    } else if i == 1 {
        Rgb { r: 0xed, g: 0x15, b: 0x15 }
    } else if i == 2 {
        Rgb { r: 0x11, g: 0xd1, b: 0x16 }
    } else if i == 3 {
        Rgb { r: 0xf6, g: 0x74, b: 0x00 }
    } else if i == 4 {
        Rgb { r: 0x1d, g: 0x99, b: 0xf3 }
    } else if i == 5 {
        Rgb { r: 0x9b, g: 0x59, b: 0xb6 }
    } else if i == 6 {
        Rgb { r: 0x1a, g: 0xbc, b: 0x9c }
    } else {
        Rgb { r: 0xfc, g: 0xfc, b: 0xfc }
    }
}

/// Looks up one of the 8 bold/bright palette colors.
pub fn bold_color(i: u8) -> (r: Rgb)
    requires
        i < 8,
    ensures
        r == spec_bold_color(i as int),
{
    if i == 0 {
        Rgb { r: 0x7f, g: 0x8c, b: 0x8d }
    } else if i == 1 {
        Rgb { r: 0xc0, g: 0x39, b: 0x2b }
    } else if i == 2 {
        Rgb { r: 0x1c, g: 0xdc, b: 0x9a }
    } else if i == 3 {
        Rgb { r: 0xfd, g: 0xbc, b: 0x4b }
    } else if i == 4 {
        Rgb { r: 0x3d, g: 0xae, b: 0xe9 }
    } else if i == 5 {
        Rgb { r: 0x8e, g: 0x44, b: 0xad }
    } else if i == 6 {
        Rgb { r: 0x16, g: 0xa0, b: 0x85 }
    } else {
        Rgb { r: 0xff, g: 0xff, b: 0xff }
    }
}

/// Resolves an extended-palette index 0-255 to its color.
pub fn indexed_color(c: u32) -> (r: Rgb)
    requires
        c <= 255,
    ensures
        r == spec_indexed_color(c as int),
{
    if c < 8 {
        base_color(c as u8)
    } else if c < 16 {
        bold_color((c - 8) as u8)
    } else if c < 232 {
        let v = c - 16;
        let ri = v / 36;
        let gi = (v % 36) / 6;
        let bi = v % 6;
        assert(ri <= 5 && gi <= 5 && bi <= 5);
        Rgb { r: cube_channel(ri), g: cube_channel(gi), b: cube_channel(bi) }
    } else {
        let v = (8 + (c - 232) * 10) as u8;
        Rgb { r: v, g: v, b: v }
    }
}

/// One channel of the color cube.
fn cube_channel(i: u32) -> (r: u8)
    requires
        i <= 5,
    ensures
        r == spec_cube_channel(i as int),
{
    if i > 0 {
        (55 + 40 * i) as u8
    } else {
        0
    }
}

} // verus!
