//! The text rendition state (colors, bold, inverse) and the SGR engine:
//! a pure function from a numeric parameter list to a new rendition.

use vstd::prelude::*;
use crate::color::{Rgb, spec_base_color, spec_bold_color, spec_default_fg, spec_default_bold_fg, spec_default_bg, spec_indexed_color, base_color, bold_color, indexed_color};

verus! {

/// The rendition applied to every cell that is written: foreground and
/// background color, bold and inverse flags, and "is default" flags for
/// the two colors (bold changes which physical color a default-family
/// code maps to).
#[derive(Clone, Copy, PartialEq, Eq, Structural, Debug)]
pub struct Rendition {
    pub fg: Rgb,
    pub bg: Rgb,
    pub bold: bool,
    pub inverse: bool,
    pub fg_default: bool,
    pub bg_default: bool,
}

/// The rendition a fresh terminal starts with.
pub open spec fn spec_default_rendition() -> Rendition {
    Rendition {
        fg: spec_default_fg(),
        bg: spec_default_bg(),
        bold: false,
        inverse: false,
        fg_default: true,
        bg_default: true,
    }
}

/// A full reset (SGR 0): defaults for everything, with the default
/// foreground chosen by the bold flag that was set when the reset ran.
pub open spec fn spec_reset_rendition(r: Rendition) -> Rendition {
    Rendition {
        fg: if r.bold {
            spec_default_bold_fg()
        } else {
            spec_default_fg()
        },
        bg: spec_default_bg(),
        bold: false,
        inverse: false,
        fg_default: true,
        bg_default: true,
    }
}

pub open spec fn spec_with_fg(r: Rendition, c: Rgb, is_default: bool) -> Rendition {
    Rendition {
        fg: c,
        bg: r.bg,
        bold: r.bold,
        inverse: r.inverse,
        fg_default: is_default,
        bg_default: r.bg_default,
    }
}

pub open spec fn spec_with_bg(r: Rendition, c: Rgb, is_default: bool) -> Rendition {
    Rendition {
        fg: r.fg,
        bg: c,
        bold: r.bold,
        inverse: r.inverse,
        fg_default: r.fg_default,
        bg_default: is_default,
    }
}

pub open spec fn spec_with_bold(r: Rendition, b: bool) -> Rendition {
    Rendition {
        fg: r.fg,
        bg: r.bg,
        bold: b,
        inverse: r.inverse,
        fg_default: r.fg_default,
        bg_default: r.bg_default,
    }
}

pub open spec fn spec_with_inverse(r: Rendition, b: bool) -> Rendition {
    Rendition {
        fg: r.fg,
        bg: r.bg,
        bold: r.bold,
        inverse: b,
        fg_default: r.fg_default,
        bg_default: r.bg_default,
    }
}

/// The effect of one plain (single-integer) SGR code; extended codes 38
/// and 48 are handled by the consumer because they take sub-parameters.
pub open spec fn spec_sgr_plain(r: Rendition, c: u32) -> Rendition {
    if c == 0 {
        spec_reset_rendition(r)
    } else if c == 1 {
        spec_with_bold(r, true)
    } else if c == 7 {
        spec_with_inverse(r, true)
    } else if c == 22 {
        spec_with_bold(r, false)
    } else if c == 39 {
        spec_with_fg(
            r,
            if r.bold {
                spec_default_bold_fg()
            } else {
                spec_default_fg()
            },
            true,
        )
    } else if c == 49 {
        spec_with_bg(r, spec_default_bg(), true)
    } else if 30 <= c <= 37 {
        spec_with_fg(
            r,
            if r.bold {
                spec_bold_color(c - 30)
            } else {
                spec_base_color(c - 30)
            },
            false,
        )
    } else if 90 <= c <= 97 {
        spec_with_fg(r, spec_bold_color(c - 90), false)
    } else if 40 <= c <= 47 {
        spec_with_bg(r, spec_base_color(c - 40), false)
    } else if 100 <= c <= 107 {
        spec_with_bg(r, spec_bold_color(c - 100), false)
    } else {
        r
    }
}

/// Left-to-right processing of an SGR parameter list with variable
/// consumption: 38/48 consume a selector, then 3 channels (truecolor)
/// or 1 index (256-color); missing or out-of-range sub-parameters make
/// that sub-command a no-op instead of a failure.
pub open spec fn spec_apply_sgr(r: Rendition, codes: Seq<u32>) -> Rendition
    decreases codes.len(),
{
    if codes.len() == 0 {
        r
    } else {
        let c = codes[0];
        if c == 38 || c == 48 {
            if codes.len() < 2 {
                r
            } else if codes[1] == 2 {
                if codes.len() < 5 {
                    r
                } else {
                    let r2 = if codes[2] <= 255 && codes[3] <= 255 && codes[4] <= 255 {
                        let col = Rgb { r: codes[2] as u8, g: codes[3] as u8, b: codes[4] as u8 };
                        if c == 38 {
                            spec_with_fg(r, col, false)
                        } else {
                            spec_with_bg(r, col, false)
                        }
                    } else {
                        r
                    };
                    spec_apply_sgr(r2, codes.skip(5))
                }
            } else if codes[1] == 5 {
                if codes.len() < 3 {
                    r
                } else {
                    let r2 = if codes[2] <= 255 {
                        let col = spec_indexed_color(codes[2] as int);
                        if c == 38 {
                            spec_with_fg(r, col, false)
                        } else {
                            spec_with_bg(r, col, false)
                        }
                    } else {
                        r
                    };
                    spec_apply_sgr(r2, codes.skip(3))
                }
            } else {
                spec_apply_sgr(r, codes.skip(2))
            }
        } else {
            spec_apply_sgr(spec_sgr_plain(r, c), codes.skip(1))
        }
    }
}

/// The rendition a fresh terminal starts with.
pub fn default_rendition() -> (r: Rendition)
    ensures
        r == spec_default_rendition(),
{
    Rendition {
        fg: base_color(7),
        bg: base_color(0),
        bold: false,
        inverse: false,
        fg_default: true,
        bg_default: true,
    }
}

/// Applies one plain SGR code.
fn sgr_plain(r: Rendition, c: u32) -> (out: Rendition)
    ensures
        out == spec_sgr_plain(r, c),
{
    if c == 0 {
        let mut out = default_rendition();
        if r.bold {
            out.fg = bold_color(7);
        }
        out
    } else if c == 1 {
        Rendition { bold: true, ..r }
    } else if c == 7 {
        Rendition { inverse: true, ..r }
    } else if c == 22 {
        Rendition { bold: false, ..r }
    } else if c == 39 {
        let col = if r.bold {
            bold_color(7)
        } else {
            base_color(7)
        };
        Rendition { fg: col, fg_default: true, ..r }
    } else if c == 49 {
        Rendition { bg: base_color(0), bg_default: true, ..r }
    } else if 30 <= c && c <= 37 {
        let col = if r.bold {
            bold_color((c - 30) as u8)
        } else {
            base_color((c - 30) as u8)
        };
        Rendition { fg: col, fg_default: false, ..r }
    } else if 90 <= c && c <= 97 {
        Rendition { fg: bold_color((c - 90) as u8), fg_default: false, ..r }
    } else if 40 <= c && c <= 47 {
        Rendition { bg: base_color((c - 40) as u8), bg_default: false, ..r }
    } else if 100 <= c && c <= 107 {
        Rendition { bg: bold_color((c - 100) as u8), bg_default: false, ..r }
    } else {
        r
    }
}

/// The SGR engine: folds a full parameter list over a rendition,
/// left to right.
pub fn apply_sgr(r: Rendition, codes: &Vec<u32>) -> (out: Rendition)
    ensures
        out == spec_apply_sgr(r, codes@),
{
    let ghost all: Seq<u32> = codes@;
    let mut cur = r;
    let mut i: usize = 0;
    assert(all.skip(0) =~= all);
    while i < codes.len()
        invariant
            i <= all.len(),
            codes@ == all,
            spec_apply_sgr(r, all) == spec_apply_sgr(cur, all.skip(i as int)),
        decreases all.len() - i,
    {
        let c = codes[i];
        let ghost rest = all.skip(i as int);
        assert(rest[0] == c);
        if c == 38 || c == 48 {
            if codes.len() - i < 2 {
                // selector missing: the sub-command and the rest are exhausted
                assert(rest.len() == 1);
                assert(spec_apply_sgr(cur, rest) == cur);
                i = codes.len();
                assert(all.skip(i as int) =~= Seq::<u32>::empty());
            } else if codes[i + 1] == 2 {
                if codes.len() - i < 5 {
                    assert(spec_apply_sgr(cur, rest) == cur);
                    i = codes.len();
                    assert(all.skip(i as int) =~= Seq::<u32>::empty());
                } else {
                    let cr = codes[i + 2];
                    let cg = codes[i + 3];
                    let cb = codes[i + 4];
                    assert(rest[1] == 2 && rest[2] == cr && rest[3] == cg && rest[4] == cb);
                    if cr <= 255 && cg <= 255 && cb <= 255 {
                        let col = Rgb { r: cr as u8, g: cg as u8, b: cb as u8 };
                        if c == 38 {
                            cur = Rendition { fg: col, fg_default: false, ..cur };
                        } else {
                            cur = Rendition { bg: col, bg_default: false, ..cur };
                        }
                    }
                    assert(rest.skip(5) =~= all.skip(i + 5));
                    i = i + 5;
                }
            } else if codes[i + 1] == 5 {
                if codes.len() - i < 3 {
                    assert(spec_apply_sgr(cur, rest) == cur);
                    i = codes.len();
                    assert(all.skip(i as int) =~= Seq::<u32>::empty());
                } else {
                    let ci = codes[i + 2];
                    assert(rest[1] == 5 && rest[2] == ci);
                    if ci <= 255 {
                        let col = indexed_color(ci);
                        if c == 38 {
                            cur = Rendition { fg: col, fg_default: false, ..cur };
                        } else {
                            cur = Rendition { bg: col, bg_default: false, ..cur };
                        }
                    }
                    assert(rest.skip(3) =~= all.skip(i + 3));
                    i = i + 3;
                }
            } else {
                assert(rest[1] != 2 && rest[1] != 5);
                assert(rest.skip(2) =~= all.skip(i + 2));
                i = i + 2;
            }
        } else {
            cur = sgr_plain(cur, c);
            assert(rest.skip(1) =~= all.skip(i + 1));
            i = i + 1;
        }
    }
    assert(all.skip(i as int) =~= Seq::<u32>::empty());
    cur
}

} // verus!
