//! The screen: a fixed-size grid of cells with a cursor, the current
//! rendition, and a vertical scroll region, driven by decoded control
//! sequences and plain text.

use vstd::prelude::*;
use crate::color::Rgb;
use crate::rend::{Rendition, spec_default_rendition, spec_apply_sgr, default_rendition, apply_sgr};
use crate::ansi::{
    AnsiType, CSIType, OSCType, SpecTok, SpecCsi, SpecOsc, spec_escape_at, escape_from,
    lemma_escape_at_bounds,
};

verus! {

/// One cell of the grid: a character, its colors and flags, and a dirty
/// bit that is set by every mutation and cleared by the render handoff.
#[derive(Clone, Copy, PartialEq, Eq, Structural, Debug)]
pub struct Cell {
    pub ch: char,
    pub fg: Rgb,
    pub bg: Rgb,
    pub bold: bool,
    pub inverse: bool,
    pub dirty: bool,
}

impl Cell {
    /// A copy of a cell with its dirty bit set, as cells moved by
    /// scrolling and block copies are stored.
    pub fn from(c: Cell) -> (r: Cell)
        ensures
            r == spec_dirty(c),
    {
        Cell { ch: c.ch, fg: c.fg, bg: c.bg, bold: c.bold, inverse: c.inverse, dirty: true }
    }
}

/// The mathematical value of a screen: the grid as a sequence of cells
/// in row-major order, the dimensions, the cursor, the rendition, the
/// scroll region, and the bytes buffered from an incomplete trailing
/// escape sequence.
pub struct Screen {
    pub cells: Seq<Cell>,
    pub width: int,
    pub height: int,
    pub x: int,
    pub y: int,
    pub rend: Rendition,
    pub top: int,
    pub bottom: int,
    pub buf: Seq<u8>,
}

/// The screen and its state. The grid size is fixed at creation; the
/// cursor always stays inside the grid and never below the bottom
/// margin; the scroll region always satisfies `top < bottom < height`.
pub struct TextArea {
    pub width: usize,
    pub height: usize,
    pub font_width: u32,
    pub font_height: u32,
    pub cells: Vec<Cell>,
    pub x: usize,
    pub y: usize,
    pub buf: Vec<u8>,
    pub rend: Rendition,
    pub top_margin: usize,
    pub bottom_margin: usize,
    pub cursor_visible: bool,
}

impl View for TextArea {
    type V = Screen;

    open spec fn view(&self) -> Screen {
        Screen {
            cells: self.cells@,
            width: self.width as int,
            height: self.height as int,
            x: self.x as int,
            y: self.y as int,
            rend: self.rend,
            top: self.top_margin as int,
            bottom: self.bottom_margin as int,
            buf: self.buf@,
        }
    }
}

/// Well-formedness: the grid has exactly `width * height` cells, the
/// cursor is inside the grid and not below the bottom margin, and the
/// scroll region is a proper row range inside the grid.
pub open spec fn screen_wf(s: Screen) -> bool {
    &&& 1 <= s.width
    &&& 2 <= s.height
    &&& s.width * s.height <= usize::MAX
    &&& s.cells.len() == s.width * s.height
    &&& 0 <= s.x < s.width
    &&& 0 <= s.y < s.height
    &&& s.y <= s.bottom
    &&& 0 <= s.top < s.bottom < s.height
}

/// The cell at column `x` of row `y`.
pub open spec fn spec_cell_at(s: Screen, x: int, y: int) -> Cell {
    s.cells[y * s.width + x]
}

/// A freshly written cell: the character with the current rendition,
/// marked dirty.
pub open spec fn spec_made_cell(ch: char, r: Rendition) -> Cell {
    Cell { ch, fg: r.fg, bg: r.bg, bold: r.bold, inverse: r.inverse, dirty: true }
}

/// A blank cell under the given rendition.
pub open spec fn spec_blank_cell(r: Rendition) -> Cell {
    spec_made_cell(' ', r)
}

/// A cell with its dirty bit set.
pub open spec fn spec_dirty(c: Cell) -> Cell {
    Cell { ch: c.ch, fg: c.fg, bg: c.bg, bold: c.bold, inverse: c.inverse, dirty: true }
}

/// The grid with the cell at `(x, y)` replaced by `ch` under the
/// current rendition.
pub open spec fn spec_write_at(s: Screen, x: int, y: int, ch: char) -> Screen {
    Screen { cells: s.cells.update(y * s.width + x, spec_made_cell(ch, s.rend)), ..s }
}

/// Everything a screen operation leaves alone: the rendering hints and
/// the cursor-visibility flag, which are not terminal state.
pub open spec fn same_trim(a: TextArea, b: TextArea) -> bool {
    &&& a.font_width == b.font_width
    &&& a.font_height == b.font_height
    &&& a.cursor_visible == b.cursor_visible
}

proof fn lemma_cell_index_bound(w: int, h: int, x: int, y: int)
    by (nonlinear_arith)
    requires
        1 <= w,
        0 <= x < w,
        0 <= y < h,
    ensures
        0 <= y * w + x < w * h,
{
}

proof fn lemma_rowcol(w: int, x: int, y: int)
    requires
        1 <= w,
        0 <= x < w,
        0 <= y,
    ensures
        (y * w + x) / w == y,
        (y * w + x) % w == x,
{
    vstd::arithmetic::div_mod::lemma_fundamental_div_mod_converse(y * w + x, w, y, x);
}

proof fn lemma_idx(w: int, h: int, i: int)
    requires
        1 <= w,
        0 <= i < w * h,
    ensures
        0 <= i / w < h,
        0 <= i % w < w,
        i == (i / w) * w + (i % w),
{
    vstd::arithmetic::div_mod::lemma_fundamental_div_mod(i, w);
    vstd::arithmetic::div_mod::lemma_mod_bound(i, w);
    assert(0 <= i / w < h) by (nonlinear_arith)
        requires
            1 <= w,
            0 <= i < w * h,
            i == w * (i / w) + (i % w),
            0 <= i % w < w,
    ;
    assert(i == (i / w) * w + (i % w)) by (nonlinear_arith)
        requires
            i == w * (i / w) + (i % w),
    ;
}

impl TextArea {
    /// Well-formedness of the screen value.
    pub open spec fn wf(&self) -> bool {
        screen_wf(self@)
    }

    /// Writes `ch` with the current rendition at `(x, y)` and marks the
    /// cell dirty; out-of-range coordinates are rejected by returning
    /// false with nothing changed.
    pub fn set_cell(&mut self, x: u32, y: u32, ch: char) -> (r: bool)
        requires
            old(self).wf(),
        ensures
            final(self).wf(),
            same_trim(*old(self), *final(self)),
            r == ((x as int) < old(self)@.width && (y as int) < old(self)@.height),
            r ==> final(self)@ == spec_write_at(old(self)@, x as int, y as int, ch),
            !r ==> *final(self) == *old(self),
    {
        if (x as usize) >= self.width || (y as usize) >= self.height {
            return false;
        }
        self.write_at(x as usize, y as usize, ch);
        true
    }

    /// Writes one in-range cell.
    fn write_at(&mut self, x: usize, y: usize, ch: char)
        requires
            old(self).wf(),
            x < old(self).width,
            y < old(self).height,
        ensures
            final(self).wf(),
            same_trim(*old(self), *final(self)),
            final(self)@ == spec_write_at(old(self)@, x as int, y as int, ch),
    {
        proof {
            lemma_cell_index_bound(
                self.width as int,
                self.height as int,
                x as int,
                y as int,
            );
        }
        let i: usize = y * self.width + x;
        self.cells[i] = Cell {
            ch,
            fg: self.rend.fg,
            bg: self.rend.bg,
            bold: self.rend.bold,
            inverse: self.rend.inverse,
            dirty: true,
        };
    }
}

/// Creates a screen of the given size: a grid of blank cells under the
/// default rendition (all dirty), the cursor at the top-left, the
/// scroll region covering the whole screen, and an empty input buffer.
pub fn create_ta(width: usize, height: usize, font_width: u32, font_height: u32) -> (r: TextArea)
    requires
        1 <= width,
        2 <= height,
        width * height <= usize::MAX,
    ensures
        r.wf(),
        r@.width == width,
        r@.height == height,
        r@.x == 0 && r@.y == 0,
        r@.rend == spec_default_rendition(),
        r@.top == 0 && r@.bottom == height - 1,
        r@.buf == Seq::<u8>::empty(),
        forall|i: int| 0 <= i < r@.cells.len() ==> r@.cells[i] == spec_blank_cell(
            spec_default_rendition(),
        ),
        r.font_width == font_width,
        r.font_height == font_height,
        r.cursor_visible,
    {
    let rend = default_rendition();
    let blank = Cell {
        ch: ' ',
        fg: rend.fg,
        bg: rend.bg,
        bold: false,
        inverse: false,
        dirty: true,
    };
    let n: usize = width * height;
    let cells: Vec<Cell> = vec![blank; n];
    TextArea {
        width,
        height,
        font_width,
        font_height,
        cells,
        x: 0,
        y: 0,
        buf: Vec::new(),
        rend,
        top_margin: 0,
        bottom_margin: height - 1,
        cursor_visible: true,
    }
}


// ------------------------------------------------------------------
// Grid transforms, as comprehensions over the flat row-major index
// ------------------------------------------------------------------

/// Columns `[x0, x1)` of row `y` blanked under the current rendition.
pub open spec fn spec_clear_cols(s: Screen, y: int, x0: int, x1: int) -> Seq<Cell> {
    Seq::new(
        s.cells.len(),
        |i: int|
            if i / s.width == y && x0 <= i % s.width < x1 {
                spec_blank_cell(s.rend)
            } else {
                s.cells[i]
            },
    )
}

/// Row `y` blanked entirely.
pub open spec fn spec_clear_full_row(s: Screen, cells: Seq<Cell>, y: int) -> Seq<Cell> {
    Seq::new(
        cells.len(),
        |i: int|
            if i / s.width == y {
                spec_blank_cell(s.rend)
            } else {
                cells[i]
            },
    )
}

/// Every cell blanked.
pub open spec fn spec_clear_all(s: Screen) -> Seq<Cell> {
    Seq::new(s.cells.len(), |i: int| spec_blank_cell(s.rend))
}

/// Erase in line: mode 0 clears from the cursor to the end of its row,
/// mode 1 from the start of the row up to (not including) the cursor,
/// mode 2 the whole row; other modes change nothing.
pub open spec fn spec_clear_line_cells(s: Screen, mode: u32) -> Seq<Cell> {
    if mode == 0 {
        spec_clear_cols(s, s.y, s.x, s.width)
    } else if mode == 1 {
        spec_clear_cols(s, s.y, 0, s.x)
    } else if mode == 2 {
        spec_clear_cols(s, s.y, 0, s.width)
    } else {
        s.cells
    }
}

/// Erase in display: mode 0 clears from the cursor to the end of the
/// screen, mode 1 from the start of the screen up to the cursor (the
/// cursor's row before the cursor column), modes 2 and 3 the whole
/// screen; other modes change nothing.
pub open spec fn spec_clear_screen_cells(s: Screen, mode: u32) -> Seq<Cell> {
    if mode == 0 {
        Seq::new(
            s.cells.len(),
            |i: int|
                if i / s.width > s.y || (i / s.width == s.y && i % s.width >= s.x) {
                    spec_blank_cell(s.rend)
                } else {
                    s.cells[i]
                },
        )
    } else if mode == 1 {
        Seq::new(
            s.cells.len(),
            |i: int|
                if i / s.width < s.y || (i / s.width == s.y && i % s.width < s.x) {
                    spec_blank_cell(s.rend)
                } else {
                    s.cells[i]
                },
        )
    } else if mode == 2 || mode == 3 {
        spec_clear_all(s)
    } else {
        s.cells
    }
}

/// The whole buffer scrolled up by `n` rows: rows leaving at the top
/// are discarded, rows entering at the bottom are blank, every moved
/// cell is dirty; `n >= height` clears the whole buffer.
pub open spec fn spec_scroll_up_cells(s: Screen, n: int) -> Seq<Cell> {
    if n >= s.height {
        spec_clear_all(s)
    } else {
        Seq::new(
            s.cells.len(),
            |i: int|
                if i / s.width < s.height - n {
                    spec_dirty(s.cells[i + n * s.width])
                } else {
                    spec_blank_cell(s.rend)
                },
        )
    }
}

/// The whole buffer scrolled down by `n` rows, the mirror image of
/// scrolling up.
pub open spec fn spec_scroll_down_cells(s: Screen, n: int) -> Seq<Cell> {
    if n >= s.height {
        spec_clear_all(s)
    } else {
        Seq::new(
            s.cells.len(),
            |i: int|
                if i / s.width >= n {
                    spec_dirty(s.cells[i - n * s.width])
                } else {
                    spec_blank_cell(s.rend)
                },
        )
    }
}

/// The scroll region shifted up by `diff` rows: rows `top + diff ..=
/// bottom` move to `top ..= bottom - diff` (dirty), the bottom row of
/// the region is blanked, and every row outside `top ..= bottom` is
/// untouched.
pub open spec fn spec_region_scroll(s: Screen, diff: int) -> Seq<Cell> {
    Seq::new(
        s.cells.len(),
        |i: int|
            {
                let yy = i / s.width;
                if yy == s.bottom {
                    spec_blank_cell(s.rend)
                } else if s.top <= yy && yy + diff <= s.bottom {
                    spec_dirty(s.cells[i + diff * s.width])
                } else {
                    s.cells[i]
                }
            },
    )
}

/// Rows `[dst_y, dst_y + cnt)` replaced by dirty copies of the rows
/// starting at `src_y`, shifting content downwards (`src_y <= dst_y`);
/// all other rows untouched.
pub open spec fn spec_copy_rows_down(s: Screen, src_y: int, cnt: int, dst_y: int) -> Seq<Cell> {
    Seq::new(
        s.cells.len(),
        |i: int|
            if dst_y <= i / s.width < dst_y + cnt {
                spec_dirty(s.cells[i - (dst_y - src_y) * s.width])
            } else {
                s.cells[i]
            },
    )
}

/// Insert lines at the cursor, bounded by the scroll region: the rows
/// from the cursor (clamped into the region) shift down to the insert
/// target (also clamped), and the cursor's row is blanked.
pub open spec fn spec_insert_lines(s: Screen, n: u32) -> Seq<Cell> {
    let from_y = if s.y < s.top {
        s.top
    } else {
        s.y
    };
    let t0 = s.y + n;
    let to_y = if t0 < s.top {
        s.top
    } else if t0 >= s.bottom {
        s.bottom
    } else {
        t0
    };
    let cnt = s.bottom + 1 - to_y;
    let copied = spec_copy_rows_down(s, from_y, cnt, to_y);
    spec_clear_full_row(s, copied, s.y)
}

proof fn lemma_row_offset(w: int, h: int, i: int, k: int)
    requires
        1 <= w,
        0 <= i < w * h,
        0 <= k,
        i / w + k < h,
    ensures
        0 <= i + k * w < w * h,
        (i + k * w) / w == i / w + k,
        (i + k * w) % w == i % w,
{
    vstd::arithmetic::div_mod::lemma_fundamental_div_mod(i, w);
    vstd::arithmetic::div_mod::lemma_mod_bound(i, w);
    assert((i / w + k) * w + i % w == i + k * w) by (nonlinear_arith)
        requires
            i == w * (i / w) + (i % w),
    ;
    vstd::arithmetic::div_mod::lemma_fundamental_div_mod_converse(i + k * w, w, i / w + k, i % w);
    lemma_cell_index_bound(w, h, (i + k * w) % w, i / w + k);
}

proof fn lemma_row_offset_neg(w: int, h: int, i: int, k: int)
    requires
        1 <= w,
        0 <= i < w * h,
        0 <= k <= i / w,
    ensures
        0 <= i - k * w < w * h,
        (i - k * w) / w == i / w - k,
        (i - k * w) % w == i % w,
{
    vstd::arithmetic::div_mod::lemma_fundamental_div_mod(i, w);
    vstd::arithmetic::div_mod::lemma_mod_bound(i, w);
    assert((i / w - k) * w + i % w == i - k * w) by (nonlinear_arith)
        requires
            i == w * (i / w) + (i % w),
    ;
    vstd::arithmetic::div_mod::lemma_fundamental_div_mod_converse(i - k * w, w, i / w - k, i % w);
    lemma_idx(w, h, i);
    lemma_cell_index_bound(w, h, i % w, i / w - k);
}

impl TextArea {
    /// Erase in line at the cursor row; see `spec_clear_line_cells`.
    pub fn clear_line(&mut self, n: u32)
        requires
            old(self).wf(),
        ensures
            final(self).wf(),
            same_trim(*old(self), *final(self)),
            final(self)@ == (Screen { cells: spec_clear_line_cells(old(self)@, n), ..old(self)@ }),
    {
        let ghost g = self@;
        if n == 0 {
            self.clear_cols(self.x, self.width);
        } else if n == 1 {
            self.clear_cols(0, self.x);
        } else if n == 2 {
            self.clear_cols(0, self.width);
        } else {
            assert(self@ == (Screen { cells: spec_clear_line_cells(g, n), ..g }));
        }
    }

    /// Blanks columns `[x0, x1)` of the cursor row.
    fn clear_cols(&mut self, x0: usize, x1: usize)
        requires
            old(self).wf(),
            x1 <= old(self).width,
        ensures
            final(self).wf(),
            same_trim(*old(self), *final(self)),
            final(self)@ == (Screen {
                cells: spec_clear_cols(old(self)@, old(self)@.y, x0 as int, x1 as int),
                ..old(self)@
            }),
    {
        let ghost g = self@;
        let total: usize = self.width * self.height;
        let mut out: Vec<Cell> = Vec::new();
        let mut i: usize = 0;
        while i < total
            invariant
                self.wf(),
                g == self@,
                total == g.width * g.height,
                i <= total,
                out@.len() == i,
                x1 <= g.width,
                forall|t: int|
                    0 <= t < i ==> out@[t] == spec_clear_cols(g, g.y, x0 as int, x1 as int)[t],
            decreases total - i,
        {
            let yy = i / self.width;
            let xx = i % self.width;
            let c = if yy == self.y && x0 <= xx && xx < x1 {
                Cell {
                    ch: ' ',
                    fg: self.rend.fg,
                    bg: self.rend.bg,
                    bold: self.rend.bold,
                    inverse: self.rend.inverse,
                    dirty: true,
                }
            } else {
                self.cells[i]
            };
            out.push(c);
            i = i + 1;
        }
        self.cells = out;
        assert(self@.cells =~= spec_clear_cols(g, g.y, x0 as int, x1 as int));
    }

    /// Erase in display around the cursor; see `spec_clear_screen_cells`.
    pub fn clear_screen(&mut self, n: u32)
        requires
            old(self).wf(),
        ensures
            final(self).wf(),
            same_trim(*old(self), *final(self)),
            final(self)@ == (Screen { cells: spec_clear_screen_cells(old(self)@, n), ..old(self)@ }),
    {
        let ghost g = self@;
        if n > 3 {
            assert(self@ == (Screen { cells: spec_clear_screen_cells(g, n), ..g }));
            return ;
        }
        let total: usize = self.width * self.height;
        let mut out: Vec<Cell> = Vec::new();
        let mut i: usize = 0;
        while i < total
            invariant
                self.wf(),
                g == self@,
                total == g.width * g.height,
                i <= total,
                out@.len() == i,
                n <= 3,
                forall|t: int| 0 <= t < i ==> out@[t] == spec_clear_screen_cells(g, n)[t],
            decreases total - i,
        {
            let yy = i / self.width;
            let xx = i % self.width;
            let blankc = Cell {
                ch: ' ',
                fg: self.rend.fg,
                bg: self.rend.bg,
                bold: self.rend.bold,
                inverse: self.rend.inverse,
                dirty: true,
            };
            let c = if n == 0 {
                if yy > self.y || (yy == self.y && xx >= self.x) {
                    blankc
                } else {
                    self.cells[i]
                }
            } else if n == 1 {
                if yy < self.y || (yy == self.y && xx < self.x) {
                    blankc
                } else {
                    self.cells[i]
                }
            } else {
                blankc
            };
            out.push(c);
            i = i + 1;
        }
        self.cells = out;
        assert(self@.cells =~= spec_clear_screen_cells(g, n));
    }

    /// Scrolls the whole buffer up by `n` rows; see
    /// `spec_scroll_up_cells`.
    pub fn scroll_up(&mut self, n: u32)
        requires
            old(self).wf(),
        ensures
            final(self).wf(),
            same_trim(*old(self), *final(self)),
            final(self)@ == (Screen {
                cells: spec_scroll_up_cells(old(self)@, n as int),
                ..old(self)@
            }),
    {
        let ghost g = self@;
        if n as usize >= self.height {
            self.clear_screen(2);
            assert(spec_scroll_up_cells(g, n as int) =~= spec_clear_screen_cells(g, 2));
            return ;
        }
        let total: usize = self.width * self.height;
        proof {
            lemma_cell_index_bound(g.width, g.height, 0, n as int);
        }
        let off: usize = (n as usize) * self.width;
        let mut out: Vec<Cell> = Vec::new();
        let mut i: usize = 0;
        while i < total
            invariant
                self.wf(),
                g == self@,
                total == g.width * g.height,
                off == n * g.width,
                (n as int) < g.height,
                i <= total,
                out@.len() == i,
                forall|t: int| 0 <= t < i ==> out@[t] == spec_scroll_up_cells(g, n as int)[t],
            decreases total - i,
        {
            let yy = i / self.width;
            let c = if yy < self.height - (n as usize) {
                proof {
                    lemma_row_offset(g.width, g.height, i as int, n as int);
                }
                let src = self.cells[i + off];
                Cell { ch: src.ch, fg: src.fg, bg: src.bg, bold: src.bold, inverse: src.inverse, dirty: true }
            } else {
                Cell {
                    ch: ' ',
                    fg: self.rend.fg,
                    bg: self.rend.bg,
                    bold: self.rend.bold,
                    inverse: self.rend.inverse,
                    dirty: true,
                }
            };
            out.push(c);
            i = i + 1;
        }
        self.cells = out;
        assert(self@.cells =~= spec_scroll_up_cells(g, n as int));
    }

    /// Scrolls the whole buffer down by `n` rows; see
    /// `spec_scroll_down_cells`.
    pub fn scroll_down(&mut self, n: u32)
        requires
            old(self).wf(),
        ensures
            final(self).wf(),
            same_trim(*old(self), *final(self)),
            final(self)@ == (Screen {
                cells: spec_scroll_down_cells(old(self)@, n as int),
                ..old(self)@
            }),
    {
        let ghost g = self@;
        if n as usize >= self.height {
            self.clear_screen(2);
            assert(spec_scroll_down_cells(g, n as int) =~= spec_clear_screen_cells(g, 2));
            return ;
        }
        let total: usize = self.width * self.height;
        proof {
            lemma_cell_index_bound(g.width, g.height, 0, n as int);
        }
        let off: usize = (n as usize) * self.width;
        let mut out: Vec<Cell> = Vec::new();
        let mut i: usize = 0;
        while i < total
            invariant
                self.wf(),
                g == self@,
                total == g.width * g.height,
                off == n * g.width,
                (n as int) < g.height,
                i <= total,
                out@.len() == i,
                forall|t: int| 0 <= t < i ==> out@[t] == spec_scroll_down_cells(g, n as int)[t],
            decreases total - i,
        {
            let yy = i / self.width;
            let c = if yy >= n as usize {
                proof {
                    lemma_row_offset_neg(g.width, g.height, i as int, n as int);
                }
                let src = self.cells[i - off];
                Cell { ch: src.ch, fg: src.fg, bg: src.bg, bold: src.bold, inverse: src.inverse, dirty: true }
            } else {
                Cell {
                    ch: ' ',
                    fg: self.rend.fg,
                    bg: self.rend.bg,
                    bold: self.rend.bold,
                    inverse: self.rend.inverse,
                    dirty: true,
                }
            };
            out.push(c);
            i = i + 1;
        }
        self.cells = out;
        assert(self@.cells =~= spec_scroll_down_cells(g, n as int));
    }

    /// Shifts the scroll region up by `diff` rows and blanks the bottom
    /// row of the region; rows outside the region are untouched. See
    /// `spec_region_scroll`.
    fn region_scroll_up(&mut self, diff: usize)
        requires
            old(self).wf(),
            1 <= diff,
        ensures
            final(self).wf(),
            same_trim(*old(self), *final(self)),
            final(self)@ == (Screen { cells: spec_region_scroll(old(self)@, diff as int), ..old(self)@ }),
    {
        let ghost g = self@;
        let total: usize = self.width * self.height;
        let mut out: Vec<Cell> = Vec::new();
        let mut i: usize = 0;
        while i < total
            invariant
                self.wf(),
                g == self@,
                total == g.width * g.height,
                1 <= diff,
                i <= total,
                out@.len() == i,
                forall|t: int| 0 <= t < i ==> out@[t] == spec_region_scroll(g, diff as int)[t],
            decreases total - i,
        {
            let yy = i / self.width;
            let blankc = Cell {
                ch: ' ',
                fg: self.rend.fg,
                bg: self.rend.bg,
                bold: self.rend.bold,
                inverse: self.rend.inverse,
                dirty: true,
            };
            let c = if yy == self.bottom_margin {
                blankc
            } else if self.top_margin <= yy && yy <= self.bottom_margin && diff
                <= self.bottom_margin - yy {
                proof {
                    lemma_row_offset(g.width, g.height, i as int, diff as int);
                }
                let src = self.cells[i + diff * self.width];
                Cell { ch: src.ch, fg: src.fg, bg: src.bg, bold: src.bold, inverse: src.inverse, dirty: true }
            } else {
                self.cells[i]
            };
            out.push(c);
            i = i + 1;
        }
        self.cells = out;
        assert(self@.cells =~= spec_region_scroll(g, diff as int));
    }

    /// Inserts `n` lines at the cursor within the scroll region and
    /// blanks the cursor row; see `spec_insert_lines`.
    pub fn insert_lines(&mut self, n: u32)
        requires
            old(self).wf(),
        ensures
            final(self).wf(),
            same_trim(*old(self), *final(self)),
            final(self)@ == (Screen { cells: spec_insert_lines(old(self)@, n), ..old(self)@ }),
    {
        let ghost g = self@;
        let from_y: usize = if self.y < self.top_margin {
            self.top_margin
        } else {
            self.y
        };
        let to_y: usize = if (n as usize) >= self.bottom_margin - self.y {
            self.bottom_margin
        } else if self.y + (n as usize) < self.top_margin {
            self.top_margin
        } else {
            self.y + (n as usize)
        };
        assert(to_y == ({
            let t0 = g.y + n;
            if t0 < g.top {
                g.top
            } else if t0 >= g.bottom {
                g.bottom
            } else {
                t0
            }
        }));
        let ghost cnt = g.bottom + 1 - to_y;
        let k: usize = to_y - from_y;
        let total: usize = self.width * self.height;
        let mut out: Vec<Cell> = Vec::new();
        let mut i: usize = 0;
        while i < total
            invariant
                self.wf(),
                g == self@,
                total == g.width * g.height,
                g.top <= from_y <= to_y <= g.bottom,
                from_y >= g.y || from_y == g.top,
                k == to_y - from_y,
                cnt == g.bottom + 1 - to_y,
                i <= total,
                out@.len() == i,
                forall|t: int|
                    0 <= t < i ==> out@[t] == spec_clear_full_row(
                        g,
                        spec_copy_rows_down(g, from_y as int, cnt, to_y as int),
                        g.y,
                    )[t],
            decreases total - i,
        {
            let yy = i / self.width;
            let blankc = Cell {
                ch: ' ',
                fg: self.rend.fg,
                bg: self.rend.bg,
                bold: self.rend.bold,
                inverse: self.rend.inverse,
                dirty: true,
            };
            let c = if yy == self.y {
                blankc
            } else if to_y <= yy && yy <= self.bottom_margin {
                proof {
                    lemma_row_offset_neg(g.width, g.height, i as int, k as int);
                }
                let src = self.cells[i - k * self.width];
                Cell { ch: src.ch, fg: src.fg, bg: src.bg, bold: src.bold, inverse: src.inverse, dirty: true }
            } else {
                self.cells[i]
            };
            out.push(c);
            i = i + 1;
        }
        self.cells = out;
        assert(self@.cells =~= spec_insert_lines(g, n));
    }
}


// ------------------------------------------------------------------
// Cursor and state transitions
// ------------------------------------------------------------------

/// Moving the cursor to row `target`: a row beyond the bottom margin
/// scrolls the region up by the overflow and leaves the cursor on the
/// bottom margin, as for any advance past the margin.
pub open spec fn spec_advance_y(s: Screen, target: int) -> Screen {
    if target > s.bottom {
        Screen { y: s.bottom, cells: spec_region_scroll(s, target - s.bottom), ..s }
    } else {
        Screen { y: target, ..s }
    }
}

/// A line feed: column 0, one row down, scrolling the region when the
/// cursor sits on the bottom margin.
pub open spec fn spec_line_feed(s: Screen) -> Screen {
    spec_advance_y(Screen { x: 0, ..s }, s.y + 1)
}

/// Printing one character: `\n` line-feeds, `\r` returns to column 0,
/// backspace steps left and blanks that cell, any other control
/// character does nothing, and a printable character is written at the
/// cursor with the cursor advancing and wrapping (the wrap happens
/// right after a write in the last column).
pub open spec fn spec_print_char(s: Screen, ch: char) -> Screen {
    if ch == '\n' {
        spec_line_feed(s)
    } else if ch == '\r' {
        Screen { x: 0, ..s }
    } else if ch as u32 == 8 {
        if s.x > 0 {
            Screen {
                x: s.x - 1,
                cells: s.cells.update(s.y * s.width + (s.x - 1), spec_blank_cell(s.rend)),
                ..s
            }
        } else {
            s
        }
    } else if (ch as u32) < 0x20 {
        s
    } else {
        let w2 = spec_write_at(s, s.x, s.y, ch);
        if s.x + 1 < s.width {
            Screen { x: s.x + 1, ..w2 }
        } else {
            spec_line_feed(w2)
        }
    }
}

/// Cursor up: clamped at row 0, whatever `n` is.
pub open spec fn spec_cursor_up(s: Screen, n: u32) -> Screen {
    Screen {
        y: if n <= s.y {
            s.y - n
        } else {
            0
        },
        ..s
    }
}

/// Cursor back: clamped at column 0, whatever `n` is.
pub open spec fn spec_cursor_back(s: Screen, n: u32) -> Screen {
    Screen {
        x: if n <= s.x {
            s.x - n
        } else {
            0
        },
        ..s
    }
}

/// Cursor forward: clamped at the last column.
pub open spec fn spec_cursor_forward(s: Screen, n: u32) -> Screen {
    Screen {
        x: if s.x + n < s.width {
            s.x + n
        } else {
            s.width - 1
        },
        ..s
    }
}

/// Cursor next line: column 0 and down by `n` (capped at the screen
/// height), with the bottom-margin scroll rule.
pub open spec fn spec_cursor_next_line(s: Screen, n: u32) -> Screen {
    let t = if s.y + n > s.height {
        s.height
    } else {
        s.y + n
    };
    spec_advance_y(Screen { x: 0, ..s }, t)
}

/// Cursor previous line: column 0 and up by `n`, clamped at row 0.
pub open spec fn spec_cursor_prev_line(s: Screen, n: u32) -> Screen {
    Screen {
        x: 0,
        y: if n <= s.y {
            s.y - n
        } else {
            0
        },
        ..s
    }
}

/// Cursor horizontal absolute: the 1-based column `n` (0 treated as
/// column 0), clamped at the last column.
pub open spec fn spec_cursor_col(s: Screen, n: u32) -> Screen {
    Screen {
        x: if n == 0 {
            0
        } else if n - 1 < s.width {
            n - 1
        } else {
            s.width - 1
        },
        ..s
    }
}

/// Cursor vertical absolute: the 1-based row `n` (0 treated as row 0),
/// with the bottom-margin scroll rule.
pub open spec fn spec_cursor_row(s: Screen, n: u32) -> Screen {
    spec_advance_y(
        s,
        if n == 0 {
            0
        } else {
            n - 1
        },
    )
}

/// Cursor position: 1-based row and column (0 treated as 0), the column
/// clamped at the last column and the row subject to the bottom-margin
/// scroll rule.
pub open spec fn spec_cursor_pos(s: Screen, row: u32, col: u32) -> Screen {
    let s2 = Screen {
        x: if col == 0 {
            0
        } else if col - 1 < s.width {
            col - 1
        } else {
            s.width - 1
        },
        ..s
    };
    spec_advance_y(
        s2,
        if row == 0 {
            0
        } else {
            row - 1
        },
    )
}

/// Set scroll margins: 1-based top and bottom rows (0 treated as 0),
/// clamped into the grid, with the bottom forced below the top; the
/// cursor moves to the region's top-left.
pub open spec fn spec_set_margins(s: Screen, n: u32, m: u32) -> Screen {
    let t0: int = if n == 0 {
        0
    } else {
        n - 1
    };
    let b0: int = if m == 0 {
        0
    } else {
        m - 1
    };
    let t1: int = if t0 > s.height - 2 {
        s.height - 2
    } else {
        t0
    };
    let b1: int = if b0 > s.height - 1 {
        s.height - 1
    } else {
        b0
    };
    let b2: int = if b1 <= t1 {
        t1 + 1
    } else {
        b1
    };
    Screen { top: t1, bottom: b2, x: 0, y: t1, ..s }
}

/// Full reset: rendition and margins return to their defaults; the
/// grid and the cursor are left as they are.
pub open spec fn spec_reset(s: Screen) -> Screen {
    Screen { rend: spec_default_rendition(), top: 0, bottom: s.height - 1, ..s }
}

impl TextArea {
    /// Moves the cursor to row `t`, scrolling the region when `t` is
    /// below the bottom margin.
    fn advance_to_row(&mut self, t: usize)
        requires
            old(self).wf(),
        ensures
            final(self).wf(),
            same_trim(*old(self), *final(self)),
            final(self)@ == spec_advance_y(old(self)@, t as int),
    {
        if t <= self.bottom_margin {
            self.y = t;
        } else {
            let diff = t - self.bottom_margin;
            self.region_scroll_up(diff);
            self.y = self.bottom_margin;
        }
    }

    /// A line feed.
    fn line_feed(&mut self)
        requires
            old(self).wf(),
        ensures
            final(self).wf(),
            same_trim(*old(self), *final(self)),
            final(self)@ == spec_line_feed(old(self)@),
    {
        self.x = 0;
        let y1 = self.y + 1;
        self.advance_to_row(y1);
    }

    /// Prints one character at the cursor; see `spec_print_char`.
    pub fn print_char(&mut self, ch: char)
        requires
            old(self).wf(),
        ensures
            final(self).wf(),
            same_trim(*old(self), *final(self)),
            final(self)@ == spec_print_char(old(self)@, ch),
    {
        if ch == '\n' {
            self.line_feed();
        } else if ch == '\r' {
            self.x = 0;
        } else if ch == '\x08' {
            if self.x > 0 {
                self.x = self.x - 1;
                let x = self.x;
                let y = self.y;
                self.write_at(x, y, ' ');
            }
        } else if (ch as u32) < 0x20 {
        } else {
            let x = self.x;
            let y = self.y;
            self.write_at(x, y, ch);
            if self.x + 1 < self.width {
                self.x = self.x + 1;
            } else {
                self.line_feed();
            }
        }
    }

    /// Cursor up, clamped at row 0.
    pub fn cursor_up(&mut self, n: u32)
        requires
            old(self).wf(),
        ensures
            final(self).wf(),
            same_trim(*old(self), *final(self)),
            final(self)@ == spec_cursor_up(old(self)@, n),
    {
        if (n as usize) <= self.y {
            self.y = self.y - (n as usize);
        } else {
            self.y = 0;
        }
    }

    /// Cursor down by `n`, with the bottom-margin scroll rule.
    pub fn cursor_down(&mut self, n: u32)
        requires
            old(self).wf(),
        ensures
            final(self).wf(),
            same_trim(*old(self), *final(self)),
            final(self)@ == spec_advance_y(old(self)@, old(self)@.y + n),
    {
        if (n as usize) <= self.bottom_margin - self.y {
            self.y = self.y + (n as usize);
        } else {
            let diff = (n as usize) - (self.bottom_margin - self.y);
            self.region_scroll_up(diff);
            self.y = self.bottom_margin;
        }
    }

    /// Cursor forward, clamped at the last column.
    pub fn cursor_forward(&mut self, n: u32)
        requires
            old(self).wf(),
        ensures
            final(self).wf(),
            same_trim(*old(self), *final(self)),
            final(self)@ == spec_cursor_forward(old(self)@, n),
    {
        if (n as usize) < self.width - self.x {
            self.x = self.x + (n as usize);
        } else {
            self.x = self.width - 1;
        }
    }

    /// Cursor back, clamped at column 0.
    pub fn cursor_back(&mut self, n: u32)
        requires
            old(self).wf(),
        ensures
            final(self).wf(),
            same_trim(*old(self), *final(self)),
            final(self)@ == spec_cursor_back(old(self)@, n),
    {
        if (n as usize) <= self.x {
            self.x = self.x - (n as usize);
        } else {
            self.x = 0;
        }
    }

    /// Cursor to column 0 and down by `n` (capped at the screen
    /// height), with the bottom-margin scroll rule.
    pub fn cursor_next_line(&mut self, n: u32)
        requires
            old(self).wf(),
        ensures
            final(self).wf(),
            same_trim(*old(self), *final(self)),
            final(self)@ == spec_cursor_next_line(old(self)@, n),
    {
        self.x = 0;
        let t: usize = if (n as usize) >= self.height - self.y {
            self.height
        } else {
            self.y + (n as usize)
        };
        self.advance_to_row(t);
    }

    /// Cursor to column 0 and up by `n`, clamped at row 0.
    pub fn cursor_prev_line(&mut self, n: u32)
        requires
            old(self).wf(),
        ensures
            final(self).wf(),
            same_trim(*old(self), *final(self)),
            final(self)@ == spec_cursor_prev_line(old(self)@, n),
    {
        self.x = 0;
        if (n as usize) <= self.y {
            self.y = self.y - (n as usize);
        } else {
            self.y = 0;
        }
    }

    /// Cursor to the 1-based column `n`, clamped at the last column.
    pub fn cursor_col(&mut self, n: u32)
        requires
            old(self).wf(),
        ensures
            final(self).wf(),
            same_trim(*old(self), *final(self)),
            final(self)@ == spec_cursor_col(old(self)@, n),
    {
        if n == 0 {
            self.x = 0;
        } else if ((n - 1) as usize) < self.width {
            self.x = (n - 1) as usize;
        } else {
            self.x = self.width - 1;
        }
    }

    /// Cursor to the 1-based row `n`, with the bottom-margin scroll
    /// rule.
    pub fn cursor_row(&mut self, n: u32)
        requires
            old(self).wf(),
        ensures
            final(self).wf(),
            same_trim(*old(self), *final(self)),
            final(self)@ == spec_cursor_row(old(self)@, n),
    {
        let t: usize = if n == 0 {
            0
        } else {
            (n - 1) as usize
        };
        self.advance_to_row(t);
    }

    /// Cursor to the 1-based position `(row, col)`.
    pub fn cursor_pos(&mut self, row: u32, col: u32)
        requires
            old(self).wf(),
        ensures
            final(self).wf(),
            same_trim(*old(self), *final(self)),
            final(self)@ == spec_cursor_pos(old(self)@, row, col),
    {
        if col == 0 {
            self.x = 0;
        } else if ((col - 1) as usize) < self.width {
            self.x = (col - 1) as usize;
        } else {
            self.x = self.width - 1;
        }
        let t: usize = if row == 0 {
            0
        } else {
            (row - 1) as usize
        };
        self.advance_to_row(t);
    }

    /// Select graphic rendition: applies the parameter list `n`
    /// followed by `m` to the current rendition.
    pub fn sgr(&mut self, n: u32, m: Vec<u32>)
        requires
            old(self).wf(),
        ensures
            final(self).wf(),
            same_trim(*old(self), *final(self)),
            final(self)@ == (Screen {
                rend: spec_apply_sgr(old(self)@.rend, seq![n] + m@),
                ..old(self)@
            }),
    {
        let mut codes: Vec<u32> = Vec::new();
        codes.push(n);
        let mut k: usize = 0;
        while k < m.len()
            invariant
                k <= m@.len(),
                codes@.len() == k + 1,
                codes@[0] == n,
                forall|t: int| 0 <= t < k ==> codes@[t + 1] == m@[t],
            decreases m@.len() - k,
        {
            codes.push(m[k]);
            k = k + 1;
        }
        assert(codes@ =~= seq![n] + m@);
        self.rend = apply_sgr(self.rend, &codes);
    }

    /// Set the scroll margins from 1-based rows, clamped into the grid,
    /// and move the cursor to the region's top-left.
    pub fn decstbm(&mut self, n: u32, m: u32)
        requires
            old(self).wf(),
        ensures
            final(self).wf(),
            same_trim(*old(self), *final(self)),
            final(self)@ == spec_set_margins(old(self)@, n, m),
    {
        let t0: usize = if n == 0 {
            0
        } else {
            (n - 1) as usize
        };
        let b0: usize = if m == 0 {
            0
        } else {
            (m - 1) as usize
        };
        let t1: usize = if t0 > self.height - 2 {
            self.height - 2
        } else {
            t0
        };
        let b1: usize = if b0 > self.height - 1 {
            self.height - 1
        } else {
            b0
        };
        let b2: usize = if b1 <= t1 {
            t1 + 1
        } else {
            b1
        };
        self.top_margin = t1;
        self.bottom_margin = b2;
        self.x = 0;
        self.y = t1;
    }

    /// Full reset: rendition and margins return to their defaults; the
    /// grid contents and the cursor are kept.
    pub fn reset(&mut self)
        requires
            old(self).wf(),
        ensures
            final(self).wf(),
            same_trim(*old(self), *final(self)),
            final(self)@ == spec_reset(old(self)@),
    {
        self.rend = default_rendition();
        self.top_margin = 0;
        self.bottom_margin = self.height - 1;
    }
}


// ------------------------------------------------------------------
// Token dispatch and the write batch
// ------------------------------------------------------------------

/// What applying one decoded CSI operation does to the screen.
pub open spec fn spec_apply_csi(s: Screen, op: SpecCsi) -> Screen {
    match op {
        SpecCsi::CUU(n) => spec_cursor_up(s, n),
        SpecCsi::CUD(n) => spec_advance_y(s, s.y + n),
        SpecCsi::CUF(n) => spec_cursor_forward(s, n),
        SpecCsi::CUB(n) => spec_cursor_back(s, n),
        SpecCsi::CNL(n) => spec_cursor_next_line(s, n),
        SpecCsi::CPL(n) => spec_cursor_prev_line(s, n),
        SpecCsi::CHA(n) => spec_cursor_col(s, n),
        SpecCsi::CVA(n) => spec_cursor_row(s, n),
        SpecCsi::CUP(n, m) => spec_cursor_pos(s, n, m),
        SpecCsi::HVP(n, m) => spec_cursor_pos(s, n, m),
        SpecCsi::ED(n) => Screen { cells: spec_clear_screen_cells(s, n), ..s },
        SpecCsi::EL(n) => Screen { cells: spec_clear_line_cells(s, n), ..s },
        SpecCsi::SU(n) => Screen { cells: spec_scroll_up_cells(s, n as int), ..s },
        SpecCsi::SD(n) => Screen { cells: spec_scroll_down_cells(s, n as int), ..s },
        SpecCsi::IL(n) => Screen { cells: spec_insert_lines(s, n), ..s },
        SpecCsi::SGR(n, list) => Screen { rend: spec_apply_sgr(s.rend, seq![n] + list), ..s },
        SpecCsi::DECSTBM(n, m) => spec_set_margins(s, n, m),
        SpecCsi::DECSLRM(_, _) => s,
        SpecCsi::Unknown => s,
    }
}

/// What applying one decoded token does: CSI operations mutate the
/// screen, an OSC window title is handed out as an event, RIS resets
/// rendition and margins, and every other token is a no-op.
pub open spec fn spec_apply_token(s: Screen, t: SpecTok) -> (Screen, Option<Seq<u8>>) {
    match t {
        SpecTok::CSI(op) => (spec_apply_csi(s, op), None),
        SpecTok::OSC(o) => match o {
            SpecOsc::WindowTitle(tt) => (s, Some(tt)),
            SpecOsc::Unknown => (s, None),
        },
        SpecTok::RIS => (spec_reset(s), None),
        _ => (s, None),
    }
}

/// The view of an optional byte vector.
pub open spec fn spec_opt_bytes(o: Option<Vec<u8>>) -> Option<Seq<u8>> {
    match o {
        Some(v) => Some(v@),
        None => None,
    }
}

/// One write batch over the bytes `data` from position `i`: plain bytes
/// are printed, an ESC byte is parsed as an escape sequence and its
/// token applied, an incomplete trailing sequence is kept in the buffer
/// for the next batch, and the window titles set along the way are
/// collected in order.
pub open spec fn spec_run(s: Screen, data: Seq<u8>, i: int) -> (Screen, Seq<Seq<u8>>)
    decreases data.len() - i,
{
    let s0 = Screen { buf: Seq::empty(), ..s };
    if i < 0 || i >= data.len() {
        (s0, Seq::empty())
    } else if data[i] == 0x1b {
        let r = spec_escape_at(data, i);
        if r.1 < 1 {
            (Screen { buf: data.skip(i), ..s0 }, Seq::empty())
        } else {
            let a = spec_apply_token(s0, r.0);
            let next = if i + r.1 > data.len() {
                data.len() as int
            } else {
                i + r.1
            };
            let rest = spec_run(a.0, data, next);
            (
                rest.0,
                match a.1 {
                    Some(t) => seq![t] + rest.1,
                    None => rest.1,
                },
            )
        }
    } else {
        spec_run(spec_print_char(s0, data[i] as char), data, i + 1)
    }
}

/// Copies the tail of a byte vector from position `i`.
fn tail_from(v: &Vec<u8>, i: usize) -> (r: Vec<u8>)
    requires
        i <= v@.len(),
    ensures
        r@ == v@.skip(i as int),
{
    let mut r: Vec<u8> = Vec::new();
    let mut k: usize = i;
    while k < v.len()
        invariant
            i <= k <= v@.len(),
            r@ == v@.subrange(i as int, k as int),
        decreases v@.len() - k,
    {
        let ghost gr = r@;
        r.push(v[k]);
        proof {
            assert(r@ =~= v@.subrange(i as int, k + 1));
        }
        k = k + 1;
    }
    assert(r@ =~= v@.skip(i as int));
    r
}

/// Copies a parameter list.
fn copy_u32s(v: &Vec<u32>) -> (r: Vec<u32>)
    ensures
        r@ == v@,
{
    let mut r: Vec<u32> = Vec::new();
    let mut k: usize = 0;
    while k < v.len()
        invariant
            k <= v@.len(),
            r@ == v@.take(k as int),
        decreases v@.len() - k,
    {
        r.push(v[k]);
        proof {
            assert(r@ =~= v@.take(k + 1));
        }
        k = k + 1;
    }
    assert(r@ =~= v@);
    r
}

/// Copies a byte string.
fn copy_bytes(v: &Vec<u8>) -> (r: Vec<u8>)
    ensures
        r@ == v@,
{
    let mut r: Vec<u8> = Vec::new();
    let mut k: usize = 0;
    while k < v.len()
        invariant
            k <= v@.len(),
            r@ == v@.take(k as int),
        decreases v@.len() - k,
    {
        r.push(v[k]);
        proof {
            assert(r@ =~= v@.take(k + 1));
        }
        k = k + 1;
    }
    assert(r@ =~= v@);
    r
}

impl TextArea {
    /// Applies one decoded escape token; a window-title token is handed
    /// back instead of being stored, everything unknown is skipped with
    /// the state unchanged.
    pub fn apply_token(&mut self, t: &AnsiType) -> (r: Option<Vec<u8>>)
        requires
            old(self).wf(),
        ensures
            final(self).wf(),
            same_trim(*old(self), *final(self)),
            final(self)@ == spec_apply_token(old(self)@, t@).0,
            spec_opt_bytes(r) == spec_apply_token(old(self)@, t@).1,
    {
        match t {
            AnsiType::CSI { kind } => {
                match kind {
                    CSIType::CUU(n) => {
                        self.cursor_up(*n);
                        None
                    },
                    CSIType::CUD(n) => {
                        self.cursor_down(*n);
                        None
                    },
                    CSIType::CUF(n) => {
                        self.cursor_forward(*n);
                        None
                    },
                    CSIType::CUB(n) => {
                        self.cursor_back(*n);
                        None
                    },
                    CSIType::CNL(n) => {
                        self.cursor_next_line(*n);
                        None
                    },
                    CSIType::CPL(n) => {
                        self.cursor_prev_line(*n);
                        None
                    },
                    CSIType::CHA(n) => {
                        self.cursor_col(*n);
                        None
                    },
                    CSIType::CVA(n) => {
                        self.cursor_row(*n);
                        None
                    },
                    CSIType::CUP(n, m) => {
                        self.cursor_pos(*n, *m);
                        None
                    },
                    CSIType::HVP(n, m) => {
                        self.cursor_pos(*n, *m);
                        None
                    },
                    CSIType::ED(n) => {
                        self.clear_screen(*n);
                        None
                    },
                    CSIType::EL(n) => {
                        self.clear_line(*n);
                        None
                    },
                    CSIType::SU(n) => {
                        self.scroll_up(*n);
                        None
                    },
                    CSIType::SD(n) => {
                        self.scroll_down(*n);
                        None
                    },
                    CSIType::IL(n) => {
                        self.insert_lines(*n);
                        None
                    },
                    CSIType::SGR(n, list) => {
                        let args = copy_u32s(list);
                        self.sgr(*n, args);
                        None
                    },
                    CSIType::DECSTBM(n, m) => {
                        self.decstbm(*n, *m);
                        None
                    },
                    CSIType::DECSLRM(_, _) => None,
                    CSIType::Unknown(_) => None,
                }
            },
            AnsiType::OSC { kind } => {
                match kind {
                    OSCType::WindowTitle(tt) => Some(copy_bytes(tt)),
                    OSCType::Unknown(_) => None,
                }
            },
            AnsiType::RIS => {
                self.reset();
                None
            },
            _ => None,
        }
    }

    /// Processes one chunk of input bytes: anything left buffered from
    /// the previous call is prepended, complete escape sequences are
    /// decoded and applied, plain bytes are printed, an incomplete
    /// trailing sequence is buffered for the next call, and the window
    /// titles requested by OSC sequences are returned in order.
    pub fn print_str(&mut self, s: &Vec<u8>) -> (titles: Vec<Vec<u8>>)
        requires
            old(self).wf(),
        ensures
            final(self).wf(),
            same_trim(*old(self), *final(self)),
            final(self)@ == spec_run(old(self)@, old(self)@.buf + s@, 0).0,
            titles.deep_view() == spec_run(old(self)@, old(self)@.buf + s@, 0).1,
    {
        let ghost g0 = self@;
        let ghost gd = g0.buf + s@;
        let mut data: Vec<u8> = Vec::new();
        let mut k: usize = 0;
        while k < self.buf.len()
            invariant
                *self == *old(self),
                k <= self.buf@.len(),
                data@ == self.buf@.take(k as int),
            decreases self.buf@.len() - k,
        {
            data.push(self.buf[k]);
            proof {
                assert(data@ =~= self.buf@.take(k + 1));
            }
            k = k + 1;
        }
        assert(data@ =~= g0.buf);
        let mut k2: usize = 0;
        while k2 < s.len()
            invariant
                *self == *old(self),
                k2 <= s@.len(),
                data@ == old(self)@.buf + s@.take(k2 as int),
            decreases s@.len() - k2,
        {
            data.push(s[k2]);
            proof {
                assert(data@ =~= old(self)@.buf + s@.take(k2 + 1));
            }
            k2 = k2 + 1;
        }
        assert(data@ =~= gd);
        self.buf = Vec::new();
        assert(self@.buf =~= Seq::<u8>::empty());
        let mut titles: Vec<Vec<u8>> = Vec::new();
        assert(titles.deep_view() =~= Seq::<Seq<u8>>::empty());
        let mut i: usize = 0;
        proof {
            assert((Screen { buf: Seq::<u8>::empty(), ..g0 }) == (Screen {
                buf: Seq::<u8>::empty(),
                ..self@
            }));
            assert(spec_run(g0, gd, 0) == spec_run(self@, gd, 0));
            assert(titles.deep_view() + spec_run(self@, gd, 0).1 =~= spec_run(self@, gd, 0).1);
        }
        while i < data.len()
            invariant
                self.wf(),
                same_trim(*old(self), *self),
                g0 == old(self)@,
                gd == old(self)@.buf + s@,
                i <= gd.len(),
                data@ == gd,
                self@.buf == Seq::<u8>::empty(),
                spec_run(g0, gd, 0).0 == spec_run(self@, gd, i as int).0,
                spec_run(g0, gd, 0).1 == titles.deep_view() + spec_run(self@, gd, i as int).1,
            decreases gd.len() - i,
        {
            let ghost pre = self@;
            let ghost tpre = titles.deep_view();
            let b = data[i];
            if b == 0x1b {
                let (tok, used) = escape_from(&data, i);
                proof {
                    lemma_escape_at_bounds(gd, i as int);
                }
                if used == 0 {
                    self.buf = tail_from(&data, i);
                    proof {
                        let rr = spec_run(pre, gd, i as int);
                        assert((Screen { buf: Seq::<u8>::empty(), ..pre }) == pre);
                        assert(rr.0 == (Screen { buf: gd.skip(i as int), ..pre }));
                        assert(self@ == rr.0);
                        assert(tpre + rr.1 =~= tpre);
                    }
                    return titles;
                }
                let title = self.apply_token(&tok);
                match title {
                    Some(t) => {
                        let ghost gtt = t@;
                        titles.push(t);
                        proof {
                            assert(titles.deep_view() =~~= tpre.push(gtt));
                        }
                    },
                    None => {},
                }
                i = i + used;
                proof {
                    assert((Screen { buf: Seq::<u8>::empty(), ..pre }) == pre);
                    let r = spec_escape_at(gd, i as int - used);
                    let a = spec_apply_token(pre, r.0);
                    let rest = spec_run(a.0, gd, i as int);
                    assert(a.0 == self@);
                    assert(spec_run(pre, gd, i as int - used).0 == rest.0);
                    match a.1 {
                        Some(t) => {
                            assert(spec_run(pre, gd, i as int - used).1 == seq![t] + rest.1);
                            assert(tpre + (seq![t] + rest.1) =~= (tpre.push(t)) + rest.1);
                        },
                        None => {
                            assert(spec_run(pre, gd, i as int - used).1 == rest.1);
                        },
                    }
                }
            } else {
                self.print_char(b as char);
                i = i + 1;
                proof {
                    assert((Screen { buf: Seq::<u8>::empty(), ..pre }) == pre);
                    assert(spec_run(pre, gd, i as int - 1) == spec_run(self@, gd, i as int));
                }
            }
        }
        proof {
            let rr = spec_run(self@, gd, i as int);
            assert(rr.0 == (Screen { buf: Seq::<u8>::empty(), ..self@ }));
            assert((Screen { buf: Seq::<u8>::empty(), ..self@ }) == self@);
            assert(titles.deep_view() + rr.1 =~= titles.deep_view());
        }
        titles
    }

    /// The render handoff: hands out a copy of the grid together with
    /// the cursor position and visibility, and clears every dirty bit.
    /// This is the single synchronization point with a renderer.
    pub fn snapshot_and_clear_dirty(&mut self) -> (r: (Vec<Cell>, (usize, usize), bool))
        requires
            old(self).wf(),
        ensures
            final(self).wf(),
            same_trim(*old(self), *final(self)),
            r.0@ == old(self)@.cells,
            r.1.0 == old(self).x && r.1.1 == old(self).y,
            r.2 == old(self).cursor_visible,
            final(self)@ == (Screen {
                cells: Seq::new(old(self)@.cells.len(), |i: int| spec_clean(old(self)@.cells[i])),
                ..old(self)@
            }),
    {
        let ghost g = self@;
        let mut snap: Vec<Cell> = Vec::new();
        let mut i: usize = 0;
        let total: usize = self.width * self.height;
        while i < total
            invariant
                *self == *old(self),
                self.wf(),
                total == g.width * g.height,
                g == self@,
                i <= total,
                snap@ == g.cells.take(i as int),
            decreases total - i,
        {
            snap.push(self.cells[i]);
            proof {
                assert(snap@ =~= g.cells.take(i + 1));
            }
            i = i + 1;
        }
        assert(snap@ =~= g.cells);
        let mut out: Vec<Cell> = Vec::new();
        let mut k: usize = 0;
        while k < total
            invariant
                self.wf(),
                g == self@,
                total == g.width * g.height,
                k <= total,
                out@.len() == k,
                forall|t: int| 0 <= t < k ==> out@[t] == spec_clean(g.cells[t]),
            decreases total - k,
        {
            let c = self.cells[k];
            out.push(Cell { ch: c.ch, fg: c.fg, bg: c.bg, bold: c.bold, inverse: c.inverse, dirty: false });
            k = k + 1;
        }
        let x = self.x;
        let y = self.y;
        let vis = self.cursor_visible;
        self.cells = out;
        assert(self@.cells =~= Seq::new(g.cells.len(), |i: int| spec_clean(g.cells[i])));
        (snap, (x, y), vis)
    }
}

/// A cell with its dirty bit cleared.
pub open spec fn spec_clean(c: Cell) -> Cell {
    Cell { ch: c.ch, fg: c.fg, bg: c.bg, bold: c.bold, inverse: c.inverse, dirty: false }
}


// ------------------------------------------------------------------
// Laws
// ------------------------------------------------------------------

/// Cursor clamping: cursor-up and cursor-back never leave the grid at
/// row 0 or column 0, whatever `n` is; cursor-forward never moves past
/// the last column; and a downward advance never moves past the bottom
/// margin, and so never past the last row.
pub proof fn lemma_cursor_clamping(s: Screen, n: u32)
    requires
        screen_wf(s),
    ensures
        0 <= spec_cursor_up(s, n).y <= s.y,
        0 <= spec_cursor_back(s, n).x <= s.x,
        s.x <= spec_cursor_forward(s, n).x <= s.width - 1,
        spec_advance_y(s, s.y + n).y <= s.bottom <= s.height - 1,
        screen_wf(spec_cursor_up(s, n)),
        screen_wf(spec_cursor_back(s, n)),
        screen_wf(spec_cursor_forward(s, n)),
{
}

/// A line feed on the bottom row with no scroll region set (the region
/// is the whole screen) shifts every row up by one, marking the moved
/// cells dirty, and leaves a blank bottom row under the rendition
/// active at the overflow; the cursor returns to column 0 of the
/// bottom row.
pub proof fn lemma_line_feed_scrolls(s: Screen)
    requires
        screen_wf(s),
        s.top == 0,
        s.bottom == s.height - 1,
        s.y == s.height - 1,
    ensures
        spec_line_feed(s).x == 0,
        spec_line_feed(s).y == s.height - 1,
        forall|x: int, yy: int|
            0 <= x < s.width && 0 <= yy < s.height - 1 ==> #[trigger] spec_cell_at(
                spec_line_feed(s),
                x,
                yy,
            ) == spec_dirty(spec_cell_at(s, x, yy + 1)),
        forall|x: int|
            0 <= x < s.width ==> #[trigger] spec_cell_at(spec_line_feed(s), x, s.height - 1)
                == spec_blank_cell(s.rend),
{
    let s2 = spec_line_feed(s);
    assert(s2.cells == spec_region_scroll(Screen { x: 0, ..s }, 1));
    assert forall|x: int, yy: int|
        0 <= x < s.width && 0 <= yy < s.height - 1 implies #[trigger] spec_cell_at(s2, x, yy)
        == spec_dirty(spec_cell_at(s, x, yy + 1)) by {
        lemma_rowcol(s.width, x, yy);
        lemma_cell_index_bound(s.width, s.height, x, yy);
        lemma_cell_index_bound(s.width, s.height, x, yy + 1);
        assert(yy * s.width + x + s.width == (yy + 1) * s.width + x) by (nonlinear_arith);
    }
    assert forall|x: int|
        0 <= x < s.width implies #[trigger] spec_cell_at(s2, x, s.height - 1) == spec_blank_cell(
        s.rend,
    ) by {
        lemma_rowcol(s.width, x, s.height - 1);
        lemma_cell_index_bound(s.width, s.height, x, s.height - 1);
    }
}

/// A region scroll touches only the scroll region: every row above the
/// top margin or below the bottom margin is byte-for-byte unchanged;
/// rows that stay inside the region move up by `diff` (dirty), and the
/// bottom row of the region is blanked.
pub proof fn lemma_region_scroll_outside_unchanged(s: Screen, diff: int)
    requires
        screen_wf(s),
        1 <= diff,
    ensures
        forall|x: int, yy: int|
            0 <= x < s.width && 0 <= yy < s.height && (yy < s.top || yy > s.bottom)
                ==> #[trigger] spec_cell_at(
                Screen { cells: spec_region_scroll(s, diff), ..s },
                x,
                yy,
            ) == spec_cell_at(s, x, yy),
        forall|x: int, yy: int|
            0 <= x < s.width && s.top <= yy && yy + diff <= s.bottom ==> #[trigger] spec_cell_at(
                Screen { cells: spec_region_scroll(s, diff), ..s },
                x,
                yy,
            ) == spec_dirty(spec_cell_at(s, x, yy + diff)),
        forall|x: int|
            0 <= x < s.width ==> #[trigger] spec_cell_at(
                Screen { cells: spec_region_scroll(s, diff), ..s },
                x,
                s.bottom,
            ) == spec_blank_cell(s.rend),
{
    let s2 = Screen { cells: spec_region_scroll(s, diff), ..s };
    assert forall|x: int, yy: int|
        0 <= x < s.width && 0 <= yy < s.height && (yy < s.top || yy > s.bottom)
            implies #[trigger] spec_cell_at(s2, x, yy) == spec_cell_at(s, x, yy) by {
        lemma_rowcol(s.width, x, yy);
        lemma_cell_index_bound(s.width, s.height, x, yy);
    }
    assert forall|x: int, yy: int|
        0 <= x < s.width && s.top <= yy && yy + diff <= s.bottom implies #[trigger] spec_cell_at(
        s2,
        x,
        yy,
    ) == spec_dirty(spec_cell_at(s, x, yy + diff)) by {
        lemma_rowcol(s.width, x, yy);
        lemma_cell_index_bound(s.width, s.height, x, yy);
        lemma_cell_index_bound(s.width, s.height, x, yy + diff);
        assert(yy * s.width + x + diff * s.width == (yy + diff) * s.width + x) by (nonlinear_arith);
    }
    assert forall|x: int|
        0 <= x < s.width implies #[trigger] spec_cell_at(s2, x, s.bottom) == spec_blank_cell(
        s.rend,
    ) by {
        lemma_rowcol(s.width, x, s.bottom);
        lemma_cell_index_bound(s.width, s.height, x, s.bottom);
    }
}

} // verus!
