//! Frame composition and ANSI/plain writers.
//!
//! Screen layout for a terminal of `w` x `h` cells:
//!
//! ```text
//!   row 0 ..= h-3 : map area (top-aligned); cells at x in 1..=w-2 (1-cell side
//!                   margins), backed by a braille dot grid of 2*(w-2) x 4*(h-2) dots
//!   row h-2       : blank separator margin
//!   row h-1       : clock line, centered, Style::Clock
//! ```
//!
//! Per cell, three dot layers are composed: land, the terminator curve, and
//! (optionally) the civil-twilight curve. Curve dots win the *style*
//! (`Terminator`) but land dots still merge into the glyph mask, so a terminator
//! crossing a continent shows both. Cells without any dot inside the map oval
//! stay blank.
use vstd::prelude::*;
use crate::raster::{spec_braille, braille, Canvas};
use crate::solar::Shading;
use vstd::utf8::{char_is_scalar, encode_scalar};

verus! {

#[derive(Clone, Copy, PartialEq, Eq, Debug, Structural)]
pub enum Style {
    Blank,
    DaySea,
    DayLand,
    TwiSea,
    TwiLand,
    NightSea,
    NightLand,
    Terminator,
    Clock,
}

#[derive(Clone, Copy, PartialEq, Eq, Debug, Structural)]
pub struct Cell {
    pub sym: char,
    pub style: Style,
}

/// The blank cell: a space in the blank style.
pub open spec fn blank_cell() -> Cell {
    Cell { sym: ' ', style: Style::Blank }
}

impl Cell {
    /// The blank cell: a space in the blank style.
    pub fn blank() -> (c: Cell)
        ensures
            c == blank_cell(),
    {
        Cell { sym: ' ', style: Style::Blank }
    }
}

#[derive(Clone, PartialEq, Debug)]
pub struct Frame {
    pub w: usize,
    pub h: usize,
    pub cells: Vec<Cell>,  // row-major
}

impl Frame {
    /// The cell storage matches the frame's size.
    pub open spec fn wf(&self) -> bool {
        &&& self.cells@.len() == self.w * self.h
        &&& self.w * self.h <= usize::MAX
    }

    /// Cell at column `x`, row `y`.
    pub open spec fn at(&self, x: int, y: int) -> Cell {
        self.cells@[y * self.w + x]
    }

    /// New `w` x `h` frame filled with `fill`. Cells are row-major, `(x, y)` indexed.
    pub fn new(w: usize, h: usize, fill: Cell) -> (f: Self)
        requires
            w * h <= usize::MAX,
        ensures
            f.wf(),
            f.w == w,
            f.h == h,
            f.cells@ == Seq::new((w * h) as nat, |i: int| fill),
    {
        let f = Frame { w, h, cells: vec![fill; w * h] };
        assert(f.cells@ == Seq::new((w * h) as nat, |i: int| fill));
        f
    }

    /// Cell at column `x`, row `y`.
    pub fn get(&self, x: usize, y: usize) -> (c: Cell)
        requires
            self.wf(),
            x < self.w,
            y < self.h,
        ensures
            c == self.at(x as int, y as int),
    {
        proof { lemma_cell_index(self.w as int, self.h as int, x as int, y as int); }
        self.cells[y * self.w + x]
    }

    /// Overwrite the cell at column `x`, row `y`.
    pub fn set(&mut self, x: usize, y: usize, c: Cell)
        requires
            old(self).wf(),
            x < old(self).w,
            y < old(self).h,
        ensures
            final(self).w == old(self).w,
            final(self).h == old(self).h,
            final(self).cells@ == old(self).cells@.update(y * old(self).w + x, c),
            final(self).wf(),
    {
        proof { lemma_cell_index(self.w as int, self.h as int, x as int, y as int); }
        let i = y * self.w + x;
        self.cells.set(i, c);
    }
}

/// Row-major indexing stays inside the grid.
pub proof fn lemma_cell_index(w: int, h: int, x: int, y: int)
    requires
        0 <= x < w,
        0 <= y < h,
    ensures
        0 <= y * w + x < w * h,
{
    assert(0 <= y * w + x < w * h) by (nonlinear_arith)
        requires
            0 <= x < w,
            0 <= y < h,
    ;
}

/// Distinct grid positions have distinct row-major indices.
pub proof fn lemma_cell_index_unique(w: int, x: int, y: int, x2: int, y2: int)
    requires
        0 <= x < w,
        0 <= x2 < w,
        0 <= y,
        0 <= y2,
        y * w + x == y2 * w + x2,
    ensures
        x == x2,
        y == y2,
{
    if y < y2 {
        assert(y * w + w <= y2 * w) by (nonlinear_arith)
            requires
                y < y2,
                0 <= w,
        ;
    } else if y2 < y {
        assert(y2 * w + w <= y * w) by (nonlinear_arith)
            requires
                y2 < y,
                0 <= w,
        ;
    }
}

// ---------------------------------------------------------------- styles

/// The sea style of a shading band.
pub open spec fn spec_sea_style(shading: Shading) -> Style {
    match shading {
        Shading::Day => Style::DaySea,
        Shading::CivilTwilight => Style::TwiSea,
        Shading::Night => Style::NightSea,
    }
}

/// The land style of a shading band.
pub open spec fn spec_land_style(shading: Shading) -> Style {
    match shading {
        Shading::Day => Style::DayLand,
        Shading::CivilTwilight => Style::TwiLand,
        Shading::Night => Style::NightLand,
    }
}

/// The sea style of a shading band.
pub fn sea_style(shading: Shading) -> (s: Style)
    ensures
        s == spec_sea_style(shading),
{
    match shading {
        Shading::Day => Style::DaySea,
        Shading::CivilTwilight => Style::TwiSea,
        Shading::Night => Style::NightSea,
    }
}

/// The land style of a shading band.
pub fn land_style(shading: Shading) -> (s: Style)
    ensures
        s == spec_land_style(shading),
{
    match shading {
        Shading::Day => Style::DayLand,
        Shading::CivilTwilight => Style::TwiLand,
        Shading::Night => Style::NightLand,
    }
}

/// The cell a map position shows, from its land dots (already clipped to the
/// oval), its curve dots (terminator and twilight), and its shading band.
pub open spec fn spec_map_cell(ascii: bool, land_mask: u8, curve_mask: u8, shading: Shading) -> Cell {
    if ascii {
        if curve_mask != 0 {
            Cell { sym: '.', style: Style::Terminator }
        } else if land_mask != 0 {
            Cell { sym: '#', style: spec_land_style(shading) }
        } else {
            Cell { sym: ' ', style: spec_sea_style(shading) }
        }
    } else if curve_mask != 0 {
        Cell { sym: spec_braille(land_mask | curve_mask), style: Style::Terminator }
    } else if land_mask != 0 {
        Cell { sym: spec_braille(land_mask), style: spec_land_style(shading) }
    } else {
        Cell { sym: ' ', style: spec_sea_style(shading) }
    }
}

/// The cell a map position shows: in ASCII mode '.' for curves, '#' for land,
/// ' ' for sea; otherwise the braille glyph of the land and curve dots. Curve
/// dots take the `Terminator` style; land and sea take their shading's style.
pub fn map_cell(ascii: bool, land_mask: u8, curve_mask: u8, shading: Shading) -> (c: Cell)
    ensures
        c == spec_map_cell(ascii, land_mask, curve_mask, shading),
{
    if ascii {
        if curve_mask != 0 {
            Cell { sym: '.', style: Style::Terminator }
        } else if land_mask != 0 {
            Cell { sym: '#', style: land_style(shading) }
        } else {
            Cell { sym: ' ', style: sea_style(shading) }
        }
    } else if curve_mask != 0 {
        Cell { sym: braille(land_mask | curve_mask), style: Style::Terminator }
    } else if land_mask != 0 {
        Cell { sym: braille(land_mask), style: land_style(shading) }
    } else {
        Cell { sym: ' ', style: sea_style(shading) }
    }
}

// ---------------------------------------------------------------- clock row

/// The part of the clock line that is shown on a row `w` cells wide: all of it
/// when it fits, else its leading `w - 2` characters (the trailing subsolar
/// readout is dropped first).
pub open spec fn clock_kept(line: Seq<char>, w: int) -> Seq<char> {
    if line.len() <= w {
        line
    } else {
        line.take(if w >= 2 { w - 2 } else { 0 })
    }
}

/// Left padding that centers the kept clock text on a row `w` cells wide.
pub open spec fn clock_pad(line: Seq<char>, w: int) -> int {
    (w - clock_kept(line, w).len()) / 2
}

/// The cell at column `x` of the clock row: a clock character, or `other` where
/// the centered text does not reach.
pub open spec fn clock_row_cell(line: Seq<char>, w: int, x: int, other: Cell) -> Cell {
    let pad = clock_pad(line, w);
    let kept = clock_kept(line, w);
    if pad <= x < pad + kept.len() {
        Cell { sym: kept[x - pad], style: Style::Clock }
    } else {
        other
    }
}

/// Write the clock line, centered, onto the bottom row (`h-1`), in the clock
/// style. When it does not fit, keep its leading `w-2` characters and center
/// those; the time itself survives on any usable width.
pub fn compose_clock_row(frame: &mut Frame, line: &str)
    requires
        old(frame).wf(),
    ensures
        final(frame).wf(),
        final(frame).w == old(frame).w,
        final(frame).h == old(frame).h,
        forall|x: int, y: int|
            0 <= x < final(frame).w && 0 <= y < final(frame).h ==> #[trigger] final(frame).at(x, y)
                == if y == final(frame).h - 1 {
                clock_row_cell(line@, final(frame).w as int, x, old(frame).at(x, y))
            } else {
                old(frame).at(x, y)
            },
{
    let ghost start = *frame;
    if frame.h == 0 {
        return;
    }
    let n = line.unicode_len();
    let w = frame.w;
    let kept_len: usize = if n <= w {
        n
    } else if w >= 2 {
        w - 2
    } else {
        0
    };
    let pad = (w - kept_len) / 2;
    let y = frame.h - 1;
    let ghost kept = clock_kept(line@, w as int);
    assert(kept.len() == kept_len);
    assert(pad == clock_pad(line@, w as int));
    let mut i: usize = 0;
    while i < kept_len
        invariant
            frame.wf(),
            frame.w == w,
            frame.h == y + 1,
            start.wf(),
            start.w == w,
            start.h == y + 1,
            pad + kept_len <= w,
            kept_len <= line@.len(),
            kept == clock_kept(line@, w as int),
            kept.len() == kept_len,
            pad == clock_pad(line@, w as int),
            i <= kept_len,
            forall|x: int, yy: int|
                0 <= x < w && 0 <= yy < frame.h ==> #[trigger] frame.at(x, yy) == if yy == y
                    && pad <= x < pad + i {
                    Cell { sym: kept[x - pad], style: Style::Clock }
                } else {
                    start.at(x, yy)
                },
        decreases kept_len - i,
    {
        let c = line.get_char(i);
        let ghost before = *frame;
        frame.set(pad + i, y, Cell { sym: c, style: Style::Clock });
        proof {
            assert forall|x: int, yy: int| 0 <= x < w && 0 <= yy < frame.h implies #[trigger] frame.at(
                x,
                yy,
            ) == if yy == y && pad <= x < pad + i + 1 {
                Cell { sym: kept[x - pad], style: Style::Clock }
            } else {
                start.at(x, yy)
            } by {
                lemma_cell_index(w as int, (y + 1) as int, x, yy);
                lemma_cell_index(w as int, (y + 1) as int, (pad + i) as int, y as int);
                if yy * w + x == y * w + (pad + i) {
                    lemma_cell_index_unique(w as int, x, yy, (pad + i) as int, y as int);
                }
                assert(before.at(x, yy) == if yy == y && pad <= x < pad + i {
                    Cell { sym: kept[x - pad], style: Style::Clock }
                } else {
                    start.at(x, yy)
                });
            }
        }
        i = i + 1;
    }
}

// ---------------------------------------------------------------- composition

/// Number of map columns (character cells) on a terminal `w` cells wide.
pub open spec fn map_cols(w: int) -> int {
    if w >= 2 { w - 2 } else { 0 }
}

/// Number of map rows on a terminal `h` cells high.
pub open spec fn map_rows(h: int) -> int {
    if h >= 2 { h - 2 } else { 0 }
}

/// The cell map position (cx, cy) shows, or `None` when none of its dots lies
/// inside the map oval.
pub open spec fn layered_cell(
    cx: int,
    cy: int,
    cols: int,
    land: Canvas,
    terminator: Canvas,
    twilight: Canvas,
    oval_masks: Seq<u8>,
    shading: Seq<Shading>,
    ascii: bool,
) -> Option<Cell> {
    let i = cy * cols + cx;
    let oval = oval_masks[i];
    if oval == 0 {
        None
    } else {
        Some(
            spec_map_cell(
                ascii,
                land.spec_cell_mask(cx, cy) & oval,
                terminator.spec_cell_mask(cx, cy) | twilight.spec_cell_mask(cx, cy),
                shading[i],
            ),
        )
    }
}

/// The full composed frame's cell at (x, y): the clock row at the bottom, map
/// cells in rows 0..=h-3 and columns 1..=w-2, blank elsewhere.
pub open spec fn composed_cell(
    w: int,
    h: int,
    line: Seq<char>,
    land: Canvas,
    terminator: Canvas,
    twilight: Canvas,
    oval_masks: Seq<u8>,
    shading: Seq<Shading>,
    ascii: bool,
    x: int,
    y: int,
) -> Cell {
    if y == h - 1 {
        clock_row_cell(line, w, x, blank_cell())
    } else if 1 <= x <= map_cols(w) && 0 <= y < map_rows(h) {
        match layered_cell(x - 1, y, map_cols(w), land, terminator, twilight, oval_masks, shading, ascii) {
            Some(c) => c,
            None => blank_cell(),
        }
    } else {
        blank_cell()
    }
}

/// Whether `f` is the frame composed from these layers: the result
/// `compose_layers` promises.
pub open spec fn composes(
    f: Frame,
    w: int,
    h: int,
    line: Seq<char>,
    land: Canvas,
    terminator: Canvas,
    twilight: Canvas,
    oval_masks: Seq<u8>,
    shading: Seq<Shading>,
    ascii: bool,
) -> bool {
    &&& f.wf()
    &&& f.w == w
    &&& f.h == h
    &&& forall|x: int, y: int|
        0 <= x < w && 0 <= y < h ==> #[trigger] f.at(x, y) == composed_cell(
            w,
            h,
            line,
            land,
            terminator,
            twilight,
            oval_masks,
            shading,
            ascii,
            x,
            y,
        )
}

/// Compose a full frame from its dot layers: the map area (rows 0..=h-3, columns
/// 1..=w-2) plus the centered clock line (row h-1). `oval_masks` and `shading`
/// hold, per map cell in row-major order, the cell's dots inside the map oval and
/// its sun-elevation band. Land dots outside the oval are dropped; curve dots take
/// style precedence. Same layers in, same frame out.
pub fn compose_layers(
    w: usize,
    h: usize,
    clock_line: &str,
    land: &Canvas,
    terminator: &Canvas,
    twilight: &Canvas,
    oval_masks: &Vec<u8>,
    shading: &Vec<Shading>,
    ascii: bool,
) -> (f: Frame)
    requires
        w * h <= usize::MAX,
        land.wf(),
        terminator.wf(),
        twilight.wf(),
        2 * map_cols(w as int) + 1 <= usize::MAX,
        4 * map_rows(h as int) + 3 <= usize::MAX,
        oval_masks@.len() == map_cols(w as int) * map_rows(h as int),
        shading@.len() == map_cols(w as int) * map_rows(h as int),
    ensures
        f.wf(),
        f.w == w,
        f.h == h,
        forall|x: int, y: int|
            0 <= x < w && 0 <= y < h ==> #[trigger] f.at(x, y) == composed_cell(
                w as int,
                h as int,
                clock_line@,
                *land,
                *terminator,
                *twilight,
                oval_masks@,
                shading@,
                ascii,
                x,
                y,
            ),
        composes(
            f,
            w as int,
            h as int,
            clock_line@,
            *land,
            *terminator,
            *twilight,
            oval_masks@,
            shading@,
            ascii,
        ),
{
    let ghost line = clock_line@;
    let mut frame = Frame::new(w, h, Cell::blank());
    let ghost blank_frame = frame;
    compose_clock_row(&mut frame, clock_line);
    let cols: usize = if w >= 2 { w - 2 } else { 0 };
    let rows: usize = if h >= 2 { h - 2 } else { 0 };
    proof {
        assert forall|x: int, y: int| 0 <= x < w && 0 <= y < h implies #[trigger] blank_frame.at(x, y)
            == blank_cell() by {
            lemma_cell_index(w as int, h as int, x, y);
        }
    }
    if cols == 0 || rows == 0 {
        return frame;
    }
    let ghost clocked = frame;
    let n_cells = oval_masks.len();
    assert(cols * rows == n_cells);
    let mut cy: usize = 0;
    while cy < rows
        invariant
            frame.wf(),
            frame.w == w,
            frame.h == h,
            cols == map_cols(w as int),
            rows == map_rows(h as int),
            1 <= cols,
            1 <= rows,
            cy <= rows,
            land.wf(),
            terminator.wf(),
            twilight.wf(),
            2 * cols + 1 <= usize::MAX,
            4 * rows + 3 <= usize::MAX,
            oval_masks@.len() == cols * rows,
            shading@.len() == cols * rows,
            cols * rows <= usize::MAX,
            forall|x: int, y: int|
                0 <= x < w && 0 <= y < h ==> #[trigger] clocked.at(x, y) == if y == h - 1 {
                    clock_row_cell(line, w as int, x, blank_cell())
                } else {
                    blank_cell()
                },
            forall|x: int, y: int|
                0 <= x < w && 0 <= y < h ==> #[trigger] frame.at(x, y) == if 1 <= x <= cols && y < cy {
                    composed_cell(w as int, h as int, line, *land, *terminator, *twilight, oval_masks@, shading@, ascii, x, y)
                } else {
                    clocked.at(x, y)
                },
        decreases rows - cy,
    {
        let mut cx: usize = 0;
        while cx < cols
            invariant
                frame.wf(),
                frame.w == w,
                frame.h == h,
                cols == map_cols(w as int),
                rows == map_rows(h as int),
                1 <= cols,
                1 <= rows,
                cy < rows,
                cx <= cols,
                land.wf(),
                terminator.wf(),
                twilight.wf(),
                2 * cols + 1 <= usize::MAX,
                4 * rows + 3 <= usize::MAX,
                oval_masks@.len() == cols * rows,
                shading@.len() == cols * rows,
                cols * rows <= usize::MAX,
                forall|x: int, y: int|
                    0 <= x < w && 0 <= y < h ==> #[trigger] clocked.at(x, y) == if y == h - 1 {
                        clock_row_cell(line, w as int, x, blank_cell())
                    } else {
                        blank_cell()
                    },
                forall|x: int, y: int|
                    0 <= x < w && 0 <= y < h ==> #[trigger] frame.at(x, y) == if 1 <= x <= cols
                        && (y < cy || (y == cy && x - 1 < cx)) {
                        composed_cell(w as int, h as int, line, *land, *terminator, *twilight, oval_masks@, shading@, ascii, x, y)
                    } else {
                        clocked.at(x, y)
                    },
            decreases cols - cx,
        {
            proof {
                lemma_cell_index(cols as int, rows as int, cx as int, cy as int);
            }
            let i = cy * cols + cx;
            let oval = oval_masks[i];
            let ghost before = frame;
            if oval != 0 {
                let land_mask = land.cell_mask(cx, cy) & oval;
                let curve_mask = terminator.cell_mask(cx, cy) | twilight.cell_mask(cx, cy);
                let cell = map_cell(ascii, land_mask, curve_mask, shading[i]);
                frame.set(cx + 1, cy, cell);
            }
            proof {
                assert forall|x: int, y: int| 0 <= x < w && 0 <= y < h implies #[trigger] frame.at(x, y)
                    == if 1 <= x <= cols && (y < cy || (y == cy && x - 1 < cx + 1)) {
                    composed_cell(w as int, h as int, line, *land, *terminator, *twilight, oval_masks@, shading@, ascii, x, y)
                } else {
                    clocked.at(x, y)
                } by {
                    lemma_cell_index(w as int, h as int, x, y);
                    lemma_cell_index(w as int, h as int, (cx + 1) as int, cy as int);
                    if y * w + x == cy * w + (cx + 1) {
                        lemma_cell_index_unique(w as int, x, y, (cx + 1) as int, cy as int);
                    }
                    assert(before.at(x, y) == if 1 <= x <= cols && (y < cy || (y == cy && x - 1 < cx)) {
                        composed_cell(w as int, h as int, line, *land, *terminator, *twilight, oval_masks@, shading@, ascii, x, y)
                    } else {
                        clocked.at(x, y)
                    });
                    if x == cx + 1 && y == cy {
                        assert(y != h - 1);
                        assert(clocked.at(x, y) == blank_cell());
                    }
                }
            }
            cx = cx + 1;
        }
        cy = cy + 1;
    }
    proof {
        assert forall|x: int, y: int| 0 <= x < w && 0 <= y < h implies #[trigger] frame.at(x, y)
            == composed_cell(w as int, h as int, line, *land, *terminator, *twilight, oval_masks@, shading@, ascii, x, y) by {
            assert(frame.at(x, y) == if 1 <= x <= cols && y < rows {
                composed_cell(w as int, h as int, line, *land, *terminator, *twilight, oval_masks@, shading@, ascii, x, y)
            } else {
                clocked.at(x, y)
            });
        }
    }
    frame
}

// ---------------------------------------------------------------- writers

/// Which SGR flavor a writer emits.
#[derive(Clone, Copy, PartialEq, Eq, Debug, Structural)]
pub enum ColorMode {
    /// Bold/dim attributes only; never a color SGR (color=false terminals).
    Mono,
    /// Full 256-color theme.
    Full,
}

/// SGR parameter sets of the theme, by number:
/// 0 `0` (reset), 1 `1` (bold), 2 `2` (dim), 3 `1;38;5;114`, 4 `38;5;244`,
/// 5 `38;5;246`, 6 `2;38;5;238`, 7 `2;38;5;244`, 8 `1;38;5;214`.
pub open spec fn sgr_text(id: u8) -> Seq<u8> {
    if id == 1 {
        seq![0x31u8]
    } else if id == 2 {
        seq![0x32u8]
    } else if id == 3 {
        seq![0x31u8, 0x3b, 0x33, 0x38, 0x3b, 0x35, 0x3b, 0x31, 0x31, 0x34]
    } else if id == 4 {
        seq![0x33u8, 0x38, 0x3b, 0x35, 0x3b, 0x32, 0x34, 0x34]
    } else if id == 5 {
        seq![0x33u8, 0x38, 0x3b, 0x35, 0x3b, 0x32, 0x34, 0x36]
    } else if id == 6 {
        seq![0x32u8, 0x3b, 0x33, 0x38, 0x3b, 0x35, 0x3b, 0x32, 0x33, 0x38]
    } else if id == 7 {
        seq![0x32u8, 0x3b, 0x33, 0x38, 0x3b, 0x35, 0x3b, 0x32, 0x34, 0x34]
    } else if id == 8 {
        seq![0x31u8, 0x3b, 0x33, 0x38, 0x3b, 0x35, 0x3b, 0x32, 0x31, 0x34]
    } else {
        seq![0x30u8]
    }
}

/// The SGR parameter set (see [`sgr_text`]) of a style in a color mode.
///
/// Palette (256-color indexes): day sea default; day land bold fg 114; twilight
/// sea fg 244; twilight land fg 246; night sea dim fg 238; night land dim fg 244;
/// terminator bold fg 214; clock bold. In `Mono` mode only bold/dim survive.
pub open spec fn spec_style_params(style: Style, mode: ColorMode) -> u8 {
    match style {
        Style::Blank | Style::DaySea => 0,
        Style::DayLand => if mode == ColorMode::Mono { 1 } else { 3 },
        Style::TwiSea => if mode == ColorMode::Mono { 0 } else { 4 },
        Style::TwiLand => if mode == ColorMode::Mono { 0 } else { 5 },
        Style::NightSea => if mode == ColorMode::Mono { 2 } else { 6 },
        Style::NightLand => if mode == ColorMode::Mono { 2 } else { 7 },
        Style::Terminator => if mode == ColorMode::Mono { 1 } else { 8 },
        Style::Clock => 1,
    }
}

/// Style -> SGR parameter set.
pub fn style_params(style: Style, mode: ColorMode) -> (id: u8)
    ensures
        id == spec_style_params(style, mode),
        id <= 8,
{
    match style {
        Style::Blank | Style::DaySea => 0,
        Style::DayLand => if mode == ColorMode::Mono { 1 } else { 3 },
        Style::TwiSea => if mode == ColorMode::Mono { 0 } else { 4 },
        Style::TwiLand => if mode == ColorMode::Mono { 0 } else { 5 },
        Style::NightSea => if mode == ColorMode::Mono { 2 } else { 6 },
        Style::NightLand => if mode == ColorMode::Mono { 2 } else { 7 },
        Style::Terminator => if mode == ColorMode::Mono { 1 } else { 8 },
        Style::Clock => 1,
    }
}

/// One unit of writer output.
pub enum Emit {
    /// Cursor home: `ESC[H`.
    Home,
    /// Absolute cursor move to 0-based row and column: `ESC[{row+1};{col+1}H`.
    MoveTo(usize, usize),
    /// A self-contained SGR: `ESC[0m` for the reset set, else `ESC[0;{params}m`.
    Sgr(u8),
    /// One character, UTF-8 encoded.
    Glyph(char),
    /// Row break of the ANSI writer: `\r\n`.
    CrLf,
    /// Row break of the plain writer: `\n`.
    Lf,
}

/// Decimal digits of `n`, most significant first.
pub open spec fn decimal(n: nat) -> Seq<u8>
    decreases n,
{
    if n < 10 {
        seq![(0x30 + n) as u8]
    } else {
        decimal(n / 10) + seq![(0x30 + n % 10) as u8]
    }
}

/// The bytes of one unit of output.
pub open spec fn emit_bytes(e: Emit) -> Seq<u8> {
    match e {
        Emit::Home => seq![0x1bu8, 0x5b, 0x48],
        Emit::MoveTo(y, x) => seq![0x1bu8, 0x5b] + decimal((y + 1) as nat) + seq![0x3bu8] + decimal(
            (x + 1) as nat,
        ) + seq![0x48u8],
        Emit::Sgr(id) => if id == 0 {
            seq![0x1bu8, 0x5b, 0x30, 0x6d]
        } else {
            seq![0x1bu8, 0x5b, 0x30, 0x3b] + sgr_text(id) + seq![0x6du8]
        },
        Emit::Glyph(c) => encode_scalar(c as u32),
        Emit::CrLf => seq![0x0du8, 0x0a],
        Emit::Lf => seq![0x0au8],
    }
}

/// The bytes of a sequence of output units.
pub open spec fn emitted(es: Seq<Emit>) -> Seq<u8>
    decreases es.len(),
{
    if es.len() == 0 {
        Seq::empty()
    } else {
        emitted(es.drop_last()) + emit_bytes(es.last())
    }
}

/// `emitted` of a pushed unit appends its bytes.
pub proof fn lemma_emitted_push(es: Seq<Emit>, e: Emit)
    ensures
        emitted(es.push(e)) == emitted(es) + emit_bytes(e),
{
    assert(es.push(e).drop_last() == es);
}

/// `emitted` distributes over concatenation.
pub proof fn lemma_emitted_concat(a: Seq<Emit>, b: Seq<Emit>)
    ensures
        emitted(a + b) == emitted(a) + emitted(b),
    decreases b.len(),
{
    if b.len() == 0 {
        assert(a + b == a);
    } else {
        lemma_emitted_concat(a, b.drop_last());
        assert((a + b).drop_last() == a + b.drop_last());
        assert((a + b).last() == b.last());
    }
}

/// Every unit emits at least one byte, so output is empty exactly when no unit is.
pub proof fn lemma_emitted_empty(es: Seq<Emit>)
    ensures
        (emitted(es).len() == 0) == (es.len() == 0),
    decreases es.len(),
{
    if es.len() > 0 {
        let e = es.last();
        match e {
            Emit::MoveTo(y, x) => {},
            Emit::Glyph(c) => {
                char_is_scalar(c);
            },
            _ => {},
        }
        assert(emit_bytes(e).len() > 0);
    }
}

fn push_all(out: &mut Vec<u8>, s: &[u8])
    ensures
        final(out)@ == old(out)@ + s@,
{
    let mut i: usize = 0;
    while i < s.len()
        invariant
            i <= s@.len(),
            out@ == old(out)@ + s@.subrange(0, i as int),
        decreases s@.len() - i,
    {
        out.push(s[i]);
        i = i + 1;
        proof {
            assert(s@.subrange(0, i as int) == s@.subrange(0, i - 1) + seq![s@[i - 1]]);
        }
    }
    proof {
        assert(s@.subrange(0, s@.len() as int) == s@);
    }
}

fn push_decimal(out: &mut Vec<u8>, n: usize)
    ensures
        final(out)@ == old(out)@ + decimal(n as nat),
    decreases n,
{
    if n >= 10 {
        push_decimal(out, n / 10);
    }
    out.push((0x30 + n % 10) as u8);
}

fn push_utf8(out: &mut Vec<u8>, c: char)
    ensures
        final(out)@ == old(out)@ + encode_scalar(c as u32),
{
    let v = c as u32;
    proof { char_is_scalar(c); }
    if v <= 0x7f {
        out.push((v & 0x7f) as u8);
    } else if v <= 0x7ff {
        out.push(0xC0 | ((v >> 6) & 0x1F) as u8);
        out.push(0x80 | (v & 0x3F) as u8);
    } else if v <= 0xffff {
        out.push(0xE0 | ((v >> 12) & 0x0F) as u8);
        out.push(0x80 | ((v >> 6) & 0x3F) as u8);
        out.push(0x80 | (v & 0x3F) as u8);
    } else {
        out.push(0xF0 | ((v >> 18) & 0x7) as u8);
        out.push(0x80 | ((v >> 12) & 0x3F) as u8);
        out.push(0x80 | ((v >> 6) & 0x3F) as u8);
        out.push(0x80 | (v & 0x3F) as u8);
    }
}

/// Append the bytes of one SGR (`ESC[0m`, or `ESC[0;{params}m`).
fn push_sgr(out: &mut Vec<u8>, id: u8)
    requires
        id <= 8,
    ensures
        final(out)@ == old(out)@ + emit_bytes(Emit::Sgr(id)),
{
    if id == 0 {
        push_all(out, &[0x1b, 0x5b, 0x30, 0x6d]);
    } else {
        push_all(out, &[0x1b, 0x5b, 0x30, 0x3b]);
        if id == 1 {
            push_all(out, &[0x31]);
        } else if id == 2 {
            push_all(out, &[0x32]);
        } else if id == 3 {
            push_all(out, &[0x31, 0x3b, 0x33, 0x38, 0x3b, 0x35, 0x3b, 0x31, 0x31, 0x34]);
        } else if id == 4 {
            push_all(out, &[0x33, 0x38, 0x3b, 0x35, 0x3b, 0x32, 0x34, 0x34]);
        } else if id == 5 {
            push_all(out, &[0x33, 0x38, 0x3b, 0x35, 0x3b, 0x32, 0x34, 0x36]);
        } else if id == 6 {
            push_all(out, &[0x32, 0x3b, 0x33, 0x38, 0x3b, 0x35, 0x3b, 0x32, 0x33, 0x38]);
        } else if id == 7 {
            push_all(out, &[0x32, 0x3b, 0x33, 0x38, 0x3b, 0x35, 0x3b, 0x32, 0x34, 0x34]);
        } else {
            push_all(out, &[0x31, 0x3b, 0x33, 0x38, 0x3b, 0x35, 0x3b, 0x32, 0x31, 0x34]);
        }
        push_all(out, &[0x6d]);
    }
}

fn push_move_to(out: &mut Vec<u8>, y: usize, x: usize)
    requires
        y < usize::MAX,
        x < usize::MAX,
    ensures
        final(out)@ == old(out)@ + emit_bytes(Emit::MoveTo(y, x)),
{
    push_all(out, &[0x1b, 0x5b]);
    push_decimal(out, y + 1);
    push_all(out, &[0x3b]);
    push_decimal(out, x + 1);
    push_all(out, &[0x48]);
}

/// The units one cell adds, and the SGR state after it. With a color mode, an
/// SGR is emitted only when the style's parameter set differs from the
/// current one (`cur`, 0 = terminal in the reset state); without one, never.
pub open spec fn cell_emits(cell: Cell, cur: u8, mode: Option<ColorMode>) -> (Seq<Emit>, u8) {
    match mode {
        None => (seq![Emit::Glyph(cell.sym)], cur),
        Some(m) => {
            let p = spec_style_params(cell.style, m);
            if cur != p {
                (seq![Emit::Sgr(p), Emit::Glyph(cell.sym)], p)
            } else {
                (seq![Emit::Glyph(cell.sym)], cur)
            }
        },
    }
}

/// Append one cell, emitting an SGR only when the style's SGR parameters change
/// relative to `cur`. Every emitted SGR is self-contained (`ESC[0;{params}m` or a
/// bare reset) rather than a delta, since SGR attributes are sticky.
/// `mode == None` means "never emit SGR" (plain-text output).
fn push_cell(
    out: &mut Vec<u8>,
    cell: Cell,
    cur: &mut u8,
    mode: Option<ColorMode>,
    Ghost(es): Ghost<Seq<Emit>>,
) -> (res: Ghost<Seq<Emit>>)
    requires
        old(out)@ == emitted(es),
        *old(cur) <= 8,
    ensures
        res@ == es + cell_emits(cell, *old(cur), mode).0,
        *final(cur) == cell_emits(cell, *old(cur), mode).1,
        *final(cur) <= 8,
        final(out)@ == emitted(res@),
{
    let ghost mut acc = es;
    if let Some(m) = mode {
        let params = style_params(cell.style, m);
        if *cur != params {
            push_sgr(out, params);
            proof {
                lemma_emitted_push(acc, Emit::Sgr(params));
                acc = acc.push(Emit::Sgr(params));
            }
            *cur = params;
        }
    }
    push_utf8(out, cell.sym);
    proof {
        lemma_emitted_push(acc, Emit::Glyph(cell.sym));
        acc = acc.push(Emit::Glyph(cell.sym));
        assert(acc == es + cell_emits(cell, *old(cur), mode).0);
    }
    Ghost(acc)
}

/// The units a row emits from column `x` on, and the SGR state after it.
pub open spec fn row_emits(f: Frame, y: int, x: int, cur: u8, mode: Option<ColorMode>) -> (
    Seq<Emit>,
    u8,
)
    decreases f.w - x,
{
    if x >= f.w {
        (Seq::empty(), cur)
    } else {
        let (a, c1) = cell_emits(f.at(x, y), cur, mode);
        let (b, c2) = row_emits(f, y, x + 1, c1, mode);
        (a + b, c2)
    }
}

/// Rows `y..h`, each followed by `sep` except the last.
pub open spec fn rows_emits(f: Frame, y: int, cur: u8, mode: Option<ColorMode>, sep: Emit) -> (
    Seq<Emit>,
    u8,
)
    decreases f.h - y,
{
    if y >= f.h {
        (Seq::empty(), cur)
    } else {
        let (r, c1) = row_emits(f, y, 0, cur, mode);
        let brk = if y + 1 < f.h {
            seq![sep]
        } else {
            Seq::empty()
        };
        let (rest, c2) = rows_emits(f, y + 1, c1, mode, sep);
        (r + brk + rest, c2)
    }
}

/// The plain writer's output: all rows joined with `\n`, SGR per style only
/// when `color`, a closing reset if an SGR is still open, and a final `\n`.
pub open spec fn plain_emits(f: Frame, color: bool) -> Seq<Emit> {
    let mode = if color {
        Some(ColorMode::Full)
    } else {
        None
    };
    let (body, c) = rows_emits(f, 0, 0, mode, Emit::Lf);
    body + (if c != 0 {
        seq![Emit::Sgr(0)]
    } else {
        Seq::empty()
    }) + seq![Emit::Lf]
}

/// Emit the cells of row `y` from column 0; returns the units emitted.
fn push_row(
    out: &mut Vec<u8>,
    f: &Frame,
    y: usize,
    cur: &mut u8,
    mode: Option<ColorMode>,
    Ghost(es): Ghost<Seq<Emit>>,
) -> (res: Ghost<Seq<Emit>>)
    requires
        f.wf(),
        y < f.h,
        old(out)@ == emitted(es),
        *old(cur) <= 8,
    ensures
        res@ == es + row_emits(*f, y as int, 0, *old(cur), mode).0,
        *final(cur) == row_emits(*f, y as int, 0, *old(cur), mode).1,
        *final(cur) <= 8,
        final(out)@ == emitted(res@),
{
    let ghost c0 = *cur;
    let ghost mut acc = es;
    let mut x: usize = 0;
    while x < f.w
        invariant
            f.wf(),
            y < f.h,
            x <= f.w,
            *cur <= 8,
            out@ == emitted(acc),
            es + row_emits(*f, y as int, 0, c0, mode).0 == acc + row_emits(
                *f,
                y as int,
                x as int,
                *cur,
                mode,
            ).0,
            row_emits(*f, y as int, 0, c0, mode).1 == row_emits(*f, y as int, x as int, *cur, mode).1,
        decreases f.w - x,
    {
        let ghost c_before = *cur;
        let ghost acc_before = acc;
        let cell = f.get(x, y);
        let g = push_cell(out, cell, cur, mode, Ghost(acc));
        proof {
            acc = g@;
            let (a, c1) = cell_emits(cell, c_before, mode);
            let (b, c2) = row_emits(*f, y as int, x + 1, c1, mode);
            assert(row_emits(*f, y as int, x as int, c_before, mode) == (a + b, c2));
            assert(acc_before + (a + b) == acc + b);
        }
        x = x + 1;
    }
    proof {
        assert(acc + Seq::<Emit>::empty() == acc);
    }
    Ghost(acc)
}

/// Emit rows `0..h` joined by `sep` (`Lf` or `CrLf`); returns the units emitted.
fn push_rows(
    out: &mut Vec<u8>,
    f: &Frame,
    cur: &mut u8,
    mode: Option<ColorMode>,
    sep: bool,
    Ghost(es): Ghost<Seq<Emit>>,
) -> (res: Ghost<Seq<Emit>>)
    requires
        f.wf(),
        old(out)@ == emitted(es),
        *old(cur) <= 8,
    ensures
        res@ == es + rows_emits(*f, 0, *old(cur), mode, if sep { Emit::CrLf } else { Emit::Lf }).0,
        *final(cur) == rows_emits(*f, 0, *old(cur), mode, if sep { Emit::CrLf } else { Emit::Lf }).1,
        *final(cur) <= 8,
        final(out)@ == emitted(res@),
{
    let ghost brk = if sep { Emit::CrLf } else { Emit::Lf };
    let ghost c0 = *cur;
    let ghost mut acc = es;
    let mut y: usize = 0;
    while y < f.h
        invariant
            f.wf(),
            y <= f.h,
            *cur <= 8,
            brk == if sep { Emit::CrLf } else { Emit::Lf },
            out@ == emitted(acc),
            es + rows_emits(*f, 0, c0, mode, brk).0 == acc + rows_emits(*f, y as int, *cur, mode, brk).0,
            rows_emits(*f, 0, c0, mode, brk).1 == rows_emits(*f, y as int, *cur, mode, brk).1,
        decreases f.h - y,
    {
        let ghost c_before = *cur;
        let ghost acc_before = acc;
        let g = push_row(out, f, y, cur, mode, Ghost(acc));
        proof { acc = g@; }
        if y + 1 < f.h {
            if sep {
                push_all(out, &[0x0d, 0x0a]);
            } else {
                push_all(out, &[0x0a]);
            }
            proof {
                lemma_emitted_push(acc, brk);
                acc = acc.push(brk);
            }
        }
        proof {
            let (r, c1) = row_emits(*f, y as int, 0, c_before, mode);
            let b = if y + 1 < f.h { seq![brk] } else { Seq::<Emit>::empty() };
            let (rest, c2) = rows_emits(*f, y + 1, c1, mode, brk);
            assert(rows_emits(*f, y as int, c_before, mode, brk) == (r + b + rest, c2));
            assert(acc == acc_before + r + b);
            assert(acc_before + (r + b + rest) == acc + rest);
        }
        y = y + 1;
    }
    proof {
        assert(acc + Seq::<Emit>::empty() == acc);
    }
    Ghost(acc)
}

/// One-shot plain output: full frame rows joined with `\n` plus a trailing
/// newline, SGR per style only when `color` (no cursor moves at all).
pub fn render_plain(f: &Frame, color: bool) -> (out: Vec<u8>)
    requires
        f.wf(),
    ensures
        out@ == emitted(plain_emits(*f, color)),
{
    let mode = if color {
        Some(ColorMode::Full)
    } else {
        None
    };
    let mut out: Vec<u8> = Vec::new();
    let mut cur: u8 = 0;
    let g = push_rows(&mut out, f, &mut cur, mode, false, Ghost(Seq::empty()));
    let ghost mut acc = g@;
    let ghost body = acc;
    if cur != 0 {
        push_sgr(&mut out, 0);
        proof {
            lemma_emitted_push(acc, Emit::Sgr(0));
            acc = acc.push(Emit::Sgr(0));
        }
    }
    push_all(&mut out, &[0x0a]);
    proof {
        lemma_emitted_push(acc, Emit::Lf);
        acc = acc.push(Emit::Lf);
        assert(Seq::<Emit>::empty() + body == body);
        assert(acc == plain_emits(*f, color));
    }
    out
}

/// The units the diff writer emits for row `y` from column `x` on: each maximal
/// run of changed cells is an absolute cursor move followed by its cells.
/// `in_run` tells whether column `x - 1` was changed (the run continues).
pub open spec fn diff_row(
    p: Frame,
    n: Frame,
    y: int,
    x: int,
    in_run: bool,
    cur: u8,
    m: ColorMode,
) -> (Seq<Emit>, u8)
    decreases n.w - x,
{
    if x >= n.w {
        (Seq::empty(), cur)
    } else if n.at(x, y) == p.at(x, y) {
        diff_row(p, n, y, x + 1, false, cur, m)
    } else {
        let (ce, c1) = cell_emits(n.at(x, y), cur, Some(m));
        let head = if in_run {
            Seq::empty()
        } else {
            seq![Emit::MoveTo(y as usize, x as usize)]
        };
        let (rest, c2) = diff_row(p, n, y, x + 1, true, c1, m);
        (head + ce + rest, c2)
    }
}

/// The diff writer's units for rows `y..h`.
pub open spec fn diff_rows(p: Frame, n: Frame, y: int, cur: u8, m: ColorMode) -> (Seq<Emit>, u8)
    decreases n.h - y,
{
    if y >= n.h {
        (Seq::empty(), cur)
    } else {
        let (r, c1) = diff_row(p, n, y, 0, false, cur, m);
        let (rest, c2) = diff_rows(p, n, y + 1, c1, m);
        (r + rest, c2)
    }
}

/// The ANSI writer's units before its closing reset: nothing when the frames
/// are equal; the changed runs when `prev` has the same size; otherwise a full
/// frame (cursor home, then every row, rows joined by `\r\n`).
pub open spec fn ansi_body(prev: Option<Frame>, next: Frame, color: bool) -> Seq<Emit> {
    let m = if color {
        ColorMode::Full
    } else {
        ColorMode::Mono
    };
    let full = seq![Emit::Home] + rows_emits(next, 0, 0, Some(m), Emit::CrLf).0;
    match prev {
        Some(p) => if p.w == next.w && p.h == next.h {
            if p.cells@ == next.cells@ {
                Seq::empty()
            } else {
                diff_rows(p, next, 0, 0, m).0
            }
        } else {
            full
        },
        None => full,
    }
}

/// The ANSI writer's output: its body, closed by an SGR reset when non-empty.
pub open spec fn ansi_emits(prev: Option<Frame>, next: Frame, color: bool) -> Seq<Emit> {
    let body = ansi_body(prev, next, color);
    body + if body.len() > 0 {
        seq![Emit::Sgr(0)]
    } else {
        Seq::empty()
    }
}

proof fn lemma_diff_row_run_end(p: Frame, n: Frame, y: int, x: int, cur: u8, m: ColorMode)
    requires
        x >= n.w || n.at(x, y) == p.at(x, y),
    ensures
        diff_row(p, n, y, x, true, cur, m) == diff_row(p, n, y, x, false, cur, m),
{
}

fn cells_equal(a: &Vec<Cell>, b: &Vec<Cell>) -> (r: bool)
    ensures
        r == (a@ == b@),
{
    if a.len() != b.len() {
        return false;
    }
    let mut i: usize = 0;
    while i < a.len()
        invariant
            a@.len() == b@.len(),
            i <= a@.len(),
            forall|j: int| 0 <= j < i ==> a@[j] == b@[j],
        decreases a@.len() - i,
    {
        if a[i] != b[i] {
            return false;
        }
        i = i + 1;
    }
    proof {
        assert(a@ =~= b@);
    }
    true
}

/// Emit the changed runs of row `y`.
fn push_diff_row(
    out: &mut Vec<u8>,
    p: &Frame,
    n: &Frame,
    y: usize,
    cur: &mut u8,
    m: ColorMode,
    Ghost(es): Ghost<Seq<Emit>>,
) -> (res: Ghost<Seq<Emit>>)
    requires
        p.wf(),
        n.wf(),
        p.w == n.w,
        p.h == n.h,
        y < n.h,
        old(out)@ == emitted(es),
        *old(cur) <= 8,
    ensures
        res@ == es + diff_row(*p, *n, y as int, 0, false, *old(cur), m).0,
        *final(cur) == diff_row(*p, *n, y as int, 0, false, *old(cur), m).1,
        *final(cur) <= 8,
        final(out)@ == emitted(res@),
{
    let ghost c0 = *cur;
    let ghost mut acc = es;
    let w = n.w;
    let mut x: usize = 0;
    while x < w
        invariant
            p.wf(),
            n.wf(),
            p.w == n.w,
            p.h == n.h,
            w == n.w,
            y < n.h,
            x <= w,
            *cur <= 8,
            out@ == emitted(acc),
            es + diff_row(*p, *n, y as int, 0, false, c0, m).0 == acc + diff_row(
                *p,
                *n,
                y as int,
                x as int,
                false,
                *cur,
                m,
            ).0,
            diff_row(*p, *n, y as int, 0, false, c0, m).1 == diff_row(
                *p,
                *n,
                y as int,
                x as int,
                false,
                *cur,
                m,
            ).1,
        decreases w - x,
    {
        if n.get(x, y) == p.get(x, y) {
            x = x + 1;
        } else {
            push_move_to(out, y, x);
            proof {
                lemma_emitted_push(acc, Emit::MoveTo(y, x));
                let (ce, c1) = cell_emits(n.at(x as int, y as int), *cur, Some(m));
                let (rest, c2) = diff_row(*p, *n, y as int, x + 1, true, c1, m);
                assert(diff_row(*p, *n, y as int, x as int, true, *cur, m) == (ce + rest, c2));
                assert(acc + (seq![Emit::MoveTo(y, x)] + ce + rest) == acc.push(Emit::MoveTo(y, x))
                    + (ce + rest));
                acc = acc.push(Emit::MoveTo(y, x));
            }
            let ghost start = x;
            while x < w && n.get(x, y) != p.get(x, y)
                invariant
                    start <= x,
                    x == start ==> x < w && n.at(x as int, y as int) != p.at(x as int, y as int),
                    p.wf(),
                    n.wf(),
                    p.w == n.w,
                    p.h == n.h,
                    w == n.w,
                    y < n.h,
                    x <= w,
                    *cur <= 8,
                    out@ == emitted(acc),
                    es + diff_row(*p, *n, y as int, 0, false, c0, m).0 == acc + diff_row(
                        *p,
                        *n,
                        y as int,
                        x as int,
                        true,
                        *cur,
                        m,
                    ).0,
                    diff_row(*p, *n, y as int, 0, false, c0, m).1 == diff_row(
                        *p,
                        *n,
                        y as int,
                        x as int,
                        true,
                        *cur,
                        m,
                    ).1,
                decreases w - x,
            {
                let ghost c_before = *cur;
                let ghost acc_before = acc;
                let cell = n.get(x, y);
                let g = push_cell(out, cell, cur, Some(m), Ghost(acc));
                proof {
                    acc = g@;
                    let (ce, c1) = cell_emits(cell, c_before, Some(m));
                    let (rest, c2) = diff_row(*p, *n, y as int, x + 1, true, c1, m);
                    assert(diff_row(*p, *n, y as int, x as int, true, c_before, m) == (
                        Seq::<Emit>::empty() + ce + rest,
                        c2,
                    ));
                    assert(acc_before + (Seq::<Emit>::empty() + ce + rest) == acc + rest);
                }
                x = x + 1;
            }
            proof {
                lemma_diff_row_run_end(*p, *n, y as int, x as int, *cur, m);
            }
        }
    }
    proof {
        assert(acc + Seq::<Emit>::empty() == acc);
    }
    Ghost(acc)
}

/// Diff writer: minimal ANSI bytes updating only changed runs of cells.
/// `prev == None` (or a size mismatch) emits a full frame (`ESC[H` then all rows).
/// Equal frames produce no output at all. With `color == false` only bold/dim
/// attributes are emitted, never color SGR. Non-empty output always ends with
/// an SGR reset.
pub fn render_ansi(prev: Option<&Frame>, next: &Frame, color: bool) -> (out: Vec<u8>)
    requires
        next.wf(),
        prev matches Some(p) ==> p.wf(),
    ensures
        out@ == emitted(
            ansi_emits(
                match prev {
                    Some(p) => Some(*p),
                    None => None,
                },
                *next,
                color,
            ),
        ),
{
    let ghost prev_v = match prev {
        Some(p) => Some(*p),
        None => None,
    };
    let mode = if color {
        ColorMode::Full
    } else {
        ColorMode::Mono
    };
    let mut out: Vec<u8> = Vec::new();
    let mut cur: u8 = 0;
    let ghost mut acc: Seq<Emit> = Seq::empty();
    let mut diff = false;
    if let Some(p) = prev {
        if p.w == next.w && p.h == next.h {
            diff = true;
        }
    }
    if diff {
        let p = prev.unwrap();
        if cells_equal(&p.cells, &next.cells) {
            proof {
                assert(ansi_body(prev_v, *next, color) == Seq::<Emit>::empty());
            }
            return out;
        }
        let mut y: usize = 0;
        while y < next.h
            invariant
                p.wf(),
                next.wf(),
                p.w == next.w,
                p.h == next.h,
                y <= next.h,
                cur <= 8,
                out@ == emitted(acc),
                diff_rows(*p, *next, 0, 0, mode).0 == acc + diff_rows(
                    *p,
                    *next,
                    y as int,
                    cur,
                    mode,
                ).0,
            decreases next.h - y,
        {
            let ghost c_before = cur;
            let ghost acc_before = acc;
            let g = push_diff_row(&mut out, p, next, y, &mut cur, mode, Ghost(acc));
            proof {
                acc = g@;
                let (r, c1) = diff_row(*p, *next, y as int, 0, false, c_before, mode);
                let (rest, c2) = diff_rows(*p, *next, y + 1, c1, mode);
                assert(diff_rows(*p, *next, y as int, c_before, mode) == (r + rest, c2));
                assert(acc_before + (r + rest) == acc + rest);
            }
            y = y + 1;
        }
        proof {
            assert(acc + Seq::<Emit>::empty() == acc);
            assert(ansi_body(prev_v, *next, color) == acc);
        }
    } else {
        push_all(&mut out, &[0x1b, 0x5b, 0x48]);
        proof {
            lemma_emitted_push(acc, Emit::Home);
            acc = acc.push(Emit::Home);
        }
        let g = push_rows(&mut out, next, &mut cur, Some(mode), true, Ghost(acc));
        proof {
            acc = g@;
            assert(ansi_body(prev_v, *next, color) == acc);
        }
    }
    let ghost body = acc;
    if out.len() != 0 {
        push_sgr(&mut out, 0);
        proof {
            lemma_emitted_push(acc, Emit::Sgr(0));
            acc = acc.push(Emit::Sgr(0));
        }
    }
    proof {
        lemma_emitted_empty(body);
        assert(acc == ansi_emits(prev_v, *next, color));
    }
    out
}

} // verus!
