//! Laws of frame composition: curve dots of both curves are drawn in the
//! terminator style; each map cell is shaded by its own sun-elevation band;
//! the frame is a function of its layers alone; and more land dots (such as
//! the coastline outline drawn over the fill) never take land away.
use vstd::prelude::*;
use crate::frame::{
    ansi_emits, composed_cell, composes, map_cols, map_rows, spec_land_style, spec_sea_style,
    spec_style_params, Cell, ColorMode, Emit, Frame, Style,
};
use crate::raster::{cell_bit, lemma_cell_mask_bits, lemma_cell_mask_grows, spec_braille, Canvas};
use crate::solar::Shading;
use crate::screen::lemma_ansi_equal_frames_emit_nothing;

verus! {

/// Composition is pure: two frames composed from the same layers are the same
/// frame, so the diff writer emits nothing between them.
pub proof fn lemma_compose_is_pure(
    f1: Frame,
    f2: Frame,
    w: int,
    h: int,
    line: Seq<char>,
    land: Canvas,
    terminator: Canvas,
    twilight: Canvas,
    oval_masks: Seq<u8>,
    shading: Seq<Shading>,
    ascii: bool,
    color: bool,
)
    requires
        composes(f1, w, h, line, land, terminator, twilight, oval_masks, shading, ascii),
        composes(f2, w, h, line, land, terminator, twilight, oval_masks, shading, ascii),
    ensures
        f1.w == f2.w && f1.h == f2.h && f1.cells@ == f2.cells@,
        ansi_emits(Some(f1), f2, color) == Seq::<Emit>::empty(),
{
    assert forall|i: int| 0 <= i < f1.cells@.len() implies f1.cells@[i] == f2.cells@[i] by {
        let x = i % w;
        let y = i / w;
        assert(w > 0 && 0 <= x < w && 0 <= y < h && i == y * w + x) by (nonlinear_arith)
            requires
                0 <= i < w * h,
                0 <= w,
                0 <= h,
                x == i % w,
                y == i / w,
        ;
        assert(f1.at(x, y) == f2.at(x, y));
    }
    assert(f1.cells@ =~= f2.cells@);
    lemma_ansi_equal_frames_emit_nothing(f1, f2, color);
}

/// Whether a style is one of the land styles.
pub open spec fn is_land_style(s: Style) -> bool {
    s == Style::DayLand || s == Style::TwiLand || s == Style::NightLand
}

/// The land dots of map cell (cx, cy) that lie inside the oval.
pub open spec fn land_glyph_mask(land: Canvas, oval_masks: Seq<u8>, cols: int, cx: int, cy: int) -> u8 {
    land.spec_cell_mask(cx, cy) & oval_masks[cy * cols + cx]
}

/// More land only adds (braille mode): when every dot of `land1` is also set
/// in `land2` (as when the coastline outline is drawn over the fill), every
/// cell that shows land with `land1` still shows land with `land2`, and its
/// glyph only gains dots.
pub proof fn lemma_more_land_only_adds(
    w: int,
    h: int,
    line: Seq<char>,
    land1: Canvas,
    land2: Canvas,
    terminator: Canvas,
    twilight: Canvas,
    oval_masks: Seq<u8>,
    shading: Seq<Shading>,
    x: int,
    y: int,
)
    requires
        forall|dx: int, dy: int| #[trigger] land1.dot(dx, dy) ==> land2.dot(dx, dy),
    ensures
        ({
            let c1 = composed_cell(
                w,
                h,
                line,
                land1,
                terminator,
                twilight,
                oval_masks,
                shading,
                false,
                x,
                y,
            );
            let c2 = composed_cell(
                w,
                h,
                line,
                land2,
                terminator,
                twilight,
                oval_masks,
                shading,
                false,
                x,
                y,
            );
            let cols = map_cols(w);
            let m1 = land_glyph_mask(land1, oval_masks, cols, x - 1, y);
            let m2 = land_glyph_mask(land2, oval_masks, cols, x - 1, y);
            is_land_style(c1.style) ==> {
                &&& is_land_style(c2.style)
                &&& c1.sym == spec_braille(m1)
                &&& c2.sym == spec_braille(m2)
                &&& m1 & !m2 == 0
            }
        }),
{
    let cols = map_cols(w);
    let cx = x - 1;
    lemma_cell_mask_grows(land1, land2, cx, y);
    let l1 = land1.spec_cell_mask(cx, y);
    let l2 = land2.spec_cell_mask(cx, y);
    let o = oval_masks[y * cols + cx];
    assert((l1 & o) & !(l2 & o) == 0 && ((l1 & o) != 0 ==> (l2 & o) != 0)) by (bit_vector)
        requires
            l1 & !l2 == 0,
    ;
}

// ---------------------------------------------------------------- curves

/// Whether character cell (cx, cy) of canvas `c` has a set dot whose braille
/// bit is in `o` (with `o == 0xFF`: any set dot at all).
pub open spec fn cell_has(c: Canvas, cx: int, cy: int, o: u8) -> bool {
    exists|col: int, row: int|
        0 <= col < 2 && 0 <= row < 4 && #[trigger] c.dot(2 * cx + col, 4 * cy + row) && o
            & #[trigger] cell_bit(col, row) != 0
}

/// A cell has a set dot with its bit in `o` exactly when its mask meets `o`.
pub proof fn lemma_cell_has(c: Canvas, cx: int, cy: int, o: u8)
    ensures
        cell_has(c, cx, cy, o) <==> c.spec_cell_mask(cx, cy) & o != 0,
{
    lemma_cell_mask_bits(c, cx, cy);
    let m = c.spec_cell_mask(cx, cy);
    assert((m & o != 0) <==> ((m & 0x01 != 0 && o & 0x01 != 0) || (m & 0x02 != 0 && o & 0x02
        != 0) || (m & 0x04 != 0 && o & 0x04 != 0) || (m & 0x40 != 0 && o & 0x40 != 0) || (m
        & 0x08 != 0 && o & 0x08 != 0) || (m & 0x10 != 0 && o & 0x10 != 0) || (m & 0x20 != 0 && o
        & 0x20 != 0) || (m & 0x80 != 0 && o & 0x80 != 0))) by (bit_vector);
    assert(cell_bit(0, 0) == 0x01 && cell_bit(0, 1) == 0x02 && cell_bit(0, 2) == 0x04 && cell_bit(
        0,
        3,
    ) == 0x40 && cell_bit(1, 0) == 0x08 && cell_bit(1, 1) == 0x10 && cell_bit(1, 2) == 0x20
        && cell_bit(1, 3) == 0x80);
    if m & o != 0 {
        if m & 0x01 != 0 && o & 0x01 != 0 {
            assert(c.dot(2 * cx + 0, 4 * cy + 0));
        } else if m & 0x02 != 0 && o & 0x02 != 0 {
            assert(c.dot(2 * cx + 0, 4 * cy + 1));
        } else if m & 0x04 != 0 && o & 0x04 != 0 {
            assert(c.dot(2 * cx + 0, 4 * cy + 2));
        } else if m & 0x40 != 0 && o & 0x40 != 0 {
            assert(c.dot(2 * cx + 0, 4 * cy + 3));
        } else if m & 0x08 != 0 && o & 0x08 != 0 {
            assert(c.dot(2 * cx + 1, 4 * cy + 0));
        } else if m & 0x10 != 0 && o & 0x10 != 0 {
            assert(c.dot(2 * cx + 1, 4 * cy + 1));
        } else if m & 0x20 != 0 && o & 0x20 != 0 {
            assert(c.dot(2 * cx + 1, 4 * cy + 2));
        } else {
            assert(c.dot(2 * cx + 1, 4 * cy + 3));
        }
    }
}

/// Both curves are drawn: a set dot of the terminator layer or of the
/// twilight layer, in a map cell with any dot inside the oval, makes that cell
/// a terminator cell whose braille glyph has that dot's bit (in ASCII mode, a
/// terminator-styled '.').
pub proof fn lemma_curve_dots_are_drawn(
    w: int,
    h: int,
    line: Seq<char>,
    land: Canvas,
    terminator: Canvas,
    twilight: Canvas,
    oval_masks: Seq<u8>,
    shading: Seq<Shading>,
    x: int,
    y: int,
    col: int,
    row: int,
)
    requires
        1 <= x <= map_cols(w),
        0 <= y < map_rows(h),
        0 <= col < 2,
        0 <= row < 4,
        oval_masks[y * map_cols(w) + (x - 1)] != 0,
        terminator.dot(2 * (x - 1) + col, 4 * y + row) || twilight.dot(2 * (x - 1) + col, 4 * y
            + row),
    ensures
        ({
            let c = composed_cell(
                w,
                h,
                line,
                land,
                terminator,
                twilight,
                oval_masks,
                shading,
                false,
                x,
                y,
            );
            &&& c.style == Style::Terminator
            &&& exists|m: u8| c.sym == spec_braille(m) && m & cell_bit(col, row) != 0
        }),
        composed_cell(w, h, line, land, terminator, twilight, oval_masks, shading, true, x, y)
            == (Cell { sym: '.', style: Style::Terminator }),
{
    let cx = x - 1;
    lemma_cell_mask_bits(terminator, cx, y);
    lemma_cell_mask_bits(twilight, cx, y);
    let t = terminator.spec_cell_mask(cx, y);
    let tw = twilight.spec_cell_mask(cx, y);
    let l = land.spec_cell_mask(cx, y);
    let o = oval_masks[y * map_cols(w) + cx];
    let b = cell_bit(col, row);
    assert(t & b != 0 || tw & b != 0);
    assert((t | tw) != 0 && ((l & o) | (t | tw)) & b != 0) by (bit_vector)
        requires
            t & b != 0 || tw & b != 0,
    ;
    let m = (l & o) | (t | tw);
    assert(m & cell_bit(col, row) != 0);
}

// ---------------------------------------------------------------- shading

/// Each map cell is shaded by its own band: changing the bands of other cells
/// never changes it.
pub proof fn lemma_cell_shade_is_local(
    w: int,
    h: int,
    line: Seq<char>,
    land: Canvas,
    terminator: Canvas,
    twilight: Canvas,
    oval_masks: Seq<u8>,
    shading1: Seq<Shading>,
    shading2: Seq<Shading>,
    ascii: bool,
    x: int,
    y: int,
)
    requires
        shading1[y * map_cols(w) + (x - 1)] == shading2[y * map_cols(w) + (x - 1)],
    ensures
        composed_cell(w, h, line, land, terminator, twilight, oval_masks, shading1, ascii, x, y)
            == composed_cell(w, h, line, land, terminator, twilight, oval_masks, shading2, ascii, x, y),
{
}

/// The style of a map cell without curve dots follows its own band: with a
/// land dot inside the oval, the band's land style (day land, twilight land,
/// night land); otherwise the band's sea style.
pub proof fn lemma_cell_style_follows_its_band(
    w: int,
    h: int,
    line: Seq<char>,
    land: Canvas,
    terminator: Canvas,
    twilight: Canvas,
    oval_masks: Seq<u8>,
    shading: Seq<Shading>,
    ascii: bool,
    x: int,
    y: int,
)
    requires
        1 <= x <= map_cols(w),
        0 <= y < map_rows(h),
        oval_masks[y * map_cols(w) + (x - 1)] != 0,
        !cell_has(terminator, x - 1, y, 0xFF),
        !cell_has(twilight, x - 1, y, 0xFF),
    ensures
        ({
            let i = y * map_cols(w) + (x - 1);
            let c = composed_cell(
                w,
                h,
                line,
                land,
                terminator,
                twilight,
                oval_masks,
                shading,
                ascii,
                x,
                y,
            );
            c.style == if cell_has(land, x - 1, y, oval_masks[i]) {
                match shading[i] {
                    Shading::Day => Style::DayLand,
                    Shading::CivilTwilight => Style::TwiLand,
                    Shading::Night => Style::NightLand,
                }
            } else {
                match shading[i] {
                    Shading::Day => Style::DaySea,
                    Shading::CivilTwilight => Style::TwiSea,
                    Shading::Night => Style::NightSea,
                }
            }
        }),
{
    let cx = x - 1;
    let i = y * map_cols(w) + cx;
    lemma_cell_has(terminator, cx, y, 0xFF);
    lemma_cell_has(twilight, cx, y, 0xFF);
    lemma_cell_has(land, cx, y, oval_masks[i]);
    let t = terminator.spec_cell_mask(cx, y);
    let tw = twilight.spec_cell_mask(cx, y);
    let l = land.spec_cell_mask(cx, y);
    let o = oval_masks[i];
    assert((t | tw) == 0 && ((l & o != 0) <==> ((l & o) != 0))) by (bit_vector)
        requires
            t & 0xFF == 0,
            tw & 0xFF == 0,
    ;
}

/// The band palette: the three bands have three different land styles and
/// three different sea styles; land styles are land and sea styles sea; and
/// without color, day land is bold, twilight land plain and night land dim,
/// day and twilight sea plain and night sea dim.
pub proof fn lemma_band_styles()
    ensures
        forall|s1: Shading, s2: Shading|
            #[trigger] spec_land_style(s1) == #[trigger] spec_land_style(s2) ==> s1 == s2,
        forall|s1: Shading, s2: Shading|
            #[trigger] spec_sea_style(s1) == #[trigger] spec_sea_style(s2) ==> s1 == s2,
        forall|s: Shading|
            is_land_style(#[trigger] spec_land_style(s)) && !is_land_style(spec_sea_style(s)),
        forall|s: Shading|
            #[trigger] spec_style_params(spec_land_style(s), ColorMode::Mono) == match s {
                Shading::Day => 1u8,
                Shading::CivilTwilight => 0u8,
                Shading::Night => 2u8,
            },
        forall|s: Shading|
            #[trigger] spec_style_params(spec_sea_style(s), ColorMode::Mono) == match s {
                Shading::Day => 0u8,
                Shading::CivilTwilight => 0u8,
                Shading::Night => 2u8,
            },
{
}

} // verus!
