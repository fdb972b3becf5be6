//! Dot canvas and braille packing.
//!
//! The canvas is a bit-per-dot grid (`dy = 0` at the top = north, `dx` growing
//! east). Each 2x4 block of dots packs into one Unicode braille character
//! (U+2800..U+28FF).
use vstd::prelude::*;
use vstd::utf8::{char_u32_cast, is_scalar};

verus! {

/// `char::from_u32`: `Some` of the char with that scalar value when `v` is a
/// Unicode scalar value, `None` otherwise (as its documentation states).
#[verifier::external_body]
fn char_from_u32(v: u32) -> (r: Option<char>)
    ensures
        is_scalar(v) ==> r is Some && r.unwrap() as u32 == v,
        !is_scalar(v) ==> r is None,
{
    char::from_u32(v)
}

/// Scalar value of the braille pattern for an 8-dot mask.
pub open spec fn braille_scalar(mask: u8) -> u32 {
    (0x2800 + mask) as u32
}

/// The braille pattern char for an 8-dot mask.
pub open spec fn spec_braille(mask: u8) -> char {
    braille_scalar(mask) as char
}

/// The braille pattern char for an 8-dot mask: `'\u{2800}' | mask`.
pub fn braille(mask: u8) -> (c: char)
    ensures
        c as u32 == braille_scalar(mask),
        c == spec_braille(mask),
{
    let v: u32 = 0x2800u32 + mask as u32;
    let r = char_from_u32(v);
    match r {
        Some(c) => {
            proof { char_u32_cast(c, v); }
            c
        },
        None => {
            proof { assert(false); }
            ' '
        },
    }
}

} // verus!

verus! {

/// Braille bit for the dot at column `col` (0 left, 1 right) and row `row`
/// (0 top .. 3 bottom) of a character cell: dots 1, 2, 3, 7 form the left
/// column, dots 4, 5, 6, 8 the right one.
pub open spec fn cell_bit(col: int, row: int) -> u8 {
    if col == 0 {
        if row == 0 { 0x01 } else if row == 1 { 0x02 } else if row == 2 { 0x04 } else { 0x40 }
    } else {
        if row == 0 { 0x08 } else if row == 1 { 0x10 } else if row == 2 { 0x20 } else { 0x80 }
    }
}

/// Whether bit `k` (0 = least significant) of `m` is set.
pub open spec fn bit_set(m: u8, k: u8) -> bool {
    (m >> k) & 1u8 == 1u8
}

proof fn lemma_or_bit(m: u8, k: u8, j: u8)
    requires
        k < 8,
        j < 8,
    ensures
        bit_set(m | (1u8 << k), j) == (bit_set(m, j) || j == k),
{
    assert(((m | (1u8 << k)) >> j) & 1u8 == 1u8 <==> (((m >> j) & 1u8 == 1u8) || j == k))
        by (bit_vector)
        requires
            k < 8,
            j < 8,
    ;
}

proof fn lemma_zero_bits(j: u8)
    requires
        j < 8,
    ensures
        !bit_set(0u8, j),
{
    assert((0u8 >> j) & 1u8 != 1u8) by (bit_vector);
}

proof fn lemma_grid_index(w: int, h: int, x: int, y: int)
    requires
        0 <= x < w,
        0 <= y < h,
    ensures
        0 <= y * w + x < w * h,
{
    assert(0 <= y * w + x < w * h) by (nonlinear_arith)
        requires
            0 <= x < w,
            0 <= y < h,
    ;
}

proof fn lemma_grid_index_unique(w: int, x: int, y: int, x2: int, y2: int)
    requires
        0 <= x < w,
        0 <= x2 < w,
        0 <= y,
        0 <= y2,
        y * w + x == y2 * w + x2,
    ensures
        x == x2,
        y == y2,
{
    if y < y2 {
        assert(y * w + w <= y2 * w) by (nonlinear_arith)
            requires
                y < y2,
                0 <= w,
        ;
    } else if y2 < y {
        assert(y2 * w + w <= y * w) by (nonlinear_arith)
            requires
                y2 < y,
                0 <= w,
        ;
    }
}

/// A call that changes a canvas: `set_dot(dx, dy)` or `clear()`.
#[derive(Clone, Copy, Debug, PartialEq, Eq, Structural)]
pub enum CanvasOp {
    SetDot(usize, usize),
    Clear,
}

/// `after` is `before` with `op` applied: same size, still well formed, and
/// each dot set exactly when `op` leaves it set.
pub open spec fn applied(before: Canvas, after: Canvas, op: CanvasOp) -> bool {
    &&& after.wf()
    &&& after.width() == before.width()
    &&& after.height() == before.height()
    &&& forall|x: int, y: int|
        #[trigger] after.dot(x, y) == match op {
            CanvasOp::SetDot(dx, dy) => before.dot(x, y) || (x == dx && y == dy && dx
                < before.width() && dy < before.height()),
            CanvasOp::Clear => false,
        }
}

/// Whether dot (x, y) of a `w` x `h` canvas is set after the calls `ops` on a
/// fresh canvas: some in-range `set_dot(x, y)` came after the last `clear`.
pub open spec fn dot_after(w: int, h: int, ops: Seq<CanvasOp>, x: int, y: int) -> bool
    decreases ops.len(),
{
    if ops.len() == 0 {
        false
    } else {
        match ops.last() {
            CanvasOp::Clear => false,
            CanvasOp::SetDot(dx, dy) => (x == dx && y == dy && dx < w && dy < h) || dot_after(
                w,
                h,
                ops.drop_last(),
                x,
                y,
            ),
        }
    }
}

/// Bit-per-dot canvas, row-major, `dots_w * dots_h` dots packed 8 per byte.
pub struct Canvas {
    dots_w: usize,
    dots_h: usize,
    masks: Vec<u8>,
}

impl Canvas {
    /// Width of the dot grid.
    pub closed spec fn width(&self) -> int {
        self.dots_w as int
    }

    /// Height of the dot grid.
    pub closed spec fn height(&self) -> int {
        self.dots_h as int
    }

    /// The canvas's storage matches its dimensions.
    pub closed spec fn wf(&self) -> bool {
        &&& self.dots_w * self.dots_h <= usize::MAX
        &&& self.masks@.len() == (self.dots_w * self.dots_h + 7) / 8
    }

    /// Whether the dot at (dx, dy) is set; false outside the grid.
    pub closed spec fn dot(&self, dx: int, dy: int) -> bool {
        &&& 0 <= dx < self.dots_w
        &&& 0 <= dy < self.dots_h
        &&& {
            let bit = dy * self.dots_w + dx;
            bit_set(self.masks@[bit / 8], (bit % 8) as u8)
        }
    }

    /// The braille mask of character cell (cx, cy): the cell bit of each of
    /// its 2x4 dots that is set.
    pub open spec fn spec_cell_mask(&self, cx: int, cy: int) -> u8 {
        ((if self.dot(2 * cx, 4 * cy) { cell_bit(0, 0) as int } else { 0 })
        + (if self.dot(2 * cx, 4 * cy + 1) { cell_bit(0, 1) as int } else { 0 })
        + (if self.dot(2 * cx, 4 * cy + 2) { cell_bit(0, 2) as int } else { 0 })
        + (if self.dot(2 * cx, 4 * cy + 3) { cell_bit(0, 3) as int } else { 0 })
        + (if self.dot(2 * cx + 1, 4 * cy) { cell_bit(1, 0) as int } else { 0 })
        + (if self.dot(2 * cx + 1, 4 * cy + 1) { cell_bit(1, 1) as int } else { 0 })
        + (if self.dot(2 * cx + 1, 4 * cy + 2) { cell_bit(1, 2) as int } else { 0 })
        + (if self.dot(2 * cx + 1, 4 * cy + 3) { cell_bit(1, 3) as int } else { 0 })) as u8
    }

    /// Width of the dot grid.
    pub fn dots_w(&self) -> (r: usize)
        ensures
            r == self.width(),
    {
        self.dots_w
    }

    /// Height of the dot grid.
    pub fn dots_h(&self) -> (r: usize)
        ensures
            r == self.height(),
    {
        self.dots_h
    }

    /// A well-formed `w` x `h` canvas with no dot set.
    pub open spec fn fresh(&self, w: int, h: int) -> bool {
        &&& self.wf()
        &&& self.width() == w
        &&& self.height() == h
        &&& forall|x: int, y: int| !#[trigger] self.dot(x, y)
    }

    /// An empty `dots_w` x `dots_h` canvas.
    pub fn new(dots_w: usize, dots_h: usize) -> (c: Self)
        requires
            dots_w * dots_h <= usize::MAX,
        ensures
            c.wf(),
            c.width() == dots_w,
            c.height() == dots_h,
            forall|x: int, y: int| !#[trigger] c.dot(x, y),
            c.fresh(dots_w as int, dots_h as int),
    {
        let bits = dots_w * dots_h;
        let n = bits / 8 + if bits % 8 != 0 { 1 } else { 0 };
        let c = Canvas { dots_w, dots_h, masks: vec![0u8; n] };
        assert forall|x: int, y: int| !#[trigger] c.dot(x, y) by {
            if 0 <= x < dots_w && 0 <= y < dots_h {
                lemma_grid_index(dots_w as int, dots_h as int, x, y);
                let bit = y * dots_w + x;
                lemma_zero_bits((bit % 8) as u8);
            }
        }
        c
    }

    /// Unset every dot.
    pub fn clear(&mut self)
        requires
            old(self).wf(),
        ensures
            final(self).wf(),
            final(self).width() == old(self).width(),
            final(self).height() == old(self).height(),
            forall|x: int, y: int| !#[trigger] final(self).dot(x, y),
            applied(*old(self), *final(self), CanvasOp::Clear),
    {
        let n = self.masks.len();
        for i in 0..n
            invariant
                n == self.masks@.len(),
                self.wf(),
                self.dots_w == old(self).dots_w,
                self.dots_h == old(self).dots_h,
                forall|j: int| 0 <= j < i ==> self.masks@[j] == 0u8,
        {
            self.masks.set(i, 0u8);
        }
        assert forall|x: int, y: int| !#[trigger] self.dot(x, y) by {
            if 0 <= x < self.dots_w && 0 <= y < self.dots_h {
                lemma_grid_index(self.dots_w as int, self.dots_h as int, x, y);
                let bit = y * self.dots_w + x;
                lemma_zero_bits((bit % 8) as u8);
            }
        }
    }

    fn bit_index(&self, dx: usize, dy: usize) -> (r: Option<usize>)
        requires
            self.wf(),
        ensures
            r is None <==> !(dx < self.width() && dy < self.height()),
            r matches Some(b) ==> b == dy * self.dots_w + dx && b < self.dots_w * self.dots_h,
    {
        if dx >= self.dots_w || dy >= self.dots_h {
            None
        } else {
            proof {
                lemma_grid_index(self.dots_w as int, self.dots_h as int, dx as int, dy as int);
            }
            Some(dy * self.dots_w + dx)
        }
    }

    /// Set the dot at (dx, dy). Out-of-range coordinates are ignored.
    pub fn set_dot(&mut self, dx: usize, dy: usize)
        requires
            old(self).wf(),
        ensures
            final(self).wf(),
            final(self).width() == old(self).width(),
            final(self).height() == old(self).height(),
            forall|x: int, y: int|
                #[trigger] final(self).dot(x, y) == (old(self).dot(x, y) || (x == dx && y == dy
                    && dx < old(self).width() && dy < old(self).height())),
            applied(*old(self), *final(self), CanvasOp::SetDot(dx, dy)),
    {
        let ghost prev = *self;
        if let Some(bit) = self.bit_index(dx, dy) {
            let k: u8 = (bit % 8) as u8;
            let old_byte = self.masks[bit / 8];
            self.masks.set(bit / 8, old_byte | (1u8 << k));
            assert forall|x: int, y: int|
                #[trigger] self.dot(x, y) == (prev.dot(x, y) || (x == dx && y == dy)) by {
                if 0 <= x < self.dots_w && 0 <= y < self.dots_h {
                    lemma_grid_index(self.dots_w as int, self.dots_h as int, x, y);
                    let b2 = y * self.dots_w + x;
                    lemma_or_bit(old_byte, k, (b2 % 8) as u8);
                    if b2 == bit {
                        lemma_grid_index_unique(self.dots_w as int, x, y, dx as int, dy as int);
                    }
                }
            }
        }
    }

    /// Whether the dot at (dx, dy) is set. Out-of-range coordinates read as false.
    pub fn dot_set(&self, dx: usize, dy: usize) -> (r: bool)
        requires
            self.wf(),
        ensures
            r == self.dot(dx as int, dy as int),
    {
        match self.bit_index(dx, dy) {
            Some(bit) => {
                let k: u8 = (bit % 8) as u8;
                (self.masks[bit / 8] >> k) & 1u8 == 1u8
            },
            None => false,
        }
    }
    /// Pack the 2x4 dots of character cell (cx, cy) into a braille mask.
    /// Out-of-range dots contribute nothing.
    pub fn cell_mask(&self, cx: usize, cy: usize) -> (m: u8)
        requires
            self.wf(),
            2 * cx + 1 <= usize::MAX,
            4 * cy + 3 <= usize::MAX,
        ensures
            m == self.spec_cell_mask(cx as int, cy as int),
    {
        let x0 = 2 * cx;
        let x1 = x0 + 1;
        let y = 4 * cy;
        let mut mask: u8 = 0;
        if self.dot_set(x0, y) {
            mask = mask + 0x01;
        }
        if self.dot_set(x0, y + 1) {
            mask = mask + 0x02;
        }
        if self.dot_set(x0, y + 2) {
            mask = mask + 0x04;
        }
        if self.dot_set(x0, y + 3) {
            mask = mask + 0x40;
        }
        if self.dot_set(x1, y) {
            mask = mask + 0x08;
        }
        if self.dot_set(x1, y + 1) {
            mask = mask + 0x10;
        }
        if self.dot_set(x1, y + 2) {
            mask = mask + 0x20;
        }
        if self.dot_set(x1, y + 3) {
            mask = mask + 0x80;
        }
        mask
    }

    /// The braille character for cell (cx, cy).
    pub fn cell_char(&self, cx: usize, cy: usize) -> (c: char)
        requires
            self.wf(),
            2 * cx + 1 <= usize::MAX,
            4 * cy + 3 <= usize::MAX,
        ensures
            c == spec_braille(self.spec_cell_mask(cx as int, cy as int)),
    {
        braille(self.cell_mask(cx, cy))
    }
}

/// The canvas over any sequence of calls: after `new(w, h)` (canvas `cs[0]`)
/// and the calls `ops`, each taking canvas `cs[i]` to `cs[i + 1]`, a dot is set
/// exactly when an in-range `set_dot` of it came after the last `clear`; the
/// size never changes.
pub proof fn lemma_canvas_history(cs: Seq<Canvas>, ops: Seq<CanvasOp>, w: int, h: int)
    requires
        cs.len() == ops.len() + 1,
        cs[0].fresh(w, h),
        forall|i: int| 0 <= i < ops.len() ==> applied(#[trigger] cs[i], cs[i + 1], ops[i]),
    ensures
        cs.last().wf(),
        cs.last().width() == w,
        cs.last().height() == h,
        forall|x: int, y: int| #[trigger] cs.last().dot(x, y) == dot_after(w, h, ops, x, y),
    decreases ops.len(),
{
    if ops.len() > 0 {
        let n = ops.len() - 1;
        let cs0 = cs.drop_last();
        let ops0 = ops.drop_last();
        assert forall|i: int| 0 <= i < ops0.len() implies applied(#[trigger] cs0[i], cs0[i + 1], ops0[i]) by {
            assert(applied(cs[i], cs[i + 1], ops[i]));
        }
        lemma_canvas_history(cs0, ops0, w, h);
        assert(cs0.last() == cs[n]);
        assert(applied(cs[n], cs[n + 1], ops[n]));
        assert(cs.last() == cs[n + 1]);
        assert forall|x: int, y: int| #[trigger] cs.last().dot(x, y) == dot_after(w, h, ops, x, y) by {
            assert(cs0.last().dot(x, y) == dot_after(w, h, ops0, x, y));
        }
    }
}

/// The braille mask of character cell (cx, cy) as the OR of the bits of its set dots.
pub open spec fn or_mask(a0: bool, a1: bool, a2: bool, a3: bool, a4: bool, a5: bool, a6: bool, a7: bool) -> u8 {
    (if a0 { 0x01u8 } else { 0u8 }) | (if a1 { 0x02u8 } else { 0u8 }) | (if a2 { 0x04u8 } else {
        0u8
    }) | (if a3 { 0x40u8 } else { 0u8 }) | (if a4 { 0x08u8 } else { 0u8 }) | (if a5 { 0x10u8 } else {
        0u8
    }) | (if a6 { 0x20u8 } else { 0u8 }) | (if a7 { 0x80u8 } else { 0u8 })
}

proof fn lemma_cell_mask_or(c: Canvas, cx: int, cy: int)
    ensures
        c.spec_cell_mask(cx, cy) == or_mask(
            c.dot(2 * cx, 4 * cy),
            c.dot(2 * cx, 4 * cy + 1),
            c.dot(2 * cx, 4 * cy + 2),
            c.dot(2 * cx, 4 * cy + 3),
            c.dot(2 * cx + 1, 4 * cy),
            c.dot(2 * cx + 1, 4 * cy + 1),
            c.dot(2 * cx + 1, 4 * cy + 2),
            c.dot(2 * cx + 1, 4 * cy + 3),
        ),
{
    let a0 = c.dot(2 * cx, 4 * cy);
    let a1 = c.dot(2 * cx, 4 * cy + 1);
    let a2 = c.dot(2 * cx, 4 * cy + 2);
    let a3 = c.dot(2 * cx, 4 * cy + 3);
    let a4 = c.dot(2 * cx + 1, 4 * cy);
    let a5 = c.dot(2 * cx + 1, 4 * cy + 1);
    let a6 = c.dot(2 * cx + 1, 4 * cy + 2);
    let a7 = c.dot(2 * cx + 1, 4 * cy + 3);
    assert(((if a0 { 0x01int } else { 0 }) + (if a1 { 0x02int } else { 0 }) + (if a2 {
        0x04int
    } else {
        0
    }) + (if a3 { 0x40int } else { 0 }) + (if a4 { 0x08int } else { 0 }) + (if a5 {
        0x10int
    } else {
        0
    }) + (if a6 { 0x20int } else { 0 }) + (if a7 { 0x80int } else { 0 })) as u8 == ((if a0 {
        0x01u8
    } else {
        0u8
    }) | (if a1 { 0x02u8 } else { 0u8 }) | (if a2 { 0x04u8 } else { 0u8 }) | (if a3 {
        0x40u8
    } else {
        0u8
    }) | (if a4 { 0x08u8 } else { 0u8 }) | (if a5 { 0x10u8 } else { 0u8 }) | (if a6 {
        0x20u8
    } else {
        0u8
    }) | (if a7 { 0x80u8 } else { 0u8 }))) by (bit_vector);
}

/// A dot of character cell (cx, cy), at column `col` and row `row` of the
/// cell, is set exactly when its braille bit is set in the cell's mask.
pub proof fn lemma_cell_mask_bits(c: Canvas, cx: int, cy: int)
    ensures
        forall|col: int, row: int|
            0 <= col < 2 && 0 <= row < 4 ==> (#[trigger] c.dot(2 * cx + col, 4 * cy + row) <==> (
            c.spec_cell_mask(cx, cy) & #[trigger] cell_bit(col, row) != 0)),
{
    lemma_cell_mask_or(c, cx, cy);
    let a0 = c.dot(2 * cx, 4 * cy);
    let a1 = c.dot(2 * cx, 4 * cy + 1);
    let a2 = c.dot(2 * cx, 4 * cy + 2);
    let a3 = c.dot(2 * cx, 4 * cy + 3);
    let a4 = c.dot(2 * cx + 1, 4 * cy);
    let a5 = c.dot(2 * cx + 1, 4 * cy + 1);
    let a6 = c.dot(2 * cx + 1, 4 * cy + 2);
    let a7 = c.dot(2 * cx + 1, 4 * cy + 3);
    let m = c.spec_cell_mask(cx, cy);
    assert((a0 <==> m & 0x01 != 0) && (a1 <==> m & 0x02 != 0) && (a2 <==> m & 0x04 != 0) && (a3
        <==> m & 0x40 != 0) && (a4 <==> m & 0x08 != 0) && (a5 <==> m & 0x10 != 0) && (a6 <==> m
        & 0x20 != 0) && (a7 <==> m & 0x80 != 0)) by (bit_vector)
        requires
            m == ((if a0 { 0x01u8 } else { 0u8 }) | (if a1 { 0x02u8 } else { 0u8 }) | (if a2 {
                0x04u8
            } else {
                0u8
            }) | (if a3 { 0x40u8 } else { 0u8 }) | (if a4 { 0x08u8 } else { 0u8 }) | (if a5 {
                0x10u8
            } else {
                0u8
            }) | (if a6 { 0x20u8 } else { 0u8 }) | (if a7 { 0x80u8 } else { 0u8 })),
    ;
    assert forall|col: int, row: int|
        0 <= col < 2 && 0 <= row < 4 implies (#[trigger] c.dot(2 * cx + col, 4 * cy + row) <==> (
        m & #[trigger] cell_bit(col, row) != 0)) by {
        if col == 0 {
            assert(2 * cx + col == 2 * cx);
        } else {
            assert(2 * cx + col == 2 * cx + 1);
        }
    }
}

/// A canvas with more dots has more dots in every cell mask: when every dot
/// of `c1` is set in `c2`, no bit of a cell mask of `c1` is missing in `c2`.
pub proof fn lemma_cell_mask_grows(c1: Canvas, c2: Canvas, cx: int, cy: int)
    requires
        forall|dx: int, dy: int| #[trigger] c1.dot(dx, dy) ==> c2.dot(dx, dy),
    ensures
        c1.spec_cell_mask(cx, cy) & !c2.spec_cell_mask(cx, cy) == 0,
{
    lemma_cell_mask_or(c1, cx, cy);
    lemma_cell_mask_or(c2, cx, cy);
    let a0 = c1.dot(2 * cx, 4 * cy);
    let a1 = c1.dot(2 * cx, 4 * cy + 1);
    let a2 = c1.dot(2 * cx, 4 * cy + 2);
    let a3 = c1.dot(2 * cx, 4 * cy + 3);
    let a4 = c1.dot(2 * cx + 1, 4 * cy);
    let a5 = c1.dot(2 * cx + 1, 4 * cy + 1);
    let a6 = c1.dot(2 * cx + 1, 4 * cy + 2);
    let a7 = c1.dot(2 * cx + 1, 4 * cy + 3);
    let b0 = c2.dot(2 * cx, 4 * cy);
    let b1 = c2.dot(2 * cx, 4 * cy + 1);
    let b2 = c2.dot(2 * cx, 4 * cy + 2);
    let b3 = c2.dot(2 * cx, 4 * cy + 3);
    let b4 = c2.dot(2 * cx + 1, 4 * cy);
    let b5 = c2.dot(2 * cx + 1, 4 * cy + 1);
    let b6 = c2.dot(2 * cx + 1, 4 * cy + 2);
    let b7 = c2.dot(2 * cx + 1, 4 * cy + 3);
    let m1 = c1.spec_cell_mask(cx, cy);
    let m2 = c2.spec_cell_mask(cx, cy);
    assert(m1 & !m2 == 0) by (bit_vector)
        requires
            a0 ==> b0,
            a1 ==> b1,
            a2 ==> b2,
            a3 ==> b3,
            a4 ==> b4,
            a5 ==> b5,
            a6 ==> b6,
            a7 ==> b7,
            m1 == ((if a0 { 0x01u8 } else { 0u8 }) | (if a1 { 0x02u8 } else { 0u8 }) | (if a2 {
                0x04u8
            } else {
                0u8
            }) | (if a3 { 0x40u8 } else { 0u8 }) | (if a4 { 0x08u8 } else { 0u8 }) | (if a5 {
                0x10u8
            } else {
                0u8
            }) | (if a6 { 0x20u8 } else { 0u8 }) | (if a7 { 0x80u8 } else { 0u8 })),
            m2 == ((if b0 { 0x01u8 } else { 0u8 }) | (if b1 { 0x02u8 } else { 0u8 }) | (if b2 {
                0x04u8
            } else {
                0u8
            }) | (if b3 { 0x40u8 } else { 0u8 }) | (if b4 { 0x08u8 } else { 0u8 }) | (if b5 {
                0x10u8
            } else {
                0u8
            }) | (if b6 { 0x20u8 } else { 0u8 }) | (if b7 { 0x80u8 } else { 0u8 })),
    ;
}

} // verus!
