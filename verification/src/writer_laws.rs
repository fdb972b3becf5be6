//! How much the writers write: the diff writer writes exactly the changed
//! cells, once each; a full frame writes every cell once; the plain writer
//! never moves the cursor.
use vstd::prelude::*;
use crate::frame::{
    ansi_emits, cell_emits, diff_row, diff_rows, plain_emits, row_emits, rows_emits, Cell,
    ColorMode, Emit, Frame,
};

verus! {

/// How many characters a sequence of output units writes.
pub open spec fn glyphs(es: Seq<Emit>) -> nat
    decreases es.len(),
{
    if es.len() == 0 {
        0
    } else {
        glyphs(es.drop_last()) + if es.last() is Glyph {
            1nat
        } else {
            0nat
        }
    }
}

/// How many cells of row `y`, from column `x` on, differ between `p` and `n`.
pub open spec fn changed_in_row(p: Frame, n: Frame, y: int, x: int) -> nat
    decreases n.w - x,
{
    if x >= n.w {
        0
    } else {
        (if n.at(x, y) != p.at(x, y) {
            1nat
        } else {
            0nat
        }) + changed_in_row(p, n, y, x + 1)
    }
}

/// How many cells of rows `y..h` differ between `p` and `n`.
pub open spec fn changed_cells(p: Frame, n: Frame, y: int) -> nat
    decreases n.h - y,
{
    if y >= n.h {
        0
    } else {
        changed_in_row(p, n, y, 0) + changed_cells(p, n, y + 1)
    }
}

/// Whether a unit moves the cursor.
pub open spec fn moves_cursor(e: Emit) -> bool {
    e is Home || e is MoveTo
}

proof fn lemma_glyphs_concat(a: Seq<Emit>, b: Seq<Emit>)
    ensures
        glyphs(a + b) == glyphs(a) + glyphs(b),
    decreases b.len(),
{
    if b.len() > 0 {
        lemma_glyphs_concat(a, b.drop_last());
        assert((a + b).drop_last() == a + b.drop_last());
        assert((a + b).last() == b.last());
    } else {
        assert(a + b == a);
    }
}

proof fn lemma_glyphs_one(e: Emit)
    ensures
        glyphs(seq![e]) == if e is Glyph {
            1nat
        } else {
            0nat
        },
        glyphs(Seq::<Emit>::empty()) == 0,
{
    assert(seq![e].drop_last() =~= Seq::<Emit>::empty());
    assert(glyphs(Seq::<Emit>::empty()) == 0);
}

proof fn lemma_glyphs_cell(cell: Cell, cur: u8, mode: Option<ColorMode>)
    ensures
        glyphs(cell_emits(cell, cur, mode).0) == 1,
{
    let es = cell_emits(cell, cur, mode).0;
    lemma_glyphs_one(Emit::Glyph(cell.sym));
    if es.len() == 2 {
        let p = es[0];
        lemma_glyphs_one(p);
        assert(es =~= seq![p] + seq![Emit::Glyph(cell.sym)]);
        lemma_glyphs_concat(seq![p], seq![Emit::Glyph(cell.sym)]);
    } else {
        assert(es =~= seq![Emit::Glyph(cell.sym)]);
    }
}

proof fn lemma_glyphs_diff_row(
    p: Frame,
    n: Frame,
    y: int,
    x: int,
    in_run: bool,
    cur: u8,
    m: ColorMode,
)
    ensures
        glyphs(diff_row(p, n, y, x, in_run, cur, m).0) == changed_in_row(p, n, y, x),
    decreases n.w - x,
{
    if x < n.w {
        if n.at(x, y) == p.at(x, y) {
            lemma_glyphs_diff_row(p, n, y, x + 1, false, cur, m);
        } else {
            let (ce, c1) = cell_emits(n.at(x, y), cur, Some(m));
            let head = if in_run {
                Seq::<Emit>::empty()
            } else {
                seq![Emit::MoveTo(y as usize, x as usize)]
            };
            let rest = diff_row(p, n, y, x + 1, true, c1, m).0;
            lemma_glyphs_diff_row(p, n, y, x + 1, true, c1, m);
            lemma_glyphs_cell(n.at(x, y), cur, Some(m));
            lemma_glyphs_concat(head, ce);
            lemma_glyphs_concat(head + ce, rest);
            lemma_glyphs_one(Emit::MoveTo(y as usize, x as usize));
        }
    }
}

proof fn lemma_glyphs_diff_rows(p: Frame, n: Frame, y: int, cur: u8, m: ColorMode)
    ensures
        glyphs(diff_rows(p, n, y, cur, m).0) == changed_cells(p, n, y),
    decreases n.h - y,
{
    if y < n.h {
        let (r, c1) = diff_row(p, n, y, 0, false, cur, m);
        lemma_glyphs_diff_row(p, n, y, 0, false, cur, m);
        lemma_glyphs_diff_rows(p, n, y + 1, c1, m);
        lemma_glyphs_concat(r, diff_rows(p, n, y + 1, c1, m).0);
    }
}

proof fn lemma_unchanged_row(p: Frame, n: Frame, y: int, x: int)
    requires
        p.w == n.w,
        p.cells@ == n.cells@,
    ensures
        changed_in_row(p, n, y, x) == 0,
    decreases n.w - x,
{
    if x < n.w {
        lemma_unchanged_row(p, n, y, x + 1);
    }
}

proof fn lemma_unchanged_rows(p: Frame, n: Frame, y: int)
    requires
        p.w == n.w,
        p.cells@ == n.cells@,
    ensures
        changed_cells(p, n, y) == 0,
    decreases n.h - y,
{
    if y < n.h {
        lemma_unchanged_row(p, n, y, 0);
        lemma_unchanged_rows(p, n, y + 1);
    }
}

/// The diff writer writes exactly as many characters as there are changed
/// cells: together with [`crate::screen::lemma_ansi_output_shows_next`], which
/// puts every changed cell on screen, each changed cell is written once and no
/// unchanged cell at all.
pub proof fn lemma_diff_writes_only_changed_cells(prev: Frame, next: Frame, color: bool)
    requires
        prev.w == next.w,
        prev.h == next.h,
    ensures
        glyphs(ansi_emits(Some(prev), next, color)) == changed_cells(prev, next, 0),
{
    let m = if color {
        ColorMode::Full
    } else {
        ColorMode::Mono
    };
    if prev.cells@ == next.cells@ {
        lemma_unchanged_rows(prev, next, 0);
        assert(ansi_emits(Some(prev), next, color) == Seq::<Emit>::empty());
    } else {
        let body = diff_rows(prev, next, 0, 0, m).0;
        lemma_glyphs_diff_rows(prev, next, 0, 0, m);
        let tail = if body.len() > 0 {
            seq![Emit::Sgr(0)]
        } else {
            Seq::<Emit>::empty()
        };
        lemma_glyphs_concat(body, tail);
        lemma_glyphs_one(Emit::Sgr(0));
    }
}

proof fn lemma_glyphs_row(f: Frame, y: int, x: int, cur: u8, mode: Option<ColorMode>)
    requires
        0 <= x <= f.w,
    ensures
        glyphs(row_emits(f, y, x, cur, mode).0) == f.w - x,
    decreases f.w - x,
{
    if x < f.w {
        let (a, c1) = cell_emits(f.at(x, y), cur, mode);
        lemma_glyphs_cell(f.at(x, y), cur, mode);
        lemma_glyphs_row(f, y, x + 1, c1, mode);
        lemma_glyphs_concat(a, row_emits(f, y, x + 1, c1, mode).0);
    }
}

proof fn lemma_glyphs_rows(f: Frame, y: int, cur: u8, mode: Option<ColorMode>, sep: Emit)
    requires
        0 <= y <= f.h,
        !(sep is Glyph),
    ensures
        glyphs(rows_emits(f, y, cur, mode, sep).0) == (f.h - y) * f.w,
    decreases f.h - y,
{
    if y < f.h {
        let (r, c1) = row_emits(f, y, 0, cur, mode);
        let brk = if y + 1 < f.h {
            seq![sep]
        } else {
            Seq::<Emit>::empty()
        };
        let rest = rows_emits(f, y + 1, c1, mode, sep).0;
        lemma_glyphs_row(f, y, 0, cur, mode);
        lemma_glyphs_rows(f, y + 1, c1, mode, sep);
        lemma_glyphs_concat(r, brk);
        lemma_glyphs_concat(r + brk, rest);
        lemma_glyphs_one(sep);
        assert(rows_emits(f, y, cur, mode, sep).0 == r + brk + rest);
        assert((f.h - y) * f.w == f.w + (f.h - (y + 1)) * f.w) by (nonlinear_arith);
    } else {
        lemma_glyphs_one(sep);
        assert((f.h - y) * f.w == 0) by (nonlinear_arith)
            requires
                y == f.h,
        ;
    }
}

/// A full frame (no previous frame, or one of another size) writes every cell
/// exactly once.
pub proof fn lemma_full_frame_writes_every_cell(prev: Option<Frame>, next: Frame, color: bool)
    requires
        match prev {
            Some(p) => p.w != next.w || p.h != next.h,
            None => true,
        },
    ensures
        glyphs(ansi_emits(prev, next, color)) == next.w * next.h,
{
    let m = if color {
        ColorMode::Full
    } else {
        ColorMode::Mono
    };
    let rows = rows_emits(next, 0, 0, Some(m), Emit::CrLf).0;
    let body = seq![Emit::Home] + rows;
    lemma_glyphs_rows(next, 0, 0, Some(m), Emit::CrLf);
    lemma_glyphs_concat(seq![Emit::Home], rows);
    lemma_glyphs_one(Emit::Home);
    let tail = seq![Emit::Sgr(0)];
    lemma_glyphs_one(Emit::Sgr(0));
    lemma_glyphs_concat(body, tail);
    assert(body.len() > 0);
    assert((next.h - 0) * next.w == next.w * next.h) by (nonlinear_arith);
}

proof fn lemma_no_moves_concat(a: Seq<Emit>, b: Seq<Emit>)
    requires
        forall|i: int| 0 <= i < a.len() ==> !moves_cursor(#[trigger] a[i]),
        forall|i: int| 0 <= i < b.len() ==> !moves_cursor(#[trigger] b[i]),
    ensures
        forall|i: int| 0 <= i < (a + b).len() ==> !moves_cursor(#[trigger] (a + b)[i]),
{
    assert forall|i: int| 0 <= i < (a + b).len() implies !moves_cursor(#[trigger] (a + b)[i]) by {
        if i < a.len() {
            assert((a + b)[i] == a[i]);
        } else {
            assert((a + b)[i] == b[i - a.len()]);
        }
    }
}

proof fn lemma_row_no_moves(f: Frame, y: int, x: int, cur: u8, mode: Option<ColorMode>)
    ensures
        forall|i: int|
            0 <= i < row_emits(f, y, x, cur, mode).0.len() ==> !moves_cursor(
                #[trigger] row_emits(f, y, x, cur, mode).0[i],
            ),
    decreases f.w - x,
{
    if x < f.w {
        let (a, c1) = cell_emits(f.at(x, y), cur, mode);
        lemma_row_no_moves(f, y, x + 1, c1, mode);
        lemma_no_moves_concat(a, row_emits(f, y, x + 1, c1, mode).0);
    }
}

proof fn lemma_rows_no_moves(f: Frame, y: int, cur: u8, mode: Option<ColorMode>)
    ensures
        forall|i: int|
            0 <= i < rows_emits(f, y, cur, mode, Emit::Lf).0.len() ==> !moves_cursor(
                #[trigger] rows_emits(f, y, cur, mode, Emit::Lf).0[i],
            ),
    decreases f.h - y,
{
    if y < f.h {
        let (r, c1) = row_emits(f, y, 0, cur, mode);
        let brk = if y + 1 < f.h {
            seq![Emit::Lf]
        } else {
            Seq::<Emit>::empty()
        };
        lemma_row_no_moves(f, y, 0, cur, mode);
        lemma_rows_no_moves(f, y + 1, c1, mode);
        lemma_no_moves_concat(r, brk);
        lemma_no_moves_concat(r + brk, rows_emits(f, y + 1, c1, mode, Emit::Lf).0);
    }
}

/// The plain writer never moves the cursor, with or without color, and
/// writes every cell exactly once.
pub proof fn lemma_plain_has_no_cursor_moves(f: Frame, color: bool)
    ensures
        forall|i: int|
            0 <= i < plain_emits(f, color).len() ==> !moves_cursor(#[trigger] plain_emits(f, color)[i]),
        glyphs(plain_emits(f, color)) == f.w * f.h,
{
    let mode = if color {
        Some(ColorMode::Full)
    } else {
        None
    };
    let (body, c) = rows_emits(f, 0, 0, mode, Emit::Lf);
    let close = if c != 0 {
        seq![Emit::Sgr(0)]
    } else {
        Seq::<Emit>::empty()
    };
    lemma_rows_no_moves(f, 0, 0, mode);
    lemma_no_moves_concat(body, close);
    lemma_no_moves_concat(body + close, seq![Emit::Lf]);
    lemma_glyphs_rows(f, 0, 0, mode, Emit::Lf);
    lemma_glyphs_concat(body, close);
    lemma_glyphs_concat(body + close, seq![Emit::Lf]);
    lemma_glyphs_one(Emit::Sgr(0));
    lemma_glyphs_one(Emit::Lf);
    assert((f.h - 0) * f.w == f.w * f.h) by (nonlinear_arith);
}

} // verus!
