//! A model of the terminal the ANSI writer drives, and the laws that the
//! writer's output, fed to a terminal, leaves exactly the next frame on screen,
//! every cell with exactly the attributes its style mandates.
//!
//! The model tracks the cursor, the current SGR parameter set and the screen
//! contents: every written character carries the parameter set in force when it
//! was written. An SGR the writer emits is self-contained (it starts from a
//! reset), so after it the attributes are exactly its parameter set.
use vstd::prelude::*;
use crate::frame::{
    ansi_body, ansi_emits, cell_emits, diff_row, diff_rows, plain_emits, rows_emits, row_emits,
    spec_style_params, Cell, ColorMode, Emit, Frame, Style,
};

verus! {

/// Terminal state: cursor row, cursor column, current SGR parameter set, and
/// the screen as a map from (row, column) to (character, parameter set).
pub type TermState = (int, int, u8, Map<(int, int), (char, u8)>);

/// The effect of one unit of output on the terminal.
pub open spec fn apply(st: TermState, e: Emit) -> TermState {
    let (row, col, attrs, screen) = st;
    match e {
        Emit::Home => (0, 0, attrs, screen),
        Emit::MoveTo(y, x) => (y as int, x as int, attrs, screen),
        Emit::Sgr(id) => (row, col, id, screen),
        Emit::Glyph(c) => (row, col + 1, attrs, screen.insert((row, col), (c, attrs))),
        Emit::CrLf => (row + 1, 0, attrs, screen),
        Emit::Lf => (row + 1, col, attrs, screen),
    }
}

/// The terminal after a sequence of output units.
pub open spec fn run(es: Seq<Emit>, st: TermState) -> TermState
    decreases es.len(),
{
    if es.len() == 0 {
        st
    } else {
        apply(run(es.drop_last(), st), es.last())
    }
}

/// How a cell looks on screen in a color mode: its character and its style's
/// parameter set.
pub open spec fn look(c: Cell, m: ColorMode) -> (char, u8) {
    (c.sym, spec_style_params(c.style, m))
}

/// How the cell of frame `f` at column `x`, row `y` looks on screen.
#[verifier::opaque]
pub open spec fn look_at(f: Frame, x: int, y: int, m: ColorMode) -> (char, u8) {
    look(f.at(x, y), m)
}

/// The screen shows frame `f` (in mode `m`) in its top-left `w` x `h` corner.
pub open spec fn shows(screen: Map<(int, int), (char, u8)>, f: Frame, m: ColorMode) -> bool {
    forall|x: int, y: int|
        0 <= x < f.w && 0 <= y < f.h ==> #[trigger] screen.contains_key((y, x)) && screen[(y, x)]
            == look_at(f, x, y, m)
}

proof fn lemma_run_concat(a: Seq<Emit>, b: Seq<Emit>, st: TermState)
    ensures
        run(a + b, st) == run(b, run(a, st)),
    decreases b.len(),
{
    if b.len() == 0 {
        assert(a + b == a);
    } else {
        lemma_run_concat(a, b.drop_last(), st);
        assert((a + b).drop_last() == a + b.drop_last());
        assert((a + b).last() == b.last());
    }
}

/// One cell: afterwards the attributes are the cell's parameter set and the
/// cell is written at the cursor.
#[verifier::spinoff_prover]
proof fn lemma_cell(c: Cell, cur: u8, m: ColorMode, st: TermState)
    requires
        st.2 == cur,
    ensures
        run(cell_emits(c, cur, Some(m)).0, st) == (
            st.0,
            st.1 + 1,
            spec_style_params(c.style, m),
            st.3.insert((st.0, st.1), look(c, m)),
        ),
        cell_emits(c, cur, Some(m)).1 == spec_style_params(c.style, m),
{
    let es = cell_emits(c, cur, Some(m)).0;
    let p = spec_style_params(c.style, m);
    if cur != p {
        assert(es.drop_last() == seq![Emit::Sgr(p)]);
        assert(es.drop_last().drop_last() == Seq::<Emit>::empty());
        assert(run(es.drop_last().drop_last(), st) == st);
        assert(run(es.drop_last(), st) == apply(st, Emit::Sgr(p)));
    } else {
        assert(es.drop_last() == Seq::<Emit>::empty());
        assert(run(es.drop_last(), st) == st);
    }
}

/// A full row from column `x` on writes the frame's cells at `(y, x..w)`,
/// leaves the cursor after them, and touches nothing else.
#[verifier::spinoff_prover]
proof fn lemma_row(f: Frame, y: int, x: int, cur: u8, m: ColorMode, st: TermState)
    requires
        f.wf(),
        0 <= y < f.h,
        0 <= x <= f.w,
        st.0 == y,
        st.1 == x,
        st.2 == cur,
    ensures
        ({
            let (es, c) = row_emits(f, y, x, cur, Some(m));
            let st2 = run(es, st);
            &&& st2.0 == y
            &&& st2.1 == f.w
            &&& st2.2 == c
            &&& forall|k: (int, int)|
                #![trigger st2.3.contains_key(k)]
                #![trigger st2.3[k]]
                if k.0 == y && x <= k.1 < f.w {
                    st2.3.contains_key(k) && st2.3[k] == look_at(f, k.1, y, m)
                } else {
                    st2.3.contains_key(k) == st.3.contains_key(k) && (st.3.contains_key(k) ==> st2.3[k] == st.3[k])
                }
        }),
    decreases f.w - x,
{
    if x < f.w {
        let (a, c1) = cell_emits(f.at(x, y), cur, Some(m));
        let (b, c2) = row_emits(f, y, x + 1, c1, Some(m));
        lemma_cell(f.at(x, y), cur, m, st);
        assert(look(f.at(x, y), m) == look_at(f, x, y, m)) by {
            reveal(look_at);
        }
        let st1 = run(a, st);
        lemma_row(f, y, x + 1, c1, m, st1);
        lemma_run_concat(a, b, st);
    }
}

/// Full rows `y..h`, joined by `\r\n`, starting at the row's first column.
#[verifier::spinoff_prover]
proof fn lemma_rows(f: Frame, y: int, cur: u8, m: ColorMode, st: TermState)
    requires
        f.wf(),
        0 <= y <= f.h,
        st.0 == y,
        st.1 == 0,
        st.2 == cur,
    ensures
        ({
            let (es, c) = rows_emits(f, y, cur, Some(m), Emit::CrLf);
            let st2 = run(es, st);
            &&& st2.2 == c
            &&& forall|k: (int, int)|
                #![trigger st2.3.contains_key(k)]
                #![trigger st2.3[k]]
                if y <= k.0 < f.h && 0 <= k.1 < f.w {
                    st2.3.contains_key(k) && st2.3[k] == look_at(f, k.1, k.0, m)
                } else if k.0 < y || k.0 >= f.h {
                    st2.3.contains_key(k) == st.3.contains_key(k) && (st.3.contains_key(k) ==> st2.3[k] == st.3[k])
                } else {
                    true
                }
        }),
    decreases f.h - y,
{
    if y < f.h {
        let (r, c1) = row_emits(f, y, 0, cur, Some(m));
        let brk = if y + 1 < f.h { seq![Emit::CrLf] } else { Seq::<Emit>::empty() };
        let (rest, c2) = rows_emits(f, y + 1, c1, Some(m), Emit::CrLf);
        lemma_row(f, y, 0, cur, m, st);
        let st1 = run(r, st);
        let st_b = run(brk, st1);
        if y + 1 < f.h {
            assert(brk.drop_last() == Seq::<Emit>::empty());
            assert(run(brk.drop_last(), st1) == st1);
            assert(st_b == apply(st1, Emit::CrLf));
            lemma_rows(f, y + 1, c1, m, st_b);
        } else {
            assert(st_b == st1);
            assert(rest == Seq::<Emit>::empty());
        }
        let st2 = run(rest, st_b);
        lemma_run_concat(r, brk, st);
        lemma_run_concat(r + brk, rest, st);
        assert(run(r + brk + rest, st) == st2);
        assert forall|k: (int, int)|
            #![trigger st2.3.contains_key(k)]
            #![trigger st2.3[k]]
            if y <= k.0 < f.h && 0 <= k.1 < f.w {
                st2.3.contains_key(k) && st2.3[k] == look_at(f, k.1, k.0, m)
            } else if k.0 < y || k.0 >= f.h {
                st2.3.contains_key(k) == st.3.contains_key(k) && (st.3.contains_key(k) ==> st2.3[k]
                    == st.3[k])
            } else {
                true
            } by {
            assert(st1.3.contains_key(k) == st1.3.contains_key(k));
            if y + 1 < f.h {
                assert(st_b.3 == st1.3);
            }
        }
    }
}

/// Columns `from..w` of row `y` on the screen show the frame's cells.
#[verifier::opaque]
pub open spec fn row_looks(
    screen: Map<(int, int), (char, u8)>,
    f: Frame,
    y: int,
    from: int,
    m: ColorMode,
) -> bool {
    forall|cc: int|
        from <= cc < f.w ==> #[trigger] screen.contains_key((y, cc)) && screen[(y, cc)] == look_at(f, cc, y, m)
}

/// The diff writer's units for row `y` from column `x` on update exactly the
/// changed cells of that row; unchanged cells already show the same look.
#[verifier::spinoff_prover]
proof fn lemma_diff_row(
    p: Frame,
    n: Frame,
    y: int,
    x: int,
    in_run: bool,
    cur: u8,
    m: ColorMode,
    st: TermState,
)
    requires
        p.wf(),
        n.wf(),
        p.w == n.w,
        p.h == n.h,
        0 <= y < n.h,
        0 <= x <= n.w,
        st.2 == cur,
        in_run ==> st.0 == y && st.1 == x,
        row_looks(st.3, p, y, x, m),
    ensures
        ({
            let (es, c) = diff_row(p, n, y, x, in_run, cur, m);
            let st2 = run(es, st);
            &&& st2.2 == c
            &&& forall|k: (int, int)|
                #![trigger st2.3.contains_key(k)]
                #![trigger st2.3[k]]
                if k.0 == y && x <= k.1 < n.w {
                    st2.3.contains_key(k) && st2.3[k] == look_at(n, k.1, y, m)
                } else {
                    st2.3.contains_key(k) == st.3.contains_key(k) && (st.3.contains_key(k)
                        ==> st2.3[k] == st.3[k])
                }
        }),
    decreases n.w - x,
{
    if x < n.w {
        reveal(row_looks);
        if n.at(x, y) == p.at(x, y) {
            assert(look_at(n, x, y, m) == look_at(p, x, y, m)) by {
                reveal(look_at);
            }
            lemma_diff_row(p, n, y, x + 1, false, cur, m, st);
            let st2 = run(diff_row(p, n, y, x, in_run, cur, m).0, st);
            assert(st.3.contains_key((y, x)));
        } else {
            let (ce, c1) = cell_emits(n.at(x, y), cur, Some(m));
            let head = if in_run {
                Seq::<Emit>::empty()
            } else {
                seq![Emit::MoveTo(y as usize, x as usize)]
            };
            let (rest, c2) = diff_row(p, n, y, x + 1, true, c1, m);
            let st_h = run(head, st);
            if !in_run {
                assert(head.drop_last() == Seq::<Emit>::empty());
                assert(run(head.drop_last(), st) == st);
            }
            assert(st_h == (y, x, cur, st.3));
            lemma_cell(n.at(x, y), cur, m, st_h);
            assert(look(n.at(x, y), m) == look_at(n, x, y, m)) by {
                reveal(look_at);
            }
            let st_c = run(ce, st_h);
            let next_x = x + 1;
            assert(st_c.3 == st.3.insert((y, x), look_at(n, x, y, m)));
            assert forall|cc: int| next_x <= cc < n.w implies #[trigger] st_c.3.contains_key((y, cc))
                && st_c.3[(y, cc)] == look_at(p, cc, y, m) by {
                assert(st.3.contains_key((y, cc)));
                assert((y, cc) != (y, x));
            }
            assert(row_looks(st_c.3, p, y, next_x, m));
            assert(st_c.2 == c1);
            assert(st_c.0 == y && st_c.1 == x + 1);
            lemma_diff_row(p, n, y, next_x, true, c1, m, st_c);
            lemma_run_concat(head, ce, st);
            lemma_run_concat(head + ce, rest, st);
        }
    }
}

/// After the diff writer's units for rows `y..h`, run from `st`, exactly the
/// cells of those rows show `n`, everything else is as before, and the
/// attribute state is the one the writer tracked.
spec fn rows_updated(p: Frame, n: Frame, y: int, cur: u8, m: ColorMode, st: TermState) -> bool {
    let (es, c) = diff_rows(p, n, y, cur, m);
    let st2 = run(es, st);
    &&& st2.2 == c
    &&& forall|k: (int, int)|
        y <= k.0 < n.h && 0 <= k.1 < n.w ==> #[trigger] st2.3.contains_key(k) && st2.3[k]
            == look_at(n, k.1, k.0, m)
    &&& forall|k: (int, int)|
        !(y <= k.0 < n.h && 0 <= k.1 < n.w) ==> #[trigger] st2.3.contains_key(k)
            == st.3.contains_key(k) && (st.3.contains_key(k) ==> st2.3[k] == st.3[k])
}

/// The diff writer's units for rows `y..h` update exactly the changed cells.
#[verifier::spinoff_prover]
proof fn lemma_diff_rows(p: Frame, n: Frame, y: int, cur: u8, m: ColorMode, st: TermState)
    requires
        p.wf(),
        n.wf(),
        p.w == n.w,
        p.h == n.h,
        0 <= y <= n.h,
        st.2 == cur,
        forall|k: (int, int)|
            y <= k.0 < n.h && 0 <= k.1 < n.w ==> #[trigger] st.3.contains_key(k) && st.3[k] == look_at(p, k.1, k.0, m),
    ensures
        rows_updated(p, n, y, cur, m, st),
    decreases n.h - y,
{
    if y < n.h {
        let (r, c1) = diff_row(p, n, y, 0, false, cur, m);
        let (rest, c2) = diff_rows(p, n, y + 1, c1, m);
        assert forall|cc: int| 0 <= cc < n.w implies #[trigger] st.3.contains_key((y, cc))
            && st.3[(y, cc)] == look_at(p, cc, y, m) by {
            assert(st.3.contains_key((y, cc)));
        }
        assert(row_looks(st.3, p, y, 0, m)) by {
            reveal(row_looks);
        }
        lemma_diff_row(p, n, y, 0, false, cur, m, st);
        let st1 = run(r, st);
        assert forall|k: (int, int)| y + 1 <= k.0 < n.h && 0 <= k.1 < n.w implies #[trigger] st1.3.contains_key(k)
            && st1.3[k] == look_at(p, k.1, k.0, m) by {
            assert(st.3.contains_key(k));
            assert(st1.3.contains_key(k));
        }
        lemma_diff_rows(p, n, y + 1, c1, m, st1);
        lemma_run_concat(r, rest, st);
        let st2 = run(rest, st1);
        assert(diff_rows(p, n, y, cur, m) == (r + rest, c2));
        assert(run(r + rest, st) == st2);
        assert(st2.2 == c2);
        assert forall|k: (int, int)| y <= k.0 < n.h && 0 <= k.1 < n.w implies #[trigger] st2.3.contains_key(k)
            && st2.3[k] == look_at(n, k.1, k.0, m) by {
            if k.0 == y {
                assert(st1.3.contains_key(k) && st1.3[k] == look_at(n, k.1, y, m));
                assert(!(y + 1 <= k.0 < n.h && 0 <= k.1 < n.w));
                assert(st2.3.contains_key(k) == st1.3.contains_key(k));
                assert(st2.3[k] == st1.3[k]);
            } else {
                assert(y + 1 <= k.0 < n.h);
                assert(st2.3.contains_key(k));
            }
        }
        assert forall|k: (int, int)| !(y <= k.0 < n.h && 0 <= k.1 < n.w) implies #[trigger] st2.3.contains_key(k)
            == st.3.contains_key(k) && (st.3.contains_key(k) ==> st2.3[k] == st.3[k]) by {
            assert(st1.3.contains_key(k) == st.3.contains_key(k));
            assert(st2.3.contains_key(k) == st1.3.contains_key(k));
        }
        assert(rows_updated(p, n, y, cur, m, st));
    } else {
        assert(diff_rows(p, n, y, cur, m) == (Seq::<Emit>::empty(), cur));
        assert(run(Seq::<Emit>::empty(), st) == st);
    }
}

/// The ANSI writer's central promise: fed to a terminal in the reset state that
/// shows `prev` (when the writer diffs against it), its output leaves exactly
/// `next` on screen, every cell carrying exactly the attributes its style
/// mandates, and the terminal back in the reset state.
#[verifier::spinoff_prover]
pub proof fn lemma_ansi_output_shows_next(
    prev: Option<Frame>,
    next: Frame,
    color: bool,
    st: TermState,
)
    requires
        next.wf(),
        prev matches Some(p) ==> p.wf(),
        st.2 == 0,
        prev matches Some(p) ==> (p.w == next.w && p.h == next.h ==> shows(
            st.3,
            p,
            if color { ColorMode::Full } else { ColorMode::Mono },
        )),
    ensures
        shows(
            run(ansi_emits(prev, next, color), st).3,
            next,
            if color { ColorMode::Full } else { ColorMode::Mono },
        ),
        run(ansi_emits(prev, next, color), st).2 == 0,
{
    let m = if color { ColorMode::Full } else { ColorMode::Mono };
    let body = ansi_body(prev, next, color);
    let tail = if body.len() > 0 { seq![Emit::Sgr(0)] } else { Seq::<Emit>::empty() };
    lemma_run_concat(body, tail, st);
    let st1 = run(body, st);
    if body.len() > 0 {
        assert(tail.drop_last() == Seq::<Emit>::empty());
        assert(run(tail.drop_last(), st1) == st1);
        assert(run(tail, st1).3 == st1.3);
    } else {
        assert(run(tail, st1) == st1);
        assert(st1 == st);
    }
    let mut diff = false;
    if let Some(p) = prev {
        if p.w == next.w && p.h == next.h {
            diff = true;
            if p.cells@ == next.cells@ {
                assert forall|x: int, y: int| 0 <= x < next.w && 0 <= y < next.h implies #[trigger] st1.3.contains_key(
                    (y, x),
                ) && st1.3[(y, x)] == look_at(next, x, y, m) by {
                    assert(st.3.contains_key((y, x)));
                    reveal(look_at);
                }
            } else {
                assert forall|k: (int, int)| 0 <= k.0 < next.h && 0 <= k.1 < next.w implies #[trigger] st.3.contains_key(k)
                    && st.3[k] == look_at(p, k.1, k.0, m) by {
                    assert(st.3.contains_key((k.0, k.1)));
                }
                lemma_diff_rows(p, next, 0, 0, m, st);
                assert forall|x: int, y: int| 0 <= x < next.w && 0 <= y < next.h implies #[trigger] st1.3.contains_key(
                    (y, x),
                ) && st1.3[(y, x)] == look_at(next, x, y, m) by {
                    assert(st1.3.contains_key((y, x)));
                }
            }
        }
    }
    if !diff {
        let home = seq![Emit::Home];
        let rows = rows_emits(next, 0, 0, Some(m), Emit::CrLf).0;
        assert(body == home + rows);
        lemma_run_concat(home, rows, st);
        assert(home.drop_last() == Seq::<Emit>::empty());
        assert(run(home.drop_last(), st) == st);
        let st_h = run(home, st);
        lemma_rows(next, 0, 0, m, st_h);
        assert forall|x: int, y: int| 0 <= x < next.w && 0 <= y < next.h implies #[trigger] st1.3.contains_key(
            (y, x),
        ) && st1.3[(y, x)] == look_at(next, x, y, m) by {
            assert(st1.3.contains_key((y, x)));
        }
    }
}

// ---------------------------------------------------------------- other writer laws

/// In mono mode every style's parameter set is the reset, bold or dim one:
/// no color SGR is ever emitted without color.
pub proof fn lemma_mono_has_no_color(style: Style)
    ensures
        spec_style_params(style, ColorMode::Mono) <= 2,
{
}

/// Equal frames produce no output at all.
pub proof fn lemma_ansi_equal_frames_emit_nothing(prev: Frame, next: Frame, color: bool)
    requires
        prev.w == next.w,
        prev.h == next.h,
        prev.cells@ == next.cells@,
    ensures
        ansi_emits(Some(prev), next, color) == Seq::<Emit>::empty(),
{
}

/// Non-empty ANSI output always ends with an SGR reset.
pub proof fn lemma_ansi_ends_with_reset(prev: Option<Frame>, next: Frame, color: bool)
    ensures
        ansi_emits(prev, next, color).len() > 0 ==> ansi_emits(prev, next, color).last() == Emit::Sgr(0),
{
}

/// Without a previous frame (or when the size changed) the ANSI writer starts
/// with a cursor home and redraws every cell.
pub proof fn lemma_ansi_full_frame_starts_home(prev: Option<Frame>, next: Frame, color: bool)
    requires
        match prev {
            Some(p) => p.w != next.w || p.h != next.h,
            None => true,
        },
    ensures
        ansi_emits(prev, next, color)[0] == Emit::Home,
{
    assert(ansi_body(prev, next, color)[0] == Emit::Home);
}

/// The glyphs of row `y`, from column `x` on, in the frame's characters.
pub open spec fn row_text(f: Frame, y: int, x: int) -> Seq<Emit>
    decreases f.w - x,
{
    if x >= f.w {
        Seq::empty()
    } else {
        seq![Emit::Glyph(f.at(x, y).sym)] + row_text(f, y, x + 1)
    }
}

/// Rows `y..h` of text, each followed by a newline.
pub open spec fn rows_text(f: Frame, y: int) -> Seq<Emit>
    decreases f.h - y,
{
    if y >= f.h {
        Seq::empty()
    } else {
        row_text(f, y, 0) + seq![Emit::Lf] + rows_text(f, y + 1)
    }
}

proof fn lemma_row_plain(f: Frame, y: int, x: int, cur: u8)
    ensures
        row_emits(f, y, x, cur, None) == (row_text(f, y, x), cur),
    decreases f.w - x,
{
    if x < f.w {
        lemma_row_plain(f, y, x + 1, cur);
    }
}

proof fn lemma_rows_plain(f: Frame, y: int, cur: u8)
    requires
        0 <= y,
    ensures
        rows_emits(f, y, cur, None, Emit::Lf).1 == cur,
        y < f.h ==> rows_emits(f, y, cur, None, Emit::Lf).0 + seq![Emit::Lf] == rows_text(f, y),
        y >= f.h ==> rows_emits(f, y, cur, None, Emit::Lf).0 == Seq::<Emit>::empty(),
    decreases f.h - y,
{
    if y < f.h {
        lemma_row_plain(f, y, 0, cur);
        lemma_rows_plain(f, y + 1, cur);
        let r = row_text(f, y, 0);
        let rest = rows_emits(f, y + 1, cur, None, Emit::Lf).0;
        if y + 1 < f.h {
            assert(r + seq![Emit::Lf] + rest + seq![Emit::Lf] == r + seq![Emit::Lf] + (rest + seq![Emit::Lf]));
        } else {
            assert(rows_text(f, y + 1) == Seq::<Emit>::empty());
            assert(r + Seq::<Emit>::empty() + rest + seq![Emit::Lf] == r + seq![Emit::Lf] + Seq::<Emit>::empty());
        }
    }
}

/// Without color, the plain writer emits exactly the frame's characters row by
/// row, each row followed by a newline: no escape sequence at all.
pub proof fn lemma_plain_without_color_is_text(f: Frame)
    ensures
        plain_emits(f, false) == if f.h > 0 {
            rows_text(f, 0)
        } else {
            seq![Emit::Lf]
        },
{
    lemma_rows_plain(f, 0, 0);
    if f.h == 0 {
        assert(Seq::<Emit>::empty() + Seq::<Emit>::empty() + seq![Emit::Lf] == seq![Emit::Lf]);
    } else {
        let body = rows_emits(f, 0, 0, None, Emit::Lf).0;
        assert(body + Seq::<Emit>::empty() + seq![Emit::Lf] == body + seq![Emit::Lf]);
    }
}

} // verus!
