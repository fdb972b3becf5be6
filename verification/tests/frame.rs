use daylight::frame::{
    compose_clock_row, compose_layers, land_style, map_cell, render_ansi, render_plain, sea_style,
    style_params, Cell, ColorMode, Frame, Style,
};
use daylight::raster::Canvas;
use daylight::solar::Shading;

/// Count CSI sequences ending in 'H' (cursor positioning), e.g. ESC[6;11H, ESC[H.
fn count_cursor_moves(out: &[u8]) -> usize {
    let mut n = 0;
    let mut i = 0;
    while i + 1 < out.len() {
        if out[i] == 0x1b && out[i + 1] == b'[' {
            let mut j = i + 2;
            while j < out.len() && (out[j].is_ascii_digit() || out[j] == b';') {
                j += 1;
            }
            if j < out.len() && out[j] == b'H' {
                n += 1;
            }
            i = j + 1;
        } else {
            i += 1;
        }
    }
    n
}

// ---------------------------------------------------------------- Frame

#[test]
fn frame_new_get_set() {
    let mut f = Frame::new(3, 2, Cell::blank());
    assert_eq!(f.cells.len(), 6);
    assert_eq!(f.get(0, 0), Cell::blank());
    let c = Cell {
        sym: 'x',
        style: Style::Clock,
    };
    f.set(2, 1, c);
    assert_eq!(f.get(2, 1), c);
    assert_eq!(f.get(1, 1), Cell::blank()); // neighbors untouched
}

#[test]
fn frame_is_row_major() {
    let mut f = Frame::new(4, 3, Cell::blank());
    let c = Cell {
        sym: 'y',
        style: Style::DayLand,
    };
    f.set(1, 2, c);
    assert_eq!(f.cells[2 * 4 + 1], c);
    assert_eq!(Cell::blank(), Cell { sym: ' ', style: Style::Blank });
}

// ------------------------------------------------------ render_ansi

#[test]
fn ansi_adjacent_and_distant_changes() {
    let f1 = Frame::new(10, 4, Cell::blank());
    // Adjacent changes coalesce into a single run.
    let mut f2 = f1.clone();
    f2.set(
        2,
        1,
        Cell {
            sym: 'a',
            style: Style::Clock,
        },
    );
    f2.set(
        3,
        1,
        Cell {
            sym: 'b',
            style: Style::Clock,
        },
    );
    let out = render_ansi(Some(&f1), &f2, true);
    assert_eq!(count_cursor_moves(&out), 1, "adjacent cells form one run");
    assert!(out.starts_with(b"\x1b[2;3H"));

    // Distant changes produce two runs with absolute positioning.
    let mut f3 = f1.clone();
    f3.set(
        2,
        1,
        Cell {
            sym: 'a',
            style: Style::Clock,
        },
    );
    f3.set(
        7,
        3,
        Cell {
            sym: 'z',
            style: Style::NightSea,
        },
    );
    let out = render_ansi(Some(&f1), &f3, true);
    assert_eq!(count_cursor_moves(&out), 2);
    let s = String::from_utf8(out).unwrap();
    assert!(s.contains("\x1b[2;3H"));
    assert!(s.contains("\x1b[4;8H"));
}

#[test]
fn ansi_full_frame_on_none_or_size_change() {
    let f = Frame::new(6, 3, Cell::blank());
    let out = render_ansi(None, &f, true);
    assert!(out.starts_with(b"\x1b[H"));
    assert!(out.ends_with(b"\x1b[0m"));
    assert_eq!(count_cursor_moves(&out), 1); // just the home ESC[H
    let s = String::from_utf8(out).unwrap();
    let body = s
        .strip_prefix("\x1b[H")
        .and_then(|r| r.strip_suffix("\x1b[0m"))
        .unwrap();
    assert_eq!(body, "      \r\n      \r\n      ");

    // Size mismatch against prev also takes the full-frame path.
    let bigger = Frame::new(8, 3, Cell::blank());
    assert!(render_ansi(Some(&f), &bigger, true).starts_with(b"\x1b[H"));
}

#[test]
fn ansi_mono_has_attributes_but_no_color() {
    let mut f1 = Frame::new(4, 1, Cell::blank());
    f1.set(
        0,
        0,
        Cell {
            sym: '\u{2801}',
            style: Style::DayLand,
        },
    );
    f1.set(
        1,
        0,
        Cell {
            sym: '\u{2801}',
            style: Style::NightSea,
        },
    );
    f1.set(
        2,
        0,
        Cell {
            sym: 'x',
            style: Style::Terminator,
        },
    );
    let f2 = Frame::new(4, 1, Cell::blank());
    let out = render_ansi(Some(&f2), &f1, false);
    let s = String::from_utf8(out).unwrap();
    assert!(!s.contains("38;5;"), "no color SGR in mono mode: {s}");
    assert!(
        s.contains("\x1b[0;1m"),
        "self-contained bold attribute present in mono mode: {s}"
    );
    assert!(
        s.contains("\x1b[0;2m"),
        "self-contained dim attribute present in mono mode: {s}"
    );
}

#[test]
fn ansi_diff_empty_for_equal_frames() {
    let mut f1 = Frame::new(7, 3, Cell::blank());
    f1.set(
        3,
        1,
        Cell {
            sym: '\u{28ff}',
            style: Style::TwiLand,
        },
    );
    let f2 = f1.clone();
    assert!(render_ansi(Some(&f1), &f2, true).is_empty());
    assert!(render_ansi(Some(&f1), &f2, false).is_empty());
}

#[test]
fn ansi_single_cell_change_on_blank_frame_is_one_run() {
    let f1 = Frame::new(20, 8, Cell::blank());
    let mut f2 = f1.clone();
    f2.set(
        10,
        5,
        Cell {
            sym: '\u{2801}',
            style: Style::DayLand,
        },
    );
    let out = render_ansi(Some(&f1), &f2, true);
    assert_eq!(count_cursor_moves(&out), 1);
    assert!(out.starts_with(b"\x1b[6;11H"));
    assert!(out.ends_with(b"\x1b[0m"), "output must end with SGR reset");
    // Exact bytes: move, self-contained day-land SGR, the glyph, reset.
    let mut want = b"\x1b[6;11H\x1b[0;1;38;5;114m".to_vec();
    want.extend_from_slice("\u{2801}".as_bytes());
    want.extend_from_slice(b"\x1b[0m");
    assert_eq!(out, want);
}

// ------------------------------------------- SGR terminal simulator

/// Attributes a terminal holds for a character.
#[derive(Clone, PartialEq, Debug, Default)]
struct TermAttrs {
    bold: bool,
    dim: bool,
    fg: Option<u8>,
}

/// Minimal VT parser: tracks SGR state and a screen of (char, attrs-at-write).
struct Term {
    attrs: TermAttrs,
    cx: usize,
    cy: usize,
    screen: Vec<Vec<(char, TermAttrs)>>,
}

impl Term {
    fn new(w: usize, h: usize) -> Self {
        Term {
            attrs: TermAttrs::default(),
            cx: 0,
            cy: 0,
            screen: vec![vec![(' ', TermAttrs::default()); w]; h],
        }
    }

    fn feed(&mut self, bytes: &[u8]) {
        let s = String::from_utf8(bytes.to_vec()).unwrap();
        let mut it = s.chars().peekable();
        while let Some(c) = it.next() {
            match c {
                '\x1b' => {
                    assert_eq!(it.next(), Some('['), "only CSI expected");
                    let mut seq = String::new();
                    let fin = loop {
                        let f = it.next().expect("unterminated CSI");
                        if f.is_ascii_alphabetic() {
                            break f;
                        }
                        seq.push(f);
                    };
                    match fin {
                        'm' => self.sgr(&seq),
                        'H' => {
                            let mut parts = seq.split(';');
                            let r: usize = parts.next().unwrap_or("").parse().unwrap_or(1);
                            let c: usize = parts.next().unwrap_or("").parse().unwrap_or(1);
                            self.cy = r - 1;
                            self.cx = c - 1;
                        }
                        _ => {}
                    }
                }
                '\r' => self.cx = 0,
                '\n' => self.cy += 1,
                other => {
                    self.screen[self.cy][self.cx] = (other, self.attrs.clone());
                    self.cx += 1;
                }
            }
        }
    }

    /// Apply an SGR parameter list like a terminal does (sticky attributes).
    fn sgr(&mut self, seq: &str) {
        let params: Vec<i64> = seq
            .split(';')
            .map(|p| if p.is_empty() { 0 } else { p.parse().unwrap() })
            .collect();
        let mut i = 0;
        while i < params.len() {
            match params[i] {
                0 => self.attrs = TermAttrs::default(),
                1 => self.attrs.bold = true,
                2 => self.attrs.dim = true,
                22 => {
                    self.attrs.bold = false;
                    self.attrs.dim = false;
                }
                39 => self.attrs.fg = None,
                38 => {
                    assert!(params[i + 1] == 5, "only 256-color SGR expected");
                    self.attrs.fg = Some(params[i + 2] as u8);
                    i += 2;
                }
                _ => {}
            }
            i += 1;
        }
    }

    /// The attrs a style must render with.
    fn expected(style: Style, color: bool) -> TermAttrs {
        let mut t = Term {
            attrs: TermAttrs::default(),
            cx: 0,
            cy: 0,
            screen: vec![],
        };
        let mode = if color { "full" } else { "mono" };
        let params = match (style, mode) {
            (Style::Blank, _) | (Style::DaySea, _) => "0",
            (Style::DayLand, "mono") => "1",
            (Style::DayLand, _) => "1;38;5;114",
            (Style::TwiSea, "mono") | (Style::TwiLand, "mono") => "0",
            (Style::TwiSea, _) => "38;5;244",
            (Style::TwiLand, _) => "38;5;246",
            (Style::NightSea, "mono") | (Style::NightLand, "mono") => "2",
            (Style::NightSea, _) => "2;38;5;238",
            (Style::NightLand, _) => "2;38;5;244",
            (Style::Terminator, "mono") => "1",
            (Style::Terminator, _) => "1;38;5;214",
            (Style::Clock, _) => "1",
        };
        let full = if params == "0" {
            "0".to_string()
        } else {
            format!("0;{params}")
        };
        t.sgr(&full);
        t.attrs
    }
}

fn assert_screen(term: &Term, f: &Frame, color: bool) {
    for y in 0..f.h {
        for x in 0..f.w {
            let (ch, attrs) = term.screen[y][x].clone();
            let cell = f.get(x, y);
            assert_eq!(ch, cell.sym, "screen char at ({x},{y})");
            assert_eq!(
                attrs,
                Term::expected(cell.style, color),
                "attributes at ({x},{y}) style {:?}: stale SGR state leaked",
                cell.style
            );
        }
    }
}

/// Direct regression for the clock bug: a diff run that touches dim night
/// cells *before* the clock row must not leave dim/color on the clock.
#[test]
fn no_stale_dim_or_color_before_clock_run() {
    let f1 = Frame::new(12, 2, Cell::blank());
    let mut f2 = f1.clone();
    f2.set(
        0,
        0,
        Cell {
            sym: '\u{28ff}',
            style: Style::NightLand,
        },
    );
    f2.set(
        1,
        0,
        Cell {
            sym: '\u{28ff}',
            style: Style::TwiLand,
        },
    );
    f2.set(
        5,
        1,
        Cell {
            sym: '7',
            style: Style::Clock,
        },
    );
    let bytes = render_ansi(Some(&f1), &f2, true);
    let mut term = Term::new(12, 2);
    term.feed(&bytes);
    let attrs = term.screen[1][5].1.clone();
    assert_eq!(
        attrs,
        TermAttrs {
            bold: true,
            dim: false,
            fg: None
        },
        "clock must render plain bold, not the night run's dim/color"
    );
    let twi = term.screen[0][1].1.clone();
    assert_eq!(twi.fg, Some(246), "twilight land keeps its color");
    assert!(!twi.dim, "night dim must not leak into twilight land");
}

/// Every style, in both color modes, through a full frame and two diffs: each
/// screen cell carries exactly the attributes its style mandates.
#[test]
fn sgr_stream_renders_exact_attributes_for_every_style() {
    let styles = [
        Style::Blank,
        Style::DaySea,
        Style::DayLand,
        Style::TwiSea,
        Style::TwiLand,
        Style::NightSea,
        Style::NightLand,
        Style::Terminator,
        Style::Clock,
    ];
    let (w, h) = (9usize, 3usize);
    for &color in &[true, false] {
        let mut f1 = Frame::new(w, h, Cell::blank());
        for y in 0..h {
            for x in 0..w {
                let s = styles[(x + 2 * y) % styles.len()];
                f1.set(x, y, Cell { sym: '\u{2847}', style: s });
            }
        }
        let mut f2 = f1.clone();
        for x in 0..w {
            let s = styles[(x * 5 + 1) % styles.len()];
            f2.set(x, 1, Cell { sym: 'q', style: s });
        }
        let mut f3 = f2.clone();
        f3.set(4, 2, Cell { sym: '2', style: Style::Clock });

        let mut term = Term::new(w, h);
        term.feed(&render_ansi(None, &f1, color));
        assert_screen(&term, &f1, color);
        term.feed(&render_ansi(Some(&f1), &f2, color));
        assert_screen(&term, &f2, color);
        term.feed(&render_ansi(Some(&f2), &f3, color));
        assert_screen(&term, &f3, color);
    }
}

// ----------------------------------------------------- render_plain

#[test]
fn plain_without_color_is_bare_text() {
    let mut f = Frame::new(5, 2, Cell::blank());
    f.set(1, 0, Cell { sym: '#', style: Style::DayLand });
    f.set(2, 1, Cell { sym: '.', style: Style::Terminator });
    let out = render_plain(&f, false);
    assert!(!out.contains(&0x1b), "plain color=false must contain no ESC");
    assert_eq!(out, b" #   \n  .  \n".to_vec());
}

#[test]
fn plain_with_color_has_sgr_and_no_cursor_moves() {
    let mut f = Frame::new(3, 2, Cell::blank());
    f.set(0, 0, Cell { sym: '.', style: Style::Terminator });
    f.set(1, 1, Cell { sym: 'c', style: Style::Clock });
    let out = render_plain(&f, true);
    let s = String::from_utf8(out).unwrap();
    assert!(s.contains("38;5;214"), "terminator accent color expected");
    assert!(s.contains("\x1b[0;1m"), "self-contained bold expected for the clock");
    assert_eq!(count_cursor_moves(s.as_bytes()), 0, "no cursor moves in plain output");
    assert!(s.ends_with("\n"));
    assert_eq!(s, "\x1b[0;1;38;5;214m.\x1b[0m  \n \x1b[0;1mc\x1b[0m \n");
}

#[test]
fn plain_of_empty_frame_is_one_newline() {
    let f = Frame::new(4, 0, Cell::blank());
    assert_eq!(render_plain(&f, false), b"\n".to_vec());
}

// ----------------------------------------------------- styles and cells

#[test]
fn style_parameter_sets() {
    assert_eq!(style_params(Style::Blank, ColorMode::Full), 0);
    assert_eq!(style_params(Style::DayLand, ColorMode::Full), 3);
    assert_eq!(style_params(Style::DayLand, ColorMode::Mono), 1);
    assert_eq!(style_params(Style::TwiSea, ColorMode::Full), 4);
    assert_eq!(style_params(Style::TwiLand, ColorMode::Full), 5);
    assert_eq!(style_params(Style::TwiLand, ColorMode::Mono), 0);
    assert_eq!(style_params(Style::NightSea, ColorMode::Full), 6);
    assert_eq!(style_params(Style::NightLand, ColorMode::Full), 7);
    assert_eq!(style_params(Style::NightLand, ColorMode::Mono), 2);
    assert_eq!(style_params(Style::Terminator, ColorMode::Full), 8);
    assert_eq!(style_params(Style::Clock, ColorMode::Mono), 1);
    assert_eq!(sea_style(Shading::CivilTwilight), Style::TwiSea);
    assert_eq!(land_style(Shading::Night), Style::NightLand);
}

#[test]
fn map_cell_layers() {
    // Braille: land dots in the shading's land style.
    assert_eq!(
        map_cell(false, 0x05, 0, Shading::Day),
        Cell { sym: '\u{2805}', style: Style::DayLand }
    );
    // Curve dots merge into the glyph and win the style.
    assert_eq!(
        map_cell(false, 0x05, 0x80, Shading::Night),
        Cell { sym: '\u{2885}', style: Style::Terminator }
    );
    // No dots: sea.
    assert_eq!(
        map_cell(false, 0, 0, Shading::CivilTwilight),
        Cell { sym: ' ', style: Style::TwiSea }
    );
    // ASCII mode uses '.', '#', ' '.
    assert_eq!(
        map_cell(true, 0x01, 0x02, Shading::Day),
        Cell { sym: '.', style: Style::Terminator }
    );
    assert_eq!(
        map_cell(true, 0x01, 0, Shading::Night),
        Cell { sym: '#', style: Style::NightLand }
    );
    assert_eq!(
        map_cell(true, 0, 0, Shading::Day),
        Cell { sym: ' ', style: Style::DaySea }
    );
}

// ----------------------------------------------------- composition

#[test]
fn clock_row_centered_and_styled() {
    let (w, h) = (80usize, 24usize);
    let line = "Sat 2026-09-26 14:03:22 UTC+02:00 · ☉ 12.3°S 45.6°W";
    let mut f = Frame::new(w, h, Cell::blank());
    compose_clock_row(&mut f, line);
    let len = line.chars().count();
    let pad = (w - len) / 2;
    let row: String = (0..w).map(|x| f.get(x, h - 1).sym).collect();
    let expected = " ".repeat(pad) + line + &" ".repeat(w - len - pad);
    assert_eq!(row, expected);
    assert_eq!(f.get(pad, h - 1).style, Style::Clock); // text is Clock-styled
    assert_eq!(f.get(0, h - 1), Cell::blank()); // padding is blank
    assert_eq!(f.get(w - 1, h - 1), Cell::blank());
}

#[test]
fn clock_row_truncates_when_too_wide() {
    let line = "Wed 2026-09-26 14:03:22 UTC+02:00 · ☉ 12.3°S 45.6°W";
    let mut f = Frame::new(30, 3, Cell::blank());
    compose_clock_row(&mut f, line);
    let kept: String = line.chars().take(28).collect(); // w - 2
    let pad = (30 - 28) / 2;
    let row: String = (0..30).map(|x| f.get(x, 2).sym).collect();
    let expected = " ".repeat(pad) + &kept + &" ".repeat(30 - 28 - pad);
    assert_eq!(row, expected);
}

#[test]
fn composed_frame_layout() {
    // 6 x 4 terminal: map area 4 x 2 cells at rows 0..=1, columns 1..=4;
    // row 2 is the separator, row 3 the clock.
    let (w, h) = (6usize, 4usize);
    let (cols, rows) = (w - 2, h - 2);
    let mut land = Canvas::new(2 * cols, 4 * rows);
    let mut term = Canvas::new(2 * cols, 4 * rows);
    let twi = Canvas::new(2 * cols, 4 * rows);
    land.set_dot(0, 0); // cell (0,0) dot 1
    land.set_dot(1, 0); // cell (0,0) dot 4 -- outside the oval below
    land.set_dot(2, 4); // cell (1,1) dot 1
    term.set_dot(7, 7); // cell (3,1) dot 8
    let mut oval = vec![0xFFu8; cols * rows];
    oval[0] = 0x01; // only dot 1 of cell (0,0) is inside the oval
    oval[cols + 2] = 0; // cell (2,1) lies outside the oval
    let shading = vec![Shading::Day; cols * rows];
    let f = compose_layers(w, h, "ab", &land, &term, &twi, &oval, &shading, false);
    assert_eq!((f.w, f.h), (w, h));
    // Side margins and the separator row are blank.
    for y in 0..h - 1 {
        assert_eq!(f.get(0, y), Cell::blank());
        assert_eq!(f.get(w - 1, y), Cell::blank());
    }
    for x in 0..w {
        assert_eq!(f.get(x, h - 2), Cell::blank());
    }
    // Land dots outside the oval are dropped.
    assert_eq!(f.get(1, 0), Cell { sym: '\u{2801}', style: Style::DayLand });
    assert_eq!(f.get(2, 1), Cell { sym: '\u{2801}', style: Style::DayLand });
    // Curve dots win the style.
    assert_eq!(f.get(4, 1), Cell { sym: '\u{2880}', style: Style::Terminator });
    // A cell outside the oval stays blank; an empty cell inside is sea.
    assert_eq!(f.get(3, 1), Cell::blank());
    assert_eq!(f.get(2, 0), Cell { sym: ' ', style: Style::DaySea });
    // The clock row is centered.
    let row: String = (0..w).map(|x| f.get(x, h - 1).sym).collect();
    assert_eq!(row, "  ab  ");
    assert_eq!(f.get(2, h - 1).style, Style::Clock);

    // Same layers in, same frame out; ASCII mode draws '#', '.' and ' '.
    assert_eq!(compose_layers(w, h, "ab", &land, &term, &twi, &oval, &shading, false), f);
    let a = compose_layers(w, h, "ab", &land, &term, &twi, &oval, &shading, true);
    assert_eq!(a.get(1, 0), Cell { sym: '#', style: Style::DayLand });
    assert_eq!(a.get(4, 1), Cell { sym: '.', style: Style::Terminator });
}

#[test]
fn degenerate_sizes_compose_and_render() {
    for &(w, h) in &[(0usize, 0usize), (1, 1), (2, 2), (3, 3), (4, 2), (10, 1), (1, 3)] {
        let cols = w.saturating_sub(2);
        let rows = h.saturating_sub(2);
        let c = Canvas::new(2 * cols, 4 * rows);
        let f = compose_layers(
            w,
            h,
            "clock",
            &c,
            &c,
            &c,
            &vec![0xFF; cols * rows],
            &vec![Shading::Night; cols * rows],
            false,
        );
        assert_eq!((f.w, f.h), (w, h));
        assert_eq!(f.cells.len(), w * h);
        let _ = render_plain(&f, false);
        let _ = render_ansi(None, &f, true);
    }
}

/// The characters an output writes, escape sequences and line breaks aside.
fn written_chars(out: &[u8]) -> usize {
    let s = String::from_utf8(out.to_vec()).unwrap();
    let mut n = 0;
    let mut it = s.chars();
    while let Some(c) = it.next() {
        match c {
            '\x1b' => {
                for f in it.by_ref() {
                    if f.is_ascii_alphabetic() {
                        break;
                    }
                }
            }
            '\r' | '\n' => {}
            _ => n += 1,
        }
    }
    n
}

#[test]
fn diff_writes_exactly_the_changed_cells() {
    let f1 = Frame::new(8, 3, Cell::blank());
    let mut f2 = f1.clone();
    f2.set(0, 0, Cell { sym: 'a', style: Style::DayLand });
    f2.set(1, 0, Cell { sym: 'b', style: Style::NightSea });
    f2.set(7, 1, Cell { sym: 'c', style: Style::Clock });
    f2.set(3, 2, Cell { sym: '\u{28ff}', style: Style::TwiLand });
    for color in [true, false] {
        assert_eq!(written_chars(&render_ansi(Some(&f1), &f2, color)), 4);
        assert_eq!(written_chars(&render_ansi(Some(&f2), &f2, color)), 0);
        // A full frame writes every cell once.
        assert_eq!(written_chars(&render_ansi(None, &f2, color)), 24);
        // The plain writer too, without any cursor move.
        let plain = render_plain(&f2, color);
        assert_eq!(written_chars(&plain), 24);
        assert_eq!(count_cursor_moves(&plain), 0);
    }
}

fn layers(
    cols: usize,
    rows: usize,
    land_dots: &[(usize, usize)],
) -> (Canvas, Canvas, Canvas, Vec<u8>, Vec<Shading>) {
    let mut land = Canvas::new(2 * cols, 4 * rows);
    for &(x, y) in land_dots {
        land.set_dot(x, y);
    }
    let mut term = Canvas::new(2 * cols, 4 * rows);
    term.set_dot(2 * cols - 1, 0);
    let twi = Canvas::new(2 * cols, 4 * rows);
    let mut oval = vec![0xFFu8; cols * rows];
    oval[0] = 0x0F;
    (land, term, twi, oval, vec![Shading::CivilTwilight; cols * rows])
}

#[test]
fn compose_is_pure() {
    let (land, term, twi, oval, sh) = layers(5, 3, &[(0, 0), (3, 5), (8, 11)]);
    let f1 = compose_layers(7, 5, "12:00", &land, &term, &twi, &oval, &sh, false);
    let f2 = compose_layers(7, 5, "12:00", &land, &term, &twi, &oval, &sh, false);
    assert_eq!(f1, f2);
    assert!(render_ansi(Some(&f1), &f2, true).is_empty());
    assert!(render_ansi(Some(&f1), &f2, false).is_empty());
}

#[test]
fn more_land_only_adds() {
    let base = [(0usize, 0usize), (3, 5), (8, 11)];
    let more = [(0usize, 0usize), (3, 5), (8, 11), (1, 0), (0, 3), (2, 4), (6, 6)];
    let (l1, term, twi, oval, sh) = layers(5, 3, &base);
    let (l2, _, _, _, _) = layers(5, 3, &more);
    let f_off = compose_layers(7, 5, "x", &l1, &term, &twi, &oval, &sh, false);
    let f_on = compose_layers(7, 5, "x", &l2, &term, &twi, &oval, &sh, false);
    assert_ne!(f_on, f_off);
    let land = |s: Style| matches!(s, Style::DayLand | Style::TwiLand | Style::NightLand);
    let mut gained = 0;
    for y in 0..5 {
        for x in 0..7 {
            let (a, b) = (f_off.get(x, y), f_on.get(x, y));
            if land(a.style) {
                assert!(land(b.style), "land lost at ({x},{y})");
                let (ma, mb) = (a.sym as u32 - 0x2800, b.sym as u32 - 0x2800);
                assert_eq!(ma & !mb, 0, "glyph lost dots at ({x},{y})");
            } else if land(b.style) {
                gained += 1;
            }
        }
    }
    assert!(gained > 0);
}
