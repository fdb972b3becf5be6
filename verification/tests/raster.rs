use daylight::raster::{braille, Canvas};

/// Braille dot bits per cell position: `[col][row]`, rows top-to-bottom.
const CELL_BITS: [[u8; 4]; 2] = [[0x01, 0x02, 0x04, 0x40], [0x08, 0x10, 0x20, 0x80]];

#[test]
fn braille_bit_layout() {
    assert_eq!(braille(0x00), '\u{2800}');
    assert_eq!(braille(0x01), '\u{2801}'); // dot 1
    assert_eq!(braille(0x02), '\u{2802}'); // dot 2
    assert_eq!(braille(0x04), '\u{2804}'); // dot 3
    assert_eq!(braille(0x08), '\u{2808}'); // dot 4
    assert_eq!(braille(0x10), '\u{2810}'); // dot 5
    assert_eq!(braille(0x20), '\u{2820}'); // dot 6
    assert_eq!(braille(0x40), '\u{2840}'); // dot 7
    assert_eq!(braille(0x80), '\u{2880}'); // dot 8
    assert_eq!(braille(0xFF), '\u{28FF}'); // all dots
}

#[test]
fn canvas_dot_and_cell_packing() {
    let mut c = Canvas::new(4, 8); // 2x2 character cells
    assert_eq!(c.cell_mask(0, 0), 0);
    assert_eq!(c.cell_char(0, 0), '\u{2800}');
    assert!(!c.dot_set(0, 0));

    // Out-of-range reads are false and out-of-range writes are ignored (no panic).
    assert!(!c.dot_set(4, 0));
    assert!(!c.dot_set(0, 8));
    c.set_dot(100, 100);
    assert_eq!(c.cell_mask(0, 0), 0);

    // Each dot of a 2x4 cell maps to the documented bit.
    for (col, bits_col) in CELL_BITS.iter().enumerate() {
        for (row, bit) in bits_col.iter().enumerate() {
            let mut c = Canvas::new(2, 4);
            c.set_dot(col, row);
            assert_eq!(c.cell_mask(0, 0), *bit, "dot (col {col}, row {row})");
        }
    }

    // A full 2x4 cell packs to 0xFF; the neighbouring cell stays empty.
    for dx in 0..2 {
        for dy in 0..4 {
            c.set_dot(dx, dy);
        }
    }
    assert_eq!(c.cell_mask(0, 0), 0xFF);
    assert_eq!(c.cell_char(0, 0), '\u{28FF}');
    assert_eq!(c.cell_mask(1, 1), 0);

    // Bottom-right dot of the bottom-right cell is dot 8 (0x80).
    c.set_dot(3, 7);
    assert_eq!(c.cell_mask(1, 1), 0x80);
    assert!(c.dot_set(3, 7));

    // clear() resets every dot.
    c.clear();
    assert_eq!(c.cell_mask(0, 0), 0);
    assert_eq!(c.cell_mask(1, 1), 0);
    assert!(!c.dot_set(3, 7));
    assert!(!c.dot_set(0, 0));
}

#[test]
fn degenerate_canvas_sizes_read_and_write_safely() {
    let mut c0 = Canvas::new(0, 0);
    c0.set_dot(0, 0);
    assert!(!c0.dot_set(0, 0));
    assert_eq!(c0.cell_mask(0, 0), 0);

    let mut c1 = Canvas::new(1, 1);
    c1.set_dot(0, 0);
    assert!(c1.dot_set(0, 0));
    assert!(!c1.dot_set(1, 1));
    // A partial cell (1 of 2 columns, 1 of 4 rows) packs the dots it has.
    assert_eq!(c1.cell_mask(0, 0), 0x01);
    assert_eq!(c1.cell_char(0, 0), '\u{2801}');
    // Cells past the canvas read empty.
    assert_eq!(c1.cell_mask(3, 3), 0);
}

#[test]
fn canvas_dots_in_distinct_cells_do_not_interfere() {
    let mut c = Canvas::new(6, 12);
    c.set_dot(1, 2); // cell (0,0), right column, row 2 -> 0x20
    c.set_dot(2, 5); // cell (1,1), left column, row 1 -> 0x02
    c.set_dot(5, 11); // cell (2,2), right column, row 3 -> 0x80
    assert_eq!(c.cell_mask(0, 0), 0x20);
    assert_eq!(c.cell_mask(1, 1), 0x02);
    assert_eq!(c.cell_mask(2, 2), 0x80);
    assert_eq!(c.cell_mask(1, 0), 0);
    assert_eq!(c.cell_char(2, 2), '\u{2880}');
    // Setting a dot twice is the same as once.
    c.set_dot(1, 2);
    assert_eq!(c.cell_mask(0, 0), 0x20);
}

#[test]
fn canvas_size_getters() {
    let c = Canvas::new(6, 12);
    assert_eq!((c.dots_w(), c.dots_h()), (6, 12));
}

#[test]
fn canvas_history_is_set_dots_since_last_clear() {
    let mut c = Canvas::new(4, 4);
    c.set_dot(1, 1);
    c.set_dot(2, 3);
    c.set_dot(9, 0); // out of range: ignored
    c.clear();
    c.set_dot(0, 0);
    c.set_dot(3, 2);
    c.set_dot(0, 0);
    for y in 0..6 {
        for x in 0..6 {
            let want = (x, y) == (0, 0) || (x, y) == (3, 2);
            assert_eq!(c.dot_set(x, y), want, "dot ({x},{y})");
        }
    }
}
