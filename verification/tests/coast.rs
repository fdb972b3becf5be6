use daylight::coast::{base85_decode, decode, read_varint, try_decode, zigzag_decode, Ring};

// ---------------------------------------------------------------------
// Test-side encoder (the inverse of `decode`).
// ---------------------------------------------------------------------

const ENC_ALPHABET: &[u8; 85] =
    b"0123456789abcdefghijklmnopqrstuvwxyzABCDEFGHIJKLMNOPQRSTUVWXYZ.-:+=^!/*?&<>()[]{}@%$#";

fn enc_varint(out: &mut Vec<u8>, mut v: u64) {
    loop {
        let b = (v & 0x7f) as u8;
        v >>= 7;
        if v == 0 {
            out.push(b);
            return;
        }
        out.push(b | 0x80);
    }
}

fn enc_zigzag(out: &mut Vec<u8>, d: i64) {
    enc_varint(out, ((d << 1) ^ (d >> 63)) as u64);
}

fn enc_base85(bytes: &[u8]) -> String {
    let mut out = String::with_capacity(bytes.len().div_ceil(4) * 5);
    for chunk in bytes.chunks(4) {
        let mut value: u32 = 0;
        for &b in chunk {
            value = (value << 8) | b as u32; // big-endian
        }
        value <<= 8 * (4 - chunk.len() as u32); // left-align a partial tail group
        let mut digits = [0u8; 5];
        let mut v = value;
        for d in digits.iter_mut().rev() {
            *d = ENC_ALPHABET[(v % 85) as usize];
            v /= 85;
        }
        let n = chunk.len();
        out.push_str(std::str::from_utf8(&digits[..n + 1]).unwrap());
    }
    out
}

/// Encode rings of (lat_deg, lon_deg) vertices the way the map data is made.
fn encode_rings(rings: &[Vec<(f64, f64)>]) -> String {
    let mut out = Vec::new();
    enc_varint(&mut out, rings.len() as u64);
    for ring in rings {
        enc_varint(&mut out, ring.len() as u64);
        let (mut lat_c, mut lon_c): (i64, i64) = (0, 0);
        for &(lat, lon) in ring {
            let l = (lat * 100.0).round() as i64;
            let o = (lon * 100.0).round() as i64;
            enc_zigzag(&mut out, l - lat_c);
            enc_zigzag(&mut out, o - lon_c);
            lat_c = l;
            lon_c = o;
        }
    }
    enc_base85(&out)
}

/// Quantize to the format's 0.01° grid, as the encoder does.
fn q(deg: f64) -> f64 {
    (deg * 100.0).round() / 100.0
}

/// A decoded vertex in degrees.
fn deg(v: (i64, i64)) -> (f64, f64) {
    (v.0 as f64 / 100.0, v.1 as f64 / 100.0)
}

// ---------------------------------------------------------------------
// Hand-constructed literals (independent of the helper above).
// ---------------------------------------------------------------------

#[test]
fn hand_constructed_literals_decode() {
    // ring_count = 0: bytes [0x00] -> one padded group -> "00".
    assert_eq!(decode("00"), Vec::<Ring>::new());

    // ring_count = 1, vertex_count = 1, both deltas 0: bytes [01,01,00,00] =
    // exactly one full group, value 0x01010000 -> digits (0,27,36,15,2) = "0rAf2".
    assert_eq!(decode("0rAf2"), vec![vec![(0i64, 0i64)]]);
}

#[test]
fn encoder_round_trips() {
    let rings: Vec<Vec<(f64, f64)>> = vec![
        // Small ring with fractional values and both signs.
        vec![(0.0, 0.0), (10.25, -5.5), (20.0, 30.125), (0.0, 0.0)],
        // Closed ring with negative coords and a repeat vertex.
        vec![
            (-33.87, 151.21),
            (-35.0, 150.0),
            (-32.0, 149.5),
            (-33.87, 151.21),
        ],
        // Coordinate extremes exercise the widest deltas (multi-byte varints).
        vec![(-90.0, -180.0), (90.0, 180.0)],
        // A single-vertex ring is representable.
        vec![(41.9, 12.5)],
    ];
    let got = decode(&encode_rings(&rings));
    assert_eq!(got.len(), rings.len());
    for (g, want) in got.iter().zip(&rings) {
        assert_eq!(g.len(), want.len());
        for (v, w) in g.iter().zip(want) {
            let v = deg(*v);
            assert!((v.0 - q(w.0)).abs() < 1e-9, "lat {v:?} vs {}", q(w.0));
            assert!((v.1 - q(w.1)).abs() < 1e-9, "lon {v:?} vs {}", q(w.1));
        }
    }
}

#[test]
fn base85_round_trips_various_lengths() {
    // Covers full groups and every partial-group tail size (1..3 bytes).
    for len in 0..=13usize {
        let bytes: Vec<u8> = (0..len)
            .map(|i| (i as u8).wrapping_mul(37).wrapping_add(101))
            .collect();
        let text = enc_base85(&bytes);
        assert_eq!(base85_decode(&text), bytes, "len {len}");
    }
}

// ---------------------------------------------------------------------
// Malformed input is refused, never decoded into something else.
// ---------------------------------------------------------------------

#[test]
fn malformed_text_is_refused() {
    // A dangling single trailing digit encodes no bytes.
    assert_eq!(try_decode("0"), None);
    assert_eq!(try_decode("0rAf2a"), None);
    // A character outside the alphabet.
    assert_eq!(try_decode("0\"Af2"), None);
    assert_eq!(try_decode("0 "), None);
    // A full group above 2^32 - 1 ("#####" is 85^5 - 1).
    assert_eq!(try_decode("#####"), None);
    // Trailing bytes after the last ring: [00, 00] -> ring_count 0, then one byte left.
    assert_eq!(try_decode(&enc_base85(&[0, 0])), None);
    // A ring count with no rings behind it.
    assert_eq!(try_decode(&enc_base85(&[1])), None);
    // An empty text has no ring count at all.
    assert_eq!(try_decode(""), None);
    // Well-formed text decodes.
    assert_eq!(try_decode("00"), Some(Vec::new()));
}

#[test]
fn decoded_rings_keep_order_and_closure() {
    let rings = vec![
        vec![(1.0, 2.0), (3.0, 4.0), (1.0, 2.0)],
        vec![(-5.5, 170.25)],
    ];
    let got = decode(&encode_rings(&rings));
    assert_eq!(
        got,
        vec![vec![(100, 200), (300, 400), (100, 200)], vec![(-550, 17025)]]
    );
}

#[test]
fn zigzag_decode_values() {
    assert_eq!(zigzag_decode(0), 0);
    assert_eq!(zigzag_decode(1), -1);
    assert_eq!(zigzag_decode(2), 1);
    assert_eq!(zigzag_decode(3), -2);
    assert_eq!(zigzag_decode(36000), 18000);
    assert_eq!(zigzag_decode(35999), -18000);
    assert_eq!(zigzag_decode(u64::MAX), i64::MIN);
    assert_eq!(zigzag_decode(u64::MAX - 1), i64::MAX);
}

#[test]
fn read_varint_values_and_positions() {
    let mut bytes = Vec::new();
    enc_varint(&mut bytes, 0);
    enc_varint(&mut bytes, 127);
    enc_varint(&mut bytes, 128);
    enc_varint(&mut bytes, 300);
    enc_varint(&mut bytes, u64::MAX);
    let mut pos = 0usize;
    assert_eq!(read_varint(&bytes, &mut pos), Some(0));
    assert_eq!(pos, 1);
    assert_eq!(read_varint(&bytes, &mut pos), Some(127));
    assert_eq!(pos, 2);
    assert_eq!(read_varint(&bytes, &mut pos), Some(128));
    assert_eq!(pos, 4);
    assert_eq!(read_varint(&bytes, &mut pos), Some(300));
    assert_eq!(pos, 6);
    assert_eq!(read_varint(&bytes, &mut pos), Some(u64::MAX));
    assert_eq!(pos, 16);
    // The stream is exhausted.
    assert_eq!(read_varint(&bytes, &mut pos), None);

    // Truncated: a continuation bit with nothing after it.
    let mut pos = 0usize;
    assert_eq!(read_varint(&[0x80], &mut pos), None);
    // A tenth byte carrying more than one payload bit overflows 64 bits.
    let over = [0xff, 0xff, 0xff, 0xff, 0xff, 0xff, 0xff, 0xff, 0xff, 0x02];
    let mut pos = 0usize;
    assert_eq!(read_varint(&over, &mut pos), None);
}
