//! Land polygon decoder for the embedded Natural Earth 110m coastline data.
//!
//! # Wire format
//!
//! The land data is a single base85 string. Decoding layers, outside-in:
//!
//! **1. base85 → bytes.** The byte stream is taken in 4-byte groups. Each group is
//! read as a big-endian `u32` and emitted as 5 base-85 digits, most significant
//! digit first, using the Z85 alphabet
//! `0123456789abcdefghijklmnopqrstuvwxyzABCDEFGHIJKLMNOPQRSTUVWXYZ.-:+=^!/*?&<>()[]{}@%$#`.
//! A trailing partial group of `n` bytes (1..=3) is zero-padded on the right to a
//! full 4 bytes and only its first `n + 1` digits are emitted. Decoding is the exact
//! inverse: every complete group of 5 characters yields 4 bytes; a final short group
//! of `k` characters is completed to 5 digits with the *maximum* digit (84) and keeps
//! its top `k - 1` bytes. A dangling single trailing character is malformed.
//!
//! **2. varints.** Unsigned integers use LEB128-style varints: 7 payload bits per
//! byte, least-significant 7-bit group first, high bit set = "more bytes follow".
//!
//! **3. coordinates.** Angles are quantized to *centidegrees* (`i64`). Per ring, each
//! coordinate is delta-coded against the previous vertex of the same ring (the first
//! vertex is relative to 0), and every signed delta is zigzag-mapped to unsigned
//! with `(n << 1) ^ (n >> 63)` before varint encoding.
//!
//! **Stream layout (before base85):**
//!
//! ```text
//! varint ring_count
//! per ring, ring_count times:
//!     varint vertex_count
//!     per vertex, vertex_count times:
//!         varint zigzag(d_lat_centideg)   // latitude delta first
//!         varint zigzag(d_lon_centideg)   // then longitude
//! ```
//!
//! Decoding reverses all of this and yields the rings in source order as
//! `(lat, lon)` centidegree pairs.
use vstd::prelude::*;
use vstd::string::StringSliceAdditionalSpecFns;

verus! {

// ---------------------------------------------------------------- alphabet

/// The Z85 character of base-85 digit `d` (0..85).
pub open spec fn z85_char(d: int) -> u8 {
    if d < 10 {
        (0x30 + d) as u8
    } else if d < 36 {
        (0x61 + (d - 10)) as u8
    } else if d < 62 {
        (0x41 + (d - 36)) as u8
    } else if d == 62 { 0x2e }       // .
    else if d == 63 { 0x2d }        // -
    else if d == 64 { 0x3a }        // :
    else if d == 65 { 0x2b }        // +
    else if d == 66 { 0x3d }        // =
    else if d == 67 { 0x5e }        // ^
    else if d == 68 { 0x21 }        // !
    else if d == 69 { 0x2f }        // /
    else if d == 70 { 0x2a }        // *
    else if d == 71 { 0x3f }        // ?
    else if d == 72 { 0x26 }        // &
    else if d == 73 { 0x3c }        // <
    else if d == 74 { 0x3e }        // >
    else if d == 75 { 0x28 }        // (
    else if d == 76 { 0x29 }        // )
    else if d == 77 { 0x5b }        // [
    else if d == 78 { 0x5d }        // ]
    else if d == 79 { 0x7b }        // {
    else if d == 80 { 0x7d }        // }
    else if d == 81 { 0x40 }        // @
    else if d == 82 { 0x25 }        // %
    else if d == 83 { 0x24 }        // $
    else { 0x23 }                   // #
}

/// The base-85 digit that character `c` stands for, if it is in the alphabet.
pub open spec fn digit_of(c: u8) -> Option<u8> {
    if exists|d: int| 0 <= d < 85 && #[trigger] z85_char(d) == c {
        Some((choose|d: int| 0 <= d < 85 && #[trigger] z85_char(d) == c) as u8)
    } else {
        None
    }
}

/// Digit lookup for one character of the alphabet.
fn digit_value(c: u8) -> (r: Option<u8>)
    ensures
        r == digit_of(c),
{
    let r: Option<u8> = if 0x30 <= c && c <= 0x39 {
        Some(c - 0x30)
    } else if 0x61 <= c && c <= 0x7a {
        Some(c - 0x61 + 10)
    } else if 0x41 <= c && c <= 0x5a {
        Some(c - 0x41 + 36)
    } else {
        match c {
            0x2e => Some(62u8),
            0x2d => Some(63u8),
            0x3a => Some(64u8),
            0x2b => Some(65u8),
            0x3d => Some(66u8),
            0x5e => Some(67u8),
            0x21 => Some(68u8),
            0x2f => Some(69u8),
            0x2a => Some(70u8),
            0x3f => Some(71u8),
            0x26 => Some(72u8),
            0x3c => Some(73u8),
            0x3e => Some(74u8),
            0x28 => Some(75u8),
            0x29 => Some(76u8),
            0x5b => Some(77u8),
            0x5d => Some(78u8),
            0x7b => Some(79u8),
            0x7d => Some(80u8),
            0x40 => Some(81u8),
            0x25 => Some(82u8),
            0x24 => Some(83u8),
            0x23 => Some(84u8),
            _ => None,
        }
    };
    proof {
        lemma_z85_char_injective();
        match r {
            Some(d) => {
                assert(z85_char(d as int) == c);
            },
            None => {
                assert forall|d: int| 0 <= d < 85 implies #[trigger] z85_char(d) != c by {}
            },
        }
    }
    r
}

/// Every digit's alphabet character reads back as that digit.
pub proof fn lemma_digit_of_char(d: int)
    requires
        0 <= d < 85,
    ensures
        digit_of(z85_char(d)) == Some(d as u8),
{
    lemma_z85_char_injective();
    assert(z85_char(d) == z85_char(d));
}

proof fn lemma_z85_char_injective()
    ensures
        forall|a: int, b: int|
            0 <= a < 85 && 0 <= b < 85 && #[trigger] z85_char(a) == #[trigger] z85_char(b) ==> a == b,
{
}

// ---------------------------------------------------------------- base85

/// Digit `j` (0..5) of the group of `k` characters starting at `i`; the
/// missing low digits of a short group count as the maximum digit 84.
pub open spec fn padded_digit(s: Seq<u8>, i: int, k: int, j: int) -> int {
    if j < k {
        digit_of(s[i + j]).unwrap() as int
    } else {
        84
    }
}

/// Value of the first `j` padded digits of a group, most significant first.
pub open spec fn group_prefix_value(s: Seq<u8>, i: int, k: int, j: int) -> int
    decreases j,
{
    if j <= 0 {
        0
    } else {
        group_prefix_value(s, i, k, j - 1) * 85 + padded_digit(s, i, k, j - 1)
    }
}

/// The 32-bit value of the group of `k` characters at `i`, completed with 84s.
pub open spec fn group_value(s: Seq<u8>, i: int, k: int) -> int {
    group_prefix_value(s, i, k, 5)
}

/// Every character of the group is in the alphabet and its value fits 32 bits.
pub open spec fn group_ok(s: Seq<u8>, i: int, k: int) -> bool {
    &&& forall|j: int| 0 <= j < k ==> #[trigger] digit_of(s[i + j]) is Some
    &&& group_value(s, i, k) <= 0xffff_ffff
}

/// Byte `j` (0 = most significant) of the big-endian 32-bit value `v`.
pub open spec fn be_byte(v: int, j: int) -> u8 {
    if j == 0 {
        ((v / 0x100_0000) % 0x100) as u8
    } else if j == 1 {
        ((v / 0x1_0000) % 0x100) as u8
    } else if j == 2 {
        ((v / 0x100) % 0x100) as u8
    } else {
        (v % 0x100) as u8
    }
}

/// The bytes a group of `k` characters decodes to: the top `k - 1` bytes of its value.
pub open spec fn group_bytes(s: Seq<u8>, i: int, k: int) -> Seq<u8> {
    Seq::new((k - 1) as nat, |j: int| be_byte(group_value(s, i, k), j))
}

/// Decoding of the base85 text `s` from character `i` on; `None` when malformed
/// (a dangling single character, a character outside the alphabet, or a group
/// whose value overflows 32 bits).
pub open spec fn base85_from(s: Seq<u8>, i: int) -> Option<Seq<u8>>
    decreases s.len() - i,
{
    if i < 0 || i >= s.len() {
        Some(Seq::empty())
    } else {
        let k = if s.len() - i < 5 { s.len() - i } else { 5 };
        if k == 1 || !group_ok(s, i, k) {
            None
        } else {
            match base85_from(s, i + k) {
                Some(rest) => Some(group_bytes(s, i, k) + rest),
                None => None,
            }
        }
    }
}

/// Decoding of the whole base85 text `s`.
pub open spec fn spec_base85_decode(s: Seq<u8>) -> Option<Seq<u8>> {
    base85_from(s, 0)
}

/// The value of the group of `k` characters at `i`, or `None` when the group is
/// not well formed.
fn decode_group(chars: &[u8], i: usize, k: usize) -> (r: Option<u32>)
    requires
        i + k <= chars@.len(),
        2 <= k <= 5,
    ensures
        r matches Some(v) ==> group_ok(chars@, i as int, k as int) && v == group_value(
            chars@,
            i as int,
            k as int,
        ),
        r is None ==> !group_ok(chars@, i as int, k as int),
{
    proof { lemma_pow85_values(); }
    let mut value: u64 = 0;
    let mut j: usize = 0;
    while j < 5
        invariant
            i + k <= chars.len(),
            2 <= k <= 5,
            j <= 5,
            value == group_prefix_value(chars@, i as int, k as int, j as int),
            value < pow85(j as int),
            pow85(0) == 1 && pow85(1) == 85 && pow85(2) == 7225 && pow85(3) == 614125
                && pow85(4) == 52200625 && pow85(5) == 4437053125,
            forall|t: int| 0 <= t < j && t < k ==> #[trigger] digit_of(chars@[i + t]) is Some,
        decreases 5 - j,
    {
        let d: u8 = if j < k {
            match digit_value(chars[i + j]) {
                Some(d) => d,
                None => {
                    return None;
                },
            }
        } else {
            84
        };
        proof {
            if j < k {
                lemma_digit_bound(chars@[i + j as int]);
            }
        }
        value = value * 85 + d as u64;
        j = j + 1;
    }
    if value > 0xffff_ffff {
        return None;
    }
    Some(value as u32)
}

/// base85 → bytes over raw characters; `None` exactly when the text is malformed.
fn base85_bytes(chars: &[u8]) -> (r: Option<Vec<u8>>)
    ensures
        r matches Some(v) ==> spec_base85_decode(chars@) == Some(v@),
        r is None ==> spec_base85_decode(chars@) is None,
{
    let n = chars.len();
    if n % 5 == 1 {
        proof { lemma_dangling_digit(chars@, 0); }
        return None;
    }
    let mut out: Vec<u8> = Vec::new();
    let mut i: usize = 0;
    while i < n
        invariant
            n == chars@.len(),
            i <= n,
            n % 5 != 1,
            i % 5 == 0 || i == n,
            spec_base85_decode(chars@) == match base85_from(chars@, i as int) {
                Some(rest) => Some(out@ + rest),
                None => None::<Seq<u8>>,
            },
        decreases n - i,
    {
        let k: usize = if n - i < 5 { n - i } else { 5 };
        let value = match decode_group(chars, i, k) {
            Some(v) => v,
            None => {
                return None;
            },
        };
        let b0 = ((value / 0x100_0000) % 0x100) as u8;
        let b1 = ((value / 0x1_0000) % 0x100) as u8;
        let b2 = ((value / 0x100) % 0x100) as u8;
        let b3 = (value % 0x100) as u8;
        let ghost before = out@;
        out.push(b0);
        if k > 2 {
            out.push(b1);
        }
        if k > 3 {
            out.push(b2);
        }
        if k > 4 {
            out.push(b3);
        }
        proof {
            let gb = group_bytes(chars@, i as int, k as int);
            assert(out@ == before + gb);
            let rest = base85_from(chars@, i + k);
            assert(base85_from(chars@, i as int) == match rest {
                Some(r) => Some(gb + r),
                None => None::<Seq<u8>>,
            });
            if let Some(r) = rest {
                assert(before + (gb + r) == out@ + r);
            }
        }
        i = i + k;
    }
    Some(out)
}

/// 85 to the power `j`, for the small exponents a group uses.
pub open spec fn pow85(j: int) -> int
    decreases j,
{
    if j <= 0 {
        1
    } else {
        85 * pow85(j - 1)
    }
}

proof fn lemma_pow85_values()
    ensures
        pow85(0) == 1,
        pow85(1) == 85,
        pow85(2) == 7225,
        pow85(3) == 614125,
        pow85(4) == 52200625,
        pow85(5) == 4437053125,
{
    reveal_with_fuel(pow85, 6);
}

proof fn lemma_digit_bound(c: u8)
    ensures
        digit_of(c) matches Some(d) ==> d < 85,
{
}

proof fn lemma_dangling_digit(s: Seq<u8>, i: int)
    requires
        s.len() % 5 == 1,
        0 <= i <= s.len(),
        i % 5 == 0,
    ensures
        base85_from(s, i) is None,
    decreases s.len() - i,
{
    if i < s.len() {
        let k = if s.len() - i < 5 { s.len() - i } else { 5 };
        if k != 1 {
            lemma_dangling_digit(s, i + 5);
        }
    }
}

// ---------------------------------------------------------------- varints

/// 128 to the power `i`.
pub open spec fn pow128(i: int) -> int
    decreases i,
{
    if i <= 0 {
        1
    } else {
        128 * pow128(i - 1)
    }
}

/// The varint whose byte `i` (0-based) sits at `pos + i`, read from that byte
/// on: its value counted from byte `i` and the position after its last byte.
/// `None` when the stream ends first, when a tenth byte carries more than one
/// payload bit, or when a tenth byte still has the continuation bit set.
pub open spec fn varint_tail(b: Seq<u8>, pos: int, i: int) -> Option<(nat, int)>
    decreases 10 - i,
{
    if i < 0 || i >= 10 || pos < 0 || pos + i >= b.len() {
        None
    } else {
        let byte = b[pos + i];
        if i == 9 && byte % 128 > 1 {
            None
        } else if byte < 128 {
            Some(((byte % 128) as nat, pos + i + 1))
        } else if i == 9 {
            None
        } else {
            match varint_tail(b, pos, i + 1) {
                Some((r, p)) => Some(((byte % 128 + 128 * r) as nat, p)),
                None => None,
            }
        }
    }
}

/// The varint starting at `pos`: its value and the position after it.
pub open spec fn spec_read_varint(b: Seq<u8>, pos: int) -> Option<(nat, int)> {
    varint_tail(b, pos, 0)
}

proof fn lemma_pow128_values()
    ensures
        pow128(0) == 1,
        pow128(1) == 0x80,
        pow128(2) == 0x4000,
        pow128(3) == 0x20_0000,
        pow128(4) == 0x1000_0000,
        pow128(5) == 0x8_0000_0000,
        pow128(6) == 0x400_0000_0000,
        pow128(7) == 0x2_0000_0000_0000,
        pow128(8) == 0x100_0000_0000_0000,
        pow128(9) == 0x8000_0000_0000_0000,
{
    reveal_with_fuel(pow128, 10);
}

proof fn lemma_varint_step(value: int, mult: int, x: int, r: int)
    ensures
        value + mult * (x + 128 * r) == (value + mult * x) + (mult * 128) * r,
{
    assert(mult * (x + 128 * r) == mult * x + (mult * 128) * r) by (nonlinear_arith);
}

/// Read one varint starting at `*pos`, advancing `*pos` past it; `None` when the
/// stream is truncated or the varint does not fit 64 bits.
pub fn read_varint(bytes: &[u8], pos: &mut usize) -> (r: Option<u64>)
    ensures
        match spec_read_varint(bytes@, *old(pos) as int) {
            Some((v, p)) => r == Some(v as u64) && *final(pos) == p && v <= u64::MAX,
            None => r is None,
        },
{
    proof { lemma_pow128_values(); }
    let ghost start = *pos as int;
    let mut value: u64 = 0;
    let mut mult: u64 = 1;
    let mut i: usize = 0;
    while i < 10
        invariant
            *pos == start + i,
            0 <= start,
            start == *old(pos) as int,
            i <= 10,
            0 <= value < mult,
            mult == pow128(i as int),
            pow128(0) == 1 && pow128(1) == 0x80 && pow128(2) == 0x4000 && pow128(3) == 0x20_0000
                && pow128(4) == 0x1000_0000 && pow128(5) == 0x8_0000_0000 && pow128(6)
                == 0x400_0000_0000 && pow128(7) == 0x2_0000_0000_0000 && pow128(8)
                == 0x100_0000_0000_0000 && pow128(9) == 0x8000_0000_0000_0000,
            i == 10 ==> varint_tail(bytes@, start, i as int) is None,
            spec_read_varint(bytes@, start) == match varint_tail(bytes@, start, i as int) {
                Some((t, p)) => Some(((value + mult * t) as nat, p)),
                None => None::<(nat, int)>,
            },
        decreases 10 - i,
    {
        if *pos >= bytes.len() {
            return None;
        }
        let b = bytes[*pos];
        *pos = *pos + 1;
        let payload: u64 = (b % 128) as u64;
        if i == 9 && payload > 1 {
            return None;
        }
        proof {
            assert(payload * mult <= 127 * mult) by (nonlinear_arith)
                requires payload <= 127, mult >= 0;
            if i == 9 {
                assert(payload * mult <= mult) by (nonlinear_arith)
                    requires payload <= 1, mult >= 0;
            }
        }
        let next = value + payload * mult;
        if b < 128 {
            return Some(next);
        }
        if i == 9 {
            return None;
        }
        proof {
            match varint_tail(bytes@, start, i + 1) {
                Some((t, p)) => {
                    lemma_varint_step(value as int, mult as int, payload as int, t as int);
                },
                None => {},
            }
        }
        value = next;
        mult = mult * 128;
        i = i + 1;
    }
    None
}

// ---------------------------------------------------------------- zigzag

/// The signed value a zigzag-mapped unsigned integer stands for.
pub open spec fn spec_zigzag_decode(v: u64) -> int {
    if v % 2 == 0 {
        (v / 2) as int
    } else {
        -((v / 2) as int) - 1
    }
}

/// Inverse of the encoder's `(n << 1) ^ (n >> 63)` zigzag map.
pub fn zigzag_decode(v: u64) -> (r: i64)
    ensures
        r as int == spec_zigzag_decode(v),
{
    let h: i64 = (v >> 1) as i64;
    let low: i64 = (v & 1) as i64;
    assert(h == v / 2 && (low == 0 <==> v % 2 == 0) && (low == 1 <==> v % 2 == 1)) by (bit_vector)
        requires
            h == (v >> 1) as i64,
            low == (v & 1) as i64,
    ;
    let neg: i64 = -low;
    let r = h ^ neg;
    assert(h ^ 0i64 == h) by (bit_vector);
    assert(0 <= h ==> (h ^ (-1i64)) as int == -(h as int) - 1) by (bit_vector);
    r
}

// ---------------------------------------------------------------- rings

/// One closed ring of (lat, lon) vertices, in centidegrees.
pub type Ring = Vec<(i64, i64)>;

/// Whether `x` fits an `i64`.
pub open spec fn fits_i64(x: int) -> bool {
    i64::MIN <= x <= i64::MAX
}

/// The `count` delta-coded vertices starting at `pos`, each relative to the
/// previous one (the first relative to `(lat, lon)`): the absolute vertices and
/// the position after them. `None` when a varint is malformed or a running
/// coordinate leaves the `i64` range.
pub open spec fn vertices_from(b: Seq<u8>, pos: int, count: nat, lat: int, lon: int) -> Option<
    (Seq<(i64, i64)>, int),
>
    decreases count,
{
    if count == 0 {
        Some((Seq::empty(), pos))
    } else {
        match spec_read_varint(b, pos) {
            None => None,
            Some((dlat, p1)) => {
                let nlat = lat + spec_zigzag_decode(dlat as u64);
                if !fits_i64(nlat) {
                    None
                } else {
                    match spec_read_varint(b, p1) {
                        None => None,
                        Some((dlon, p2)) => {
                            let nlon = lon + spec_zigzag_decode(dlon as u64);
                            if !fits_i64(nlon) {
                                None
                            } else {
                                match vertices_from(b, p2, (count - 1) as nat, nlat, nlon) {
                                    None => None,
                                    Some((rest, p)) => Some(
                                        (seq![(nlat as i64, nlon as i64)] + rest, p),
                                    ),
                                }
                            }
                        }
                    }
                }
            },
        }
    }
}

/// The `count` rings starting at `pos` (each a vertex-count varint followed by
/// its vertices) and the position after them.
pub open spec fn rings_from(b: Seq<u8>, pos: int, count: nat) -> Option<
    (Seq<Seq<(i64, i64)>>, int),
>
    decreases count,
{
    if count == 0 {
        Some((Seq::empty(), pos))
    } else {
        match spec_read_varint(b, pos) {
            None => None,
            Some((vc, p1)) => match vertices_from(b, p1, vc, 0, 0) {
                None => None,
                Some((ring, p2)) => match rings_from(b, p2, (count - 1) as nat) {
                    None => None,
                    Some((rest, p)) => Some((seq![ring] + rest, p)),
                },
            },
        }
    }
}

/// The rings a decoded byte stream holds; `None` when the stream is malformed
/// or has trailing bytes.
pub open spec fn spec_decode_stream(b: Seq<u8>) -> Option<Seq<Seq<(i64, i64)>>> {
    match spec_read_varint(b, 0) {
        None => None,
        Some((rc, p)) => match rings_from(b, p, rc) {
            None => None,
            Some((rings, q)) => if q == b.len() {
                Some(rings)
            } else {
                None
            },
        },
    }
}

/// The rings the base85 text `s` encodes, if it is well formed.
pub open spec fn spec_decode(s: Seq<u8>) -> Option<Seq<Seq<(i64, i64)>>> {
    match spec_base85_decode(s) {
        None => None,
        Some(b) => spec_decode_stream(b),
    }
}

/// The abstract value of decoded rings.
pub open spec fn rings_view(rings: Seq<Ring>) -> Seq<Seq<(i64, i64)>> {
    rings.map_values(|r: Ring| r@)
}

fn decode_ring(bytes: &[u8], pos: &mut usize, count: u64) -> (r: Option<Ring>)
    ensures
        match vertices_from(bytes@, *old(pos) as int, count as nat, 0, 0) {
            Some((ring, p)) => r matches Some(v) && v@ == ring && *final(pos) == p,
            None => r is None,
        },
{
    let ghost p0 = *pos as int;
    let mut ring: Ring = Vec::new();
    let mut left: u64 = count;
    let mut lat_c: i64 = 0;
    let mut lon_c: i64 = 0;
    while left > 0
        invariant
            p0 == *old(pos) as int,
            vertices_from(bytes@, p0, count as nat, 0, 0) == match vertices_from(
                bytes@,
                *pos as int,
                left as nat,
                lat_c as int,
                lon_c as int,
            ) {
                Some((rest, p)) => Some((ring@ + rest, p)),
                None => None::<(Seq<(i64, i64)>, int)>,
            },
        decreases left,
    {
        let ghost before = ring@;
        let dlat = match read_varint(bytes, pos) {
            Some(d) => d,
            None => {
                return None;
            },
        };
        let zlat = zigzag_decode(dlat);
        if (zlat > 0 && lat_c > i64::MAX - zlat) || (zlat < 0 && lat_c < i64::MIN - zlat) {
            return None;
        }
        lat_c = lat_c + zlat;
        let dlon = match read_varint(bytes, pos) {
            Some(d) => d,
            None => {
                return None;
            },
        };
        let zlon = zigzag_decode(dlon);
        if (zlon > 0 && lon_c > i64::MAX - zlon) || (zlon < 0 && lon_c < i64::MIN - zlon) {
            return None;
        }
        lon_c = lon_c + zlon;
        ring.push((lat_c, lon_c));
        left = left - 1;
        proof {
            match vertices_from(bytes@, *pos as int, left as nat, lat_c as int, lon_c as int) {
                Some((rest, p)) => {
                    assert(before + (seq![(lat_c, lon_c)] + rest) == ring@ + rest);
                },
                None => {},
            }
        }
    }
    Some(ring)
}

fn decode_stream(bytes: &[u8]) -> (r: Option<Vec<Ring>>)
    ensures
        match spec_decode_stream(bytes@) {
            Some(rings) => r matches Some(v) && rings_view(v@) == rings,
            None => r is None,
        },
{
    let mut pos: usize = 0;
    let ring_count = match read_varint(bytes, &mut pos) {
        Some(c) => c,
        None => {
            return None;
        },
    };
    let ghost p0 = pos as int;
    let mut rings: Vec<Ring> = Vec::new();
    let mut left: u64 = ring_count;
    while left > 0
        invariant
            spec_read_varint(bytes@, 0) == Some((ring_count as nat, p0)),
            rings_from(bytes@, p0, ring_count as nat) == match rings_from(
                bytes@,
                pos as int,
                left as nat,
            ) {
                Some((rest, p)) => Some((rings_view(rings@) + rest, p)),
                None => None::<(Seq<Seq<(i64, i64)>>, int)>,
            },
        decreases left,
    {
        let ghost before = rings_view(rings@);
        let vertex_count = match read_varint(bytes, &mut pos) {
            Some(c) => c,
            None => {
                return None;
            },
        };
        let ring = match decode_ring(bytes, &mut pos, vertex_count) {
            Some(r) => r,
            None => {
                return None;
            },
        };
        let ghost ring_v = ring@;
        rings.push(ring);
        left = left - 1;
        proof {
            assert(rings_view(rings@) == before.push(ring_v));
            match rings_from(bytes@, pos as int, left as nat) {
                Some((rest, p)) => {
                    assert(before + (seq![ring_v] + rest) == rings_view(rings@) + rest);
                },
                None => {},
            }
        }
    }
    if pos != bytes.len() {
        return None;
    }
    proof {
        assert(rings_view(rings@) + Seq::empty() == rings_view(rings@));
    }
    Some(rings)
}

/// base85 → bytes, as documented in the module docs.
pub fn base85_decode(data: &str) -> (r: Vec<u8>)
    requires
        spec_base85_decode(data.spec_bytes()) is Some,
    ensures
        r@ == spec_base85_decode(data.spec_bytes()).unwrap(),
{
    match base85_bytes(data.as_bytes()) {
        Some(v) => v,
        None => Vec::new(),
    }
}

/// Decode a base85/varint/zigzag stream (see module docs) into land rings;
/// `None` exactly when the text is malformed.
pub fn try_decode(data: &str) -> (r: Option<Vec<Ring>>)
    ensures
        match spec_decode(data.spec_bytes()) {
            Some(rings) => r matches Some(v) && rings_view(v@) == rings,
            None => r is None,
        },
{
    match base85_bytes(data.as_bytes()) {
        Some(bytes) => decode_stream(bytes.as_slice()),
        None => None,
    }
}

/// Decode a well-formed base85/varint/zigzag stream (see module docs) into land rings.
pub fn decode(data: &str) -> (r: Vec<Ring>)
    requires
        spec_decode(data.spec_bytes()) is Some,
    ensures
        rings_view(r@) == spec_decode(data.spec_bytes()).unwrap(),
{
    match try_decode(data) {
        Some(v) => v,
        None => Vec::new(),
    }
}

} // verus!
