//! The encoder side of the coastline wire format, and the laws that tie it to
//! the decoder in [`crate::coast`]: every layer of the decoder is the exact
//! inverse of the corresponding encoder layer.
use vstd::prelude::*;
use crate::coast::{
    base85_from, digit_of, group_bytes, group_ok, group_prefix_value, group_value, lemma_digit_of_char,
    padded_digit, pow85, spec_base85_decode, spec_decode, z85_char, be_byte,
    fits_i64, pow128, rings_from, spec_decode_stream, spec_read_varint, spec_zigzag_decode,
    varint_tail, vertices_from,
};

verus! {

// ---------------------------------------------------------------- zigzag

/// Zigzag map of a signed delta: `0, -1, 1, -2, 2, ...` to `0, 1, 2, 3, 4, ...`.
pub open spec fn zigzag_encode(n: int) -> nat {
    if n >= 0 {
        (2 * n) as nat
    } else {
        (-2 * n - 1) as nat
    }
}

/// The encoder's bit formula `(n << 1) ^ (n >> 63)` is the zigzag map.
pub proof fn lemma_zigzag_bits(n: i64)
    ensures
        ((n << 1) ^ (n >> 63)) as u64 as int == zigzag_encode(n as int),
{
    let v = ((n << 1) ^ (n >> 63)) as u64;
    assert(n >= 0 ==> v as int == 2 * (n as int)) by (bit_vector)
        requires
            v == ((n << 1) ^ (n >> 63)) as u64,
    ;
    assert(n < 0 ==> v as int == -2 * (n as int) - 1) by (bit_vector)
        requires
            v == ((n << 1) ^ (n >> 63)) as u64,
    ;
}

/// Zigzag decoding undoes zigzag encoding for every 64-bit signed value.
pub proof fn lemma_zigzag_round_trip(n: int)
    requires
        fits_i64(n),
    ensures
        zigzag_encode(n) <= u64::MAX,
        spec_zigzag_decode(zigzag_encode(n) as u64) == n,
{
}

// ---------------------------------------------------------------- varints

/// LEB128 encoding of `v`: 7 payload bits per byte, least significant group
/// first, high bit set on every byte but the last.
pub open spec fn encode_varint(v: nat) -> Seq<u8>
    decreases v,
{
    if v < 128 {
        seq![v as u8]
    } else {
        seq![(v % 128 + 128) as u8] + encode_varint(v / 128)
    }
}

/// Largest value (exclusive) whose encoding can still start at byte `i` of a
/// varint: 2^(64 - 7i).
pub open spec fn varint_room(i: int) -> int {
    0x1_0000_0000_0000_0000int / pow128(i)
}

proof fn lemma_pow128_table()
    ensures
        pow128(0) == 1,
        pow128(1) == 0x80,
        pow128(2) == 0x4000,
        pow128(3) == 0x20_0000,
        pow128(4) == 0x1000_0000,
        pow128(5) == 0x8_0000_0000,
        pow128(6) == 0x400_0000_0000,
        pow128(7) == 0x2_0000_0000_0000,
        pow128(8) == 0x100_0000_0000_0000,
        pow128(9) == 0x8000_0000_0000_0000,
{
    reveal_with_fuel(pow128, 10);
}

proof fn lemma_varint_tail_encoded(b: Seq<u8>, pos: int, i: int, w: nat)
    requires
        0 <= pos,
        0 <= i <= 9,
        w < varint_room(i),
        pos + i + encode_varint(w).len() <= b.len(),
        forall|t: int|
            0 <= t < encode_varint(w).len() ==> b[pos + i + t] == #[trigger] encode_varint(w)[t],
    ensures
        varint_tail(b, pos, i) == Some((w, pos + i + encode_varint(w).len())),
    decreases w,
{
    lemma_pow128_table();
    assert(b[pos + i + 0] == encode_varint(w)[0]);
    if w >= 128 {
        let t = w / 128;
        assert(i <= 8);
        assert(varint_room(i) == 128 * varint_room(i + 1)) by {
            if i == 0 {} else if i == 1 {} else if i == 2 {} else if i == 3 {} else if i == 4 {}
            else if i == 5 {} else if i == 6 {} else if i == 7 {} else {}
        }
        assert(t < varint_room(i + 1));
        let e = encode_varint(w);
        let et = encode_varint(t);
        assert(e == seq![(w % 128 + 128) as u8] + et);
        assert forall|s: int| 0 <= s < et.len() implies b[pos + (i + 1) + s] == #[trigger] et[s] by {
            assert(e[s + 1] == et[s]);
            assert(b[pos + i + (s + 1)] == e[s + 1]);
        }
        lemma_varint_tail_encoded(b, pos, i + 1, t);
    }
}

/// A varint reads back the value it encodes, wherever it sits in a stream,
/// and the read ends right after its encoding.
pub proof fn lemma_varint_round_trip(v: nat, prefix: Seq<u8>, rest: Seq<u8>)
    requires
        v <= u64::MAX,
    ensures
        spec_read_varint(prefix + encode_varint(v) + rest, prefix.len() as int) == Some(
            (v, (prefix.len() + encode_varint(v).len()) as int),
        ),
{
    lemma_pow128_table();
    let e = encode_varint(v);
    let b = prefix + e + rest;
    assert forall|t: int| 0 <= t < e.len() implies b[prefix.len() + 0 + t] == #[trigger] e[t] by {}
    lemma_varint_tail_encoded(b, prefix.len() as int, 0, v);
}

// ---------------------------------------------------------------- stream

/// Delta + zigzag + varint coding of the vertices `vs`, the first relative to
/// `(lat, lon)` and each later one relative to its predecessor.
pub open spec fn encode_vertices(vs: Seq<(i64, i64)>, lat: int, lon: int) -> Seq<u8>
    decreases vs.len(),
{
    if vs.len() == 0 {
        Seq::empty()
    } else {
        encode_varint(zigzag_encode(vs[0].0 - lat)) + encode_varint(zigzag_encode(vs[0].1 - lon))
            + encode_vertices(vs.drop_first(), vs[0].0 as int, vs[0].1 as int)
    }
}

/// Every delta the encoder forms for `vs` (starting from `(lat, lon)`) fits an `i64`.
pub open spec fn deltas_fit(vs: Seq<(i64, i64)>, lat: int, lon: int) -> bool
    decreases vs.len(),
{
    vs.len() == 0 || (fits_i64(vs[0].0 - lat) && fits_i64(vs[0].1 - lon) && deltas_fit(
        vs.drop_first(),
        vs[0].0 as int,
        vs[0].1 as int,
    ))
}

/// One ring: its vertex count, then its delta-coded vertices.
pub open spec fn encode_ring(r: Seq<(i64, i64)>) -> Seq<u8> {
    encode_varint(r.len()) + encode_vertices(r, 0, 0)
}

/// The rings one after the other.
pub open spec fn encode_rings(rs: Seq<Seq<(i64, i64)>>) -> Seq<u8>
    decreases rs.len(),
{
    if rs.len() == 0 {
        Seq::empty()
    } else {
        encode_ring(rs[0]) + encode_rings(rs.drop_first())
    }
}

/// The byte stream (before base85) for the rings `rs`: the ring count, then the rings.
pub open spec fn encode_stream(rs: Seq<Seq<(i64, i64)>>) -> Seq<u8> {
    encode_varint(rs.len()) + encode_rings(rs)
}

/// The rings can be written in the wire format: every count fits a `u64` and
/// every delta fits an `i64`.
pub open spec fn encodable(rs: Seq<Seq<(i64, i64)>>) -> bool {
    &&& rs.len() <= u64::MAX
    &&& forall|i: int| 0 <= i < rs.len() ==> #[trigger] rs[i].len() <= u64::MAX && deltas_fit(rs[i], 0, 0)
}

proof fn lemma_vertices_round_trip(p: Seq<u8>, vs: Seq<(i64, i64)>, lat: int, lon: int, r: Seq<u8>)
    requires
        deltas_fit(vs, lat, lon),
    ensures
        vertices_from(p + encode_vertices(vs, lat, lon) + r, p.len() as int, vs.len(), lat, lon)
            == Some((vs, (p.len() + encode_vertices(vs, lat, lon).len()) as int)),
    decreases vs.len(),
{
    let b = p + encode_vertices(vs, lat, lon) + r;
    if vs.len() == 0 {
        assert(p + Seq::<u8>::empty() + r == b);
    } else {
        let d1 = vs[0].0 - lat;
        let d2 = vs[0].1 - lon;
        let e1 = encode_varint(zigzag_encode(d1));
        let e2 = encode_varint(zigzag_encode(d2));
        let tail = vs.drop_first();
        let et = encode_vertices(tail, vs[0].0 as int, vs[0].1 as int);
        assert(encode_vertices(vs, lat, lon) == e1 + e2 + et);
        lemma_zigzag_round_trip(d1);
        lemma_zigzag_round_trip(d2);
        assert(b == p + e1 + (e2 + et + r));
        lemma_varint_round_trip(zigzag_encode(d1), p, e2 + et + r);
        assert(b == (p + e1) + e2 + (et + r));
        lemma_varint_round_trip(zigzag_encode(d2), p + e1, et + r);
        assert(b == (p + e1 + e2) + et + r);
        lemma_vertices_round_trip(p + e1 + e2, tail, vs[0].0 as int, vs[0].1 as int, r);
        assert(seq![(vs[0].0, vs[0].1)] + tail == vs);
    }
}

proof fn lemma_rings_round_trip(p: Seq<u8>, rs: Seq<Seq<(i64, i64)>>, r: Seq<u8>)
    requires
        encodable(rs),
    ensures
        rings_from(p + encode_rings(rs) + r, p.len() as int, rs.len()) == Some(
            (rs, (p.len() + encode_rings(rs).len()) as int),
        ),
    decreases rs.len(),
{
    let b = p + encode_rings(rs) + r;
    if rs.len() == 0 {
        assert(p + Seq::<u8>::empty() + r == b);
    } else {
        let ring = rs[0];
        let tail = rs.drop_first();
        let ec = encode_varint(ring.len());
        let ev = encode_vertices(ring, 0, 0);
        let et = encode_rings(tail);
        assert(encode_rings(rs) == ec + ev + et);
        assert(ring.len() <= u64::MAX && deltas_fit(ring, 0, 0));
        assert(b == p + ec + (ev + et + r));
        lemma_varint_round_trip(ring.len(), p, ev + et + r);
        assert(b == (p + ec) + ev + (et + r));
        lemma_vertices_round_trip(p + ec, ring, 0, 0, et + r);
        assert(b == (p + ec + ev) + et + r);
        assert(encodable(tail)) by {
            assert forall|i: int| 0 <= i < tail.len() implies #[trigger] tail[i].len() <= u64::MAX
                && deltas_fit(tail[i], 0, 0) by {
                assert(tail[i] == rs[i + 1]);
            }
        }
        lemma_rings_round_trip(p + ec + ev, tail, r);
        assert(seq![ring] + tail == rs);
    }
}

/// The byte stream of any writable ring list decodes back to exactly that list.
pub proof fn lemma_stream_round_trip(rs: Seq<Seq<(i64, i64)>>)
    requires
        encodable(rs),
    ensures
        spec_decode_stream(encode_stream(rs)) == Some(rs),
{
    let e0 = encode_varint(rs.len());
    let er = encode_rings(rs);
    let b = encode_stream(rs);
    assert(b == Seq::<u8>::empty() + e0 + er);
    lemma_varint_round_trip(rs.len(), Seq::empty(), er);
    assert(b == e0 + er + Seq::<u8>::empty());
    lemma_rings_round_trip(e0, rs, Seq::empty());
}

// ---------------------------------------------------------------- base85

/// Byte `j` of a chunk, zero past its end.
pub open spec fn chunk_byte(c: Seq<u8>, j: int) -> int {
    if j < c.len() {
        c[j] as int
    } else {
        0
    }
}

/// Big-endian value of a chunk of up to 4 bytes, zero-padded on the right.
pub open spec fn chunk_value(c: Seq<u8>) -> int {
    ((chunk_byte(c, 0) * 256 + chunk_byte(c, 1)) * 256 + chunk_byte(c, 2)) * 256 + chunk_byte(c, 3)
}

/// Base-85 digit `j` (0 = most significant of 5) of `v`.
pub open spec fn value_digit(v: int, j: int) -> int {
    (v / pow85(4 - j)) % 85
}

/// The `n + 1` characters a chunk of `n` bytes (1..=4) is written as.
pub open spec fn encode_group(c: Seq<u8>) -> Seq<u8> {
    Seq::new(c.len() + 1, |j: int| z85_char(value_digit(chunk_value(c), j)))
}

/// base85 encoding of a byte string, 4 bytes per group, the last group short.
pub open spec fn encode_base85(b: Seq<u8>) -> Seq<u8>
    decreases b.len(),
{
    if b.len() == 0 {
        Seq::empty()
    } else {
        let n = if b.len() < 4 { b.len() } else { 4 };
        encode_group(b.take(n as int)) + encode_base85(b.skip(n as int))
    }
}

proof fn lemma_pow85_table()
    ensures
        pow85(0) == 1,
        pow85(1) == 85,
        pow85(2) == 7225,
        pow85(3) == 614125,
        pow85(4) == 52200625,
        pow85(5) == 4437053125,
{
    reveal_with_fuel(pow85, 6);
}

proof fn lemma_div_step(v: int, p: int)
    requires
        0 <= v,
        0 < p,
    ensures
        (v / (p * 85)) * 85 + (v / p) % 85 == v / p,
{
    vstd::arithmetic::div_mod::lemma_div_denominator(v, p, 85);
    vstd::arithmetic::div_mod::lemma_fundamental_div_mod(v / p, 85);
}

/// The first `j` (up to `k`) digits of an encoded group are the top digits of its value.
proof fn lemma_group_prefix(c: Seq<u8>, j: int)
    requires
        1 <= c.len() <= 4,
        0 <= j <= (c.len() + 1) as int,
    ensures
        group_prefix_value(encode_group(c), 0, (c.len() + 1) as int, j) == chunk_value(c) / pow85(5 - j),
    decreases j,
{
    lemma_pow85_table();
    let g = encode_group(c);
    let v = chunk_value(c);
    if j == 0 {
        assert(v < 4437053125);
    } else {
        lemma_group_prefix(c, j - 1);
        let d = value_digit(v, j - 1);
        assert(0 <= d < 85);
        lemma_digit_of_char(d);
        assert(g[j - 1] == z85_char(d));
        assert(padded_digit(g, 0, (c.len() + 1) as int, j - 1) == d);
        assert(pow85(5 - (j - 1)) == pow85(5 - j) * 85);
        lemma_div_step(v, pow85(5 - j));
    }
}

/// The completion digits (84) of a short group.
proof fn lemma_group_padding(c: Seq<u8>, j: int)
    requires
        1 <= c.len() <= 4,
        (c.len() + 1) as int <= j <= 5,
    ensures
        group_prefix_value(encode_group(c), 0, (c.len() + 1) as int, j) == (chunk_value(c) / pow85(
            4 - c.len(),
        )) * pow85(j - c.len() - 1) + pow85(j - c.len() - 1) - 1,
    decreases j,
{
    lemma_pow85_table();
    if j == (c.len() + 1) as int {
        lemma_group_prefix(c, j);
    } else {
        lemma_group_padding(c, j - 1);
        let q = chunk_value(c) / pow85(4 - c.len());
        let a = pow85(j - 1 - c.len() - 1);
        assert(pow85(j - c.len() - 1) == a * 85);
        assert((q * a + a - 1) * 85 + 84 == q * (a * 85) + a * 85 - 1) by (nonlinear_arith);
    }
}

/// The value a group of `k` characters decodes to, for a chunk of `k - 1` bytes.
proof fn lemma_group_value(c: Seq<u8>)
    requires
        1 <= c.len() <= 4,
    ensures
        group_value(encode_group(c), 0, (c.len() + 1) as int) == (chunk_value(c) / pow85(4 - c.len()))
            * pow85(4 - c.len()) + pow85(4 - c.len()) - 1,
{
    lemma_group_padding(c, 5);
}

/// The arithmetic heart of the format: completing the dropped low digits with 84
/// lands inside the chunk's value range, so the kept bytes are the chunk's bytes.
proof fn lemma_group_bytes(c: Seq<u8>)
    requires
        1 <= c.len() <= 4,
    ensures
        group_value(encode_group(c), 0, (c.len() + 1) as int) <= 0xffff_ffff,
        group_bytes(encode_group(c), 0, (c.len() + 1) as int) == c,
{
    lemma_pow85_table();
    lemma_group_value(c);
    let v = chunk_value(c);
    let w = group_value(encode_group(c), 0, (c.len() + 1) as int);
    let c0 = chunk_byte(c, 0);
    let c1 = chunk_byte(c, 1);
    let c2 = chunk_byte(c, 2);
    let c3 = chunk_byte(c, 3);
    assert(0 <= c0 < 256 && 0 <= c1 < 256 && 0 <= c2 < 256 && 0 <= c3 < 256);
    if c.len() == 4 {
        assert(w == v);
    } else if c.len() == 3 {
        assert(c3 == 0);
        assert(w == (v / 85) * 85 + 84);
        assert(v <= w < v + 256);
    } else if c.len() == 2 {
        assert(c2 == 0 && c3 == 0);
        assert(w == (v / 7225) * 7225 + 7224);
        assert(v <= w < v + 65536);
    } else {
        assert(c1 == 0 && c2 == 0 && c3 == 0);
        assert(w == (v / 614125) * 614125 + 614124);
        assert(v <= w < v + 16777216);
    }
    let gb = group_bytes(encode_group(c), 0, (c.len() + 1) as int);
    assert forall|j: int| 0 <= j < c.len() implies #[trigger] gb[j] == c[j] by {
        assert(gb[j] == be_byte(w, j));
    }
    assert(gb == c);
}

/// A group's decoding depends only on its own characters.
proof fn lemma_group_local(s1: Seq<u8>, i1: int, s2: Seq<u8>, i2: int, k: int, j: int)
    requires
        0 <= k <= 5,
        0 <= j <= 5,
        forall|t: int| 0 <= t < k ==> #[trigger] s1[i1 + t] == s2[i2 + t],
    ensures
        group_prefix_value(s1, i1, k, j) == group_prefix_value(s2, i2, k, j),
    decreases j,
{
    if j > 0 {
        lemma_group_local(s1, i1, s2, i2, k, j - 1);
        if j - 1 < k {
            assert(s1[i1 + (j - 1)] == s2[i2 + (j - 1)]);
        }
    }
}

proof fn lemma_group_local_all(s1: Seq<u8>, i1: int, s2: Seq<u8>, i2: int, k: int)
    requires
        0 <= k <= 5,
        forall|t: int| 0 <= t < k ==> #[trigger] s1[i1 + t] == s2[i2 + t],
    ensures
        group_value(s1, i1, k) == group_value(s2, i2, k),
        group_ok(s1, i1, k) == group_ok(s2, i2, k),
        group_bytes(s1, i1, k) == group_bytes(s2, i2, k),
{
    lemma_group_local(s1, i1, s2, i2, k, 5);
    if group_ok(s1, i1, k) {
        assert forall|t: int| 0 <= t < k implies #[trigger] digit_of(s2[i2 + t]) is Some by {
            assert(s1[i1 + t] == s2[i2 + t]);
            assert(digit_of(s1[i1 + t]) is Some);
        }
    }
    if group_ok(s2, i2, k) {
        assert forall|t: int| 0 <= t < k implies #[trigger] digit_of(s1[i1 + t]) is Some by {
            assert(s1[i1 + t] == s2[i2 + t]);
            assert(digit_of(s2[i2 + t]) is Some);
        }
    }
}

/// Decoding from a position depends only on the text from that position on.
proof fn lemma_base85_suffix(a: Seq<u8>, b: Seq<u8>, i: int)
    requires
        0 <= i,
    ensures
        base85_from(a + b, a.len() + i) == base85_from(b, i),
    decreases b.len() - i,
{
    let s = a + b;
    if i < b.len() {
        let k = if b.len() - i < 5 { b.len() - i } else { 5 };
        assert forall|t: int| 0 <= t < k implies #[trigger] s[a.len() + i + t] == b[i + t] by {}
        lemma_group_local_all(s, a.len() + i, b, i, k);
        lemma_base85_suffix(a, b, i + k);
        assert(a.len() + i + k == a.len() + (i + k));
    }
}

/// Decoding inverts encoding, for every byte string: the 84-completion of short
/// groups recovers exactly the bytes the encoder wrote.
pub proof fn lemma_base85_round_trip(b: Seq<u8>)
    ensures
        spec_base85_decode(encode_base85(b)) == Some(b),
    decreases b.len(),
{
    if b.len() > 0 {
        let n = if b.len() < 4 { b.len() } else { 4 };
        let c = b.take(n as int);
        let g = encode_group(c);
        let rest_b = b.skip(n as int);
        let rest = encode_base85(rest_b);
        let s = g + rest;
        assert(encode_base85(b) == s);
        if rest_b.len() > 0 {
            let n2 = if rest_b.len() < 4 { rest_b.len() } else { 4 };
            assert(rest == encode_group(rest_b.take(n2 as int)) + encode_base85(rest_b.skip(n2 as int)));
            assert(rest.len() >= 2);
        } else {
            assert(rest.len() == 0);
        }
        let k = (n + 1) as int;
        assert(g.len() == k);
        assert forall|t: int| 0 <= t < k implies #[trigger] s[0 + t] == g[0 + t] by {}
        lemma_group_local_all(s, 0, g, 0, k);
        lemma_group_bytes(c);
        assert(group_ok(g, 0, k)) by {
            lemma_pow85_table();
            assert forall|t: int| 0 <= t < k implies #[trigger] digit_of(g[0 + t]) is Some by {
                let d = value_digit(chunk_value(c), t);
                assert(0 <= d < 85);
                lemma_digit_of_char(d);
            }
        }
        lemma_base85_suffix(g, rest, 0);
        lemma_base85_round_trip(rest_b);
        assert(base85_from(s, 0) == Some(group_bytes(s, 0, k) + rest_b));
        assert(c + rest_b == b);
    }
}

/// The whole wire format: the base85 text of any writable ring list decodes
/// back to exactly that list, in source order.
pub proof fn lemma_land_data_round_trip(rs: Seq<Seq<(i64, i64)>>)
    requires
        encodable(rs),
    ensures
        spec_decode(encode_base85(encode_stream(rs))) == Some(rs),
{
    lemma_base85_round_trip(encode_stream(rs));
    lemma_stream_round_trip(rs);
}

} // verus!
