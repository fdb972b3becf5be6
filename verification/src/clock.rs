//! The date-and-time part of the clock line: `Sat 2026-09-26 14:03:22
//! UTC+02:00`.
//!
//! The calendar text comes from chrono; the zone label (`UTC` at offset zero,
//! otherwise `UTC±HH:MM`) is built here.
use vstd::prelude::*;
use vstd::string::StringExecFns;

verus! {

/// The text chrono's `format("%a %Y-%m-%d %H:%M:%S")` prints for the UTC
/// instant `utc_secs` seconds and `subsec_nanos` nanoseconds after the Unix
/// epoch, shown at the fixed offset `offset_secs` east of UTC.
pub uninterp spec fn clock_stamp(utc_secs: i64, subsec_nanos: u32, offset_secs: i32) -> Seq<char>;

/// Whether chrono has calendar text for this instant at this offset: the
/// offset is under a day either way; the instant's second lies between
/// 1 January of year -262143, 00:00:00 UTC, and 31 December of year 262142,
/// 23:59:59 UTC (chrono's calendar); and the nanosecond part is under one
/// second, or under two seconds on a second that ends a minute (a leap second).
pub open spec fn stamp_ok(utc_secs: i64, subsec_nanos: u32, offset_secs: i32) -> bool {
    &&& -86400 < offset_secs < 86400
    &&& -8_334_601_228_800 <= utc_secs <= 8_210_266_876_799
    &&& (subsec_nanos < 1_000_000_000 || (subsec_nanos < 2_000_000_000 && utc_secs % 60 == 59))
}

/// Format an instant at a fixed offset with chrono: `FixedOffset::east_opt`,
/// `DateTime::from_timestamp`, `with_timezone`, then `format` with the clock's
/// pattern. Claimed: the text is chrono's (named `clock_stamp`), and there is
/// some exactly when `stamp_ok` holds: `east_opt` accepts offsets under a day,
/// `from_timestamp` accepts instants whose day lies in chrono's calendar
/// (years -262143 to 262142) with a nanosecond part under one second, or under
/// two on a minute's last second; `with_timezone` and `format` always succeed.
#[verifier::external_body]
fn format_stamp(utc_secs: i64, subsec_nanos: u32, offset_secs: i32) -> (r: Option<String>)
    ensures
        r matches Some(s) ==> s@ == clock_stamp(utc_secs, subsec_nanos, offset_secs),
        r is Some <==> stamp_ok(utc_secs, subsec_nanos, offset_secs),
{
    let off = chrono::FixedOffset::east_opt(offset_secs)?;
    let t = chrono::DateTime::from_timestamp(utc_secs, subsec_nanos)?;
    Some(t.with_timezone(&off).format("%a %Y-%m-%d %H:%M:%S").to_string())
}

/// The character of decimal digit `d`.
pub open spec fn digit_char(d: int) -> char {
    ('0' as int + d) as char
}

/// `n` in decimal, without leading zeros.
pub open spec fn decimal_text(n: nat) -> Seq<char>
    decreases n,
{
    if n < 10 {
        seq![digit_char(n as int)]
    } else {
        decimal_text(n / 10).push(digit_char((n % 10) as int))
    }
}

/// `n` in decimal, at least two digits wide (zero-padded).
pub open spec fn two_digit_text(n: nat) -> Seq<char> {
    if n < 10 {
        seq!['0', digit_char(n as int)]
    } else {
        decimal_text(n)
    }
}

/// The zone label for an offset of `offset_secs` east of UTC: `UTC` at zero,
/// otherwise `UTC`, the sign, and the offset's whole minutes as `HH:MM`.
pub open spec fn spec_zone_label(offset_secs: int) -> Seq<char> {
    if offset_secs == 0 {
        seq!['U', 'T', 'C']
    } else {
        let sign = if offset_secs < 0 {
            '-'
        } else {
            '+'
        };
        let abs = if offset_secs < 0 {
            -offset_secs
        } else {
            offset_secs
        };
        let mins = abs / 60;
        seq!['U', 'T', 'C', sign] + two_digit_text((mins / 60) as nat) + seq![':']
            + two_digit_text((mins % 60) as nat)
    }
}

/// The one-character text of digit `d`.
fn digit_str(d: u32) -> (s: &'static str)
    requires
        d < 10,
    ensures
        s@ == seq![digit_char(d as int)],
{
    proof {
        reveal_strlit("0");
        reveal_strlit("1");
        reveal_strlit("2");
        reveal_strlit("3");
        reveal_strlit("4");
        reveal_strlit("5");
        reveal_strlit("6");
        reveal_strlit("7");
        reveal_strlit("8");
        reveal_strlit("9");
    }
    match d {
        0 => "0",
        1 => "1",
        2 => "2",
        3 => "3",
        4 => "4",
        5 => "5",
        6 => "6",
        7 => "7",
        8 => "8",
        _ => "9",
    }
}

/// Append `n` in decimal.
fn append_decimal(s: &mut String, n: u32)
    ensures
        final(s)@ == old(s)@ + decimal_text(n as nat),
    decreases n,
{
    if n >= 10 {
        append_decimal(s, n / 10);
    }
    s.append(digit_str(n % 10));
    assert(final(s)@ =~= old(s)@ + decimal_text(n as nat)) by {
        if n >= 10 {
            assert(decimal_text(n as nat) == decimal_text((n / 10) as nat).push(
                digit_char((n % 10) as int),
            ));
        }
    }
}

/// Append `n` in decimal, zero-padded to two digits.
fn append_two_digits(s: &mut String, n: u32)
    ensures
        final(s)@ == old(s)@ + two_digit_text(n as nat),
{
    if n < 10 {
        proof {
            reveal_strlit("0");
        }
        s.append("0");
        s.append(digit_str(n));
        assert(final(s)@ =~= old(s)@ + two_digit_text(n as nat));
    } else {
        append_decimal(s, n);
    }
}

/// The zone label for an offset of `offset_secs` east of UTC: `UTC` at zero,
/// otherwise `UTC+HH:MM` or `UTC-HH:MM` (whole minutes).
pub fn zone_label(offset_secs: i32) -> (r: String)
    requires
        offset_secs > i32::MIN,
    ensures
        r@ == spec_zone_label(offset_secs as int),
{
    proof {
        reveal_strlit("UTC");
        reveal_strlit("+");
        reveal_strlit("-");
        reveal_strlit(":");
    }
    let mut s = String::from_str("UTC");
    if offset_secs == 0 {
        assert(s@ =~= spec_zone_label(offset_secs as int));
        return s;
    }
    let abs: i32 = if offset_secs < 0 {
        s.append("-");
        -offset_secs
    } else {
        s.append("+");
        offset_secs
    };
    let mins: i32 = abs / 60;
    append_two_digits(&mut s, (mins / 60) as u32);
    s.append(":");
    append_two_digits(&mut s, (mins % 60) as u32);
    assert(s@ =~= spec_zone_label(offset_secs as int));
    s
}

/// The clock line's date-and-time part from chrono's calendar text `stamp`:
/// the text, a space, and the zone label.
pub fn clock_head_from(stamp: String, offset_secs: i32) -> (r: String)
    requires
        offset_secs > i32::MIN,
    ensures
        r@ == stamp@ + seq![' '] + spec_zone_label(offset_secs as int),
{
    proof {
        reveal_strlit(" ");
    }
    let mut s = stamp;
    s.append(" ");
    let zone = zone_label(offset_secs);
    s.append(zone.as_str());
    s
}

/// The clock line's date-and-time part for a UTC instant shown at a fixed
/// offset: `Sat 2026-09-26 14:03:22 UTC+02:00`. None when chrono has no
/// calendar text for it (see `format_stamp`).
pub fn clock_head(utc_secs: i64, subsec_nanos: u32, offset_secs: i32) -> (r: Option<String>)
    ensures
        r matches Some(s) ==> s@ == clock_stamp(utc_secs, subsec_nanos, offset_secs) + seq![' ']
            + spec_zone_label(offset_secs as int),
        r is Some <==> stamp_ok(utc_secs, subsec_nanos, offset_secs),
{
    match format_stamp(utc_secs, subsec_nanos, offset_secs) {
        Some(stamp) => Some(clock_head_from(stamp, offset_secs)),
        None => None,
    }
}

} // verus!
