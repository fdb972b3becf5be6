//! Command-line values: the `--interval` check and color resolution.
//!
//! Argument parsing itself (flags, `--help`, usage errors) belongs to the
//! program around the library; this module holds the rules those flags obey.
use vstd::prelude::*;
use vstd::string::StringExecFns;

verus! {

/// `--color` as written on the command line.
#[derive(Clone, Copy, Debug, PartialEq, Eq, Structural)]
pub enum ColorArg {
    Auto,
    Always,
    Never,
}

/// When to use color, before the environment is consulted.
#[derive(Clone, Copy, Debug, PartialEq, Eq, Structural)]
pub enum ColorWhen {
    Auto,
    Always,
    Never,
}

/// The color choice an argument stands for.
pub open spec fn spec_color_when(arg: ColorArg) -> ColorWhen {
    match arg {
        ColorArg::Auto => ColorWhen::Auto,
        ColorArg::Always => ColorWhen::Always,
        ColorArg::Never => ColorWhen::Never,
    }
}

impl ColorArg {
    /// The color choice this argument stands for.
    pub fn when(self) -> (w: ColorWhen)
        ensures
            w == spec_color_when(self),
    {
        match self {
            ColorArg::Auto => ColorWhen::Auto,
            ColorArg::Always => ColorWhen::Always,
            ColorArg::Never => ColorWhen::Never,
        }
    }
}

/// The terminal name that disables color.
pub open spec fn dumb_term() -> Seq<char> {
    seq!['d', 'u', 'm', 'b']
}

/// Whether color is used: `always` and `never` decide alone; `auto` is off when
/// `NO_COLOR` is set to a non-empty value, when `TERM` is missing (or not
/// valid text) or `dumb`, and otherwise follows whether stdout is a terminal.
pub open spec fn spec_resolve(
    when: ColorWhen,
    no_color: Option<Seq<char>>,
    term: Option<Seq<char>>,
    stdout_is_tty: bool,
) -> bool {
    match when {
        ColorWhen::Always => true,
        ColorWhen::Never => false,
        ColorWhen::Auto => {
            if no_color matches Some(v) && v.len() > 0 {
                false
            } else {
                match term {
                    None => false,
                    Some(t) => t != dumb_term() && stdout_is_tty,
                }
            }
        },
    }
}

/// Whether `s` is exactly `dumb`.
fn is_dumb(s: &str) -> (r: bool)
    ensures
        r == (s@ == dumb_term()),
{
    if s.unicode_len() != 4 {
        return false;
    }
    let r = s.get_char(0) == 'd' && s.get_char(1) == 'u' && s.get_char(2) == 'm' && s.get_char(3)
        == 'b';
    if r {
        assert(s@ =~= dumb_term());
    }
    r
}

impl ColorWhen {
    /// Resolve the choice against the environment: `no_color` is the value of
    /// `NO_COLOR` (if set), `term` that of `TERM` (if set and valid text).
    /// `NO_COLOR` disables color only when non-empty (the no-color.org
    /// convention), as do `TERM=dumb` and a missing `TERM`; otherwise color
    /// follows TTY-ness.
    pub fn resolve(self, no_color: Option<&str>, term: Option<&str>, stdout_is_tty: bool) -> (r:
        bool)
        ensures
            r == spec_resolve(
                self,
                match no_color {
                    Some(v) => Some(v@),
                    None => None,
                },
                match term {
                    Some(t) => Some(t@),
                    None => None,
                },
                stdout_is_tty,
            ),
    {
        match self {
            ColorWhen::Always => true,
            ColorWhen::Never => false,
            ColorWhen::Auto => {
                if let Some(v) = no_color {
                    if v.unicode_len() > 0 {
                        return false;
                    }
                }
                match term {
                    None => false,
                    Some(t) => !is_dumb(t) && stdout_is_tty,
                }
            },
        }
    }
}

// ---------------------------------------------------------------- numbers

/// Whether `c` is an ASCII decimal digit.
pub open spec fn is_digit(c: char) -> bool {
    '0' <= c <= '9'
}

/// The value of a string of decimal digits.
pub open spec fn digits_value(s: Seq<char>) -> nat
    decreases s.len(),
{
    if s.len() == 0 {
        0
    } else {
        digits_value(s.drop_last()) * 10 + (s.last() as nat - '0' as nat) as nat
    }
}

/// The digits of an unsigned decimal: the text after an optional leading `+`.
pub open spec fn unsigned_digits(s: Seq<char>) -> Seq<char> {
    if s.len() > 0 && s[0] == '+' {
        s.drop_first()
    } else {
        s
    }
}

/// What reading `s` as a `u64` gives: an optional `+`, then one or more ASCII
/// digits whose value fits in 64 bits; anything else is not a number.
pub open spec fn spec_parse_u64(s: Seq<char>) -> Option<u64> {
    let d = unsigned_digits(s);
    if d.len() > 0 && (forall|i: int| 0 <= i < d.len() ==> is_digit(#[trigger] d[i]))
        && digits_value(d) <= u64::MAX {
        Some(digits_value(d) as u64)
    } else {
        None
    }
}

/// A digit string's value is at least that of any of its prefixes.
proof fn lemma_digits_value_prefix(s: Seq<char>, i: int)
    requires
        0 <= i <= s.len(),
        forall|k: int| 0 <= k < s.len() ==> is_digit(#[trigger] s[k]),
    ensures
        digits_value(s.subrange(0, i)) <= digits_value(s),
    decreases s.len() - i,
{
    if i < s.len() {
        lemma_digits_value_prefix(s, i + 1);
        let p = s.subrange(0, i + 1);
        assert(p.drop_last() =~= s.subrange(0, i));
        assert(is_digit(s[i]));
    } else {
        assert(s.subrange(0, i) =~= s);
    }
}

/// Read `s` as a `u64` (an optional `+`, then decimal digits).
fn parse_u64(s: &str) -> (r: Option<u64>)
    ensures
        r == spec_parse_u64(s@),
{
    let n = s.unicode_len();
    let mut start: usize = 0;
    if n > 0 && s.get_char(0) == '+' {
        start = 1;
    }
    let ghost d = unsigned_digits(s@);
    assert(d =~= s@.subrange(start as int, n as int));
    if start == n {
        return None;
    }
    let mut v: u64 = 0;
    let mut i: usize = start;
    while i < n
        invariant
            n == s@.len(),
            start <= i <= n,
            start < n,
            d == unsigned_digits(s@),
            d =~= s@.subrange(start as int, n as int),
            forall|k: int| 0 <= k < i - start ==> is_digit(#[trigger] d[k]),
            v == digits_value(d.subrange(0, i - start)),
        decreases n - i,
    {
        let c = s.get_char(i);
        if !('0' <= c && c <= '9') {
            assert(!is_digit(d[i - start]));
            return None;
        }
        let digit: u64 = ((c as u32) - ('0' as u32)) as u64;
        let ghost next = d.subrange(0, i + 1 - start);
        assert(next.drop_last() =~= d.subrange(0, i - start));
        assert(next.last() == c);
        match v.checked_mul(10) {
            None => {
                proof {
                    if forall|k: int| 0 <= k < d.len() ==> is_digit(#[trigger] d[k]) {
                        lemma_digits_value_prefix(d, i + 1 - start);
                    }
                }
                return None;
            },
            Some(v10) => match v10.checked_add(digit) {
                None => {
                    proof {
                        if forall|k: int| 0 <= k < d.len() ==> is_digit(#[trigger] d[k]) {
                            lemma_digits_value_prefix(d, i + 1 - start);
                        }
                    }
                    return None;
                },
                Some(v2) => {
                    v = v2;
                },
            },
        }
        i = i + 1;
    }
    assert(d.subrange(0, n - start) =~= d);
    Some(v)
}

/// What `--interval` accepts: a whole number of milliseconds in [10, 1000].
pub open spec fn interval_ok(v: u64) -> bool {
    10 <= v <= 1000
}

/// Check an `--interval` value. Text that is not a `u64` is refused with
/// `invalid number: <text>`; a number outside [10, 1000] with
/// `must be within [10, 1000] milliseconds`.
pub fn parse_interval(s: &str) -> (r: Result<u64, String>)
    ensures
        match spec_parse_u64(s@) {
            None => r matches Err(e) && e@ == "invalid number: "@ + s@,
            Some(v) => if interval_ok(v) {
                r == Ok::<u64, String>(v)
            } else {
                r matches Err(e) && e@ == "must be within [10, 1000] milliseconds"@
            },
        },
{
    match parse_u64(s) {
        None => {
            let mut e = String::from_str("invalid number: ");
            e.append(s);
            Err(e)
        },
        Some(v) => {
            if 10 <= v && v <= 1000 {
                Ok(v)
            } else {
                Err(String::from_str("must be within [10, 1000] milliseconds"))
            }
        },
    }
}

} // verus!
