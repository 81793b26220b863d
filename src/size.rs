//! Byte sizes written by people: `1.5GB`, `500M`, `1024`.

use vstd::prelude::*;

use crate::text::{chars_of, to_uppercase, trim, trimmed, upper_of};

verus! {

pub const KIB: u64 = 1024;

pub const MIB: u64 = 1024 * 1024;

pub const GIB: u64 = 1024 * 1024 * 1024;

/// Why a size could not be read.
#[derive(Clone, Copy, Debug, PartialEq, Eq, Structural)]
pub enum ParseSizeError {
    /// What precedes the unit is not a decimal number.
    InvalidNumber,
}

/// The length of the unit that ends `u` and the bytes it stands for: `GB`,
/// `MB`, `KB`, `G`, `M`, `K`, or none (bytes).
pub open spec fn size_unit(u: Seq<char>) -> (int, u64) {
    let n = u.len();
    if n >= 2 && u[n - 1] == 'B' && (u[n - 2] == 'G' || u[n - 2] == 'M' || u[n - 2] == 'K') {
        (2, if u[n - 2] == 'G' { GIB } else if u[n - 2] == 'M' { MIB } else { KIB })
    } else if n >= 1 && (u[n - 1] == 'G' || u[n - 1] == 'M' || u[n - 1] == 'K') {
        (1, if u[n - 1] == 'G' { GIB } else if u[n - 1] == 'M' { MIB } else { KIB })
    } else {
        (0, 1)
    }
}

pub open spec fn is_digit(c: char) -> bool {
    '0' <= c <= '9'
}

pub open spec fn all_digits(ds: Seq<char>) -> bool {
    forall|i: int| 0 <= i < ds.len() ==> is_digit(#[trigger] ds[i])
}

pub open spec fn digit_value(c: char) -> int {
    c as int - '0' as int
}

/// The number that a string of decimal digits stands for.
pub open spec fn digits_value(ds: Seq<char>) -> int
    decreases ds.len(),
{
    if ds.len() == 0 {
        0
    } else {
        digits_value(ds.drop_last()) * 10 + digit_value(ds.last())
    }
}

/// `floor(0.ds * m)`: the whole bytes in `m` times the decimal fraction
/// whose digits after the point are `ds`.
pub open spec fn fraction_of(ds: Seq<char>, m: int) -> int
    decreases ds.len(),
{
    if ds.len() == 0 {
        0
    } else {
        (digit_value(ds[0]) * m + fraction_of(ds.drop_first(), m)) / 10
    }
}

/// The position of the first `.` in `s`, or -1.
pub open spec fn dot_index(s: Seq<char>) -> int {
    if exists|i: int| 0 <= i < s.len() && s[i] == '.' {
        choose|i: int|
            0 <= i < s.len() && s[i] == '.' && forall|j: int| 0 <= j < i ==> s[j] != '.'
    } else {
        -1
    }
}

/// The number `s` stands for times `m`, in whole bytes: `s` is an optional
/// sign, then decimal digits with at most one point and at least one digit.
/// A negative number gives 0 and a value past the largest `u64` gives that
/// largest value; anything else is not a number.
pub open spec fn scaled_decimal(s: Seq<char>, m: u64) -> Option<u64> {
    let signed = s.len() > 0 && (s[0] == '-' || s[0] == '+');
    let body = if signed { s.drop_first() } else { s };
    let d = dot_index(body);
    let ip = if d < 0 { body } else { body.take(d) };
    let fp = if d < 0 { Seq::empty() } else { body.skip(d + 1) };
    if !all_digits(ip) || !all_digits(fp) || ip.len() + fp.len() == 0 {
        None
    } else if signed && s[0] == '-' {
        Some(0)
    } else {
        let v = digits_value(ip) * m + fraction_of(fp, m as int);
        Some(if v > u64::MAX { u64::MAX } else { v as u64 })
    }
}

/// What `parse_size` gives for a string.
pub open spec fn parse_size_spec(s: Seq<char>) -> Option<u64> {
    let u = upper_of(trimmed(s));
    let (k, m) = size_unit(u);
    scaled_decimal(trimmed(u.take(u.len() - k)), m)
}

/// Splits the unit off an upper-case size: the number before it, and the
/// bytes that the unit stands for.
pub fn split_size_unit(u: &str) -> (r: (&str, u64))
    ensures
        r.0@ == u@.take(u@.len() - size_unit(u@).0),
        r.1 == size_unit(u@).1,
{
    let n = u.unicode_len();
    let (k, m): (usize, u64) = if n >= 2 && u.get_char(n - 1) == 'B' && (u.get_char(n - 2) == 'G'
        || u.get_char(n - 2) == 'M' || u.get_char(n - 2) == 'K') {
        let c = u.get_char(n - 2);
        (2, if c == 'G' { GIB } else if c == 'M' { MIB } else { KIB })
    } else if n >= 1 && (u.get_char(n - 1) == 'G' || u.get_char(n - 1) == 'M' || u.get_char(n - 1)
        == 'K') {
        let c = u.get_char(n - 1);
        (1, if c == 'G' { GIB } else if c == 'M' { MIB } else { KIB })
    } else {
        (0, 1)
    };
    (u.substring_char(0, n - k), m)
}

proof fn lemma_digits_value_nonneg(ds: Seq<char>)
    requires
        all_digits(ds),
    ensures
        digits_value(ds) >= 0,
    decreases ds.len(),
{
    if ds.len() > 0 {
        lemma_digits_value_nonneg(ds.drop_last());
    }
}

proof fn lemma_fraction_bound(ds: Seq<char>, m: int)
    requires
        all_digits(ds),
        m >= 1,
    ensures
        0 <= fraction_of(ds, m) < m,
    decreases ds.len(),
{
    if ds.len() > 0 {
        lemma_fraction_bound(ds.drop_first(), m);
        let f = fraction_of(ds.drop_first(), m);
        let d = digit_value(ds[0]);
        assert(0 <= d <= 9);
        assert(0 <= d * m <= 9 * m) by (nonlinear_arith)
            requires
                0 <= d <= 9,
                m >= 1,
        ;
    }
}

/// Whether `cs[from..to]` are all decimal digits.
fn digits_between(cs: &Vec<char>, from: usize, to: usize) -> (r: bool)
    requires
        from <= to <= cs@.len(),
    ensures
        r == all_digits(cs@.subrange(from as int, to as int)),
{
    let mut i = from;
    while i < to
        invariant
            from <= i <= to <= cs@.len(),
            forall|j: int| from <= j < i ==> is_digit(#[trigger] cs@[j]),
        decreases to - i,
    {
        if !(cs[i] >= '0' && cs[i] <= '9') {
            proof {
                assert(cs@.subrange(from as int, to as int)[i - from] == cs@[i as int]);
            }
            return false;
        }
        i = i + 1;
    }
    proof {
        assert forall|k: int| 0 <= k < to - from implies is_digit(
            #[trigger] cs@.subrange(from as int, to as int)[k],
        ) by {
            assert(cs@.subrange(from as int, to as int)[k] == cs@[k + from]);
        }
    }
    true
}

/// The saturating value of a run of digits: exact below 2^64, 2^64 above.
fn digits_saturating(cs: &Vec<char>, from: usize, to: usize) -> (r: u128)
    requires
        from <= to <= cs@.len(),
        all_digits(cs@.subrange(from as int, to as int)),
    ensures
        r == if digits_value(cs@.subrange(from as int, to as int)) >= 0x1_0000_0000_0000_0000 {
            0x1_0000_0000_0000_0000
        } else {
            digits_value(cs@.subrange(from as int, to as int))
        },
{
    let cap: u128 = 0x1_0000_0000_0000_0000;
    let mut acc: u128 = 0;
    let mut i = from;
    while i < to
        invariant
            from <= i <= to <= cs@.len(),
            all_digits(cs@.subrange(from as int, to as int)),
            cap == 0x1_0000_0000_0000_0000,
            acc == if digits_value(cs@.subrange(from as int, i as int)) >= cap {
                cap as int
            } else {
                digits_value(cs@.subrange(from as int, i as int))
            },
        decreases to - i,
    {
        let ghost prev = cs@.subrange(from as int, i as int);
        let ghost next = cs@.subrange(from as int, i + 1);
        proof {
            assert(next.drop_last() =~= prev);
            assert(next.last() == cs@[i as int]);
            assert(cs@.subrange(from as int, to as int)[i - from] == cs@[i as int]);
            assert(all_digits(prev)) by {
                assert forall|k: int| 0 <= k < prev.len() implies is_digit(#[trigger] prev[k]) by {
                    assert(prev[k] == cs@.subrange(from as int, to as int)[k]);
                }
            }
            lemma_digits_value_nonneg(prev);
        }
        let d = (cs[i] as u32 - '0' as u32) as u128;
        if acc >= cap {
            acc = cap;
        } else {
            let v = acc * 10 + d;
            acc = if v >= cap { cap } else { v };
        }
        i = i + 1;
    }
    acc
}

/// `floor(0.ds * m)` for the digits `cs[from..to]`.
fn fraction_scaled(cs: &Vec<char>, from: usize, to: usize, m: u64) -> (r: u64)
    requires
        from <= to <= cs@.len(),
        all_digits(cs@.subrange(from as int, to as int)),
        m >= 1,
    ensures
        r == fraction_of(cs@.subrange(from as int, to as int), m as int),
{
    let mut acc: u64 = 0;
    let mut i = to;
    while i > from
        invariant
            from <= i <= to <= cs@.len(),
            all_digits(cs@.subrange(from as int, to as int)),
            m >= 1,
            acc == fraction_of(cs@.subrange(i as int, to as int), m as int),
        decreases i - from,
    {
        let ghost tail = cs@.subrange(i - 1, to as int);
        proof {
            assert(tail.drop_first() =~= cs@.subrange(i as int, to as int));
            assert(tail[0] == cs@[i - 1]);
            assert(cs@.subrange(from as int, to as int)[i - 1 - from] == cs@[i - 1]);
            assert(all_digits(cs@.subrange(i as int, to as int))) by {
                assert forall|k: int| 0 <= k < to - i implies is_digit(
                    #[trigger] cs@.subrange(i as int, to as int)[k],
                ) by {
                    assert(cs@.subrange(i as int, to as int)[k] == cs@.subrange(
                        from as int,
                        to as int,
                    )[k + i - from]);
                }
            }
            lemma_fraction_bound(cs@.subrange(i as int, to as int), m as int);
        }
        let d = (cs[i - 1] as u32 - '0' as u32) as u128;
        assert(d * (m as u128) + (acc as u128) < 10 * (m as u128)) by (nonlinear_arith)
            requires
                d <= 9,
                acc < m,
        ;
        let v: u128 = (d * (m as u128) + acc as u128) / 10;
        acc = v as u64;
        i = i - 1;
    }
    acc
}

/// Reads a decimal number, with an optional sign and at most one point, and
/// scales it by `multiplier` into whole bytes (see `scaled_decimal`).
pub fn scale_decimal(num: &str, multiplier: u64) -> (r: Result<u64, ParseSizeError>)
    requires
        multiplier >= 1,
    ensures
        match scaled_decimal(num@, multiplier) {
            Some(v) => r == Ok::<u64, ParseSizeError>(v),
            None => r == Err::<u64, ParseSizeError>(ParseSizeError::InvalidNumber),
        },
{
    let cs = chars_of(num);
    let n = cs.len();
    let signed = n > 0 && (cs[0] == '-' || cs[0] == '+');
    let start: usize = if signed { 1 } else { 0 };
    let ghost body = if signed { num@.drop_first() } else { num@ };
    proof {
        assert(body =~= cs@.subrange(start as int, n as int));
    }
    let mut dot = start;
    while dot < n && cs[dot] != '.'
        invariant
            start <= dot <= n == cs@.len(),
            forall|j: int| start <= j < dot ==> cs@[j] != '.',
        decreases n - dot,
    {
        dot = dot + 1;
    }
    let ghost d = dot_index(body);
    proof {
        if dot < n {
            assert(body[dot - start] == '.');
            let w = dot - start;
            assert(forall|j: int| 0 <= j < w ==> body[j] == cs@[j + start]);
            let c = choose|i: int|
                0 <= i < body.len() && body[i] == '.' && forall|j: int| 0 <= j < i ==> body[j] != '.';
            assert(c == w) by {
                if c < w {
                    assert(body[c] == cs@[c + start]);
                } else if c > w {
                    assert(body[w] == '.');
                }
            }
        } else {
            assert forall|i: int| 0 <= i < body.len() implies body[i] != '.' by {
                assert(body[i] == cs@[i + start]);
            }
        }
    }
    let frac_start = if dot < n { dot + 1 } else { n };
    let ghost ip = if d < 0 { body } else { body.take(d) };
    let ghost fp = if d < 0 { Seq::<char>::empty() } else { body.skip(d + 1) };
    proof {
        assert(ip =~= cs@.subrange(start as int, dot as int));
        assert(fp =~= cs@.subrange(frac_start as int, n as int));
    }
    if !digits_between(&cs, start, dot) || !digits_between(&cs, frac_start, n) {
        return Err(ParseSizeError::InvalidNumber);
    }
    if dot - start + (n - frac_start) == 0 {
        return Err(ParseSizeError::InvalidNumber);
    }
    if signed && cs[0] == '-' {
        return Ok(0);
    }
    let whole = digits_saturating(&cs, start, dot);
    let frac = fraction_scaled(&cs, frac_start, n, multiplier);
    proof {
        lemma_digits_value_nonneg(ip);
        lemma_fraction_bound(fp, multiplier as int);
    }
    if whole >= 0x1_0000_0000_0000_0000 {
        assert(digits_value(ip) * multiplier >= 0x1_0000_0000_0000_0000) by (nonlinear_arith)
            requires
                digits_value(ip) >= 0x1_0000_0000_0000_0000,
                multiplier >= 1,
        ;
        return Ok(u64::MAX);
    }
    assert(whole * (multiplier as u128) <= 0xFFFF_FFFF_FFFF_FFFF * 0xFFFF_FFFF_FFFF_FFFF) by (
    nonlinear_arith)
        requires
            whole <= 0xFFFF_FFFF_FFFF_FFFF,
            multiplier <= 0xFFFF_FFFF_FFFF_FFFF,
    ;
    let v: u128 = whole * (multiplier as u128) + frac as u128;
    if v > u64::MAX as u128 {
        Ok(u64::MAX)
    } else {
        Ok(v as u64)
    }
}

/// Reads a size such as `1.5GB`, `500m` or `1024`: white space around it and
/// the case of the unit do not matter; `KB`/`K`, `MB`/`M` and `GB`/`G` are
/// powers of 1024, and a bare number is bytes. A fractional size is rounded
/// down to whole bytes.
pub fn parse_size(s: &str) -> (r: Result<u64, ParseSizeError>)
    ensures
        match parse_size_spec(s@) {
            Some(v) => r == Ok::<u64, ParseSizeError>(v),
            None => r == Err::<u64, ParseSizeError>(ParseSizeError::InvalidNumber),
        },
{
    let upper = to_uppercase(trim(s));
    let (num, multiplier) = split_size_unit(upper.as_str());
    scale_decimal(trim(num), multiplier)
}

} // verus!
