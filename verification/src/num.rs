//! The Number kernel: IEEE-754 double-precision values carried as their bit
//! patterns (`u64`), with the arithmetic done by rustc_apfloat's software
//! implementation of the same format.
use rustc_apfloat::Float;
use vstd::prelude::*;

verus! {

/// Bit pattern of +0.0.
pub const POS_ZERO: u64 = 0;

/// Bit pattern of -0.0.
pub const NEG_ZERO: u64 = 0x8000_0000_0000_0000;

/// Bit pattern of 1.0.
pub const ONE: u64 = 0x3FF0_0000_0000_0000;

/// Bit pattern of +infinity.
pub const POS_INF: u64 = 0x7FF0_0000_0000_0000;

/// Bit pattern of -infinity.
pub const NEG_INF: u64 = 0xFFF0_0000_0000_0000;

/// Bit pattern of the quiet NaN that double operations produce.
pub const QNAN: u64 = 0x7FF8_0000_0000_0000;

/// The magnitude bits, with the sign bit cleared.
pub open spec fn abs_bits(b: u64) -> u64 {
    if b >= NEG_ZERO {
        (b - NEG_ZERO) as u64
    } else {
        b
    }
}

/// The bit patterns that IEEE-754 compares equal to zero: +0.0 and -0.0.
pub open spec fn is_zero_bits(b: u64) -> bool {
    abs_bits(b) == 0
}

/// The two infinities.
pub open spec fn is_inf_bits(b: u64) -> bool {
    abs_bits(b) == POS_INF
}

/// Every NaN bit pattern.
pub open spec fn is_nan_bits(b: u64) -> bool {
    abs_bits(b) > POS_INF
}

/// Whether the sign bit is set.
pub open spec fn is_neg_bits(b: u64) -> bool {
    b >= NEG_ZERO
}

pub uninterp spec fn num_add(a: u64, b: u64) -> u64;

pub uninterp spec fn num_sub(a: u64, b: u64) -> u64;

pub uninterp spec fn num_mul(a: u64, b: u64) -> u64;

pub uninterp spec fn num_div(a: u64, b: u64) -> u64;

pub uninterp spec fn num_rem(a: u64, b: u64) -> u64;

/// The IEEE-754 "less than" predicate over double bit patterns: false when
/// either side is a NaN; otherwise sign-magnitude order, with the two zeros
/// equal. For non-negative doubles the bit pattern as an integer orders
/// exactly as the value does, subnormals and infinity included.
pub open spec fn lt_bits_m(a: u64, b: u64) -> bool {
    if is_nan_bits(a) || is_nan_bits(b) {
        false
    } else if is_neg_bits(a) && is_neg_bits(b) {
        abs_bits(b) < abs_bits(a)
    } else if is_neg_bits(a) && !is_neg_bits(b) {
        !(abs_bits(a) == 0 && abs_bits(b) == 0)
    } else if !is_neg_bits(a) && is_neg_bits(b) {
        false
    } else {
        abs_bits(a) < abs_bits(b)
    }
}

pub uninterp spec fn num_round(a: u64) -> u64;

pub uninterp spec fn num_parse(s: Seq<char>) -> u64;

pub uninterp spec fn num_text(b: u64) -> Seq<char>;

pub uninterp spec fn num_of_nat(n: nat) -> u64;

pub uninterp spec fn num_usize(b: u64) -> usize;

pub uninterp spec fn num_u32(b: u64) -> u32;

pub uninterp spec fn num_i32(b: u64) -> i32;

/// Relies on rustc_apfloat's `Double::add_r` (round to nearest, ties to even,
/// as the hardware rounds): the result depends on the operand bits alone.
#[verifier::external_body]
pub fn add_bits(a: u64, b: u64) -> (r: u64)
    ensures
        r == num_add(a, b),
{
    let x = rustc_apfloat::ieee::Double::from_bits(a as u128);
    let y = rustc_apfloat::ieee::Double::from_bits(b as u128);
    (x + y).value.to_bits() as u64
}

/// Relies on rustc_apfloat's `Double::sub_r`.
#[verifier::external_body]
pub fn sub_bits(a: u64, b: u64) -> (r: u64)
    ensures
        r == num_sub(a, b),
{
    let x = rustc_apfloat::ieee::Double::from_bits(a as u128);
    let y = rustc_apfloat::ieee::Double::from_bits(b as u128);
    (x - y).value.to_bits() as u64
}

/// Relies on rustc_apfloat's `Double::mul_r`.
#[verifier::external_body]
pub fn mul_bits(a: u64, b: u64) -> (r: u64)
    ensures
        r == num_mul(a, b),
{
    let x = rustc_apfloat::ieee::Double::from_bits(a as u128);
    let y = rustc_apfloat::ieee::Double::from_bits(b as u128);
    (x * y).value.to_bits() as u64
}

/// Relies on rustc_apfloat's `Double::div_r`. Its source returns an infinity
/// of the combined sign when a finite nonzero value is divided by a zero, so
/// a positive finite dividend over +0.0 gives +infinity.
#[verifier::external_body]
pub fn div_bits(a: u64, b: u64) -> (r: u64)
    ensures
        r == num_div(a, b),
        0 < a < POS_INF && b == POS_ZERO ==> r == POS_INF,
{
    let x = rustc_apfloat::ieee::Double::from_bits(a as u128);
    let y = rustc_apfloat::ieee::Double::from_bits(b as u128);
    (x / y).value.to_bits() as u64
}

/// Relies on rustc_apfloat's `Double::c_fmod`, the remainder with the sign of
/// the dividend that Rust's `%` computes on doubles.
#[verifier::external_body]
pub fn rem_bits(a: u64, b: u64) -> (r: u64)
    ensures
        r == num_rem(a, b),
{
    let x = rustc_apfloat::ieee::Double::from_bits(a as u128);
    let y = rustc_apfloat::ieee::Double::from_bits(b as u128);
    x.c_fmod(y).value.to_bits() as u64
}

/// Relies on rustc_apfloat's `PartialOrd` for `Double`: the IEEE-754 "less
/// than" predicate, stated exactly over the bits by `lt_bits_m` — false
/// with a NaN, sign-magnitude order otherwise, the two zeros comparing
/// equal.
#[verifier::external_body]
pub fn lt_bits(a: u64, b: u64) -> (r: bool)
    ensures
        r == lt_bits_m(a, b),
{
    let x = rustc_apfloat::ieee::Double::from_bits(a as u128);
    let y = rustc_apfloat::ieee::Double::from_bits(b as u128);
    x < y
}

/// Relies on rustc_apfloat's `Double::round_to_integral` with ties rounding
/// away from zero, the rule of `f64::round`.
#[verifier::external_body]
pub fn round_bits(a: u64) -> (r: u64)
    ensures
        r == num_round(a),
{
    let x = rustc_apfloat::ieee::Double::from_bits(a as u128);
    x.round_to_integral(rustc_apfloat::Round::NearestTiesToAway).value.to_bits() as u64
}

/// Relies on rustc_apfloat's `Double::from_str`, which converts a decimal
/// literal to the correctly rounded double; on the strings admitted by
/// `decimal_grammar` its source never reports a parse error.
#[verifier::external_body]
pub fn parse_bits(s: &str) -> (r: Option<u64>)
    ensures
        crate::num::decimal_grammar(s@) ==> r == Some(num_parse(s@)),
{
    match s.parse::<rustc_apfloat::ieee::Double>() {
        Ok(d) => Some(d.to_bits() as u64),
        Err(_) => None,
    }
}

/// Relies on rustc_apfloat's `Display` for `Double` and its `from_str`: the
/// value is formatted at one significant digit, then two, and so on, and the
/// first plain-digit string (no exponent form) whose re-parse restores the
/// same bits is returned — the shortest round-tripping decimal, as Rust
/// prints a double. The width flag is the formatter's zero-padding
/// allowance, set past the widest double, and the precision climbs far
/// enough that even the largest magnitudes reach their plain form, so the
/// search always ends. The caller treats the infinities and NaNs itself,
/// so only finite patterns reach this call.
#[verifier::external_body]
pub fn text_bits(b: u64) -> (r: String)
    ensures
        r@ == num_text(b),
{
    let x = rustc_apfloat::ieee::Double::from_bits(b as u128);
    for p in 1..330usize {
        let s = format!("{:1$.2$}", x, 1100usize, p);
        if s.contains('E') {
            continue;
        }
        match s.parse::<rustc_apfloat::ieee::Double>() {
            Ok(d) if d.to_bits() == x.to_bits() => return s,
            _ => {},
        }
    }
    format!("{:1$.2$}", x, 1100usize, 330usize)
}

/// Relies on rustc_apfloat's `Double::to_u128_r` rounding toward zero, the
/// truncating saturating conversion of an `as usize` cast on a double.
#[verifier::external_body]
pub fn usize_bits(b: u64) -> (r: usize)
    ensures
        r == num_usize(b),
{
    let x = rustc_apfloat::ieee::Double::from_bits(b as u128);
    if x.is_nan() {
        return 0;
    }
    let mut v = x.to_u128_r(64, rustc_apfloat::Round::TowardZero, &mut false).value;
    if v > usize::MAX as u128 {
        v = usize::MAX as u128;
    }
    v as usize
}

/// Relies on rustc_apfloat's `Double::to_u128_r` as `usize_bits` does, capped
/// at the width of `u32`.
#[verifier::external_body]
pub fn u32_bits(b: u64) -> (r: u32)
    ensures
        r == num_u32(b),
{
    let x = rustc_apfloat::ieee::Double::from_bits(b as u128);
    if x.is_nan() {
        return 0;
    }
    let mut v = x.to_u128_r(32, rustc_apfloat::Round::TowardZero, &mut false).value;
    if v > u32::MAX as u128 {
        v = u32::MAX as u128;
    }
    v as u32
}

/// Relies on rustc_apfloat's `Double::to_i128_r` rounding toward zero, the
/// truncating saturating conversion of an `as i32` cast on a double.
#[verifier::external_body]
pub fn i32_bits(b: u64) -> (r: i32)
    ensures
        r == num_i32(b),
{
    let x = rustc_apfloat::ieee::Double::from_bits(b as u128);
    if x.is_nan() {
        return 0;
    }
    let v = x.to_i128_r(32, rustc_apfloat::Round::TowardZero, &mut false).value;
    v as i32
}

/// Relies on rustc_apfloat's `Double::from_u128_r` (round to nearest, ties to
/// even), the rounding of an `as f64` cast on an unsigned integer.
#[verifier::external_body]
pub fn bits_of_usize(n: usize) -> (r: u64)
    ensures
        r == num_of_nat(n as nat),
{
    let x = rustc_apfloat::ieee::Double::from_u128_r(
        n as u128,
        rustc_apfloat::Round::NearestTiesToEven,
    );
    x.value.to_bits() as u64
}

/// Bit pattern of the NaN that parsing "-nan" gives.
pub const NEG_QNAN: u64 = 0xFFF8_0000_0000_0000;

pub uninterp spec fn num_pow(a: u64, b: u64) -> u64;

pub uninterp spec fn num_sin(a: u64) -> u64;

pub uninterp spec fn num_cos(a: u64) -> u64;

pub uninterp spec fn num_tan(a: u64) -> u64;

pub uninterp spec fn num_exp(a: u64) -> u64;

/// Relies on astro_float's `BigFloat::pow` at 64 bits of precision, reached
/// and left through decimal strings (rustc_apfloat converts the bit patterns
/// to and from decimal): the result depends on the operand bits alone.
#[verifier::external_body]
pub fn pow_bits(a: u64, b: u64) -> (r: u64)
    ensures
        r == num_pow(a, b),
{
    let rm = astro_float::RoundingMode::ToEven;
    let rd = astro_float::Radix::Dec;
    let mut cc = match astro_float::Consts::new() { Ok(c) => c, Err(_) => return QNAN };
    let x = astro_float::BigFloat::parse(&format!("{}", rustc_apfloat::ieee::Double::from_bits(a as u128)), rd, 64, rm, &mut cc);
    let y = astro_float::BigFloat::parse(&format!("{}", rustc_apfloat::ieee::Double::from_bits(b as u128)), rd, 64, rm, &mut cc);
    match x.pow(&y, 64, rm, &mut cc).format(rd, rm, &mut cc).ok().and_then(|t| t.parse::<rustc_apfloat::ieee::Double>().ok()) {
        Some(d) => d.to_bits() as u64,
        None => QNAN,
    }
}

/// Relies on astro_float's `BigFloat::sin` as `pow_bits` relies on `pow`.
#[verifier::external_body]
pub fn sin_bits(a: u64) -> (r: u64)
    ensures
        r == num_sin(a),
{
    let rm = astro_float::RoundingMode::ToEven;
    let mut cc = match astro_float::Consts::new() { Ok(c) => c, Err(_) => return QNAN };
    let x = astro_float::BigFloat::parse(&format!("{}", rustc_apfloat::ieee::Double::from_bits(a as u128)), astro_float::Radix::Dec, 64, rm, &mut cc);
    match x.sin(64, rm, &mut cc).format(astro_float::Radix::Dec, rm, &mut cc).ok().and_then(|t| t.parse::<rustc_apfloat::ieee::Double>().ok()) {
        Some(d) => d.to_bits() as u64,
        None => QNAN,
    }
}

/// Relies on astro_float's `BigFloat::cos` as `pow_bits` relies on `pow`.
#[verifier::external_body]
pub fn cos_bits(a: u64) -> (r: u64)
    ensures
        r == num_cos(a),
{
    let rm = astro_float::RoundingMode::ToEven;
    let mut cc = match astro_float::Consts::new() { Ok(c) => c, Err(_) => return QNAN };
    let x = astro_float::BigFloat::parse(&format!("{}", rustc_apfloat::ieee::Double::from_bits(a as u128)), astro_float::Radix::Dec, 64, rm, &mut cc);
    match x.cos(64, rm, &mut cc).format(astro_float::Radix::Dec, rm, &mut cc).ok().and_then(|t| t.parse::<rustc_apfloat::ieee::Double>().ok()) {
        Some(d) => d.to_bits() as u64,
        None => QNAN,
    }
}

/// Relies on astro_float's `BigFloat::tan` as `pow_bits` relies on `pow`.
#[verifier::external_body]
pub fn tan_bits(a: u64) -> (r: u64)
    ensures
        r == num_tan(a),
{
    let rm = astro_float::RoundingMode::ToEven;
    let mut cc = match astro_float::Consts::new() { Ok(c) => c, Err(_) => return QNAN };
    let x = astro_float::BigFloat::parse(&format!("{}", rustc_apfloat::ieee::Double::from_bits(a as u128)), astro_float::Radix::Dec, 64, rm, &mut cc);
    match x.tan(64, rm, &mut cc).format(astro_float::Radix::Dec, rm, &mut cc).ok().and_then(|t| t.parse::<rustc_apfloat::ieee::Double>().ok()) {
        Some(d) => d.to_bits() as u64,
        None => QNAN,
    }
}

/// Relies on astro_float's `BigFloat::exp` as `pow_bits` relies on `pow`.
#[verifier::external_body]
pub fn exp_bits(a: u64) -> (r: u64)
    ensures
        r == num_exp(a),
{
    let rm = astro_float::RoundingMode::ToEven;
    let mut cc = match astro_float::Consts::new() { Ok(c) => c, Err(_) => return QNAN };
    let x = astro_float::BigFloat::parse(&format!("{}", rustc_apfloat::ieee::Double::from_bits(a as u128)), astro_float::Radix::Dec, 64, rm, &mut cc);
    match x.exp(64, rm, &mut cc).format(astro_float::Radix::Dec, rm, &mut cc).ok().and_then(|t| t.parse::<rustc_apfloat::ieee::Double>().ok()) {
        Some(d) => d.to_bits() as u64,
        None => QNAN,
    }
}

/// A digit of the decimal number grammar.
pub open spec fn is_digit(c: char) -> bool {
    48 <= c as u32 <= 57
}

/// The first position at or after `i` that does not hold a digit.
pub open spec fn digits_end(s: Seq<char>, i: int) -> int
    decreases s.len() - i,
{
    if i < 0 || i >= s.len() || !is_digit(s[i]) {
        i
    } else {
        digits_end(s, i + 1)
    }
}

/// The body of a decimal literal once the sign is stripped: digits with an
/// optional fraction, or a fraction alone, and an optional exponent with at
/// least one digit. `st` is where the body starts in `s`.
pub open spec fn decimal_body(s: Seq<char>, st: int) -> bool {
    let d = digits_end(s, st);
    let frac = d < s.len() && s[d] == '.';
    let mant_end = if frac {
        digits_end(s, d + 1)
    } else {
        d
    };
    let has_digits = d > st || (frac && mant_end > d + 1);
    &&& has_digits
    &&& (mant_end == s.len() || {
        &&& mant_end < s.len()
        &&& (s[mant_end] == 'e' || s[mant_end] == 'E')
        &&& {
            let x = if mant_end + 1 < s.len() && (s[mant_end + 1] == '+' || s[mant_end + 1]
                == '-') {
                mant_end + 2
            } else {
                mant_end + 1
            };
            x < s.len() && digits_end(s, x) == s.len()
        }
    })
}

/// An optional sign, then a decimal body: the finite part of the grammar that
/// Rust's double parsing accepts.
pub open spec fn decimal_grammar(s: Seq<char>) -> bool {
    if s.len() >= 1 && (s[0] == '+' || s[0] == '-') {
        decimal_body(s, 1)
    } else {
        decimal_body(s, 0)
    }
}

/// The code point of `c` with an ASCII capital folded to its small letter.
pub open spec fn lower_u(c: char) -> u32 {
    let u = c as u32;
    if 65 <= u && u <= 90 {
        (u + 32) as u32
    } else {
        u
    }
}

/// Equality of two character sequences up to ASCII case.
pub open spec fn eq_icase(a: Seq<char>, b: Seq<char>) -> bool {
    a.len() == b.len() && forall|i: int| 0 <= i < a.len() ==> lower_u(a[i]) == lower_u(#[trigger] b[i])
}

/// The special words of the double grammar: an optional sign, then `inf`,
/// `infinity` or `nan` in any case.
pub open spec fn special_value_m(s: Seq<char>) -> Option<u64> {
    let neg = s.len() >= 1 && s[0] == '-';
    let st: int = if s.len() >= 1 && (s[0] == '+' || s[0] == '-') {
        1
    } else {
        0
    };
    let t = s.subrange(st, s.len() as int);
    if eq_icase(t, "inf"@) || eq_icase(t, "infinity"@) {
        Some(
            if neg {
                NEG_INF
            } else {
                POS_INF
            },
        )
    } else if eq_icase(t, "nan"@) {
        Some(
            if neg {
                NEG_QNAN
            } else {
                QNAN
            },
        )
    } else {
        None
    }
}

/// What Rust's double parsing returns for a token: the special words, the
/// decimal grammar handed to the kernel, and nothing else.
pub open spec fn parse_literal_m(s: Seq<char>) -> Option<u64> {
    if special_value_m(s) is Some {
        special_value_m(s)
    } else if decimal_grammar(s) {
        Some(num_parse(s))
    } else {
        None
    }
}

/// Where the run of digits starting at `i` ends.
fn digits_end_x(s: &str, i: usize, n: usize) -> (r: usize)
    requires
        n == s@.len(),
        i <= n,
    ensures
        r == digits_end(s@, i as int),
        i <= r <= n,
{
    let mut j = i;
    loop
        invariant
            i <= j <= n,
            n == s@.len(),
            digits_end(s@, i as int) == digits_end(s@, j as int),
        decreases n - j,
    {
        if j >= n {
            return j;
        }
        let c = s.get_char(j);
        if (c as u32) < 48 || (c as u32) > 57 {
            return j;
        }
        j = j + 1;
    }
}

/// Whether `s` matches the decimal grammar.
fn check_decimal(s: &str) -> (r: bool)
    ensures
        r == decimal_grammar(s@),
{
    let n = s.unicode_len();
    let st: usize = if n >= 1 {
        let c = s.get_char(0);
        if c == '+' || c == '-' {
            1
        } else {
            0
        }
    } else {
        0
    };
    let d = digits_end_x(s, st, n);
    let frac = d < n && s.get_char(d) == '.';
    let mant_end = if frac {
        digits_end_x(s, d + 1, n)
    } else {
        d
    };
    let has_digits = d > st || (frac && mant_end > d + 1);
    if !has_digits {
        return false;
    }
    if mant_end == n {
        return true;
    }
    let c = s.get_char(mant_end);
    if c != 'e' && c != 'E' {
        return false;
    }
    let x: usize = if mant_end + 1 < n {
        let c2 = s.get_char(mant_end + 1);
        if c2 == '+' || c2 == '-' {
            mant_end + 2
        } else {
            mant_end + 1
        }
    } else {
        mant_end + 1
    };
    x < n && digits_end_x(s, x, n) == n
}

/// Equality, up to ASCII case, of the tail of `s` from `st` on with `lit`.
fn icase_eq_from(s: &str, st: usize, lit: &str) -> (r: bool)
    requires
        st <= s@.len(),
    ensures
        r == eq_icase(s@.subrange(st as int, s@.len() as int), lit@),
{
    let n = s.unicode_len();
    let m = lit.unicode_len();
    if n - st != m {
        assert(s@.subrange(st as int, s@.len() as int).len() != lit@.len());
        return false;
    }
    let mut j: usize = 0;
    while j < m
        invariant
            j <= m,
            n == s@.len(),
            m == lit@.len(),
            st + m == n,
            forall|k: int|
                0 <= k < j ==> lower_u(s@.subrange(st as int, s@.len() as int)[k]) == lower_u(
                    #[trigger] lit@[k],
                ),
        decreases m - j,
    {
        let a = s.get_char(st + j);
        let b = lit.get_char(j);
        let au = a as u32;
        let bu = b as u32;
        let al = if 65 <= au && au <= 90 {
            au + 32
        } else {
            au
        };
        let bl = if 65 <= bu && bu <= 90 {
            bu + 32
        } else {
            bu
        };
        if al != bl {
            assert(s@.subrange(st as int, s@.len() as int)[j as int] == a);
            return false;
        }
        proof {
            assert(s@.subrange(st as int, s@.len() as int)[j as int] == a);
        }
        j = j + 1;
    }
    true
}

/// What parsing a token as a double gives, for the grammar Rust's `str::parse`
/// accepts, and nothing for other tokens.
pub fn parse_literal(s: &str) -> (r: Option<u64>)
    ensures
        r == parse_literal_m(s@),
{
    let n = s.unicode_len();
    let neg = n >= 1 && s.get_char(0) == '-';
    let st: usize = if n >= 1 {
        let c = s.get_char(0);
        if c == '+' || c == '-' {
            1
        } else {
            0
        }
    } else {
        0
    };
    if icase_eq_from(s, st, "inf") || icase_eq_from(s, st, "infinity") {
        return Some(
            if neg {
                NEG_INF
            } else {
                POS_INF
            },
        );
    }
    if icase_eq_from(s, st, "nan") {
        return Some(
            if neg {
                NEG_QNAN
            } else {
                QNAN
            },
        );
    }
    if check_decimal(s) {
        let r = parse_bits(s);
        return r;
    }
    None
}

} // verus!
