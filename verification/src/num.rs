//! Dynamic numbers of the language: IEEE-754 binary64 values, carried as
//! their 64-bit patterns so that the evaluator's logic stays exact.
//!
//! Comparison, equality and negation are defined here directly on the bit
//! patterns, following the IEEE-754 layout (sign bit, 11 exponent bits,
//! 52 significand bits), and are verified. Rounding arithmetic, decimal
//! parsing and decimal formatting are inherently platform operations and
//! stand behind trusted wrappers.

use vstd::prelude::*;

use const_soft_float::soft_f64::SoftF64;

verus! {

/// The sign bit of a binary64 value.
pub const SIGN_MASK: u64 = 0x8000_0000_0000_0000;

/// The 11 exponent bits of a binary64 value.
pub const EXPONENT_MASK: u64 = 0x7FF0_0000_0000_0000;

/// The 52 significand bits of a binary64 value.
pub const SIGNIFICAND_MASK: u64 = 0x000F_FFFF_FFFF_FFFF;

/// A bit pattern denotes NaN when its exponent bits are all ones and its
/// significand is not zero.
pub open spec fn is_nan_bits(a: u64) -> bool {
    a & EXPONENT_MASK == EXPONENT_MASK && a & SIGNIFICAND_MASK != 0
}

/// A bit pattern denotes a zero (of either sign) when everything but the
/// sign bit is zero.
pub open spec fn is_zero_bits(a: u64) -> bool {
    a & !SIGN_MASK == 0
}

pub open spec fn sign_bits(a: u64) -> bool {
    a & SIGN_MASK != 0
}

/// IEEE-754 equality on bit patterns: NaN equals nothing, the two zeros are
/// equal, and every other value is equal exactly to itself.
pub open spec fn eq_bits(a: u64, b: u64) -> bool {
    &&& !is_nan_bits(a)
    &&& !is_nan_bits(b)
    &&& (a == b || (is_zero_bits(a) && is_zero_bits(b)))
}

/// IEEE-754 `<` on bit patterns: false whenever a NaN is involved; otherwise
/// the order of the sign-magnitude encoding (negative values order reversed).
pub open spec fn lt_bits(a: u64, b: u64) -> bool {
    &&& !is_nan_bits(a)
    &&& !is_nan_bits(b)
    &&& !(is_zero_bits(a) && is_zero_bits(b))
    &&& if sign_bits(a) != sign_bits(b) {
        sign_bits(a)
    } else if !sign_bits(a) {
        a < b
    } else {
        b < a
    }
}

pub open spec fn le_bits(a: u64, b: u64) -> bool {
    lt_bits(a, b) || eq_bits(a, b)
}

pub open spec fn gt_bits(a: u64, b: u64) -> bool {
    lt_bits(b, a)
}

pub open spec fn ge_bits(a: u64, b: u64) -> bool {
    le_bits(b, a)
}

/// IEEE-754 negation: the sign bit flips, everything else is untouched.
pub open spec fn neg_bits(a: u64) -> u64 {
    a ^ SIGN_MASK
}

pub fn num_is_nan(a: u64) -> (r: bool)
    ensures
        r == is_nan_bits(a),
{
    a & EXPONENT_MASK == EXPONENT_MASK && a & SIGNIFICAND_MASK != 0
}

pub fn num_is_zero(a: u64) -> (r: bool)
    ensures
        r == is_zero_bits(a),
{
    a & !SIGN_MASK == 0
}

pub fn num_eq(a: u64, b: u64) -> (r: bool)
    ensures
        r == eq_bits(a, b),
{
    !num_is_nan(a) && !num_is_nan(b) && (a == b || (num_is_zero(a) && num_is_zero(b)))
}

pub fn num_lt(a: u64, b: u64) -> (r: bool)
    ensures
        r == lt_bits(a, b),
{
    if num_is_nan(a) || num_is_nan(b) || (num_is_zero(a) && num_is_zero(b)) {
        false
    } else {
        let sa = a & SIGN_MASK != 0;
        let sb = b & SIGN_MASK != 0;
        if sa != sb {
            sa
        } else if !sa {
            a < b
        } else {
            b < a
        }
    }
}

pub fn num_le(a: u64, b: u64) -> (r: bool)
    ensures
        r == le_bits(a, b),
{
    num_lt(a, b) || num_eq(a, b)
}

pub fn num_gt(a: u64, b: u64) -> (r: bool)
    ensures
        r == gt_bits(a, b),
{
    num_lt(b, a)
}

pub fn num_ge(a: u64, b: u64) -> (r: bool)
    ensures
        r == ge_bits(a, b),
{
    num_le(b, a)
}

pub fn num_neg(a: u64) -> (r: u64)
    ensures
        r == neg_bits(a),
{
    a ^ SIGN_MASK
}

/// The bit pattern of the IEEE-754 sum of the two values.
pub uninterp spec fn add_bits(a: u64, b: u64) -> u64;

/// The bit pattern of the IEEE-754 difference of the two values.
pub uninterp spec fn sub_bits(a: u64, b: u64) -> u64;

/// The bit pattern of the IEEE-754 product of the two values.
pub uninterp spec fn mul_bits(a: u64, b: u64) -> u64;

/// The bit pattern of the IEEE-754 quotient of the two values (division by
/// zero gives an infinity or NaN, never an error).
pub uninterp spec fn div_bits(a: u64, b: u64) -> u64;

/// Relies on const_soft_float::soft_f64::SoftF64::add: IEEE-754 binary64
/// addition, a pure function of the two bit patterns.
#[verifier::external_body]
pub(crate) fn num_add(a: u64, b: u64) -> (r: u64)
    ensures
        r == add_bits(a, b),
{
    SoftF64::from_bits(a).add(SoftF64::from_bits(b)).to_bits()
}

/// Relies on const_soft_float::soft_f64::SoftF64::sub: IEEE-754 binary64
/// subtraction, a pure function of the two bit patterns.
#[verifier::external_body]
pub(crate) fn num_sub(a: u64, b: u64) -> (r: u64)
    ensures
        r == sub_bits(a, b),
{
    SoftF64::from_bits(a).sub(SoftF64::from_bits(b)).to_bits()
}

/// Relies on const_soft_float::soft_f64::SoftF64::mul: IEEE-754 binary64
/// multiplication, a pure function of the two bit patterns.
#[verifier::external_body]
pub(crate) fn num_mul(a: u64, b: u64) -> (r: u64)
    ensures
        r == mul_bits(a, b),
{
    SoftF64::from_bits(a).mul(SoftF64::from_bits(b)).to_bits()
}

/// Relies on const_soft_float::soft_f64::SoftF64::div: IEEE-754 binary64
/// division, a pure function of the two bit patterns.
#[verifier::external_body]
pub(crate) fn num_div(a: u64, b: u64) -> (r: u64)
    ensures
        r == div_bits(a, b),
{
    SoftF64::from_bits(a).div(SoftF64::from_bits(b)).to_bits()
}

/// Text made of digits and at most one decimal point, with at least one
/// digit: the shape of every number lexeme the scanner builds.
pub open spec fn is_number_text(s: Seq<char>) -> bool {
    &&& s.len() > 0
    &&& forall|k: int| 0 <= k < s.len() ==> ('0' <= #[trigger] s[k] <= '9' || s[k] == '.')
    &&& exists|k: int| 0 <= k < s.len() && '0' <= #[trigger] s[k] <= '9'
    &&& forall|k1: int, k2: int|
        0 <= k1 < k2 < s.len() && #[trigger] s[k1] == '.' ==> #[trigger] s[k2] != '.'
}

/// The bit pattern that the standard decimal-to-binary64 conversion gives
/// for a text of digits with at most one decimal point.
pub uninterp spec fn parse_bits(s: Seq<char>) -> u64;

/// Relies on str::parse (core's FromStr for the 64-bit float), reading the
/// bits out through const_soft_float::soft_f64::SoftF64: the documented
/// grammar accepts any text of digits with at most one decimal point and
/// at least one digit, and the value is a function of the text alone.
#[verifier::external_body]
pub(crate) fn num_parse(s: &str) -> (r: Option<u64>)
    ensures
        is_number_text(s@) ==> r == Some(parse_bits(s@)),
{
    match s.parse() {
        Ok(v) => Some(SoftF64(v).to_bits()),
        Err(_) => None,
    }
}

/// The decimal text that the standard formatter prints for the value with
/// this bit pattern (the shortest text that reads back as the same value).
pub uninterp spec fn bits_text(a: u64) -> Seq<char>;

/// Relies on the standard Display formatting of the 64-bit float, reached
/// through const_soft_float::soft_f64::SoftF64's public field: the printed
/// text is a function of the bit pattern alone.
#[verifier::external_body]
pub(crate) fn num_text(a: u64) -> (r: String)
    ensures
        r@ == bits_text(a),
{
    format!("{}", SoftF64::from_bits(a).0)
}

} // verus!
