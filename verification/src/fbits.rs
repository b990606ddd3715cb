//! IEEE binary32 values carried as `u32` bit patterns.
//!
//! The algorithm stores every distance and every channel value as the
//! bit pattern of an IEEE binary32 number.  Sign tests, comparisons,
//! absolute value and negation are exact functions of the bit pattern
//! and are implemented and verified here directly.  The four inexact
//! arithmetic operations (add, sub, mul, div) and the conversion from
//! an integer are delegated to a software IEEE implementation behind
//! trusted wrappers; each result is named by an uninterpreted spec
//! function of the operand bit patterns alone.

use vstd::prelude::*;

verus! {

/// Bit pattern of 0.0f32.
pub const ZERO_BITS: u32 = 0x0000_0000;
/// Bit pattern of 1.0f32.
pub const ONE_BITS: u32 = 0x3F80_0000;
/// Bit pattern of 2.0f32.
pub const TWO_BITS: u32 = 0x4000_0000;
/// Bit pattern of 1.0e6f32, the sentinel distance meaning "unresolved".
pub const MAX_BITS: u32 = 0x4974_2400;
/// Bit pattern of f32 machine epsilon, 2^-23.
pub const EPSILON_BITS: u32 = 0x3400_0000;

/// Sign bit of a binary32 bit pattern (0 or 1).
pub open spec fn f32_sign(b: u32) -> u32 {
    b / 0x8000_0000
}

/// Biased exponent field of a binary32 bit pattern (0..=255).
pub open spec fn f32_exp(b: u32) -> u32 {
    (b / 0x0080_0000) % 0x100
}

/// Fraction field of a binary32 bit pattern (23 bits).
pub open spec fn f32_frac(b: u32) -> u32 {
    b % 0x0080_0000
}

/// Magnitude: the bit pattern with the sign bit cleared.
pub open spec fn f32_mag(b: u32) -> u32 {
    b % 0x8000_0000
}

/// Whether the bit pattern encodes a NaN.
pub open spec fn f32_is_nan(b: u32) -> bool {
    f32_exp(b) == 255 && f32_frac(b) != 0
}

/// Whether the bit pattern encodes a zero (either sign).
pub open spec fn f32_is_zero(b: u32) -> bool {
    f32_mag(b) == 0
}

/// IEEE `<` on encoded values.  For finite and infinite values of one
/// sign the encoding is monotone in the magnitude bits, so the order
/// of the encoded values is the integer order of the magnitudes; any
/// comparison involving a NaN is false; the two zeros are equal.
pub open spec fn f32_lt(a: u32, b: u32) -> bool {
    if f32_is_nan(a) || f32_is_nan(b) {
        false
    } else if f32_sign(a) != f32_sign(b) {
        f32_sign(a) == 1 && !(f32_is_zero(a) && f32_is_zero(b))
    } else if f32_sign(a) == 0 {
        f32_mag(a) < f32_mag(b)
    } else {
        f32_mag(b) < f32_mag(a)
    }
}

/// IEEE `==` on encoded values: equal bit patterns, or the two zeros;
/// never true of a NaN.
pub open spec fn f32_eq(a: u32, b: u32) -> bool {
    !f32_is_nan(a) && !f32_is_nan(b) && (a == b || (f32_is_zero(a) && f32_is_zero(b)))
}

/// IEEE `<=` on encoded values.
pub open spec fn f32_le(a: u32, b: u32) -> bool {
    f32_lt(a, b) || f32_eq(a, b)
}

/// IEEE negation: the bit pattern with the sign bit flipped.
pub open spec fn f32_neg(b: u32) -> u32 {
    if b >= 0x8000_0000 {
        (b - 0x8000_0000) as u32
    } else {
        (b + 0x8000_0000) as u32
    }
}

/// IEEE `<` on encoded values.
pub fn float_lt(a: u32, b: u32) -> (r: bool)
    ensures
        r == f32_lt(a, b),
{
    let ea: u32 = (a / 0x0080_0000) % 0x100;
    let eb: u32 = (b / 0x0080_0000) % 0x100;
    if (ea == 255 && a % 0x0080_0000 != 0) || (eb == 255 && b % 0x0080_0000 != 0) {
        return false;
    }
    let sa: u32 = a / 0x8000_0000;
    let sb: u32 = b / 0x8000_0000;
    let ma: u32 = a % 0x8000_0000;
    let mb: u32 = b % 0x8000_0000;
    if sa != sb {
        sa == 1 && !(ma == 0 && mb == 0)
    } else if sa == 0 {
        ma < mb
    } else {
        mb < ma
    }
}

/// IEEE `<=` on encoded values.
pub fn float_le(a: u32, b: u32) -> (r: bool)
    ensures
        r == f32_le(a, b),
{
    let ea: u32 = (a / 0x0080_0000) % 0x100;
    let eb: u32 = (b / 0x0080_0000) % 0x100;
    if (ea == 255 && a % 0x0080_0000 != 0) || (eb == 255 && b % 0x0080_0000 != 0) {
        return false;
    }
    if a == b || (a % 0x8000_0000 == 0 && b % 0x8000_0000 == 0) {
        return true;
    }
    float_lt(a, b)
}

/// IEEE absolute value: the bit pattern with the sign bit cleared.
pub fn float_abs(b: u32) -> (r: u32)
    ensures
        r == f32_mag(b),
{
    b % 0x8000_0000
}

/// IEEE negation: the bit pattern with the sign bit flipped.
pub fn float_neg(b: u32) -> (r: u32)
    ensures
        r == f32_neg(b),
{
    if b >= 0x8000_0000 {
        b - 0x8000_0000
    } else {
        b + 0x8000_0000
    }
}

/// Whether the bit pattern encodes a zero of either sign.
pub fn float_is_zero(b: u32) -> (r: bool)
    ensures
        r == f32_is_zero(b),
{
    b % 0x8000_0000 == 0
}

/// The smaller of two encoded values under the IEEE order; when
/// neither is strictly smaller (equal values, or a NaN) the first.
pub open spec fn f32_min2(a: u32, b: u32) -> u32 {
    if f32_lt(b, a) {
        b
    } else {
        a
    }
}

/// The smaller of two encoded values under the IEEE order; when
/// neither is strictly smaller (equal values, or a NaN) the first.
pub fn float_min(a: u32, b: u32) -> (r: u32)
    ensures
        r == f32_min2(a, b),
{
    if float_lt(b, a) {
        b
    } else {
        a
    }
}

/// IEEE binary32 sum of two encoded values, round to nearest even.
pub uninterp spec fn f32_add(a: u32, b: u32) -> u32;

/// IEEE binary32 difference of two encoded values, round to nearest even.
pub uninterp spec fn f32_sub(a: u32, b: u32) -> u32;

/// IEEE binary32 product of two encoded values, round to nearest even.
pub uninterp spec fn f32_mul(a: u32, b: u32) -> u32;

/// IEEE binary32 quotient of two encoded values, round to nearest even.
pub uninterp spec fn f32_div(a: u32, b: u32) -> u32;

/// The binary32 value nearest to the integer argument, round to nearest even.
pub uninterp spec fn f32_of_i32(x: i32) -> u32;

/// Relies on rustc_apfloat::ieee::Single (Float::add_r): IEEE binary32
/// addition, round to nearest even, a function of the two bit patterns.
#[verifier::external_body]
pub(crate) fn float_add(a: u32, b: u32) -> (r: u32)
    ensures
        r == f32_add(a, b),
{
    let x = <rustc_apfloat::ieee::Single as rustc_apfloat::Float>::from_bits(a as u128);
    let y = <rustc_apfloat::ieee::Single as rustc_apfloat::Float>::from_bits(b as u128);
    let s = rustc_apfloat::Float::add_r(x, y, rustc_apfloat::Round::NearestTiesToEven).value;
    rustc_apfloat::Float::to_bits(s) as u32
}

/// Relies on rustc_apfloat::ieee::Single (Float::sub_r): IEEE binary32
/// subtraction, round to nearest even, a function of the two bit patterns.
#[verifier::external_body]
pub(crate) fn float_sub(a: u32, b: u32) -> (r: u32)
    ensures
        r == f32_sub(a, b),
{
    let x = <rustc_apfloat::ieee::Single as rustc_apfloat::Float>::from_bits(a as u128);
    let y = <rustc_apfloat::ieee::Single as rustc_apfloat::Float>::from_bits(b as u128);
    let s = rustc_apfloat::Float::sub_r(x, y, rustc_apfloat::Round::NearestTiesToEven).value;
    rustc_apfloat::Float::to_bits(s) as u32
}

/// Relies on rustc_apfloat::ieee::Single (Float::mul_r): IEEE binary32
/// multiplication, round to nearest even, a function of the two bit patterns.
#[verifier::external_body]
pub(crate) fn float_mul(a: u32, b: u32) -> (r: u32)
    ensures
        r == f32_mul(a, b),
{
    let x = <rustc_apfloat::ieee::Single as rustc_apfloat::Float>::from_bits(a as u128);
    let y = <rustc_apfloat::ieee::Single as rustc_apfloat::Float>::from_bits(b as u128);
    let s = rustc_apfloat::Float::mul_r(x, y, rustc_apfloat::Round::NearestTiesToEven).value;
    rustc_apfloat::Float::to_bits(s) as u32
}

/// Relies on rustc_apfloat::ieee::Single (Float::div_r): IEEE binary32
/// division, round to nearest even, a function of the two bit patterns.
#[verifier::external_body]
pub(crate) fn float_div(a: u32, b: u32) -> (r: u32)
    ensures
        r == f32_div(a, b),
{
    let x = <rustc_apfloat::ieee::Single as rustc_apfloat::Float>::from_bits(a as u128);
    let y = <rustc_apfloat::ieee::Single as rustc_apfloat::Float>::from_bits(b as u128);
    let s = rustc_apfloat::Float::div_r(x, y, rustc_apfloat::Round::NearestTiesToEven).value;
    rustc_apfloat::Float::to_bits(s) as u32
}

/// Relies on rustc_apfloat::ieee::Single (Float::from_i128_r): the
/// binary32 value nearest to an integer, round to nearest even, a
/// function of the integer alone.
#[verifier::external_body]
pub(crate) fn float_of_i32(x: i32) -> (r: u32)
    ensures
        r == f32_of_i32(x),
{
    let s = <rustc_apfloat::ieee::Single as rustc_apfloat::Float>::from_i128_r(
        x as i128,
        rustc_apfloat::Round::NearestTiesToEven,
    ).value;
    rustc_apfloat::Float::to_bits(s) as u32
}

} // verus!
