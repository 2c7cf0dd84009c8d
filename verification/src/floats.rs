//! Double-precision values carried as IEEE-754 bit patterns.
//!
//! The interpreter stores every float as the `u64` bit pattern of an IEEE-754
//! binary64 value.  Sign tests, equality and ordering are plain bit
//! arithmetic and are verified here; rounding arithmetic, conversions and
//! decimal text go through `rustc_apfloat`, whose `ieee::Double` type
//! implements IEEE-754 binary64 on integer limbs.
use vstd::prelude::*;

use rustc_apfloat::Float;
use rustc_apfloat::ieee::Double;

verus! {

pub const F64_SIGN_BIT: u64 = 0x8000_0000_0000_0000;

pub const F64_EXP_MASK: u64 = 0x7ff0_0000_0000_0000;

/// The bit pattern encodes a NaN: all exponent bits set and a non-zero
/// mantissa.
pub open spec fn f64_is_nan(b: u64) -> bool {
    (b & !F64_SIGN_BIT) > F64_EXP_MASK
}

/// The bit pattern encodes positive or negative zero.
pub open spec fn f64_is_zero(b: u64) -> bool {
    (b & !F64_SIGN_BIT) == 0
}

/// IEEE-754 equality of the two encoded values: never true for NaN, and the
/// two zeroes are equal; all other values are equal exactly when their bit
/// patterns are.
pub open spec fn f64_eq(a: u64, b: u64) -> bool {
    &&& !f64_is_nan(a)
    &&& !f64_is_nan(b)
    &&& (a == b || (f64_is_zero(a) && f64_is_zero(b)))
}

/// The magnitude bits, with the sign dropped.
pub open spec fn f64_mag(b: u64) -> u64 {
    b & !F64_SIGN_BIT
}

/// The sign bit is set.
pub open spec fn f64_is_neg(b: u64) -> bool {
    (b & F64_SIGN_BIT) != 0
}

/// IEEE-754 `<` of the two encoded values: false when either is NaN, the two
/// zeroes are not below one another, and otherwise sign-magnitude order.
pub open spec fn f64_lt(a: u64, b: u64) -> bool {
    &&& !f64_is_nan(a)
    &&& !f64_is_nan(b)
    &&& !(f64_is_zero(a) && f64_is_zero(b))
    &&& if f64_is_neg(a) != f64_is_neg(b) {
        f64_is_neg(a)
    } else if f64_is_neg(a) {
        f64_mag(a) > f64_mag(b)
    } else {
        f64_mag(a) < f64_mag(b)
    }
}

/// IEEE-754 `<=`: below or equal; false when either is NaN.
pub open spec fn f64_le(a: u64, b: u64) -> bool {
    f64_lt(a, b) || f64_eq(a, b)
}

/// IEEE-754 negation flips the sign bit and nothing else.
pub open spec fn f64_neg(b: u64) -> u64 {
    b ^ F64_SIGN_BIT
}

pub fn f64_bits_is_nan(b: u64) -> (r: bool)
    ensures
        r == f64_is_nan(b),
{
    (b & !F64_SIGN_BIT) > F64_EXP_MASK
}

pub fn f64_bits_is_zero(b: u64) -> (r: bool)
    ensures
        r == f64_is_zero(b),
{
    (b & !F64_SIGN_BIT) == 0
}

pub fn f64_bits_eq(a: u64, b: u64) -> (r: bool)
    ensures
        r == f64_eq(a, b),
{
    !f64_bits_is_nan(a) && !f64_bits_is_nan(b) && (a == b || (f64_bits_is_zero(a)
        && f64_bits_is_zero(b)))
}

pub fn f64_bits_lt(a: u64, b: u64) -> (r: bool)
    ensures
        r == f64_lt(a, b),
{
    if f64_bits_is_nan(a) || f64_bits_is_nan(b) {
        false
    } else if f64_bits_is_zero(a) && f64_bits_is_zero(b) {
        false
    } else {
        let a_neg = (a & F64_SIGN_BIT) != 0;
        let b_neg = (b & F64_SIGN_BIT) != 0;
        if a_neg != b_neg {
            a_neg
        } else if a_neg {
            (a & !F64_SIGN_BIT) > (b & !F64_SIGN_BIT)
        } else {
            (a & !F64_SIGN_BIT) < (b & !F64_SIGN_BIT)
        }
    }
}

pub fn f64_bits_le(a: u64, b: u64) -> (r: bool)
    ensures
        r == f64_le(a, b),
{
    f64_bits_lt(a, b) || f64_bits_eq(a, b)
}

pub fn f64_bits_neg(b: u64) -> (r: u64)
    ensures
        r == f64_neg(b),
{
    b ^ F64_SIGN_BIT
}

pub uninterp spec fn f64_add(a: u64, b: u64) -> u64;

pub uninterp spec fn f64_sub(a: u64, b: u64) -> u64;

pub uninterp spec fn f64_mul(a: u64, b: u64) -> u64;

pub uninterp spec fn f64_div(a: u64, b: u64) -> u64;

pub uninterp spec fn f64_rem(a: u64, b: u64) -> u64;

pub uninterp spec fn f64_of_int(i: i64) -> u64;

pub uninterp spec fn f64_to_int_sat(b: u64) -> i64;

pub uninterp spec fn f64_to_byte_sat(b: u64) -> u8;

pub uninterp spec fn f64_of_text(s: Seq<char>) -> Option<u64>;

pub uninterp spec fn f64_text(b: u64) -> Seq<char>;

/// Relies on `rustc_apfloat::ieee::Double`'s `Add`: IEEE-754 addition of the
/// encoded values, rounding to nearest, ties to even.
#[verifier::external_body]
pub fn f64_bits_add(a: u64, b: u64) -> (r: u64)
    ensures
        r == f64_add(a, b),
{
    (Double::from_bits(a as u128) + Double::from_bits(b as u128)).value.to_bits() as u64
}

/// Relies on `rustc_apfloat::ieee::Double`'s `Sub`: IEEE-754 subtraction,
/// rounding to nearest, ties to even.
#[verifier::external_body]
pub fn f64_bits_sub(a: u64, b: u64) -> (r: u64)
    ensures
        r == f64_sub(a, b),
{
    (Double::from_bits(a as u128) - Double::from_bits(b as u128)).value.to_bits() as u64
}

/// Relies on `rustc_apfloat::ieee::Double`'s `Mul`: IEEE-754 multiplication,
/// rounding to nearest, ties to even.
#[verifier::external_body]
pub fn f64_bits_mul(a: u64, b: u64) -> (r: u64)
    ensures
        r == f64_mul(a, b),
{
    (Double::from_bits(a as u128) * Double::from_bits(b as u128)).value.to_bits() as u64
}

/// Relies on `rustc_apfloat::ieee::Double`'s `Div`: IEEE-754 division,
/// rounding to nearest, ties to even; a zero divisor gives an infinity.
#[verifier::external_body]
pub fn f64_bits_div(a: u64, b: u64) -> (r: u64)
    ensures
        r == f64_div(a, b),
{
    (Double::from_bits(a as u128) / Double::from_bits(b as u128)).value.to_bits() as u64
}

/// Relies on `rustc_apfloat::ieee::Double`'s `Rem` (`c_fmod`): the remainder
/// with the sign of the dividend, as `%` on doubles computes it.
#[verifier::external_body]
pub fn f64_bits_rem(a: u64, b: u64) -> (r: u64)
    ensures
        r == f64_rem(a, b),
{
    (Double::from_bits(a as u128) % Double::from_bits(b as u128)).value.to_bits() as u64
}

/// Relies on `rustc_apfloat::Float::from_i128`: the double nearest the given
/// integer, rounding to nearest, ties to even.
#[verifier::external_body]
pub fn f64_bits_of_int(i: i64) -> (r: u64)
    ensures
        r == f64_of_int(i),
{
    Double::from_i128(i as i128).value.to_bits() as u64
}

/// Relies on `rustc_apfloat::Float::to_i128`: conversion toward zero,
/// saturating at the 64-bit bounds, with zero for NaN.
#[verifier::external_body]
pub fn f64_bits_to_int_sat(b: u64) -> (r: i64)
    ensures
        r == f64_to_int_sat(b),
{
    Double::from_bits(b as u128).to_i128(64).value as i64
}

/// Relies on `rustc_apfloat::Float::to_u128`: conversion toward zero,
/// saturating at the 8-bit bounds, with zero for NaN.
#[verifier::external_body]
pub fn f64_bits_to_byte_sat(b: u64) -> (r: u8)
    ensures
        r == f64_to_byte_sat(b),
{
    Double::from_bits(b as u128).to_u128(8).value as u8
}

/// Relies on `rustc_apfloat::ieee::Double`'s `FromStr`: parses decimal text
/// to the nearest double, ties to even, and rejects text outside its float
/// grammar.
#[verifier::external_body]
pub fn f64_bits_of_text(s: &str) -> (r: Option<u64>)
    requires
        s@.len() < 0x8000_0000,
    ensures
        r == f64_of_text(s@),
{
    match s.parse::<Double>() {
        Ok(d) => Some(d.to_bits() as u64),
        Err(_) => None,
    }
}

/// Relies on `rustc_apfloat::ieee::Double`'s `Display`: decimal text with
/// enough digits to read the same value back; the result depends on the bit
/// pattern alone.
#[verifier::external_body]
pub fn f64_bits_text(b: u64) -> (r: String)
    ensures
        r@ == f64_text(b),
{
    format!("{}", Double::from_bits(b as u128))
}

} // verus!
