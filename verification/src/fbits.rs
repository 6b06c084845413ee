//! IEEE 754 binary64 arithmetic over raw bit patterns.
//!
//! The engine stores every double-precision quantity as its bit pattern in a
//! `u64`. The arithmetic is done by `rustc_apfloat`, a software
//! implementation of IEEE 754 with round-to-nearest-even as its default
//! rounding; each operation is a pure function of the operand bit patterns,
//! named here by an uninterpreted spec function so that contracts can pin
//! every computed value exactly.

use vstd::prelude::*;
use rustc_apfloat::Float;
use rustc_apfloat::ieee::Double;

verus! {

/// Bit pattern of the double 0.0, the starting value of every running sum.
pub const ZERO_BITS: u64 = 0x0000_0000_0000_0000;

/// Bit pattern of the double 1.0.
pub const ONE_BITS: u64 = 0x3FF0_0000_0000_0000;

/// Bit pattern of the double 0.5.
pub const HALF_BITS: u64 = 0x3FE0_0000_0000_0000;

/// Bit pattern of the double 100.0, the slope rescaling divisor.
pub const HUNDRED_BITS: u64 = 0x4059_0000_0000_0000;

/// Bit pattern of the double 1000.0, the price scaling divisor.
pub const THOUSAND_BITS: u64 = 0x408F_4000_0000_0000;

/// Bit pattern of the double 100000.0, the time scaling divisor.
pub const HUNDRED_THOUSAND_BITS: u64 = 0x40F8_6A00_0000_0000;

/// Bits of the IEEE 754 binary64 sum of two doubles given by their bits.
pub uninterp spec fn add_bits(a: u64, b: u64) -> u64;

/// Bits of the IEEE 754 binary64 difference of two doubles given by their bits.
pub uninterp spec fn sub_bits(a: u64, b: u64) -> u64;

/// Bits of the IEEE 754 binary64 product of two doubles given by their bits.
pub uninterp spec fn mul_bits(a: u64, b: u64) -> u64;

/// Bits of the IEEE 754 binary64 quotient of two doubles given by their bits.
pub uninterp spec fn div_bits(a: u64, b: u64) -> u64;

/// Bits of the double nearest to an unsigned 64-bit integer.
pub uninterp spec fn from_u64_bits(x: u64) -> u64;

/// The unsigned 64-bit integer that a double, given by its bits, truncates to.
pub uninterp spec fn trunc_u64_of_bits(x: u64) -> u64;

/// Relies on rustc_apfloat::ieee::Double's `Add` (correctly rounded IEEE 754
/// addition, round to nearest even): the result bits depend on the operand
/// bits alone.
#[verifier::external_body]
pub(crate) fn f64_add(a: u64, b: u64) -> (r: u64)
    ensures
        r == add_bits(a, b),
{
    (Double::from_bits(a as u128) + Double::from_bits(b as u128)).value.to_bits() as u64
}

/// Relies on rustc_apfloat::ieee::Double's `Sub` (correctly rounded IEEE 754
/// subtraction, round to nearest even): the result bits depend on the operand
/// bits alone.
#[verifier::external_body]
pub(crate) fn f64_sub(a: u64, b: u64) -> (r: u64)
    ensures
        r == sub_bits(a, b),
{
    (Double::from_bits(a as u128) - Double::from_bits(b as u128)).value.to_bits() as u64
}

/// Relies on rustc_apfloat::ieee::Double's `Mul` (correctly rounded IEEE 754
/// multiplication, round to nearest even): the result bits depend on the
/// operand bits alone.
#[verifier::external_body]
pub(crate) fn f64_mul(a: u64, b: u64) -> (r: u64)
    ensures
        r == mul_bits(a, b),
{
    (Double::from_bits(a as u128) * Double::from_bits(b as u128)).value.to_bits() as u64
}

/// Relies on rustc_apfloat::ieee::Double's `Div` (correctly rounded IEEE 754
/// division, round to nearest even): the result bits depend on the operand
/// bits alone.
#[verifier::external_body]
pub(crate) fn f64_div(a: u64, b: u64) -> (r: u64)
    ensures
        r == div_bits(a, b),
{
    (Double::from_bits(a as u128) / Double::from_bits(b as u128)).value.to_bits() as u64
}

/// Relies on rustc_apfloat's `Float::from_u128` (unsigned integer to double,
/// round to nearest even): the result bits depend on the integer alone.
#[verifier::external_body]
pub(crate) fn f64_of_u64(x: u64) -> (r: u64)
    ensures
        r == from_u64_bits(x),
{
    Double::from_u128(x as u128).value.to_bits() as u64
}

/// Relies on rustc_apfloat's `Float::to_u128` (double to unsigned integer,
/// truncating toward zero, saturating at the width's bounds, zero for NaN):
/// the result depends on the double's bits alone.
#[verifier::external_body]
pub(crate) fn u64_of_f64(x: u64) -> (r: u64)
    ensures
        r == trunc_u64_of_bits(x),
{
    Double::from_bits(x as u128).to_u128(64).value as u64
}

} // verus!
