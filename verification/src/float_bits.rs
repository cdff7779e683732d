//! IEEE-754 binary64 arithmetic on bit patterns.
//!
//! A `u64` throughout this crate is the bit pattern of the double it
//! encodes. The four operations the tree recurrence needs are provided by
//! `rustc_apfloat`, a pure software implementation of IEEE-754 whose
//! results for addition, subtraction, multiplication and comparison (round
//! to nearest, ties to even) coincide with hardware double arithmetic.
//! Each operation is a pure function of its operand bits, so its result is
//! given a name (an uninterpreted spec function) that the rest of the crate
//! reasons with.

use vstd::prelude::*;
use rustc_apfloat::Float;

verus! {

/// Bit pattern of the IEEE-754 double sum of the doubles encoded by `a` and `b`.
pub uninterp spec fn add_bits(a: u64, b: u64) -> u64;

/// Bit pattern of the IEEE-754 double difference of the doubles encoded by `a` and `b`.
pub uninterp spec fn sub_bits(a: u64, b: u64) -> u64;

/// Bit pattern of the IEEE-754 double product of the doubles encoded by `a` and `b`.
pub uninterp spec fn mul_bits(a: u64, b: u64) -> u64;

/// Whether the double encoded by `a` compares strictly less than the one
/// encoded by `b` under IEEE-754 ordering (false whenever either is NaN).
pub uninterp spec fn lt_bits(a: u64, b: u64) -> bool;

/// Bit pattern of the double 0.0.
pub const F64_ZERO_BITS: u64 = 0;

/// Bit pattern of the double 1.0.
pub const F64_ONE_BITS: u64 = 0x3FF0_0000_0000_0000;

/// Relies on `rustc_apfloat::ieee::Double`'s `Add` impl: IEEE-754 binary64
/// addition, rounding to nearest even, as a pure function of the operand bits.
#[verifier::external_body]
pub fn add_f(a: u64, b: u64) -> (r: u64)
    ensures
        r == add_bits(a, b),
{
    let x = rustc_apfloat::ieee::Double::from_bits(a as u128);
    let y = rustc_apfloat::ieee::Double::from_bits(b as u128);
    (x + y).value.to_bits() as u64
}

/// Relies on `rustc_apfloat::ieee::Double`'s `Sub` impl: IEEE-754 binary64
/// subtraction, rounding to nearest even, as a pure function of the operand bits.
#[verifier::external_body]
pub fn sub_f(a: u64, b: u64) -> (r: u64)
    ensures
        r == sub_bits(a, b),
{
    let x = rustc_apfloat::ieee::Double::from_bits(a as u128);
    let y = rustc_apfloat::ieee::Double::from_bits(b as u128);
    (x - y).value.to_bits() as u64
}

/// Relies on `rustc_apfloat::ieee::Double`'s `Mul` impl: IEEE-754 binary64
/// multiplication, rounding to nearest even, as a pure function of the operand bits.
#[verifier::external_body]
pub fn mul_f(a: u64, b: u64) -> (r: u64)
    ensures
        r == mul_bits(a, b),
{
    let x = rustc_apfloat::ieee::Double::from_bits(a as u128);
    let y = rustc_apfloat::ieee::Double::from_bits(b as u128);
    (x * y).value.to_bits() as u64
}

/// Relies on `rustc_apfloat::ieee::Double`'s `PartialOrd` impl: IEEE-754
/// ordered comparison (NaN compares less-than nothing), as a pure function
/// of the operand bits.
#[verifier::external_body]
pub fn lt_f(a: u64, b: u64) -> (r: bool)
    ensures
        r == lt_bits(a, b),
{
    let x = rustc_apfloat::ieee::Double::from_bits(a as u128);
    let y = rustc_apfloat::ieee::Double::from_bits(b as u128);
    x < y
}

} // verus!
