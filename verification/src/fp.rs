//! Arithmetic on IEEE-754 double-precision values, carried as raw bit
//! patterns (`u64`) so that the rest of the crate can be verified. The
//! operations themselves are performed by `rustc_apfloat`, a software
//! implementation of IEEE-754 arithmetic; each operation's result is named
//! by an uninterpreted spec function of the operand bits, which is sound
//! because IEEE-754 arithmetic is a pure function of the operand bits.

use vstd::prelude::*;
use rustc_apfloat::Float;

verus! {

/// Bit pattern of positive zero.
pub const ZERO_BITS: u64 = 0;

/// Bit pattern of the machine epsilon for doubles (2^-52).
pub const EPSILON_BITS: u64 = 0x3CB0000000000000;

/// Bit pattern of the negated machine epsilon for doubles (-2^-52).
pub const NEG_EPSILON_BITS: u64 = 0xBCB0000000000000;

/// The bits of the rounded sum of the doubles named by `a` and `b`.
pub uninterp spec fn add_bits(a: u64, b: u64) -> u64;

/// The bits of the rounded difference of the doubles named by `a` and `b`.
pub uninterp spec fn sub_bits(a: u64, b: u64) -> u64;

/// The bits of the rounded product of the doubles named by `a` and `b`.
pub uninterp spec fn mul_bits(a: u64, b: u64) -> u64;

/// The bits of the rounded quotient of the doubles named by `a` and `b`.
pub uninterp spec fn div_bits(a: u64, b: u64) -> u64;

/// Whether the double named by `a` compares strictly below the one named
/// by `b`; false whenever either is a NaN.
pub uninterp spec fn lt_bits(a: u64, b: u64) -> bool;

/// The bits of the double nearest to the count `n`.
pub uninterp spec fn count_bits(n: nat) -> u64;

/// Relies on `rustc_apfloat`: `Add` on `ieee::Double` is IEEE-754 addition,
/// rounding to nearest even, a function of the operand bits alone.
#[verifier::external_body]
pub(crate) fn f_add(a: u64, b: u64) -> (r: u64)
    ensures
        r == add_bits(a, b),
{
    let x = rustc_apfloat::ieee::Double::from_bits(a as u128);
    let y = rustc_apfloat::ieee::Double::from_bits(b as u128);
    (x + y).value.to_bits() as u64
}

/// Relies on `rustc_apfloat`: `Sub` on `ieee::Double` is IEEE-754
/// subtraction, rounding to nearest even, a function of the operand bits
/// alone.
#[verifier::external_body]
pub(crate) fn f_sub(a: u64, b: u64) -> (r: u64)
    ensures
        r == sub_bits(a, b),
{
    let x = rustc_apfloat::ieee::Double::from_bits(a as u128);
    let y = rustc_apfloat::ieee::Double::from_bits(b as u128);
    (x - y).value.to_bits() as u64
}

/// Relies on `rustc_apfloat`: `Mul` on `ieee::Double` is IEEE-754
/// multiplication, rounding to nearest even, a function of the operand bits
/// alone.
#[verifier::external_body]
pub(crate) fn f_mul(a: u64, b: u64) -> (r: u64)
    ensures
        r == mul_bits(a, b),
{
    let x = rustc_apfloat::ieee::Double::from_bits(a as u128);
    let y = rustc_apfloat::ieee::Double::from_bits(b as u128);
    (x * y).value.to_bits() as u64
}

/// Relies on `rustc_apfloat`: `Div` on `ieee::Double` is IEEE-754 division,
/// rounding to nearest even, a function of the operand bits alone; division
/// by zero yields an infinity or a NaN rather than failing.
#[verifier::external_body]
pub(crate) fn f_div(a: u64, b: u64) -> (r: u64)
    ensures
        r == div_bits(a, b),
{
    let x = rustc_apfloat::ieee::Double::from_bits(a as u128);
    let y = rustc_apfloat::ieee::Double::from_bits(b as u128);
    (x / y).value.to_bits() as u64
}

/// Relies on `rustc_apfloat`: `PartialOrd` on `ieee::Double` is the IEEE-754
/// comparison, a function of the operand bits alone, with NaN comparing
/// below nothing and above nothing.
#[verifier::external_body]
pub(crate) fn f_lt(a: u64, b: u64) -> (r: bool)
    ensures
        r == lt_bits(a, b),
{
    let x = rustc_apfloat::ieee::Double::from_bits(a as u128);
    let y = rustc_apfloat::ieee::Double::from_bits(b as u128);
    x < y
}

/// Relies on `rustc_apfloat`: `Float::from_u128` converts an unsigned count
/// to the nearest double, rounding to nearest even, a function of the count
/// alone.
#[verifier::external_body]
pub(crate) fn f_of_count(n: usize) -> (r: u64)
    ensures
        r == count_bits(n as nat),
{
    rustc_apfloat::ieee::Double::from_u128(n as u128).value.to_bits() as u64
}

} // verus!
