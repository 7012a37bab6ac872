//! IEEE-754 double-precision values carried as raw bit patterns.
//!
//! The crate stores every physical quantity as the 64 bit pattern of an
//! IEEE-754 double.  Arithmetic on such patterns goes through a small set of
//! trusted wrappers over `rustc_apfloat`, a software implementation of
//! IEEE-754 binary arithmetic; each wrapper's result is named by an
//! uninterpreted spec function, so that contracts elsewhere can pin down the
//! exact sequence of operations behind a value.  Sign manipulation and
//! classification are pure bit tests and are verified directly.

use rustc_apfloat::Float;
use vstd::prelude::*;

verus! {

/// Bit pattern of `+0.0`.
pub const F64_ZERO: u64 = 0;

/// Bit pattern of `1.0`.
pub const F64_ONE: u64 = 0x3FF0_0000_0000_0000;

/// Bit pattern of `2.0`.
pub const F64_TWO: u64 = 0x4000_0000_0000_0000;

/// Largest bit pattern that encodes a positive finite double.
pub const F64_MAX_FINITE: u64 = 0x7FEF_FFFF_FFFF_FFFF;

/// Sign bit of a double's bit pattern.
pub const F64_SIGN_BIT: u64 = 0x8000_0000_0000_0000;

/// The bit patterns of the strictly positive finite doubles are exactly
/// those between the smallest positive subnormal (pattern 1) and the largest
/// finite double: the sign bit is clear and the exponent field is not all
/// ones.
pub open spec fn is_pos_finite(bits: u64) -> bool {
    1 <= bits <= F64_MAX_FINITE
}

/// Whether `bits` encodes a strictly positive finite double.
pub fn pos_finite(bits: u64) -> (r: bool)
    ensures
        r == is_pos_finite(bits),
{
    bits >= 1 && bits <= F64_MAX_FINITE
}

/// The bit pattern of the negation of the double encoded by `a`: the sign
/// bit is flipped.
pub open spec fn neg_bits(a: u64) -> u64 {
    a ^ F64_SIGN_BIT
}

/// Negate a double given as its bit pattern.
pub fn fneg(a: u64) -> (r: u64)
    ensures
        r == neg_bits(a),
{
    a ^ F64_SIGN_BIT
}

/// The bit pattern that IEEE-754 addition (round to nearest, ties to even)
/// returns on the doubles encoded by `a` and `b`.
pub uninterp spec fn add_bits(a: u64, b: u64) -> u64;

/// The bit pattern that IEEE-754 multiplication (round to nearest, ties to
/// even) returns on the doubles encoded by `a` and `b`.
pub uninterp spec fn mul_bits(a: u64, b: u64) -> u64;

/// The bit pattern that IEEE-754 division (round to nearest, ties to even)
/// returns on the doubles encoded by `a` and `b`.
pub uninterp spec fn div_bits(a: u64, b: u64) -> u64;

/// The bit pattern of the double nearest to the integer `n` (round to
/// nearest, ties to even).
pub uninterp spec fn of_int_bits(n: u64) -> u64;

/// Relies on `rustc_apfloat::ieee::Double::add_r` with round to nearest,
/// ties to even: IEEE-754 addition of the doubles encoded by the two bit
/// patterns; the result depends on the two arguments alone.
#[verifier::external_body]
pub(crate) fn fadd(a: u64, b: u64) -> (r: u64)
    ensures
        r == add_bits(a, b),
{
    let x = rustc_apfloat::ieee::Double::from_bits(a as u128);
    let y = rustc_apfloat::ieee::Double::from_bits(b as u128);
    x.add_r(y, rustc_apfloat::Round::NearestTiesToEven).value.to_bits() as u64
}

/// Relies on `rustc_apfloat::ieee::Double::mul_r` with round to nearest,
/// ties to even: IEEE-754 multiplication of the doubles encoded by the two
/// bit patterns; the result depends on the two arguments alone.
#[verifier::external_body]
pub(crate) fn fmul(a: u64, b: u64) -> (r: u64)
    ensures
        r == mul_bits(a, b),
{
    let x = rustc_apfloat::ieee::Double::from_bits(a as u128);
    let y = rustc_apfloat::ieee::Double::from_bits(b as u128);
    x.mul_r(y, rustc_apfloat::Round::NearestTiesToEven).value.to_bits() as u64
}

/// Relies on `rustc_apfloat::ieee::Double::div_r` with round to nearest,
/// ties to even: IEEE-754 division of the doubles encoded by the two bit
/// patterns; the result depends on the two arguments alone.
#[verifier::external_body]
pub(crate) fn fdiv(a: u64, b: u64) -> (r: u64)
    ensures
        r == div_bits(a, b),
{
    let x = rustc_apfloat::ieee::Double::from_bits(a as u128);
    let y = rustc_apfloat::ieee::Double::from_bits(b as u128);
    x.div_r(y, rustc_apfloat::Round::NearestTiesToEven).value.to_bits() as u64
}

/// Relies on `rustc_apfloat::ieee::Double::from_u128_r` with round to
/// nearest, ties to even: the double nearest to the integer `n`; the result
/// depends on `n` alone.
#[verifier::external_body]
pub(crate) fn ffrom_int(n: u64) -> (r: u64)
    ensures
        r == of_int_bits(n),
{
    rustc_apfloat::ieee::Double::from_u128_r(n as u128, rustc_apfloat::Round::NearestTiesToEven)
        .value
        .to_bits() as u64
}

/// The series (harmonic) combination of two conductances given as bit
/// patterns: `a * b / (a + b)`, evaluated in IEEE-754 double arithmetic.
pub open spec fn series_bits(a: u64, b: u64) -> u64 {
    div_bits(mul_bits(a, b), add_bits(a, b))
}

/// Combine two half-cell conductances in series.
pub(crate) fn fseries(a: u64, b: u64) -> (r: u64)
    ensures
        r == series_bits(a, b),
{
    fdiv(fmul(a, b), fadd(a, b))
}

} // verus!
