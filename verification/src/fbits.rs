//! IEEE-754 binary32 arithmetic on raw bit patterns.
//!
//! The mesh generator keeps every floating-point value as the `u32` that
//! holds its bit pattern, so that the whole computation is a mathematical
//! function of the input bits. Each arithmetic operation is carried out by an
//! outside software implementation (`rustc_apfloat` for the rounding
//! arithmetic and conversions, `libm` for the trigonometric functions), and
//! is named here by an uninterpreted spec function. The contracts promise
//! nothing about the numeric results beyond that they are functions of the
//! argument bits: that determinism is exactly what the layout proofs and the
//! reproducibility guarantee of the generator need.

use vstd::prelude::*;
use rustc_apfloat::Float;

verus! {

/// Bit pattern of pi in binary32.
pub const PI_BITS: u32 = 0x4049_0FDB;

/// Bit pattern of pi/2 in binary32.
pub const HALF_PI_BITS: u32 = 0x3FC9_0FDB;

/// Bit pattern of 2*pi in binary32 (double pi's pattern: exact).
pub const TWO_PI_BITS: u32 = 0x40C9_0FDB;

/// Bit pattern of 1.0 in binary32.
pub const ONE_BITS: u32 = 0x3F80_0000;

/// Bit pattern of the product of the values denoted by `a` and `b`,
/// rounded to nearest, ties to even.
pub uninterp spec fn mul_bits(a: u32, b: u32) -> u32;

/// Bit pattern of the quotient of the values denoted by `a` and `b`,
/// rounded to nearest, ties to even.
pub uninterp spec fn div_bits(a: u32, b: u32) -> u32;

/// Bit pattern of the difference of the values denoted by `a` and `b`,
/// rounded to nearest, ties to even.
pub uninterp spec fn sub_bits(a: u32, b: u32) -> u32;

/// Bit pattern of the sine of the value denoted by `a`.
pub uninterp spec fn sin_bits(a: u32) -> u32;

/// Bit pattern of the cosine of the value denoted by `a`.
pub uninterp spec fn cos_bits(a: u32) -> u32;

/// Bit pattern of the binary32 value nearest to the integer `x`.
pub uninterp spec fn from_u32_bits(x: u32) -> u32;

/// Relies on rustc_apfloat's `Single` multiplication (the software IEEE-754
/// binary32 implementation used by the Rust compiler for constant
/// evaluation; `core::ops::Mul`, round to nearest, ties to even). The result
/// depends on the argument bits alone.
#[verifier::external_body]
pub(crate) fn fmul(a: u32, b: u32) -> (r: u32)
    ensures
        r == mul_bits(a, b),
{
    let x = rustc_apfloat::ieee::Single::from_bits(a as u128);
    let y = rustc_apfloat::ieee::Single::from_bits(b as u128);
    (x * y).value.to_bits() as u32
}

/// Relies on rustc_apfloat's `Single` division (round to nearest, ties to
/// even). The result depends on the argument bits alone.
#[verifier::external_body]
pub(crate) fn fdiv(a: u32, b: u32) -> (r: u32)
    ensures
        r == div_bits(a, b),
{
    let x = rustc_apfloat::ieee::Single::from_bits(a as u128);
    let y = rustc_apfloat::ieee::Single::from_bits(b as u128);
    (x / y).value.to_bits() as u32
}

/// Relies on rustc_apfloat's `Single` subtraction (round to nearest, ties to
/// even). The result depends on the argument bits alone.
#[verifier::external_body]
pub(crate) fn fsub(a: u32, b: u32) -> (r: u32)
    ensures
        r == sub_bits(a, b),
{
    let x = rustc_apfloat::ieee::Single::from_bits(a as u128);
    let y = rustc_apfloat::ieee::Single::from_bits(b as u128);
    (x - y).value.to_bits() as u32
}

/// Relies on libm's `sinf` (the pure-Rust port of musl's single-precision
/// sine): a deterministic function of the argument bits. `bytemuck::cast`
/// moves the bits between the integer and the float representation
/// unchanged.
#[verifier::external_body]
pub(crate) fn fsin(a: u32) -> (r: u32)
    ensures
        r == sin_bits(a),
{
    bytemuck::cast(libm::sinf(bytemuck::cast(a)))
}

/// Relies on libm's `cosf` (the pure-Rust port of musl's single-precision
/// cosine): a deterministic function of the argument bits. `bytemuck::cast`
/// moves the bits between the integer and the float representation
/// unchanged.
#[verifier::external_body]
pub(crate) fn fcos(a: u32) -> (r: u32)
    ensures
        r == cos_bits(a),
{
    bytemuck::cast(libm::cosf(bytemuck::cast(a)))
}

/// Relies on rustc_apfloat's `Single::from_u128` (round to nearest, ties to
/// even, as Rust's own integer-to-float conversion rounds). The result
/// depends on the argument alone.
#[verifier::external_body]
pub(crate) fn f_of_u32(x: u32) -> (r: u32)
    ensures
        r == from_u32_bits(x),
{
    rustc_apfloat::ieee::Single::from_u128(x as u128).value.to_bits() as u32
}

} // verus!
