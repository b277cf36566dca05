//! Numeric values carried as raw IEEE binary32 bit patterns.
//!
//! The verified code never holds a machine floating-point value directly: a
//! number is a `u32` holding its binary32 bit pattern.  Arithmetic on such
//! patterns is delegated to the `rustc_apfloat` soft-float crate behind
//! trusted wrappers, and each operation's result is named by an
//! uninterpreted spec function, so that every contract downstream is exact
//! relative to those names.  Sign tests, NaN tests and the total order on
//! patterns are plain bit logic, defined and verified here.

use vstd::prelude::*;
use rustc_apfloat::Float;

verus! {

/// Pattern of positive zero.
pub const F_ZERO: u32 = 0;
/// Pattern of one.
pub const F_ONE: u32 = 0x3F80_0000;
/// Pattern of two.
pub const F_TWO: u32 = 0x4000_0000;
/// Pattern of one tenth: the spread of a fresh layer bias.
pub const SD_BIAS: u32 = 0x3DCC_CCCD;
/// Pattern of five thousandths: the spread of fine mutation noise.
pub const SD_FINE: u32 = 0x3BA3_D70A;
/// Pattern of five hundredths: the spread of fast mutation noise.
pub const SD_FAST: u32 = 0x3D4C_CCCD;
/// Pattern of 9999/10000: the plateau-detection ratio of the refinement pass.
pub const PLATEAU_RATIO: u32 = 0x3F7F_F972;

/// The sum of the two binary32 values encoded by `a` and `b`.
pub uninterp spec fn add_of(a: u32, b: u32) -> u32;

/// The difference of the two binary32 values encoded by `a` and `b`.
pub uninterp spec fn sub_of(a: u32, b: u32) -> u32;

/// The product of the two binary32 values encoded by `a` and `b`.
pub uninterp spec fn mul_of(a: u32, b: u32) -> u32;

/// The quotient of the two binary32 values encoded by `a` and `b`.
pub uninterp spec fn div_of(a: u32, b: u32) -> u32;

/// The binary32 value nearest to the integer `n`.
pub uninterp spec fn of_count(n: u64) -> u32;

/// Relies on rustc_apfloat: IEEE binary32 addition (`Single::add_r`, default
/// rounding), a deterministic function of the two operand bit patterns.
#[verifier::external_body]
pub(crate) fn add_bits(a: u32, b: u32) -> (r: u32)
    ensures
        r == add_of(a, b),
{
    let x = rustc_apfloat::ieee::Single::from_bits(a as u128);
    let y = rustc_apfloat::ieee::Single::from_bits(b as u128);
    (x + y).value.to_bits() as u32
}

/// Relies on rustc_apfloat: IEEE binary32 subtraction (`Single::sub_r`,
/// default rounding), a deterministic function of the two operand patterns.
#[verifier::external_body]
pub(crate) fn sub_bits(a: u32, b: u32) -> (r: u32)
    ensures
        r == sub_of(a, b),
{
    let x = rustc_apfloat::ieee::Single::from_bits(a as u128);
    let y = rustc_apfloat::ieee::Single::from_bits(b as u128);
    (x - y).value.to_bits() as u32
}

/// Relies on rustc_apfloat: IEEE binary32 multiplication (`Single::mul_r`,
/// default rounding), a deterministic function of the two operand patterns.
#[verifier::external_body]
pub(crate) fn mul_bits(a: u32, b: u32) -> (r: u32)
    ensures
        r == mul_of(a, b),
{
    let x = rustc_apfloat::ieee::Single::from_bits(a as u128);
    let y = rustc_apfloat::ieee::Single::from_bits(b as u128);
    (x * y).value.to_bits() as u32
}

/// Relies on rustc_apfloat: IEEE binary32 division (`Single::div_r`, default
/// rounding), a deterministic function of the two operand bit patterns.
#[verifier::external_body]
pub(crate) fn div_bits(a: u32, b: u32) -> (r: u32)
    ensures
        r == div_of(a, b),
{
    let x = rustc_apfloat::ieee::Single::from_bits(a as u128);
    let y = rustc_apfloat::ieee::Single::from_bits(b as u128);
    (x / y).value.to_bits() as u32
}

/// Relies on rustc_apfloat: conversion of an unsigned integer to the nearest
/// binary32 value (`Single::from_u128`, default rounding), a deterministic
/// function of `n`.
#[verifier::external_body]
pub(crate) fn count_bits(n: u64) -> (r: u32)
    ensures
        r == of_count(n),
{
    rustc_apfloat::ieee::Single::from_u128(n as u128).value.to_bits() as u32
}

/// Whether `b` encodes a NaN: all exponent bits set and a nonzero mantissa.
pub open spec fn nan_bits(b: u32) -> bool {
    (b & 0x7FFF_FFFF) > 0x7F80_0000
}

/// Whether `b` encodes a zero of either sign.
pub open spec fn zero_bits(b: u32) -> bool {
    (b & 0x7FFF_FFFF) == 0
}

/// The IEEE total-order key of a pattern: negatives are complemented,
/// non-negatives get the sign bit set, so that unsigned comparison of keys
/// is exactly the totalOrder predicate on the encoded values.
pub open spec fn order_key(b: u32) -> u32 {
    if b >= 0x8000_0000 {
        !b
    } else {
        b | 0x8000_0000
    }
}

/// Key order: `a` at or below `b` in the IEEE total order.
pub open spec fn key_le(a: u32, b: u32) -> bool {
    order_key(a) <= order_key(b)
}

/// Exact IEEE `<` on encoded values: false when either side is NaN, false
/// when both encode zero, and otherwise decided by the total-order key.
pub open spec fn flt(a: u32, b: u32) -> bool {
    &&& !nan_bits(a)
    &&& !nan_bits(b)
    &&& !(zero_bits(a) && zero_bits(b))
    &&& order_key(a) < order_key(b)
}

/// The pattern of the negated value: IEEE negation flips the sign bit.
pub open spec fn neg_of(b: u32) -> u32 {
    b ^ 0x8000_0000
}

/// Runtime IEEE `<` on two patterns.
pub fn lt_bits(a: u32, b: u32) -> (r: bool)
    ensures
        r == flt(a, b),
{
    let nan_a = (a & 0x7FFF_FFFF) > 0x7F80_0000;
    let nan_b = (b & 0x7FFF_FFFF) > 0x7F80_0000;
    let both_zero = (a & 0x7FFF_FFFF) == 0 && (b & 0x7FFF_FFFF) == 0;
    let ka = if a >= 0x8000_0000 { !a } else { a | 0x8000_0000 };
    let kb = if b >= 0x8000_0000 { !b } else { b | 0x8000_0000 };
    !nan_a && !nan_b && !both_zero && ka < kb
}

/// Runtime key comparison (IEEE total order).
pub fn le_key_bits(a: u32, b: u32) -> (r: bool)
    ensures
        r == key_le(a, b),
{
    let ka = if a >= 0x8000_0000 { !a } else { a | 0x8000_0000 };
    let kb = if b >= 0x8000_0000 { !b } else { b | 0x8000_0000 };
    ka <= kb
}

/// Runtime negation of a pattern.
pub fn negate_bits(b: u32) -> (r: u32)
    ensures
        r == neg_of(b),
{
    b ^ 0x8000_0000
}

/// The total-order key is injective, so key order is antisymmetric.
pub proof fn lemma_order_key_injective(a: u32, b: u32)
    ensures
        order_key(a) == order_key(b) ==> a == b,
{
    assert((if a >= 0x8000_0000u32 {
        !a
    } else {
        a | 0x8000_0000u32
    }) == (if b >= 0x8000_0000u32 {
        !b
    } else {
        b | 0x8000_0000u32
    }) ==> a == b) by (bit_vector);
}

/// A zero pattern's key is one of the two middle keys, so no third key can
/// lie strictly between the keys of two zero patterns.
pub proof fn lemma_zero_keys(b: u32)
    ensures
        zero_bits(b) ==> order_key(b) == 0x7FFF_FFFFu32 || order_key(b) == 0x8000_0000u32,
{
    assert((b & 0x7FFF_FFFFu32) == 0 ==> ((if b >= 0x8000_0000u32 {
        !b
    } else {
        b | 0x8000_0000u32
    }) == 0x7FFF_FFFFu32 || (if b >= 0x8000_0000u32 {
        !b
    } else {
        b | 0x8000_0000u32
    }) == 0x8000_0000u32)) by (bit_vector);
}

/// IEEE `<` is transitive on patterns.
pub proof fn lemma_flt_transitive(a: u32, b: u32, c: u32)
    requires
        flt(a, b),
        flt(b, c),
    ensures
        flt(a, c),
{
    if zero_bits(a) && zero_bits(c) {
        lemma_zero_keys(a);
        lemma_zero_keys(c);
    }
}

} // verus!
