//! Order and classes of single-precision numbers, read off their bits.
//!
//! The library never computes with such numbers. It carries the 32 bits of
//! each and decides from them: the top bit is the sign, the rest a magnitude
//! that grows with the number and exceeds that of infinity only for a NaN.

use vstd::prelude::*;

verus! {

/// The bits of positive infinity, and the magnitude bound of finite numbers.
pub const INFINITY: u32 = 0x7f80_0000;

/// The bits of one.
pub const ONE: u32 = 0x3f80_0000;

/// The sign bit.
pub const SIGN: u32 = 0x8000_0000;

/// Does the sign bit stand?
pub open spec fn signed(bits: u32) -> bool {
    bits >= SIGN
}

/// All bits but the sign, as a number.
pub open spec fn magnitude(bits: u32) -> int {
    if signed(bits) {
        bits - SIGN
    } else {
        bits as int
    }
}

/// Not a number.
pub open spec fn nan(bits: u32) -> bool {
    magnitude(bits) > INFINITY
}

/// Neither infinite nor a NaN.
pub open spec fn finite(bits: u32) -> bool {
    magnitude(bits) < INFINITY
}

/// A rank that orders all numbers but NaNs; both zeros have rank zero.
pub open spec fn rank(bits: u32) -> int {
    if signed(bits) {
        -magnitude(bits)
    } else {
        magnitude(bits)
    }
}

/// `a < b`, false wherever a NaN takes part.
pub open spec fn less(a: u32, b: u32) -> bool {
    !nan(a) && !nan(b) && rank(a) < rank(b)
}

/// `a >= b`, false wherever a NaN takes part.
pub open spec fn at_least(a: u32, b: u32) -> bool {
    !nan(a) && !nan(b) && rank(a) >= rank(b)
}

/// Below zero.
pub open spec fn below_zero(bits: u32) -> bool {
    less(bits, 0)
}

/// The number held between zero and one; a NaN stays one.
pub open spec fn clamped(bits: u32) -> u32 {
    if less(bits, 0) {
        0
    } else if less(ONE, bits) {
        ONE
    } else {
        bits
    }
}

/// Between zero and one.
pub open spec fn in_unit(bits: u32) -> bool {
    at_least(bits, 0) && at_least(ONE, bits)
}

/// The same number with the other sign.
pub open spec fn opposite(bits: u32) -> u32 {
    if signed(bits) {
        (bits - SIGN) as u32
    } else {
        (bits + SIGN) as u32
    }
}

/// The place of a number in the order that ranks every bit pattern: negative
/// NaNs first, then from negative to positive infinity with the negative zero
/// before the positive one, then positive NaNs.
pub open spec fn total_rank(bits: u32) -> int {
    if signed(bits) {
        -magnitude(bits) - 1
    } else {
        magnitude(bits)
    }
}

fn mag(bits: u32) -> (m: u32)
    ensures
        m == magnitude(bits),
{
    if bits >= SIGN {
        bits - SIGN
    } else {
        bits
    }
}

/// Is this a NaN?
pub fn is_nan(bits: u32) -> (b: bool)
    ensures
        b == nan(bits),
{
    mag(bits) > INFINITY
}

/// Is this neither infinite nor a NaN?
pub fn is_finite(bits: u32) -> (b: bool)
    ensures
        b == finite(bits),
{
    mag(bits) < INFINITY
}

fn signed_mag(bits: u32) -> (r: i64)
    ensures
        r == rank(bits),
{
    let m: i64 = mag(bits) as i64;
    if bits >= SIGN {
        -m
    } else {
        m
    }
}

/// `a < b` of the numbers.
pub fn is_less(a: u32, b: u32) -> (r: bool)
    ensures
        r == less(a, b),
{
    !is_nan(a) && !is_nan(b) && signed_mag(a) < signed_mag(b)
}

/// The number held between zero and one.
pub fn clamp_to_unit(bits: u32) -> (r: u32)
    ensures
        r == clamped(bits),
        if nan(bits) {
            r == bits
        } else {
            in_unit(r)
        },
{
    if is_less(bits, 0) {
        0
    } else if is_less(ONE, bits) {
        ONE
    } else {
        bits
    }
}

/// `a >= b` of the numbers.
pub fn is_at_least(a: u32, b: u32) -> (r: bool)
    ensures
        r == at_least(a, b),
{
    !is_nan(a) && !is_nan(b) && signed_mag(a) >= signed_mag(b)
}

/// Is the number below zero?
pub fn is_below_zero(bits: u32) -> (r: bool)
    ensures
        r == below_zero(bits),
{
    is_less(bits, 0)
}

/// The same number with the other sign.
pub fn negate(bits: u32) -> (r: u32)
    ensures
        r == opposite(bits),
{
    if bits >= SIGN {
        bits - SIGN
    } else {
        bits + SIGN
    }
}

/// The place of the number in the order of all bit patterns.
pub fn to_total_rank(bits: u32) -> (r: i32)
    ensures
        r == total_rank(bits),
{
    let m: u32 = mag(bits);
    if bits >= SIGN {
        -(m as i32) - 1
    } else {
        m as i32
    }
}

/// The bits that stand at a place of the order of all bit patterns.
pub fn from_total_rank(r: i32) -> (bits: u32)
    ensures
        total_rank(bits) == r,
{
    if r < 0 {
        (-(r + 1)) as u32 + SIGN
    } else {
        r as u32
    }
}

/// Every bit pattern has a place of its own in the total order.
pub proof fn total_rank_is_injective(a: u32, b: u32)
    requires
        total_rank(a) == total_rank(b),
    ensures
        a == b,
{
}

/// On numbers other than NaNs the total order refines the usual one.
pub proof fn total_rank_refines_order(a: u32, b: u32)
    requires
        less(a, b),
    ensures
        total_rank(a) < total_rank(b),
{
}

/// Changing the sign twice gives the number back, and exchanges the two sides
/// of zero.
pub proof fn opposite_is_involutive(bits: u32)
    ensures
        opposite(opposite(bits)) == bits,
        !nan(bits) ==> rank(opposite(bits)) == -rank(bits),
{
}

} // verus!
