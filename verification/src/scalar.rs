//! Order keys for IEEE-754 binary32 numbers.
//!
//! A key is a signed integer that stands for one number. Two numbers compare
//! as their keys do, so every decision that rests on comparing, on taking a
//! minimum or a maximum, or on membership in an interval can be made on keys
//! alone, and exactly.

use vstd::prelude::*;

verus! {

/// The order key of a binary32 number.
pub type Scalar = i32;

/// Key of positive zero, and also of negative zero.
pub const ZERO: Scalar = 0;

/// Key of `1.0`.
pub const ONE: Scalar = 0x3F80_0000;

/// Key of positive infinity.
pub const INFINITY: Scalar = 0x7F80_0000;

/// Key of negative infinity.
pub const NEG_INFINITY: Scalar = -0x7F80_0000;

/// A point or a vector in space, by the keys of its three coordinates.
#[derive(Debug, Clone, Copy, PartialEq, Eq, Structural)]
pub struct Point3 {
    pub x: Scalar,
    pub y: Scalar,
    pub z: Scalar,
}

/// Whether the sign bit of the bit pattern is set.
pub open spec fn sign_bit(bits: u32) -> bool {
    bits >= 0x8000_0000
}

/// The bit pattern without its sign bit: exponent and fraction.
pub open spec fn magnitude(bits: u32) -> int {
    if bits >= 0x8000_0000 {
        bits - 0x8000_0000
    } else {
        bits as int
    }
}

/// Whether the bit pattern encodes a NaN.
pub open spec fn is_nan(bits: u32) -> bool {
    magnitude(bits) > 0x7F80_0000
}

/// The key of a bit pattern: the magnitude, negated where the sign bit is set.
pub open spec fn key_of(bits: u32) -> int {
    if sign_bit(bits) {
        -magnitude(bits)
    } else {
        magnitude(bits)
    }
}

/// The canonical bit pattern of a key.
pub open spec fn bits_of(key: int) -> int {
    if key >= 0 {
        key
    } else {
        0x8000_0000 - key
    }
}

/// The comparison `a <= b` of two numbers that are not NaN, read off their
/// bit patterns: numbers of one sign compare by magnitude, a negative number
/// lies below a positive one, and the two zeros are equal.
pub open spec fn float_le(a: u32, b: u32) -> bool {
    if sign_bit(a) {
        if sign_bit(b) {
            magnitude(a) >= magnitude(b)
        } else {
            true
        }
    } else {
        if sign_bit(b) {
            magnitude(a) == 0 && magnitude(b) == 0
        } else {
            magnitude(a) <= magnitude(b)
        }
    }
}

/// The key of the number with the given bit pattern.
pub fn key_from_bits(bits: u32) -> (key: Scalar)
    ensures
        key == key_of(bits),
        -0x7FFF_FFFF <= key <= 0x7FFF_FFFF,
{
    if bits >= 0x8000_0000 {
        let m: u32 = bits - 0x8000_0000;
        -(m as i32)
    } else {
        bits as i32
    }
}

/// The bit pattern of the number with the given key. Negative zero has no
/// key of its own, so a zero key gives positive zero. The one integer that is
/// no key, `i32::MIN`, gives the same pattern as the key above it.
pub fn bits_from_key(key: Scalar) -> (bits: u32)
    ensures
        key > i32::MIN ==> bits == bits_of(key as int),
        key == i32::MIN ==> bits == 0xFFFF_FFFF,
{
    if key >= 0 {
        key as u32
    } else if key == i32::MIN {
        0xFFFF_FFFFu32
    } else {
        let m: u32 = (-key) as u32;
        0x8000_0000u32 + m
    }
}

/// Keys order as the numbers do: for two bit patterns that are not NaN, the
/// first key is at most the second exactly when the first number is at most
/// the second.
pub proof fn lemma_key_order(a: u32, b: u32)
    requires
        !is_nan(a),
        !is_nan(b),
    ensures
        key_of(a) <= key_of(b) <==> float_le(a, b),
        key_of(a) == key_of(b) <==> (float_le(a, b) && float_le(b, a)),
{
}

/// A key and its bit pattern determine each other, negative zero aside.
pub proof fn lemma_key_round_trip(bits: u32, key: int)
    ensures
        bits != 0x8000_0000 ==> bits_of(key_of(bits)) == bits,
        -0x7FFF_FFFF <= key <= 0x7FFF_FFFF ==> key_of(bits_of(key) as u32) == key,
{
}

/// The named keys are the keys of the numbers they are named after.
pub proof fn lemma_named_keys()
    ensures
        key_of(0x0000_0000) == ZERO,
        key_of(0x8000_0000) == ZERO,
        key_of(0x3F80_0000) == ONE,
        key_of(0x7F80_0000) == INFINITY,
        key_of(0xFF80_0000) == NEG_INFINITY,
{
}

} // verus!
