//! Coordinates as ordered integers.
//!
//! A single-precision coordinate is held by an integer, its order key: the keys of numbers are in
//! the order of the numbers, with negative zero before positive zero, and the bit pattern of the
//! coordinate can be had back from the key. Numbers are compared by `at_most`, for which both zeros
//! are the same and what is no number compares with nothing.

use vstd::prelude::*;

verus! {

/// The key of positive infinity; keys above it belong to no number.
pub const INFINITY_KEY: i32 = 0x7f80_0000;

/// The key of negative infinity; keys below it belong to no number.
pub const NEG_INFINITY_KEY: i32 = -2_139_095_041;

/// The key of one half.
pub const HALF_KEY: i32 = 0x3f00_0000;

/// The key of one.
pub const ONE_KEY: i32 = 0x3f80_0000;

/// The key of two.
pub const TWO_KEY: i32 = 0x4000_0000;

/// The key of the coordinate with this bit pattern: the magnitude, or, where the sign bit is set,
/// the same distance below minus one.
pub open spec fn key_of_bits(bits: u32) -> int {
    if bits < 0x8000_0000 {
        bits as int
    } else {
        -1 - (bits - 0x8000_0000)
    }
}

/// The bit pattern of the coordinate with this key.
pub open spec fn bits_of_key(key: i32) -> int {
    if key >= 0 {
        key as int
    } else {
        0x8000_0000 + (-1 - key)
    }
}

/// Whether the bit patterns are in the order of the numbers they stand for, with negative zero
/// before positive zero: negative numbers by falling magnitude, then the others by rising one.
pub open spec fn bits_in_order(a: u32, b: u32) -> bool {
    let a_negative = a >= 0x8000_0000;
    let b_negative = b >= 0x8000_0000;
    if a_negative && b_negative {
        a >= b
    } else if a_negative != b_negative {
        a_negative
    } else {
        a <= b
    }
}

/// The key of the coordinate with this bit pattern.
pub fn coord_from_bits(bits: u32) -> (key: i32)
    ensures
        key == key_of_bits(bits),
{
    if bits < 0x8000_0000 {
        bits as i32
    } else {
        -1 - ((bits - 0x8000_0000) as i32)
    }
}

/// The bit pattern of the coordinate with this key.
pub fn coord_bits(key: i32) -> (bits: u32)
    ensures
        bits == bits_of_key(key),
{
    if key >= 0 {
        key as u32
    } else {
        0x8000_0000u32 + ((-1 - key) as u32)
    }
}

/// The bit pattern comes back from the key.
pub proof fn law_bits_round_trip(bits: u32)
    ensures
        i32::MIN <= key_of_bits(bits) <= i32::MAX,
        bits_of_key(key_of_bits(bits) as i32) == bits,
{
}

/// The key comes back from the bit pattern.
pub proof fn law_key_round_trip(key: i32)
    ensures
        0 <= bits_of_key(key) <= u32::MAX,
        key_of_bits(bits_of_key(key) as u32) == key,
{
}

/// Keys compare as the coordinates do.
pub proof fn law_keys_keep_order(a: u32, b: u32)
    ensures
        bits_in_order(a, b) <==> key_of_bits(a) <= key_of_bits(b),
{
}

/// Whether a key belongs to no number.
pub open spec fn is_nan_key(key: i32) -> bool {
    key > INFINITY_KEY || key < NEG_INFINITY_KEY
}

/// What a key counts as among numbers: both zeros are the same number.
pub open spec fn number_of(key: i32) -> int {
    if key == -1 {
        0
    } else {
        key as int
    }
}

/// Whether one coordinate is a number no greater than another; what is no number compares with
/// nothing.
pub open spec fn at_most(a: i32, b: i32) -> bool {
    !is_nan_key(a) && !is_nan_key(b) && number_of(a) <= number_of(b)
}

/// Whether one coordinate is a number greater than another.
pub open spec fn exceeds(a: i32, b: i32) -> bool {
    at_most(b, a) && !at_most(a, b)
}

/// Whether one coordinate is a number greater than another.
pub fn key_exceeds(a: i32, b: i32) -> (greater: bool)
    ensures
        greater == exceeds(a, b),
{
    key_at_most(b, a) && !key_at_most(a, b)
}

/// Whether two coordinates are the same number.
pub open spec fn same_number(a: i32, b: i32) -> bool {
    at_most(a, b) && at_most(b, a)
}

/// Whether one coordinate is a number no greater than another.
pub fn key_at_most(a: i32, b: i32) -> (least: bool)
    ensures
        least == at_most(a, b),
{
    !key_is_nan(a) && !key_is_nan(b) && (a <= b || (a == 0 && b == -1))
}

/// Whether two coordinates are the same number.
pub fn keys_equal(a: i32, b: i32) -> (equal: bool)
    ensures
        equal == same_number(a, b),
{
    key_at_most(a, b) && key_at_most(b, a)
}

/// Numbers are ordered: of two, one is at most the other, and what is at most another is at most
/// all that the other is at most of.
pub proof fn law_numbers_are_ordered(a: i32, b: i32, c: i32)
    ensures
        !is_nan_key(a) && !is_nan_key(b) ==> at_most(a, b) || at_most(b, a),
        at_most(a, b) && at_most(b, c) ==> at_most(a, c),
{
}

/// Whether a key belongs to no number.
pub fn key_is_nan(key: i32) -> (nan: bool)
    ensures
        nan == is_nan_key(key),
{
    key > INFINITY_KEY || key < NEG_INFINITY_KEY
}

} // verus!
