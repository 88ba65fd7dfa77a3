//! Numbers as ordered integer keys.
//!
//! Every quantity of the renderer is a binary64 number. The crate orders such
//! numbers, picks among them and carries them, but never calculates with them.
//! It holds each number as its *key*: the 64-bit pattern of the number, read as
//! sign and magnitude and turned into a signed integer. A pattern without the
//! sign bit is its own key; a pattern with the sign bit and magnitude `m` has
//! the key `-m - 1`. Keys are ordered as the numbers are: for two numbers `a`
//! and `b`, neither of them a NaN, `a < b` implies `key(a) < key(b)`, and
//! `key(a) < key(b)` implies `a < b` or that both are zero. The two zeros have
//! the keys `-1` and `0`.
use vstd::prelude::*;

verus! {

/// Key of positive zero.
pub const ZERO: i64 = 0;

/// Key of the number one.
pub const ONE: i64 = 0x3FF0_0000_0000_0000;

/// Key of positive infinity. Larger keys stand for NaNs.
pub const INFINITY: i64 = 0x7FF0_0000_0000_0000;

/// Key of the distance `1e-6`, below which a hit counts as the ray leaving
/// its own surface.
pub const EPS: i64 = 0x3EB0_C6F7_A0B5_ED8D;

/// Key of the distance `1e20`, at and beyond which a scan of the scene counts
/// nothing as hit.
pub const INF: i64 = 0x4415_AF1D_78B5_8C40;

/// The key of a bit pattern.
pub open spec fn key_of(bits: u64) -> int {
    if bits < 0x8000_0000_0000_0000 {
        bits as int
    } else {
        0x7FFF_FFFF_FFFF_FFFF - bits
    }
}

/// The bit pattern of a key.
pub open spec fn bits_of(key: i64) -> int {
    if key >= 0 {
        key as int
    } else {
        0x7FFF_FFFF_FFFF_FFFF - key
    }
}

/// A key that stands for a number: anything from negative to positive
/// infinity, and no NaN.
pub open spec fn is_number(key: i64) -> bool {
    -INFINITY - 1 <= key <= INFINITY
}

/// A key that stands for a number below zero. Negative zero, whose key is
/// `-1`, is not below zero.
pub open spec fn negative(key: i64) -> bool {
    key < -1
}

/// A key that stands for a number above zero, or for a NaN without the sign
/// bit.
pub open spec fn positive(key: i64) -> bool {
    key > 0
}

/// The larger of two numbers as `f64::max` gives it: where one of the two
/// is a NaN, the other.
pub open spec fn fmax(a: i64, b: i64) -> i64 {
    if !is_number(b) {
        a
    } else if !is_number(a) {
        b
    } else if a >= b {
        a
    } else {
        b
    }
}

/// The smaller of two numbers as `f64::min` gives it: where one of the two
/// is a NaN, the other.
pub open spec fn fmin(a: i64, b: i64) -> i64 {
    if !is_number(b) {
        a
    } else if !is_number(a) {
        b
    } else if a <= b {
        a
    } else {
        b
    }
}

/// The sign bit of a pattern.
pub open spec fn sign_of(bits: u64) -> bool {
    bits >= 0x8000_0000_0000_0000
}

/// The pattern without its sign bit.
pub open spec fn magnitude_of(bits: u64) -> int {
    if bits < 0x8000_0000_0000_0000 {
        bits as int
    } else {
        bits - 0x8000_0000_0000_0000
    }
}

/// Turns the bit pattern of a number into its key.
pub fn key(bits: u64) -> (k: i64)
    ensures
        k == key_of(bits),
{
    if bits < 0x8000_0000_0000_0000 {
        bits as i64
    } else {
        let magnitude: u64 = bits - 0x8000_0000_0000_0000;
        -(magnitude as i64) - 1
    }
}

/// Turns a key back into the bit pattern it was made from.
pub fn bits(key: i64) -> (b: u64)
    ensures
        b == bits_of(key),
{
    if key >= 0 {
        key as u64
    } else {
        let magnitude: u64 = (-(key + 1)) as u64;
        magnitude + 0x8000_0000_0000_0000
    }
}

/// Tells whether a key stands for a number, as opposed to a NaN.
pub fn number(key: i64) -> (b: bool)
    ensures
        b == is_number(key),
{
    -INFINITY - 1 <= key && key <= INFINITY
}

/// Tells whether a key stands for a number below zero.
pub fn is_negative(key: i64) -> (b: bool)
    ensures
        b == negative(key),
{
    key < -1
}

/// Tells whether a key stands for a number above zero.
pub fn is_positive(key: i64) -> (b: bool)
    ensures
        b == positive(key),
{
    key > 0
}

/// The larger of two keys, a NaN giving way to the other; see `fmax`.
pub fn larger(a: i64, b: i64) -> (k: i64)
    ensures
        k == fmax(a, b),
{
    if !number(b) {
        a
    } else if !number(a) {
        b
    } else if a >= b {
        a
    } else {
        b
    }
}

/// The smaller of two keys, a NaN giving way to the other; see `fmin`.
pub fn smaller(a: i64, b: i64) -> (k: i64)
    ensures
        k == fmin(a, b),
{
    if !number(b) {
        a
    } else if !number(a) {
        b
    } else if a <= b {
        a
    } else {
        b
    }
}

/// A pattern and its key determine each other.
pub proof fn lemma_key_round_trip(bits: u64, key: i64)
    ensures
        bits_of(key_of(bits) as i64) == bits,
        key_of(bits_of(key) as u64) == key,
        i64::MIN <= key_of(bits) <= i64::MAX,
        0 <= bits_of(key) <= u64::MAX,
{
}

/// Keys are ordered by sign and magnitude: a pattern with the sign bit comes
/// before one without; among patterns without it the smaller magnitude comes
/// first, among patterns with it the larger.
pub proof fn lemma_key_order(a: u64, b: u64)
    ensures
        key_of(a) < key_of(b) <==> {
            ||| sign_of(a) && !sign_of(b)
            ||| !sign_of(a) && !sign_of(b) && magnitude_of(a) < magnitude_of(b)
            ||| sign_of(a) && sign_of(b) && magnitude_of(a) > magnitude_of(b)
        },
        key_of(a) == key_of(b) <==> a == b,
{
}

} // verus!
