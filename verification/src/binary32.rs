//! Order and classes of single-precision values, read off their bit patterns.
//!
//! A pattern is a sign bit above a 31-bit magnitude. Magnitudes up to
//! [`MAX`] are the finite values, [`INFINITY`] is infinite, and every
//! magnitude above it is not a number. The finite values grow with their
//! magnitudes, and doubling one adds `0x0080_0000` to a magnitude of at least
//! that much: so the double of a value is finite up to [`HALF_MAX`] and
//! infinite above it.

use vstd::prelude::*;

verus! {

/// The pattern of positive zero.
pub const ZERO: u32 = 0;

/// The sign bit.
pub const SIGN: u32 = 0x8000_0000;

/// The pattern of the largest finite value.
pub const MAX: u32 = 0x7f7f_ffff;

/// The pattern of positive infinity.
pub const INFINITY: u32 = 0x7f80_0000;

/// The pattern of half the largest finite value: the largest value whose
/// double is finite.
pub const HALF_MAX: u32 = 0x7eff_ffff;

/// The pattern without its sign bit.
pub open spec fn magnitude(bits: u32) -> int {
    if bits >= SIGN {
        bits - SIGN
    } else {
        bits as int
    }
}

/// The pattern encodes no number.
pub open spec fn nan(bits: u32) -> bool {
    magnitude(bits) > INFINITY
}

/// The pattern encodes a number that is not infinite.
pub open spec fn finite(bits: u32) -> bool {
    magnitude(bits) < INFINITY
}

/// An integer that orders the patterns of numbers as their values are
/// ordered. Both zeros have rank 0.
pub open spec fn rank(bits: u32) -> int {
    if bits >= SIGN {
        -magnitude(bits)
    } else {
        magnitude(bits)
    }
}

/// `a < b` as values: false as soon as either side is not a number.
pub open spec fn below(a: u32, b: u32) -> bool {
    !nan(a) && !nan(b) && rank(a) < rank(b)
}

/// `a == b` as values: false as soon as either side is not a number, and true
/// of the two zeros.
pub open spec fn equal(a: u32, b: u32) -> bool {
    !nan(a) && !nan(b) && rank(a) == rank(b)
}

/// `a <= 0` as values: false when `a` is not a number.
pub open spec fn non_positive(a: u32) -> bool {
    !nan(a) && rank(a) <= 0
}

/// Tells whether the pattern encodes no number.
pub fn is_nan(bits: u32) -> (r: bool)
    ensures
        r == nan(bits),
{
    if bits >= SIGN {
        bits - SIGN > INFINITY
    } else {
        bits > INFINITY
    }
}

/// Tells whether the pattern encodes a number that is not infinite.
pub fn is_finite(bits: u32) -> (r: bool)
    ensures
        r == finite(bits),
{
    if bits >= SIGN {
        bits - SIGN < INFINITY
    } else {
        bits < INFINITY
    }
}

/// Computes the rank of a pattern.
pub fn rank_of(bits: u32) -> (r: i64)
    ensures
        r == rank(bits),
{
    if bits >= SIGN {
        let m: u32 = bits - SIGN;
        -(m as i64)
    } else {
        bits as i64
    }
}

/// Compares two patterns as values with `<`.
pub fn is_below(a: u32, b: u32) -> (r: bool)
    ensures
        r == below(a, b),
{
    !is_nan(a) && !is_nan(b) && rank_of(a) < rank_of(b)
}

/// Compares a pattern as a value with `<= 0`.
pub fn is_non_positive(a: u32) -> (r: bool)
    ensures
        r == non_positive(a),
{
    !is_nan(a) && rank_of(a) <= 0
}

/// `below` is a strict order on the patterns, and no pattern that is not a
/// number stands on either side of it.
pub proof fn lemma_below_is_strict(a: u32, b: u32, c: u32)
    ensures
        !below(a, a),
        below(a, b) ==> !below(b, a),
        below(a, b) && below(b, c) ==> below(a, c),
        nan(a) ==> !below(a, b) && !below(b, a),
{
}

} // verus!
