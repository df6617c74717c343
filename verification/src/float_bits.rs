//! Measured values travel as the IEEE-754 bit pattern of a double.
use vstd::prelude::*;

verus! {

/// Bit pattern of `f64::MIN`, the marker that a reading failed.
pub const FAILURE_MARKER: u64 = 0xFFEF_FFFF_FFFF_FFFFu64;

/// The value is a NaN: all exponent bits set and a non-zero mantissa.
pub open spec fn is_nan_bits(a: u64) -> bool {
    (a & 0x7FF0_0000_0000_0000u64) == 0x7FF0_0000_0000_0000u64
        && (a & 0x000F_FFFF_FFFF_FFFFu64) != 0
}

/// The value is positive or negative zero.
pub open spec fn is_zero_bits(a: u64) -> bool {
    (a & 0x7FFF_FFFF_FFFF_FFFFu64) == 0
}

/// IEEE-754 equality of two doubles given by their bit patterns:
/// NaN equals nothing, and the two zeros are equal.
pub open spec fn ieee_eq(a: u64, b: u64) -> bool {
    !is_nan_bits(a) && !is_nan_bits(b) && (a == b || (is_zero_bits(a) && is_zero_bits(b)))
}

/// The failure marker is a plain number: a value equals it exactly when
/// the bit patterns are equal.
pub proof fn lemma_marker_eq(a: u64)
    ensures
        ieee_eq(a, FAILURE_MARKER) == (a == FAILURE_MARKER),
{
    assert(ieee_eq(a, 0xFFEF_FFFF_FFFF_FFFFu64) == (a == 0xFFEF_FFFF_FFFF_FFFFu64)) by (bit_vector);
}

/// Computes `ieee_eq`, the `==` of two doubles, on their bit patterns.
pub fn float_eq(a: u64, b: u64) -> (r: bool)
    ensures
        r == ieee_eq(a, b),
{
    let a_nan = (a & 0x7FF0_0000_0000_0000u64) == 0x7FF0_0000_0000_0000u64
        && (a & 0x000F_FFFF_FFFF_FFFFu64) != 0;
    let b_nan = (b & 0x7FF0_0000_0000_0000u64) == 0x7FF0_0000_0000_0000u64
        && (b & 0x000F_FFFF_FFFF_FFFFu64) != 0;
    if a_nan || b_nan {
        false
    } else {
        a == b || ((a & 0x7FFF_FFFF_FFFF_FFFFu64) == 0 && (b & 0x7FFF_FFFF_FFFF_FFFFu64) == 0)
    }
}

} // verus!
