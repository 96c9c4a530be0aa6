//! Comparison of real values held as the bits of an IEEE-754 binary64
//! number, with the meaning `==` has on `f64`: a NaN equals nothing, not
//! even itself, and `+0.0` equals `-0.0`; any other two values are equal
//! exactly when their bits are.
use vstd::prelude::*;

verus! {

/// Whether `x` is the bit pattern of a NaN: all exponent bits set and a
/// non-zero fraction.
pub open spec fn is_nan_bits(x: u64) -> bool {
    (x & 0x7ff0_0000_0000_0000) == 0x7ff0_0000_0000_0000 && (x & 0x000f_ffff_ffff_ffff) != 0
}

/// Whether `x` is the bit pattern of `+0.0` or `-0.0`.
pub open spec fn is_zero_bits(x: u64) -> bool {
    (x & 0x7fff_ffff_ffff_ffff) == 0
}

/// `f64` equality of the numbers whose bits are `a` and `b`.
pub open spec fn real_bits_eq(a: u64, b: u64) -> bool {
    !is_nan_bits(a) && !is_nan_bits(b) && (a == b || (is_zero_bits(a) && is_zero_bits(b)))
}

/// `f64` equality of two optional numbers: both missing, or both present and
/// equal as numbers.
pub open spec fn opt_real_bits_eq(a: Option<u64>, b: Option<u64>) -> bool {
    match (a, b) {
        (Some(x), Some(y)) => real_bits_eq(x, y),
        (None, None) => true,
        _ => false,
    }
}

/// Compares the numbers whose bits are `a` and `b` as `f64 == f64` does.
pub fn real_bits_equal(a: u64, b: u64) -> (r: bool)
    ensures
        r == real_bits_eq(a, b),
{
    let a_nan = (a & 0x7ff0_0000_0000_0000) == 0x7ff0_0000_0000_0000 && (a & 0x000f_ffff_ffff_ffff) != 0;
    let b_nan = (b & 0x7ff0_0000_0000_0000) == 0x7ff0_0000_0000_0000 && (b & 0x000f_ffff_ffff_ffff) != 0;
    if a_nan || b_nan {
        return false;
    }
    a == b || ((a & 0x7fff_ffff_ffff_ffff) == 0 && (b & 0x7fff_ffff_ffff_ffff) == 0)
}

/// Compares two optional numbers given by their bits as
/// `Option<f64> == Option<f64>` does.
pub fn opt_real_bits_equal(a: Option<u64>, b: Option<u64>) -> (r: bool)
    ensures
        r == opt_real_bits_eq(a, b),
{
    match (a, b) {
        (Some(x), Some(y)) => real_bits_equal(x, y),
        (None, None) => true,
        _ => false,
    }
}

} // verus!
