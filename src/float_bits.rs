//! IEEE 754 binary64 values held as their bit patterns, with the
//! ordering and equality that the hardware comparison gives them.
use vstd::prelude::*;

verus! {

/// The sign bit of a binary64 pattern.
pub const SIGN_BIT: u64 = 0x8000_0000_0000_0000;

/// The bit pattern of positive infinity; every larger magnitude is a NaN.
pub const INFINITY_BITS: u64 = 0x7ff0_0000_0000_0000;

/// The pattern with the sign bit cleared.
pub open spec fn magnitude(b: u64) -> int {
    if b >= SIGN_BIT { b - SIGN_BIT } else { b as int }
}

pub open spec fn is_nan(b: u64) -> bool {
    magnitude(b) > INFINITY_BITS
}

pub open spec fn is_finite(b: u64) -> bool {
    magnitude(b) < INFINITY_BITS
}

/// The position of a non-NaN value on the real line: magnitudes grow with
/// the pattern, and both zeros sit at 0.
pub open spec fn ordinal(b: u64) -> int {
    if b >= SIGN_BIT { -magnitude(b) } else { magnitude(b) }
}

/// `a <= b` as binary64 values.
pub open spec fn spec_le(a: u64, b: u64) -> bool {
    !is_nan(a) && !is_nan(b) && ordinal(a) <= ordinal(b)
}

/// `a < b` as binary64 values.
pub open spec fn spec_lt(a: u64, b: u64) -> bool {
    !is_nan(a) && !is_nan(b) && ordinal(a) < ordinal(b)
}

/// `a == b` as binary64 values: NaN equals nothing, and `0.0 == -0.0`.
pub open spec fn spec_eq(a: u64, b: u64) -> bool {
    !is_nan(a) && !is_nan(b) && ordinal(a) == ordinal(b)
}

fn magnitude_of(b: u64) -> (r: u64)
    ensures
        r == magnitude(b),
{
    if b >= SIGN_BIT {
        b - SIGN_BIT
    } else {
        b
    }
}

fn ordinal_of(b: u64) -> (r: i64)
    ensures
        r == ordinal(b),
{
    let m = magnitude_of(b);
    if b >= SIGN_BIT {
        -(m as i64)
    } else {
        m as i64
    }
}

pub fn nan(b: u64) -> (r: bool)
    ensures
        r == is_nan(b),
{
    magnitude_of(b) > INFINITY_BITS
}

pub fn finite(b: u64) -> (r: bool)
    ensures
        r == is_finite(b),
{
    magnitude_of(b) < INFINITY_BITS
}

pub fn le(a: u64, b: u64) -> (r: bool)
    ensures
        r == spec_le(a, b),
{
    !nan(a) && !nan(b) && ordinal_of(a) <= ordinal_of(b)
}

pub fn lt(a: u64, b: u64) -> (r: bool)
    ensures
        r == spec_lt(a, b),
{
    !nan(a) && !nan(b) && ordinal_of(a) < ordinal_of(b)
}

pub fn eq(a: u64, b: u64) -> (r: bool)
    ensures
        r == spec_eq(a, b),
{
    !nan(a) && !nan(b) && ordinal_of(a) == ordinal_of(b)
}

} // verus!
