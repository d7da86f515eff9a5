//! Numbers of the language are IEEE 754 double-precision values, held as
//! their 64-bit patterns. What can be decided from the pattern alone is
//! decided here: sign, order, zero, and closeness of a difference to zero.
//! Rounding arithmetic and conversion to and from text are left to the host.

use vstd::prelude::*;

verus! {

/// The pattern with only the sign bit set.
pub const SIGN_BIT: u64 = 0x8000_0000_0000_0000;

/// The pattern of positive infinity; greater magnitudes are not numbers.
pub const INFINITY_BITS: u64 = 0x7ff0_0000_0000_0000;

/// The pattern of the machine epsilon, two to the power of -52.
pub const EPSILON_BITS: u64 = 0x3cb0_0000_0000_0000;

/// Whether the sign bit of `bits` is set.
pub open spec fn is_negative(bits: u64) -> bool {
    bits >= SIGN_BIT
}

/// `bits` with the sign bit cleared.
pub open spec fn magnitude(bits: u64) -> u64 {
    if bits >= SIGN_BIT {
        (bits - SIGN_BIT) as u64
    } else {
        bits
    }
}

/// Whether `bits` is not a number.
pub open spec fn is_nan(bits: u64) -> bool {
    magnitude(bits) > INFINITY_BITS
}

/// Whether `bits` is zero, of either sign.
pub open spec fn is_zero(bits: u64) -> bool {
    magnitude(bits) == 0
}

/// `bits` with the sign bit flipped.
pub open spec fn negated(bits: u64) -> u64 {
    if bits >= SIGN_BIT {
        (bits - SIGN_BIT) as u64
    } else {
        (bits + SIGN_BIT) as u64
    }
}

/// The place of a number in the order of the reals: patterns grow with the
/// magnitude, and the sign mirrors them. Both zeros have the place 0.
pub open spec fn ordinal(bits: u64) -> int {
    if is_negative(bits) {
        -(magnitude(bits) as int)
    } else {
        magnitude(bits) as int
    }
}

/// `a < b` as numbers; false when either is not a number.
pub open spec fn is_less(a: u64, b: u64) -> bool {
    !is_nan(a) && !is_nan(b) && ordinal(a) < ordinal(b)
}

/// `a <= b` as numbers; false when either is not a number.
pub open spec fn is_less_equal(a: u64, b: u64) -> bool {
    !is_nan(a) && !is_nan(b) && ordinal(a) <= ordinal(b)
}

/// Whether a difference is smaller in magnitude than the machine epsilon.
pub open spec fn is_within_epsilon(difference: u64) -> bool {
    magnitude(difference) < EPSILON_BITS
}

pub fn absolute(bits: u64) -> (r: u64)
    ensures
        r == magnitude(bits),
{
    if bits >= SIGN_BIT {
        bits - SIGN_BIT
    } else {
        bits
    }
}

pub fn nan(bits: u64) -> (r: bool)
    ensures
        r == is_nan(bits),
{
    absolute(bits) > INFINITY_BITS
}

pub fn zero(bits: u64) -> (r: bool)
    ensures
        r == is_zero(bits),
{
    absolute(bits) == 0
}

pub fn negate(bits: u64) -> (r: u64)
    ensures
        r == negated(bits),
{
    if bits >= SIGN_BIT {
        bits - SIGN_BIT
    } else {
        bits + SIGN_BIT
    }
}

pub fn less(a: u64, b: u64) -> (r: bool)
    ensures
        r == is_less(a, b),
{
    if nan(a) || nan(b) {
        false
    } else if a >= SIGN_BIT {
        if b >= SIGN_BIT {
            absolute(a) > absolute(b)
        } else {
            absolute(a) > 0 || b > 0
        }
    } else {
        b < SIGN_BIT && a < b
    }
}

pub fn less_equal(a: u64, b: u64) -> (r: bool)
    ensures
        r == is_less_equal(a, b),
{
    if nan(a) || nan(b) {
        false
    } else if a >= SIGN_BIT {
        b < SIGN_BIT || absolute(a) >= absolute(b)
    } else if b >= SIGN_BIT {
        a == 0 && absolute(b) == 0
    } else {
        a <= b
    }
}

pub fn within_epsilon(difference: u64) -> (r: bool)
    ensures
        r == is_within_epsilon(difference),
{
    absolute(difference) < EPSILON_BITS
}

} // verus!
