//! Numbers as the interpreter carries them.
//!
//! A number is held as the 64 bits of an IEEE 754 double (binary64): one sign
//! bit, eleven exponent bits, fifty-two fraction bits. Sign changes and
//! comparisons are decided here, on the bits alone. Rounding arithmetic,
//! the reading of decimal text and the printing of a number are left to the
//! caller, who hands them in as functions on bit patterns.

use vstd::prelude::*;

verus! {

/// The bit that holds the sign.
pub const SIGN_BIT: u64 = 0x8000_0000_0000_0000;

/// The bits of positive infinity: every magnitude above it is a NaN.
pub const INFINITY_BITS: u64 = 0x7FF0_0000_0000_0000;

/// The four operations that round, which the caller computes.
#[derive(Clone, Copy, Debug, PartialEq, Eq, Structural)]
pub enum Arithmetic {
    Add,
    Subtract,
    Multiply,
    Divide,
}

/// The bits without the sign.
pub open spec fn magnitude(bits: u64) -> int {
    if bits >= SIGN_BIT {
        bits - SIGN_BIT
    } else {
        bits as int
    }
}

/// Whether the sign bit is set.
pub open spec fn is_negative(bits: u64) -> bool {
    bits >= SIGN_BIT
}

/// Whether the bits are a NaN: exponent all ones and a fraction that is not zero.
pub open spec fn is_nan(bits: u64) -> bool {
    magnitude(bits) > INFINITY_BITS
}

/// An integer that orders the numbers as their values are ordered. Both zeros
/// get 0; among negative numbers the larger magnitude is the smaller value.
pub open spec fn order_key(bits: u64) -> int {
    if is_negative(bits) {
        -magnitude(bits)
    } else {
        magnitude(bits)
    }
}

/// Numeric equality: no NaN equals anything, and the two zeros are equal.
pub open spec fn number_eq(a: u64, b: u64) -> bool {
    !is_nan(a) && !is_nan(b) && order_key(a) == order_key(b)
}

/// Numeric `<`: false as soon as either side is a NaN.
pub open spec fn number_lt(a: u64, b: u64) -> bool {
    !is_nan(a) && !is_nan(b) && order_key(a) < order_key(b)
}

/// Numeric `<=`: false as soon as either side is a NaN.
pub open spec fn number_le(a: u64, b: u64) -> bool {
    !is_nan(a) && !is_nan(b) && order_key(a) <= order_key(b)
}

/// The same number with the opposite sign.
pub open spec fn negated(bits: u64) -> u64 {
    if bits >= SIGN_BIT {
        (bits - SIGN_BIT) as u64
    } else {
        (bits + SIGN_BIT) as u64
    }
}

/// The sign and the remaining bits of a number, taken apart.
fn split(bits: u64) -> (parts: (bool, u64))
    ensures
        parts.0 == is_negative(bits),
        parts.1 == magnitude(bits),
        parts.1 < SIGN_BIT,
{
    if bits >= SIGN_BIT {
        (true, bits - SIGN_BIT)
    } else {
        (false, bits)
    }
}

/// Flips the sign bit and leaves every other bit as it is, for a NaN too.
pub fn negate(bits: u64) -> (r: u64)
    ensures
        r == negated(bits),
        magnitude(r) == magnitude(bits),
        is_negative(r) != is_negative(bits),
{
    if bits >= SIGN_BIT {
        bits - SIGN_BIT
    } else {
        bits + SIGN_BIT
    }
}

/// Decides `a == b` for two numbers.
pub fn equal(a: u64, b: u64) -> (r: bool)
    ensures
        r == number_eq(a, b),
{
    let (a_negative, a_magnitude) = split(a);
    let (b_negative, b_magnitude) = split(b);
    if a_magnitude > INFINITY_BITS || b_magnitude > INFINITY_BITS {
        false
    } else if a_magnitude == 0 && b_magnitude == 0 {
        true
    } else {
        a_negative == b_negative && a_magnitude == b_magnitude
    }
}

/// Decides `a < b` for two numbers.
pub fn less(a: u64, b: u64) -> (r: bool)
    ensures
        r == number_lt(a, b),
{
    let (a_negative, a_magnitude) = split(a);
    let (b_negative, b_magnitude) = split(b);
    if a_magnitude > INFINITY_BITS || b_magnitude > INFINITY_BITS {
        false
    } else if a_negative {
        if b_negative {
            a_magnitude > b_magnitude
        } else {
            a_magnitude > 0 || b_magnitude > 0
        }
    } else {
        !b_negative && a_magnitude < b_magnitude
    }
}

/// Decides `a <= b` for two numbers.
pub fn less_equal(a: u64, b: u64) -> (r: bool)
    ensures
        r == number_le(a, b),
{
    let (a_negative, a_magnitude) = split(a);
    let (b_negative, b_magnitude) = split(b);
    if a_magnitude > INFINITY_BITS || b_magnitude > INFINITY_BITS {
        false
    } else if a_negative {
        if b_negative {
            a_magnitude >= b_magnitude
        } else {
            true
        }
    } else if b_negative {
        a_magnitude == 0 && b_magnitude == 0
    } else {
        a_magnitude <= b_magnitude
    }
}

} // verus!
