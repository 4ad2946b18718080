//! IEEE-754 binary64 values, carried as their 64-bit patterns.
//!
//! Bit 63 is the sign, the low 63 bits are the magnitude. A magnitude above
//! that of infinity is a NaN. Negation, the test for zero and the six
//! comparisons are functions of the bits alone and are computed here.

use vstd::prelude::*;

verus! {

/// The sign bit.
pub const SIGN: u64 = 0x8000_0000_0000_0000;

/// The magnitude of positive infinity.
pub const INFINITE: u64 = 0x7ff0_0000_0000_0000;

/// The bits of the circle constant.
pub const PI: u64 = 0x4009_21fb_5444_2d18;

/// The bits of Euler's number.
pub const E: u64 = 0x4005_bf0a_8b14_5769;

/// The pattern without its sign bit.
pub open spec fn magnitude(bits: u64) -> u64 {
    if bits >= SIGN {
        (bits - SIGN) as u64
    } else {
        bits
    }
}

/// Whether the sign bit is set.
pub open spec fn is_negative(bits: u64) -> bool {
    bits >= SIGN
}

/// Whether the pattern is a NaN.
pub open spec fn is_nan(bits: u64) -> bool {
    magnitude(bits) > INFINITE
}

/// Whether the pattern is positive or negative zero.
pub open spec fn is_zero(bits: u64) -> bool {
    magnitude(bits) == 0
}

/// The pattern with its sign bit flipped.
pub open spec fn negated(bits: u64) -> u64 {
    if bits >= SIGN {
        (bits - SIGN) as u64
    } else {
        (bits + SIGN) as u64
    }
}

/// The place of a pattern that is no NaN on the number line: the two zeros
/// share a place, and a larger magnitude lies further from zero.
pub open spec fn place(bits: u64) -> int {
    if bits >= SIGN {
        -(magnitude(bits) as int)
    } else {
        bits as int
    }
}

/// IEEE equality: neither is a NaN and both have the same place.
pub open spec fn same(a: u64, b: u64) -> bool {
    !is_nan(a) && !is_nan(b) && place(a) == place(b)
}

/// IEEE less-than: neither is a NaN and `a` lies left of `b`.
pub open spec fn below(a: u64, b: u64) -> bool {
    !is_nan(a) && !is_nan(b) && place(a) < place(b)
}

fn magnitude_of(bits: u64) -> (r: u64)
    ensures
        r == magnitude(bits),
{
    if bits >= SIGN {
        bits - SIGN
    } else {
        bits
    }
}

/// Flips the sign of a value.
pub fn negate(bits: u64) -> (r: u64)
    ensures
        r == negated(bits),
{
    if bits >= SIGN {
        bits - SIGN
    } else {
        bits + SIGN
    }
}

/// Tests a value for a NaN.
pub fn nan(bits: u64) -> (r: bool)
    ensures
        r == is_nan(bits),
{
    magnitude_of(bits) > INFINITE
}

/// Tests a value for zero of either sign.
pub fn zero(bits: u64) -> (r: bool)
    ensures
        r == is_zero(bits),
{
    magnitude_of(bits) == 0
}

/// IEEE equality of two values.
pub fn equal(a: u64, b: u64) -> (r: bool)
    ensures
        r == same(a, b),
{
    if nan(a) || nan(b) {
        false
    } else if zero(a) && zero(b) {
        true
    } else {
        a == b
    }
}

/// IEEE less-than of two values.
pub fn less(a: u64, b: u64) -> (r: bool)
    ensures
        r == below(a, b),
{
    if nan(a) || nan(b) {
        false
    } else if a >= SIGN {
        if b >= SIGN {
            magnitude_of(a) > magnitude_of(b)
        } else {
            !(zero(a) && zero(b))
        }
    } else {
        if b >= SIGN {
            false
        } else {
            a < b
        }
    }
}

/// Negating twice gives the value back, and negation keeps a NaN a NaN and
/// a zero a zero.
pub proof fn negation_laws(bits: u64)
    ensures
        negated(negated(bits)) == bits,
        is_nan(negated(bits)) == is_nan(bits),
        is_zero(negated(bits)) == is_zero(bits),
        !is_nan(bits) ==> place(negated(bits)) == -place(bits),
{
}

/// Two values that are no NaN are equal, or one lies below the other, and
/// only one of the three holds; a NaN is neither equal to nor below nor
/// above anything.
pub proof fn comparison_laws(a: u64, b: u64)
    ensures
        !is_nan(a) && !is_nan(b) ==> (same(a, b) || below(a, b) || below(b, a)),
        !(same(a, b) && below(a, b)),
        !(below(a, b) && below(b, a)),
        is_nan(a) || is_nan(b) ==> !same(a, b) && !below(a, b) && !below(b, a),
        is_zero(a) && is_zero(b) ==> same(a, b),
{
}

} // verus!
