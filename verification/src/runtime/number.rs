//! Numbers as bit patterns.

use vstd::prelude::*;

verus! {

/// A double-precision number, carried as its IEEE-754 bit pattern together
/// with its decimal rendering.
///
/// The library never computes with the number: it compares bit patterns and
/// reproduces the rendering. Whoever builds a `Number` supplies both.
#[derive(Debug)]
pub struct Number {
    pub bits: u64,
    pub text: String,
}

pub const EXPONENT_MASK: u64 = 0x7ff0_0000_0000_0000;

pub const MAGNITUDE_MASK: u64 = 0x7fff_ffff_ffff_ffff;

/// The bit pattern denotes a NaN: all exponent bits set and a non-zero
/// fraction.
pub open spec fn is_nan(bits: u64) -> bool {
    (bits & MAGNITUDE_MASK) > EXPONENT_MASK
}

/// The bit pattern denotes positive or negative zero.
pub open spec fn is_zero(bits: u64) -> bool {
    (bits & MAGNITUDE_MASK) == 0
}

/// IEEE-754 equality of two doubles given by their bit patterns: a NaN equals
/// nothing, the two zeros equal each other, and every other pair is equal
/// exactly when the patterns coincide.
pub open spec fn ieee_equal(a: u64, b: u64) -> bool {
    !is_nan(a) && !is_nan(b) && ((is_zero(a) && is_zero(b)) || a == b)
}

impl Number {
    pub fn new(bits: u64, text: String) -> (r: Number)
        ensures
            r.bits == bits,
            r.text == text,
    {
        Number { bits, text }
    }

    pub fn is_nan(&self) -> (r: bool)
        ensures
            r == is_nan(self.bits),
    {
        (self.bits & MAGNITUDE_MASK) > EXPONENT_MASK
    }

    /// Numeric equality as IEEE-754 defines it.
    pub fn equal(&self, other: &Number) -> (r: bool)
        ensures
            r == ieee_equal(self.bits, other.bits),
    {
        let a: u64 = self.bits & MAGNITUDE_MASK;
        let b: u64 = other.bits & MAGNITUDE_MASK;
        a <= EXPONENT_MASK && b <= EXPONENT_MASK && ((a == 0 && b == 0) || self.bits == other.bits)
    }
}

impl Clone for Number {
    fn clone(&self) -> (r: Number)
        ensures
            r == *self,
    {
        Number { bits: self.bits, text: self.text.clone() }
    }
}

} // verus!
