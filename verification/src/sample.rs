use vstd::prelude::*;

verus! {

/// What the trigger and the edge detectors read of a sample value: its place
/// in the order of numbers.
///
/// `Ordered(k)` stands for a number; keys compare as the numbers they stand
/// for do. `Unordered` stands for a NaN, which is neither less than, equal
/// to nor greater than anything, so every comparison with it is false.
#[derive(Debug, Clone, Copy, PartialEq, Eq, Structural)]
pub enum SampleKey {
    Ordered(i32),
    Unordered,
}

/// Bit 31 of an IEEE 754 binary32 pattern: the sign.
pub open spec fn bits_negative(bits: u32) -> bool {
    bits >= 0x8000_0000
}

/// Bits 0 to 30 of a binary32 pattern: exponent and fraction, which order the
/// magnitudes of numbers as plain integers.
pub open spec fn bits_magnitude(bits: u32) -> int {
    if bits_negative(bits) {
        bits - 0x8000_0000
    } else {
        bits as int
    }
}

/// The pattern is a NaN: all exponent bits set and a nonzero fraction.
pub open spec fn bits_are_nan(bits: u32) -> bool {
    bits_magnitude(bits) > 0x7f80_0000
}

/// The key of the binary32 number with bit pattern `bits`: its magnitude,
/// negated for a negative sign (so both zeros get key 0), or `Unordered` for a NaN.
pub open spec fn key_of_bits(bits: u32) -> SampleKey {
    if bits_are_nan(bits) {
        SampleKey::Unordered
    } else if bits_negative(bits) {
        SampleKey::Ordered((-bits_magnitude(bits)) as i32)
    } else {
        SampleKey::Ordered(bits_magnitude(bits) as i32)
    }
}

/// `a < b` for the values the keys stand for.
pub open spec fn key_lt(a: SampleKey, b: SampleKey) -> bool {
    match (a, b) {
        (SampleKey::Ordered(x), SampleKey::Ordered(y)) => x < y,
        _ => false,
    }
}

/// `a <= b` for the values the keys stand for.
pub open spec fn key_le(a: SampleKey, b: SampleKey) -> bool {
    match (a, b) {
        (SampleKey::Ordered(x), SampleKey::Ordered(y)) => x <= y,
        _ => false,
    }
}

impl SampleKey {
    /// The key of the binary32 number whose bit pattern (as `f32::to_bits`
    /// gives it) is `bits`.
    pub fn from_bits(bits: u32) -> (k: SampleKey)
        ensures
            k == key_of_bits(bits),
    {
        let negative = bits >= 0x8000_0000;
        let magnitude: u32 = if negative {
            bits - 0x8000_0000
        } else {
            bits
        };
        if magnitude > 0x7f80_0000 {
            SampleKey::Unordered
        } else {
            let m: i32 = magnitude as i32;
            if negative {
                SampleKey::Ordered(-m)
            } else {
                SampleKey::Ordered(m)
            }
        }
    }

    /// `self < other`; false when either is a NaN.
    pub fn less_than(&self, other: &SampleKey) -> (b: bool)
        ensures
            b == key_lt(*self, *other),
    {
        match (self, other) {
            (SampleKey::Ordered(x), SampleKey::Ordered(y)) => *x < *y,
            _ => false,
        }
    }

    /// `self <= other`; false when either is a NaN.
    pub fn less_or_equal(&self, other: &SampleKey) -> (b: bool)
        ensures
            b == key_le(*self, *other),
    {
        match (self, other) {
            (SampleKey::Ordered(x), SampleKey::Ordered(y)) => *x <= *y,
            _ => false,
        }
    }
}

} // verus!
