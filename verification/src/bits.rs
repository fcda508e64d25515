//! Floating-point values held as IEEE 754 bit patterns.

use vstd::prelude::*;

verus! {

/// A binary64 value, by its bits.
#[derive(Debug, Clone, Copy, PartialEq, Eq, Structural)]
pub struct Float64 {
    pub bits: u64,
}

/// A binary32 value, by its bits.
#[derive(Debug, Clone, Copy, PartialEq, Eq, Structural)]
pub struct Float32 {
    pub bits: u32,
}

impl Float64 {
    /// Finite and greater than zero: the sign bit is clear, the exponent is not all ones, and the
    /// value is not zero.
    pub open spec fn positive_finite(self) -> bool {
        0 < self.bits < 0x7ff0_0000_0000_0000
    }

    /// Positive or negative zero.
    pub open spec fn zero(self) -> bool {
        self.bits == 0 || self.bits == 0x8000_0000_0000_0000
    }

    pub fn is_positive_finite(&self) -> (result: bool)
        ensures
            result == self.positive_finite(),
    {
        0 < self.bits && self.bits < 0x7ff0_0000_0000_0000
    }

    pub fn is_zero(&self) -> (result: bool)
        ensures
            result == self.zero(),
    {
        self.bits == 0 || self.bits == 0x8000_0000_0000_0000
    }
}

impl Float32 {
    /// Finite and greater than zero.
    pub open spec fn positive_finite(self) -> bool {
        0 < self.bits < 0x7f80_0000
    }

    pub fn is_positive_finite(&self) -> (result: bool)
        ensures
            result == self.positive_finite(),
    {
        0 < self.bits && self.bits < 0x7f80_0000
    }
}

/// A number is positive and finite where its sign is clear, its exponent is not all ones and it is not
/// zero; zero has two forms.
pub proof fn positive_numbers_have_a_clear_sign(double: Float64, single: Float32)
    ensures
        double.positive_finite() <==> double.bits as int / 0x8000_0000_0000_0000 == 0 && (
        double.bits as int / 0x10_0000_0000_0000) % 0x800 != 0x7ff && double.bits != 0,
        single.positive_finite() <==> single.bits as int / 0x8000_0000 == 0 && (single.bits as int
            / 0x80_0000) % 0x100 != 0xff && single.bits != 0,
        double.zero() <==> double.bits as int % 0x8000_0000_0000_0000 == 0,
{
}

} // verus!
