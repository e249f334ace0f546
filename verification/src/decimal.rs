//! Decimals and the arithmetic unit that computes with them.
//!
//! A decimal is held as the 64 bits of its IEEE 754 double-precision
//! encoding. The library moves decimals around and flips their sign; every
//! other operation on them is asked of a [`DecimalArith`] that the caller
//! supplies. The library relies on nothing that the unit answers: its
//! contracts say what the unit was asked, and that a result holds what the
//! unit answered.

use vstd::prelude::*;

verus! {

/// The bit that holds the sign of a decimal.
pub const SIGN_BIT: u64 = 0x8000_0000_0000_0000;

/// The arithmetic on decimals that an evaluation needs.
///
/// Every decimal among the arguments and results is given by its bits.
pub trait DecimalArith {
    /// The decimal nearest to an integer.
    fn from_int(&self, n: i64) -> u64;

    /// The decimal that a literal of digits, a dot and digits denotes.
    fn parse(&self, literal: &str) -> u64;

    /// `a + b`.
    fn sum(&self, a: u64, b: u64) -> u64;

    /// `a - b`.
    fn difference(&self, a: u64, b: u64) -> u64;

    /// `a * b`.
    fn product(&self, a: u64, b: u64) -> u64;

    /// `a / b`.
    fn quotient(&self, a: u64, b: u64) -> u64;

    /// `base` to the power of `exponent`.
    fn power(&self, base: u64, exponent: u64) -> u64;

    /// A decimal to the power of an integer.
    fn power_int(&self, base: u64, exponent: i32) -> u64;

    /// A decimal as text for a reader.
    fn display(&self, bits: u64) -> String;

    /// A decimal as text in full, so that it is told from an integer.
    fn debug(&self, bits: u64) -> String;
}

/// The bits of a decimal with its sign flipped.
pub open spec fn flipped(bits: u64) -> u64 {
    bits ^ SIGN_BIT
}

/// Negates a decimal: the sign bit changes, and nothing else.
pub fn negate(bits: u64) -> (negated: u64)
    ensures
        negated == flipped(bits),
{
    bits ^ SIGN_BIT
}

/// Negating a decimal twice gives it back.
pub proof fn lemma_negate_twice(bits: u64)
    ensures
        flipped(flipped(bits)) == bits,
{
    assert((bits ^ 0x8000_0000_0000_0000u64) ^ 0x8000_0000_0000_0000u64 == bits) by (bit_vector);
}

} // verus!
