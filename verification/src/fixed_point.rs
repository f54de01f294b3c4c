//! Unsigned binary fixed-point numbers with 70 fraction bits.
//!
//! A `FixedPoint` stores a non-negative rational with 70 binary fraction
//! digits as raw units of 2^-70 in a 128-bit integer.  The difficulty
//! engine uses the same representation for its damping rates.

use vstd::prelude::*;

verus! {

/// Number of binary fraction bits carried by a `FixedPoint` value.
pub const PRECISION: usize = 70;

/// Raw value of the fixed-point constant one: 2^70.
pub const FIXED_ONE: u128 = 0x40_0000_0000_0000_0000;

/// Error raised by fixed-point operations whose result would drop below zero.
#[derive(Debug, Clone, Copy, PartialEq, Eq, Structural)]
pub enum FixedPointError {
    Negative,
}

impl FixedPointError {
    /// A short description of the error.
    pub fn message(&self) -> String {
        "Should not be negative".to_string()
    }
}

/// A non-negative fixed-point number; the field holds the value scaled by 2^70.
#[derive(Debug, Clone, Copy, PartialEq, Eq, Structural)]
pub struct FixedPoint(pub u128);

impl FixedPoint {
    /// The zero value, like `zero`.
    pub fn new() -> (r: FixedPoint)
        ensures
            r.0 == 0,
    {
        Self::zero()
    }

    /// The zero value.
    pub fn zero() -> (r: FixedPoint)
        ensures
            r.0 == 0,
    {
        FixedPoint(0)
    }

    /// The constant one, i.e. 2^70 raw units.
    pub fn one() -> (r: FixedPoint)
        ensures
            r.0 == FIXED_ONE,
    {
        FixedPoint(FIXED_ONE)
    }

    /// Sum of two fixed-point numbers.
    pub fn add(&self, addend: FixedPoint) -> (r: FixedPoint)
        requires
            self.0 + addend.0 <= u128::MAX,
        ensures
            r.0 == self.0 + addend.0,
    {
        FixedPoint(self.0 + addend.0)
    }

    /// Difference of two fixed-point numbers; negative results are rejected.
    pub fn subtruct(&self, subtructend: FixedPoint) -> (r: Result<FixedPoint, FixedPointError>)
        ensures
            self.0 >= subtructend.0 ==> r == Ok::<FixedPoint, FixedPointError>(
                FixedPoint((self.0 - subtructend.0) as u128),
            ),
            self.0 < subtructend.0 ==> r == Err::<FixedPoint, FixedPointError>(
                FixedPointError::Negative,
            ),
    {
        if self.0 < subtructend.0 {
            Err(FixedPointError::Negative)
        } else {
            Ok(FixedPoint(self.0 - subtructend.0))
        }
    }

    /// Product with a plain unsigned integer.
    pub fn multiply_uint(&self, multiplicand: u128) -> (r: FixedPoint)
        requires
            self.0 * multiplicand <= u128::MAX,
        ensures
            r.0 == self.0 * multiplicand,
    {
        FixedPoint(self.0 * multiplicand)
    }

    /// Quotient by a plain unsigned integer, rounding toward zero.
    pub fn divide_uint(&self, divisor: u128) -> (r: FixedPoint)
        requires
            divisor != 0,
        ensures
            r.0 == self.0 / divisor,
    {
        FixedPoint(self.0 / divisor)
    }

    /// Quotient by 2^shift, rounding toward zero.
    pub fn divide_by_power_of_two(&self, shift: usize) -> (r: FixedPoint)
        requires
            shift < 128,
        ensures
            r.0 == self.0 >> shift,
    {
        FixedPoint(self.0 >> shift)
    }
}

impl From<u128> for FixedPoint {
    fn from(value: u128) -> (r: FixedPoint) {
        FixedPoint(value)
    }
}

impl vstd::std_specs::convert::FromSpecImpl<u128> for FixedPoint {
    open spec fn obeys_from_spec() -> bool {
        true
    }

    open spec fn from_spec(value: u128) -> FixedPoint {
        FixedPoint(value)
    }
}

} // verus!
