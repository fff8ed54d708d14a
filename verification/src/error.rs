//! The failure signal shared by fraction construction and arithmetic.

use vstd::prelude::*;

verus! {

/// Why a fraction could not be built or an operation could not complete.
#[derive(Debug, Clone, Copy, PartialEq, Eq, Structural)]
pub enum FractionError {
    /// A fraction was asked for with a zero denominator, or a division by a
    /// zero-valued fraction was attempted.
    ZeroDenominator,
    /// A checked greatest-common-divisor computation could not take the
    /// magnitude of its input, or ran past its iteration cap.
    GcdError,
    /// An intermediate magnitude fell outside the unsigned 64-bit range.
    Overflow,
}

impl FractionError {
    /// The text the failure carries.
    pub fn message(&self) -> (m: &'static str)
        ensures
            self is ZeroDenominator ==> m@ == "Denominator cannot be zero"@,
            self is GcdError ==> m@ == "Gcd computation failed"@,
            self is Overflow ==> m@ == "Multiplication overflow in Fraction"@,
    {
        match self {
            FractionError::ZeroDenominator => "Denominator cannot be zero",
            FractionError::GcdError => "Gcd computation failed",
            FractionError::Overflow => "Multiplication overflow in Fraction",
        }
    }
}

} // verus!
