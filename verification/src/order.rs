//! The total order on fractions, by sign and 128-bit cross multiplication.

use crate::fraction::Fraction;
use crate::fraction::Sign;
use vstd::prelude::*;

verus! {

/// How the values of two fractions compare, by cross multiplication.
pub open spec fn cmp_value(a: Fraction, b: Fraction) -> core::cmp::Ordering {
    let lhs = a.num() * b.den();
    let rhs = b.num() * a.den();
    if lhs < rhs {
        core::cmp::Ordering::Less
    } else if lhs == rhs {
        core::cmp::Ordering::Equal
    } else {
        core::cmp::Ordering::Greater
    }
}

/// Compares two unsigned 128-bit magnitudes.
fn cmp_magnitudes(a: u128, b: u128) -> (r: core::cmp::Ordering)
    ensures
        r == (if a < b {
            core::cmp::Ordering::Less
        } else if a == b {
            core::cmp::Ordering::Equal
        } else {
            core::cmp::Ordering::Greater
        }),
{
    if a < b {
        core::cmp::Ordering::Less
    } else if a == b {
        core::cmp::Ordering::Equal
    } else {
        core::cmp::Ordering::Greater
    }
}

impl core::cmp::PartialOrd for Fraction {
    /// Orders by rational value: signs first, then the 128-bit cross
    /// products of the magnitudes, so no intermediate can overflow.
    fn partial_cmp(&self, other: &Fraction) -> (r: Option<core::cmp::Ordering>) {
        proof {
            assert((self.numerator as int) * (other.denominator as int) <= u128::MAX
                && (other.numerator as int) * (self.denominator as int) <= u128::MAX)
                by (nonlinear_arith)
                requires
                    self.numerator <= u64::MAX,
                    other.numerator <= u64::MAX,
                    self.denominator <= u64::MAX,
                    other.denominator <= u64::MAX;
        }
        let lm: u128 = (self.numerator as u128) * (other.denominator as u128);
        let rm: u128 = (other.numerator as u128) * (self.denominator as u128);
        proof {
            assert(lm == (self.numerator as int) * (other.denominator as int)
                && rm == (other.numerator as int) * (self.denominator as int))
                by (nonlinear_arith)
                requires
                    lm == (self.numerator as u128) * (other.denominator as u128),
                    rm == (other.numerator as u128) * (self.denominator as u128);
            vstd::arithmetic::mul::lemma_mul_unary_negation(
                self.numerator as int,
                other.denominator as int,
            );
            vstd::arithmetic::mul::lemma_mul_unary_negation(
                other.numerator as int,
                self.denominator as int,
            );
        }
        match (self.sign, other.sign) {
            (Sign::Positive, Sign::Positive) => Some(cmp_magnitudes(lm, rm)),
            (Sign::Negative, Sign::Negative) => Some(cmp_magnitudes(rm, lm)),
            (Sign::Negative, Sign::Positive) => {
                if lm == 0 && rm == 0 {
                    Some(core::cmp::Ordering::Equal)
                } else {
                    Some(core::cmp::Ordering::Less)
                }
            },
            (Sign::Positive, Sign::Negative) => {
                if lm == 0 && rm == 0 {
                    Some(core::cmp::Ordering::Equal)
                } else {
                    Some(core::cmp::Ordering::Greater)
                }
            },
        }
    }
}

impl vstd::std_specs::cmp::PartialOrdSpecImpl for Fraction {
    open spec fn obeys_partial_cmp_spec() -> bool {
        true
    }

    open spec fn partial_cmp_spec(&self, other: &Fraction) -> Option<core::cmp::Ordering> {
        Some(cmp_value(*self, *other))
    }
}

} // verus!
