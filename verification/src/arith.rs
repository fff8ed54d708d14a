//! Arithmetic on fractions: negation, addition, subtraction,
//! multiplication and division, each with a fallible form and an
//! operator form, and the compound-assignment methods.

use crate::error::FractionError;
use crate::fraction::lemma_norm_of_represented;
use crate::fraction::lemma_represents_trans;
use crate::fraction::Fraction;
use crate::fraction::Sign;
use crate::numbers::gcd;
use crate::numbers::gcd_nat;
use crate::numbers::lcm_nat;
use crate::numbers::lemma_gcd_zero_left;
use crate::numbers::lemma_lcm_quotients;
use vstd::arithmetic::mul::lemma_mul_cancels_negatives;
use vstd::arithmetic::mul::lemma_mul_strictly_positive;
use vstd::arithmetic::mul::lemma_mul_unary_negation;
use vstd::prelude::*;

verus! {

/// The intermediate magnitudes of an addition over the least common
/// denominator stay in 64-bit range.
pub open spec fn add_within_range(a: Fraction, b: Fraction) -> bool {
    let l = lcm_nat(a.denominator as nat, b.denominator as nat);
    &&& l <= u64::MAX
    &&& a.numerator * (l / (a.denominator as nat)) <= u64::MAX
    &&& b.numerator * (l / (b.denominator as nat)) <= u64::MAX
    &&& (a.sign == b.sign ==> a.numerator * (l / (a.denominator as nat)) + b.numerator * (l / (
    b.denominator as nat)) <= u64::MAX)
}

/// The magnitude products of a multiplication stay in 64-bit range.
pub open spec fn mul_within_range(a: Fraction, b: Fraction) -> bool {
    &&& a.numerator * b.numerator <= u64::MAX
    &&& a.denominator * b.denominator <= u64::MAX
}

/// The magnitude cross products of a division stay in 64-bit range.
pub open spec fn div_within_range(a: Fraction, b: Fraction) -> bool {
    &&& a.numerator * b.denominator <= u64::MAX
    &&& a.denominator * b.numerator <= u64::MAX
}

/// Negation preserves canonical form and negates the value.
pub proof fn lemma_negated_wf(f: Fraction)
    requires
        f.wf(),
    ensures
        f.negated().wf(),
        f.negated().num() == -f.num(),
        f.negated().den() == f.den(),
{
    assert(gcd_nat(1, 0) == 1);
    assert(gcd_nat(0, 1) == 1);
    if f.numerator == 0 {
        lemma_gcd_zero_left(f.denominator as nat);
    }
}

impl core::ops::Neg for Fraction {
    type Output = Fraction;

    /// Flips the sign; zero stays the canonical zero.
    fn neg(self) -> (r: Fraction) {
        if self.numerator == 0 {
            Fraction::zero()
        } else {
            Fraction {
                numerator: self.numerator,
                denominator: self.denominator,
                sign: match self.sign {
                    Sign::Positive => Sign::Negative,
                    Sign::Negative => Sign::Positive,
                },
            }
        }
    }
}

impl vstd::std_specs::ops::NegSpecImpl for Fraction {
    open spec fn obeys_neg_spec() -> bool {
        true
    }

    open spec fn neg_req(self) -> bool {
        true
    }

    open spec fn neg_spec(self) -> Self::Output {
        self.negated()
    }
}

impl Fraction {
    /// The canonical product, or `Overflow` exactly when a magnitude
    /// product leaves the 64-bit range.
    pub fn try_mul(self, other: Fraction) -> (r: Result<Fraction, FractionError>)
        requires
            self.wf(),
            other.wf(),
        ensures
            r is Ok <==> mul_within_range(self, other),
            r is Err ==> r == Err::<Fraction, FractionError>(FractionError::Overflow),
            r matches Ok(p) ==> p.wf() && p == self.product_spec(other) && p.represents(
                self.num() * other.num(),
                self.den() * other.den(),
            ),
    {
        let numerator = match self.numerator.checked_mul(other.numerator) {
            Some(v) => v,
            None => {
                return Err(FractionError::Overflow);
            },
        };
        let denominator = match self.denominator.checked_mul(other.denominator) {
            Some(v) => v,
            None => {
                return Err(FractionError::Overflow);
            },
        };
        let sign = Self::combine_signs(self.sign, other.sign);
        let raw = Fraction { numerator, denominator, sign };
        proof {
            lemma_mul_unary_negation(self.numerator as int, other.numerator as int);
            lemma_mul_cancels_negatives(self.numerator as int, other.numerator as int);
            lemma_mul_strictly_positive(self.den(), other.den());
            assert(raw.num() == self.num() * other.num());
            assert(raw.den() == self.den() * other.den());
        }
        let p = raw.simplify();
        proof {
            lemma_represents_trans(p, raw, self.num() * other.num(), self.den() * other.den());
            lemma_norm_of_represented(p, self.num() * other.num(), self.den() * other.den());
        }
        Ok(p)
    }

    /// The canonical quotient; `ZeroDenominator` exactly when the divisor
    /// is zero, `Overflow` exactly when a cross product leaves the 64-bit
    /// range.
    pub fn try_div(self, other: Fraction) -> (r: Result<Fraction, FractionError>)
        requires
            self.wf(),
            other.wf(),
        ensures
            r is Ok <==> other.numerator != 0 && div_within_range(self, other),
            other.numerator == 0 ==> r == Err::<Fraction, FractionError>(
                FractionError::ZeroDenominator,
            ),
            other.numerator != 0 && !div_within_range(self, other) ==> r == Err::<
                Fraction,
                FractionError,
            >(FractionError::Overflow),
            r matches Ok(q) ==> q.wf() && q == self.quotient_spec(other) && q.represents(
                self.num() * other.den(),
                self.den() * other.num(),
            ),
    {
        if other.numerator == 0 {
            return Err(FractionError::ZeroDenominator);
        }
        let reciprocal = other.recip();
        let numerator = match self.numerator.checked_mul(reciprocal.numerator) {
            Some(v) => v,
            None => {
                return Err(FractionError::Overflow);
            },
        };
        let denominator = match self.denominator.checked_mul(reciprocal.denominator) {
            Some(v) => v,
            None => {
                return Err(FractionError::Overflow);
            },
        };
        let sign = Self::combine_signs(self.sign, reciprocal.sign);
        let raw = Fraction { numerator, denominator, sign };
        proof {
            lemma_mul_unary_negation(self.numerator as int, other.denominator as int);
            lemma_mul_cancels_negatives(self.numerator as int, other.denominator as int);
            lemma_mul_unary_negation(self.denominator as int, other.numerator as int);
            assert(raw.num() * (self.den() * other.num()) == (self.num() * other.den())
                * raw.den()) by (nonlinear_arith)
                requires
                    raw.numerator == self.numerator * other.denominator,
                    raw.denominator == self.denominator * other.numerator,
                    raw.num() == if raw.sign == Sign::Positive {
                        raw.numerator as int
                    } else {
                        -(raw.numerator as int)
                    },
                    raw.den() == raw.denominator as int,
                    self.num() == if self.sign == Sign::Positive {
                        self.numerator as int
                    } else {
                        -(self.numerator as int)
                    },
                    other.num() == if other.sign == Sign::Positive {
                        other.numerator as int
                    } else {
                        -(other.numerator as int)
                    },
                    self.den() == self.denominator as int,
                    other.den() == other.denominator as int,
                    raw.sign == (if self.sign == other.sign {
                        Sign::Positive
                    } else {
                        Sign::Negative
                    });
            assert(self.den() * other.num() != 0) by (nonlinear_arith)
                requires
                    self.den() > 0,
                    other.num() != 0;
            assert(raw.denominator != 0) by (nonlinear_arith)
                requires
                    raw.denominator == self.denominator * other.numerator,
                    self.denominator > 0,
                    other.numerator > 0;
        }
        let q = raw.simplify();
        proof {
            lemma_represents_trans(q, raw, self.num() * other.den(), self.den() * other.num());
            lemma_norm_of_represented(q, self.num() * other.den(), self.den() * other.num());
        }
        Ok(q)
    }
}

impl Fraction {
    /// The canonical sum over the least common denominator, or `Overflow`
    /// exactly when an intermediate magnitude leaves the 64-bit range.
    pub fn try_add(self, other: Fraction) -> (r: Result<Fraction, FractionError>)
        requires
            self.wf(),
            other.wf(),
        ensures
            r is Ok <==> add_within_range(self, other),
            r is Err ==> r == Err::<Fraction, FractionError>(FractionError::Overflow),
            r matches Ok(s) ==> s.wf() && s == self.sum_spec(other) && s.represents(
                self.num() * other.den() + other.num() * self.den(),
                self.den() * other.den(),
            ),
    {
        proof {
            lemma_lcm_quotients(self.denominator as nat, other.denominator as nat);
            crate::numbers::lemma_gcd_pos(self.denominator as nat, other.denominator as nat);
        }
        let g = gcd(self.denominator, other.denominator);
        let m1 = other.denominator / g;
        let m2 = self.denominator / g;
        let l = match self.denominator.checked_mul(m1) {
            Some(v) => v,
            None => {
                return Err(FractionError::Overflow);
            },
        };
        let t1 = match self.numerator.checked_mul(m1) {
            Some(v) => v,
            None => {
                return Err(FractionError::Overflow);
            },
        };
        let t2 = match other.numerator.checked_mul(m2) {
            Some(v) => v,
            None => {
                return Err(FractionError::Overflow);
            },
        };
        let same = self.sign == other.sign;
        let raw = if same {
            let m = match t1.checked_add(t2) {
                Some(v) => v,
                None => {
                    return Err(FractionError::Overflow);
                },
            };
            Fraction { numerator: m, denominator: l, sign: self.sign }
        } else if t1 >= t2 {
            Fraction { numerator: t1 - t2, denominator: l, sign: self.sign }
        } else {
            Fraction { numerator: t2 - t1, denominator: l, sign: other.sign }
        };
        proof {
            lemma_mul_unary_negation(self.numerator as int, m1 as int);
            lemma_mul_unary_negation(other.numerator as int, m2 as int);
            assert(raw.num() == self.num() * (m1 as int) + other.num() * (m2 as int));
            lemma_cross_add(
                self.num(),
                other.num(),
                self.den(),
                other.den(),
                m1 as int,
                m2 as int,
                l as int,
                raw.num(),
            );
            assert(raw.num() * (self.den() * other.den()) == (self.num() * other.den()
                + other.num() * self.den()) * raw.den());
            lemma_mul_strictly_positive(self.den(), other.den());
        }
        let s = raw.simplify();
        proof {
            lemma_represents_trans(
                s,
                raw,
                self.num() * other.den() + other.num() * self.den(),
                self.den() * other.den(),
            );
            lemma_norm_of_represented(
                s,
                self.num() * other.den() + other.num() * self.den(),
                self.den() * other.den(),
            );
        }
        Ok(s)
    }

    /// The canonical difference, computed as the sum with the negated
    /// subtrahend, or `Overflow` exactly when an intermediate magnitude
    /// leaves the 64-bit range.
    pub fn try_sub(self, other: Fraction) -> (r: Result<Fraction, FractionError>)
        requires
            self.wf(),
            other.wf(),
        ensures
            r is Ok <==> add_within_range(self, other.negated()),
            r is Err ==> r == Err::<Fraction, FractionError>(FractionError::Overflow),
            r matches Ok(d) ==> d.wf() && d == self.difference_spec(other) && d.represents(
                self.num() * other.den() - other.num() * self.den(),
                self.den() * other.den(),
            ),
    {
        proof {
            lemma_negated_wf(other);
            lemma_sum_of_negated(self, other);
            lemma_mul_unary_negation(other.num(), self.den());
            assert(self.num() * other.negated().den() + other.negated().num() * self.den()
                == self.num() * other.den() - other.num() * self.den());
            assert(self.den() * other.negated().den() == self.den() * other.den());
        }
        self.try_add(core::ops::Neg::neg(other))
    }
}

/// Scaling both summands to the common denominator keeps the sum's value:
/// the combined numerator over the common multiple `l` cross-multiplies
/// against the plain cross-multiplied sum.
proof fn lemma_cross_add(an: int, bn: int, d1: int, d2: int, m1: int, m2: int, l: int, rn: int) by (nonlinear_arith)
    requires
        rn == an * m1 + bn * m2,
        l == d1 * m1,
        l == d2 * m2,
    ensures
        rn * (d1 * d2) == (an * d2 + bn * d1) * l,
{
}

/// Adding a negated fraction is subtracting the original one.
proof fn lemma_sum_of_negated(a: Fraction, b: Fraction)
    requires
        b.wf(),
    ensures
        a.sum_spec(b.negated()) == a.difference_spec(b),
{
    lemma_negated_wf(b);
    lemma_mul_unary_negation(b.num(), a.den());
    assert(a.num() * b.negated().den() + b.negated().num() * a.den() == a.num() * b.den()
        - b.num() * a.den());
}

impl core::ops::Add for Fraction {
    type Output = Fraction;

    /// Adds over the least common denominator and re-canonicalizes.
    fn add(self, rhs: Fraction) -> (r: Fraction) {
        self.try_add(rhs).unwrap()
    }
}

impl vstd::std_specs::ops::AddSpecImpl for Fraction {
    open spec fn obeys_add_spec() -> bool {
        true
    }

    open spec fn add_req(self, rhs: Fraction) -> bool {
        self.wf() && rhs.wf() && add_within_range(self, rhs)
    }

    open spec fn add_spec(self, rhs: Fraction) -> Self::Output {
        self.sum_spec(rhs)
    }
}

impl core::ops::Sub for Fraction {
    type Output = Fraction;

    /// Subtracts by adding the negated subtrahend.
    fn sub(self, rhs: Fraction) -> (r: Fraction) {
        self.try_sub(rhs).unwrap()
    }
}

impl vstd::std_specs::ops::SubSpecImpl for Fraction {
    open spec fn obeys_sub_spec() -> bool {
        true
    }

    open spec fn sub_req(self, rhs: Fraction) -> bool {
        self.wf() && rhs.wf() && add_within_range(self, rhs.negated())
    }

    open spec fn sub_spec(self, rhs: Fraction) -> Self::Output {
        self.difference_spec(rhs)
    }
}

impl core::ops::Mul for Fraction {
    type Output = Fraction;

    /// Multiplies magnitudes, combines signs, and re-canonicalizes.
    fn mul(self, rhs: Fraction) -> (r: Fraction) {
        self.try_mul(rhs).unwrap()
    }
}

impl vstd::std_specs::ops::MulSpecImpl for Fraction {
    open spec fn obeys_mul_spec() -> bool {
        true
    }

    open spec fn mul_req(self, rhs: Fraction) -> bool {
        self.wf() && rhs.wf() && mul_within_range(self, rhs)
    }

    open spec fn mul_spec(self, rhs: Fraction) -> Self::Output {
        self.product_spec(rhs)
    }
}

impl core::ops::Div for Fraction {
    type Output = Fraction;

    /// Multiplies by the divisor's reciprocal; the divisor must be nonzero.
    fn div(self, rhs: Fraction) -> (r: Fraction) {
        self.try_div(rhs).unwrap()
    }
}

impl vstd::std_specs::ops::DivSpecImpl for Fraction {
    open spec fn obeys_div_spec() -> bool {
        true
    }

    open spec fn div_req(self, rhs: Fraction) -> bool {
        self.wf() && rhs.wf() && rhs.numerator != 0 && div_within_range(self, rhs)
    }

    open spec fn div_spec(self, rhs: Fraction) -> Self::Output {
        self.quotient_spec(rhs)
    }
}

impl Fraction {
    /// Rebinds `self` to the canonical sum `self + other`.
    pub fn add_assign(&mut self, other: Fraction)
        requires
            old(self).wf(),
            other.wf(),
            add_within_range(*old(self), other),
        ensures
            *final(self) == old(self).sum_spec(other),
            final(self).wf(),
    {
        let sum = self.try_add(other).unwrap();
        *self = sum;
    }

    /// Rebinds `self` to the canonical difference `self - other`.
    pub fn sub_assign(&mut self, other: Fraction)
        requires
            old(self).wf(),
            other.wf(),
            add_within_range(*old(self), other.negated()),
        ensures
            *final(self) == old(self).difference_spec(other),
            final(self).wf(),
    {
        let difference = self.try_sub(other).unwrap();
        *self = difference;
    }

    /// Rebinds `self` to the canonical product `self * other`.
    pub fn mul_assign(&mut self, other: Fraction)
        requires
            old(self).wf(),
            other.wf(),
            mul_within_range(*old(self), other),
        ensures
            *final(self) == old(self).product_spec(other),
            final(self).wf(),
    {
        let product = self.try_mul(other).unwrap();
        *self = product;
    }

    /// Rebinds `self` to the canonical quotient `self / other`.
    pub fn div_assign(&mut self, other: Fraction)
        requires
            old(self).wf(),
            other.wf(),
            other.numerator != 0,
            div_within_range(*old(self), other),
        ensures
            *final(self) == old(self).quotient_spec(other),
            final(self).wf(),
    {
        let quotient = self.try_div(other).unwrap();
        *self = quotient;
    }
}

} // verus!
