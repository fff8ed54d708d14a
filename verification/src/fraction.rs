//! The fraction value type: validated construction, canonicalization,
//! and sign handling.

use crate::error::FractionError;
use crate::numbers::gcd;
use crate::numbers::gcd_nat;
use crate::numbers::lemma_coprime_parts;
use crate::numbers::lemma_gcd_zero_left;
use crate::numbers::lemma_reduced_pair_unique;
use crate::numbers::magnitude;
use vstd::math::abs;
use vstd::prelude::*;

verus! {

/// The sign a fraction carries; the canonical zero is always `Positive`.
#[derive(Debug, Clone, Copy, PartialEq, Eq, Structural)]
pub enum Sign {
    Positive,
    Negative,
}

/// An immutable rational value in canonical form: the denominator is
/// positive, the magnitudes share no common factor, and zero is `0/1`
/// with a positive sign.
#[derive(Debug, Clone, Copy, PartialEq, Eq, Structural)]
pub struct Fraction {
    pub numerator: u64,
    pub denominator: u64,
    pub sign: Sign,
}

impl Fraction {
    /// The signed numerator as a mathematical integer.
    pub open spec fn num(self) -> int {
        match self.sign {
            Sign::Positive => self.numerator as int,
            Sign::Negative => -(self.numerator as int),
        }
    }

    /// The denominator as a mathematical integer.
    pub open spec fn den(self) -> int {
        self.denominator as int
    }

    /// Canonical form: the denominator is positive, numerator and
    /// denominator are coprime (which forces the denominator of a zero
    /// value to be 1), and zero carries a positive sign.
    pub open spec fn wf(self) -> bool {
        &&& self.denominator >= 1
        &&& gcd_nat(self.numerator as nat, self.denominator as nat) == 1
        &&& (self.numerator == 0 ==> self.sign == Sign::Positive)
    }

    /// `self` denotes the same rational value as `n / d` (for `d != 0`),
    /// stated by cross multiplication.
    pub open spec fn represents(self, n: int, d: int) -> bool {
        self.num() * d == n * self.den()
    }

    /// The canonical fraction denoting `n / d`, for `d != 0`: magnitudes
    /// reduced by their greatest common divisor, the sign of the quotient,
    /// and zero collapsed to `0/1` positive.
    pub open spec fn norm(n: int, d: int) -> Fraction
        recommends
            d != 0,
    {
        let nm = abs(n);
        let dm = abs(d);
        let g = gcd_nat(nm, dm);
        if nm == 0 {
            Self::spec_zero()
        } else {
            Fraction {
                numerator: (nm / g) as u64,
                denominator: (dm / g) as u64,
                sign: if (n < 0) == (d < 0) {
                    Sign::Positive
                } else {
                    Sign::Negative
                },
            }
        }
    }

    /// The canonical zero value, `0/1`.
    pub open spec fn spec_zero() -> Fraction {
        Fraction { numerator: 0, denominator: 1, sign: Sign::Positive }
    }

    /// The canonical one value, `1/1`.
    pub open spec fn spec_one() -> Fraction {
        Fraction { numerator: 1, denominator: 1, sign: Sign::Positive }
    }

    /// The arithmetic identity `0/1`.
    pub fn zero() -> (z: Fraction)
        ensures
            z == Self::spec_zero(),
    {
        Fraction { numerator: 0, denominator: 1, sign: Sign::Positive }
    }

    /// The arithmetic identity `1/1`.
    pub fn one() -> (o: Fraction)
        ensures
            o == Self::spec_one(),
    {
        Fraction { numerator: 1, denominator: 1, sign: Sign::Positive }
    }

    /// Builds the canonical fraction with value `numerator / denominator`,
    /// or reports `ZeroDenominator` exactly when the denominator is zero.
    pub fn try_new(numerator: i64, denominator: i64) -> (r: Result<Fraction, FractionError>)
        ensures
            r is Err <==> denominator == 0,
            r is Err ==> r == Err::<Fraction, FractionError>(FractionError::ZeroDenominator),
            r matches Ok(f) ==> f.wf() && f.represents(numerator as int, denominator as int)
                && f == Fraction::norm(numerator as int, denominator as int),
    {
        if denominator == 0 {
            return Err(FractionError::ZeroDenominator);
        }
        let sign = Self::match_sign(numerator, denominator);
        let n = magnitude(numerator);
        let d = magnitude(denominator);
        let raw = Fraction { numerator: n, denominator: d, sign };
        proof {
            lemma_magnitudes_represent(numerator as int, denominator as int, raw);
        }
        let f = raw.simplify();
        proof {
            lemma_represents_trans(f, raw, numerator as int, denominator as int);
            lemma_norm(numerator as int, denominator as int);
            lemma_wf_represents_unique(
                f,
                Fraction::norm(numerator as int, denominator as int),
                numerator as int,
                denominator as int,
            );
        }
        Ok(f)
    }

    /// Builds the canonical fraction with value `numerator / denominator`;
    /// the caller must already have ruled a zero denominator out.
    pub fn new(numerator: i64, denominator: i64) -> (f: Fraction)
        requires
            denominator != 0,
        ensures
            f.wf(),
            f.represents(numerator as int, denominator as int),
            f == Fraction::norm(numerator as int, denominator as int),
    {
        Self::try_new(numerator, denominator).unwrap()
    }

    /// Reduces the magnitudes by their greatest common divisor and collapses
    /// a zero numerator to the canonical zero, keeping the value unchanged.
    pub fn simplify(self) -> (r: Fraction)
        requires
            self.denominator != 0,
        ensures
            r.wf(),
            r.represents(self.num(), self.den()),
            r == Fraction::norm(self.num(), self.den()),
    {
        proof {
            lemma_coprime_parts(self.numerator as nat, self.denominator as nat);
        }
        let ghost sn = self.numerator as nat;
        let ghost sd = self.denominator as nat;
        let g = gcd(self.numerator, self.denominator);
        let numerator = self.numerator / g;
        let denominator = self.denominator / g;
        assert(sn == gcd_nat(sn, sd) * (numerator as nat) && sd == gcd_nat(sn, sd) * (
        denominator as nat));

        if numerator == 0 {
            assert(self.numerator == 0) by {
                assert(sn == gcd_nat(sn, sd) * 0);
                vstd::arithmetic::mul::lemma_mul_basics(gcd_nat(sn, sd) as int);
            }
            assert(Self::spec_zero().wf()) by {
                assert(gcd_nat(1, 0) == 1);
                assert(gcd_nat(0, 1) == 1);
            }
            let z = Fraction::zero();
            assert(z.num() == 0 && self.num() == 0);
            assert(z.represents(self.num(), self.den()));
            proof {
                assert(abs(self.num()) == self.numerator && abs(self.den()) == self.denominator);
                lemma_norm(self.num(), self.den());
                lemma_wf_represents_unique(
                    z,
                    Fraction::norm(self.num(), self.den()),
                    self.num(),
                    self.den(),
                );
            }
            return z;
        }

        let r = Fraction { numerator, denominator, sign: self.sign };
        assert(r.num() * self.den() == self.num() * r.den()) by (nonlinear_arith)
            requires
                self.numerator == g * numerator,
                self.denominator == g * denominator,
                r.num() == if self.sign == Sign::Positive { numerator as int } else { -(numerator as int) },
                self.num() == if self.sign == Sign::Positive { self.numerator as int } else { -(self.numerator as int) },
                r.den() == denominator as int,
                self.den() == self.denominator as int;
        proof {
            assert(abs(self.num()) == self.numerator && abs(self.den()) == self.denominator);
            lemma_norm(self.num(), self.den());
            lemma_wf_represents_unique(
                r,
                Fraction::norm(self.num(), self.den()),
                self.num(),
                self.den(),
            );
        }
        r
    }

    /// The reciprocal's shape: magnitudes swapped, sign kept.
    pub open spec fn recip_spec(self) -> Fraction {
        Fraction { numerator: self.denominator, denominator: self.numerator, sign: self.sign }
    }

    /// The negation's shape: the sign flipped, except that zero stays the
    /// canonical zero.
    pub open spec fn negated(self) -> Fraction {
        if self.numerator == 0 {
            Self::spec_zero()
        } else {
            Fraction {
                numerator: self.numerator,
                denominator: self.denominator,
                sign: if self.sign == Sign::Positive {
                    Sign::Negative
                } else {
                    Sign::Positive
                },
            }
        }
    }

    /// The canonical sum of two fractions.
    pub open spec fn sum_spec(self, other: Fraction) -> Fraction {
        Self::norm(
            self.num() * other.den() + other.num() * self.den(),
            self.den() * other.den(),
        )
    }

    /// The canonical difference of two fractions.
    pub open spec fn difference_spec(self, other: Fraction) -> Fraction {
        Self::norm(
            self.num() * other.den() - other.num() * self.den(),
            self.den() * other.den(),
        )
    }

    /// The canonical product of two fractions.
    pub open spec fn product_spec(self, other: Fraction) -> Fraction {
        Self::norm(self.num() * other.num(), self.den() * other.den())
    }

    /// The canonical quotient of two fractions (the divisor nonzero).
    pub open spec fn quotient_spec(self, other: Fraction) -> Fraction {
        Self::norm(self.num() * other.den(), self.den() * other.num())
    }

    /// The reciprocal: swaps the magnitudes and keeps the sign. The value
    /// must be nonzero.
    pub fn recip(self) -> (r: Fraction)
        requires
            self.numerator != 0,
        ensures
            r == self.recip_spec(),
            self.wf() ==> r.wf(),
    {
        proof {
            if self.wf() {
                crate::numbers::lemma_gcd_swap(self.numerator as nat, self.denominator as nat);
            }
        }
        Fraction { numerator: self.denominator, denominator: self.numerator, sign: self.sign }
    }

    /// The reciprocal, or `ZeroDenominator` exactly when the value is zero.
    pub fn try_recip(self) -> (r: Result<Fraction, FractionError>)
        ensures
            r is Err <==> self.numerator == 0,
            r is Err ==> r == Err::<Fraction, FractionError>(FractionError::ZeroDenominator),
            r matches Ok(f) ==> f == self.recip_spec() && (self.wf() ==> f.wf()),
    {
        if self.numerator == 0 {
            Err(FractionError::ZeroDenominator)
        } else {
            Ok(self.recip())
        }
    }

    /// The sign that the quotient of two signed integers carries.
    fn match_sign(numerator: i64, denominator: i64) -> (s: Sign)
        ensures
            s == (if (numerator < 0) == (denominator < 0) { Sign::Positive } else { Sign::Negative }),
    {
        let sign1 = if numerator < 0 { Sign::Negative } else { Sign::Positive };
        let sign2 = if denominator < 0 { Sign::Negative } else { Sign::Positive };
        Fraction::combine_signs(sign1, sign2)
    }

    /// The sign of a product: positive exactly when the factors agree.
    pub(crate) fn combine_signs(sign1: Sign, sign2: Sign) -> (s: Sign)
        ensures
            s == (if sign1 == sign2 { Sign::Positive } else { Sign::Negative }),
    {
        match (sign1, sign2) {
            (Sign::Positive, Sign::Positive) | (Sign::Negative, Sign::Negative) => Sign::Positive,
            (Sign::Positive, Sign::Negative) | (Sign::Negative, Sign::Positive) => Sign::Negative,
        }
    }

    /// The factor `+1` or `-1` that folds the sign into integer arithmetic.
    pub fn sign_factor(&self) -> (f: i64)
        ensures
            f == (if self.sign == Sign::Positive { 1int } else { -1int }),
            self.num() == f * self.numerator,
    {
        proof {
            vstd::arithmetic::mul::lemma_mul_basics(self.numerator as int);
            vstd::arithmetic::mul::lemma_mul_unary_negation(1int, self.numerator as int);
        }
        match self.sign {
            Sign::Positive => 1,
            Sign::Negative => -1,
        }
    }
}

/// A rational value has exactly one canonical fraction: two well-formed
/// fractions that denote the same value are equal.
pub proof fn lemma_canonical_unique(f1: Fraction, f2: Fraction)
    requires
        f1.wf(),
        f2.wf(),
        f1.num() * f2.den() == f2.num() * f1.den(),
    ensures
        f1 == f2,
{
    let n1 = f1.numerator as int;
    let d1 = f1.denominator as int;
    let n2 = f2.numerator as int;
    let d2 = f2.denominator as int;
    if f1.numerator == 0 {
        assert(f1.num() == 0);
        assert(f2.num() * d1 == 0) by (nonlinear_arith)
            requires
                f1.num() == 0,
                f1.num() * d2 == f2.num() * d1;
        assert(f2.num() == 0) by (nonlinear_arith)
            requires
                f2.num() * d1 == 0,
                d1 > 0;
        lemma_gcd_zero_left(f1.denominator as nat);
        lemma_gcd_zero_left(f2.denominator as nat);
    } else if f2.numerator == 0 {
        assert(f2.num() == 0);
        assert(f1.num() * d2 == 0) by (nonlinear_arith)
            requires
                f2.num() == 0,
                f1.num() * d2 == f2.num() * d1;
        assert(f1.num() == 0) by (nonlinear_arith)
            requires
                f1.num() * d2 == 0,
                d2 > 0;
    } else {
        if f1.sign != f2.sign {
            assert(false) by (nonlinear_arith)
                requires
                    n1 > 0,
                    n2 > 0,
                    d1 > 0,
                    d2 > 0,
                    f1.num() * d2 == f2.num() * d1,
                    (f1.num() == n1 && f2.num() == -n2) || (f1.num() == -n1 && f2.num() == n2);
        }
        assert(n1 * d2 == n2 * d1) by (nonlinear_arith)
            requires
                f1.num() * d2 == f2.num() * d1,
                (f1.num() == n1 && f2.num() == n2) || (f1.num() == -n1 && f2.num() == -n2);
        lemma_reduced_pair_unique(
            f1.numerator as nat,
            f1.denominator as nat,
            f2.numerator as nat,
            f2.denominator as nat,
        );
    }
}

/// Two well-formed fractions that denote the same rational `n / d` are the
/// same fraction.
pub proof fn lemma_wf_represents_unique(fa: Fraction, fb: Fraction, n: int, d: int)
    requires
        fa.wf(),
        fb.wf(),
        fa.represents(n, d),
        fb.represents(n, d),
        d != 0,
    ensures
        fa == fb,
{
    assert(fa.num() * fb.den() == fb.num() * fa.den()) by (nonlinear_arith)
        requires
            fa.num() * d == n * fa.den(),
            fb.num() * d == n * fb.den(),
            d != 0;
    lemma_canonical_unique(fa, fb);
}

/// `norm` builds a well-formed fraction that denotes the value it was
/// given, whenever the magnitudes fit in 64 bits.
pub proof fn lemma_norm(n: int, d: int)
    requires
        d != 0,
        abs(n) <= u64::MAX,
        abs(d) <= u64::MAX,
    ensures
        Fraction::norm(n, d).wf(),
        Fraction::norm(n, d).represents(n, d),
{
    let nm = abs(n);
    let dm = abs(d);
    let g = gcd_nat(nm, dm);
    lemma_coprime_parts(nm, dm);
    let r = Fraction::norm(n, d);
    if nm == 0 {
        assert(gcd_nat(1, 0) == 1);
        assert(gcd_nat(0, 1) == 1);
        assert(r.represents(n, d));
    } else {
        assert(nm / g <= nm && dm / g <= dm) by (nonlinear_arith)
            requires
                g >= 1,
                nm == g * (nm / g),
                dm == g * (dm / g);
        assert(nm / g > 0) by (nonlinear_arith)
            requires
                nm == g * (nm / g),
                nm > 0;
        let raw = Fraction { numerator: nm as u64, denominator: dm as u64, sign: r.sign };
        lemma_magnitudes_represent(n, d, raw);
        assert(r.num() * raw.den() == raw.num() * r.den()) by (nonlinear_arith)
            requires
                raw.numerator == g * r.numerator,
                raw.denominator == g * r.denominator,
                raw.sign == r.sign,
                (r.num() == r.numerator as int && raw.num() == raw.numerator as int) || (r.num()
                    == -(r.numerator as int) && raw.num() == -(raw.numerator as int)),
                r.den() == r.denominator as int,
                raw.den() == raw.denominator as int;
        lemma_represents_trans(r, raw, n, d);
    }
}

/// A well-formed fraction that denotes `n / d` is exactly `norm(n, d)`,
/// however large the raw pair is.
pub proof fn lemma_norm_of_represented(f: Fraction, n: int, d: int)
    requires
        f.wf(),
        f.represents(n, d),
        d != 0,
    ensures
        Fraction::norm(n, d) == f,
{
    let nm = abs(n);
    let dm = abs(d);
    let g = gcd_nat(nm, dm);
    let fn_ = f.numerator as int;
    let fd = f.denominator as int;
    // Strip the signs out of the cross-multiplication equation.
    assert(fn_ * dm == nm * fd) by (nonlinear_arith)
        requires
            f.num() * d == n * f.den(),
            fd == f.den(),
            nm == abs(n),
            dm == abs(d),
            fn_ >= 0,
            fd > 0,
            d != 0,
            (f.num() == fn_ || f.num() == -fn_)
                && (nm == n || nm == -n)
                && (dm == d || dm == -d)
                && abs(f.num()) == fn_;
    if nm == 0 {
        assert(n == 0);
        assert(fn_ * dm == 0);
        assert(fn_ == 0) by (nonlinear_arith)
            requires
                fn_ * dm == nm * fd,
                nm == 0,
                dm > 0,
                fd > 0;
        lemma_gcd_zero_left(f.denominator as nat);
        assert(f == Fraction::spec_zero());
    } else {
        lemma_coprime_parts(nm, dm);
        let qn = nm / g;
        let qd = dm / g;
        assert(fn_ * qd == qn * fd) by (nonlinear_arith)
            requires
                fn_ * dm == nm * fd,
                nm == g * qn,
                dm == g * qd,
                g > 0;
        assert(qn > 0) by (nonlinear_arith)
            requires
                nm == g * qn,
                nm > 0;
        assert(fn_ > 0) by (nonlinear_arith)
            requires
                fn_ * qd == qn * fd,
                qn > 0,
                qd > 0,
                fd > 0,
                fn_ >= 0;
        lemma_reduced_pair_unique(
            f.numerator as nat,
            f.denominator as nat,
            qn,
            qd,
        );
        // The reduced magnitudes agree; the signs agree because the cross
        // products carry the same sign.
        let r = Fraction::norm(n, d);
        assert(r.numerator == f.numerator && r.denominator == f.denominator);
        assert(f.sign == (if (n < 0) == (d < 0) { Sign::Positive } else { Sign::Negative })) by {
            if f.sign == Sign::Positive {
                assert(f.num() == fn_);
                assert((n < 0) == (d < 0)) by (nonlinear_arith)
                    requires
                        f.num() * d == n * f.den(),
                        f.num() == fn_,
                        fn_ > 0,
                        f.den() == fd,
                        fd > 0,
                        n != 0,
                        d != 0;
            } else {
                assert(f.num() == -fn_);
                assert((n < 0) != (d < 0)) by (nonlinear_arith)
                    requires
                        f.num() * d == n * f.den(),
                        f.num() == -fn_,
                        fn_ > 0,
                        f.den() == fd,
                        fd > 0,
                        n != 0,
                        d != 0;
            }
        }
    }
}

/// Splitting a signed pair into a sign and two magnitudes preserves the
/// value it denotes.
proof fn lemma_magnitudes_represent(n: int, d: int, f: Fraction)
    requires
        d != 0,
        f.numerator as int == abs(n),
        f.denominator as int == abs(d),
        f.sign == (if (n < 0) == (d < 0) { Sign::Positive } else { Sign::Negative }),
    ensures
        f.represents(n, d),
{
    if n >= 0 && d > 0 {
        assert(f.num() == n && f.den() == d);
    } else if n < 0 && d > 0 {
        assert(f.num() == n && f.den() == d);
    } else if n >= 0 && d < 0 {
        assert(f.num() == -n && f.den() == -d);
        vstd::arithmetic::mul::lemma_mul_unary_negation(n, d);
    } else {
        assert(f.num() == -n && f.den() == -d);
        vstd::arithmetic::mul::lemma_mul_unary_negation(n, d);
    }
}

/// Cross-multiplication equality is transitive: if `fa` and `fb` denote the
/// same value and `fb` represents `n / d`, then so does `fa`.
pub proof fn lemma_represents_trans(fa: Fraction, fb: Fraction, n: int, d: int)
    requires
        fa.num() * fb.den() == fb.num() * fa.den(),
        fb.represents(n, d),
        fb.den() > 0,
    ensures
        fa.represents(n, d),
{
    assert(fa.num() * d == n * fa.den()) by (nonlinear_arith)
        requires
            fa.num() * fb.den() == fb.num() * fa.den(),
            fb.num() * d == n * fb.den(),
            fb.den() > 0;
}

} // verus!
