//! The algebraic laws the fraction type obeys, stated and proved over the
//! canonical model: scaling invariance of construction, the shape of the
//! canonical form, involution of the reciprocal, additive and
//! multiplicative inverses, antisymmetry of subtraction, and the total
//! order's agreement with rational value.

use crate::arith::add_within_range;
use crate::arith::lemma_negated_wf;
use crate::fraction::lemma_norm;
use crate::fraction::lemma_norm_of_represented;
use crate::fraction::lemma_wf_represents_unique;
use crate::fraction::Fraction;
use crate::fraction::Sign;
use crate::numbers::gcd_nat;
use crate::numbers::lcm_nat;
use crate::numbers::lemma_gcd_self;
use crate::numbers::lemma_gcd_zero_left;
use crate::order::cmp_value;
use vstd::arithmetic::mul::lemma_mul_unary_negation;
use vstd::math::abs;
use vstd::prelude::*;

verus! {

/// Scaling numerator and denominator by the same nonzero factor does not
/// change the canonical fraction: `norm(k*n, k*d) == norm(n, d)`.
pub proof fn lemma_scaling_invariant(n: int, d: int, k: int)
    requires
        d != 0,
        k != 0,
        abs(n) <= u64::MAX,
        abs(d) <= u64::MAX,
    ensures
        Fraction::norm(k * n, k * d) == Fraction::norm(n, d),
{
    lemma_norm(n, d);
    let f = Fraction::norm(n, d);
    assert(f.num() * (k * d) == (k * n) * f.den()) by (nonlinear_arith)
        requires
            f.num() * d == n * f.den();
    assert(k * d != 0) by (nonlinear_arith)
        requires
            k != 0,
            d != 0;
    lemma_norm_of_represented(f, k * n, k * d);
}

/// What canonical form guarantees: a positive denominator, coprime
/// magnitudes, and zero held as `0/1` with a positive sign.
pub proof fn lemma_canonical_shape(f: Fraction)
    requires
        f.wf(),
    ensures
        f.denominator >= 1,
        gcd_nat(f.numerator as nat, f.denominator as nat) == 1,
        f.numerator == 0 ==> f.denominator == 1 && f.sign == Sign::Positive,
{
    if f.numerator == 0 {
        lemma_gcd_zero_left(f.denominator as nat);
    }
}

/// Canonicalization is idempotent: the canonical fraction of a
/// well-formed fraction's own value is that fraction, so simplifying an
/// already-simplified value changes nothing.
pub proof fn lemma_norm_idempotent(f: Fraction)
    requires
        f.wf(),
    ensures
        Fraction::norm(f.num(), f.den()) == f,
{
    lemma_norm_of_represented(f, f.num(), f.den());
}

/// Taking the reciprocal twice gives the original fraction back, for any
/// nonzero value.
pub proof fn lemma_recip_involutive(f: Fraction)
    requires
        f.numerator != 0,
    ensures
        f.recip_spec().recip_spec() == f,
{
}

/// A fraction plus its negation is the canonical zero.
pub proof fn lemma_add_opposite(a: Fraction)
    requires
        a.wf(),
    ensures
        a.sum_spec(a.negated()) == Fraction::spec_zero(),
{
    lemma_negated_wf(a);
    lemma_mul_unary_negation(a.num(), a.den());
    let nt = a.num() * a.negated().den() + a.negated().num() * a.den();
    let dt = a.den() * a.negated().den();
    assert(nt == 0);
    assert(Fraction::norm(nt, dt) == Fraction::spec_zero());
}

/// Adding a well-formed fraction to its own negation never leaves the
/// 64-bit range, so the executable sum of opposites is always defined.
pub proof fn lemma_add_opposite_in_range(a: Fraction)
    requires
        a.wf(),
    ensures
        add_within_range(a, a.negated()),
{
    lemma_negated_wf(a);
    let b = a.negated();
    let dm = a.denominator as nat;
    lemma_gcd_self(dm);
    vstd::arithmetic::div_mod::lemma_div_by_self(dm as int);
    if a.numerator == 0 {
        lemma_gcd_zero_left(dm);
        assert(dm == 1);
        assert(gcd_nat(1, 1) == 1) by {
            assert(gcd_nat(1, 0) == 1);
        }
        assert(lcm_nat(1, 1) == 1);
    } else {
        assert(lcm_nat(dm, dm) == (dm / dm) * dm);
        assert(lcm_nat(dm, dm) == dm);
        assert(lcm_nat(dm, dm) / dm == 1) by {
            vstd::arithmetic::div_mod::lemma_div_by_self(dm as int);
        }
        assert(a.numerator * (lcm_nat(dm, dm) / dm) == a.numerator);
        assert(a.sign != b.sign);
    }
}

/// A nonzero fraction times its reciprocal is the canonical one.
pub proof fn lemma_mul_reciprocal(a: Fraction)
    requires
        a.wf(),
        a.numerator != 0,
    ensures
        a.product_spec(a.recip_spec()) == Fraction::spec_one(),
{
    let b = a.recip_spec();
    let nt = a.num() * b.num();
    let dt = a.den() * b.den();
    assert(nt == dt && dt > 0) by (nonlinear_arith)
        requires
            a.numerator > 0,
            a.denominator > 0,
            b.numerator == a.denominator,
            b.denominator == a.numerator,
            b.sign == a.sign,
            a.num() == if a.sign == Sign::Positive {
                a.numerator as int
            } else {
                -(a.numerator as int)
            },
            b.num() == if b.sign == Sign::Positive {
                b.numerator as int
            } else {
                -(b.numerator as int)
            },
            a.den() == a.denominator as int,
            b.den() == b.denominator as int,
            nt == a.num() * b.num(),
            dt == a.den() * b.den();
    let one = Fraction::spec_one();
    assert(one.wf()) by {
        assert(gcd_nat(1, 0) == 1);
        assert(gcd_nat(1, 1) == 1);
    }
    assert(one.num() == 1 && one.den() == 1);
    assert(one.represents(nt, dt)) by (nonlinear_arith)
        requires
            one.num() == 1,
            one.den() == 1,
            nt == dt,
            one.represents(nt, dt) == (one.num() * dt == nt * one.den());
    lemma_norm_of_represented(one, nt, dt);
}

/// Subtraction is antisymmetric: the canonical results of `a - b` and
/// `b - a` are each other's negation.
pub proof fn lemma_sub_antisymmetric(a: Fraction, b: Fraction, x: Fraction, y: Fraction)
    requires
        a.wf(),
        b.wf(),
        x.wf(),
        y.wf(),
        x.represents(a.num() * b.den() - b.num() * a.den(), a.den() * b.den()),
        y.represents(b.num() * a.den() - a.num() * b.den(), b.den() * a.den()),
    ensures
        x == y.negated(),
{
    lemma_negated_wf(y);
    let nt = a.num() * b.den() - b.num() * a.den();
    let dt = a.den() * b.den();
    assert(dt > 0) by (nonlinear_arith)
        requires
            a.den() > 0,
            b.den() > 0,
            dt == a.den() * b.den();
    assert(y.num() * dt == (-nt) * y.den()) by (nonlinear_arith)
        requires
            y.num() * (b.den() * a.den()) == (b.num() * a.den() - a.num() * b.den()) * y.den(),
            nt == a.num() * b.den() - b.num() * a.den(),
            dt == a.den() * b.den();
    assert(y.negated().num() * dt == nt * y.negated().den()) by (nonlinear_arith)
        requires
            y.num() * dt == (-nt) * y.den(),
            y.negated().num() == -y.num(),
            y.negated().den() == y.den();
    lemma_wf_represents_unique(x, y.negated(), nt, dt);
}

/// The value comparison is reflexive-equal exactly on equal canonical
/// fractions.
pub proof fn lemma_cmp_consistent_with_eq(a: Fraction, b: Fraction)
    requires
        a.wf(),
        b.wf(),
    ensures
        cmp_value(a, b) == core::cmp::Ordering::Equal <==> a == b,
{
    if cmp_value(a, b) == core::cmp::Ordering::Equal {
        crate::fraction::lemma_canonical_unique(a, b);
    }
}

/// The value comparison flips under swapping its arguments.
pub proof fn lemma_cmp_antisymmetric(a: Fraction, b: Fraction)
    ensures
        cmp_value(a, b) == core::cmp::Ordering::Less <==> cmp_value(b, a)
            == core::cmp::Ordering::Greater,
        cmp_value(a, b) == core::cmp::Ordering::Equal <==> cmp_value(b, a)
            == core::cmp::Ordering::Equal,
{
}

/// The value comparison is transitive, so the order on fractions is total.
pub proof fn lemma_cmp_transitive(a: Fraction, b: Fraction, c: Fraction)
    requires
        a.wf(),
        b.wf(),
        c.wf(),
        cmp_value(a, b) == core::cmp::Ordering::Less,
        cmp_value(b, c) == core::cmp::Ordering::Less,
    ensures
        cmp_value(a, c) == core::cmp::Ordering::Less,
{
    assert(a.num() * c.den() < c.num() * a.den()) by (nonlinear_arith)
        requires
            a.num() * b.den() < b.num() * a.den(),
            b.num() * c.den() < c.num() * b.den(),
            a.den() > 0,
            b.den() > 0,
            c.den() > 0;
}

} // verus!
