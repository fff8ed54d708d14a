use fractions::checked_gcd;
use fractions::checked_lcm;
use fractions::Fraction;
use fractions::FractionError;

#[test]
fn scaled_pairs_are_equal() {
    assert_eq!(Fraction::new(3, 7), Fraction::new(21, 49));
    assert_eq!(Fraction::new(3, 7), Fraction::new(-21, -49));
    assert_eq!(Fraction::new(-3, 7), Fraction::new(9, -21));
}

#[test]
fn reciprocal_twice_is_identity() {
    let f = Fraction::new(-22, 8);
    assert_eq!(f.recip().recip(), f);
}

#[test]
fn additive_inverse_gives_zero() {
    let f = Fraction::new(-7, 12);
    assert_eq!(f + -f, Fraction::zero());
    let g = Fraction::new(i64::MIN, 3);
    assert_eq!(g + -g, Fraction::zero());
}

#[test]
fn multiplicative_inverse_gives_one() {
    let f = Fraction::new(-7, 12);
    assert_eq!(f * f.recip(), Fraction::one());
}

#[test]
fn subtraction_is_antisymmetric() {
    let a = Fraction::new(5, 6);
    let b = Fraction::new(-3, 14);
    assert_eq!(a - b, -(b - a));
}

#[test]
fn order_is_transitive_and_strict() {
    let a = Fraction::new(-1, 2);
    let b = Fraction::new(1, 3);
    let c = Fraction::new(2, 3);
    assert!(a < b && b < c && a < c);
    assert!(!(a < a));
    assert!(c > a);
}

#[test]
fn fallible_constructor_reports_the_error() {
    assert_eq!(
        Fraction::try_new(5, 0),
        Err(FractionError::ZeroDenominator)
    );
    assert_eq!(Fraction::try_new(5, -1), Ok(Fraction::new(-5, 1)));
}

#[test]
fn multiplication_overflow_is_detected() {
    let big = Fraction::new(i64::MAX, 1);
    assert_eq!(big.try_mul(big), Err(FractionError::Overflow));
    let small = Fraction::new(1, i64::MAX);
    assert_eq!(small.try_mul(small), Err(FractionError::Overflow));
    assert!(big.try_mul(Fraction::new(2, 1)).is_ok());
}

#[test]
fn division_by_zero_fraction_is_detected() {
    let f = Fraction::new(3, 4);
    assert_eq!(f.try_div(Fraction::zero()), Err(FractionError::ZeroDenominator));
    assert_eq!(f.try_recip(), Ok(Fraction::new(4, 3)));
    assert_eq!(Fraction::zero().try_recip(), Err(FractionError::ZeroDenominator));
}

#[test]
fn addition_overflow_is_detected() {
    let big = Fraction::new(i64::MIN, 1);
    assert_eq!(big.try_add(big), Err(FractionError::Overflow));
    assert_eq!(big.try_sub(-big), Err(FractionError::Overflow));
    assert_eq!(big.try_sub(big), Ok(Fraction::zero()));
    let wide = Fraction::new(1, i64::MAX);
    let coprime = Fraction::new(1, i64::MAX - 2);
    assert_eq!(wide.try_add(coprime), Err(FractionError::Overflow));
}

#[test]
fn checked_gcd_guards_the_minimum() {
    assert_eq!(checked_gcd(54, 24), Ok(6));
    assert_eq!(checked_gcd(-54, 24), Ok(6));
    assert_eq!(checked_gcd(0, 0), Ok(0));
    assert_eq!(checked_gcd(i64::MIN, 24), Err(FractionError::GcdError));
    assert_eq!(checked_gcd(24, i64::MIN), Err(FractionError::GcdError));
}

#[test]
fn checked_lcm_guards_overflow() {
    assert_eq!(checked_lcm(4, 5), Ok(20));
    assert_eq!(checked_lcm(-21, 6), Ok(42));
    assert_eq!(checked_lcm(0, 0), Ok(0));
    assert_eq!(checked_lcm(i64::MIN, 3), Err(FractionError::GcdError));
    assert_eq!(checked_lcm(i64::MAX, i64::MAX - 1), Err(FractionError::Overflow));
}

#[test]
fn extreme_magnitudes_construct() {
    assert_eq!(Fraction::new(i64::MIN, 2), Fraction::new(i64::MIN / 2, 1));
    assert_eq!(Fraction::new(i64::MIN, i64::MIN), Fraction::one());
    assert_eq!(
        Fraction::new(i64::MAX, -i64::MAX),
        Fraction::new(-1, 1)
    );
}

#[test]
fn display_of_large_values() {
    assert_eq!(Fraction::new(i64::MAX, 1).to_display_string(), "9223372036854775807");
    assert_eq!(Fraction::new(-10, 100).to_display_string(), "-1/10");
    assert_eq!(Fraction::new(100, 10).to_display_string(), "10");
}

#[test]
fn simplify_is_idempotent() {
    let f = Fraction::new(36, -48);
    assert_eq!(f.simplify(), f);
    assert_eq!(f.simplify().simplify(), f);
}
