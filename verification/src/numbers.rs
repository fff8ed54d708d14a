//! Greatest common divisor and least common multiple on 64-bit integers,
//! with the number-theoretic facts the fraction type is built on.

use crate::error::FractionError;
use vstd::arithmetic::div_mod::lemma_fundamental_div_mod;
use vstd::arithmetic::div_mod::lemma_fundamental_div_mod_converse;
use vstd::arithmetic::div_mod::lemma_div_by_multiple;
use vstd::arithmetic::div_mod::lemma_mod_self_0;
use vstd::arithmetic::mul::lemma_mul_equality_converse;
use vstd::arithmetic::mul::lemma_mul_is_commutative;
use vstd::arithmetic::mul::lemma_mul_strictly_positive;
use vstd::arithmetic::power2::lemma2_to64;
use vstd::arithmetic::power2::lemma2_to64_rest;
use vstd::arithmetic::power2::lemma_pow2_adds;
use vstd::arithmetic::power2::lemma_pow2_pos;
use vstd::arithmetic::power2::lemma_pow2_strictly_increases;
use vstd::arithmetic::power2::lemma_pow2_unfold;
use vstd::arithmetic::power2::pow2;
use vstd::prelude::*;

verus! {

/// The greatest common divisor of two naturals, by Euclid's algorithm.
/// `gcd_nat(a, 0) == a`, so `gcd_nat(0, 0) == 0`.
pub open spec fn gcd_nat(a: nat, b: nat) -> nat
    decreases b,
{
    if b == 0 {
        a
    } else {
        gcd_nat(b, a % b)
    }
}

/// The least common multiple of two naturals; `lcm_nat(0, 0) == 0`.
pub open spec fn lcm_nat(a: nat, b: nat) -> nat {
    if a == 0 && b == 0 {
        0
    } else {
        (a / gcd_nat(a, b)) * b
    }
}

/// `d` divides `a` without remainder.
pub open spec fn is_divisor_of(d: nat, a: nat) -> bool {
    exists|k: nat| a == #[trigger] (d * k)
}

/// The greatest common divisor of two u64 values by Euclid's algorithm;
/// `gcd(a, 0) == a` and `gcd(0, 0) == 0`.
pub fn gcd(a: u64, b: u64) -> (g: u64)
    ensures
        g == gcd_nat(a as nat, b as nat),
{
    let mut x = a;
    let mut y = b;
    while y != 0
        invariant
            gcd_nat(x as nat, y as nat) == gcd_nat(a as nat, b as nat),
        decreases y,
    {
        let t = y;
        y = x % y;
        x = t;
    }
    x
}

/// The greatest common divisor divides both of its arguments.
pub proof fn lemma_gcd_divides(a: nat, b: nat)
    ensures
        is_divisor_of(gcd_nat(a, b), a),
        is_divisor_of(gcd_nat(a, b), b),
    decreases b,
{
    let g = gcd_nat(a, b);
    if b == 0 {
        assert(a == g * 1) by (nonlinear_arith)
            requires g == a;
        assert(b == g * 0) by (nonlinear_arith)
            requires b == 0nat;
    } else {
        lemma_gcd_divides(b, a % b);
        let k1 = choose|k: nat| b == #[trigger] (g * k);
        let k2 = choose|k: nat| (a % b) == #[trigger] (g * k);
        lemma_fundamental_div_mod(a as int, b as int);
        let q = a as int / b as int;
        assert(q >= 0) by {
            vstd::arithmetic::div_mod::lemma_div_pos_is_pos(a as int, b as int);
        }
        assert(a == g * (k1 * q + k2)) by (nonlinear_arith)
            requires
                a == b * q + (a % b),
                b == g * k1,
                (a % b) == g * k2;
        assert(a == g * ((k1 * q + k2) as nat));
    }
}

/// The greatest common divisor is positive unless both arguments are zero.
pub proof fn lemma_gcd_pos(a: nat, b: nat)
    ensures
        a > 0 || b > 0 ==> gcd_nat(a, b) > 0,
        gcd_nat(a, b) == 0 ==> a == 0 && b == 0,
    decreases b,
{
    if b != 0 {
        lemma_gcd_pos(b, a % b);
    }
}

/// A common factor moves out of the remainder: `(k*a) % (k*b) == k * (a % b)`.
proof fn lemma_mod_scale(k: nat, a: nat, b: nat)
    requires
        k > 0,
        b > 0,
    ensures
        (k * a) % (k * b) == k * (a % b),
{
    lemma_fundamental_div_mod(a as int, b as int);
    let q = a as int / b as int;
    assert(q >= 0) by {
        vstd::arithmetic::div_mod::lemma_div_pos_is_pos(a as int, b as int);
    }
    lemma_mul_strictly_positive(k as int, b as int);
    assert(k * a == q * (k * b) + k * (a % b) && 0 <= k * (a % b) < k * b) by (nonlinear_arith)
        requires
            a == b * q + (a % b),
            0 <= (a % b) < b,
            k > 0;
    lemma_fundamental_div_mod_converse((k * a) as int, (k * b) as int, q, (k * (a % b)) as int);
}

/// The greatest common divisor scales with a common factor:
/// `gcd(k*a, k*b) == k * gcd(a, b)`.
pub proof fn lemma_gcd_scale(k: nat, a: nat, b: nat)
    requires
        k > 0,
    ensures
        gcd_nat(k * a, k * b) == k * gcd_nat(a, b),
    decreases b,
{
    if b == 0 {
        assert(k * b == 0) by (nonlinear_arith)
            requires b == 0nat;
    } else {
        lemma_mul_strictly_positive(k as int, b as int);
        lemma_mod_scale(k, a, b);
        lemma_gcd_scale(k, b, a % b);
    }
}

/// The least common multiple of two u64 values, at least one nonzero;
/// the caller must have bounded the result.
pub fn lcm(a: u64, b: u64) -> (l: u64)
    requires
        a != 0 || b != 0,
        lcm_nat(a as nat, b as nat) <= u64::MAX,
    ensures
        l == lcm_nat(a as nat, b as nat),
{
    proof {
        lemma_gcd_pos(a as nat, b as nat);
    }
    let g = gcd(a, b);
    (a / g) * b
}

/// The magnitude of a signed 64-bit integer, as an unsigned one.
pub(crate) fn magnitude(x: i64) -> (m: u64)
    ensures
        m == vstd::math::abs(x as int),
{
    if x >= 0 {
        x as u64
    } else {
        (-(x as i128)) as u64
    }
}

/// The greatest common divisor of the magnitudes of two signed inputs,
/// guarded: it reports `GcdError` exactly when a magnitude cannot be
/// taken (the input is the smallest representable integer), and carries a
/// hard cap on its iteration count as a defensive bound, which the loop
/// provably never reaches.
pub fn checked_gcd(a: i64, b: i64) -> (r: Result<u64, FractionError>)
    ensures
        r is Ok <==> a != i64::MIN && b != i64::MIN,
        r is Err ==> r == Err::<u64, FractionError>(FractionError::GcdError),
        r matches Ok(g) ==> g == gcd_nat(vstd::math::abs(a as int), vstd::math::abs(b as int)),
{
    if a == i64::MIN || b == i64::MIN {
        return Err(FractionError::GcdError);
    }
    let mut x = magnitude(a);
    let mut y = magnitude(b);
    let mut steps: u64 = 0;
    proof {
        lemma2_to64();
        lemma2_to64_rest();
    }
    while y != 0
        invariant
            gcd_nat(x as nat, y as nat) == gcd_nat(
                vstd::math::abs(a as int),
                vstd::math::abs(b as int),
            ),
            x < 0x8000000000000000,
            y < 0x8000000000000000,
            steps <= 130,
            steps == 0 || y < x,
            steps >= 1 ==> (x as nat) * pow2((((steps - 1) / 2) as nat)) < pow2(65),
            steps >= 1 ==> (y as nat) * pow2(((steps / 2) as nat)) < pow2(65),
        decreases y,
    {
        proof {
            lemma2_to64();
            lemma2_to64_rest();
            if steps >= 1 {
                let k = (steps / 2) as nat;
                vstd::arithmetic::mul::lemma_mul_inequality(1, y as int, pow2(k) as int);
                lemma_pow2_pos(k);
                if k >= 65 {
                    if k > 65 {
                        lemma_pow2_strictly_increases(65, k);
                    }
                    assert(false);
                }
                assert(steps <= 129);
            }
        }
        if steps >= 1000 {
            return Err(FractionError::GcdError);
        }
        let ghost x0 = x;
        let ghost y0 = y;
        let ghost s0 = steps;
        let t = y;
        y = x % y;
        x = t;
        steps = steps + 1;
        proof {
            lemma2_to64();
            lemma2_to64_rest();
            lemma_pow2_unfold(65);
            lemma_pow2_pos((((steps - 1) / 2) as nat));
            lemma_pow2_pos(((steps / 2) as nat));
            if s0 == 0 {
                assert(pow2(0) == 1);
                assert((x as nat) * pow2(0) < pow2(65)) by (nonlinear_arith)
                    requires
                        x < 0x8000000000000000,
                        pow2(0) == 1,
                        pow2(65) == 0x20000000000000000;
                assert((y as nat) * pow2(0) < pow2(65)) by (nonlinear_arith)
                    requires
                        y < 0x8000000000000000,
                        pow2(0) == 1,
                        pow2(65) == 0x20000000000000000;
            } else {
                // The new first component is the old second one.
                assert(((steps - 1) / 2) as nat == (s0 / 2) as nat);
                // The remainder halves the old first component over two steps.
                lemma_mod_at_most_half(x0 as int, y0 as int);
                let kp = ((s0 - 1) / 2) as nat;
                assert((steps / 2) as nat == kp + 1);
                lemma_pow2_adds(kp, 1);
                assert(pow2(kp + 1) == 2 * pow2(kp)) by (nonlinear_arith)
                    requires
                        pow2(kp + 1) == pow2(kp) * pow2(1),
                        pow2(1) == 2;
                assert((y as nat) * pow2(((steps / 2) as nat)) < pow2(65)) by (nonlinear_arith)
                    requires
                        (steps / 2) as nat == kp + 1,
                        pow2(kp + 1) == 2 * pow2(kp),
                        2 * (y as nat) <= x0 as nat,
                        pow2(kp) > 0,
                        (x0 as nat) * pow2(kp) < pow2(65);
            }
        }
    }
    Ok(x)
}

/// The remainder of `x` by a divisor no larger than `x` is at most half
/// of `x`.
proof fn lemma_mod_at_most_half(x: int, y: int) by (nonlinear_arith)
    requires
        0 < y <= x,
    ensures
        2 * (x % y) <= x,
{
}

/// The least common multiple of the magnitudes of two signed inputs,
/// guarded: `GcdError` exactly when a magnitude cannot be taken,
/// `Overflow` exactly when the least common multiple leaves the unsigned
/// 64-bit range; `checked_lcm(0, 0)` is 0.
pub fn checked_lcm(a: i64, b: i64) -> (r: Result<u64, FractionError>)
    ensures
        r is Ok <==> a != i64::MIN && b != i64::MIN && lcm_nat(
            vstd::math::abs(a as int),
            vstd::math::abs(b as int),
        ) <= u64::MAX,
        (a == i64::MIN || b == i64::MIN) ==> r == Err::<u64, FractionError>(
            FractionError::GcdError,
        ),
        a != i64::MIN && b != i64::MIN && lcm_nat(
            vstd::math::abs(a as int),
            vstd::math::abs(b as int),
        ) > u64::MAX ==> r == Err::<u64, FractionError>(FractionError::Overflow),
        r matches Ok(l) ==> l == lcm_nat(vstd::math::abs(a as int), vstd::math::abs(b as int)),
{
    if a == i64::MIN || b == i64::MIN {
        return Err(FractionError::GcdError);
    }
    let x = magnitude(a);
    let y = magnitude(b);
    if x == 0 && y == 0 {
        return Ok(0);
    }
    proof {
        lemma_gcd_pos(x as nat, y as nat);
    }
    let g = gcd(x, y);
    let q = x / g;
    match q.checked_mul(y) {
        Some(l) => Ok(l),
        None => Err(FractionError::Overflow),
    }
}

/// Zero on the left leaves the other argument: `gcd(0, d) == d`.
pub proof fn lemma_gcd_zero_left(d: nat)
    ensures
        gcd_nat(0, d) == d,
{
    if d > 0 {
        vstd::arithmetic::div_mod::lemma_small_mod(0, d);
        assert(gcd_nat(d, 0) == d);
    }
}

/// The greatest common divisor of a number with itself is that number.
pub proof fn lemma_gcd_self(a: nat)
    ensures
        gcd_nat(a, a) == a,
{
    if a > 0 {
        lemma_mod_self_0(a as int);
        assert(a % a == 0);
        assert(gcd_nat(a, 0) == a);
    }
}

/// The greatest common divisor does not depend on argument order.
pub proof fn lemma_gcd_swap(a: nat, b: nat)
    ensures
        gcd_nat(a, b) == gcd_nat(b, a),
{
    if a == 0 {
        lemma_gcd_zero_left(b);
    } else if b == 0 {
        lemma_gcd_zero_left(a);
    } else if a < b {
        vstd::arithmetic::div_mod::lemma_small_mod(a, b);
        assert(gcd_nat(a, b) == gcd_nat(b, a % b));
    } else if a > b {
        vstd::arithmetic::div_mod::lemma_small_mod(b, a);
        assert(gcd_nat(b, a) == gcd_nat(a, b % a));
    }
}

/// Dividing each argument by the greatest common divisor leaves an exact,
/// coprime pair of quotients.
pub proof fn lemma_coprime_parts(n: nat, d: nat)
    requires
        d > 0,
    ensures
        gcd_nat(n, d) > 0,
        n == gcd_nat(n, d) * (n / gcd_nat(n, d)),
        d == gcd_nat(n, d) * (d / gcd_nat(n, d)),
        d / gcd_nat(n, d) > 0,
        gcd_nat(n / gcd_nat(n, d), d / gcd_nat(n, d)) == 1,
{
    let g = gcd_nat(n, d);
    lemma_gcd_pos(n, d);
    lemma_gcd_divides(n, d);
    let k1 = choose|k: nat| n == #[trigger] (g * k);
    let k2 = choose|k: nat| d == #[trigger] (g * k);
    lemma_mul_is_commutative(g as int, k1 as int);
    lemma_mul_is_commutative(g as int, k2 as int);
    lemma_div_by_multiple(k1 as int, g as int);
    lemma_div_by_multiple(k2 as int, g as int);
    assert(n / g == k1 && d / g == k2);
    assert(k2 > 0) by (nonlinear_arith)
        requires
            d == g * k2,
            d > 0;
    lemma_gcd_scale(g, k1, k2);
    assert(g * 1 == g) by (nonlinear_arith);
    lemma_mul_equality_converse(g as int, gcd_nat(k1, k2) as int, 1int);
}

/// The least common multiple of two positive numbers is each denominator
/// times the other's reduced cofactor, and dividing it by either argument
/// gives back that cofactor.
pub proof fn lemma_lcm_quotients(a: nat, b: nat)
    requires
        a > 0,
        b > 0,
    ensures
        lcm_nat(a, b) == a * (b / gcd_nat(a, b)),
        lcm_nat(a, b) == b * (a / gcd_nat(a, b)),
        lcm_nat(a, b) / a == b / gcd_nat(a, b),
        lcm_nat(a, b) / b == a / gcd_nat(a, b),
        lcm_nat(a, b) > 0,
{
    let g = gcd_nat(a, b);
    lemma_coprime_parts(b, a);
    lemma_gcd_swap(a, b);
    let qa = a / g;
    let qb = b / g;
    assert(a == g * qa && b == g * qb && qa > 0 && qb > 0) by {
        assert(b == gcd_nat(b, a) * (b / gcd_nat(b, a)));
        assert(a == gcd_nat(b, a) * (a / gcd_nat(b, a)));
        assert(qa > 0) by (nonlinear_arith)
            requires
                a == g * qa,
                a > 0;
        assert(qb > 0) by (nonlinear_arith)
            requires
                b == g * qb,
                b > 0;
    }
    assert(qa * b == a * qb && qa * b == b * qa && a * qb > 0) by (nonlinear_arith)
        requires
            a == g * qa,
            b == g * qb,
            a > 0,
            qa > 0,
            qb > 0;
    assert(lcm_nat(a, b) == qa * b);
    lemma_div_by_multiple(qb as int, a as int);
    lemma_div_by_multiple(qa as int, b as int);
    assert((qb * a) / a == qb && (qa * b) / b == qa);
    assert(qb * a == a * qb) by (nonlinear_arith);
}

/// A rational value has exactly one reduced representation: two coprime
/// pairs with positive denominators and equal cross products are equal.
pub proof fn lemma_reduced_pair_unique(n1: nat, d1: nat, n2: nat, d2: nat)
    requires
        d1 > 0,
        d2 > 0,
        gcd_nat(n1, d1) == 1,
        gcd_nat(n2, d2) == 1,
        n1 * d2 == n2 * d1,
    ensures
        n1 == n2,
        d1 == d2,
{
    lemma_gcd_scale(d2, n1, d1);
    lemma_gcd_scale(d1, n2, d2);
    assert(d2 * n1 == d1 * n2 && d2 * d1 == d1 * d2) by (nonlinear_arith)
        requires n1 * d2 == n2 * d1;
    assert(d2 * 1 == d2 && d1 * 1 == d1) by (nonlinear_arith);
    assert(d1 == d2);
    lemma_mul_equality_converse(d1 as int, n1 as int, n2 as int);
}

} // verus!
