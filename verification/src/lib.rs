//! Exact rational arithmetic on 64-bit magnitudes.
//!
//! A [`Fraction`] is an immutable rational value kept in canonical form:
//! the denominator is positive, numerator and denominator share no common
//! factor, and zero is always `0/1` with a positive sign. Construction
//! validates its input, every arithmetic operation re-canonicalizes its
//! result, and the ordering and the rendered text agree with the rational
//! value. The greatest-common-divisor and least-common-multiple helpers
//! the type is built on are exported as free functions.

pub mod arith;
pub mod error;
pub mod fraction;
pub mod laws;
pub mod numbers;
pub mod order;
pub mod render;

pub use error::FractionError;
pub use fraction::Fraction;
pub use fraction::Sign;
pub use numbers::checked_gcd;
pub use numbers::checked_lcm;
pub use numbers::gcd;
pub use numbers::gcd_nat;
pub use numbers::lcm;
pub use numbers::lcm_nat;
