//! The numbers a graph computes with.
//!
//! The engine never looks inside a number: it only combines numbers through
//! the operations listed in [`Scalar`]. Each operation is given twice, once
//! as a specification function and once as the executable method that
//! computes it, so that every statement about a graph can be made exactly,
//! in terms of the operations of its number type.
use vstd::prelude::*;

verus! {

/// A number type with the arithmetic that the operation catalog needs.
///
/// An implementation promises one thing of each executable method: that its
/// result is the value of the specification function of the same name, that
/// is, that the method is a function of its arguments. No algebraic law
/// (associativity, distributivity, ...) is asked for, so that rounding
/// arithmetic qualifies.
///
/// The specification functions have a default body so that an
/// implementation written in plain Rust need not mention them; a verified
/// implementation overrides each of them.
pub trait Scalar: Copy + Sized {
    /// The number that stands for the integer `n`.
    open spec fn spec_from_int(n: i64) -> Self {
        arbitrary()
    }

    /// The number below every other one, the neutral element of `max`.
    open spec fn spec_neg_infinity() -> Self {
        arbitrary()
    }

    /// `self + rhs`.
    open spec fn spec_plus(self, rhs: Self) -> Self {
        arbitrary()
    }

    /// `self - rhs`.
    open spec fn spec_minus(self, rhs: Self) -> Self {
        arbitrary()
    }

    /// `self * rhs`.
    open spec fn spec_times(self, rhs: Self) -> Self {
        arbitrary()
    }

    /// `self / rhs`.
    open spec fn spec_over(self, rhs: Self) -> Self {
        arbitrary()
    }

    /// `self` raised to the power `exponent`.
    open spec fn spec_powf(self, exponent: Self) -> Self {
        arbitrary()
    }

    /// `e` raised to the power `self`.
    open spec fn spec_exp(self) -> Self {
        arbitrary()
    }

    /// The natural logarithm of `self`.
    open spec fn spec_ln(self) -> Self {
        arbitrary()
    }

    /// The square root of `self`.
    open spec fn spec_sqrt(self) -> Self {
        arbitrary()
    }

    /// The larger of `self` and `rhs`.
    open spec fn spec_max(self, rhs: Self) -> Self {
        arbitrary()
    }

    /// Whether `self` is greater than zero.
    open spec fn spec_is_positive(self) -> bool {
        arbitrary()
    }

    /// Computes the number that stands for the integer `n`.
    fn from_int(n: i64) -> (r: Self)
        ensures
            r == Self::spec_from_int(n),
    ;

    /// Computes the number below every other one.
    fn neg_infinity() -> (r: Self)
        ensures
            r == Self::spec_neg_infinity(),
    ;

    /// Computes `self + rhs`.
    fn plus(self, rhs: Self) -> (r: Self)
        ensures
            r == self.spec_plus(rhs),
    ;

    /// Computes `self - rhs`.
    fn minus(self, rhs: Self) -> (r: Self)
        ensures
            r == self.spec_minus(rhs),
    ;

    /// Computes `self * rhs`.
    fn times(self, rhs: Self) -> (r: Self)
        ensures
            r == self.spec_times(rhs),
    ;

    /// Computes `self / rhs`.
    fn over(self, rhs: Self) -> (r: Self)
        ensures
            r == self.spec_over(rhs),
    ;

    /// Computes `self` raised to the power `exponent`.
    fn powf(self, exponent: Self) -> (r: Self)
        ensures
            r == self.spec_powf(exponent),
    ;

    /// Computes `e` raised to the power `self`.
    fn exp(self) -> (r: Self)
        ensures
            r == self.spec_exp(),
    ;

    /// Computes the natural logarithm of `self`.
    fn ln(self) -> (r: Self)
        ensures
            r == self.spec_ln(),
    ;

    /// Computes the square root of `self`.
    fn sqrt(self) -> (r: Self)
        ensures
            r == self.spec_sqrt(),
    ;

    /// Computes the larger of `self` and `rhs`.
    fn max(self, rhs: Self) -> (r: Self)
        ensures
            r == self.spec_max(rhs),
    ;

    /// Tells whether `self` is greater than zero.
    fn is_positive(self) -> (r: bool)
        ensures
            r == self.spec_is_positive(),
    ;
}

/// Zero, as a number of type `S`.
pub open spec fn zero<S: Scalar>() -> S {
    S::spec_from_int(0)
}

/// One, as a number of type `S`.
pub open spec fn one<S: Scalar>() -> S {
    S::spec_from_int(1)
}

/// Minus one, as a number of type `S`.
pub open spec fn minus_one<S: Scalar>() -> S {
    S::spec_from_int((-1) as i64)
}

/// The number type with a single value.
///
/// Every operation returns that value. A graph over `Trivial` has a shape
/// and gradients that are present or absent, and nothing else: it is the
/// cheapest way to walk a graph's structure.
#[derive(Clone, Copy, Debug)]
pub struct Trivial;

impl Scalar for Trivial {
    open spec fn spec_from_int(n: i64) -> Self {
        Trivial
    }

    open spec fn spec_neg_infinity() -> Self {
        Trivial
    }

    open spec fn spec_plus(self, rhs: Self) -> Self {
        Trivial
    }

    open spec fn spec_minus(self, rhs: Self) -> Self {
        Trivial
    }

    open spec fn spec_times(self, rhs: Self) -> Self {
        Trivial
    }

    open spec fn spec_over(self, rhs: Self) -> Self {
        Trivial
    }

    open spec fn spec_powf(self, exponent: Self) -> Self {
        Trivial
    }

    open spec fn spec_exp(self) -> Self {
        Trivial
    }

    open spec fn spec_ln(self) -> Self {
        Trivial
    }

    open spec fn spec_sqrt(self) -> Self {
        Trivial
    }

    open spec fn spec_max(self, rhs: Self) -> Self {
        Trivial
    }

    open spec fn spec_is_positive(self) -> bool {
        false
    }

    fn from_int(n: i64) -> Self {
        Trivial
    }

    fn neg_infinity() -> Self {
        Trivial
    }

    fn plus(self, rhs: Self) -> Self {
        Trivial
    }

    fn minus(self, rhs: Self) -> Self {
        Trivial
    }

    fn times(self, rhs: Self) -> Self {
        Trivial
    }

    fn over(self, rhs: Self) -> Self {
        Trivial
    }

    fn powf(self, exponent: Self) -> Self {
        Trivial
    }

    fn exp(self) -> Self {
        Trivial
    }

    fn ln(self) -> Self {
        Trivial
    }

    fn sqrt(self) -> Self {
        Trivial
    }

    fn max(self, rhs: Self) -> Self {
        Trivial
    }

    fn is_positive(self) -> bool {
        false
    }
}

} // verus!
