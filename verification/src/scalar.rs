//! The number type that shading and geometry are written against.
//!
//! Every formula of the renderer is written over [`Scalar`], whose
//! operations are only *named*: each executable method promises to return
//! the value of a specification function of the same arguments, and nothing
//! else. No algebraic law is assumed of them, so whatever the crate proves
//! holds for every scalar whose operations are functions of their
//! arguments. `Fixed` is such a scalar, with every operation stated over
//! the integers. A scalar whose operations have no such statement, as a
//! floating-point number, gives each specification function the operation
//! itself for its meaning.

use vstd::prelude::*;

verus! {

/// A real-valued quantity: a coordinate, a hit parameter, an intensity.
///
/// Each executable method returns the value of the specification function
/// listed with it. That is the only promise an implementation makes, and the
/// only one this crate relies on: an operation called twice on equal arguments
/// gives equal results.
pub trait Scalar: Sized + Copy {
    /// The additive unit, 0.
    spec fn nil() -> Self;

    /// The multiplicative unit, 1.
    spec fn unit() -> Self;

    /// A value that is above every hit parameter.
    spec fn unbounded() -> Self;

    /// The smallest hit parameter that counts as leaving a surface.
    spec fn tolerance() -> Self;

    /// The circle constant.
    spec fn half_turn() -> Self;

    /// The whole number `n` as a scalar.
    spec fn of_u32(n: u32) -> Self;

    /// The whole number `n` as a scalar.
    spec fn of_i32(n: i32) -> Self;

    /// The whole number `n` as a scalar, for the whole numbers that the two
    /// conversions above take.
    open spec fn lift(n: int) -> Self {
        if 0 <= n <= u32::MAX {
            Self::of_u32(n as u32)
        } else {
            Self::of_i32(n as i32)
        }
    }

    spec fn sum(self, rhs: Self) -> Self;

    spec fn difference(self, rhs: Self) -> Self;

    spec fn product(self, rhs: Self) -> Self;

    spec fn quotient(self, rhs: Self) -> Self;

    /// What is left when `rhs` is taken from the value as often as it goes.
    spec fn remainder(self, rhs: Self) -> Self;

    spec fn negation(self) -> Self;

    spec fn root(self) -> Self;

    spec fn magnitude(self) -> Self;

    /// The larger of two values.
    spec fn upper(self, rhs: Self) -> Self;

    /// The smaller of two values.
    spec fn lower(self, rhs: Self) -> Self;

    spec fn below(self, rhs: Self) -> bool;

    spec fn at_most(self, rhs: Self) -> bool;

    spec fn same(self, rhs: Self) -> bool;

    /// The nearest whole number, cut off at the ends of `i32`.
    spec fn nearest(self) -> i32;

    /// The whole number below, cut off at the ends of `i32`.
    spec fn whole_below(self) -> i32;

    /// The whole number above, cut off at the ends of `i32`.
    spec fn whole_above(self) -> i32;

    spec fn tangent(self) -> Self;

    spec fn radians(self) -> Self;

    spec fn degrees(self) -> Self;

    spec fn arc_sine(self) -> Self;

    spec fn arc_tangent(self, x: Self) -> Self;

    spec fn sine(self) -> Self;

    spec fn cosine(self) -> Self;

    spec fn arc_cosine(self) -> Self;

    spec fn cube_root(self) -> Self;

    fn zero() -> (r: Self)
        ensures
            r == Self::nil(),
    ;

    fn one() -> (r: Self)
        ensures
            r == Self::unit(),
    ;

    fn infinity() -> (r: Self)
        ensures
            r == Self::unbounded(),
    ;

    fn epsilon() -> (r: Self)
        ensures
            r == Self::tolerance(),
    ;

    fn pi() -> (r: Self)
        ensures
            r == Self::half_turn(),
    ;

    fn from_u32(n: u32) -> (r: Self)
        ensures
            r == Self::lift(n as int),
    ;

    fn from_i32(n: i32) -> (r: Self)
        ensures
            r == Self::lift(n as int),
    ;

    fn add(self, rhs: Self) -> (r: Self)
        ensures
            r == self.sum(rhs),
    ;

    fn sub(self, rhs: Self) -> (r: Self)
        ensures
            r == self.difference(rhs),
    ;

    fn mul(self, rhs: Self) -> (r: Self)
        ensures
            r == self.product(rhs),
    ;

    fn div(self, rhs: Self) -> (r: Self)
        ensures
            r == self.quotient(rhs),
    ;

    fn rem(self, rhs: Self) -> (r: Self)
        ensures
            r == self.remainder(rhs),
    ;

    fn neg(self) -> (r: Self)
        ensures
            r == self.negation(),
    ;

    fn sqrt(self) -> (r: Self)
        ensures
            r == self.root(),
    ;

    fn abs(self) -> (r: Self)
        ensures
            r == self.magnitude(),
    ;

    fn max(self, rhs: Self) -> (r: Self)
        ensures
            r == self.upper(rhs),
    ;

    fn min(self, rhs: Self) -> (r: Self)
        ensures
            r == self.lower(rhs),
    ;

    fn lt(self, rhs: Self) -> (r: bool)
        ensures
            r == self.below(rhs),
    ;

    fn le(self, rhs: Self) -> (r: bool)
        ensures
            r == self.at_most(rhs),
    ;

    fn eq(self, rhs: Self) -> (r: bool)
        ensures
            r == self.same(rhs),
    ;

    fn round(self) -> (r: i32)
        ensures
            r == self.nearest(),
    ;

    fn floor(self) -> (r: i32)
        ensures
            r == self.whole_below(),
    ;

    fn ceil(self) -> (r: i32)
        ensures
            r == self.whole_above(),
    ;

    fn tan(self) -> (r: Self)
        ensures
            r == self.tangent(),
    ;

    fn to_radians(self) -> (r: Self)
        ensures
            r == self.radians(),
    ;

    fn to_degrees(self) -> (r: Self)
        ensures
            r == self.degrees(),
    ;

    fn asin(self) -> (r: Self)
        ensures
            r == self.arc_sine(),
    ;

    fn atan2(self, x: Self) -> (r: Self)
        ensures
            r == self.arc_tangent(x),
    ;

    fn sin(self) -> (r: Self)
        ensures
            r == self.sine(),
    ;

    fn cos(self) -> (r: Self)
        ensures
            r == self.cosine(),
    ;

    fn acos(self) -> (r: Self)
        ensures
            r == self.arc_cosine(),
    ;

    fn cbrt(self) -> (r: Self)
        ensures
            r == self.cube_root(),
    ;
}


} // verus!
