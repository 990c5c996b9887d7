//! Vectors of three scalars: points, directions and normals.

use crate::sampler::Sampler;
use crate::scalar::Scalar;
use core::ops::{Add, Div, Mul, Neg, Sub};
use vstd::prelude::*;
use vstd::std_specs::ops::{AddSpecImpl, DivSpecImpl, MulSpecImpl, NegSpecImpl, SubSpecImpl};

verus! {

/// A vector of three scalars.
#[derive(Copy, Debug)]
pub struct Vec3<T> {
    pub x: T,
    pub y: T,
    pub z: T,
}

impl<T: Copy> Clone for Vec3<T> {
    fn clone(&self) -> (v: Vec3<T>)
        ensures
            v == *self,
    {
        Vec3 { x: self.x, y: self.y, z: self.z }
    }
}

/// The square of a scalar.
pub open spec fn squared<T: Scalar>(a: T) -> T {
    a.product(a)
}

impl<T: Scalar> Vec3<T> {
    /// The vector of three zeros.
    pub open spec fn origin() -> Vec3<T> {
        Vec3 { x: T::nil(), y: T::nil(), z: T::nil() }
    }

    /// The vector of three ones.
    pub open spec fn ones() -> Vec3<T> {
        Vec3 { x: T::unit(), y: T::unit(), z: T::unit() }
    }

    /// The dot product, summed from `x` to `z`.
    pub open spec fn inner(self, other: Vec3<T>) -> T {
        self.x.product(other.x).sum(self.y.product(other.y)).sum(self.z.product(other.z))
    }

    /// The Euclidean length.
    pub open spec fn norm(self) -> T {
        self.inner(self).root()
    }

    /// The cross product.
    pub open spec fn outer(self, other: Vec3<T>) -> Vec3<T> {
        Vec3 {
            x: self.y.product(other.z).difference(self.z.product(other.y)),
            y: self.z.product(other.x).difference(self.x.product(other.z)),
            z: self.x.product(other.y).difference(self.y.product(other.x)),
        }
    }

    /// Each component times `k`.
    pub open spec fn scaled(self, k: T) -> Vec3<T> {
        Vec3 { x: self.x.product(k), y: self.y.product(k), z: self.z.product(k) }
    }

    /// Each component divided by `k`.
    pub open spec fn shrunk(self, k: T) -> Vec3<T> {
        Vec3 { x: self.x.quotient(k), y: self.y.quotient(k), z: self.z.quotient(k) }
    }

    /// Each component divided by the length.
    pub open spec fn normalized(self) -> Vec3<T> {
        self.shrunk(self.norm())
    }

    /// The sum, component by component.
    pub open spec fn plus(self, other: Vec3<T>) -> Vec3<T> {
        Vec3 { x: self.x.sum(other.x), y: self.y.sum(other.y), z: self.z.sum(other.z) }
    }

    /// The difference, component by component.
    pub open spec fn minus(self, other: Vec3<T>) -> Vec3<T> {
        Vec3 {
            x: self.x.difference(other.x),
            y: self.y.difference(other.y),
            z: self.z.difference(other.z),
        }
    }

    /// The product, component by component.
    pub open spec fn times(self, other: Vec3<T>) -> Vec3<T> {
        Vec3 {
            x: self.x.product(other.x),
            y: self.y.product(other.y),
            z: self.z.product(other.z),
        }
    }

    /// The quotient, component by component.
    pub open spec fn over(self, other: Vec3<T>) -> Vec3<T> {
        Vec3 {
            x: self.x.quotient(other.x),
            y: self.y.quotient(other.y),
            z: self.z.quotient(other.z),
        }
    }

    /// Each component plus `k`.
    pub open spec fn raised(self, k: T) -> Vec3<T> {
        Vec3 { x: self.x.sum(k), y: self.y.sum(k), z: self.z.sum(k) }
    }

    /// Each component minus `k`.
    pub open spec fn lowered(self, k: T) -> Vec3<T> {
        Vec3 { x: self.x.difference(k), y: self.y.difference(k), z: self.z.difference(k) }
    }

    /// Each component negated.
    pub open spec fn negated(self) -> Vec3<T> {
        Vec3 { x: self.x.negation(), y: self.y.negation(), z: self.z.negation() }
    }

    /// `v` mirrored at the normal `n`: `n` times twice `n · v`, minus `v`.
    pub open spec fn mirrored(v: Vec3<T>, n: Vec3<T>) -> Vec3<T> {
        n.scaled(T::lift(2).product(n.inner(v))).minus(v)
    }

    /// The ratio of the refractive indices on the two sides of a surface, from
    /// the side the ray is on to the other.
    pub open spec fn index_ratio(ior: T, inside: bool) -> T {
        if inside {
            ior.quotient(T::unit())
        } else {
            T::unit().quotient(ior)
        }
    }

    /// The cosine between `v` and the normal turned towards `v`'s side.
    pub open spec fn facing_cosine(v: Vec3<T>, n: Vec3<T>, inside: bool) -> T {
        if inside {
            n.inner(v).negation()
        } else {
            n.inner(v)
        }
    }

    /// One minus the squared sine of the refracted angle. Below zero, no ray
    /// is transmitted.
    pub open spec fn discriminant(v: Vec3<T>, n: Vec3<T>, ior: T, inside: bool) -> T {
        let ratio = Self::index_ratio(ior, inside);
        let c = Self::facing_cosine(v, n, inside);
        T::unit().difference(squared(ratio).product(T::unit().difference(squared(c))))
    }

    /// The direction in which `v`, pointing away from the surface, is
    /// transmitted through a surface with normal `n`; `None` on total internal
    /// reflection.
    pub open spec fn refracted(v: Vec3<T>, n: Vec3<T>, ior: T, inside: bool) -> Option<Vec3<T>> {
        let ratio = Self::index_ratio(ior, inside);
        let c = Self::facing_cosine(v, n, inside);
        let nn = if inside { n.negated() } else { n };
        let disc = Self::discriminant(v, n, ior, inside);
        if disc.below(T::nil()) {
            None
        } else {
            Some(
                v.scaled(ratio.negation()).plus(
                    nn.scaled(ratio.product(c).difference(disc.root())),
                ),
            )
        }
    }

    /// The point `alpha` of the way from `v1` to `v2`.
    pub open spec fn mixed(v1: Vec3<T>, v2: Vec3<T>, alpha: T) -> Vec3<T> {
        Vec3 {
            x: v1.x.sum(v2.x.difference(v1.x).product(alpha)),
            y: v1.y.sum(v2.y.difference(v1.y).product(alpha)),
            z: v1.z.sum(v2.z.difference(v1.z).product(alpha)),
        }
    }

    /// Each component raised to at least `min`, then lowered to at most `max`.
    pub open spec fn clamped(self, min: T, max: T) -> Vec3<T> {
        Vec3 {
            x: self.x.upper(min).lower(max),
            y: self.y.upper(min).lower(max),
            z: self.z.upper(min).lower(max),
        }
    }

    /// Whether all three components are the same.
    pub open spec fn same(self, other: Vec3<T>) -> bool {
        self.x.same(other.x) && self.y.same(other.y) && self.z.same(other.z)
    }

    pub fn zero() -> (r: Vec3<T>)
        ensures
            r == Self::origin(),
    {
        Vec3 { x: T::zero(), y: T::zero(), z: T::zero() }
    }

    pub fn one() -> (r: Vec3<T>)
        ensures
            r == Self::ones(),
    {
        Vec3 { x: T::one(), y: T::one(), z: T::one() }
    }

    /// The Euclidean length.
    pub fn len(&self) -> (r: T)
        ensures
            r == self.norm(),
    {
        self.dot(self).sqrt()
    }

    /// The dot product.
    pub fn dot(&self, other: &Vec3<T>) -> (r: T)
        ensures
            r == self.inner(*other),
    {
        self.x.mul(other.x).add(self.y.mul(other.y)).add(self.z.mul(other.z))
    }

    /// The cross product.
    pub fn cross(&self, other: &Vec3<T>) -> (r: Vec3<T>)
        ensures
            r == self.outer(*other),
    {
        Vec3 {
            x: self.y.mul(other.z).sub(self.z.mul(other.y)),
            y: self.z.mul(other.x).sub(self.x.mul(other.z)),
            z: self.x.mul(other.y).sub(self.y.mul(other.x)),
        }
    }

    /// The vector brought to length 1.
    pub fn unit(&self) -> (r: Vec3<T>)
        ensures
            r == self.normalized(),
    {
        let len = self.len();
        Vec3 { x: self.x.div(len), y: self.y.div(len), z: self.z.div(len) }
    }

    /// Each component times `scalar`.
    pub fn scale(&self, scalar: T) -> (r: Vec3<T>)
        ensures
            r == self.scaled(scalar),
    {
        Vec3 { x: self.x.mul(scalar), y: self.y.mul(scalar), z: self.z.mul(scalar) }
    }

    /// Mirrors `v` at the normal `n`. Both should be unit vectors.
    pub fn reflect(v: &Vec3<T>, n: &Vec3<T>) -> (r: Vec3<T>)
        ensures
            r == Self::mirrored(*v, *n),
    {
        n.scale(T::from_u32(2).mul(n.dot(v))) - *v
    }

    /// Refracts `v` at a surface with normal `n` and refractive index `ior`.
    /// `inside` says that the ray is leaving the medium. Both vectors should
    /// be unit vectors.
    pub fn refract(v: &Vec3<T>, n: &Vec3<T>, ior: T, inside: bool) -> (r: Option<Vec3<T>>)
        ensures
            r == Self::refracted(*v, *n, ior, inside),
    {
        let (n1, n2, n_dot_v, nn) = if !inside {
            (T::one(), ior, n.dot(v), *n)
        } else {
            (ior, T::one(), n.dot(v).neg(), (*n).neg())
        };
        let ratio = n1.div(n2);
        let disc = T::one().sub(ratio.mul(ratio).mul(T::one().sub(n_dot_v.mul(n_dot_v))));
        if disc.lt(T::zero()) {
            None
        } else {
            Some(v.scale(ratio.neg()) + nn.scale(ratio.mul(n_dot_v).sub(disc.sqrt())))
        }
    }

    /// The point `alpha` of the way from `v1` to `v2`.
    pub fn lerp(v1: &Vec3<T>, v2: &Vec3<T>, alpha: T) -> (r: Vec3<T>)
        ensures
            r == Self::mixed(*v1, *v2, alpha),
    {
        Vec3 {
            x: v1.x.add(v2.x.sub(v1.x).mul(alpha)),
            y: v1.y.add(v2.y.sub(v1.y).mul(alpha)),
            z: v1.z.add(v2.z.sub(v1.z).mul(alpha)),
        }
    }

    /// Each component brought into `[min, max]`.
    pub fn clamp(&self, min: T, max: T) -> (r: Vec3<T>)
        ensures
            r == self.clamped(min, max),
    {
        Vec3 {
            x: self.x.max(min).min(max),
            y: self.y.max(min).min(max),
            z: self.z.max(min).min(max),
        }
    }

    /// The point of the unit ball that three draws from `[0, 1)` stand for:
    /// `turn` is the share of a whole turn that the point is turned round
    /// the z axis; `rise` is where in `[-1, 1]` the cosine of its angle to
    /// the z axis lies; `fill` is the share of the ball's volume that lies
    /// nearer to the centre than the point. Draws that are even over
    /// `[0, 1)` give points that are even over the ball.
    pub open spec fn ball_point(turn: T, rise: T, fill: T) -> Vec3<T> {
        let phi = T::lift(2).product(T::half_turn()).product(turn);
        let theta = T::lift(2).product(rise).difference(T::unit()).arc_cosine();
        let r = fill.cube_root();
        Vec3 {
            x: r.product(theta.sine()).product(phi.cosine()),
            y: r.product(theta.sine()).product(phi.sine()),
            z: r.product(theta.cosine()),
        }
    }

    /// The point of the unit ball that the three draws stand for.
    pub fn from_draws(turn: T, rise: T, fill: T) -> (r: Vec3<T>)
        ensures
            r == Self::ball_point(turn, rise, fill),
    {
        let phi = T::from_u32(2).mul(T::pi()).mul(turn);
        let theta = T::from_u32(2).mul(rise).sub(T::one()).acos();
        let r = fill.cbrt();
        Vec3 {
            x: r.mul(theta.sin()).mul(phi.cos()),
            y: r.mul(theta.sin()).mul(phi.sin()),
            z: r.mul(theta.cos()),
        }
    }

    /// A point of the unit ball, from three draws of `sampler`: the first
    /// for the turn, the second for the rise, the third for the fill.
    pub fn random<S: Sampler<T>>(sampler: &mut S) -> (r: Vec3<T>)
        ensures
            exists|turn: T, rise: T, fill: T| r == #[trigger] Self::ball_point(turn, rise, fill),
    {
        let turn = sampler.next_unit();
        let rise = sampler.next_unit();
        let fill = sampler.next_unit();
        Self::from_draws(turn, rise, fill)
    }
}

impl<T: Scalar> Add for Vec3<T> {
    type Output = Vec3<T>;

    fn add(self, other: Vec3<T>) -> (r: Vec3<T>) {
        Vec3 { x: self.x.add(other.x), y: self.y.add(other.y), z: self.z.add(other.z) }
    }
}

impl<T: Scalar> AddSpecImpl for Vec3<T> {
    open spec fn obeys_add_spec() -> bool {
        true
    }

    open spec fn add_req(self, other: Vec3<T>) -> bool {
        true
    }

    open spec fn add_spec(self, other: Vec3<T>) -> Vec3<T> {
        self.plus(other)
    }
}

impl<T: Scalar> Add<T> for Vec3<T> {
    type Output = Vec3<T>;

    fn add(self, other: T) -> (r: Vec3<T>) {
        Vec3 { x: self.x.add(other), y: self.y.add(other), z: self.z.add(other) }
    }
}

impl<T: Scalar> AddSpecImpl<T> for Vec3<T> {
    open spec fn obeys_add_spec() -> bool {
        true
    }

    open spec fn add_req(self, other: T) -> bool {
        true
    }

    open spec fn add_spec(self, other: T) -> Vec3<T> {
        self.raised(other)
    }
}

impl<T: Scalar> Sub for Vec3<T> {
    type Output = Vec3<T>;

    fn sub(self, other: Vec3<T>) -> (r: Vec3<T>) {
        Vec3 { x: self.x.sub(other.x), y: self.y.sub(other.y), z: self.z.sub(other.z) }
    }
}

impl<T: Scalar> SubSpecImpl for Vec3<T> {
    open spec fn obeys_sub_spec() -> bool {
        true
    }

    open spec fn sub_req(self, other: Vec3<T>) -> bool {
        true
    }

    open spec fn sub_spec(self, other: Vec3<T>) -> Vec3<T> {
        self.minus(other)
    }
}

impl<T: Scalar> Sub<T> for Vec3<T> {
    type Output = Vec3<T>;

    fn sub(self, other: T) -> (r: Vec3<T>) {
        Vec3 { x: self.x.sub(other), y: self.y.sub(other), z: self.z.sub(other) }
    }
}

impl<T: Scalar> SubSpecImpl<T> for Vec3<T> {
    open spec fn obeys_sub_spec() -> bool {
        true
    }

    open spec fn sub_req(self, other: T) -> bool {
        true
    }

    open spec fn sub_spec(self, other: T) -> Vec3<T> {
        self.lowered(other)
    }
}

impl<T: Scalar> Mul for Vec3<T> {
    type Output = Vec3<T>;

    fn mul(self, other: Vec3<T>) -> (r: Vec3<T>) {
        Vec3 { x: self.x.mul(other.x), y: self.y.mul(other.y), z: self.z.mul(other.z) }
    }
}

impl<T: Scalar> MulSpecImpl for Vec3<T> {
    open spec fn obeys_mul_spec() -> bool {
        true
    }

    open spec fn mul_req(self, other: Vec3<T>) -> bool {
        true
    }

    open spec fn mul_spec(self, other: Vec3<T>) -> Vec3<T> {
        self.times(other)
    }
}

impl<T: Scalar> Mul<T> for Vec3<T> {
    type Output = Vec3<T>;

    fn mul(self, other: T) -> (r: Vec3<T>) {
        Vec3 { x: self.x.mul(other), y: self.y.mul(other), z: self.z.mul(other) }
    }
}

impl<T: Scalar> MulSpecImpl<T> for Vec3<T> {
    open spec fn obeys_mul_spec() -> bool {
        true
    }

    open spec fn mul_req(self, other: T) -> bool {
        true
    }

    open spec fn mul_spec(self, other: T) -> Vec3<T> {
        self.scaled(other)
    }
}

impl<T: Scalar> Div for Vec3<T> {
    type Output = Vec3<T>;

    fn div(self, other: Vec3<T>) -> (r: Vec3<T>) {
        Vec3 { x: self.x.div(other.x), y: self.y.div(other.y), z: self.z.div(other.z) }
    }
}

impl<T: Scalar> DivSpecImpl for Vec3<T> {
    open spec fn obeys_div_spec() -> bool {
        true
    }

    open spec fn div_req(self, other: Vec3<T>) -> bool {
        true
    }

    open spec fn div_spec(self, other: Vec3<T>) -> Vec3<T> {
        self.over(other)
    }
}

impl<T: Scalar> Div<T> for Vec3<T> {
    type Output = Vec3<T>;

    fn div(self, other: T) -> (r: Vec3<T>) {
        Vec3 { x: self.x.div(other), y: self.y.div(other), z: self.z.div(other) }
    }
}

impl<T: Scalar> DivSpecImpl<T> for Vec3<T> {
    open spec fn obeys_div_spec() -> bool {
        true
    }

    open spec fn div_req(self, other: T) -> bool {
        true
    }

    open spec fn div_spec(self, other: T) -> Vec3<T> {
        self.shrunk(other)
    }
}

impl<T: Scalar> Neg for Vec3<T> {
    type Output = Vec3<T>;

    fn neg(self) -> (r: Vec3<T>) {
        Vec3 { x: self.x.neg(), y: self.y.neg(), z: self.z.neg() }
    }
}

impl<T: Scalar> NegSpecImpl for Vec3<T> {
    open spec fn obeys_neg_spec() -> bool {
        true
    }

    open spec fn neg_req(self) -> bool {
        true
    }

    open spec fn neg_spec(self) -> Vec3<T> {
        self.negated()
    }
}

impl<T: Scalar> PartialEq for Vec3<T> {
    fn eq(&self, other: &Vec3<T>) -> (r: bool) {
        self.x.eq(other.x) && self.y.eq(other.y) && self.z.eq(other.z)
    }
}

impl<T: Scalar> vstd::std_specs::cmp::PartialEqSpecImpl for Vec3<T> {
    open spec fn obeys_eq_spec() -> bool {
        true
    }

    open spec fn eq_spec(&self, other: &Vec3<T>) -> bool {
        self.same(*other)
    }
}

} // verus!
