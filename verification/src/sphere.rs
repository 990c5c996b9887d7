//! The sphere.

use crate::bbox::{BBox, Cell, CELLS_PER_UNIT};
use crate::geometry::{Intersection, PartialBoundingBox, Prim};
use crate::material::Material;
use crate::ray::Ray;
use crate::scalar::Scalar;
use crate::transform::Transform;
use crate::vec3::{squared, Vec3};
use vstd::prelude::*;

verus! {

/// The points at distance `radius` from `center`.
pub struct Sphere<T, M> {
    pub center: Vec3<T>,
    pub radius: T,
    pub material: M,
}

/// The lattice coordinate at or below the world coordinate `c`.
pub open spec fn cell_below<T: Scalar>(c: T) -> i32 {
    c.product(T::lift(CELLS_PER_UNIT as int)).whole_below()
}

/// The lattice coordinate at or above the world coordinate `c`.
pub open spec fn cell_above<T: Scalar>(c: T) -> i32 {
    c.product(T::lift(CELLS_PER_UNIT as int)).whole_above()
}

pub(crate) fn to_cell_below<T: Scalar>(c: T) -> (r: i32)
    ensures
        r == cell_below(c),
{
    c.mul(T::from_u32(CELLS_PER_UNIT)).floor()
}

pub(crate) fn to_cell_above<T: Scalar>(c: T) -> (r: i32)
    ensures
        r == cell_above(c),
{
    c.mul(T::from_u32(CELLS_PER_UNIT)).ceil()
}

impl<T: Scalar, M> Sphere<T, M> {
    /// From the center to the origin of `ray`.
    pub open spec fn offset(&self, ray: Ray<T>) -> Vec3<T> {
        ray.origin.minus(self.center)
    }

    /// The linear coefficient of the equation for the hit parameter: twice
    /// the direction times the offset.
    pub open spec fn linear(&self, ray: Ray<T>) -> T {
        T::lift(2).product(ray.direction.inner(self.offset(ray)))
    }

    /// The discriminant of the equation for the hit parameter, for a
    /// direction of length 1.
    pub open spec fn discriminant(&self, ray: Ray<T>) -> T {
        let i = self.offset(ray);
        let c = i.inner(i).difference(self.radius.product(self.radius));
        squared(self.linear(ray)).difference(T::lift(4).product(T::unit()).product(c))
    }

    /// The two parameters at which the line of `ray` meets the sphere, the
    /// far one first.
    pub open spec fn roots(&self, ray: Ray<T>) -> (T, T) {
        let b = self.linear(ray);
        let s = self.discriminant(ray).root();
        (
            b.negation().sum(s).quotient(T::lift(2)).product(T::unit()),
            b.negation().difference(s).quotient(T::lift(2)).product(T::unit()),
        )
    }

    /// Whether `t` lies in the window from `t_min` to `t_max`.
    pub open spec fn admits(t: T, t_min: T, t_max: T) -> bool {
        t_min.at_most(t) && t.at_most(t_max)
    }

    /// The root that is taken for the hit: the smallest of the roots that
    /// lie in the window. Where both do, that is the far one only if it is
    /// below the near one.
    pub open spec fn chosen(&self, ray: Ray<T>, t_min: T, t_max: T) -> T {
        let (t1, t2) = self.roots(ray);
        if Self::admits(t2, t_min, t_max) {
            if Self::admits(t1, t_min, t_max) && t1.below(t2) {
                t1
            } else {
                t2
            }
        } else {
            t1
        }
    }
}

impl<T: Scalar, M> PartialBoundingBox for Sphere<T, M> {
    /// The cells from the center less the radius, rounded down, to the center
    /// plus the radius, rounded up.
    open spec fn bounds(&self) -> Option<BBox> {
        Some(
            BBox {
                min: Cell {
                    x: cell_below(self.center.x.difference(self.radius)),
                    y: cell_below(self.center.y.difference(self.radius)),
                    z: cell_below(self.center.z.difference(self.radius)),
                },
                max: Cell {
                    x: cell_above(self.center.x.sum(self.radius)),
                    y: cell_above(self.center.y.sum(self.radius)),
                    z: cell_above(self.center.z.sum(self.radius)),
                },
            },
        )
    }

    fn partial_bounding_box(&self) -> (r: Option<BBox>) {
        Some(
            BBox {
                min: Cell {
                    x: to_cell_below(self.center.x.sub(self.radius)),
                    y: to_cell_below(self.center.y.sub(self.radius)),
                    z: to_cell_below(self.center.z.sub(self.radius)),
                },
                max: Cell {
                    x: to_cell_above(self.center.x.add(self.radius)),
                    y: to_cell_above(self.center.y.add(self.radius)),
                    z: to_cell_above(self.center.z.add(self.radius)),
                },
            },
        )
    }
}

impl<T: Scalar, M: Material<T>> Sphere<T, M> {
    /// The ray meets the sphere if the discriminant is above 0 and one of
    /// the two roots lies in the window. The hit is at the smallest root in
    /// the window; the normal points from the center to the hit; `u` runs
    /// around the vertical axis and `v` from pole to pole.
    pub open spec fn struck<'a>(&'a self, ray: Ray<T>, t_min: T, t_max: T) -> Option<
        Intersection<'a, T, M>,
    > {
        let (t1, t2) = self.roots(ray);
        if self.discriminant(ray).at_most(T::nil()) {
            None
        } else if Self::admits(t1, t_min, t_max) || Self::admits(t2, t_min, t_max) {
            let t = self.chosen(ray, t_min, t_max);
            let position = ray.origin.plus(ray.direction.scaled(t));
            let n = position.minus(self.center).normalized();
            let half = T::unit().quotient(T::lift(2));
            Some(
                Intersection {
                    n,
                    t,
                    u: half.sum(n.z.arc_tangent(n.x).quotient(T::lift(2).product(T::half_turn()))),
                    v: half.difference(n.y.arc_sine().quotient(T::half_turn())),
                    position,
                    material: &self.material,
                },
            )
        } else {
            None
        }
    }

    /// Where `ray` meets the sphere within the window, if it does.
    pub fn strike<'a>(&'a self, ray: &Ray<T>, t_min: T, t_max: T) -> (r: Option<
        Intersection<'a, T, M>,
    >)
        ensures
            r == self.struck(*ray, t_min, t_max),
    {
        let i = ray.origin - self.center;
        let a = T::one();
        let b = T::from_u32(2).mul(ray.direction.dot(&i));
        let c = i.dot(&i).sub(self.radius.mul(self.radius));
        let discriminant = b.mul(b).sub(T::from_u32(4).mul(a).mul(c));
        if discriminant.le(T::zero()) {
            None
        } else {
            // Up to two intersections
            let disc_sqrt = discriminant.sqrt();
            let t1 = b.neg().add(disc_sqrt).div(T::from_u32(2)).mul(a);
            let t2 = b.neg().sub(disc_sqrt).div(T::from_u32(2)).mul(a);
            let far = t_min.le(t1) && t1.le(t_max);
            let near = t_min.le(t2) && t2.le(t_max);
            if far || near {
                // Valid intersection(s): the smallest one in the window
                let t = if near {
                    if far && t1.lt(t2) {
                        t1
                    } else {
                        t2
                    }
                } else {
                    t1
                };
                let intersection_point = ray.origin + ray.direction.scale(t);
                let n = (intersection_point - self.center).unit();
                let half = T::one().div(T::from_u32(2));
                let u = half.add(n.z.atan2(n.x).div(T::from_u32(2).mul(T::pi())));
                let v = half.sub(n.y.asin().div(T::pi()));
                Some(
                    Intersection {
                        n: n,
                        t: t,
                        u: u,
                        v: v,
                        position: intersection_point,
                        material: &self.material,
                    },
                )
            } else {
                None
            }
        }
    }
}

impl<T: Scalar, M> Sphere<T, M> {
    /// The sphere with its center moved by `transform`; the radius stays.
    pub open spec fn carried(self, transform: Transform<T>) -> Sphere<T, M> {
        Sphere { center: transform.moved(self.center), radius: self.radius, material: self.material }
    }

    /// Moves the center by `transform`.
    pub fn move_by(&mut self, transform: &Transform<T>)
        ensures
            *final(self) == old(self).carried(*transform),
    {
        self.center = transform.apply_point(&self.center);
    }
}

impl<T: Scalar, M: Material<T>> Prim<T> for Sphere<T, M> {
    type Mat = M;

    open spec fn carries(&self, transform: Transform<T>, after: Sphere<T, M>) -> bool {
        after == self.carried(transform)
    }

    fn mut_transform(&mut self, transform: &Transform<T>) {
        self.move_by(transform);
    }

    open spec fn hit<'a>(&'a self, ray: Ray<T>, t_min: T, t_max: T) -> Option<
        Intersection<'a, T, M>,
    > {
        self.struck(ray, t_min, t_max)
    }

    fn intersects<'a>(&'a self, ray: &Ray<T>, t_min: T, t_max: T) -> (r: Option<
        Intersection<'a, T, M>,
    >) {
        self.strike(ray, t_min, t_max)
    }
}

} // verus!
