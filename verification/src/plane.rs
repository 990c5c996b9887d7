//! The plane: a primitive without bounds.

use crate::bbox::BBox;
use crate::geometry::{Intersection, PartialBoundingBox, Prim};
use crate::material::Material;
use crate::ray::Ray;
use crate::scalar::Scalar;
use crate::transform::Transform;
use crate::vec3::Vec3;
use vstd::prelude::*;

verus! {

/// The points `(x, y, z)` with `a x + b y + c z + d = 0`.
pub struct Plane<T, M> {
    pub a: T,
    pub b: T,
    pub c: T,
    pub d: T,
    pub material: M,
}

impl<T: Scalar, M> Plane<T, M> {
    /// The normal `(a, b, c)`.
    pub open spec fn normal(&self) -> Vec3<T> {
        Vec3 { x: self.a, y: self.b, z: self.c }
    }

    /// How fast `ray` approaches the plane: the normal times the direction.
    /// It is 0 for a ray along the plane.
    pub open spec fn approach(&self, ray: Ray<T>) -> T {
        self.normal().inner(ray.direction)
    }

    /// The parameter at which the line of `ray` crosses the plane.
    pub open spec fn crossing(&self, ray: Ray<T>) -> T {
        self.d.negation().difference(self.normal().inner(ray.origin)).quotient(self.approach(ray))
    }
}

impl<T: Scalar, M> PartialBoundingBox for Plane<T, M> {
    /// A plane has no bounds.
    open spec fn bounds(&self) -> Option<BBox> {
        None
    }

    fn partial_bounding_box(&self) -> (r: Option<BBox>) {
        None
    }
}

impl<T: Scalar, M: Material<T>> Plane<T, M> {
    /// A ray along the plane does not meet it. Any other ray meets it where
    /// its line crosses it, if that is within the window.
    pub open spec fn struck<'a>(&'a self, ray: Ray<T>, t_min: T, t_max: T) -> Option<
        Intersection<'a, T, M>,
    > {
        let t = self.crossing(ray);
        if self.approach(ray).same(T::nil()) || t.below(t_min) || t_max.below(t) {
            None
        } else {
            Some(
                Intersection {
                    n: self.normal(),
                    t,
                    u: T::nil(),
                    v: T::nil(),
                    position: ray.origin.plus(ray.direction.scaled(t)),
                    material: &self.material,
                },
            )
        }
    }

    /// Where `ray` meets the plane within the window, if it does.
    pub fn strike<'a>(&'a self, ray: &Ray<T>, t_min: T, t_max: T) -> (r: Option<
        Intersection<'a, T, M>,
    >)
        ensures
            r == self.struck(*ray, t_min, t_max),
    {
        let n = Vec3 { x: self.a, y: self.b, z: self.c };
        let nrd = n.dot(&ray.direction);
        let nro = n.dot(&ray.origin);
        let t = self.d.neg().sub(nro).div(nrd);
        if nrd.eq(T::zero()) || t.lt(t_min) || t_max.lt(t) {
            None
        } else {
            Some(
                Intersection {
                    n: n,
                    t: t,
                    u: T::zero(),
                    v: T::zero(),
                    position: ray.origin + ray.direction.scale(t),
                    material: &self.material,
                },
            )
        }
    }
}

impl<T: Scalar, M> Plane<T, M> {
    /// The plane carried along by a transform that turns and shifts: the
    /// normal is turned, and the plane is shifted along it.
    pub open spec fn carried(self, transform: Transform<T>) -> Plane<T, M> {
        let n = transform.turned(self.normal());
        Plane {
            a: n.x,
            b: n.y,
            c: n.z,
            d: self.d.difference(n.inner(transform.shift)),
            material: self.material,
        }
    }

    /// Turns and shifts the plane by `transform`.
    pub fn move_by(&mut self, transform: &Transform<T>)
        ensures
            *final(self) == old(self).carried(*transform),
    {
        let n = transform.apply_vector(&Vec3 { x: self.a, y: self.b, z: self.c });
        self.a = n.x;
        self.b = n.y;
        self.c = n.z;
        self.d = self.d.sub(n.dot(&transform.shift));
    }
}

impl<T: Scalar, M: Material<T>> Prim<T> for Plane<T, M> {
    type Mat = M;

    open spec fn carries(&self, transform: Transform<T>, after: Plane<T, M>) -> bool {
        after == self.carried(transform)
    }

    fn mut_transform(&mut self, transform: &Transform<T>) {
        self.move_by(transform);
    }

    open spec fn hit<'a>(&'a self, ray: Ray<T>, t_min: T, t_max: T) -> Option<
        Intersection<'a, T, M>,
    > {
        self.struck(ray, t_min, t_max)
    }

    fn intersects<'a>(&'a self, ray: &Ray<T>, t_min: T, t_max: T) -> (r: Option<
        Intersection<'a, T, M>,
    >) {
        self.strike(ray, t_min, t_max)
    }
}

} // verus!
