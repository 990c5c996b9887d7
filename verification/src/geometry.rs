//! What the index and the integrator ask of a primitive.

use crate::bbox::BBox;
use crate::material::Material;
use crate::ray::Ray;
use crate::scalar::Scalar;
use crate::transform::Transform;
use crate::vec3::Vec3;
use vstd::prelude::*;

verus! {

/// Something that may have bounds. What has none cannot be pruned and is
/// handed out on every query.
pub trait PartialBoundingBox {
    /// The bounds, if there are any.
    spec fn bounds(&self) -> Option<BBox>;

    fn partial_bounding_box(&self) -> (r: Option<BBox>)
        ensures
            r == self.bounds(),
    ;
}

/// Where a ray meets a surface. It lives for one step of the integrator and
/// borrows the material from the primitive that was hit.
pub struct Intersection<'a, T, M> {
    /// The surface normal.
    pub n: Vec3<T>,
    /// How far along the ray the surface lies, in lengths of the direction.
    pub t: T,
    pub u: T,
    pub v: T,
    pub position: Vec3<T>,
    pub material: &'a M,
}

/// A shape that a ray can hit, and that can be moved.
pub trait Prim<T: Scalar>: PartialBoundingBox + Sized {
    type Mat: Material<T>;

    /// Whether `after` is this shape moved by `transform`.
    spec fn carries(&self, transform: Transform<T>, after: Self) -> bool;

    /// Where `ray` meets the shape with a parameter between `t_min` and
    /// `t_max`, if it does.
    spec fn hit<'a>(&'a self, ray: Ray<T>, t_min: T, t_max: T) -> Option<
        Intersection<'a, T, Self::Mat>,
    >;

    fn intersects<'a>(&'a self, ray: &Ray<T>, t_min: T, t_max: T) -> (r: Option<
        Intersection<'a, T, Self::Mat>,
    >)
        ensures
            r == self.hit(*ray, t_min, t_max),
    ;

    fn mut_transform(&mut self, transform: &Transform<T>)
        ensures
            old(self).carries(*transform, *final(self)),
    ;
}

} // verus!
