//! The primitives as one type, so that a scene can hold them side by side.

use crate::bbox::BBox;
use crate::geometry::{Intersection, PartialBoundingBox, Prim};
use crate::material::Material;
use crate::plane::Plane;
use crate::ray::Ray;
use crate::scalar::Scalar;
use crate::sphere::Sphere;
use crate::transform::Transform;
use crate::triangle::{mesh_bounds, mesh_carried, mesh_hit, Mesh, Triangle};
use vstd::prelude::*;

verus! {

/// A plane, a sphere, a triangle or a mesh. It has the bounds of what it
/// holds, is hit where that is hit, and moves as that moves.
pub enum Shape<T, M> {
    Plane(Plane<T, M>),
    Sphere(Sphere<T, M>),
    Triangle(Triangle<T, M>),
    Mesh(Mesh<T, M>),
}

impl<T: Scalar, M> PartialBoundingBox for Shape<T, M> {
    open spec fn bounds(&self) -> Option<BBox> {
        match self {
            Shape::Plane(p) => p.bounds(),
            Shape::Sphere(s) => s.bounds(),
            Shape::Triangle(t) => t.bounds(),
            Shape::Mesh(m) => mesh_bounds(m.triangles@, m.triangles.len() as int),
        }
    }

    fn partial_bounding_box(&self) -> (r: Option<BBox>) {
        match self {
            Shape::Plane(p) => p.partial_bounding_box(),
            Shape::Sphere(s) => s.partial_bounding_box(),
            Shape::Triangle(t) => t.partial_bounding_box(),
            Shape::Mesh(m) => m.partial_bounding_box(),
        }
    }
}

impl<T: Scalar, M: Material<T>> Prim<T> for Shape<T, M> {
    type Mat = M;

    open spec fn carries(&self, transform: Transform<T>, after: Shape<T, M>) -> bool {
        match (self, after) {
            (Shape::Plane(p), Shape::Plane(q)) => q == p.carried(transform),
            (Shape::Sphere(s), Shape::Sphere(q)) => q == s.carried(transform),
            (Shape::Triangle(t), Shape::Triangle(q)) => q == t.carried(transform),
            (Shape::Mesh(m), Shape::Mesh(q)) => q.triangles@ == mesh_carried(
                m.triangles@,
                transform,
                m.triangles.len() as int,
            ),
            _ => false,
        }
    }

    open spec fn hit<'a>(&'a self, ray: Ray<T>, t_min: T, t_max: T) -> Option<
        Intersection<'a, T, M>,
    > {
        match self {
            Shape::Plane(p) => p.struck(ray, t_min, t_max),
            Shape::Sphere(s) => s.struck(ray, t_min, t_max),
            Shape::Triangle(t) => t.struck(ray, t_min, t_max),
            Shape::Mesh(m) => mesh_hit(m.triangles@, ray, t_min, t_max, m.triangles.len() as int),
        }
    }

    fn intersects<'a>(&'a self, ray: &Ray<T>, t_min: T, t_max: T) -> (r: Option<
        Intersection<'a, T, M>,
    >) {
        match self {
            Shape::Plane(p) => p.strike(ray, t_min, t_max),
            Shape::Sphere(s) => s.strike(ray, t_min, t_max),
            Shape::Triangle(t) => t.strike(ray, t_min, t_max),
            Shape::Mesh(m) => m.strike(ray, t_min, t_max),
        }
    }

    fn mut_transform(&mut self, transform: &Transform<T>) {
        match self {
            Shape::Plane(p) => p.move_by(transform),
            Shape::Sphere(s) => s.move_by(transform),
            Shape::Triangle(t) => t.move_by(transform),
            Shape::Mesh(m) => m.move_by(transform),
        }
    }
}

} // verus!
