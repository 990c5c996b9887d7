//! The triangle, and the mesh of triangles.

use crate::bbox::{BBox, Cell};
use crate::geometry::{Intersection, PartialBoundingBox, Prim};
use crate::scene::closer;
use crate::material::Material;
use crate::ray::Ray;
use crate::scalar::Scalar;
use crate::sphere::{cell_above, cell_below};
use crate::transform::Transform;
use crate::vec3::Vec3;
use vstd::prelude::*;

verus! {

/// A corner of a triangle: where it lies, the normal of the surface there,
/// and its surface coordinates.
#[derive(Copy, Debug)]
pub struct TriangleVertex<T> {
    pub pos: Vec3<T>,
    pub n: Vec3<T>,
    pub u: T,
    pub v: T,
}

impl<T: Copy> Clone for TriangleVertex<T> {
    fn clone(&self) -> (c: TriangleVertex<T>)
        ensures
            c == *self,
    {
        TriangleVertex { pos: self.pos, n: self.n, u: self.u, v: self.v }
    }
}

/// A triangle. Normals and surface coordinates are mixed from the corners.
pub struct Triangle<T, M> {
    pub v0: TriangleVertex<T>,
    pub v1: TriangleVertex<T>,
    pub v2: TriangleVertex<T>,
    pub material: M,
}

/// The smallest of three.
pub open spec fn least<T: Scalar>(a: T, b: T, c: T) -> T {
    a.lower(b).lower(c)
}

/// The largest of three.
pub open spec fn most<T: Scalar>(a: T, b: T, c: T) -> T {
    a.upper(b).upper(c)
}

/// Where a ray meets the plane of a triangle: the parameter of the ray, and
/// the weights of the second and the third corner.
pub struct Crossing<T> {
    pub t: T,
    pub beta: T,
    pub gamma: T,
}

impl<T: Scalar, M> Triangle<T, M> {
    /// A triangle with the given corners, the same normal at each: the
    /// cross product of the edges from the first corner, of length 1.
    pub open spec fn flat(
        p0: Vec3<T>,
        p1: Vec3<T>,
        p2: Vec3<T>,
        uv0: (T, T),
        uv1: (T, T),
        uv2: (T, T),
        material: M,
    ) -> Triangle<T, M> {
        let n = p1.minus(p0).outer(p2.minus(p0)).normalized();
        Triangle {
            v0: TriangleVertex { pos: p0, n, u: uv0.0, v: uv0.1 },
            v1: TriangleVertex { pos: p1, n, u: uv1.0, v: uv1.1 },
            v2: TriangleVertex { pos: p2, n, u: uv2.0, v: uv2.1 },
            material,
        }
    }

    /// A triangle with the given corners and the normal of its plane at each.
    pub fn auto_normal(
        p0: Vec3<T>,
        p1: Vec3<T>,
        p2: Vec3<T>,
        uv0: (T, T),
        uv1: (T, T),
        uv2: (T, T),
        material: M,
    ) -> (r: Triangle<T, M>)
        ensures
            r == Self::flat(p0, p1, p2, uv0, uv1, uv2, material),
    {
        let n = (p1 - p0).cross(&(p2 - p0)).unit();
        Triangle {
            v0: TriangleVertex { pos: p0, n: n, u: uv0.0, v: uv0.1 },
            v1: TriangleVertex { pos: p1, n: n, u: uv1.0, v: uv1.1 },
            v2: TriangleVertex { pos: p2, n: n, u: uv2.0, v: uv2.1 },
            material: material,
        }
    }

    /// Where `ray` meets the plane of the triangle, after Möller and
    /// Trumbore: with `e1` and `e2` the edges from the first corner, `p` the
    /// cross product of the direction and `e2`, `s` from the first corner to
    /// the origin and `q` the cross product of `s` and `e1`, all over `e1`
    /// times `p`: `beta` is `s` times `p`, `gamma` is the direction times
    /// `q`, and `t` is `e2` times `q`.
    pub open spec fn crossing(&self, ray: Ray<T>) -> Crossing<T> {
        let e1 = self.v1.pos.minus(self.v0.pos);
        let e2 = self.v2.pos.minus(self.v0.pos);
        let p = ray.direction.outer(e2);
        let inv_det = T::unit().quotient(e1.inner(p));
        let s = ray.origin.minus(self.v0.pos);
        let q = s.outer(e1);
        Crossing {
            t: inv_det.product(e2.inner(q)),
            beta: inv_det.product(s.inner(p)),
            gamma: inv_det.product(ray.direction.inner(q)),
        }
    }

    /// How far the ray is from lying in the plane of the triangle: the first
    /// edge times the cross product of the direction and the second edge. It
    /// is 0 for a ray along the plane.
    pub open spec fn slant(&self, ray: Ray<T>) -> T {
        self.v1.pos.minus(self.v0.pos).inner(
            ray.direction.outer(self.v2.pos.minus(self.v0.pos)),
        )
    }

    /// Whether the weights put the crossing inside the triangle.
    pub open spec fn inside(c: Crossing<T>) -> bool {
        &&& !c.beta.below(T::nil()) && !T::unit().below(c.beta)
        &&& !c.gamma.below(T::nil()) && !T::unit().below(c.beta.sum(c.gamma))
    }
}

impl<T: Scalar, M: Material<T>> Triangle<T, M> {
    /// A ray along the plane of the triangle does not meet it. Any other ray
    /// meets it if it crosses the plane inside the triangle and within the
    /// window. The normal and the surface coordinates are those of the
    /// corners, weighted.
    pub open spec fn struck<'a>(&'a self, ray: Ray<T>, t_min: T, t_max: T) -> Option<
        Intersection<'a, T, M>,
    > {
        let c = self.crossing(ray);
        if self.slant(ray).same(T::nil()) || !Self::inside(c) || c.t.below(t_min) || t_max.below(
            c.t,
        ) {
            None
        } else {
            let alpha = T::unit().difference(c.beta).difference(c.gamma);
            Some(
                Intersection {
                    n: self.v0.n.scaled(alpha).plus(self.v1.n.scaled(c.beta)).plus(
                        self.v2.n.scaled(c.gamma),
                    ),
                    t: c.t,
                    u: alpha.product(self.v0.u).sum(c.beta.product(self.v1.u)).sum(
                        c.gamma.product(self.v2.u),
                    ),
                    v: alpha.product(self.v0.v).sum(c.beta.product(self.v1.v)).sum(
                        c.gamma.product(self.v2.v),
                    ),
                    position: ray.origin.plus(ray.direction.scaled(c.t)),
                    material: &self.material,
                },
            )
        }
    }

    /// Where `ray` meets the triangle within the window, if it does.
    pub fn strike<'a>(&'a self, ray: &Ray<T>, t_min: T, t_max: T) -> (r: Option<
        Intersection<'a, T, M>,
    >)
        ensures
            r == self.struck(*ray, t_min, t_max),
    {
        let e1 = self.v1.pos - self.v0.pos;
        let e2 = self.v2.pos - self.v0.pos;
        let p = ray.direction.cross(&e2);
        let det = e1.dot(&p);
        // A ray in the plane of the triangle crosses it nowhere
        if det.eq(T::zero()) {
            return None;
        }
        let inv_det = T::one().div(det);
        let s = ray.origin - self.v0.pos;
        let beta = inv_det.mul(s.dot(&p));
        let q = s.cross(&e1);
        let gamma = inv_det.mul(ray.direction.dot(&q));
        let t = inv_det.mul(e2.dot(&q));
        if beta.lt(T::zero()) || T::one().lt(beta) {
            return None;
        }
        if gamma.lt(T::zero()) || T::one().lt(beta.add(gamma)) {
            return None;
        }
        if t.lt(t_min) || t_max.lt(t) {
            None
        } else {
            let alpha = T::one().sub(beta).sub(gamma);
            // Interpolate normals and surface coordinates from the corners
            let n = self.v0.n.scale(alpha) + self.v1.n.scale(beta) + self.v2.n.scale(gamma);
            let u = alpha.mul(self.v0.u).add(beta.mul(self.v1.u)).add(gamma.mul(self.v2.u));
            let v = alpha.mul(self.v0.v).add(beta.mul(self.v1.v)).add(gamma.mul(self.v2.v));
            Some(
                Intersection {
                    n: n,
                    t: t,
                    u: u,
                    v: v,
                    position: ray.origin + ray.direction.scale(t),
                    material: &self.material,
                },
            )
        }
    }
}

impl<T: Scalar, M> Triangle<T, M> {
    /// The triangle with each corner moved by `transform` and each normal
    /// turned by it.
    pub open spec fn carried(self, transform: Transform<T>) -> Triangle<T, M> {
        Triangle {
            v0: TriangleVertex {
                pos: transform.moved(self.v0.pos),
                n: transform.turned(self.v0.n),
                ..self.v0
            },
            v1: TriangleVertex {
                pos: transform.moved(self.v1.pos),
                n: transform.turned(self.v1.n),
                ..self.v1
            },
            v2: TriangleVertex {
                pos: transform.moved(self.v2.pos),
                n: transform.turned(self.v2.n),
                ..self.v2
            },
            material: self.material,
        }
    }

    /// Moves the corners by `transform` and turns the normals.
    pub fn move_by(&mut self, transform: &Transform<T>)
        ensures
            *final(self) == old(self).carried(*transform),
    {
        self.v0.pos = transform.apply_point(&self.v0.pos);
        self.v0.n = transform.apply_vector(&self.v0.n);
        self.v1.pos = transform.apply_point(&self.v1.pos);
        self.v1.n = transform.apply_vector(&self.v1.n);
        self.v2.pos = transform.apply_point(&self.v2.pos);
        self.v2.n = transform.apply_vector(&self.v2.n);
    }
}

impl<T: Scalar, M> PartialBoundingBox for Triangle<T, M> {
    /// The cells around the three corners, rounded outward.
    open spec fn bounds(&self) -> Option<BBox> {
        Some(
            BBox {
                min: Cell {
                    x: cell_below(least(self.v0.pos.x, self.v1.pos.x, self.v2.pos.x)),
                    y: cell_below(least(self.v0.pos.y, self.v1.pos.y, self.v2.pos.y)),
                    z: cell_below(least(self.v0.pos.z, self.v1.pos.z, self.v2.pos.z)),
                },
                max: Cell {
                    x: cell_above(most(self.v0.pos.x, self.v1.pos.x, self.v2.pos.x)),
                    y: cell_above(most(self.v0.pos.y, self.v1.pos.y, self.v2.pos.y)),
                    z: cell_above(most(self.v0.pos.z, self.v1.pos.z, self.v2.pos.z)),
                },
            },
        )
    }

    fn partial_bounding_box(&self) -> (r: Option<BBox>) {
        let lo = Vec3 {
            x: self.v0.pos.x.min(self.v1.pos.x).min(self.v2.pos.x),
            y: self.v0.pos.y.min(self.v1.pos.y).min(self.v2.pos.y),
            z: self.v0.pos.z.min(self.v1.pos.z).min(self.v2.pos.z),
        };
        let hi = Vec3 {
            x: self.v0.pos.x.max(self.v1.pos.x).max(self.v2.pos.x),
            y: self.v0.pos.y.max(self.v1.pos.y).max(self.v2.pos.y),
            z: self.v0.pos.z.max(self.v1.pos.z).max(self.v2.pos.z),
        };
        Some(
            BBox {
                min: Cell {
                    x: crate::sphere::to_cell_below(lo.x),
                    y: crate::sphere::to_cell_below(lo.y),
                    z: crate::sphere::to_cell_below(lo.z),
                },
                max: Cell {
                    x: crate::sphere::to_cell_above(hi.x),
                    y: crate::sphere::to_cell_above(hi.y),
                    z: crate::sphere::to_cell_above(hi.z),
                },
            },
        )
    }
}

impl<T: Scalar, M: Material<T>> Prim<T> for Triangle<T, M> {
    type Mat = M;

    open spec fn carries(&self, transform: Transform<T>, after: Triangle<T, M>) -> bool {
        after == self.carried(transform)
    }

    fn mut_transform(&mut self, transform: &Transform<T>) {
        self.move_by(transform);
    }

    open spec fn hit<'a>(&'a self, ray: Ray<T>, t_min: T, t_max: T) -> Option<
        Intersection<'a, T, M>,
    > {
        self.struck(ray, t_min, t_max)
    }

    fn intersects<'a>(&'a self, ray: &Ray<T>, t_min: T, t_max: T) -> (r: Option<
        Intersection<'a, T, M>,
    >) {
        self.strike(ray, t_min, t_max)
    }
}

/// A body made of triangles.
pub struct Mesh<T, M> {
    pub triangles: Vec<Triangle<T, M>>,
}

/// The smallest box around the bounds of the first `k` triangles; none for
/// no triangle.
pub open spec fn mesh_bounds<T: Scalar, M>(triangles: Seq<Triangle<T, M>>, k: int) -> Option<BBox>
    decreases k,
{
    if k <= 0 {
        None
    } else {
        match mesh_bounds(triangles, k - 1) {
            None => triangles[k - 1].bounds(),
            Some(b) => Some(b.hull(triangles[k - 1].bounds().unwrap())),
        }
    }
}

/// The nearest hit of `ray` on the first `k` triangles; of hits at the same
/// distance, the first.
pub open spec fn mesh_hit<'a, T: Scalar, M: Material<T>>(
    triangles: Seq<Triangle<T, M>>,
    ray: Ray<T>,
    t_min: T,
    t_max: T,
    k: int,
) -> Option<Intersection<'a, T, M>>
    decreases k,
{
    if k <= 0 {
        None
    } else {
        closer(mesh_hit(triangles, ray, t_min, t_max, k - 1), triangles[k - 1].struck(ray, t_min, t_max))
    }
}

/// The first `k` triangles moved by `transform`, the others as they are.
pub open spec fn mesh_carried<T: Scalar, M>(
    triangles: Seq<Triangle<T, M>>,
    transform: Transform<T>,
    k: int,
) -> Seq<Triangle<T, M>> {
    Seq::new(
        triangles.len(),
        |j: int|
            if j < k {
                triangles[j].carried(transform)
            } else {
                triangles[j]
            },
    )
}

impl<T: Scalar, M> PartialBoundingBox for Mesh<T, M> {
    /// The smallest box around the bounds of all triangles. A mesh without
    /// triangles has no bounds.
    open spec fn bounds(&self) -> Option<BBox> {
        mesh_bounds(self.triangles@, self.triangles.len() as int)
    }

    fn partial_bounding_box(&self) -> (r: Option<BBox>) {
        let mut acc: Option<BBox> = None;
        let mut k: usize = 0;
        while k < self.triangles.len()
            invariant
                k <= self.triangles.len(),
                acc == mesh_bounds(self.triangles@, k as int),
            decreases self.triangles.len() - k,
        {
            let b = self.triangles[k].partial_bounding_box().unwrap();
            acc = Some(
                match acc {
                    None => b,
                    Some(a) => a.union(&b),
                },
            );
            k += 1;
        }
        acc
    }
}

impl<T: Scalar, M: Material<T>> Mesh<T, M> {
    /// Where `ray` meets the mesh first within the window, if it does.
    pub fn strike<'a>(&'a self, ray: &Ray<T>, t_min: T, t_max: T) -> (r: Option<
        Intersection<'a, T, M>,
    >)
        ensures
            r == mesh_hit(self.triangles@, *ray, t_min, t_max, self.triangles.len() as int),
    {
        let mut best: Option<Intersection<'a, T, M>> = None;
        let mut k: usize = 0;
        while k < self.triangles.len()
            invariant
                k <= self.triangles.len(),
                best == mesh_hit(self.triangles@, *ray, t_min, t_max, k as int),
            decreases self.triangles.len() - k,
        {
            let h = self.triangles[k].strike(ray, t_min, t_max);
            best = match (best, h) {
                (None, h) => h,
                (Some(p), None) => Some(p),
                (Some(p), Some(x)) => if x.t.lt(p.t) {
                    Some(x)
                } else {
                    Some(p)
                },
            };
            k += 1;
        }
        best
    }

    /// Moves every triangle by `transform`.
    pub fn move_by(&mut self, transform: &Transform<T>)
        ensures
            final(self).triangles@ == mesh_carried(
                old(self).triangles@,
                *transform,
                old(self).triangles.len() as int,
            ),
    {
        let mut k: usize = 0;
        while k < self.triangles.len()
            invariant
                k <= self.triangles.len(),
                self.triangles.len() == old(self).triangles.len(),
                self.triangles@ == mesh_carried(old(self).triangles@, *transform, k as int),
            decreases self.triangles.len() - k,
        {
            let ghost before = self.triangles@;
            self.triangles[k].move_by(transform);
            proof {
                assert(self.triangles@ =~= mesh_carried(
                    old(self).triangles@,
                    *transform,
                    k + 1,
                ));
            }
            k += 1;
        }
    }
}

impl<T: Scalar, M: Material<T>> Prim<T> for Mesh<T, M> {
    type Mat = M;

    open spec fn carries(&self, transform: Transform<T>, after: Mesh<T, M>) -> bool {
        after.triangles@ == mesh_carried(self.triangles@, transform, self.triangles.len() as int)
    }

    open spec fn hit<'a>(&'a self, ray: Ray<T>, t_min: T, t_max: T) -> Option<
        Intersection<'a, T, M>,
    > {
        mesh_hit(self.triangles@, ray, t_min, t_max, self.triangles.len() as int)
    }

    fn intersects<'a>(&'a self, ray: &Ray<T>, t_min: T, t_max: T) -> (r: Option<
        Intersection<'a, T, M>,
    >) {
        self.strike(ray, t_min, t_max)
    }

    fn mut_transform(&mut self, transform: &Transform<T>) {
        self.move_by(transform);
    }
}

} // verus!
