//! Rays, and how a ray is tested against a box of the index.

use crate::bbox::{pointlike, BBox, Probe, CELLS_PER_UNIT};
use crate::fixed::{fit, towards_zero, Fixed};
use crate::sampler::Sampler;
use crate::scalar::Scalar;
use crate::vec3::Vec3;
use vstd::arithmetic::div_mod::{lemma_div_is_ordered, lemma_div_multiples_vanish};
use vstd::prelude::*;

verus! {

/// A half line: the points `origin + t * direction` for `t` from 0 on. The
/// direction need not have length 1.
#[derive(Copy, Debug)]
pub struct Ray<T> {
    pub origin: Vec3<T>,
    pub direction: Vec3<T>,
}

impl<T: Copy> Clone for Ray<T> {
    fn clone(&self) -> (r: Ray<T>)
        ensures
            r == *self,
    {
        Ray { origin: self.origin, direction: self.direction }
    }
}

/// The world coordinate of the lattice coordinate `c`.
pub open spec fn world<T: Scalar>(c: int) -> T {
    T::lift(c).quotient(T::lift(CELLS_PER_UNIT as int))
}

/// The window of ray parameters `(near, far)` narrowed to where the ray,
/// which starts at `o` and moves by `d` along one axis, lies between `lo` and
/// `hi` on that axis.
pub open spec fn narrowed<T: Scalar>(window: (T, T), o: T, d: T, lo: T, hi: T) -> (T, T) {
    let inv = T::unit().quotient(d);
    let a = lo.difference(o).product(inv);
    let b = hi.difference(o).product(inv);
    if inv.below(T::nil()) {
        (window.0.upper(b), window.1.lower(a))
    } else {
        (window.0.upper(a), window.1.lower(b))
    }
}

fn narrow<T: Scalar>(window: (T, T), o: T, d: T, lo: T, hi: T) -> (r: (T, T))
    ensures
        r == narrowed(window, o, d, lo, hi),
{
    let inv = T::one().div(d);
    let a = lo.sub(o).mul(inv);
    let b = hi.sub(o).mul(inv);
    if inv.lt(T::zero()) {
        (window.0.max(b), window.1.min(a))
    } else {
        (window.0.max(a), window.1.min(b))
    }
}

fn to_world<T: Scalar>(c: i32) -> (r: T)
    ensures
        r == world::<T>(c as int),
{
    T::from_i32(c).div(T::from_u32(CELLS_PER_UNIT))
}

impl<T: Scalar> Ray<T> {
    pub fn new(origin: Vec3<T>, direction: Vec3<T>) -> (r: Ray<T>)
        ensures
            r == (Ray { origin, direction }),
    {
        Ray { origin: origin, direction: direction }
    }

    /// The window of parameters for which the ray lies in `b`: all
    /// parameters from 0 on, narrowed along x, then y, then z.
    pub open spec fn window(&self, b: BBox) -> (T, T) {
        let w0 = (T::nil(), T::unbounded());
        let w1 = narrowed(
            w0,
            self.origin.x,
            self.direction.x,
            world::<T>(b.min.x as int),
            world::<T>(b.max.x as int),
        );
        let w2 = narrowed(
            w1,
            self.origin.y,
            self.direction.y,
            world::<T>(b.min.y as int),
            world::<T>(b.max.y as int),
        );
        narrowed(
            w2,
            self.origin.z,
            self.direction.z,
            world::<T>(b.min.z as int),
            world::<T>(b.max.z as int),
        )
    }

    /// The ray with its direction turned by a random amount that grows with
    /// `glossiness`: the direction plus `glossiness` times `turn`, brought
    /// back to length 1.
    pub open spec fn turned(&self, glossiness: T, turn: Vec3<T>) -> Ray<T> {
        Ray {
            origin: self.origin,
            direction: self.direction.plus(turn.scaled(glossiness)).normalized(),
        }
    }

    /// The ray turned by `glossiness` times the offset `turn`.
    pub fn turn(&self, glossiness: T, turn: Vec3<T>) -> (r: Ray<T>)
        ensures
            r == self.turned(glossiness, turn),
    {
        Ray { origin: self.origin, direction: (self.direction + turn.scale(glossiness)).unit() }
    }

    /// The ray turned by a random offset from `sampler`: it is `turned` by
    /// the point of the unit ball that three draws stand for. The origin
    /// stays.
    pub fn perturb<S: Sampler<T>>(&self, glossiness: T, sampler: &mut S) -> (r: Ray<T>)
        ensures
            r.origin == self.origin,
            exists|offset: Vec3<T>| r == #[trigger] self.turned(glossiness, offset),
            exists|turn: T, rise: T, fill: T|
                r == self.turned(glossiness, #[trigger] Vec3::ball_point(turn, rise, fill)),
    {
        let offset = Vec3::random(sampler);
        self.turn(glossiness, offset)
    }
}

/// A ray meets a box if the window of parameters for which it lies in the
/// box is not empty: the slab test.
impl<T: Scalar> Probe for Ray<T> {
    open spec fn hits(&self, b: BBox) -> bool {
        self.window(b).0.at_most(self.window(b).1)
    }

    fn meets(&self, b: &BBox) -> (r: bool) {
        let w0 = (T::zero(), T::infinity());
        let w1 = narrow(w0, self.origin.x, self.direction.x, to_world(b.min.x), to_world(b.max.x));
        let w2 = narrow(w1, self.origin.y, self.direction.y, to_world(b.min.y), to_world(b.max.y));
        let w3 = narrow(w2, self.origin.z, self.direction.z, to_world(b.min.z), to_world(b.max.z));
        w3.0.le(w3.1)
    }
}

/// On fixed-point numbers a cell is 64 65536ths of a unit wide, and the
/// world coordinate of a lattice coordinate is exact.
pub proof fn lemma_world_is_exact(c: int)
    requires
        i32::MIN <= c <= i32::MAX,
    ensures
        world::<Fixed>(c).raw == 64 * c,
{
    let size: int = if c < 0 {
        -c
    } else {
        c
    };
    lemma_div_multiples_vanish(size * 64, 67108864);
    assert(67108864 * (size * 64) == size * 65536 * 65536) by (nonlinear_arith);
    assert(Fixed::lift(c).raw == c * 65536);
    assert(Fixed::lift(CELLS_PER_UNIT as int).raw == 67108864);
    assert(c * 65536 * 65536 == (c * 65536) * 65536) by (nonlinear_arith);
    if c < 0 {
        assert(-(c * 65536 * 65536) == size * 65536 * 65536) by (nonlinear_arith)
            requires
                size == -c,
        ;
    }
    assert(towards_zero(c * 65536 * 65536, 67108864) == 64 * c);
}

/// The parameters at which a ray that starts at `o` and moves by `d` along
/// one axis enters and leaves the cells from `lo` to `hi` on that axis.
pub open spec fn span<T: Scalar>(o: T, d: T, lo: int, hi: int) -> (T, T) {
    let inv = T::unit().quotient(d);
    let a = world::<T>(lo).difference(o).product(inv);
    let b = world::<T>(hi).difference(o).product(inv);
    if inv.below(T::nil()) {
        (b, a)
    } else {
        (a, b)
    }
}

/// On fixed-point numbers the parameter at which a ray reaches a coordinate
/// grows with the coordinate if the ray moves upwards, and falls with it if
/// the ray moves downwards.
proof fn lemma_reach_is_ordered(x1: Fixed, x2: Fixed, o: Fixed, inv: Fixed)
    requires
        x1.raw <= x2.raw,
    ensures
        inv.raw >= 0 ==> x1.difference(o).product(inv).raw <= x2.difference(o).product(inv).raw,
        inv.raw < 0 ==> x2.difference(o).product(inv).raw <= x1.difference(o).product(inv).raw,
{
    let a1 = fit(x1.raw - o.raw) as int;
    let a2 = fit(x2.raw - o.raw) as int;
    assert(a1 <= a2);
    let k = inv.raw as int;
    if k >= 0 {
        assert(a1 * k <= a2 * k) by (nonlinear_arith)
            requires
                a1 <= a2,
                k >= 0,
        ;
        lemma_div_is_ordered(a1 * k, a2 * k, 65536);
    } else {
        assert(a2 * k <= a1 * k) by (nonlinear_arith)
            requires
                a1 <= a2,
                k < 0,
        ;
        lemma_div_is_ordered(a2 * k, a1 * k, 65536);
    }
}

/// On fixed-point numbers a ray is no later in a wider range of cells, and
/// leaves it no earlier.
proof fn lemma_span_widens(o: Fixed, d: Fixed, lo1: int, hi1: int, lo2: int, hi2: int)
    requires
        i32::MIN <= lo2 <= lo1 <= i32::MAX,
        i32::MIN <= hi1 <= hi2 <= i32::MAX,
    ensures
        span(o, d, lo2, hi2).0.raw <= span(o, d, lo1, hi1).0.raw,
        span(o, d, lo1, hi1).1.raw <= span(o, d, lo2, hi2).1.raw,
{
    let inv = Fixed::unit().quotient(d);
    lemma_world_is_exact(lo1);
    lemma_world_is_exact(lo2);
    lemma_world_is_exact(hi1);
    lemma_world_is_exact(hi2);
    lemma_reach_is_ordered(world::<Fixed>(lo2), world::<Fixed>(lo1), o, inv);
    lemma_reach_is_ordered(world::<Fixed>(hi1), world::<Fixed>(hi2), o, inv);
}

/// On fixed-point numbers a ray that passes through a range of cells
/// passes through its two parts one after the other: it leaves the one when
/// it enters the other.
proof fn lemma_span_splits(o: Fixed, d: Fixed, lo: int, m: int, hi: int)
    requires
        i32::MIN <= lo <= m <= hi <= i32::MAX,
    ensures
        ({
            let whole = span(o, d, lo, hi);
            let lower = span(o, d, lo, m);
            let upper = span(o, d, m, hi);
            &&& whole.0.raw <= lower.1.raw <= whole.1.raw || whole.0.raw <= upper.1.raw
                <= whole.1.raw
            &&& (lower.0 == whole.0 && lower.1 == upper.0 && upper.1 == whole.1) || (upper.0
                == whole.0 && upper.1 == lower.0 && lower.1 == whole.1)
        }),
{
    let inv = Fixed::unit().quotient(d);
    lemma_world_is_exact(lo);
    lemma_world_is_exact(m);
    lemma_world_is_exact(hi);
    lemma_reach_is_ordered(world::<Fixed>(lo), world::<Fixed>(m), o, inv);
    lemma_reach_is_ordered(world::<Fixed>(m), world::<Fixed>(hi), o, inv);
}

impl Ray<Fixed> {
    /// What `hits` is on fixed-point numbers: the ray has entered the cells
    /// of the box along every axis, at 0 at the earliest, before it leaves
    /// them along any.
    pub proof fn lemma_hits_means(&self, b: BBox)
        ensures
            self.hits(b) <==> ({
                let x = span(self.origin.x, self.direction.x, b.min.x as int, b.max.x as int);
                let y = span(self.origin.y, self.direction.y, b.min.y as int, b.max.y as int);
                let z = span(self.origin.z, self.direction.z, b.min.z as int, b.max.z as int);
                &&& 0 <= x.1.raw && 0 <= y.1.raw && 0 <= z.1.raw
                &&& x.0.raw <= x.1.raw && x.0.raw <= y.1.raw && x.0.raw <= z.1.raw
                &&& y.0.raw <= x.1.raw && y.0.raw <= y.1.raw && y.0.raw <= z.1.raw
                &&& z.0.raw <= x.1.raw && z.0.raw <= y.1.raw && z.0.raw <= z.1.raw
            }),
    {
    }
}

/// A ray on fixed-point numbers meets boxes as a query needs it.
pub proof fn lemma_fixed_ray_is_pointlike(ray: &Ray<Fixed>)
    ensures
        pointlike(ray),
{
    let o = ray.origin;
    let d = ray.direction;
    assert forall|a: BBox, b: BBox| #![trigger ray.hits(a), b.encloses(a)]
        a.inhabited() && ray.hits(a) && b.encloses(a) implies ray.hits(b) by {
        ray.lemma_hits_means(a);
        ray.lemma_hits_means(b);
        lemma_span_widens(o.x, d.x, a.min.x as int, a.max.x as int, b.min.x as int, b.max.x as int);
        lemma_span_widens(o.y, d.y, a.min.y as int, a.max.y as int, b.min.y as int, b.max.y as int);
        lemma_span_widens(o.z, d.z, a.min.z as int, a.max.z as int, b.min.z as int, b.max.z as int);
    }
    assert forall|b: BBox, m: int| #![trigger ray.hits(b.below_x(m))]
        b.inhabited() && ray.hits(b) implies (b.below_x(m).inhabited() && ray.hits(b.below_x(m)))
        || (b.above_x(m).inhabited() && ray.hits(b.above_x(m))) by {
        if m <= b.min.x {
            assert(b.above_x(m) == b);
        } else if m >= b.max.x {
            assert(b.below_x(m) == b);
        } else {
            ray.lemma_hits_means(b);
            ray.lemma_hits_means(b.below_x(m));
            ray.lemma_hits_means(b.above_x(m));
            lemma_span_splits(o.x, d.x, b.min.x as int, m, b.max.x as int);
        }
    }
    assert forall|b: BBox, m: int| #![trigger ray.hits(b.below_y(m))]
        b.inhabited() && ray.hits(b) implies (b.below_y(m).inhabited() && ray.hits(b.below_y(m)))
        || (b.above_y(m).inhabited() && ray.hits(b.above_y(m))) by {
        if m <= b.min.y {
            assert(b.above_y(m) == b);
        } else if m >= b.max.y {
            assert(b.below_y(m) == b);
        } else {
            ray.lemma_hits_means(b);
            ray.lemma_hits_means(b.below_y(m));
            ray.lemma_hits_means(b.above_y(m));
            lemma_span_splits(o.y, d.y, b.min.y as int, m, b.max.y as int);
        }
    }
    assert forall|b: BBox, m: int| #![trigger ray.hits(b.below_z(m))]
        b.inhabited() && ray.hits(b) implies (b.below_z(m).inhabited() && ray.hits(b.below_z(m)))
        || (b.above_z(m).inhabited() && ray.hits(b.above_z(m))) by {
        if m <= b.min.z {
            assert(b.above_z(m) == b);
        } else if m >= b.max.z {
            assert(b.below_z(m) == b);
        } else {
            ray.lemma_hits_means(b);
            ray.lemma_hits_means(b.below_z(m));
            ray.lemma_hits_means(b.above_z(m));
            lemma_span_splits(o.z, d.z, b.min.z as int, m, b.max.z as int);
        }
    }
}

} // verus!
