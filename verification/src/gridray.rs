//! Rays on the lattice, tested against boxes without rounding.
//!
//! A lattice ray starts at a cell and moves by whole cells. Where it enters
//! and leaves a box are ratios of whole numbers, and two ratios are compared
//! by their cross products, so the test is exact: it answers yes if and only
//! if a point of the ray lies in the box.

use crate::bbox::{lemma_point_set_is_pointlike, point_set, pointlike, BBox, Cell, Probe};
use crate::geometry::PartialBoundingBox;
use crate::octree::Octree;
use vstd::prelude::*;

verus! {

/// The points `origin + t * direction` for `t` from 0 on.
#[derive(Clone, Copy, Debug, PartialEq, Eq, Structural)]
pub struct GridRay {
    pub origin: Cell,
    pub direction: Cell,
}

/// A ratio `num / den`; `den` is above 0.
#[derive(Clone, Copy, Debug, PartialEq, Eq, Structural)]
pub struct Ratio {
    pub num: i64,
    pub den: i64,
}

/// The parameters for which a ray lies in a box along the axes seen so far:
/// from `near` to `far`, or from `near` on if there is no `far`.
#[derive(Clone, Copy, Debug, PartialEq, Eq, Structural)]
pub struct Window {
    pub near: Ratio,
    pub far: Option<Ratio>,
}

/// Whether `a / b` is at most `c / d`, for `b` and `d` above 0.
pub open spec fn at_most(a: int, b: int, c: int, d: int) -> bool {
    a * d <= c * b
}

/// Whether the point at parameter `p / q` of a ray that starts at `o` and
/// moves by `d` along an axis lies between `lo` and `hi` on that axis.
pub open spec fn reaches(o: int, d: int, lo: int, hi: int, p: int, q: int) -> bool {
    q * lo <= q * o + p * d <= q * hi
}

/// "At most" is transitive.
pub proof fn lemma_at_most_chain(a: int, b: int, c: int, d: int, e: int, f: int)
    requires
        b > 0,
        d > 0,
        f > 0,
        at_most(a, b, c, d),
        at_most(c, d, e, f),
    ensures
        at_most(a, b, e, f),
{
    assert(a * d * f <= c * b * f) by (nonlinear_arith)
        requires
            a * d <= c * b,
            f > 0,
    ;
    assert(c * f * b <= e * d * b) by (nonlinear_arith)
        requires
            c * f <= e * d,
            b > 0,
    ;
    assert(c * b * f == c * f * b) by (nonlinear_arith);
    assert(a * d * f == (a * f) * d) by (nonlinear_arith);
    assert(e * d * b == (e * b) * d) by (nonlinear_arith);
    assert(a * f <= e * b) by (nonlinear_arith)
        requires
            (a * f) * d <= (e * b) * d,
            d > 0,
    ;
}

impl Ratio {
    /// The ratio is well formed and within the range that a step along one
    /// axis can give.
    pub open spec fn wf(self) -> bool {
        0 < self.den <= 0x8000_0000 && -0x1_0000_0000 <= self.num <= 0x1_0000_0000
    }

    /// Whether this ratio is at most `other`.
    pub open spec fn le(self, other: Ratio) -> bool {
        at_most(self.num as int, self.den as int, other.num as int, other.den as int)
    }

    /// Whether this ratio is at most `p / q`.
    pub open spec fn before(self, p: int, q: int) -> bool {
        at_most(self.num as int, self.den as int, p, q)
    }

    /// Whether `p / q` is at most this ratio.
    pub open spec fn after(self, p: int, q: int) -> bool {
        at_most(p, q, self.num as int, self.den as int)
    }

    fn at_most(&self, other: &Ratio) -> (r: bool)
        requires
            self.wf(),
            other.wf(),
        ensures
            r == self.le(*other),
    {
        let a = self.num as i128;
        let b = self.den as i128;
        let c = other.num as i128;
        let d = other.den as i128;
        proof {
            assert(-0x1_0000_0000 * 0x8000_0000 <= a * d <= 0x1_0000_0000 * 0x8000_0000)
                by (nonlinear_arith)
                requires
                    -0x1_0000_0000 <= a <= 0x1_0000_0000,
                    0 < d <= 0x8000_0000,
            ;
            assert(-0x1_0000_0000 * 0x8000_0000 <= c * b <= 0x1_0000_0000 * 0x8000_0000)
                by (nonlinear_arith)
                requires
                    -0x1_0000_0000 <= c <= 0x1_0000_0000,
                    0 < b <= 0x8000_0000,
            ;
        }
        a * d <= c * b
    }
}

impl Window {
    pub open spec fn wf(self) -> bool {
        &&& self.near.wf()
        &&& self.near.num >= 0
        &&& match self.far {
            Some(f) => f.wf(),
            None => true,
        }
    }

    /// Whether the parameter `p / q` lies in the window.
    pub open spec fn holds(self, p: int, q: int) -> bool {
        &&& self.near.before(p, q)
        &&& match self.far {
            Some(f) => f.after(p, q),
            None => true,
        }
    }

    /// Whether the window holds a parameter at all.
    pub open spec fn open(self) -> bool {
        match self.far {
            Some(f) => self.near.le(f),
            None => true,
        }
    }

    /// All parameters from 0 on.
    pub open spec fn all() -> Window {
        Window { near: Ratio { num: 0, den: 1 }, far: None }
    }

    /// A window holds a parameter from 0 on if and only if it is open.
    pub proof fn lemma_open_means(self)
        requires
            self.wf(),
        ensures
            self.open() <==> exists|p: int, q: int| p >= 0 && q > 0 && #[trigger] self.holds(p, q),
    {
        if self.open() {
            assert(self.holds(self.near.num as int, self.near.den as int));
        }
        if exists|p: int, q: int| p >= 0 && q > 0 && #[trigger] self.holds(p, q) {
            let (p, q) = choose|p: int, q: int| p >= 0 && q > 0 && #[trigger] self.holds(p, q);
            match self.far {
                Some(f) => {
                    lemma_at_most_chain(
                        self.near.num as int,
                        self.near.den as int,
                        p,
                        q,
                        f.num as int,
                        f.den as int,
                    );
                },
                None => {},
            }
        }
    }
}

/// Where a ray that starts at `o` and moves by `d` along an axis enters the
/// range from `lo` to `hi`, for `d` other than 0.
pub open spec fn entry(o: int, d: int, lo: int, hi: int) -> Ratio {
    if d > 0 {
        Ratio { num: (lo - o) as i64, den: d as i64 }
    } else {
        Ratio { num: (o - hi) as i64, den: (-d) as i64 }
    }
}

/// Where the ray leaves the range, for `d` other than 0.
pub open spec fn exit(o: int, d: int, lo: int, hi: int) -> Ratio {
    if d > 0 {
        Ratio { num: (hi - o) as i64, den: d as i64 }
    } else {
        Ratio { num: (o - lo) as i64, den: (-d) as i64 }
    }
}

/// The window `w` narrowed to where the ray lies in the range along one more
/// axis: `near` moves up to the entry and `far` down to the exit. A ray that
/// does not move along the axis leaves the window as it is.
pub open spec fn narrowed(w: Window, o: int, d: int, lo: int, hi: int) -> Window {
    if d == 0 {
        w
    } else {
        let e = entry(o, d, lo, hi);
        let x = exit(o, d, lo, hi);
        Window {
            near: if w.near.le(e) {
                e
            } else {
                w.near
            },
            far: match w.far {
                Some(f) => if f.le(x) {
                    Some(f)
                } else {
                    Some(x)
                },
                None => Some(x),
            },
        }
    }
}

/// Entering and leaving say where the ray is in the range.
proof fn lemma_entry_exit(o: int, d: int, lo: int, hi: int, p: int, q: int)
    requires
        d != 0,
        q > 0,
        -0x8000_0000 <= o < 0x8000_0000,
        -0x8000_0000 <= d < 0x8000_0000,
        -0x8000_0000 <= lo < 0x8000_0000,
        -0x8000_0000 <= hi < 0x8000_0000,
    ensures
        entry(o, d, lo, hi).wf(),
        exit(o, d, lo, hi).wf(),
        reaches(o, d, lo, hi, p, q) <==> entry(o, d, lo, hi).before(p, q) && exit(
            o,
            d,
            lo,
            hi,
        ).after(p, q),
{
    if d > 0 {
        assert((lo - o) * q == q * lo - q * o) by (nonlinear_arith);
        assert((hi - o) * q == q * hi - q * o) by (nonlinear_arith);
    } else {
        assert((o - hi) * q == q * o - q * hi) by (nonlinear_arith);
        assert((o - lo) * q == q * o - q * lo) by (nonlinear_arith);
        assert(p * (-d) == -(p * d)) by (nonlinear_arith);
    }
}

/// The narrowed window holds the parameters that the window holds and at
/// which the ray lies in the range.
proof fn lemma_narrowed(w: Window, o: int, d: int, lo: int, hi: int, p: int, q: int)
    requires
        w.wf(),
        p >= 0,
        q > 0,
        -0x8000_0000 <= o < 0x8000_0000,
        -0x8000_0000 <= d < 0x8000_0000,
        -0x8000_0000 <= lo < 0x8000_0000,
        -0x8000_0000 <= hi < 0x8000_0000,
        d == 0 ==> lo <= o <= hi,
    ensures
        narrowed(w, o, d, lo, hi).wf(),
        narrowed(w, o, d, lo, hi).holds(p, q) <==> w.holds(p, q) && reaches(o, d, lo, hi, p, q),
{
    if d == 0 {
        assert(q * lo <= q * o <= q * hi) by (nonlinear_arith)
            requires
                lo <= o <= hi,
                q > 0,
        ;
        assert(p * d == 0) by (nonlinear_arith)
            requires
                d == 0,
        ;
    } else {
        lemma_entry_exit(o, d, lo, hi, p, q);
        let e = entry(o, d, lo, hi);
        let x = exit(o, d, lo, hi);
        let n = narrowed(w, o, d, lo, hi);
        // near
        if w.near.le(e) {
            if e.before(p, q) {
                lemma_at_most_chain(
                    w.near.num as int,
                    w.near.den as int,
                    e.num as int,
                    e.den as int,
                    p,
                    q,
                );
            }
            assert(e.num >= 0) by (nonlinear_arith)
                requires
                    w.near.num * e.den <= e.num * w.near.den,
                    w.near.num >= 0,
                    e.den > 0,
                    w.near.den > 0,
            ;
        } else {
            if w.near.before(p, q) {
                lemma_at_most_chain(
                    e.num as int,
                    e.den as int,
                    w.near.num as int,
                    w.near.den as int,
                    p,
                    q,
                );
            }
        }
        // far
        match w.far {
            Some(f) => {
                if f.le(x) {
                    if f.after(p, q) {
                        lemma_at_most_chain(
                            p,
                            q,
                            f.num as int,
                            f.den as int,
                            x.num as int,
                            x.den as int,
                        );
                    }
                } else {
                    if x.after(p, q) {
                        lemma_at_most_chain(
                            p,
                            q,
                            x.num as int,
                            x.den as int,
                            f.num as int,
                            f.den as int,
                        );
                    }
                }
            },
            None => {},
        }
    }
}

fn narrow(w: Window, o: i32, d: i32, lo: i32, hi: i32) -> (r: Window)
    requires
        w.wf(),
        d != 0,
    ensures
        r == narrowed(w, o as int, d as int, lo as int, hi as int),
{
    let (e, x) = if d > 0 {
        (
            Ratio { num: lo as i64 - o as i64, den: d as i64 },
            Ratio { num: hi as i64 - o as i64, den: d as i64 },
        )
    } else {
        (
            Ratio { num: o as i64 - hi as i64, den: -(d as i64) },
            Ratio { num: o as i64 - lo as i64, den: -(d as i64) },
        )
    };
    let near = if w.near.at_most(&e) {
        e
    } else {
        w.near
    };
    let far = match w.far {
        Some(f) => if f.at_most(&x) {
            Some(f)
        } else {
            Some(x)
        },
        None => Some(x),
    };
    Window { near: near, far: far }
}

impl GridRay {
    pub fn new(origin: Cell, direction: Cell) -> (r: GridRay)
        ensures
            r == (GridRay { origin, direction }),
    {
        GridRay { origin: origin, direction: direction }
    }

    /// Whether the point of the ray at parameter `p / q` lies in `b`.
    pub open spec fn inside_at(&self, b: BBox, p: int, q: int) -> bool {
        &&& reaches(
            self.origin.x as int,
            self.direction.x as int,
            b.min.x as int,
            b.max.x as int,
            p,
            q,
        )
        &&& reaches(
            self.origin.y as int,
            self.direction.y as int,
            b.min.y as int,
            b.max.y as int,
            p,
            q,
        )
        &&& reaches(
            self.origin.z as int,
            self.direction.z as int,
            b.min.z as int,
            b.max.z as int,
            p,
            q,
        )
    }

    /// Whether the ray stays within `b` along the axes along which it does
    /// not move.
    pub open spec fn level(&self, b: BBox) -> bool {
        &&& self.direction.x == 0 ==> b.min.x <= self.origin.x <= b.max.x
        &&& self.direction.y == 0 ==> b.min.y <= self.origin.y <= b.max.y
        &&& self.direction.z == 0 ==> b.min.z <= self.origin.z <= b.max.z
    }

    /// The parameters for which the ray lies in `b`, for a ray that is
    /// level with `b`.
    pub open spec fn window(&self, b: BBox) -> Window {
        narrowed(
            narrowed(
                narrowed(
                    Window::all(),
                    self.origin.x as int,
                    self.direction.x as int,
                    b.min.x as int,
                    b.max.x as int,
                ),
                self.origin.y as int,
                self.direction.y as int,
                b.min.y as int,
                b.max.y as int,
            ),
            self.origin.z as int,
            self.direction.z as int,
            b.min.z as int,
            b.max.z as int,
        )
    }

    /// A ray meets a box if and only if it is level with the box and the
    /// window of its parameters in the box is open.
    pub proof fn lemma_hits_means(&self, b: BBox)
        ensures
            self.hits(b) <==> self.level(b) && self.window(b).open(),
    {
        let ox = self.origin.x as int;
        let dx = self.direction.x as int;
        let oy = self.origin.y as int;
        let dy = self.direction.y as int;
        let oz = self.origin.z as int;
        let dz = self.direction.z as int;
        if self.level(b) {
            let w0 = Window::all();
            let w1 = narrowed(w0, ox, dx, b.min.x as int, b.max.x as int);
            let w2 = narrowed(w1, oy, dy, b.min.y as int, b.max.y as int);
            let w3 = narrowed(w2, oz, dz, b.min.z as int, b.max.z as int);
            assert forall|p: int, q: int| p >= 0 && q > 0 implies (#[trigger] w3.holds(p, q)
                <==> self.inside_at(b, p, q)) by {
                lemma_narrowed(w0, ox, dx, b.min.x as int, b.max.x as int, p, q);
                lemma_narrowed(w1, oy, dy, b.min.y as int, b.max.y as int, p, q);
                lemma_narrowed(w2, oz, dz, b.min.z as int, b.max.z as int, p, q);
                assert(w0.holds(p, q));
            }
            lemma_narrowed(w0, ox, dx, b.min.x as int, b.max.x as int, 0, 1);
            lemma_narrowed(w1, oy, dy, b.min.y as int, b.max.y as int, 0, 1);
            lemma_narrowed(w2, oz, dz, b.min.z as int, b.max.z as int, 0, 1);
            w3.lemma_open_means();
            if w3.open() {
                let (p, q) = choose|p: int, q: int| p >= 0 && q > 0 && #[trigger] w3.holds(p, q);
                assert(p >= 0 && q > 0 && self.inside_at(b, p, q));
            }
            if self.hits(b) {
                let (p, q) = choose|p: int, q: int|
                    p >= 0 && q > 0 && #[trigger] self.inside_at(b, p, q);
                assert(w3.holds(p, q));
            }
        } else {
            if self.hits(b) {
                let (p, q) = choose|p: int, q: int|
                    p >= 0 && q > 0 && #[trigger] self.inside_at(b, p, q);
                lemma_still_axis(ox, dx, b.min.x as int, b.max.x as int, p, q);
                lemma_still_axis(oy, dy, b.min.y as int, b.max.y as int, p, q);
                lemma_still_axis(oz, dz, b.min.z as int, b.max.z as int, p, q);
            }
        }
    }
}

/// Along an axis along which the ray does not move, it is in the range at
/// any parameter only if it starts there.
proof fn lemma_still_axis(o: int, d: int, lo: int, hi: int, p: int, q: int)
    requires
        q > 0,
        reaches(o, d, lo, hi, p, q),
    ensures
        d == 0 ==> lo <= o <= hi,
{
    if d == 0 {
        assert(p * d == 0) by (nonlinear_arith)
            requires
                d == 0,
        ;
        assert(lo <= o) by (nonlinear_arith)
            requires
                q * lo <= q * o,
                q > 0,
        ;
        assert(o <= hi) by (nonlinear_arith)
            requires
                q * o <= q * hi,
                q > 0,
        ;
    }
}

/// A lattice ray meets a box if a point of it, at a parameter from 0 on,
/// lies in the box.
impl Probe for GridRay {
    open spec fn hits(&self, b: BBox) -> bool {
        exists|p: int, q: int| p >= 0 && q > 0 && #[trigger] self.inside_at(b, p, q)
    }

    fn meets(&self, b: &BBox) -> (r: bool) {
        proof {
            self.lemma_hits_means(*b);
        }
        let mut w = Window { near: Ratio { num: 0, den: 1 }, far: None };
        if self.direction.x == 0 {
            if self.origin.x < b.min.x || self.origin.x > b.max.x {
                return false;
            }
        } else {
            proof {
                lemma_narrowed(
                    w,
                    self.origin.x as int,
                    self.direction.x as int,
                    b.min.x as int,
                    b.max.x as int,
                    0,
                    1,
                );
            }
            w = narrow(w, self.origin.x, self.direction.x, b.min.x, b.max.x);
        }
        if self.direction.y == 0 {
            if self.origin.y < b.min.y || self.origin.y > b.max.y {
                return false;
            }
        } else {
            proof {
                lemma_narrowed(
                    w,
                    self.origin.y as int,
                    self.direction.y as int,
                    b.min.y as int,
                    b.max.y as int,
                    0,
                    1,
                );
            }
            w = narrow(w, self.origin.y, self.direction.y, b.min.y, b.max.y);
        }
        if self.direction.z == 0 {
            if self.origin.z < b.min.z || self.origin.z > b.max.z {
                return false;
            }
        } else {
            proof {
                lemma_narrowed(
                    w,
                    self.origin.z as int,
                    self.direction.z as int,
                    b.min.z as int,
                    b.max.z as int,
                    0,
                    1,
                );
            }
            w = narrow(w, self.origin.z, self.direction.z, b.min.z, b.max.z);
        }
        match w.far {
            Some(f) => w.near.at_most(&f),
            None => true,
        }
    }
}

/// Multiplying with a number above 0 keeps the order.
proof fn lemma_scaled_order(q: int, a: int, b: int)
    requires
        q > 0,
    ensures
        a <= b <==> q * a <= q * b,
{
    if a <= b {
        assert(q * a <= q * b) by (nonlinear_arith)
            requires
                a <= b,
                q > 0,
        ;
    } else {
        assert(q * b < q * a) by (nonlinear_arith)
            requires
                b < a,
                q > 0,
        ;
    }
}

/// A lattice ray meets boxes as a query needs it.
pub proof fn lemma_grid_ray_is_pointlike(ray: &GridRay)
    ensures
        pointlike(ray),
{
    lemma_grid_ray_is_point_set(ray);
    lemma_point_set_is_pointlike(ray);
}

/// A lattice ray is a set of points: it meets a box exactly when one of its
/// points lies in the box, so it meets boxes as `point_set` asks.
pub proof fn lemma_grid_ray_is_point_set(ray: &GridRay)
    ensures
        point_set(ray),
{
    assert forall|b: BBox| #[trigger] ray.hits(b) implies b.inhabited() by {
        let (p, q) = choose|p: int, q: int| p >= 0 && q > 0 && #[trigger] ray.inside_at(b, p, q);
        lemma_scaled_order(q, b.min.x as int, b.max.x as int);
        lemma_scaled_order(q, b.min.y as int, b.max.y as int);
        lemma_scaled_order(q, b.min.z as int, b.max.z as int);
    }
    assert forall|a: BBox, b: BBox| #![trigger ray.hits(a), b.encloses(a)]
        ray.hits(a) && b.encloses(a) implies ray.hits(b) by {
        let (p, q) = choose|p: int, q: int| p >= 0 && q > 0 && #[trigger] ray.inside_at(a, p, q);
        lemma_scaled_order(q, b.min.x as int, a.min.x as int);
        lemma_scaled_order(q, b.min.y as int, a.min.y as int);
        lemma_scaled_order(q, b.min.z as int, a.min.z as int);
        lemma_scaled_order(q, a.max.x as int, b.max.x as int);
        lemma_scaled_order(q, a.max.y as int, b.max.y as int);
        lemma_scaled_order(q, a.max.z as int, b.max.z as int);
        assert(ray.inside_at(b, p, q));
    }
    assert forall|b: BBox, m: int| #![trigger ray.hits(b.below_x(m))]
        ray.hits(b) implies ray.hits(b.below_x(m)) || ray.hits(b.above_x(m)) by {
        let (p, q) = choose|p: int, q: int| p >= 0 && q > 0 && #[trigger] ray.inside_at(b, p, q);
        if m >= b.max.x {
            assert(b.below_x(m) == b);
        } else if m <= b.min.x {
            assert(b.above_x(m) == b);
        } else {
            let v = q * ray.origin.x + p * ray.direction.x;
            if v <= q * m {
                assert(ray.inside_at(b.below_x(m), p, q));
            } else {
                assert(ray.inside_at(b.above_x(m), p, q));
            }
        }
    }
    assert forall|b: BBox, m: int| #![trigger ray.hits(b.below_y(m))]
        ray.hits(b) implies ray.hits(b.below_y(m)) || ray.hits(b.above_y(m)) by {
        let (p, q) = choose|p: int, q: int| p >= 0 && q > 0 && #[trigger] ray.inside_at(b, p, q);
        if m >= b.max.y {
            assert(b.below_y(m) == b);
        } else if m <= b.min.y {
            assert(b.above_y(m) == b);
        } else {
            let v = q * ray.origin.y + p * ray.direction.y;
            if v <= q * m {
                assert(ray.inside_at(b.below_y(m), p, q));
            } else {
                assert(ray.inside_at(b.above_y(m), p, q));
            }
        }
    }
    assert forall|b: BBox, m: int| #![trigger ray.hits(b.below_z(m))]
        ray.hits(b) implies ray.hits(b.below_z(m)) || ray.hits(b.above_z(m)) by {
        let (p, q) = choose|p: int, q: int| p >= 0 && q > 0 && #[trigger] ray.inside_at(b, p, q);
        if m >= b.max.z {
            assert(b.below_z(m) == b);
        } else if m <= b.min.z {
            assert(b.above_z(m) == b);
        } else {
            let v = q * ray.origin.z + p * ray.direction.z;
            if v <= q * m {
                assert(ray.inside_at(b.below_z(m), p, q));
            } else {
                assert(ray.inside_at(b.above_z(m), p, q));
            }
        }
    }
}

/// A query with a lattice ray is handed every bounded primitive whose bounds
/// the ray meets.
pub proof fn lemma_grid_ray_finds_all<T: PartialBoundingBox>(
    tree: &Octree<T>,
    ray: &GridRay,
    i: int,
)
    requires
        tree.wf(),
        0 <= i < tree.finite().len(),
        ray.hits(tree.finite()[i].bounds().unwrap()),
    ensures
        tree.candidates(ray).contains(i),
{
    lemma_grid_ray_is_pointlike(ray);
    lemma_grid_ray_is_point_set(ray);
    tree.lemma_candidates_complete(ray, i);
}

} // verus!
