//! Axis-aligned boxes on an integer lattice.
//!
//! The spatial index stores bounds as closed boxes of lattice cells. A
//! primitive rounds its bounds outward to whole cells, so that a box never
//! misses a part of its primitive, and the halves of a box meet in a shared
//! plane of cells, so that the octants of a box cover it without a gap.

use vstd::prelude::*;

verus! {

/// Lattice cells along one world unit.
pub const CELLS_PER_UNIT: u32 = 1024;

/// A point of the lattice.
#[derive(Clone, Copy, Debug, PartialEq, Eq, Structural)]
pub struct Cell {
    pub x: i32,
    pub y: i32,
    pub z: i32,
}

/// A closed box: the cells from `min` to `max` on each axis. Where `max` is
/// below `min` on some axis the box holds no cell.
#[derive(Clone, Copy, Debug, PartialEq, Eq, Structural)]
pub struct BBox {
    pub min: Cell,
    pub max: Cell,
}

/// Anything that can be asked whether it meets a box: a ray, a point, another
/// box. The answer is a function of the box.
pub trait Probe {
    /// Whether the probe meets `b`.
    spec fn hits(&self, b: BBox) -> bool;

    fn meets(&self, b: &BBox) -> (r: bool)
        ensures
            r == self.hits(*b),
    ;
}

/// The smaller of two whole numbers.
pub open spec fn min_int(a: int, b: int) -> int {
    if a <= b {
        a
    } else {
        b
    }
}

/// The larger of two whole numbers.
pub open spec fn max_int(a: int, b: int) -> int {
    if a >= b {
        a
    } else {
        b
    }
}

/// The whole number halfway between `a` and `b`, rounded down.
pub open spec fn midpoint(a: int, b: int) -> int {
    (a + b + 0x1_0000_0000) / 2 - 0x8000_0000
}

fn lesser(a: i32, b: i32) -> (r: i32)
    ensures
        r == min_int(a as int, b as int),
{
    if a <= b {
        a
    } else {
        b
    }
}

fn greater(a: i32, b: i32) -> (r: i32)
    ensures
        r == max_int(a as int, b as int),
{
    if a >= b {
        a
    } else {
        b
    }
}

fn middle(a: i32, b: i32) -> (r: i32)
    ensures
        r == midpoint(a as int, b as int),
        a <= b ==> a <= r <= b,
        2 * r <= a + b <= 2 * r + 1,
{
    let ua: i64 = a as i64 + 0x8000_0000;
    let ub: i64 = b as i64 + 0x8000_0000;
    let m: i64 = (ua + ub) / 2 - 0x8000_0000;
    m as i32
}

/// How many cells lie between `lo` and `hi`, counted as a length: 0 where
/// `hi` is not above `lo`.
pub open spec fn span(lo: int, hi: int) -> nat {
    if hi > lo {
        (hi - lo) as nat
    } else {
        0
    }
}

fn extent(lo: i32, hi: i32) -> (r: u64)
    ensures
        r == span(lo as int, hi as int),
        r < 0x1_0000_0000,
{
    if hi > lo {
        (hi as i64 - lo as i64) as u64
    } else {
        0
    }
}

impl Cell {
    pub fn new(x: i32, y: i32, z: i32) -> (c: Cell)
        ensures
            c == (Cell { x, y, z }),
    {
        Cell { x: x, y: y, z: z }
    }
}

impl BBox {
    /// Whether the box holds at least one cell.
    pub open spec fn inhabited(self) -> bool {
        self.min.x <= self.max.x && self.min.y <= self.max.y && self.min.z <= self.max.z
    }

    /// Whether the cell `c` lies in the box.
    pub open spec fn holds(self, c: Cell) -> bool {
        &&& self.min.x <= c.x <= self.max.x
        &&& self.min.y <= c.y <= self.max.y
        &&& self.min.z <= c.z <= self.max.z
    }

    /// The smallest box around both.
    pub open spec fn hull(self, other: BBox) -> BBox {
        BBox {
            min: Cell {
                x: min_int(self.min.x as int, other.min.x as int) as i32,
                y: min_int(self.min.y as int, other.min.y as int) as i32,
                z: min_int(self.min.z as int, other.min.z as int) as i32,
            },
            max: Cell {
                x: max_int(self.max.x as int, other.max.x as int) as i32,
                y: max_int(self.max.y as int, other.max.y as int) as i32,
                z: max_int(self.max.z as int, other.max.z as int) as i32,
            },
        }
    }

    /// The cells that lie in both.
    pub open spec fn meet(self, other: BBox) -> BBox {
        BBox {
            min: Cell {
                x: max_int(self.min.x as int, other.min.x as int) as i32,
                y: max_int(self.min.y as int, other.min.y as int) as i32,
                z: max_int(self.min.z as int, other.min.z as int) as i32,
            },
            max: Cell {
                x: min_int(self.max.x as int, other.max.x as int) as i32,
                y: min_int(self.max.y as int, other.max.y as int) as i32,
                z: min_int(self.max.z as int, other.max.z as int) as i32,
            },
        }
    }

    /// Whether the two boxes share a cell.
    pub open spec fn touches(self, other: BBox) -> bool {
        self.meet(other).inhabited()
    }

    /// Whether every cell of `other` lies in this box, by its corners.
    pub open spec fn encloses(self, other: BBox) -> bool {
        &&& self.min.x <= other.min.x && other.max.x <= self.max.x
        &&& self.min.y <= other.min.y && other.max.y <= self.max.y
        &&& self.min.z <= other.min.z && other.max.z <= self.max.z
    }

    /// The extent along x.
    pub open spec fn width(self) -> nat {
        span(self.min.x as int, self.max.x as int)
    }

    /// The extent along y.
    pub open spec fn height(self) -> nat {
        span(self.min.y as int, self.max.y as int)
    }

    /// The extent along z.
    pub open spec fn depth(self) -> nat {
        span(self.min.z as int, self.max.z as int)
    }

    /// The volume: the product of the three extents.
    pub open spec fn bulk(self) -> nat {
        self.width() * self.height() * self.depth()
    }

    /// The surface: twice the sum of the products of two extents each.
    pub open spec fn skin(self) -> nat {
        2 * (self.width() * self.height() + self.height() * self.depth() + self.depth()
            * self.width())
    }

    /// The cell in the middle of the box, rounded down on each axis.
    pub open spec fn center(self) -> Cell {
        Cell {
            x: midpoint(self.min.x as int, self.max.x as int) as i32,
            y: midpoint(self.min.y as int, self.max.y as int) as i32,
            z: midpoint(self.min.z as int, self.max.z as int) as i32,
        }
    }

    /// One of the eight parts into which the planes through the center cut
    /// the box. Bit 2 of `k` picks the upper half along x, bit 1 along y,
    /// bit 0 along z. The two halves along an axis share the plane through
    /// the center.
    pub open spec fn octant(self, k: int) -> BBox {
        let c = self.center();
        let hx = (k / 4) % 2 == 1;
        let hy = (k / 2) % 2 == 1;
        let hz = k % 2 == 1;
        BBox {
            min: Cell {
                x: if hx { c.x } else { self.min.x },
                y: if hy { c.y } else { self.min.y },
                z: if hz { c.z } else { self.min.z },
            },
            max: Cell {
                x: if hx { self.max.x } else { c.x },
                y: if hy { self.max.y } else { c.y },
                z: if hz { self.max.z } else { c.z },
            },
        }
    }

    pub fn new(min: Cell, max: Cell) -> (b: BBox)
        ensures
            b == (BBox { min, max }),
    {
        BBox { min: min, max: max }
    }

    /// The box that holds the one cell at the origin.
    pub fn zero() -> (b: BBox)
        ensures
            b == (BBox { min: Cell { x: 0, y: 0, z: 0 }, max: Cell { x: 0, y: 0, z: 0 } }),
    {
        BBox { min: Cell::new(0, 0, 0), max: Cell::new(0, 0, 0) }
    }

    /// The smallest box around both.
    pub fn union(&self, other: &BBox) -> (b: BBox)
        ensures
            b == self.hull(*other),
    {
        BBox {
            min: Cell {
                x: lesser(self.min.x, other.min.x),
                y: lesser(self.min.y, other.min.y),
                z: lesser(self.min.z, other.min.z),
            },
            max: Cell {
                x: greater(self.max.x, other.max.x),
                y: greater(self.max.y, other.max.y),
                z: greater(self.max.z, other.max.z),
            },
        }
    }

    /// Whether the two boxes share a cell.
    pub fn overlaps(&self, other: &BBox) -> (r: bool)
        ensures
            r == self.touches(*other),
    {
        greater(self.min.x, other.min.x) <= lesser(self.max.x, other.max.x) && greater(
            self.min.y,
            other.min.y,
        ) <= lesser(self.max.y, other.max.y) && greater(self.min.z, other.min.z) <= lesser(
            self.max.z,
            other.max.z,
        )
    }

    /// Whether `other` lies within this box, corner by corner.
    pub fn contains(&self, other: &BBox) -> (r: bool)
        ensures
            r == self.encloses(*other),
    {
        self.min.x <= other.min.x && other.max.x <= self.max.x && self.min.y <= other.min.y
            && other.max.y <= self.max.y && self.min.z <= other.min.z && other.max.z
            <= self.max.z
    }

    /// Whether `probe` meets this box.
    pub fn intersects<P: Probe>(&self, probe: &P) -> (r: bool)
        ensures
            r == probe.hits(*self),
    {
        probe.meets(self)
    }

    /// The volume of the box.
    pub fn volume(&self) -> (r: u128)
        ensures
            r == self.bulk(),
    {
        let w: u128 = extent(self.min.x, self.max.x) as u128;
        let h: u128 = extent(self.min.y, self.max.y) as u128;
        let d: u128 = extent(self.min.z, self.max.z) as u128;
        assert(w * h <= 0x1_0000_0000 * 0x1_0000_0000) by (nonlinear_arith)
            requires
                w <= 0x1_0000_0000,
                h <= 0x1_0000_0000,
        ;
        assert(w * h * d <= 0x1_0000_0000_0000_0000 * 0x1_0000_0000) by (nonlinear_arith)
            requires
                w * h <= 0x1_0000_0000_0000_0000,
                d <= 0x1_0000_0000,
        ;
        w * h * d
    }

    /// The surface of the box.
    pub fn surface_area(&self) -> (r: u128)
        ensures
            r == self.skin(),
    {
        let w: u128 = extent(self.min.x, self.max.x) as u128;
        let h: u128 = extent(self.min.y, self.max.y) as u128;
        let d: u128 = extent(self.min.z, self.max.z) as u128;
        assert(w * h <= 0x1_0000_0000 * 0x1_0000_0000) by (nonlinear_arith)
            requires
                w <= 0x1_0000_0000,
                h <= 0x1_0000_0000,
        ;
        assert(h * d <= 0x1_0000_0000 * 0x1_0000_0000) by (nonlinear_arith)
            requires
                h <= 0x1_0000_0000,
                d <= 0x1_0000_0000,
        ;
        assert(d * w <= 0x1_0000_0000 * 0x1_0000_0000) by (nonlinear_arith)
            requires
                d <= 0x1_0000_0000,
                w <= 0x1_0000_0000,
        ;
        2 * (w * h + h * d + d * w)
    }

    /// The part of the box numbered `k`, for `k` below 8.
    pub fn child(&self, k: usize) -> (b: BBox)
        requires
            k < 8,
        ensures
            b == self.octant(k as int),
    {
        let cx = middle(self.min.x, self.max.x);
        let cy = middle(self.min.y, self.max.y);
        let cz = middle(self.min.z, self.max.z);
        let hx = (k / 4) % 2 == 1;
        let hy = (k / 2) % 2 == 1;
        let hz = k % 2 == 1;
        BBox {
            min: Cell {
                x: if hx { cx } else { self.min.x },
                y: if hy { cy } else { self.min.y },
                z: if hz { cz } else { self.min.z },
            },
            max: Cell {
                x: if hx { self.max.x } else { cx },
                y: if hy { self.max.y } else { cy },
                z: if hz { self.max.z } else { cz },
            },
        }
    }
}

impl BBox {
    /// The part of the box at or below `m` along x.
    pub open spec fn below_x(self, m: int) -> BBox {
        BBox {
            min: self.min,
            max: Cell { x: min_int(self.max.x as int, m) as i32, y: self.max.y, z: self.max.z },
        }
    }

    /// The part of the box at or above `m` along x.
    pub open spec fn above_x(self, m: int) -> BBox {
        BBox {
            min: Cell { x: max_int(self.min.x as int, m) as i32, y: self.min.y, z: self.min.z },
            max: self.max,
        }
    }

    /// The part of the box at or below `m` along y.
    pub open spec fn below_y(self, m: int) -> BBox {
        BBox {
            min: self.min,
            max: Cell { x: self.max.x, y: min_int(self.max.y as int, m) as i32, z: self.max.z },
        }
    }

    /// The part of the box at or above `m` along y.
    pub open spec fn above_y(self, m: int) -> BBox {
        BBox {
            min: Cell { x: self.min.x, y: max_int(self.min.y as int, m) as i32, z: self.min.z },
            max: self.max,
        }
    }

    /// The part of the box at or below `m` along z.
    pub open spec fn below_z(self, m: int) -> BBox {
        BBox {
            min: self.min,
            max: Cell { x: self.max.x, y: self.max.y, z: min_int(self.max.z as int, m) as i32 },
        }
    }

    /// The part of the box at or above `m` along z.
    pub open spec fn above_z(self, m: int) -> BBox {
        BBox {
            min: Cell { x: self.min.x, y: self.min.y, z: max_int(self.min.z as int, m) as i32 },
            max: self.max,
        }
    }
}

/// What a query needs of a probe to find every box that the probe meets:
/// with a box that has cells the probe meets every box around it; and when
/// a plane cuts a box with cells that the probe meets, the probe meets the
/// part on one side of the plane or the part on the other, the plane
/// counting to both, and the part it meets has cells. Nothing is asked of
/// the probe on boxes without cells.
pub open spec fn pointlike<P: Probe>(p: &P) -> bool {
    &&& forall|a: BBox, b: BBox|
        #![trigger p.hits(a), b.encloses(a)]
        a.inhabited() && p.hits(a) && b.encloses(a) ==> p.hits(b)
    &&& forall|b: BBox, m: int|
        #![trigger p.hits(b.below_x(m))]
        b.inhabited() && p.hits(b) ==> (b.below_x(m).inhabited() && p.hits(b.below_x(m))) || (
        b.above_x(m).inhabited() && p.hits(b.above_x(m)))
    &&& forall|b: BBox, m: int|
        #![trigger p.hits(b.below_y(m))]
        b.inhabited() && p.hits(b) ==> (b.below_y(m).inhabited() && p.hits(b.below_y(m))) || (
        b.above_y(m).inhabited() && p.hits(b.above_y(m)))
    &&& forall|b: BBox, m: int|
        #![trigger p.hits(b.below_z(m))]
        b.inhabited() && p.hits(b) ==> (b.below_z(m).inhabited() && p.hits(b.below_z(m))) || (
        b.above_z(m).inhabited() && p.hits(b.above_z(m)))
}

/// What a probe does if it stands for a set of points, and meets a box when
/// one of its points lies in the box: it meets no box without a cell; with a
/// box it meets every box around it; and when a plane cuts a box that it
/// meets, it meets the part on one side of the plane or the part on the
/// other, the plane counting to both.
pub open spec fn point_set<P: Probe>(p: &P) -> bool {
    &&& forall|b: BBox| #[trigger] p.hits(b) ==> b.inhabited()
    &&& forall|a: BBox, b: BBox|
        #![trigger p.hits(a), b.encloses(a)]
        p.hits(a) && b.encloses(a) ==> p.hits(b)
    &&& forall|b: BBox, m: int|
        #![trigger p.hits(b.below_x(m))]
        p.hits(b) ==> p.hits(b.below_x(m)) || p.hits(b.above_x(m))
    &&& forall|b: BBox, m: int|
        #![trigger p.hits(b.below_y(m))]
        p.hits(b) ==> p.hits(b.below_y(m)) || p.hits(b.above_y(m))
    &&& forall|b: BBox, m: int|
        #![trigger p.hits(b.below_z(m))]
        p.hits(b) ==> p.hits(b.below_z(m)) || p.hits(b.above_z(m))
}

/// A set of points meets boxes as a query needs it.
pub proof fn lemma_point_set_is_pointlike<P: Probe>(p: &P)
    requires
        point_set(p),
    ensures
        pointlike(p),
{
}

/// A probe that meets the part of `item` in `region`, which has cells, meets
/// the part of `item` in one of the octants of `region`, which has cells
/// too.
pub proof fn lemma_octants_cover<P: Probe>(p: &P, item: BBox, region: BBox) -> (k: int)
    requires
        pointlike(p),
        item.meet(region).inhabited(),
        p.hits(item.meet(region)),
    ensures
        0 <= k < 8,
        item.meet(region.octant(k)).inhabited(),
        p.hits(item.meet(region.octant(k))),
        p.hits(region.octant(k)),
        region.octant(k).touches(item),
{
    let x0 = item.meet(region);
    let c = region.center();
    assert(p.hits(x0.below_x(c.x as int)) || p.hits(x0.above_x(c.x as int)));
    let hx: int = if x0.below_x(c.x as int).inhabited() && p.hits(x0.below_x(c.x as int)) {
        0
    } else {
        1
    };
    let x1 = if hx == 0 { x0.below_x(c.x as int) } else { x0.above_x(c.x as int) };
    assert(p.hits(x1.below_y(c.y as int)) || p.hits(x1.above_y(c.y as int)));
    let hy: int = if x1.below_y(c.y as int).inhabited() && p.hits(x1.below_y(c.y as int)) {
        0
    } else {
        1
    };
    let x2 = if hy == 0 { x1.below_y(c.y as int) } else { x1.above_y(c.y as int) };
    assert(p.hits(x2.below_z(c.z as int)) || p.hits(x2.above_z(c.z as int)));
    let hz: int = if x2.below_z(c.z as int).inhabited() && p.hits(x2.below_z(c.z as int)) {
        0
    } else {
        1
    };
    let x3 = if hz == 0 { x2.below_z(c.z as int) } else { x2.above_z(c.z as int) };
    let k = 4 * hx + 2 * hy + hz;
    assert(x3 == item.meet(region.octant(k)));
    assert(region.octant(k).encloses(x3));
    assert(region.octant(k).meet(item) == x3);
    k
}

/// A box used as a probe meets the boxes it shares a cell with.
impl Probe for BBox {
    open spec fn hits(&self, b: BBox) -> bool {
        self.touches(b)
    }

    fn meets(&self, b: &BBox) -> (r: bool) {
        self.overlaps(b)
    }
}

/// A cell used as a probe meets the boxes it lies in.
impl Probe for Cell {
    open spec fn hits(&self, b: BBox) -> bool {
        b.holds(*self)
    }

    fn meets(&self, b: &BBox) -> (r: bool) {
        b.min.x <= self.x && self.x <= b.max.x && b.min.y <= self.y && self.y <= b.max.y
            && b.min.z <= self.z && self.z <= b.max.z
    }
}

/// A box is a set of points.
pub proof fn lemma_box_is_pointlike(q: &BBox)
    ensures
        point_set(q),
        pointlike(q),
{
    assert(point_set(q));
}

/// A cell is a point.
pub proof fn lemma_cell_is_pointlike(c: &Cell)
    ensures
        point_set(c),
        pointlike(c),
{
    assert(point_set(c));
}

} // verus!
