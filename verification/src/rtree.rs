//! The choices that an R-tree makes when it files an entry or splits a
//! node: which child fits an entry best, which two entries start the two
//! halves of a full node, and which half takes each of the others.

use crate::bbox::{max_int, min_int, BBox, Cell};
use vstd::multiset::{group_multiset_axioms, group_multiset_properties, lemma_multiset_empty_len, Multiset};
use vstd::prelude::*;
use vstd::seq_lib::{group_to_multiset_ensures, to_multiset_build, to_multiset_remove};

verus! {

/// Something with a smallest box around it, or without.
pub trait Mbr: Sized {
    /// The box, as contracts speak of it.
    spec fn mbr_of(&self) -> Option<BBox>;

    fn mbr(&self) -> (r: Option<BBox>)
        ensures
            r == self.mbr_of(),
    ;
}

impl Mbr for BBox {
    open spec fn mbr_of(&self) -> Option<BBox> {
        Some(*self)
    }

    fn mbr(&self) -> (r: Option<BBox>) {
        Some(*self)
    }
}

/// An entry together with its box.
pub struct BBoxItem<T> {
    pub bbox: BBox,
    pub item: T,
}

impl<T: Mbr> BBoxItem<T> {
    pub fn new(item: T) -> (r: BBoxItem<T>)
        requires
            item.mbr_of() is Some,
        ensures
            r.bbox == item.mbr_of().unwrap(),
            r.item == item,
    {
        let bbox = item.mbr().unwrap();
        BBoxItem { bbox: bbox, item: item }
    }
}

impl<T> Mbr for BBoxItem<T> {
    open spec fn mbr_of(&self) -> Option<BBox> {
        Some(self.bbox)
    }

    fn mbr(&self) -> (r: Option<BBox>) {
        Some(self.bbox)
    }
}

/// How many entries a node holds at least and at most, when the two seeds
/// of a split are the pair that wastes the most space.
#[derive(Clone, Copy, Debug)]
pub struct QuadraticStrategy {
    pub node_min: usize,
    pub node_max: usize,
}

/// How many entries a node holds at least and at most, when the seeds of a
/// split are found in one pass.
#[derive(Clone, Copy, Debug)]
pub struct LinearStrategy {
    pub node_min: usize,
    pub node_max: usize,
}

impl Default for QuadraticStrategy {
    fn default() -> (s: QuadraticStrategy)
        ensures
            s.node_min == 10,
            s.node_max == 30,
    {
        QuadraticStrategy { node_min: 10, node_max: 30 }
    }
}

impl Default for LinearStrategy {
    fn default() -> (s: LinearStrategy)
        ensures
            s.node_min == 10,
            s.node_max == 30,
    {
        LinearStrategy { node_min: 10, node_max: 30 }
    }
}

/// The smallest and the largest height of the leaves below a node. In a
/// balanced tree they agree.
#[derive(Clone, Copy, Debug, PartialEq, Eq, Structural)]
pub struct Height(pub u32, pub u32);

/// The smallest of the lower ends of the first `k` heights; the largest
/// number if `k` is 0.
pub open spec fn lowest(heights: Seq<Height>, k: int) -> int
    decreases k,
{
    if k <= 0 {
        u32::MAX as int
    } else {
        min_int(heights[k - 1].0 as int, lowest(heights, k - 1))
    }
}

/// The largest of the upper ends of the first `k` heights; 0 if `k` is 0.
pub open spec fn highest(heights: Seq<Height>, k: int) -> int
    decreases k,
{
    if k <= 0 {
        0
    } else {
        max_int(heights[k - 1].1 as int, highest(heights, k - 1))
    }
}

impl Height {
    /// The height of a balanced subtree.
    pub fn checked(&self) -> (h: u32)
        requires
            self.0 == self.1,
        ensures
            h == self.0,
    {
        self.0
    }

    /// The range of the heights in `heights`; `None` if there are none.
    pub fn merge(heights: &Vec<Height>) -> (r: Option<Height>)
        requires
            forall|k: int| 0 <= k < heights.len() ==> (#[trigger] heights[k]).0 <= heights[k].1,
        ensures
            heights.len() == 0 ==> r is None,
            heights.len() > 0 ==> r == Some(
                Height(
                    lowest(heights@, heights.len() as int) as u32,
                    highest(heights@, heights.len() as int) as u32,
                ),
            ),
    {
        let mut min_val: u32 = u32::MAX;
        let mut max_val: u32 = 0;
        let mut k: usize = 0;
        while k < heights.len()
            invariant
                k <= heights.len(),
                forall|j: int|
                    0 <= j < heights.len() ==> (#[trigger] heights[j]).0 <= heights[j].1,
                min_val == lowest(heights@, k as int),
                max_val == highest(heights@, k as int),
                k > 0 ==> min_val <= max_val,
            decreases heights.len() - k,
        {
            let h = heights[k];
            if h.0 < min_val {
                min_val = h.0;
            }
            if h.1 > max_val {
                max_val = h.1;
            }
            k += 1;
        }
        // no values
        if max_val < min_val {
            return None;
        }
        if heights.len() == 0 {
            return None;
        }
        Some(Height(min_val, max_val))
    }
}

/// The box that holds no cell and gives way to every box in a hull.
pub open spec fn nothing() -> BBox {
    BBox {
        min: Cell { x: i32::MAX, y: i32::MAX, z: i32::MAX },
        max: Cell { x: i32::MIN, y: i32::MIN, z: i32::MIN },
    }
}

/// Whether every one of `items` has a box.
pub open spec fn all_boxed<T: Mbr>(items: Seq<T>) -> bool {
    forall|k: int| 0 <= k < items.len() ==> (#[trigger] items[k]).mbr_of() is Some
}

/// The box of the entry at `k`.
pub open spec fn box_at<T: Mbr>(items: Seq<T>, k: int) -> BBox {
    items[k].mbr_of().unwrap()
}

/// The smallest box around the first `k` of `items`; `nothing()` if `k` is
/// 0.
pub open spec fn spread<T: Mbr>(items: Seq<T>, k: int) -> BBox
    decreases k,
{
    if k <= 0 {
        nothing()
    } else {
        spread(items, k - 1).hull(box_at(items, k - 1))
    }
}

/// The smallest box around all of `items`.
pub fn mbr_from_slice<T: Mbr>(items: &[T]) -> (r: BBox)
    requires
        all_boxed(items@),
    ensures
        r == spread(items@, items.len() as int),
{
    let mut acc = BBox {
        min: Cell { x: i32::MAX, y: i32::MAX, z: i32::MAX },
        max: Cell { x: i32::MIN, y: i32::MIN, z: i32::MIN },
    };
    let mut k: usize = 0;
    while k < items.len()
        invariant
            k <= items.len(),
            all_boxed(items@),
            acc == spread(items@, k as int),
        decreases items.len() - k,
    {
        let bounding = items[k].mbr().unwrap();
        acc = acc.union(&bounding);
        k += 1;
    }
    acc
}

/// Puts `new_mbr` in the place of `bbox` and says whether that changed it.
pub fn replace_bbox(bbox: &mut BBox, new_mbr: BBox) -> (is_changed: bool)
    ensures
        *final(bbox) == new_mbr,
        is_changed == (*old(bbox) != new_mbr),
{
    let is_changed = *bbox != new_mbr;
    *bbox = new_mbr;
    is_changed
}

/// Widens `bbox` to hold `adding` too and says whether that changed it.
pub fn union_bbox(bbox: &mut BBox, adding: BBox) -> (is_changed: bool)
    ensures
        *final(bbox) == old(bbox).hull(adding),
        is_changed == (*old(bbox) != old(bbox).hull(adding)),
{
    let new_bbox = bbox.union(&adding);
    if new_bbox != *bbox {
        *bbox = new_bbox;
        true
    } else {
        false
    }
}

/// How much surface `target` gains when it is widened to hold `adding`.
pub open spec fn growth(target: BBox, adding: BBox) -> int {
    target.hull(adding).skin() - target.skin()
}

/// How much more surface the hull of two boxes has than the two together.
pub open spec fn waste(e1: BBox, e2: BBox) -> int {
    e1.hull(e2).skin() - e1.skin() - e2.skin()
}

proof fn lemma_skin_bound(b: BBox)
    ensures
        b.skin() <= 6 * 0x1_0000_0000 * 0x1_0000_0000,
{
    let w = b.width() as int;
    let h = b.height() as int;
    let d = b.depth() as int;
    assert(w * h <= 0x1_0000_0000 * 0x1_0000_0000) by (nonlinear_arith)
        requires
            0 <= w <= 0x1_0000_0000,
            0 <= h <= 0x1_0000_0000,
    ;
    assert(h * d <= 0x1_0000_0000 * 0x1_0000_0000) by (nonlinear_arith)
        requires
            0 <= h <= 0x1_0000_0000,
            0 <= d <= 0x1_0000_0000,
    ;
    assert(d * w <= 0x1_0000_0000 * 0x1_0000_0000) by (nonlinear_arith)
        requires
            0 <= d <= 0x1_0000_0000,
            0 <= w <= 0x1_0000_0000,
    ;
}

/// The measure by which the two halves of a split are ordered: the volume.
pub fn box_score(bbox: &BBox) -> (r: u128)
    ensures
        r == bbox.bulk(),
{
    bbox.volume()
}

fn expansion(target: &BBox, adding: &BBox) -> (r: i128)
    ensures
        r == growth(*target, *adding),
        -0x8_0000_0000_0000_0000 <= r <= 0x8_0000_0000_0000_0000,
{
    proof {
        lemma_skin_bound(*target);
        lemma_skin_bound(target.hull(*adding));
    }
    target.union(adding).surface_area() as i128 - target.surface_area() as i128
}

fn expansion2(e1: &BBox, e2: &BBox) -> (r: i128)
    ensures
        r == waste(*e1, *e2),
        -0x10_0000_0000_0000_0000 <= r <= 0x10_0000_0000_0000_0000,
{
    proof {
        lemma_skin_bound(*e1);
        lemma_skin_bound(*e2);
        lemma_skin_bound(e1.hull(*e2));
    }
    e1.union(e2).surface_area() as i128 - e1.surface_area() as i128 - e2.surface_area() as i128
}

/// Puts first the one of `left` and `right` that widens `origin` less; the
/// left one if they widen it alike.
pub fn score_swap<T: Mbr>(origin: &BBox, left: T, right: T) -> (r: (T, T))
    requires
        left.mbr_of() is Some,
        right.mbr_of() is Some,
    ensures
        r == if growth(*origin, left.mbr_of().unwrap()) <= growth(
            *origin,
            right.mbr_of().unwrap(),
        ) {
            (left, right)
        } else {
            (right, left)
        },
{
    let left_exp = expansion(origin, &left.mbr().unwrap());
    let right_exp = expansion(origin, &right.mbr().unwrap());
    if left_exp <= right_exp {
        (left, right)
    } else {
        (right, left)
    }
}

/// Whether `first` and `second` are the boxes of the entries at `a` and `b`,
/// and no pair of entries wastes more space than this one, and none after
/// it as much, the pairs taken in the order of the first and then of the
/// second entry.
pub open spec fn is_seed_pair_at<T: Mbr>(
    items: Seq<T>,
    first: BBox,
    second: BBox,
    a: int,
    b: int,
) -> bool {
    &&& 0 <= a < items.len() && 0 <= b < items.len()
    &&& (first, second) == (box_at(items, a), box_at(items, b))
    &&& forall|i: int, j: int|
        0 <= i < items.len() && 0 <= j < items.len() ==> #[trigger] waste(
            box_at(items, i),
            box_at(items, j),
        ) <= waste(box_at(items, a), box_at(items, b))
    &&& forall|i: int, j: int|
        0 <= i < items.len() && 0 <= j < items.len() && (i > a || (i == a && j > b))
            ==> #[trigger] waste(box_at(items, i), box_at(items, j)) < waste(
            box_at(items, a),
            box_at(items, b),
        )
}

/// Whether `first` and `second` are the boxes that a split of `items`
/// starts from.
pub open spec fn is_seed_pair<T: Mbr>(items: Seq<T>, first: BBox, second: BBox) -> bool {
    exists|a: int, b: int| #[trigger] is_seed_pair_at(items, first, second, a, b)
}

/// The two boxes that a split starts from: the pair of entries whose hull
/// wastes the most space. Of several such pairs it is the last, the pairs
/// taken in the order of the first and then of the second entry; an entry
/// is also paired with itself. `None` if there is no entry.
pub fn pick_seeds<T: Mbr>(items: &[T]) -> (r: Option<(BBox, BBox)>)
    requires
        all_boxed(items@),
    ensures
        items.len() == 0 ==> r is None,
        items.len() > 0 ==> r is Some && is_seed_pair(items@, r.unwrap().0, r.unwrap().1),
{
    let mut max_d: i128 = i128::MIN;
    let mut best_box: Option<(BBox, BBox)> = None;
    let ghost mut a: int = 0;
    let ghost mut b: int = 0;
    let n = items.len();
    let mut i: usize = 0;
    while i < n
        invariant
            i <= n,
            n == items.len(),
            all_boxed(items@),
            i == 0 ==> best_box is None && max_d == i128::MIN,
            i > 0 ==> {
                &&& best_box is Some
                &&& 0 <= a < i && 0 <= b < n
                &&& best_box.unwrap() == (box_at(items@, a), box_at(items@, b))
                &&& max_d == waste(box_at(items@, a), box_at(items@, b))
                &&& forall|p: int, q: int|
                    0 <= p < i && 0 <= q < n ==> #[trigger] waste(
                        box_at(items@, p),
                        box_at(items@, q),
                    ) <= max_d
                &&& forall|p: int, q: int|
                    0 <= p < i && 0 <= q < n && (p > a || (p == a && q > b)) ==> #[trigger] waste(
                        box_at(items@, p),
                        box_at(items@, q),
                    ) < max_d
            },
        decreases n - i,
    {
        let e1 = items[i].mbr().unwrap();
        let mut j: usize = 0;
        while j < n
            invariant
                i < n,
                j <= n,
                n == items.len(),
                all_boxed(items@),
                e1 == box_at(items@, i as int),
                i == 0 && j == 0 ==> best_box is None && max_d == i128::MIN,
                i > 0 || j > 0 ==> best_box is Some,
                i > 0 || j > 0 ==> 0 <= a <= i && 0 <= b < n,
                i > 0 || j > 0 ==> (a == i ==> b < j),
                i > 0 || j > 0 ==> best_box.unwrap() == (box_at(items@, a), box_at(items@, b)),
                i > 0 || j > 0 ==> max_d == waste(box_at(items@, a), box_at(items@, b)),
                forall|p: int, q: int|
                    0 <= p <= i && 0 <= q < n && (p < i || q < j) ==> #[trigger] waste(
                        box_at(items@, p),
                        box_at(items@, q),
                    ) <= max_d,
                forall|p: int, q: int|
                    0 <= p <= i && 0 <= q < n && (p < i || q < j) && (p > a || (p == a && q > b))
                        ==> #[trigger] waste(box_at(items@, p), box_at(items@, q)) < max_d,
            decreases n - j,
        {
            let e2 = items[j].mbr().unwrap();
            let difference = expansion2(&e1, &e2);
            if max_d <= difference {
                max_d = difference;
                best_box = Some((e1, e2));
                proof {
                    a = i as int;
                    b = j as int;
                }
            }
            j += 1;
        }
        i += 1;
    }
    proof {
        if n > 0 {
            assert(is_seed_pair_at(items@, best_box.unwrap().0, best_box.unwrap().1, a, b));
        }
    }
    best_box
}

/// Which of two boxes an entry goes to.
#[derive(Clone, Copy, Debug, PartialEq, Eq, Structural)]
pub enum PickedBox {
    Left,
    Right,
    Tie,
}

/// What the search for the entry that fits one of two boxes best knows
/// after the first `k` entries: the least growth seen, the entry that has
/// it, and the box it goes to.
///
/// An entry is measured by how much its own box grows when `left` or
/// `right` is added to it. An entry that grows no more than the least so
/// far takes over, for the left box first and then for the right box. After
/// an entry that grows alike for both boxes the answer is a tie, whichever
/// entry is the best.
pub open spec fn fitted<T: Mbr>(children: Seq<T>, left: BBox, right: BBox, k: int) -> (
    int,
    int,
    PickedBox,
)
    decreases k,
{
    if k <= 0 {
        (i128::MAX as int, 0, PickedBox::Tie)
    } else {
        let before = fitted(children, left, right, k - 1);
        let b = box_at(children, k - 1);
        let le = growth(b, left);
        let re = growth(b, right);
        let on_left = if le <= before.0 {
            (le, k - 1, PickedBox::Left)
        } else {
            before
        };
        let on_right = if re <= on_left.0 {
            (re, k - 1, PickedBox::Right)
        } else {
            on_left
        };
        (
            on_right.0,
            on_right.1,
            if le == re {
                PickedBox::Tie
            } else {
                on_right.2
            },
        )
    }
}

/// The entry among `children` that fits `left` or `right` best, and the box
/// it goes to: see `fitted`. `None` if there is no entry.
pub fn best_fit_pair<T: Mbr>(left: BBox, right: BBox, children: &[T]) -> (r: Option<
    (usize, PickedBox),
>)
    requires
        all_boxed(children@),
    ensures
        children.len() == 0 ==> r is None,
        children.len() > 0 ==> r is Some && r.unwrap().0 < children.len() && r.unwrap().0
            == fitted(children@, left, right, children.len() as int).1 && r.unwrap().1 == fitted(
            children@,
            left,
            right,
            children.len() as int,
        ).2,
{
    if children.len() == 0 {
        return None;
    }
    let mut min_expansion: i128 = i128::MAX;
    let mut min_idx: usize = 0;
    let mut is_left = PickedBox::Tie;
    let mut i: usize = 0;
    while i < children.len()
        invariant
            i <= children.len(),
            all_boxed(children@),
            (min_expansion as int, min_idx as int, is_left) == fitted(
                children@,
                left,
                right,
                i as int,
            ),
            i > 0 ==> min_idx < i,
            i == 0 ==> min_idx == 0,
        decreases children.len() - i,
    {
        let bbox = children[i].mbr().unwrap();
        let left_expansion = expansion(&bbox, &left);
        let right_expansion = expansion(&bbox, &right);
        if left_expansion <= min_expansion {
            min_expansion = left_expansion;
            min_idx = i;
            is_left = PickedBox::Left;
        }
        if right_expansion <= min_expansion {
            min_expansion = right_expansion;
            min_idx = i;
            is_left = PickedBox::Right;
        }
        if left_expansion == right_expansion {
            is_left = PickedBox::Tie;
        }
        i += 1;
    }
    Some((min_idx, is_left))
}

/// Whether some one of the first `k` of `children` has a box around
/// `target`.
pub open spec fn any_holds<T: Mbr>(children: Seq<T>, target: BBox, k: int) -> bool {
    exists|j: int| 0 <= j < k && (#[trigger] box_at(children, j)).encloses(target)
}

/// The child that an entry with box `target` is filed under.
///
/// If some child's box holds `target`, it is the one of these with the
/// least surface; else it is the child whose box has the least surface once
/// it is widened to hold `target`. Of several alike it is the first. `None`
/// if there is no child.
pub fn best_fit<T: Mbr>(target: BBox, children: &[T]) -> (r: Option<usize>)
    requires
        all_boxed(children@),
    ensures
        children.len() == 0 ==> r is None,
        children.len() > 0 ==> r is Some && r.unwrap() < children.len(),
        children.len() > 0 && any_holds(children@, target, children.len() as int) ==> {
            let i = r.unwrap() as int;
            &&& box_at(children@, i).encloses(target)
            &&& forall|j: int|
                0 <= j < children.len() && (#[trigger] box_at(children@, j)).encloses(target)
                    ==> box_at(children@, i).skin() <= box_at(children@, j).skin()
            &&& forall|j: int|
                0 <= j < i && (#[trigger] box_at(children@, j)).encloses(target) ==> box_at(
                    children@,
                    i,
                ).skin() < box_at(children@, j).skin()
        },
        children.len() > 0 && !any_holds(children@, target, children.len() as int) ==> {
            let i = r.unwrap() as int;
            &&& forall|j: int|
                0 <= j < children.len() ==> box_at(children@, i).hull(target).skin() <= (
                #[trigger] box_at(children@, j)).hull(target).skin()
            &&& forall|j: int|
                0 <= j < i ==> box_at(children@, i).hull(target).skin() < (#[trigger] box_at(
                    children@,
                    j,
                )).hull(target).skin()
        },
{
    if children.len() == 0 {
        return None;
    }
    let mut min_volume: u128 = u128::MAX;
    let mut best_idx: Option<usize> = None;
    // Find the smallest node that contains our target.
    let mut idx: usize = 0;
    while idx < children.len()
        invariant
            idx <= children.len(),
            all_boxed(children@),
            best_idx is None ==> min_volume == u128::MAX && !any_holds(
                children@,
                target,
                idx as int,
            ),
            best_idx is Some ==> {
                let i = best_idx.unwrap() as int;
                &&& i < idx
                &&& box_at(children@, i).encloses(target)
                &&& min_volume == box_at(children@, i).skin()
                &&& forall|j: int|
                    0 <= j < idx && (#[trigger] box_at(children@, j)).encloses(target)
                        ==> box_at(children@, i).skin() <= box_at(children@, j).skin()
                &&& forall|j: int|
                    0 <= j < i && (#[trigger] box_at(children@, j)).encloses(target) ==> box_at(
                        children@,
                        i,
                    ).skin() < box_at(children@, j).skin()
            },
        decreases children.len() - idx,
    {
        let bbox = children[idx].mbr().unwrap();
        let volume = bbox.surface_area();
        proof {
            lemma_skin_bound(bbox);
        }
        if bbox.contains(&target) && volume < min_volume {
            min_volume = volume;
            best_idx = Some(idx);
        }
        idx += 1;
    }
    if let Some(idx) = best_idx {
        proof {
            assert(any_holds(children@, target, children.len() as int));
        }
        return Some(idx);
    }
    // None of the candidates fully contained our target, so search for the
    // node which would expand the least, if our target was added to it.

    let mut idx: usize = 0;
    while idx < children.len()
        invariant
            idx <= children.len(),
            all_boxed(children@),
            !any_holds(children@, target, children.len() as int),
            idx == 0 ==> best_idx is None && min_volume == u128::MAX,
            idx > 0 ==> best_idx is Some,
            best_idx is Some ==> {
                let i = best_idx.unwrap() as int;
                &&& i < idx
                &&& min_volume == box_at(children@, i).hull(target).skin()
                &&& forall|j: int|
                    0 <= j < idx ==> box_at(children@, i).hull(target).skin() <= (
                    #[trigger] box_at(children@, j)).hull(target).skin()
                &&& forall|j: int|
                    0 <= j < i ==> box_at(children@, i).hull(target).skin() < (#[trigger] box_at(
                        children@,
                        j,
                    )).hull(target).skin()
            },
        decreases children.len() - idx,
    {
        let grown = children[idx].mbr().unwrap().union(&target);
        let volume = grown.surface_area();
        proof {
            lemma_skin_bound(grown);
        }
        if volume < min_volume {
            min_volume = volume;
            best_idx = Some(idx);
        }
        idx += 1;
    }
    best_idx
}

/// Whether `b` is around the box of every one of `items`.
pub open spec fn holds_all<T: Mbr>(b: BBox, items: Seq<T>) -> bool {
    forall|k: int| 0 <= k < items.len() ==> b.encloses(#[trigger] box_at(items, k))
}

/// Two groups of entries, each with the box around it.
pub struct Halves<T> {
    pub lbox: BBox,
    pub lefts: Seq<T>,
    pub rbox: BBox,
    pub rights: Seq<T>,
}

/// Whether the entry that `fitted` picks goes to the left group: as the
/// pick says, and in a tie to the left unless the last entry went there.
pub open spec fn goes_left(pick: PickedBox, tie_break: bool) -> bool {
    match pick {
        PickedBox::Left => true,
        PickedBox::Right => false,
        PickedBox::Tie => !tie_break,
    }
}

/// The two groups after the entries `items` have been dealt out to them.
///
/// The entry that fits one of the two boxes best is taken out, again and
/// again, and added to the group it goes to, whose box is widened to hold
/// it.
pub open spec fn dealt<T: Mbr>(items: Seq<T>, so_far: Halves<T>, tie_break: bool) -> Halves<T>
    decreases items.len(),
{
    let pick = fitted(items, so_far.lbox, so_far.rbox, items.len() as int);
    if items.len() == 0 || !(0 <= pick.1 < items.len()) {
        so_far
    } else if goes_left(pick.2, tie_break) {
        dealt(
            items.remove(pick.1),
            Halves {
                lbox: box_at(items, pick.1).hull(so_far.lbox),
                lefts: so_far.lefts.push(items[pick.1]),
                rbox: so_far.rbox,
                rights: so_far.rights,
            },
            true,
        )
    } else {
        dealt(
            items.remove(pick.1),
            Halves {
                lbox: so_far.lbox,
                lefts: so_far.lefts,
                rbox: box_at(items, pick.1).hull(so_far.rbox),
                rights: so_far.rights.push(items[pick.1]),
            },
            false,
        )
    }
}

/// The two groups with the one first whose box has the smaller volume; the
/// right one first if the volumes are alike.
pub open spec fn smaller_first<T>(h: Halves<T>) -> (BBox, Seq<T>, BBox, Seq<T>) {
    if h.lbox.bulk() < h.rbox.bulk() {
        (h.lbox, h.lefts, h.rbox, h.rights)
    } else {
        (h.rbox, h.rights, h.lbox, h.lefts)
    }
}

/// Splits the entries of a full node into two groups.
///
/// The two groups start empty, with the boxes of the seeds. Then the
/// entries are dealt out: see `dealt`. Each entry ends up in one of the two
/// groups, and each group's box is around the boxes of its entries. The
/// group with the smaller box comes first.
pub fn split<T: Mbr>(items: Vec<T>) -> (r: (BBox, Vec<T>, BBox, Vec<T>))
    requires
        items.len() > 0,
        all_boxed(items@),
    ensures
        r.1@.to_multiset().add(r.3@.to_multiset()) == items@.to_multiset(),
        r.1.len() + r.3.len() == items.len(),
        all_boxed(r.1@),
        all_boxed(r.3@),
        holds_all(r.0, r.1@),
        holds_all(r.2, r.3@),
        r.0.bulk() <= r.2.bulk(),
        exists|lbox: BBox, rbox: BBox|
            {
                &&& is_seed_pair(items@, lbox, rbox)
                &&& (r.0, r.1@, r.2, r.3@) == smaller_first(
                    #[trigger] dealt(
                        items@,
                        Halves { lbox, lefts: Seq::empty(), rbox, rights: Seq::empty() },
                        false,
                    ),
                )
            },
{
    broadcast use {group_multiset_axioms, group_multiset_properties, group_to_multiset_ensures};

    let ghost all = items@;
    let mut items = items;
    let (mut lbox, mut rbox) = pick_seeds(items.as_slice()).unwrap();
    let ghost seeds = Halves::<T> { lbox, lefts: Seq::empty(), rbox, rights: Seq::empty() };
    let mut lefts: Vec<T> = Vec::new();
    let mut rights: Vec<T> = Vec::new();
    let mut tie_break = false;
    proof {
        lemma_multiset_empty_len(lefts@.to_multiset());
        lemma_multiset_empty_len(rights@.to_multiset());
        assert(lefts@.to_multiset().add(rights@.to_multiset()).add(items@.to_multiset())
            =~= all.to_multiset());
        assert(lefts@ =~= seeds.lefts);
        assert(rights@ =~= seeds.rights);
    }
    while items.len() > 0
        invariant
            all_boxed(items@),
            all_boxed(lefts@),
            all_boxed(rights@),
            holds_all(lbox, lefts@),
            holds_all(rbox, rights@),
            lefts.len() + rights.len() + items.len() == all.len(),
            lefts@.to_multiset().add(rights@.to_multiset()).add(items@.to_multiset())
                == all.to_multiset(),
            dealt(items@, Halves { lbox, lefts: lefts@, rbox, rights: rights@ }, tie_break)
                == dealt(all, seeds, false),
        decreases items.len(),
    {
        let (best_idx, which_box) = best_fit_pair(lbox, rbox, items.as_slice()).unwrap();
        let ghost before = items@;
        let ghost lefts_before = lefts@;
        let ghost rights_before = rights@;
        let ghost state = Halves { lbox, lefts: lefts@, rbox, rights: rights@ };
        let ghost tie_before = tie_break;
        let best = items.remove(best_idx);
        let best_bbox = best.mbr().unwrap();
        proof {
            to_multiset_remove(before, best_idx as int);
            assert(before[best_idx as int] == best);
            assert(before.contains(best));
            before.to_multiset_ensures();
            assert(before.to_multiset().count(best) > 0);
            assert(before.to_multiset() =~= items@.to_multiset().insert(best));
        }
        let to_left = match which_box {
            PickedBox::Left => true,
            PickedBox::Right => false,
            PickedBox::Tie => !tie_break,
        };
        if to_left {
            lbox = best_bbox.union(&lbox);
            lefts.push(best);
            tie_break = true;
            proof {
                to_multiset_build(lefts_before, best);
                assert(lefts@.to_multiset().add(rights@.to_multiset()).add(items@.to_multiset())
                    =~= lefts_before.to_multiset().add(rights_before.to_multiset()).add(
                    before.to_multiset(),
                ));
                assert forall|k: int| 0 <= k < lefts.len() implies lbox.encloses(
                    #[trigger] box_at(lefts@, k),
                ) by {
                    if k < lefts_before.len() {
                        assert(box_at(lefts@, k) == box_at(lefts_before, k));
                    }
                }
                assert(dealt(before, state, tie_before) == dealt(
                    items@,
                    Halves { lbox, lefts: lefts@, rbox, rights: rights@ },
                    tie_break,
                ));
            }
        } else {
            rbox = best_bbox.union(&rbox);
            rights.push(best);
            tie_break = false;
            proof {
                to_multiset_build(rights_before, best);
                assert(lefts@.to_multiset().add(rights@.to_multiset()).add(items@.to_multiset())
                    =~= lefts_before.to_multiset().add(rights_before.to_multiset()).add(
                    before.to_multiset(),
                ));
                assert forall|k: int| 0 <= k < rights.len() implies rbox.encloses(
                    #[trigger] box_at(rights@, k),
                ) by {
                    if k < rights_before.len() {
                        assert(box_at(rights@, k) == box_at(rights_before, k));
                    }
                }
                assert(dealt(before, state, tie_before) == dealt(
                    items@,
                    Halves { lbox, lefts: lefts@, rbox, rights: rights@ },
                    tie_break,
                ));
            }
        }
    }
    proof {
        lemma_multiset_empty_len(items@.to_multiset());
        assert(items@.to_multiset() =~= Multiset::<T>::empty());
        assert(lefts@.to_multiset().add(rights@.to_multiset()) =~= all.to_multiset());
        assert(rights@.to_multiset().add(lefts@.to_multiset()) =~= all.to_multiset());
        assert(dealt(all, seeds, false) == (Halves {
            lbox,
            lefts: lefts@,
            rbox,
            rights: rights@,
        }));
    }
    // always return the smallest box first
    if box_score(&lbox) < box_score(&rbox) {
        (lbox, lefts, rbox, rights)
    } else {
        (rbox, rights, lbox, lefts)
    }
}

} // verus!
