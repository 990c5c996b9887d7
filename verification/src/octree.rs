//! The spatial index: an octree over the bounding boxes of the primitives.

use crate::bbox::{lemma_box_is_pointlike, lemma_octants_cover, pointlike, BBox, Cell, Probe};
use crate::depth::{depth_for, tree_depth};
use crate::geometry::PartialBoundingBox;
use vstd::prelude::*;

verus! {

/// One entry of a leaf: the bounds of a primitive and its place in the
/// index's storage.
#[derive(Clone, Copy, Debug, PartialEq, Eq, Structural)]
pub struct OctreeData {
    pub bbox: BBox,
    pub index: usize,
}

/// A node of the tree: a leaf with entries, or an interior node with eight
/// children, one for each octant of its box.
pub struct OctreeNode {
    bbox: BBox,
    depth: i32,
    children: Vec<OctreeNode>,
    leaf_data: Vec<OctreeData>,
}

impl OctreeNode {
    /// The box that the node covers.
    pub closed spec fn region(&self) -> BBox {
        self.bbox
    }

    /// How many more times the node may be split.
    pub closed spec fn budget(&self) -> int {
        self.depth as int
    }

    /// 1 for a leaf, 0 for an interior node.
    pub closed spec fn leafness(&self) -> int {
        if self.children.len() == 0 {
            1
        } else {
            0
        }
    }

    /// The children of the node: none, or eight.
    pub closed spec fn kids(&self) -> Seq<OctreeNode> {
        self.children@
    }

    /// The entries that the node holds itself.
    pub closed spec fn entries(&self) -> Seq<OctreeData> {
        self.leaf_data@
    }

    /// The shape that every node keeps: an interior node has a budget left
    /// when it was split, holds no entries of its own, and its children are
    /// its octants with one less to spend; a leaf that may still be split
    /// holds at most one entry.
    pub closed spec fn wf(&self) -> bool
        decreases self,
    {
        if self.children.len() == 0 {
            self.depth > 0 ==> self.leaf_data.len() <= 1
        } else {
            &&& self.children.len() == 8
            &&& self.depth > 0
            &&& self.leaf_data.len() == 0
            &&& forall|k: int|
                0 <= k < self.children.len() ==> {
                    &&& (#[trigger] self.children[k]).bbox == self.bbox.octant(k)
                    &&& self.children[k].depth == self.depth - 1
                    &&& self.children[k].wf()
                }
        }
    }

    /// Whether some leaf below holds the entry for `index` with bounds `b`.
    pub closed spec fn recorded(&self, index: usize, b: BBox) -> bool
        decreases self,
    {
        ||| exists|j: int|
            0 <= j < self.leaf_data.len() && #[trigger] self.leaf_data[j] == (OctreeData {
                bbox: b,
                index,
            })
        ||| exists|k: int|
            0 <= k < self.children.len() && (#[trigger] self.children[k]).recorded(index, b)
    }

    /// Whether the entry for `index` with bounds `b` has reached every place
    /// below this node where a query might look for it: the node's own
    /// entries if it is a leaf, else every child whose box shares a cell with
    /// `b`.
    pub closed spec fn registered(&self, index: usize, b: BBox) -> bool
        decreases self,
    {
        if self.children.len() == 0 {
            exists|j: int|
                0 <= j < self.leaf_data.len() && #[trigger] self.leaf_data[j] == (OctreeData {
                    bbox: b,
                    index,
                })
        } else {
            forall|k: int|
                0 <= k < self.children.len() && (#[trigger] self.children[k]).bbox.touches(b)
                    ==> self.children[k].registered(index, b)
        }
    }

    /// Whether every entry lies where it belongs, from this node down: each
    /// entry of a leaf has bounds that share a cell with the box of the leaf.
    pub closed spec fn snug(&self) -> bool
        decreases self,
    {
        if self.children.len() == 0 {
            forall|j: int|
                0 <= j < self.leaf_data.len() ==> self.bbox.touches((#[trigger] self.leaf_data[j]).bbox)
        } else {
            forall|k: int| 0 <= k < self.children.len() ==> (#[trigger] self.children[k]).snug()
        }
    }

    /// Whether every entry below the children lies where it belongs. The
    /// node's own entries are free: a tree takes whatever it is given at its
    /// root.
    pub closed spec fn confined(&self) -> bool {
        forall|k: int| 0 <= k < self.children.len() ==> (#[trigger] self.children[k]).snug()
    }

    /// Whether no leaf from this node down holds an entry twice.
    pub closed spec fn single(&self) -> bool
        decreases self,
    {
        if self.children.len() == 0 {
            forall|i: int, j: int|
                0 <= i < j < self.leaf_data.len() ==> #[trigger] self.leaf_data[i]
                    != #[trigger] self.leaf_data[j]
        } else {
            forall|k: int| 0 <= k < self.children.len() ==> (#[trigger] self.children[k]).single()
        }
    }

    /// What `snug`, `confined` and `single` say, in terms of the node's box,
    /// children and entries.
    pub proof fn lemma_place_means(&self)
        ensures
            self.snug() <==> if self.kids().len() == 0 {
                forall|j: int|
                    0 <= j < self.entries().len() ==> self.region().touches(
                        (#[trigger] self.entries()[j]).bbox,
                    )
            } else {
                forall|k: int| 0 <= k < self.kids().len() ==> (#[trigger] self.kids()[k]).snug()
            },
            self.confined() <==> forall|k: int|
                0 <= k < self.kids().len() ==> (#[trigger] self.kids()[k]).snug(),
            self.single() <==> if self.kids().len() == 0 {
                forall|i: int, j: int|
                    0 <= i < j < self.entries().len() ==> #[trigger] self.entries()[i]
                        != #[trigger] self.entries()[j]
            } else {
                forall|k: int| 0 <= k < self.kids().len() ==> (#[trigger] self.kids()[k]).single()
            },
    {
        let kids_snug = forall|k: int|
            0 <= k < self.kids().len() ==> (#[trigger] self.kids()[k]).snug();
        if self.confined() {
            assert forall|k: int| 0 <= k < self.kids().len() implies (
            #[trigger] self.kids()[k]).snug() by {
                assert(self.children[k].snug());
            }
        }
        if kids_snug {
            assert forall|k: int| 0 <= k < self.children.len() implies (
            #[trigger] self.children[k]).snug() by {
                assert(self.kids()[k].snug());
            }
        }
        assert(self.confined() <==> kids_snug);
        if self.children.len() == 0 {
            let fits = forall|j: int|
                0 <= j < self.entries().len() ==> self.region().touches(
                    (#[trigger] self.entries()[j]).bbox,
                );
            if self.snug() {
                assert forall|j: int| 0 <= j < self.entries().len() implies self.region().touches(
                    (#[trigger] self.entries()[j]).bbox,
                ) by {
                    assert(self.bbox.touches(self.leaf_data[j].bbox));
                }
            }
            if fits {
                assert forall|j: int| 0 <= j < self.leaf_data.len() implies self.bbox.touches(
                    (#[trigger] self.leaf_data[j]).bbox,
                ) by {
                    assert(self.region().touches(self.entries()[j].bbox));
                }
            }
            assert(self.snug() <==> fits);
            let apart = forall|i: int, j: int|
                0 <= i < j < self.entries().len() ==> #[trigger] self.entries()[i]
                    != #[trigger] self.entries()[j];
            if self.single() {
                assert forall|i: int, j: int| 0 <= i < j < self.entries().len() implies
                    #[trigger] self.entries()[i] != #[trigger] self.entries()[j] by {
                    assert(self.leaf_data[i] != self.leaf_data[j]);
                }
            }
            if apart {
                assert forall|i: int, j: int| 0 <= i < j < self.leaf_data.len() implies
                    #[trigger] self.leaf_data[i] != #[trigger] self.leaf_data[j] by {
                    assert(self.entries()[i] != self.entries()[j]);
                }
            }
            assert(self.single() <==> apart);
        } else {
            assert(self.snug() <==> self.confined());
            let kids_single = forall|k: int|
                0 <= k < self.kids().len() ==> (#[trigger] self.kids()[k]).single();
            if self.single() {
                assert forall|k: int| 0 <= k < self.kids().len() implies (
                #[trigger] self.kids()[k]).single() by {
                    assert(self.children[k].single());
                }
            }
            if kids_single {
                assert forall|k: int| 0 <= k < self.children.len() implies (
                #[trigger] self.children[k]).single() by {
                    assert(self.kids()[k].single());
                }
            }
            assert(self.single() <==> kids_single);
        }
    }

    /// An entry that has reached every place below the node where a query
    /// might look for it is held by a leaf below the node, if its bounds
    /// share a cell with the box of the node.
    pub proof fn lemma_registered_is_recorded(&self, index: usize, b: BBox)
        requires
            self.wf(),
            self.registered(index, b),
            self.region().touches(b),
        ensures
            self.recorded(index, b),
        decreases self,
    {
        if self.children.len() > 0 {
            lemma_box_is_pointlike(&b);
            assert(b.meet(self.bbox).inhabited());
            assert(b.hits(b.meet(self.bbox)));
            let k = lemma_octants_cover(&b, b, self.bbox);
            assert(self.children[k].bbox == self.bbox.octant(k));
            assert(self.children[k].registered(index, b));
            self.children[k].lemma_registered_is_recorded(index, b);
        }
    }

    /// What `wf` says of a node, in terms of its box, budget, children and
    /// entries.
    pub proof fn lemma_wf_means(&self)
        ensures
            self.wf() <==> if self.kids().len() == 0 {
                self.budget() > 0 ==> self.entries().len() <= 1
            } else {
                &&& self.kids().len() == 8
                &&& self.budget() > 0
                &&& self.entries().len() == 0
                &&& forall|k: int|
                    0 <= k < 8 ==> {
                        &&& (#[trigger] self.kids()[k]).region() == self.region().octant(k)
                        &&& self.kids()[k].budget() == self.budget() - 1
                        &&& self.kids()[k].wf()
                    }
            },
    {
    }

    /// What `recorded` says: the entry is among the node's own, or recorded
    /// below one of its children.
    pub proof fn lemma_recorded_means(&self, index: usize, b: BBox)
        ensures
            self.recorded(index, b) <==> {
                ||| self.entries().contains(OctreeData { bbox: b, index })
                ||| exists|k: int|
                    0 <= k < self.kids().len() && (#[trigger] self.kids()[k]).recorded(index, b)
            },
    {
        let entry = OctreeData { bbox: b, index };
        let own = exists|j: int| 0 <= j < self.leaf_data.len() && #[trigger] self.leaf_data[j] == entry;
        let below = exists|k: int|
            0 <= k < self.children.len() && (#[trigger] self.children[k]).recorded(index, b);
        assert(self.recorded(index, b) <==> own || below);
        if self.entries().contains(entry) {
            let j = choose|j: int| 0 <= j < self.entries().len() && self.entries()[j] == entry;
            assert(self.leaf_data[j] == entry);
        }
        if own {
            let j = choose|j: int| 0 <= j < self.leaf_data.len() && #[trigger] self.leaf_data[j] == entry;
            assert(self.entries()[j] == entry);
        }
        if below {
            let k = choose|k: int|
                0 <= k < self.children.len() && (#[trigger] self.children[k]).recorded(index, b);
            assert(self.kids()[k].recorded(index, b));
        }
        if exists|k: int|
            0 <= k < self.kids().len() && (#[trigger] self.kids()[k]).recorded(index, b) {
            let k = choose|k: int|
                0 <= k < self.kids().len() && (#[trigger] self.kids()[k]).recorded(index, b);
            assert(self.children[k].recorded(index, b));
        }
    }

    /// What `registered` says: in a leaf, the entry is among the leaf's own;
    /// in an interior node, it is registered below every child whose box
    /// shares a cell with the entry's.
    pub proof fn lemma_registered_means(&self, index: usize, b: BBox)
        ensures
            self.registered(index, b) <==> if self.kids().len() == 0 {
                self.entries().contains(OctreeData { bbox: b, index })
            } else {
                forall|k: int|
                    0 <= k < self.kids().len() && (#[trigger] self.kids()[k]).region().touches(b)
                        ==> self.kids()[k].registered(index, b)
            },
    {
        let entry = OctreeData { bbox: b, index };
        if self.children.len() == 0 {
            let own = exists|j: int|
                0 <= j < self.leaf_data.len() && #[trigger] self.leaf_data[j] == entry;
            assert(self.registered(index, b) <==> own);
            if self.entries().contains(entry) {
                let j = choose|j: int| 0 <= j < self.entries().len() && self.entries()[j] == entry;
                assert(self.leaf_data[j] == entry);
            }
            if own {
                let j = choose|j: int|
                    0 <= j < self.leaf_data.len() && #[trigger] self.leaf_data[j] == entry;
                assert(self.entries()[j] == entry);
            }
        } else {
            let below = forall|k: int|
                0 <= k < self.children.len() && (#[trigger] self.children[k]).bbox.touches(b)
                    ==> self.children[k].registered(index, b);
            let stated = forall|k: int|
                0 <= k < self.kids().len() && (#[trigger] self.kids()[k]).region().touches(b)
                    ==> self.kids()[k].registered(index, b);
            assert(self.registered(index, b) <==> below);
            if below {
                assert forall|k: int|
                    0 <= k < self.kids().len() && (#[trigger] self.kids()[k]).region().touches(
                        b,
                    ) implies self.kids()[k].registered(index, b) by {
                    assert(self.children[k].bbox.touches(b));
                }
            }
            if stated {
                assert forall|k: int|
                    0 <= k < self.children.len() && (#[trigger] self.children[k]).bbox.touches(
                        b,
                    ) implies self.children[k].registered(index, b) by {
                    assert(self.kids()[k].region().touches(b));
                }
            }
        }
    }

    /// An empty leaf over `bbox` that may be split `depth` times.
    pub fn new(bbox: BBox, depth: i32) -> (node: OctreeNode)
        ensures
            node.wf(),
            node.region() == bbox,
            node.budget() == depth,
            node.kids().len() == 0,
            node.entries().len() == 0,
            forall|i: usize, b: BBox| !node.recorded(i, b),
            node.snug(),
            node.confined(),
            node.single(),
    {
        OctreeNode { bbox: bbox, depth: depth, children: Vec::new(), leaf_data: Vec::new() }
    }

    /// Whether the node has no children.
    pub fn is_leaf(&self) -> (r: bool)
        ensures
            r == (self.kids().len() == 0),
    {
        self.children.len() == 0
    }

    /// Gives a leaf its eight children, each an empty leaf over one octant.
    fn subdivide(&mut self)
        requires
            old(self).children.len() == 0,
            old(self).depth > 0,
        ensures
            final(self).bbox == old(self).bbox,
            final(self).depth == old(self).depth,
            final(self).leaf_data == old(self).leaf_data,
            final(self).children.len() == 8,
            forall|k: int|
                0 <= k < 8 ==> {
                    &&& (#[trigger] final(self).children[k]).bbox == old(self).bbox.octant(k)
                    &&& final(self).children[k].depth == old(self).depth - 1
                    &&& final(self).children[k].children.len() == 0
                    &&& final(self).children[k].leaf_data.len() == 0
                },
    {
        let mut k: usize = 0;
        while k < 8
            invariant
                k <= 8,
                self.bbox == old(self).bbox,
                self.depth == old(self).depth,
                self.depth > 0,
                self.leaf_data == old(self).leaf_data,
                self.children.len() == k,
                forall|j: int|
                    0 <= j < k ==> {
                        &&& (#[trigger] self.children[j]).bbox == old(self).bbox.octant(j)
                        &&& self.children[j].depth == old(self).depth - 1
                        &&& self.children[j].children.len() == 0
                        &&& self.children[j].leaf_data.len() == 0
                    },
            decreases 8 - k,
        {
            let child_bbox = self.bbox.child(k);
            self.children.push(OctreeNode::new(child_bbox, self.depth - 1));
            k += 1;
        }
    }

    /// Files the entry for `index` with bounds `object_bbox` below this node.
    ///
    /// A node with nothing left to spend takes every entry. An empty leaf
    /// takes the entry. A leaf that holds one entry is split, and its entry
    /// and the new one go to every child whose box shares a cell with theirs.
    /// An interior node hands the entry on to every such child, and to no
    /// other: below the children every entry stays in leaves whose boxes
    /// share a cell with its bounds, and an entry that was not in the tree
    /// is in no leaf twice.
    pub fn insert(&mut self, index: usize, object_bbox: BBox)
        requires
            old(self).wf(),
        ensures
            final(self).wf(),
            final(self).region() == old(self).region(),
            final(self).budget() == old(self).budget(),
            old(self).kids().len() > 0 ==> final(self).kids().len() > 0,
            old(self).budget() <= 0 ==> final(self).kids().len() == 0 && final(self).entries()
                == old(self).entries().push(OctreeData { bbox: object_bbox, index }),
            old(self).budget() > 0 && old(self).kids().len() == 0 && old(self).entries().len() == 0
                ==> final(self).kids().len() == 0 && final(self).entries() == seq![
                OctreeData { bbox: object_bbox, index },
            ],
            old(self).budget() > 0 && old(self).kids().len() == 0 && old(self).entries().len() == 1
                ==> final(self).kids().len() == 8 && final(self).entries().len() == 0,
            old(self).kids().len() > 0 ==> final(self).entries() == old(self).entries(),
            final(self).registered(index, object_bbox),
            forall|i: usize, b: BBox|
                old(self).registered(i, b) ==> #[trigger] final(self).registered(i, b),
            forall|i: usize, b: BBox| #[trigger]
                final(self).recorded(i, b) ==> old(self).recorded(i, b) || (i == index && b
                    == object_bbox),
            old(self).snug() && old(self).region().touches(object_bbox) ==> final(self).snug(),
            old(self).confined() ==> final(self).confined(),
            old(self).single() && !old(self).recorded(index, object_bbox) ==> final(self).single(),
            old(self).snug() ==> forall|i: usize, b: BBox|
                old(self).recorded(i, b) ==> #[trigger] final(self).recorded(i, b),
        decreases old(self).budget(), old(self).leafness(),
    {
        // Max depth
        if self.depth <= 0 {
            self.leaf_data.push(OctreeData { index: index, bbox: object_bbox });
            proof {
                let n = old(self).leaf_data.len() as int;
                assert(self.leaf_data[n] == (OctreeData { bbox: object_bbox, index }));
                if old(self).single() && !old(self).recorded(index, object_bbox) {
                    assert forall|i: int, j: int| 0 <= i < j < self.leaf_data.len() implies
                        #[trigger] self.leaf_data[i] != #[trigger] self.leaf_data[j] by {
                        if j == n {
                            assert(old(self).leaf_data[i] == self.leaf_data[i]);
                        } else {
                            assert(old(self).leaf_data[i] == self.leaf_data[i]);
                            assert(old(self).leaf_data[j] == self.leaf_data[j]);
                        }
                    }
                }
                if old(self).snug() && old(self).region().touches(object_bbox) {
                    assert forall|j: int| 0 <= j < self.leaf_data.len() implies self.bbox.touches(
                        (#[trigger] self.leaf_data[j]).bbox,
                    ) by {
                        if j < n {
                            assert(old(self).leaf_data[j] == self.leaf_data[j]);
                        }
                    }
                }
                assert forall|i: usize, b: BBox| old(self).registered(i, b) implies #[trigger]
                    self.registered(i, b) by {
                    let w = choose|w: int|
                        0 <= w < old(self).leaf_data.len() && #[trigger] old(self).leaf_data[w]
                            == (OctreeData { bbox: b, index: i });
                    assert(self.leaf_data[w] == (OctreeData { bbox: b, index: i }));
                }
                assert forall|i: usize, b: BBox| #[trigger] self.recorded(i, b) implies old(
                    self,
                ).recorded(i, b) || (i == index && b == object_bbox) by {
                    let w = choose|w: int|
                        0 <= w < self.leaf_data.len() && #[trigger] self.leaf_data[w] == (
                        OctreeData { bbox: b, index: i });
                    if w < n {
                        assert(old(self).leaf_data[w] == (OctreeData { bbox: b, index: i }));
                    }
                }
                assert forall|i: usize, b: BBox| old(self).recorded(i, b) implies #[trigger]
                    self.recorded(i, b) by {
                    let w = choose|w: int|
                        0 <= w < old(self).leaf_data.len() && #[trigger] old(self).leaf_data[w]
                            == (OctreeData { bbox: b, index: i });
                    assert(self.leaf_data[w] == (OctreeData { bbox: b, index: i }));
                }
            }
            return ;
        }
        // Empty leaf node

        if self.is_leaf() && self.leaf_data.len() == 0 {
            self.leaf_data.push(OctreeData { index: index, bbox: object_bbox });
            proof {
                assert(self.leaf_data[0] == (OctreeData { bbox: object_bbox, index }));
                assert forall|i: usize, b: BBox| #[trigger] self.recorded(i, b) implies old(
                    self,
                ).recorded(i, b) || (i == index && b == object_bbox) by {
                    let w = choose|w: int|
                        0 <= w < self.leaf_data.len() && #[trigger] self.leaf_data[w] == (
                        OctreeData { bbox: b, index: i });
                    assert(w == 0);
                }
                assert forall|i: usize, b: BBox| !old(self).recorded(i, b) by {}
            }
            return ;
        }
        // Occupied leaf node and not max depth: subdivide node

        if self.is_leaf() && self.leaf_data.len() == 1 {
            self.subdivide();
            let moved = self.leaf_data.remove(0);
            proof {
                assert forall|k: int| 0 <= k < self.children.len() implies (
                #[trigger] self.children[k]).wf() by {}
                assert(self.wf());
                assert forall|i: usize, b: BBox| !self.recorded(i, b) by {
                    assert forall|k: int| 0 <= k < self.children.len() implies !(
                    #[trigger] self.children[k]).recorded(i, b) by {}
                }
                assert forall|k: int| 0 <= k < self.children.len() implies (
                #[trigger] self.children[k]).snug() && self.children[k].single() by {}
                assert(self.confined());
                assert(self.single());
            }
            // Reinsert old node and then fall through to insert current object
            self.insert(moved.index, moved.bbox);
            proof {
                assert(old(self).leaf_data[0] == moved);
                assert(old(self).recorded(moved.index, moved.bbox));
                assert(self.confined());
                assert(self.single());
                if !old(self).recorded(index, object_bbox) {
                    assert(!self.recorded(index, object_bbox));
                }
                assert forall|i: usize, b: BBox| old(self).registered(i, b) implies #[trigger]
                    self.registered(i, b) by {
                    let w = choose|w: int|
                        0 <= w < old(self).leaf_data.len() && #[trigger] old(self).leaf_data[w]
                            == (OctreeData { bbox: b, index: i });
                    assert(w == 0);
                }
                assert(self.snug());
                if old(self).snug() {
                    assert(old(self).bbox.touches(old(self).leaf_data[0].bbox));
                    self.lemma_registered_is_recorded(moved.index, moved.bbox);
                    assert forall|i: usize, b: BBox| old(self).recorded(i, b) implies #[trigger]
                        self.recorded(i, b) by {
                        let w = choose|w: int|
                            0 <= w < old(self).leaf_data.len() && #[trigger] old(self).leaf_data[w]
                                == (OctreeData { bbox: b, index: i });
                        assert(w == 0);
                    }
                }
            }
        }
        // Interior node (has children)

        let ghost before = *self;
        proof {
            assert(old(self).snug() ==> before.snug());
            assert(old(self).snug() ==> forall|i: usize, b: BBox|
                old(self).recorded(i, b) ==> #[trigger] before.recorded(i, b));
            assert(old(self).confined() ==> before.confined());
            assert(old(self).single() && !old(self).recorded(index, object_bbox) ==> before.single()
                && !before.recorded(index, object_bbox));
        }
        let mut k: usize = 0;
        while k < self.children.len()
            invariant
                k <= self.children.len(),
                before.wf(),
                before.confined() ==> forall|j: int|
                    0 <= j < 8 ==> (#[trigger] self.children[j]).snug(),
                before.single() && !before.recorded(index, object_bbox) ==> forall|j: int|
                    0 <= j < 8 ==> (#[trigger] self.children[j]).single(),
                forall|j: int| k <= j < 8 ==> #[trigger] self.children[j] == before.children[j],
                before.snug() ==> forall|i: usize, b: BBox, j: int|
                    0 <= j < 8 && (#[trigger] before.children[j]).recorded(i, b)
                        ==> #[trigger] self.children[j].recorded(i, b),
                before.children.len() == 8,
                self.children.len() == 8,
                self.bbox == before.bbox,
                self.bbox == old(self).bbox,
                self.depth == before.depth,
                self.depth == old(self).depth,
                self.depth > 0,
                self.leaf_data.len() == 0,
                forall|j: int|
                    0 <= j < 8 ==> {
                        &&& (#[trigger] self.children[j]).bbox == self.bbox.octant(j)
                        &&& self.children[j].bbox == before.children[j].bbox
                        &&& self.children[j].depth == self.depth - 1
                        &&& self.children[j].wf()
                    },
                forall|j: int|
                    0 <= j < k && (#[trigger] self.children[j]).bbox.touches(object_bbox)
                        ==> self.children[j].registered(index, object_bbox),
                forall|i: usize, b: BBox, j: int|
                    0 <= j < 8 && (#[trigger] before.children[j]).registered(i, b)
                        ==> #[trigger] self.children[j].registered(i, b),
                forall|i: usize, b: BBox, j: int|
                    0 <= j < 8 && #[trigger] self.children[j].recorded(i, b)
                        ==> before.children[j].recorded(i, b) || (i == index && b
                        == object_bbox),
            decreases self.children.len() - k,
        {
            proof {
                if !before.recorded(index, object_bbox) {
                    assert(!before.children[k as int].recorded(index, object_bbox));
                }
                if before.snug() {
                    assert(before.children[k as int].snug());
                }
            }
            if self.children[k].bbox.overlaps(&object_bbox) {
                self.children[k].insert(index, object_bbox);
            }
            k += 1;
        }
        proof {
            assert(self.wf());
            assert(self.registered(index, object_bbox));
            if before.snug() {
                assert forall|i: usize, b: BBox| before.recorded(i, b) implies #[trigger]
                    self.recorded(i, b) by {
                    let w = choose|w: int|
                        0 <= w < before.children.len() && (#[trigger] before.children[w]).recorded(
                            i,
                            b,
                        );
                    assert(self.children[w].recorded(i, b));
                }
            }
            assert forall|i: usize, b: BBox| before.registered(i, b) implies #[trigger]
                self.registered(i, b) by {
                assert forall|j: int|
                    0 <= j < self.children.len() && (#[trigger] self.children[j]).bbox.touches(
                        b,
                    ) implies self.children[j].registered(i, b) by {
                    assert(before.children[j].registered(i, b));
                }
            }
            assert forall|i: usize, b: BBox| #[trigger] self.recorded(i, b) implies
                before.recorded(i, b) || (i == index && b == object_bbox) by {
                let w = choose|w: int|
                    0 <= w < self.children.len() && (#[trigger] self.children[w]).recorded(i, b);
                if !(i == index && b == object_bbox) {
                    assert(before.children[w].recorded(i, b));
                }
            }
        }
    }
}

/// The places of the entries of `data` from position `from` on whose bounds
/// `probe` meets, in order.
pub open spec fn leaf_hits<P: Probe>(data: Seq<OctreeData>, probe: &P, from: int) -> Seq<int>
    decreases data.len() - from,
{
    if from < 0 || from >= data.len() {
        Seq::empty()
    } else if probe.hits(data[from].bbox) {
        seq![data[from].index as int] + leaf_hits(data, probe, from + 1)
    } else {
        leaf_hits(data, probe, from + 1)
    }
}

impl OctreeNode {
    /// How many nodes the subtree has.
    pub closed spec fn size(&self) -> nat
        decreases self, 1int, 0int,
    {
        1 + self.kids_size(self.children.len() as int)
    }

    /// How many nodes the subtrees of the first `n` children have.
    pub closed spec fn kids_size(&self, n: int) -> nat
        decreases self, 0int, n,
    {
        if n <= 0 || n > self.children.len() {
            0
        } else {
            self.children[n - 1].size() + self.kids_size(n - 1)
        }
    }

    /// What a query with `probe` hands out once it has reached this node: the
    /// node's own entries that `probe` meets, then what the children that
    /// `probe` meets hand out, the last child first.
    pub closed spec fn yields<P: Probe>(&self, probe: &P) -> Seq<int>
        decreases self, 1int, 0int,
    {
        leaf_hits(self.leaf_data@, probe, 0) + self.kids_yield(probe, self.children.len() as int)
    }

    /// What the first `n` children hand out, the last of them first.
    pub closed spec fn kids_yield<P: Probe>(&self, probe: &P, n: int) -> Seq<int>
        decreases self, 0int, n,
    {
        if n <= 0 || n > self.children.len() {
            Seq::empty()
        } else if probe.hits(self.children[n - 1].bbox) {
            self.children[n - 1].yields(probe) + self.kids_yield(probe, n - 1)
        } else {
            self.kids_yield(probe, n - 1)
        }
    }

    /// Whether every entry below the node names a place under `n`.
    pub closed spec fn bounded(&self, n: int) -> bool {
        forall|i: usize, b: BBox| #[trigger] self.recorded(i, b) ==> i < n
    }
}

/// What the nodes of `stack` hand out to a query with `probe`, the top of the
/// stack first.
pub closed spec fn stack_yield<P: Probe>(stack: Seq<&OctreeNode>, probe: &P) -> Seq<int>
    decreases stack.len(),
{
    if stack.len() == 0 {
        Seq::empty()
    } else {
        stack.last().yields(probe) + stack_yield(stack.drop_last(), probe)
    }
}

/// How many nodes the subtrees on `stack` have together.
pub closed spec fn stack_size(stack: Seq<&OctreeNode>) -> nat
    decreases stack.len(),
{
    if stack.len() == 0 {
        0
    } else {
        stack.last().size() + stack_size(stack.drop_last())
    }
}

/// The numbers `base + from`, ..., `base + n - 1`.
pub open spec fn run(base: int, from: int, n: int) -> Seq<int> {
    Seq::new(
        if n > from {
            (n - from) as nat
        } else {
            0
        },
        |j: int| base + from + j,
    )
}

impl OctreeNode {
    /// What `yields` is: the node's own entries that the probe meets, in
    /// order, and then what its children hand out, from the last child to
    /// the first, each child only if the probe meets its box.
    pub proof fn lemma_yields_means<P: Probe>(&self, probe: &P, n: int)
        requires
            0 < n <= self.kids().len(),
        ensures
            self.yields(probe) == leaf_hits(self.entries(), probe, 0) + self.kids_yield(
                probe,
                self.kids().len() as int,
            ),
            self.kids_yield(probe, 0) == Seq::<int>::empty(),
            self.kids_yield(probe, n) == if probe.hits(self.kids()[n - 1].region()) {
                self.kids()[n - 1].yields(probe) + self.kids_yield(probe, n - 1)
            } else {
                self.kids_yield(probe, n - 1)
            },
    {
    }
}

proof fn lemma_stack_push<P: Probe>(stack: Seq<&OctreeNode>, node: &OctreeNode, probe: &P)
    ensures
        stack_yield(stack.push(node), probe) == node.yields(probe) + stack_yield(stack, probe),
        stack_size(stack.push(node)) == node.size() + stack_size(stack),
{
    assert(stack.push(node).drop_last() =~= stack);
    assert(stack.push(node).last() == node);
}

proof fn lemma_stack_pop<P: Probe>(stack: Seq<&OctreeNode>, probe: &P)
    requires
        stack.len() > 0,
    ensures
        stack_yield(stack, probe) == stack.last().yields(probe) + stack_yield(
            stack.drop_last(),
            probe,
        ),
        stack_size(stack) == stack.last().size() + stack_size(stack.drop_last()),
{
}

impl OctreeNode {
    proof fn lemma_child_bounded(&self, k: int, n: int)
        requires
            self.bounded(n),
            0 <= k < self.children.len(),
        ensures
            self.children[k].bounded(n),
    {
        assert forall|i: usize, b: BBox| #[trigger]
            self.children[k].recorded(i, b) implies i < n by {
            assert(self.recorded(i, b));
        }
    }

    proof fn lemma_leaf_bounded(&self, j: int, n: int)
        requires
            self.bounded(n),
            0 <= j < self.leaf_data.len(),
        ensures
            self.leaf_data[j].index < n,
    {
        let d = self.leaf_data[j];
        assert(self.leaf_data[j] == (OctreeData { bbox: d.bbox, index: d.index }));
        assert(self.recorded(d.index, d.bbox));
    }
}

/// The index: the bounded primitives, filed in an octree by their bounds,
/// and the unbounded ones, kept in a list.
pub struct Octree<T> {
    prims: Vec<T>,
    infinites: Vec<T>,
    root: OctreeNode,
}

/// A query in progress. It hands out each candidate once per leaf entry that
/// leads to it, and then every unbounded primitive.
pub struct OctreeIterator<'a, 'r, T, P> {
    prims: &'a Vec<T>,
    stack: Vec<&'a OctreeNode>,
    leaf_iter: Option<&'a Vec<OctreeData>>,
    leaf_pos: usize,
    ray: &'r P,
    infinites: &'a Vec<T>,
    infinite_pos: usize,
    just_infinites: bool,
}

impl<'a, 'r, T, P: Probe> OctreeIterator<'a, 'r, T, P> {
    /// The bounded primitives of the index that is queried.
    pub closed spec fn finite(&self) -> Seq<T> {
        self.prims@
    }

    /// The unbounded primitives of the index that is queried.
    pub closed spec fn infinite(&self) -> Seq<T> {
        self.infinites@
    }

    /// What the query asks of a box.
    pub closed spec fn probe(&self) -> &P {
        self.ray
    }

    /// The primitive with number `id`: the bounded ones are numbered from 0,
    /// the unbounded ones follow them.
    pub open spec fn item(&self, id: int) -> T {
        if id < self.finite().len() {
            self.finite()[id]
        } else {
            self.infinite()[id - self.finite().len()]
        }
    }

    pub closed spec fn wf(&self) -> bool {
        &&& forall|j: int|
            0 <= j < self.stack.len() ==> (#[trigger] self.stack[j]).wf() && self.stack[j].bounded(
                self.prims.len() as int,
            )
        &&& match self.leaf_iter {
            Some(data) => {
                &&& self.leaf_pos <= data.len()
                &&& forall|j: int| 0 <= j < data.len() ==> (#[trigger] data[j]).index < self.prims.len()
            },
            None => true,
        }
        &&& self.infinite_pos <= self.infinites.len()
        &&& !self.just_infinites ==> self.infinite_pos == 0
        &&& self.prims.len() + self.infinites.len() <= usize::MAX
    }

    /// The numbers of the primitives that are still to come, in the order in
    /// which they will come.
    pub closed spec fn pending(&self) -> Seq<int> {
        if self.just_infinites {
            run(self.prims.len() as int, self.infinite_pos as int, self.infinites.len() as int)
        } else {
            self.leaf_part() + stack_yield(self.stack@, self.ray) + run(
                self.prims.len() as int,
                0,
                self.infinites.len() as int,
            )
        }
    }

    closed spec fn leaf_part(&self) -> Seq<int> {
        match self.leaf_iter {
            Some(data) => leaf_hits(data@, self.ray, self.leaf_pos as int),
            None => Seq::empty(),
        }
    }

    /// Every number still to come names a primitive.
    pub proof fn lemma_pending_in_range(&self, k: int)
        requires
            self.wf(),
            0 <= k < self.pending().len(),
        ensures
            0 <= self.pending()[k] < self.finite().len() + self.infinite().len(),
    {
        if self.just_infinites {
        } else {
            let a = self.leaf_part();
            let b = stack_yield(self.stack@, self.ray);
            if k < a.len() {
                match self.leaf_iter {
                    Some(data) => {
                        lemma_leaf_hits_in_range(
                            data@,
                            self.ray,
                            self.leaf_pos as int,
                            self.prims.len() as int,
                            k,
                        );
                    },
                    None => {},
                }
            } else if k < a.len() + b.len() {
                lemma_stack_yield_in_range(self.stack@, self.ray, self.prims.len() as int, k - a.len());
            } else {
            }
        }
    }

    fn new(octree: &'a Octree<T>, ray: &'r P) -> (it: OctreeIterator<'a, 'r, T, P>)
        requires
            octree.root.wf(),
            octree.root.bounded(octree.prims.len() as int),
            octree.prims.len() + octree.infinites.len() <= usize::MAX,
        ensures
            it.wf(),
            it.finite() == octree.prims@,
            it.infinite() == octree.infinites@,
            it.probe() == ray,
            it.pending() == octree.root.yields(ray) + run(
                octree.prims.len() as int,
                0,
                octree.infinites.len() as int,
            ),
    {
        let mut stack: Vec<&'a OctreeNode> = Vec::new();
        stack.push(&octree.root);
        let it = OctreeIterator {
            prims: &octree.prims,
            stack: stack,
            leaf_iter: None,
            leaf_pos: 0,
            ray: ray,
            infinites: &octree.infinites,
            infinite_pos: 0,
            just_infinites: false,
        };
        proof {
            lemma_stack_push(Seq::<&OctreeNode>::empty(), &octree.root, ray);
            assert(Seq::<&OctreeNode>::empty().push(&octree.root) =~= it.stack@);
            assert(it.stack@ =~= seq![&octree.root]);
            assert(it.pending() =~= octree.root.yields(ray) + run(
                octree.prims.len() as int,
                0,
                octree.infinites.len() as int,
            ));
        }
        it
    }

    fn next_infinite(&mut self) -> (r: Option<(usize, &'a T)>)
        requires
            old(self).wf(),
            old(self).just_infinites,
        ensures
            final(self).wf(),
            final(self).finite() == old(self).finite(),
            final(self).infinite() == old(self).infinite(),
            final(self).probe() == old(self).probe(),
            match r {
                Some((id, x)) => {
                    &&& old(self).pending().len() > 0
                    &&& id == old(self).pending()[0]
                    &&& *x == old(self).item(old(self).pending()[0])
                    &&& final(self).pending() == old(self).pending().skip(1)
                },
                None => old(self).pending().len() == 0 && final(self).pending().len() == 0,
            },
    {
        if self.infinite_pos < self.infinites.len() {
            let infinites: &'a Vec<T> = self.infinites;
            let id = self.prims.len() + self.infinite_pos;
            let r = &infinites[self.infinite_pos];
            self.infinite_pos += 1;
            proof {
                assert(self.pending() =~= old(self).pending().skip(1));
            }
            Some((id, r))
        } else {
            None
        }
    }

    /// The next candidate, or `None` when there is none left.
    pub fn next(&mut self) -> (r: Option<&'a T>)
        requires
            old(self).wf(),
        ensures
            final(self).wf(),
            final(self).finite() == old(self).finite(),
            final(self).infinite() == old(self).infinite(),
            final(self).probe() == old(self).probe(),
            match r {
                Some(x) => {
                    &&& old(self).pending().len() > 0
                    &&& *x == old(self).item(old(self).pending()[0])
                    &&& final(self).pending() == old(self).pending().skip(1)
                },
                None => old(self).pending().len() == 0 && final(self).pending().len() == 0,
            },
    {
        match self.next_indexed() {
            Some((_, x)) => Some(x),
            None => None,
        }
    }

    /// The next candidate with its number, or `None` when there is none
    /// left. A primitive that is handed out more than once has the same
    /// number each time.
    pub fn next_indexed(&mut self) -> (r: Option<(usize, &'a T)>)
        requires
            old(self).wf(),
        ensures
            final(self).wf(),
            final(self).finite() == old(self).finite(),
            final(self).infinite() == old(self).infinite(),
            final(self).probe() == old(self).probe(),
            match r {
                Some((id, x)) => {
                    &&& old(self).pending().len() > 0
                    &&& id == old(self).pending()[0]
                    &&& *x == old(self).item(old(self).pending()[0])
                    &&& final(self).pending() == old(self).pending().skip(1)
                },
                None => old(self).pending().len() == 0 && final(self).pending().len() == 0,
            },
    {
        if self.just_infinites {
            return self.next_infinite();
        }
        loop
            invariant
                self.wf(),
                !self.just_infinites,
                self.prims == old(self).prims,
                self.infinites == old(self).infinites,
                self.ray == old(self).ray,
                self.pending() == old(self).pending(),
            decreases stack_size(self.stack@),
        {
            let ray: &'r P = self.ray;
            let prims: &'a Vec<T> = self.prims;
            let ghost before = self.stack@;
            if let Some(data) = self.leaf_iter {
                while self.leaf_pos < data.len()
                    invariant
                        self.wf(),
                        self.stack@ == before,
                        !self.just_infinites,
                        self.leaf_iter == Some(data),
                        self.prims == old(self).prims,
                        self.prims == prims,
                        self.infinites == old(self).infinites,
                        self.ray == old(self).ray,
                        self.ray == ray,
                        self.pending() == old(self).pending(),
                    decreases data.len() - self.leaf_pos,
                {
                    let val = data[self.leaf_pos];
                    self.leaf_pos += 1;
                    if val.bbox.intersects(ray) {
                        proof {
                            let rest = stack_yield(self.stack@, self.ray) + run(
                                self.prims.len() as int,
                                0,
                                self.infinites.len() as int,
                            );
                            assert(old(self).pending() =~= seq![val.index as int] + (
                            self.leaf_part() + rest));
                            assert(self.pending() =~= old(self).pending().skip(1));
                        }
                        return Some((val.index, &prims[val.index]));
                    }
                }
            }
            // The leaf is used up: go on with the node on top of the stack.

            proof {
                assert(self.leaf_part() =~= Seq::<int>::empty());
            }
            if let Some(node) = self.stack.pop() {
                let ghost rest = self.stack@;
                proof {
                    assert(rest =~= before.drop_last());
                    assert(node == before.last());
                    lemma_stack_pop(before, self.ray);
                }
                let mut k: usize = 0;
                while k < node.children.len()
                    invariant
                        k <= node.children.len(),
                        node.wf(),
                        node.bounded(self.prims.len() as int),
                        self.ray == ray,
                        self.ray == old(self).ray,
                        self.prims == old(self).prims,
                        self.infinites == old(self).infinites,
                        self.infinite_pos == 0,
                        !self.just_infinites,
                        forall|j: int|
                            0 <= j < self.stack.len() ==> (#[trigger] self.stack[j]).wf()
                                && self.stack[j].bounded(self.prims.len() as int),
                        stack_yield(self.stack@, self.ray) == node.kids_yield(self.ray, k as int)
                            + stack_yield(rest, self.ray),
                        stack_size(self.stack@) <= node.kids_size(k as int) + stack_size(rest),
                    decreases node.children.len() - k,
                {
                    let child: &'a OctreeNode = &node.children[k];
                    if child.bbox.intersects(ray) {
                        proof {
                            lemma_stack_push(self.stack@, child, self.ray);
                            node.lemma_child_bounded(k as int, self.prims.len() as int);
                            assert(node.kids_yield(self.ray, k + 1) =~= child.yields(self.ray)
                                + node.kids_yield(self.ray, k as int));
                            assert(child.yields(self.ray) + (node.kids_yield(self.ray, k as int)
                                + stack_yield(rest, self.ray)) =~= node.kids_yield(
                                self.ray,
                                k + 1,
                            ) + stack_yield(rest, self.ray));
                        }
                        self.stack.push(child);
                    }
                    k += 1;
                }
                self.leaf_iter = Some(&node.leaf_data);
                self.leaf_pos = 0;
                proof {
                    assert(node.size() == 1 + node.kids_size(node.children.len() as int));
                    assert(stack_size(self.stack@) < stack_size(before));
                    assert forall|j: int| 0 <= j < node.leaf_data.len() implies (
                    #[trigger] node.leaf_data[j]).index < self.prims.len() by {
                        node.lemma_leaf_bounded(j, self.prims.len() as int);
                    }
                    let tail = run(self.prims.len() as int, 0, self.infinites.len() as int);
                    assert(self.pending() =~= (node.yields(self.ray) + stack_yield(
                        rest,
                        self.ray,
                    )) + tail);
                }
            } else {
                self.just_infinites = true;
                proof {
                    assert(self.stack@ =~= Seq::<&OctreeNode>::empty());
                    assert(self.pending() =~= old(self).pending());
                }
                return self.next_infinite();
            }
        }
    }
}

proof fn lemma_leaf_hits_in_range<P: Probe>(
    data: Seq<OctreeData>,
    probe: &P,
    from: int,
    n: int,
    k: int,
)
    requires
        0 <= from,
        forall|j: int| 0 <= j < data.len() ==> (#[trigger] data[j]).index < n,
        0 <= k < leaf_hits(data, probe, from).len(),
    ensures
        0 <= leaf_hits(data, probe, from)[k] < n,
    decreases data.len() - from,
{
    if from >= data.len() {
    } else if probe.hits(data[from].bbox) {
        if k > 0 {
            lemma_leaf_hits_in_range(data, probe, from + 1, n, k - 1);
        }
    } else {
        lemma_leaf_hits_in_range(data, probe, from + 1, n, k);
    }
}

impl OctreeNode {
    /// Where every entry below the node names a place under `n`, so does
    /// everything that the node hands out.
    pub proof fn lemma_yields_in_range<P: Probe>(&self, probe: &P, n: int, k: int)
        requires
            self.bounded(n),
            0 <= k < self.yields(probe).len(),
        ensures
            0 <= self.yields(probe)[k] < n,
        decreases self, 1int, 0int,
    {
        let a = leaf_hits(self.leaf_data@, probe, 0);
        if k < a.len() {
            assert forall|j: int| 0 <= j < self.leaf_data.len() implies (
            #[trigger] self.leaf_data[j]).index < n by {
                self.lemma_leaf_bounded(j, n);
            }
            lemma_leaf_hits_in_range(self.leaf_data@, probe, 0, n, k);
        } else {
            self.lemma_kids_yield_in_range(probe, self.children.len() as int, n, k - a.len());
        }
    }

    proof fn lemma_kids_yield_in_range<P: Probe>(&self, probe: &P, m: int, n: int, k: int)
        requires
            self.bounded(n),
            0 <= k < self.kids_yield(probe, m).len(),
        ensures
            0 <= self.kids_yield(probe, m)[k] < n,
        decreases self, 0int, m,
    {
        if m <= 0 || m > self.children.len() {
        } else if probe.hits(self.children[m - 1].bbox) {
            let a = self.children[m - 1].yields(probe);
            if k < a.len() {
                self.lemma_child_bounded(m - 1, n);
                self.children[m - 1].lemma_yields_in_range(probe, n, k);
            } else {
                self.lemma_kids_yield_in_range(probe, m - 1, n, k - a.len());
            }
        } else {
            self.lemma_kids_yield_in_range(probe, m - 1, n, k);
        }
    }
}

proof fn lemma_stack_yield_in_range<P: Probe>(stack: Seq<&OctreeNode>, probe: &P, n: int, k: int)
    requires
        forall|j: int| 0 <= j < stack.len() ==> (#[trigger] stack[j]).bounded(n),
        0 <= k < stack_yield(stack, probe).len(),
    ensures
        0 <= stack_yield(stack, probe)[k] < n,
    decreases stack.len(),
{
    if stack.len() > 0 {
        let a = stack.last().yields(probe);
        if k < a.len() {
            stack.last().lemma_yields_in_range(probe, n, k);
        } else {
            lemma_stack_yield_in_range(stack.drop_last(), probe, n, k - a.len());
        }
    }
}

/// The smallest box around the bounds of all of `items`, each of which has
/// bounds; none for no items.
pub open spec fn whole_hull<T: PartialBoundingBox>(items: Seq<T>) -> Option<BBox>
    decreases items.len(),
{
    if items.len() == 0 {
        None
    } else {
        let b = items.last().bounds().unwrap();
        match whole_hull(items.drop_last()) {
            None => Some(b),
            Some(u) => Some(u.hull(b)),
        }
    }
}

/// The box that the tree over `items` covers: the smallest box around their
/// bounds, or the one cell at the origin where there are no items.
pub open spec fn cover<T: PartialBoundingBox>(items: Seq<T>) -> BBox {
    match whole_hull(items) {
        Some(b) => b,
        None => BBox { min: Cell { x: 0, y: 0, z: 0 }, max: Cell { x: 0, y: 0, z: 0 } },
    }
}

/// The test that picks the items with bounds.
pub open spec fn with_bounds<T: PartialBoundingBox>() -> spec_fn(T) -> bool {
    |t: T| t.bounds() is Some
}

/// The test that picks the items without bounds.
pub open spec fn without_bounds<T: PartialBoundingBox>() -> spec_fn(T) -> bool {
    |t: T| t.bounds() is None
}

impl<T: PartialBoundingBox> Octree<T> {
    /// The bounded primitives, in the order in which they were given.
    pub closed spec fn finite(&self) -> Seq<T> {
        self.prims@
    }

    /// The unbounded primitives, in the order in which they were given.
    pub closed spec fn infinite(&self) -> Seq<T> {
        self.infinites@
    }

    /// The box of the root: the smallest box around all bounds.
    pub closed spec fn extent(&self) -> BBox {
        self.root.bbox
    }

    /// The depth budget the root was built with.
    pub closed spec fn depth(&self) -> int {
        self.root.depth as int
    }

    /// The primitive with number `id`: the bounded ones are numbered from 0,
    /// the unbounded ones follow them.
    pub open spec fn item(&self, id: int) -> T {
        if id < self.finite().len() {
            self.finite()[id]
        } else {
            self.infinite()[id - self.finite().len()]
        }
    }

    /// How many primitives the index holds.
    pub open spec fn count(&self) -> nat {
        self.finite().len() + self.infinite().len()
    }

    /// The node at the top of the tree.
    pub closed spec fn top(&self) -> OctreeNode {
        self.root
    }

    /// What `wf` and `candidates` are, in terms of the tree and the two
    /// lists of primitives.
    pub proof fn lemma_index_means<P: Probe>(&self, probe: &P)
        ensures
            self.extent() == self.top().region(),
            self.depth() == self.top().budget(),
            self.candidates(probe) == self.top().yields(probe) + run(
                self.finite().len() as int,
                0,
                self.infinite().len() as int,
            ),
            self.wf() <==> {
                &&& self.top().wf()
                &&& self.top().bounded(self.finite().len() as int)
                &&& forall|i: int|
                    0 <= i < self.finite().len() ==> {
                        &&& (#[trigger] self.finite()[i]).bounds() is Some
                        &&& self.top().registered(i as usize, self.finite()[i].bounds().unwrap())
                        &&& self.extent().encloses(self.finite()[i].bounds().unwrap())
                    }
                &&& forall|i: usize, b: BBox| #[trigger]
                    self.top().recorded(i, b) ==> self.finite()[i as int].bounds() == Some(b)
                &&& forall|j: int|
                    0 <= j < self.infinite().len() ==> (#[trigger] self.infinite()[j]).bounds()
                        is None
                &&& self.count() <= usize::MAX
                &&& self.extent() == cover(self.finite())
                &&& self.top().confined()
                &&& self.top().single()
            },
    {
    }

    /// The tree is well formed and covers the smallest box around the
    /// bounded primitives. It holds an entry for every bounded primitive
    /// wherever a query might look for it, and holds no entry but those:
    /// below the root none in a leaf whose box shares no cell with its
    /// bounds, and none twice in one leaf.
    pub closed spec fn wf(&self) -> bool {
        &&& self.root.wf()
        &&& self.root.bounded(self.prims.len() as int)
        &&& forall|i: int|
            0 <= i < self.prims.len() ==> {
                &&& (#[trigger] self.prims[i]).bounds() is Some
                &&& self.root.registered(i as usize, self.prims[i].bounds().unwrap())
                &&& self.root.bbox.encloses(self.prims[i].bounds().unwrap())
            }
        &&& forall|i: usize, b: BBox| #[trigger]
            self.root.recorded(i, b) ==> self.prims[i as int].bounds() == Some(b)
        &&& forall|j: int|
            0 <= j < self.infinites.len() ==> (#[trigger] self.infinites[j]).bounds() is None
        &&& self.prims.len() + self.infinites.len() <= usize::MAX
        &&& self.root.bbox == cover(self.prims@)
        &&& self.root.confined()
        &&& self.root.single()
    }

    /// The numbers of the primitives that a query with `probe` hands out, in
    /// the order in which it hands them out.
    pub closed spec fn candidates<P: Probe>(&self, probe: &P) -> Seq<int> {
        self.root.yields(probe) + run(
            self.prims.len() as int,
            0,
            self.infinites.len() as int,
        )
    }

    /// Builds the index over `items`.
    ///
    /// The items with bounds are filed in a tree over the smallest box around
    /// all their bounds (the one cell at the origin if there are none); the
    /// others are kept aside. Both keep their order.
    pub fn from_iter(items: Vec<T>) -> (tree: Octree<T>)
        ensures
            tree.wf(),
            tree.finite() == items@.filter(with_bounds()),
            tree.infinite() == items@.filter(without_bounds()),
            tree.depth() == depth_for(tree.finite().len() as int),
            tree.extent() == cover(tree.finite()),
    {
        let ghost all = items@;
        proof {
            assert(all.len() == items.len());
        }
        let ghost bounded = with_bounds::<T>();
        let ghost unbounded = without_bounds::<T>();
        let mut finites: Vec<T> = Vec::new();
        let mut infinites: Vec<T> = Vec::new();
        proof {
            assert(all.take(0) =~= Seq::<T>::empty());
            Seq::<T>::empty().lemma_all_neg_filter_empty(bounded);
            Seq::<T>::empty().lemma_all_neg_filter_empty(unbounded);
        }
        for item in it: items
            invariant
                it.seq() == all,
                all.len() <= usize::MAX,
                finites.len() + infinites.len() == it.index(),
                bounded == with_bounds::<T>(),
                unbounded == without_bounds::<T>(),
                finites@ == all.take(it.index() as int).filter(bounded),
                infinites@ == all.take(it.index() as int).filter(unbounded),
                forall|j: int| 0 <= j < finites.len() ==> (#[trigger] finites[j]).bounds() is Some,
                forall|j: int|
                    0 <= j < infinites.len() ==> (#[trigger] infinites[j]).bounds() is None,
        {
            proof {
                let i = it.index() as int;
                assert(item == all[i]);
                all.lemma_take_succ_push(i);
                all.take(i).lemma_filter_push(item, bounded);
                all.take(i).lemma_filter_push(item, unbounded);
                assert(bounded(item) == (item.bounds() is Some));
                assert(unbounded(item) == (item.bounds() is None));
            }
            let has_bounds = item.partial_bounding_box().is_some();
            if has_bounds {
                finites.push(item);
            } else {
                infinites.push(item);
            }
        }
        proof {
            assert(all.take(all.len() as int) =~= all);
            assert(finites.len() + infinites.len() == all.len());
        }
        let mut bounds: Option<BBox> = None;
        let mut i: usize = 0;
        while i < finites.len()
            invariant
                i <= finites.len(),
                finites.len() + infinites.len() <= usize::MAX,
                forall|j: int| 0 <= j < finites.len() ==> (#[trigger] finites[j]).bounds() is Some,
                i > 0 ==> bounds is Some,
                forall|j: int|
                    0 <= j < i ==> bounds.unwrap().encloses((#[trigger] finites[j]).bounds().unwrap()),
                bounds == whole_hull(finites@.take(i as int)),
            decreases finites.len() - i,
        {
            proof {
                assert(finites@.take(i + 1).drop_last() =~= finites@.take(i as int));
                assert(finites@.take(i + 1).last() == finites[i as int]);
            }
            let b = finites[i].partial_bounding_box().unwrap();
            bounds = Some(
                match bounds {
                    None => b,
                    Some(u) => u.union(&b),
                },
            );
            i += 1;
        }
        proof {
            assert(finites@.take(finites.len() as int) =~= finites@);
        }
        let bounds = bounds.unwrap_or(BBox::zero());
        let depth = tree_depth(finites.len());
        let mut root_node = OctreeNode::new(bounds, depth);
        let mut i: usize = 0;
        while i < finites.len()
            invariant
                i <= finites.len(),
                finites.len() + infinites.len() <= usize::MAX,
                root_node.wf(),
                root_node.bbox == bounds,
                root_node.depth == depth,
                root_node.confined(),
                root_node.single(),
                forall|j: int| 0 <= j < finites.len() ==> (#[trigger] finites[j]).bounds() is Some,
                forall|j: int|
                    0 <= j < i ==> root_node.registered(
                        j as usize,
                        (#[trigger] finites[j]).bounds().unwrap(),
                    ),
                forall|k: usize, b: BBox| #[trigger]
                    root_node.recorded(k, b) ==> k < i && finites[k as int].bounds() == Some(b),
            decreases finites.len() - i,
        {
            let b = finites[i].partial_bounding_box().unwrap();
            proof {
                if root_node.recorded(i, b) {
                    assert(i < i);
                }
            }
            root_node.insert(i, b);
            i += 1;
        }
        Octree { prims: finites, infinites: infinites, root: root_node }
    }

    /// How many primitives the index holds.
    pub fn len(&self) -> (n: usize)
        requires
            self.wf(),
        ensures
            n == self.count(),
    {
        self.prims.len() + self.infinites.len()
    }

    /// Starts a query: the candidates that `ray` might meet.
    pub fn intersect_iter<'a, 'r, P: Probe>(&'a self, ray: &'r P) -> (it: OctreeIterator<
        'a,
        'r,
        T,
        P,
    >)
        requires
            self.wf(),
        ensures
            it.wf(),
            it.finite() == self.finite(),
            it.infinite() == self.infinite(),
            it.probe() == ray,
            it.pending() == self.candidates(ray),
    {
        OctreeIterator::new(self, ray)
    }
}

proof fn lemma_contains_left(a: Seq<int>, b: Seq<int>, x: int)
    requires
        a.contains(x),
    ensures
        (a + b).contains(x),
{
    let w = choose|w: int| 0 <= w < a.len() && a[w] == x;
    assert((a + b)[w] == x);
}

proof fn lemma_contains_right(a: Seq<int>, b: Seq<int>, x: int)
    requires
        b.contains(x),
    ensures
        (a + b).contains(x),
{
    let w = choose|w: int| 0 <= w < b.len() && b[w] == x;
    assert((a + b)[a.len() + w] == x);
}

proof fn lemma_leaf_hits_contains<P: Probe>(data: Seq<OctreeData>, probe: &P, from: int, j: int)
    requires
        0 <= from <= j < data.len(),
        probe.hits(data[j].bbox),
    ensures
        leaf_hits(data, probe, from).contains(data[j].index as int),
    decreases data.len() - from,
{
    let rest = leaf_hits(data, probe, from + 1);
    if from == j {
        assert((seq![data[j].index as int] + rest)[0] == data[j].index as int);
    } else {
        lemma_leaf_hits_contains(data, probe, from + 1, j);
        if probe.hits(data[from].bbox) {
            lemma_contains_right(seq![data[from].index as int], rest, data[j].index as int);
        }
    }
}

proof fn lemma_leaf_hits_sound<P: Probe>(data: Seq<OctreeData>, probe: &P, from: int, k: int) -> (j:
    int)
    requires
        0 <= from,
        0 <= k < leaf_hits(data, probe, from).len(),
    ensures
        from <= j < data.len(),
        probe.hits(data[j].bbox),
        leaf_hits(data, probe, from)[k] == data[j].index,
    decreases data.len() - from,
{
    if probe.hits(data[from].bbox) {
        if k == 0 {
            from
        } else {
            lemma_leaf_hits_sound(data, probe, from + 1, k - 1)
        }
    } else {
        lemma_leaf_hits_sound(data, probe, from + 1, k)
    }
}

impl OctreeNode {
    proof fn lemma_kids_yield_contains<P: Probe>(&self, probe: &P, n: int, k: int, x: int)
        requires
            0 <= k < n <= self.children.len(),
            probe.hits(self.children[k].bbox),
            self.children[k].yields(probe).contains(x),
        ensures
            self.kids_yield(probe, n).contains(x),
        decreases n,
    {
        let rest = self.kids_yield(probe, n - 1);
        if k == n - 1 {
            lemma_contains_left(self.children[k].yields(probe), rest, x);
        } else {
            self.lemma_kids_yield_contains(probe, n - 1, k, x);
            if probe.hits(self.children[n - 1].bbox) {
                lemma_contains_right(self.children[n - 1].yields(probe), rest, x);
            }
        }
    }

    /// An entry that has reached every place where a query might look for it
    /// is handed out to every query that meets its bounds within the node.
    proof fn lemma_registered_yields<P: Probe>(&self, probe: &P, i: usize, b: BBox)
        requires
            self.wf(),
            self.registered(i, b),
            pointlike(probe),
            b.meet(self.bbox).inhabited(),
            probe.hits(b.meet(self.bbox)),
        ensures
            self.yields(probe).contains(i as int),
        decreases self,
    {
        let leaf = leaf_hits(self.leaf_data@, probe, 0);
        let kids = self.kids_yield(probe, self.children.len() as int);
        if self.children.len() == 0 {
            let j = choose|j: int|
                0 <= j < self.leaf_data.len() && #[trigger] self.leaf_data[j] == (OctreeData {
                    bbox: b,
                    index: i,
                });
            assert(b.encloses(b.meet(self.bbox)));
            lemma_leaf_hits_contains(self.leaf_data@, probe, 0, j);
            lemma_contains_left(leaf, kids, i as int);
        } else {
            let k = lemma_octants_cover(probe, b, self.bbox);
            let child = self.children[k];
            assert(child.bbox == self.bbox.octant(k));
            assert(child.bbox.touches(b));
            child.lemma_registered_yields(probe, i, b);
            self.lemma_kids_yield_contains(probe, self.children.len() as int, k, i as int);
            lemma_contains_right(leaf, kids, i as int);
        }
    }

    /// Whatever a query is handed comes from an entry below the node whose
    /// bounds the query meets.
    proof fn lemma_yields_sound<P: Probe>(&self, probe: &P, k: int) -> (b: BBox)
        requires
            0 <= k < self.yields(probe).len(),
        ensures
            0 <= self.yields(probe)[k] <= usize::MAX,
            self.recorded(self.yields(probe)[k] as usize, b),
            probe.hits(b),
        decreases self, 1int, 0int,
    {
        let leaf = leaf_hits(self.leaf_data@, probe, 0);
        if k < leaf.len() {
            let j = lemma_leaf_hits_sound(self.leaf_data@, probe, 0, k);
            let d = self.leaf_data[j];
            assert(self.leaf_data[j] == (OctreeData { bbox: d.bbox, index: d.index }));
            d.bbox
        } else {
            self.lemma_kids_yield_sound(probe, self.children.len() as int, k - leaf.len())
        }
    }

    proof fn lemma_kids_yield_sound<P: Probe>(&self, probe: &P, n: int, k: int) -> (b: BBox)
        requires
            0 <= k < self.kids_yield(probe, n).len(),
        ensures
            0 <= self.kids_yield(probe, n)[k] <= usize::MAX,
            self.recorded(self.kids_yield(probe, n)[k] as usize, b),
            probe.hits(b),
        decreases self, 0int, n,
    {
        if probe.hits(self.children[n - 1].bbox) {
            let a = self.children[n - 1].yields(probe);
            if k < a.len() {
                let b = self.children[n - 1].lemma_yields_sound(probe, k);
                assert(self.recorded(a[k] as usize, b));
                b
            } else {
                self.lemma_kids_yield_sound(probe, n - 1, k - a.len())
            }
        } else {
            self.lemma_kids_yield_sound(probe, n - 1, k)
        }
    }
}

impl<T: PartialBoundingBox> Octree<T> {
    /// Every bounded primitive whose bounds have cells and are met by a
    /// point-like probe is among the candidates of a query with that probe.
    pub proof fn lemma_candidates_complete<P: Probe>(&self, probe: &P, i: int)
        requires
            self.wf(),
            pointlike(probe),
            0 <= i < self.finite().len(),
            self.finite()[i].bounds().unwrap().inhabited(),
            probe.hits(self.finite()[i].bounds().unwrap()),
        ensures
            self.candidates(probe).contains(i),
    {
        let b = self.prims[i].bounds().unwrap();
        assert(b.meet(self.root.bbox) == b);
        self.root.lemma_registered_yields(probe, i as usize, b);
        lemma_contains_left(
            self.root.yields(probe),
            run(self.prims.len() as int, 0, self.infinites.len() as int),
            i,
        );
    }

    /// What the tree hands out names bounded primitives only.
    pub proof fn lemma_tree_part_is_bounded<P: Probe>(&self, probe: &P, k: int)
        requires
            self.wf(),
            0 <= k < self.top().yields(probe).len(),
        ensures
            0 <= self.top().yields(probe)[k] < self.finite().len(),
            self.candidates(probe)[k] == self.top().yields(probe)[k],
    {
        self.root.lemma_yields_in_range(probe, self.prims.len() as int, k);
    }

    /// Each unbounded primitive is handed out exactly once, after the tree
    /// is done: the `j`th of them at place `j` behind what the tree hands
    /// out, and nowhere else.
    pub proof fn lemma_unbounded_once<P: Probe>(&self, probe: &P, j: int)
        requires
            self.wf(),
            0 <= j < self.infinite().len(),
        ensures
            self.candidates(probe).len() == self.top().yields(probe).len() + self.infinite().len(),
            self.candidates(probe)[self.top().yields(probe).len() + j] == self.finite().len() + j,
            forall|k: int|
                0 <= k < self.candidates(probe).len() && #[trigger] self.candidates(probe)[k]
                    == self.finite().len() + j ==> k == self.top().yields(probe).len() + j,
    {
        let tree = self.root.yields(probe);
        assert forall|k: int|
            0 <= k < self.candidates(probe).len() && #[trigger] self.candidates(probe)[k]
                == self.finite().len() + j implies k == tree.len() + j by {
            if k < tree.len() {
                self.lemma_tree_part_is_bounded(probe, k);
            }
        }
    }

    /// An index without bounded primitives hands out the unbounded ones, in
    /// their order, and nothing else.
    pub proof fn lemma_only_unbounded<P: Probe>(&self, probe: &P)
        requires
            self.wf(),
            self.finite().len() == 0,
        ensures
            self.candidates(probe) =~= Seq::new(self.infinite().len(), |j: int| j),
    {
        let tree = self.root.yields(probe);
        if tree.len() > 0 {
            self.lemma_tree_part_is_bounded(probe, 0);
        }
    }

    /// A point-like probe that misses the box of the root is handed no
    /// bounded primitive, where the bounds of all of them have cells.
    pub proof fn lemma_miss_of_root<P: Probe>(&self, probe: &P, k: int)
        requires
            self.wf(),
            pointlike(probe),
            forall|i: int|
                0 <= i < self.finite().len() ==> (#[trigger] self.finite()[i]).bounds().unwrap().inhabited(),
            !probe.hits(self.extent()),
            0 <= k < self.candidates(probe).len(),
        ensures
            self.candidates(probe)[k] >= self.finite().len(),
    {
        self.lemma_candidates_sound(probe, k);
        let id = self.candidates(probe)[k];
        if id < self.finite().len() {
            assert(self.root.bbox.encloses(self.prims[id].bounds().unwrap()));
        }
    }

    /// Every unbounded primitive is among the candidates of every query.
    pub proof fn lemma_candidates_unbounded<P: Probe>(&self, probe: &P, id: int)
        requires
            self.finite().len() <= id < self.count(),
        ensures
            self.candidates(probe).contains(id),
    {
        let tail = run(self.prims.len() as int, 0, self.infinites.len() as int);
        assert(tail[id - self.prims.len()] == id);
        lemma_contains_right(self.root.yields(probe), tail, id);
    }

    /// Every candidate is a primitive of the index, and if it is a bounded
    /// one, the probe meets its bounds.
    pub proof fn lemma_candidates_sound<P: Probe>(&self, probe: &P, k: int)
        requires
            self.wf(),
            0 <= k < self.candidates(probe).len(),
        ensures
            0 <= self.candidates(probe)[k] < self.count(),
            self.candidates(probe)[k] < self.finite().len() ==> probe.hits(
                self.finite()[self.candidates(probe)[k]].bounds().unwrap(),
            ),
    {
        let head = self.root.yields(probe);
        if k < head.len() {
            let b = self.root.lemma_yields_sound(probe, k);
        }
    }
}

} // verus!
