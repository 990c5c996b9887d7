//! The scene: lights, the index over the primitives, and what lies behind
//! them; and the search for the surface that a ray reaches first.

use crate::bbox::{pointlike, Probe};
use crate::colorrgba::ColorRGBA;
use crate::fixed::Fixed;
use crate::geometry::{Intersection, PartialBoundingBox, Prim};
use crate::octree::{run, Octree};
use crate::ray::{lemma_fixed_ray_is_pointlike, Ray};
use crate::scalar::Scalar;
use crate::vec3::Vec3;
use vstd::prelude::*;

verus! {

/// What a ray sees that leaves the scene. The colour is a function of the
/// direction.
pub trait Background<T: Scalar> {
    spec fn sky(&self, dir: Vec3<T>) -> ColorRGBA<T>;

    fn color(&self, dir: Vec3<T>) -> (c: ColorRGBA<T>)
        ensures
            c == self.sky(dir),
    ;
}

/// A background of one colour.
#[derive(Copy, Debug)]
pub struct ColorBackground<T> {
    color: ColorRGBA<T>,
}

impl<T: Copy> Clone for ColorBackground<T> {
    fn clone(&self) -> (b: ColorBackground<T>)
        ensures
            b == *self,
    {
        ColorBackground { color: self.color }
    }
}

impl<T: Scalar> ColorBackground<T> {
    /// The colour of the background.
    pub closed spec fn shown(&self) -> ColorRGBA<T> {
        self.color
    }

    pub fn new(color: ColorRGBA<T>) -> (b: ColorBackground<T>)
        ensures
            b.shown() == color,
    {
        ColorBackground { color }
    }

    pub fn black() -> (b: ColorBackground<T>)
        ensures
            b.shown() == ColorRGBA::<T>::dark(),
    {
        ColorBackground { color: ColorRGBA::black() }
    }
}

impl<T: Scalar> Background<T> for ColorBackground<T> {
    open spec fn sky(&self, dir: Vec3<T>) -> ColorRGBA<T> {
        self.shown()
    }

    fn color(&self, _dir: Vec3<T>) -> (c: ColorRGBA<T>) {
        self.color
    }
}

/// Everything a render reads. It is built once and not changed while it is
/// rendered.
pub struct Scene<P, L, B> {
    pub lights: Vec<L>,
    pub octree: Octree<P>,
    pub background: B,
}

/// The nearer of two hits: `h` if it lies strictly before `best` or `best`
/// is none, else `best`.
pub open spec fn closer<'a, T: Scalar, M>(
    best: Option<Intersection<'a, T, M>>,
    h: Option<Intersection<'a, T, M>>,
) -> Option<Intersection<'a, T, M>> {
    match (best, h) {
        (None, _) => h,
        (Some(_), None) => best,
        (Some(p), Some(x)) => if x.t.below(p.t) {
            h
        } else {
            best
        },
    }
}

fn pick_closer<'a, T: Scalar, M>(
    best: Option<Intersection<'a, T, M>>,
    h: Option<Intersection<'a, T, M>>,
) -> (r: Option<Intersection<'a, T, M>>)
    ensures
        r == closer(best, h),
{
    match (best, h) {
        (None, h) => h,
        (Some(p), None) => Some(p),
        (Some(p), Some(x)) => if x.t.lt(p.t) {
            Some(x)
        } else {
            Some(p)
        },
    }
}

/// Where `ray` meets the primitive numbered `id`, anywhere from the
/// tolerance on.
pub open spec fn strike<'a, T: Scalar, P: Prim<T>>(tree: &'a Octree<P>, ray: Ray<T>, id: int) -> Option<
    Intersection<'a, T, P::Mat>,
> {
    tree.item(id).hit(ray, T::tolerance(), T::unbounded())
}

/// The nearest hit of `ray` among the first `k` of the primitives numbered
/// `ids`: of hits at the same distance, the first one found.
pub open spec fn nearest<'a, T: Scalar, P: Prim<T>>(
    tree: &'a Octree<P>,
    ray: Ray<T>,
    ids: Seq<int>,
    k: int,
) -> Option<Intersection<'a, T, P::Mat>>
    decreases k,
{
    if k <= 0 {
        None
    } else {
        closer(nearest(tree, ray, ids, k - 1), strike(tree, ray, ids[k - 1]))
    }
}

impl<T: Scalar> Ray<T> {
    /// What the ray sees first in `tree`: the nearest hit among the
    /// candidates that the index hands out for the ray.
    pub open spec fn first_hit<'a, P: Prim<T>>(&self, tree: &'a Octree<P>) -> Option<
        Intersection<'a, T, P::Mat>,
    > {
        nearest(tree, *self, tree.candidates(self), tree.candidates(self).len() as int)
    }

    /// The surface that the ray reaches first, if it reaches one.
    pub fn get_nearest_hit<'a, P: Prim<T>, L, B>(&self, scene: &'a Scene<P, L, B>) -> (r: Option<
        Intersection<'a, T, P::Mat>,
    >)
        requires
            scene.octree.wf(),
        ensures
            r == self.first_hit(&scene.octree),
    {
        let mut it = scene.octree.intersect_iter(self);
        let mut best: Option<Intersection<'a, T, P::Mat>> = None;
        let ghost ids = it.pending();
        let ghost mut k: int = 0;
        proof {
            assert(ids.skip(0) =~= ids);
        }
        loop
            invariant
                it.wf(),
                it.finite() == scene.octree.finite(),
                it.infinite() == scene.octree.infinite(),
                0 <= k <= ids.len(),
                it.pending() == ids.skip(k),
                best == nearest(&scene.octree, *self, ids, k),
            ensures
                k == ids.len(),
                best == nearest(&scene.octree, *self, ids, k),
            decreases ids.len() - k,
        {
            match it.next() {
                None => {
                    break ;
                },
                Some(prim) => {
                    let h = prim.intersects(self, T::epsilon(), T::infinity());
                    proof {
                        assert(ids.skip(k)[0] == ids[k]);
                        assert(ids.skip(k).skip(1) =~= ids.skip(k + 1));
                        assert(*prim == scene.octree.item(ids[k]));
                    }
                    best = pick_closer(best, h);
                    proof {
                        k = k + 1;
                    }
                },
            }
        }
        best
    }
}

/// The nearest hit among `ids[..k]`, if there is one, is the hit of one of
/// them.
pub proof fn lemma_nearest_is_a_strike<T: Scalar, P: Prim<T>>(
    tree: &Octree<P>,
    ray: Ray<T>,
    ids: Seq<int>,
    k: int,
) -> (j: int)
    requires
        0 <= k <= ids.len(),
        nearest(tree, ray, ids, k) is Some,
    ensures
        0 <= j < k,
        strike(tree, ray, ids[j]) == nearest(tree, ray, ids, k),
    decreases k,
{
    let prev = nearest(tree, ray, ids, k - 1);
    let h = strike(tree, ray, ids[k - 1]);
    if nearest(tree, ray, ids, k) == h {
        k - 1
    } else {
        lemma_nearest_is_a_strike(tree, ray, ids, k - 1)
    }
}

/// What a ray sees first is a hit on a primitive of the index.
pub proof fn lemma_first_hit_is_a_strike<T: Scalar, P: Prim<T>>(tree: &Octree<P>, ray: Ray<T>) -> (id:
    int)
    requires
        tree.wf(),
        ray.first_hit(tree) is Some,
    ensures
        0 <= id < tree.count(),
        strike(tree, ray, id) == ray.first_hit(tree),
{
    let cands = tree.candidates(&ray);
    let j = lemma_nearest_is_a_strike(tree, ray, cands, cands.len() as int);
    tree.lemma_candidates_sound(&ray, j);
    cands[j]
}

/// The hit parameters of `ray` on the primitives of `tree` are in a strict
/// total order: none lies before itself; before is transitive; and of two
/// that differ, one lies before the other.
pub open spec fn ordered_hits<T: Scalar, P: Prim<T>>(tree: &Octree<P>, ray: Ray<T>) -> bool {
    &&& forall|i: int|
        0 <= i < tree.count() && (#[trigger] strike(tree, ray, i)) is Some ==> !strike(
            tree,
            ray,
            i,
        ).unwrap().t.below(strike(tree, ray, i).unwrap().t)
    &&& forall|i: int, j: int, l: int|
        #![trigger strike(tree, ray, i), strike(tree, ray, j), strike(tree, ray, l)]
        0 <= i < tree.count() && 0 <= j < tree.count() && 0 <= l < tree.count() && strike(
            tree,
            ray,
            i,
        ) is Some && strike(tree, ray, j) is Some && strike(tree, ray, l) is Some && strike(
            tree,
            ray,
            i,
        ).unwrap().t.below(strike(tree, ray, j).unwrap().t) && strike(
            tree,
            ray,
            j,
        ).unwrap().t.below(strike(tree, ray, l).unwrap().t) ==> strike(
            tree,
            ray,
            i,
        ).unwrap().t.below(strike(tree, ray, l).unwrap().t)
    &&& forall|i: int, j: int|
        #![trigger strike(tree, ray, i), strike(tree, ray, j)]
        0 <= i < tree.count() && 0 <= j < tree.count() && strike(tree, ray, i) is Some && strike(
            tree,
            ray,
            j,
        ) is Some ==> strike(tree, ray, i).unwrap().t.below(strike(tree, ray, j).unwrap().t)
            || strike(tree, ray, j).unwrap().t.below(strike(tree, ray, i).unwrap().t) || strike(
            tree,
            ray,
            i,
        ).unwrap().t == strike(tree, ray, j).unwrap().t
}

/// Every bounded primitive of `tree` that `ray` hits has bounds with cells
/// that `ray` meets.
pub open spec fn bounds_hold<T: Scalar, P: Prim<T>>(tree: &Octree<P>, ray: Ray<T>) -> bool {
    forall|i: int|
        0 <= i < tree.finite().len() && (#[trigger] strike(tree, ray, i)) is Some ==> {
            &&& tree.finite()[i].bounds().unwrap().inhabited()
            &&& ray.hits(tree.finite()[i].bounds().unwrap())
        }
}

/// What the nearest hit among `ids[..k]` is: none if none of them is hit;
/// else the hit of one of them, with no hit of any of them before it.
proof fn lemma_nearest_is_least<T: Scalar, P: Prim<T>>(
    tree: &Octree<P>,
    ray: Ray<T>,
    ids: Seq<int>,
    k: int,
)
    requires
        ordered_hits(tree, ray),
        0 <= k <= ids.len(),
        forall|j: int| 0 <= j < k ==> 0 <= #[trigger] ids[j] < tree.count(),
    ensures
        match nearest(tree, ray, ids, k) {
            None => forall|j: int| 0 <= j < k ==> strike(tree, ray, #[trigger] ids[j]) is None,
            Some(x) => {
                &&& exists|j: int| 0 <= j < k && strike(tree, ray, #[trigger] ids[j]) == Some(x)
                &&& forall|j: int|
                    0 <= j < k && strike(tree, ray, #[trigger] ids[j]) is Some ==> !strike(
                        tree,
                        ray,
                        ids[j],
                    ).unwrap().t.below(x.t)
            },
        },
    decreases k,
{
    if k > 0 {
        lemma_nearest_is_least(tree, ray, ids, k - 1);
        let prev = nearest(tree, ray, ids, k - 1);
        let h = strike(tree, ray, ids[k - 1]);
        match (prev, h) {
            (None, None) => {},
            (None, Some(x)) => {
                assert(strike(tree, ray, ids[k - 1]) == Some(x));
            },
            (Some(p), None) => {
                let w = choose|j: int| 0 <= j < k - 1 && strike(tree, ray, #[trigger] ids[j]) == Some(p);
                assert(strike(tree, ray, ids[w]) == Some(p));
            },
            (Some(p), Some(x)) => {
                let w = choose|j: int| 0 <= j < k - 1 && strike(tree, ray, #[trigger] ids[j]) == Some(p);
                assert(strike(tree, ray, ids[w]) == Some(p));
                if x.t.below(p.t) {
                    assert(strike(tree, ray, ids[k - 1]) == Some(x));
                    assert forall|j: int|
                        0 <= j < k && strike(tree, ray, #[trigger] ids[j]) is Some implies !strike(
                        tree,
                        ray,
                        ids[j],
                    ).unwrap().t.below(x.t) by {
                        if j < k - 1 {
                            let a = strike(tree, ray, ids[j]);
                            let b = strike(tree, ray, ids[k - 1]);
                            let c = strike(tree, ray, ids[w]);
                            if a.unwrap().t.below(x.t) {
                                assert(a.unwrap().t.below(c.unwrap().t));
                            }
                        }
                    }
                } else {
                }
            },
        }
    }
}

/// Scanning the candidates of the index finds what scanning every primitive
/// finds: both find nothing, or both find a hit at the same distance.
///
/// This holds for a ray that meets boxes as a query needs it, on
/// primitives whose bounds hold, where the hit parameters are in a strict
/// total order.
pub proof fn lemma_index_scan_finds_nearest<T: Scalar, P: Prim<T>>(tree: &Octree<P>, ray: Ray<T>)
    requires
        tree.wf(),
        pointlike(&ray),
        bounds_hold(tree, ray),
        ordered_hits(tree, ray),
    ensures
        ray.first_hit(tree) is Some <==> nearest(
            tree,
            ray,
            run(0, 0, tree.count() as int),
            tree.count() as int,
        ) is Some,
        ray.first_hit(tree) is Some ==> ray.first_hit(tree).unwrap().t == nearest(
            tree,
            ray,
            run(0, 0, tree.count() as int),
            tree.count() as int,
        ).unwrap().t,
{
    let n = tree.count() as int;
    let all = run(0, 0, n);
    let cands = tree.candidates(&ray);
    let m = cands.len() as int;
    assert forall|j: int| 0 <= j < m implies 0 <= #[trigger] cands[j] < tree.count() by {
        tree.lemma_candidates_sound(&ray, j);
    }
    lemma_nearest_is_least(tree, ray, cands, m);
    lemma_nearest_is_least(tree, ray, all, n);
    let a = nearest(tree, ray, cands, m);
    let b = nearest(tree, ray, all, n);
    match b {
        Some(x) => {
            let u = choose|j: int| 0 <= j < n && strike(tree, ray, #[trigger] all[j]) == Some(x);
            assert(all[u] == u);
            if u < tree.finite().len() {
                assert(strike(tree, ray, u) is Some);
                tree.lemma_candidates_complete(&ray, u);
            } else {
                tree.lemma_candidates_unbounded(&ray, u);
            }
            let c = choose|c: int| 0 <= c < m && cands[c] == u;
            assert(strike(tree, ray, cands[c]) is Some);
            let y = a.unwrap();
            let v = choose|j: int| 0 <= j < m && strike(tree, ray, #[trigger] cands[j]) == Some(y);
            let vid = cands[v];
            assert(all[vid] == vid);
            assert(strike(tree, ray, all[vid]) is Some);
            assert(!strike(tree, ray, cands[c]).unwrap().t.below(y.t));
            assert(!strike(tree, ray, all[vid]).unwrap().t.below(x.t));
            assert(strike(tree, ray, u).unwrap().t == x.t);
            assert(strike(tree, ray, vid).unwrap().t == y.t);
        },
        None => {
            if a is Some {
                let y = a.unwrap();
                let v = choose|j: int| 0 <= j < m && strike(tree, ray, #[trigger] cands[j]) == Some(y);
                let vid = cands[v];
                assert(all[vid] == vid);
                assert(strike(tree, ray, all[vid]) is None);
            }
        },
    }
}

/// An index without primitives hands a ray nothing to hit.
pub proof fn lemma_empty_scene_has_no_hit<T: Scalar, P: Prim<T>>(tree: &Octree<P>, ray: Ray<T>)
    requires
        tree.wf(),
        tree.count() == 0,
    ensures
        ray.first_hit(tree) is None,
{
    let cands = tree.candidates(&ray);
    if cands.len() > 0 {
        tree.lemma_candidates_sound(&ray, 0);
    }
}

/// The hit parameters of a ray are always in a strict total order where the
/// scalars are fixed-point numbers.
pub proof fn lemma_fixed_hits_are_ordered<P: Prim<Fixed>>(tree: &Octree<P>, ray: Ray<Fixed>)
    ensures
        ordered_hits(tree, ray),
{
}

/// On fixed-point numbers, scanning the candidates of the index finds what
/// scanning every primitive finds, for every ray: both find nothing, or
/// both find a hit at the same distance. All that is asked is that the
/// bounds of the primitives hold.
pub proof fn lemma_index_scan_finds_nearest_exact<P: Prim<Fixed>>(tree: &Octree<P>, ray: Ray<Fixed>)
    requires
        tree.wf(),
        bounds_hold(tree, ray),
    ensures
        ray.first_hit(tree) is Some <==> nearest(
            tree,
            ray,
            run(0, 0, tree.count() as int),
            tree.count() as int,
        ) is Some,
        ray.first_hit(tree) is Some ==> ray.first_hit(tree).unwrap().t == nearest(
            tree,
            ray,
            run(0, 0, tree.count() as int),
            tree.count() as int,
        ).unwrap().t,
{
    lemma_fixed_ray_is_pointlike(&ray);
    lemma_fixed_hits_are_ordered(tree, ray);
    lemma_index_scan_finds_nearest(tree, ray);
}

} // verus!
