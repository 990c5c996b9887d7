//! The photon map: the photons that a shooting pass has stored, and the
//! search for those nearest to a point.

use crate::colorrgba::ColorRGBA;
use crate::fixed::Fixed;
use crate::scalar::Scalar;
use crate::vec3::Vec3;
use vstd::prelude::*;

verus! {

/// Light that came to rest on a surface.
#[derive(Copy, Debug)]
pub struct Photon<T> {
    pub position: Vec3<T>,
    /// The direction that the photon came from.
    pub incoming_dir: Vec3<T>,
    pub power: ColorRGBA<T>,
}

impl<T: Copy> Clone for Photon<T> {
    fn clone(&self) -> (p: Photon<T>)
        ensures
            p == *self,
    {
        Photon { position: self.position, incoming_dir: self.incoming_dir, power: self.power }
    }
}

/// A photon found by a search, with its distance to the point searched from.
#[derive(Copy, Debug)]
pub struct PhotonQuery<T> {
    pub photon: Photon<T>,
    pub distance_to_point: T,
}

impl<T: Copy> Clone for PhotonQuery<T> {
    fn clone(&self) -> (q: PhotonQuery<T>)
        ensures
            q == *self,
    {
        PhotonQuery { photon: self.photon, distance_to_point: self.distance_to_point }
    }
}

/// The stored photons. The map is not changed once it is built.
pub struct PhotonMap<T> {
    photons: Vec<Photon<T>>,
}

/// The place of the farthest among the first `k` of `found`; of several at
/// the same distance, the first. 0 if `k` is 0.
pub open spec fn farthest<T: Scalar>(found: Seq<PhotonQuery<T>>, k: int) -> int
    decreases k,
{
    if k <= 1 {
        0
    } else {
        let m = farthest(found, k - 1);
        if found[m].distance_to_point.below(found[k - 1].distance_to_point) {
            k - 1
        } else {
            m
        }
    }
}

/// What a search that keeps at most `max` photons holds after it has seen
/// `q`: while there is room `q` is added at the end; when full, `q` takes the
/// place of the farthest photon kept if it is nearer than that one.
pub open spec fn admitted<T: Scalar>(found: Seq<PhotonQuery<T>>, q: PhotonQuery<T>, max: int) -> Seq<
    PhotonQuery<T>,
> {
    if found.len() < max {
        found.push(q)
    } else if found.len() > 0 && q.distance_to_point.below(
        found[farthest(found, found.len() as int)].distance_to_point,
    ) {
        found.update(farthest(found, found.len() as int), q)
    } else {
        found
    }
}

/// The photon `p` as seen from `point`.
pub open spec fn seen_from<T: Scalar>(p: Photon<T>, point: Vec3<T>) -> PhotonQuery<T> {
    PhotonQuery { photon: p, distance_to_point: p.position.minus(point).norm() }
}

/// What a search from `point` that keeps at most `max` photons, none of them
/// at `spread` or farther, holds after the first `k` of `photons`.
pub open spec fn gathered<T: Scalar>(
    photons: Seq<Photon<T>>,
    point: Vec3<T>,
    spread: T,
    max: int,
    k: int,
) -> Seq<PhotonQuery<T>>
    decreases k,
{
    if k <= 0 {
        Seq::empty()
    } else {
        let before = gathered(photons, point, spread, max, k - 1);
        let q = seen_from(photons[k - 1], point);
        if q.distance_to_point.below(spread) {
            admitted(before, q, max)
        } else {
            before
        }
    }
}

/// How many of the first `k` of `photons` lie nearer to `point` than
/// `spread`.
pub open spec fn within<T: Scalar>(photons: Seq<Photon<T>>, point: Vec3<T>, spread: T, k: int) -> nat
    decreases k,
{
    if k <= 0 {
        0
    } else if seen_from(photons[k - 1], point).distance_to_point.below(spread) {
        within(photons, point, spread, k - 1) + 1
    } else {
        within(photons, point, spread, k - 1)
    }
}

proof fn lemma_farthest_in_range<T: Scalar>(found: Seq<PhotonQuery<T>>, k: int)
    requires
        1 <= k <= found.len(),
    ensures
        0 <= farthest(found, k) < k,
    decreases k,
{
    if k > 1 {
        lemma_farthest_in_range(found, k - 1);
    }
}

/// Whether `below` puts the scalars in a row: none lies below itself; what
/// lies below something that lies below a third lies below the third; and
/// what lies below one of two lies below the other or has the other below
/// the one.
pub open spec fn in_a_row<T: Scalar>() -> bool {
    &&& forall|a: T| !#[trigger] a.below(a)
    &&& forall|a: T, b: T, c: T|
        #![trigger a.below(b), b.below(c)]
        a.below(b) && b.below(c) ==> a.below(c)
    &&& forall|a: T, b: T, c: T|
        #![trigger a.below(c), a.below(b)]
        a.below(c) ==> a.below(b) || b.below(c)
}

/// None of the first `k` of `found` is farther than the farthest of them.
pub proof fn lemma_farthest_is_farthest<T: Scalar>(found: Seq<PhotonQuery<T>>, k: int, j: int)
    requires
        in_a_row::<T>(),
        0 <= j < k <= found.len(),
    ensures
        0 <= farthest(found, k) < k,
        !found[farthest(found, k)].distance_to_point.below(found[j].distance_to_point),
    decreases k,
{
    lemma_farthest_in_range(found, k);
    if k > 1 {
        let m = farthest(found, k - 1);
        lemma_farthest_in_range(found, k - 1);
        let last = found[k - 1].distance_to_point;
        if j < k - 1 {
            lemma_farthest_is_farthest(found, k - 1, j);
            if found[m].distance_to_point.below(last) && last.below(found[j].distance_to_point) {
                assert(found[m].distance_to_point.below(found[j].distance_to_point));
            }
        }
    }
}

/// While a search has room, it holds every photon within the spread that it
/// has seen.
pub proof fn lemma_room_keeps_all<T: Scalar>(
    photons: Seq<Photon<T>>,
    point: Vec3<T>,
    spread: T,
    max: int,
    k: int,
    j: int,
) -> (u: int)
    requires
        0 <= j < k <= photons.len(),
        seen_from(photons[j], point).distance_to_point.below(spread),
        gathered(photons, point, spread, max, k).len() < max,
    ensures
        0 <= u < gathered(photons, point, spread, max, k).len(),
        gathered(photons, point, spread, max, k)[u] == seen_from(photons[j], point),
    decreases k,
{
    let before = gathered(photons, point, spread, max, k - 1);
    let q = seen_from(photons[k - 1], point);
    if q.distance_to_point.below(spread) {
        if before.len() < max {
            if j < k - 1 {
                lemma_room_keeps_all(photons, point, spread, max, k - 1, j)
            } else {
                before.len() as int
            }
        } else {
            if before.len() > 0 {
                lemma_farthest_in_range(before, before.len() as int);
            }
            0
        }
    } else {
        lemma_room_keeps_all(photons, point, spread, max, k - 1, j)
    }
}

/// A search keeps the nearest photons: where the distances are in a row, a
/// photon within the spread that is nearer to the point than one that the
/// search holds is held itself. So no photon that was left out is nearer
/// than one that was kept.
pub proof fn lemma_gathered_are_nearest<T: Scalar>(
    photons: Seq<Photon<T>>,
    point: Vec3<T>,
    spread: T,
    max: int,
    k: int,
    j: int,
    w: int,
) -> (u: int)
    requires
        in_a_row::<T>(),
        0 <= j < k <= photons.len(),
        seen_from(photons[j], point).distance_to_point.below(spread),
        0 <= w < gathered(photons, point, spread, max, k).len(),
        seen_from(photons[j], point).distance_to_point.below(
            gathered(photons, point, spread, max, k)[w].distance_to_point,
        ),
    ensures
        0 <= u < gathered(photons, point, spread, max, k).len(),
        gathered(photons, point, spread, max, k)[u] == seen_from(photons[j], point),
    decreases k,
{
    let before = gathered(photons, point, spread, max, k - 1);
    let now = gathered(photons, point, spread, max, k);
    let q = seen_from(photons[k - 1], point);
    let mine = seen_from(photons[j], point);
    if !q.distance_to_point.below(spread) {
        lemma_gathered_are_nearest(photons, point, spread, max, k - 1, j, w)
    } else if before.len() < max {
        if j < k - 1 {
            lemma_room_keeps_all(photons, point, spread, max, k - 1, j)
        } else {
            before.len() as int
        }
    } else if before.len() == 0 {
        assert(now == before);
        0
    } else {
        let f = farthest(before, before.len() as int);
        lemma_farthest_in_range(before, before.len() as int);
        assert(now.len() == before.len());
        lemma_farthest_is_farthest(before, before.len() as int, w);
        let far = before[f].distance_to_point;
        if q.distance_to_point.below(far) {
            assert(now == before.update(f, q));
            if j == k - 1 {
                f
            } else if w == f {
                assert(mine.distance_to_point.below(q.distance_to_point));
                assert(mine.distance_to_point.below(far));
                let u = lemma_gathered_are_nearest(photons, point, spread, max, k - 1, j, f);
                if u == f {
                    assert(mine.distance_to_point.below(mine.distance_to_point));
                }
                u
            } else {
                let u = lemma_gathered_are_nearest(photons, point, spread, max, k - 1, j, w);
                if u == f {
                    assert(far.below(before[w].distance_to_point));
                }
                u
            }
        } else {
            assert(now == before);
            if j == k - 1 {
                assert(q.distance_to_point.below(before[w].distance_to_point));
                assert(q.distance_to_point.below(far) || far.below(before[w].distance_to_point));
                0
            } else {
                lemma_gathered_are_nearest(photons, point, spread, max, k - 1, j, w)
            }
        }
    }
}

/// On fixed-point numbers a search keeps the nearest photons: no photon
/// within the spread that was left out is nearer than one that was kept.
pub proof fn lemma_gathered_are_nearest_exact(
    photons: Seq<Photon<Fixed>>,
    point: Vec3<Fixed>,
    spread: Fixed,
    max: int,
    j: int,
    w: int,
) -> (u: int)
    requires
        0 <= j < photons.len(),
        seen_from(photons[j], point).distance_to_point.below(spread),
        0 <= w < gathered(photons, point, spread, max, photons.len() as int).len(),
        seen_from(photons[j], point).distance_to_point.below(
            gathered(photons, point, spread, max, photons.len() as int)[w].distance_to_point,
        ),
    ensures
        0 <= u < gathered(photons, point, spread, max, photons.len() as int).len(),
        gathered(photons, point, spread, max, photons.len() as int)[u] == seen_from(
            photons[j],
            point,
        ),
{
    assert(in_a_row::<Fixed>());
    lemma_gathered_are_nearest(photons, point, spread, max, photons.len() as int, j, w)
}

/// Every photon that a search holds is one of the photons it searched, seen
/// from the point.
pub proof fn lemma_gathered_are_stored<T: Scalar>(
    photons: Seq<Photon<T>>,
    point: Vec3<T>,
    spread: T,
    max: int,
    k: int,
    j: int,
) -> (w: int)
    requires
        0 <= k <= photons.len(),
        0 <= j < gathered(photons, point, spread, max, k).len(),
    ensures
        0 <= w < k,
        gathered(photons, point, spread, max, k)[j] == seen_from(photons[w], point),
    decreases k,
{
    let before = gathered(photons, point, spread, max, k - 1);
    let q = seen_from(photons[k - 1], point);
    if k <= 0 {
        0
    } else if q.distance_to_point.below(spread) {
        if before.len() < max {
            if j < before.len() {
                lemma_gathered_are_stored(photons, point, spread, max, k - 1, j)
            } else {
                k - 1
            }
        } else if before.len() > 0 && q.distance_to_point.below(
            before[farthest(before, before.len() as int)].distance_to_point,
        ) {
            lemma_farthest_in_range(before, before.len() as int);
            if j == farthest(before, before.len() as int) {
                k - 1
            } else {
                lemma_gathered_are_stored(photons, point, spread, max, k - 1, j)
            }
        } else {
            lemma_gathered_are_stored(photons, point, spread, max, k - 1, j)
        }
    } else {
        lemma_gathered_are_stored(photons, point, spread, max, k - 1, j)
    }
}

/// A search holds as many photons as lie within the spread, up to its limit,
/// and each of them lies within the spread.
pub proof fn lemma_gathered_len<T: Scalar>(
    photons: Seq<Photon<T>>,
    point: Vec3<T>,
    spread: T,
    max: int,
    k: int,
)
    requires
        0 <= max,
        0 <= k <= photons.len(),
    ensures
        gathered(photons, point, spread, max, k).len() == if within(photons, point, spread, k)
            < max {
            within(photons, point, spread, k) as int
        } else {
            max
        },
        forall|j: int|
            0 <= j < gathered(photons, point, spread, max, k).len() ==> (#[trigger] gathered(
                photons,
                point,
                spread,
                max,
                k,
            )[j]).distance_to_point.below(spread),
    decreases k,
{
    if k > 0 {
        lemma_gathered_len(photons, point, spread, max, k - 1);
        let before = gathered(photons, point, spread, max, k - 1);
        let q = seen_from(photons[k - 1], point);
        if q.distance_to_point.below(spread) {
            if before.len() < max {
                assert(admitted(before, q, max) == before.push(q));
            } else if before.len() > 0 {
                lemma_farthest_in_range(before, before.len() as int);
            }
            let after = admitted(before, q, max);
            assert(after == gathered(photons, point, spread, max, k));
            assert forall|j: int| 0 <= j < after.len() implies (
            #[trigger] after[j]).distance_to_point.below(spread) by {
                if before.len() < max {
                    if j < before.len() {
                        assert(after[j] == before[j]);
                    }
                } else if before.len() > 0 && q.distance_to_point.below(
                    before[farthest(before, before.len() as int)].distance_to_point,
                ) {
                    if j != farthest(before, before.len() as int) {
                        assert(after[j] == before[j]);
                    }
                } else {
                }
            }
        }
    }
}

pub(crate) fn farthest_index<T: Scalar>(found: &Vec<PhotonQuery<T>>) -> (m: usize)
    ensures
        m == farthest(found@, found.len() as int),
        found.len() > 0 ==> m < found.len(),
{
    let mut m: usize = 0;
    let mut k: usize = 1;
    while k < found.len()
        invariant
            1 <= k,
            found.len() > 0 ==> m < k && k <= found.len(),
            found.len() > 0 ==> m == farthest(found@, k as int),
            found.len() == 0 ==> m == 0,
        decreases found.len() - k,
    {
        if found[m].distance_to_point.lt(found[k].distance_to_point) {
            m = k;
        }
        k += 1;
    }
    m
}

impl<T: Scalar> PhotonMap<T> {
    /// The stored photons, in the order in which they were stored.
    pub closed spec fn stored(&self) -> Seq<Photon<T>> {
        self.photons@
    }

    /// The map of `photons`; `None` if there are none.
    pub fn new_from_photons(photons: Vec<Photon<T>>) -> (map: Option<PhotonMap<T>>)
        ensures
            match map {
                Some(m) => photons.len() > 0 && m.stored() == photons@,
                None => photons.len() == 0,
            },
    {
        if photons.len() == 0 {
            None
        } else {
            Some(PhotonMap { photons: photons })
        }
    }

    /// Adds to `heap` the photons nearer to `point` than `spread`, keeping no
    /// more than `max_photons`: the nearest ones.
    pub fn query_nearest(
        &self,
        heap: &mut Vec<PhotonQuery<T>>,
        point: Vec3<T>,
        spread: T,
        max_photons: usize,
    )
        requires
            old(heap).len() == 0,
        ensures
            final(heap)@ == gathered(
                self.stored(),
                point,
                spread,
                max_photons as int,
                self.stored().len() as int,
            ),
            final(heap).len() <= max_photons,
    {
        let mut k: usize = 0;
        while k < self.photons.len()
            invariant
                k <= self.photons.len(),
                heap@ == gathered(self.photons@, point, spread, max_photons as int, k as int),
                heap.len() <= max_photons,
            decreases self.photons.len() - k,
        {
            let p = self.photons[k];
            let q = PhotonQuery { photon: p, distance_to_point: (p.position - point).len() };
            if q.distance_to_point.lt(spread) {
                if heap.len() < max_photons {
                    heap.push(q);
                } else if heap.len() > 0 {
                    let m = farthest_index(heap);
                    if q.distance_to_point.lt(heap[m].distance_to_point) {
                        heap[m] = q;
                    }
                }
            }
            k += 1;
        }
    }
}

} // verus!
