//! Triangles on a sphere that are split into smaller ones, and a painter
//! that colours them from a picture of the sphere.

use crate::colorrgba::ColorRGBA;
use crate::scalar::Scalar;
use crate::surface::Surface;
use crate::vec3::Vec3;
use vstd::prelude::*;

verus! {

/// Three corners, without a material.
#[derive(Copy, Debug)]
pub struct PureTriangle<T>(pub Vec3<T>, pub Vec3<T>, pub Vec3<T>);

impl<T: Copy> Clone for PureTriangle<T> {
    fn clone(&self) -> (t: PureTriangle<T>)
        ensures
            t == *self,
    {
        PureTriangle(self.0, self.1, self.2)
    }
}

impl<T: Scalar> PureTriangle<T> {
    /// The point halfway between `a` and `b`.
    pub open spec fn halfway(a: Vec3<T>, b: Vec3<T>) -> Vec3<T> {
        a.plus(b).shrunk(T::lift(2))
    }

    /// One of the four triangles that the midpoints of the sides cut the
    /// triangle into: part 0 keeps the first corner, part 1 the second,
    /// part 2 the third, and part 3 is the one in the middle.
    pub open spec fn part(self, k: int) -> PureTriangle<T> {
        let ab = Self::halfway(self.0, self.1);
        let ac = Self::halfway(self.0, self.2);
        let bc = Self::halfway(self.1, self.2);
        if k == 0 {
            PureTriangle(self.0, ab, ac)
        } else if k == 1 {
            PureTriangle(ab, self.1, bc)
        } else if k == 2 {
            PureTriangle(ac, bc, self.2)
        } else {
            PureTriangle(ab, ac, bc)
        }
    }

    /// The triangle with each corner moved to distance `radius` from the
    /// origin.
    pub open spec fn resized(self, radius: T) -> PureTriangle<T> {
        PureTriangle(
            self.0.scaled(radius.quotient(self.0.norm())),
            self.1.scaled(radius.quotient(self.1.norm())),
            self.2.scaled(radius.quotient(self.2.norm())),
        )
    }

    /// The mean of the three corners.
    pub open spec fn middle(self) -> Vec3<T> {
        self.0.plus(self.1).plus(self.2).shrunk(T::lift(3))
    }

    /// The three corners, each moved by `center`.
    pub fn to_3vec3(&self, center: Vec3<T>) -> (r: (Vec3<T>, Vec3<T>, Vec3<T>))
        ensures
            r == (self.0.plus(center), self.1.plus(center), self.2.plus(center)),
    {
        (self.0 + center, self.1 + center, self.2 + center)
    }

    /// The four triangles that the midpoints of the sides cut the triangle
    /// into.
    pub fn split(&self) -> (r: [PureTriangle<T>; 4])
        ensures
            forall|k: int| 0 <= k < 4 ==> #[trigger] r[k] == self.part(k),
    {
        //      a
        //      /\              /\
        //   ab/  \ac  -->     /__\
        //    /    \          /\  /\
        //   /______\        /__\/__\
        // b    bc    c
        let (a, b, c) = (self.0, self.1, self.2);
        let two = T::from_u32(2);
        let ab = (a + b) / two;
        let ac = (a + c) / two;
        let bc = (b + c) / two;
        [PureTriangle(a, ab, ac), PureTriangle(ab, b, bc), PureTriangle(ac, bc, c), PureTriangle(ab, ac, bc)]
    }

    /// The triangle with each corner moved to distance `radius` from the
    /// origin.
    pub fn set_radius(&self, radius: T) -> (r: PureTriangle<T>)
        ensures
            r == self.resized(radius),
    {
        PureTriangle(
            self.0 * radius.div(self.0.len()),
            self.1 * radius.div(self.1.len()),
            self.2 * radius.div(self.2.len()),
        )
    }

    /// The mean of the three corners.
    pub fn center(&self) -> (r: Vec3<T>)
        ensures
            r == self.middle(),
    {
        (self.0 + self.1 + self.2) / T::from_u32(3)
    }
}

/// Whether `path` names a triangle: a face first, then parts.
pub open spec fn walkable(faces: int, path: Seq<u8>) -> bool {
    &&& path.len() > 0
    &&& path[0] < faces
    &&& forall|i: int| 1 <= i < path.len() ==> #[trigger] path[i] < 4
}

/// The triangle that the first `n` steps of `path` lead to: the face that
/// the first step names, then of each triangle the part that the next step
/// names.
pub open spec fn walked<T: Scalar>(faces: Seq<PureTriangle<T>>, path: Seq<u8>, n: int) -> PureTriangle<T>
    decreases n,
{
    if n <= 1 {
        faces[path[0] as int]
    } else {
        walked(faces, path, n - 1).part(path[n - 1] as int)
    }
}

/// The triangle that `path` names among `faces` and their parts.
pub fn path_to_triangle<T: Scalar>(faces: &[PureTriangle<T>], path: &[u8]) -> (r: PureTriangle<T>)
    requires
        walkable(faces@.len() as int, path@),
    ensures
        r == walked(faces@, path@, path@.len() as int),
{
    let mut triangle = faces[path[0] as usize];
    let mut i: usize = 1;
    while i < path.len()
        invariant
            1 <= i <= path.len(),
            walkable(faces@.len() as int, path@),
            triangle == walked(faces@, path@, i as int),
        decreases path.len() - i,
    {
        let parts = triangle.split();
        triangle = parts[path[i] as usize];
        i += 1;
    }
    triangle
}

/// The four parts of the triangle `t` that `path` names, each with its own
/// path: that of `t`, and the number of the part.
pub open spec fn children<T: Scalar>(path: Seq<u8>, t: PureTriangle<T>) -> Seq<
    (Seq<u8>, PureTriangle<T>),
> {
    Seq::new(4, |k: int| (path.push(k as u8), t.part(k)))
}

/// The stack of triangles once the triangle on top has a path of
/// `max_depth` steps: while the path of the top is shorter, the top is
/// taken off and its four parts are put on, the last part on top.
pub open spec fn settled<T: Scalar>(stack: Seq<(Seq<u8>, PureTriangle<T>)>, max_depth: int) -> Seq<
    (Seq<u8>, PureTriangle<T>),
>
    decreases
            (if stack.len() > 0 && stack.last().0.len() < max_depth {
                max_depth - stack.last().0.len()
            } else {
                0
            }),
{
    if stack.len() > 0 && stack.last().0.len() < max_depth {
        settled(stack.drop_last() + children(stack.last().0, stack.last().1), max_depth)
    } else {
        stack
    }
}

/// The triangles of `raw` with the steps of their paths.
pub open spec fn seen<T>(raw: Seq<(Vec<u8>, PureTriangle<T>)>) -> Seq<(Seq<u8>, PureTriangle<T>)> {
    Seq::new(raw.len(), |k: int| (raw[k].0@, raw[k].1))
}

/// The path `path` with the step `symbol` behind it.
fn extended(path: &Vec<u8>, symbol: u8) -> (r: Vec<u8>)
    requires
        path.len() < usize::MAX,
    ensures
        r@ == path@.push(symbol),
{
    let mut r: Vec<u8> = Vec::new();
    let mut i: usize = 0;
    while i < path.len()
        invariant
            i <= path.len(),
            r@ == path@.take(i as int),
        decreases path.len() - i,
    {
        r.push(path[i]);
        proof {
            assert(path@.take(i + 1) =~= path@.take(i as int).push(path@[i as int]));
        }
        i += 1;
    }
    proof {
        assert(path@.take(path.len() as int) =~= path@);
    }
    r.push(symbol);
    r
}

/// Hands out the triangles that the faces of a solid come to when each is
/// split `max_depth - 1` times, each with the path that names it.
pub struct BaseIcosahedronIter<T> {
    radius: T,
    max_depth: i32,
    face_stack: Vec<(Vec<u8>, PureTriangle<T>)>,
}

impl<T: Scalar> BaseIcosahedronIter<T> {
    /// The triangles that are still to be split or handed out, the next one
    /// last, each with its path.
    pub closed spec fn stack(&self) -> Seq<(Seq<u8>, PureTriangle<T>)> {
        seen(self.face_stack@)
    }

    /// How many steps the path of a triangle has that is handed out.
    pub closed spec fn depth(&self) -> int {
        self.max_depth as int
    }

    /// The radius that the solid was asked for.
    pub closed spec fn size(&self) -> T {
        self.radius
    }

    /// Starts with the faces of the solid, each under the path of its own
    /// number, the last face on top.
    pub fn new(faces: &[PureTriangle<T>], radius: T, max_depth: i32) -> (it: BaseIcosahedronIter<T>)
        requires
            faces@.len() <= 256,
        ensures
            it.stack() == Seq::new(faces@.len(), |k: int| (seq![k as u8], faces@[k])),
            it.depth() == max_depth,
            it.size() == radius,
    {
        let mut face_stack: Vec<(Vec<u8>, PureTriangle<T>)> = Vec::new();
        let mut symbol: usize = 0;
        while symbol < faces.len()
            invariant
                symbol <= faces@.len() <= 256,
                face_stack@.len() == symbol,
                forall|k: int|
                    0 <= k < symbol ==> #[trigger] seen(face_stack@)[k] == (seq![k as u8], faces@[k]),
            decreases faces@.len() - symbol,
        {
            let ghost before = face_stack@;
            let mut path: Vec<u8> = Vec::new();
            path.push(symbol as u8);
            face_stack.push((path, faces[symbol]));
            proof {
                assert(path@ =~= seq![symbol as u8]);
                assert(face_stack@ == before.push((path, faces@[symbol as int])));
                assert forall|k: int| 0 <= k < symbol implies seen(face_stack@)[k] == seen(before)[k] by {
                    assert(face_stack@[k] == before[k]);
                }
                assert(seen(face_stack@)[symbol as int] == (path@, faces@[symbol as int]));
                assert forall|k: int| 0 <= k < symbol + 1 implies #[trigger] seen(face_stack@)[k] == (
                    seq![k as u8],
                    faces@[k],
                ) by {
                    if k < symbol {
                        assert(seen(before)[k] == (seq![k as u8], faces@[k]));
                    } else {
                        assert(path@ == seq![k as u8]);
                    }
                }
            }
            symbol += 1;
        }
        proof {
            assert(seen(face_stack@) =~= Seq::new(faces@.len(), |k: int| (seq![k as u8], faces@[k])));
        }
        BaseIcosahedronIter { radius: radius, max_depth: max_depth, face_stack: face_stack }
    }

    /// The radius that the solid was asked for.
    pub fn radius(&self) -> (r: T)
        ensures
            r == self.size(),
    {
        self.radius
    }

    /// The next triangle with its path: the top of the stack once it has
    /// settled. None when the stack is empty.
    pub fn next(&mut self) -> (r: Option<(Vec<u8>, PureTriangle<T>)>)
        requires
            old(self).depth() >= 0,
        ensures
            final(self).depth() == old(self).depth(),
            final(self).size() == old(self).size(),
            match r {
                None => {
                    &&& settled(old(self).stack(), old(self).depth()).len() == 0
                    &&& final(self).stack().len() == 0
                },
                Some(e) => {
                    let s = settled(old(self).stack(), old(self).depth());
                    &&& s.len() > 0
                    &&& (e.0@, e.1) == s.last()
                    &&& final(self).stack() == s.drop_last()
                },
            },
    {
        loop
            invariant
                self.max_depth == old(self).max_depth,
                self.max_depth >= 0,
                self.radius == old(self).radius,
                settled(self.stack(), self.depth()) == settled(old(self).stack(), old(self).depth()),
            decreases
                    (if self.stack().len() > 0 && self.stack().last().0.len() < self.depth() {
                        self.depth() - self.stack().last().0.len()
                    } else {
                        0
                    }),
        {
            let ghost start = self.stack();
            let ghost raw = self.face_stack@;
            let (path, trixel) = match self.face_stack.pop() {
                Some(face_data) => face_data,
                None => {
                    proof {
                        assert(start.len() == 0);
                    }
                    return None;
                },
            };
            proof {
                assert(self.face_stack@ == raw.drop_last());
                assert(self.stack() =~= start.drop_last());
                assert(start.last() == (path@, trixel));
            }
            if path.len() < self.max_depth as usize {
                let parts = trixel.split();
                let mut symbol: usize = 0;
                while symbol < 4
                    invariant
                        symbol <= 4,
                        start.len() > 0,
                        path.len() < self.max_depth,
                        self.max_depth == old(self).max_depth,
                        self.radius == old(self).radius,
                        forall|k: int| 0 <= k < 4 ==> #[trigger] parts[k] == trixel.part(k),
                        self.stack() == start.drop_last() + children(path@, trixel).take(symbol as int),
                    decreases 4 - symbol,
                {
                    let ghost sofar = self.face_stack@;
                    let new_path = extended(&path, symbol as u8);
                    self.face_stack.push((new_path, parts[symbol]));
                    proof {
                        assert(self.face_stack@ == sofar.push((new_path, parts[symbol as int])));
                        assert(seen(self.face_stack@) =~= seen(sofar).push(
                            (new_path@, parts[symbol as int]),
                        ));
                        assert(children(path@, trixel).take(symbol + 1) =~= children(path@, trixel).take(
                            symbol as int,
                        ).push((path@.push(symbol as u8), trixel.part(symbol as int))));
                        assert(self.stack() =~= start.drop_last() + children(path@, trixel).take(
                            symbol + 1,
                        ));
                    }
                    symbol += 1;
                }
                proof {
                    assert(children(path@, trixel).take(4) =~= children(path@, trixel));
                    assert(self.stack().last() == children(path@, trixel)[3]);
                }
            } else {
                proof {
                    assert(settled(start, self.depth()) == start);
                }
                return Some((path, trixel));
            }
        }
    }
}

/// A level that is not below 0, as a place in a row or column.
pub open spec fn from_zero(level: i32) -> int {
    if level < 0 {
        0
    } else {
        level as int
    }
}

/// Colours a triangle with the pixel of a picture of the whole sphere that
/// shows the middle of the triangle.
pub struct TexturePainter {
    surface: Surface,
}

impl TexturePainter {
    /// The picture that the painter takes its colours from.
    pub closed spec fn picture(&self) -> Surface {
        self.surface
    }

    /// The pixel of a picture of `width` by `height` pixels that shows the
    /// direction `towards`: the columns run over the longitudes from -180
    /// to 180 degrees, the rows over the latitudes from -90 to 90.
    pub open spec fn place<T: Scalar>(width: int, height: int, towards: Vec3<T>) -> (int, int) {
        let sw = T::lift(width - 1);
        let sh = T::lift(height - 1);
        let lat = T::lift(90).difference(towards.z.quotient(towards.norm()).arc_cosine().degrees());
        let lon = towards.y.arc_tangent(towards.x).degrees();
        (
            from_zero(sw.product(lon.sum(T::lift(180))).quotient(T::lift(360)).nearest()),
            from_zero(sh.product(lat.sum(T::lift(90))).quotient(T::lift(180)).nearest()),
        )
    }

    /// Whether the picture has a pixel for the direction `towards`.
    pub open spec fn shows<T: Scalar>(&self, towards: Vec3<T>) -> bool {
        let (x, y) = Self::place(self.picture().width as int, self.picture().height as int, towards);
        x < self.picture().width && y < self.picture().height
    }

    /// The colour of the picture in the direction `towards`.
    pub open spec fn seen<T: Scalar>(&self, towards: Vec3<T>) -> ColorRGBA<T> {
        let (x, y) = Self::place(self.picture().width as int, self.picture().height as int, towards);
        let pixel = self.picture().pixel(x, y);
        ColorRGBA {
            r: T::lift(pixel.r as int).quotient(T::lift(255)),
            g: T::lift(pixel.g as int).quotient(T::lift(255)),
            b: T::lift(pixel.b as int).quotient(T::lift(255)),
            a: T::lift(pixel.a as int).quotient(T::lift(255)),
        }
    }

    pub fn new(surface: Surface) -> (painter: TexturePainter)
        ensures
            painter.picture() == surface,
    {
        TexturePainter { surface: surface }
    }

    /// The picture that the painter takes its colours from.
    pub fn surface(&self) -> (s: &Surface)
        ensures
            *s == self.picture(),
    {
        &self.surface
    }

    /// The pixel that shows the direction `towards`. The picture is no wider
    /// and no higher than a camera makes one.
    pub fn pixel_towards<T: Scalar>(&self, towards: Vec3<T>) -> (r: (usize, usize))
        requires
            0 < self.picture().width <= u32::MAX,
            0 < self.picture().height <= u32::MAX,
        ensures
            (r.0 as int, r.1 as int) == Self::place(
                self.picture().width as int,
                self.picture().height as int,
                towards,
            ),
    {
        let sw = T::from_u32((self.surface.width - 1) as u32);
        let sh = T::from_u32((self.surface.height - 1) as u32);
        let lat = T::from_u32(90).sub(towards.z.div(towards.len()).acos().to_degrees());
        let lon = towards.y.atan2(towards.x).to_degrees();
        let x: i32 = sw.mul(lon.add(T::from_u32(180))).div(T::from_u32(360)).round();
        let y: i32 = sh.mul(lat.add(T::from_u32(90))).div(T::from_u32(180)).round();
        (
            if x < 0 {
                0
            } else {
                x as usize
            },
            if y < 0 {
                0
            } else {
                y as usize
            },
        )
    }

    /// The colour for the triangle that `path` names among `faces` and
    /// their parts: that of the pixel that shows the middle of the triangle.
    pub fn get_color<T: Scalar>(&self, faces: &[PureTriangle<T>], path: &[u8]) -> (c: ColorRGBA<T>)
        requires
            walkable(faces@.len() as int, path@),
            self.picture().wf(),
            0 < self.picture().width <= u32::MAX,
            0 < self.picture().height <= u32::MAX,
            self.shows(walked(faces@, path@, path@.len() as int).middle()),
        ensures
            c == self.seen(walked(faces@, path@, path@.len() as int).middle()),
    {
        let triangle = path_to_triangle(faces, path);
        let avg = triangle.center();
        let (x, y) = self.pixel_towards(avg);
        self.surface.get(x, y).channel_f64()
    }
}

} // verus!
