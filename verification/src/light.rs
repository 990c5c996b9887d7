//! Light sources.

use crate::colorrgba::ColorRGBA;
use crate::sampler::Sampler;
use crate::scalar::Scalar;
use crate::vec3::Vec3;
use vstd::prelude::*;

verus! {

/// A light. Its colour, its center and its kind are functions of the light;
/// its position may be drawn anew each time it is asked for.
pub trait Light<T: Scalar> {
    spec fn tint(&self) -> ColorRGBA<T>;

    spec fn middle(&self) -> Vec3<T>;

    spec fn pointed(&self) -> bool;

    /// A point of the light, drawn with `sampler` where the light has an
    /// extent. A light without extent is at its center.
    fn position<S: Sampler<T>>(&self, sampler: &mut S) -> (p: Vec3<T>)
        ensures
            self.pointed() ==> p == self.middle(),
    ;

    fn color(&self) -> (c: ColorRGBA<T>)
        ensures
            c == self.tint(),
    ;

    /// The point that the light is shaded from; it does not move.
    fn center(&self) -> (p: Vec3<T>)
        ensures
            p == self.middle(),
    ;

    /// Whether the light has no extent, so that one shadow ray decides.
    fn is_point(&self) -> (r: bool)
        ensures
            r == self.pointed(),
    ;
}

/// A light without extent.
#[derive(Copy, Debug)]
pub struct PointLight<T> {
    pub position: Vec3<T>,
    pub color: ColorRGBA<T>,
}

impl<T: Copy> Clone for PointLight<T> {
    fn clone(&self) -> (l: PointLight<T>)
        ensures
            l == *self,
    {
        PointLight { position: self.position, color: self.color }
    }
}

impl<T: Scalar> Light<T> for PointLight<T> {
    open spec fn tint(&self) -> ColorRGBA<T> {
        self.color
    }

    open spec fn middle(&self) -> Vec3<T> {
        self.position
    }

    open spec fn pointed(&self) -> bool {
        true
    }

    fn position<S: Sampler<T>>(&self, sampler: &mut S) -> (p: Vec3<T>) {
        self.position
    }

    fn color(&self) -> (c: ColorRGBA<T>) {
        self.color
    }

    fn center(&self) -> (p: Vec3<T>) {
        self.position
    }

    fn is_point(&self) -> (r: bool) {
        true
    }
}

/// A light that fills a cube of side `radius` around `position`.
#[derive(Copy, Debug)]
pub struct SphereLight<T> {
    pub position: Vec3<T>,
    pub color: ColorRGBA<T>,
    pub radius: T,
}

impl<T: Copy> Clone for SphereLight<T> {
    fn clone(&self) -> (l: SphereLight<T>)
        ensures
            l == *self,
    {
        SphereLight { position: self.position, color: self.color, radius: self.radius }
    }
}

/// The offset along one axis for the draw `d` from `[0, 1)`: the radius times
/// `d` less a half.
pub open spec fn jitter<T: Scalar>(radius: T, d: T) -> T {
    radius.product(d.difference(T::unit().quotient(T::lift(2))))
}

impl<T: Scalar> SphereLight<T> {
    /// The point of the light for the three draws `dx`, `dy`, `dz`.
    pub open spec fn moved(&self, dx: T, dy: T, dz: T) -> Vec3<T> {
        self.position.plus(
            Vec3 {
                x: jitter(self.radius, dx),
                y: jitter(self.radius, dy),
                z: jitter(self.radius, dz),
            },
        )
    }

    /// The point of the light for three draws from `[0, 1)`.
    pub fn jittered(&self, dx: T, dy: T, dz: T) -> (p: Vec3<T>)
        ensures
            p == self.moved(dx, dy, dz),
    {
        let half = T::one().div(T::from_u32(2));
        let jitter = Vec3 {
            x: self.radius.mul(dx.sub(half)),
            y: self.radius.mul(dy.sub(half)),
            z: self.radius.mul(dz.sub(half)),
        };
        self.position + jitter
    }
}

impl<T: Scalar> Light<T> for SphereLight<T> {
    open spec fn tint(&self) -> ColorRGBA<T> {
        self.color
    }

    open spec fn middle(&self) -> Vec3<T> {
        self.position
    }

    open spec fn pointed(&self) -> bool {
        false
    }

    /// A point of the cube around the center: `moved` for three draws.
    fn position<S: Sampler<T>>(&self, sampler: &mut S) -> (p: Vec3<T>)
        ensures
            exists|dx: T, dy: T, dz: T| p == #[trigger] self.moved(dx, dy, dz),
    {
        let dx = sampler.next_unit();
        let dy = sampler.next_unit();
        let dz = sampler.next_unit();
        self.jittered(dx, dy, dz)
    }

    fn color(&self) -> (c: ColorRGBA<T>) {
        self.color
    }

    fn center(&self) -> (p: Vec3<T>) {
        self.position
    }

    fn is_point(&self) -> (r: bool) {
        false
    }
}

} // verus!
