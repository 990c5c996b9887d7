//! What the integrator asks of a surface.

use crate::colorrgba::ColorRGBA;
use crate::scalar::Scalar;
use crate::vec3::Vec3;
use vstd::prelude::*;

verus! {

/// How a surface answers light. Every answer is a function of the material
/// and the arguments.
pub trait Material<T: Scalar> {
    /// The colour that leaves towards `i` from light that arrives from `l`,
    /// at a point with normal `n` and surface coordinates `(u, v)`.
    spec fn shade(&self, n: Vec3<T>, i: Vec3<T>, l: Vec3<T>, u: T, v: T) -> ColorRGBA<T>;

    spec fn reflective(&self) -> bool;

    spec fn refractive(&self) -> bool;

    /// What the surface keeps of a reflected colour.
    spec fn specular(&self, color: ColorRGBA<T>) -> ColorRGBA<T>;

    /// What the surface keeps of a transmitted colour.
    spec fn transmissive(&self, color: ColorRGBA<T>) -> ColorRGBA<T>;

    /// The colour that the surface lets through to what lies in its shadow.
    spec fn passing(&self) -> ColorRGBA<T>;

    /// The index of refraction.
    spec fn index(&self) -> T;

    spec fn glossy(&self) -> bool;

    /// How far a glossy reflection strays from the mirror direction.
    spec fn gloss(&self) -> T;

    /// The share of arriving photons that is scattered diffusely.
    spec fn diffuse_share(&self) -> T;

    /// The share of arriving photons that is mirrored.
    spec fn specular_share(&self) -> T;

    /// The share of arriving photons that is transmitted.
    spec fn transmissive_share(&self) -> T;

    fn sample(&self, n: Vec3<T>, i: Vec3<T>, l: Vec3<T>, u: T, v: T) -> (c: ColorRGBA<T>)
        ensures
            c == self.shade(n, i, l, u, v),
    ;

    fn is_reflective(&self) -> (r: bool)
        ensures
            r == self.reflective(),
    ;

    fn is_refractive(&self) -> (r: bool)
        ensures
            r == self.refractive(),
    ;

    /// Asked of reflective materials only.
    fn global_specular(&self, color: &ColorRGBA<T>) -> (c: ColorRGBA<T>)
        requires
            self.reflective(),
        ensures
            c == self.specular(*color),
    ;

    /// Asked of refractive materials only.
    fn global_transmissive(&self, color: &ColorRGBA<T>) -> (c: ColorRGBA<T>)
        requires
            self.refractive(),
        ensures
            c == self.transmissive(*color),
    ;

    fn transmission(&self) -> (c: ColorRGBA<T>)
        ensures
            c == self.passing(),
    ;

    fn ior(&self) -> (r: T)
        ensures
            r == self.index(),
    ;

    fn is_glossy(&self) -> (r: bool)
        ensures
            r == self.glossy(),
    ;

    fn glossiness(&self) -> (r: T)
        ensures
            r == self.gloss(),
    ;

    fn p_diffuse(&self) -> (r: T)
        ensures
            r == self.diffuse_share(),
    ;

    fn p_specular(&self) -> (r: T)
        ensures
            r == self.specular_share(),
    ;

    fn p_transmit(&self) -> (r: T)
        ensures
            r == self.transmissive_share(),
    ;
}

/// A surface of one colour that ignores light: it looks the same from
/// everywhere, mirrors nothing and lets nothing through.
#[derive(Copy, Debug)]
pub struct FlatMaterial<T> {
    pub color: ColorRGBA<T>,
}

impl<T: Copy> Clone for FlatMaterial<T> {
    fn clone(&self) -> (m: FlatMaterial<T>)
        ensures
            m == *self,
    {
        FlatMaterial { color: self.color }
    }
}

impl<T: Scalar> Default for FlatMaterial<T> {
    /// A middle grey.
    fn default() -> (m: FlatMaterial<T>)
        ensures
            m.color == (ColorRGBA {
                r: T::unit().quotient(T::lift(2)),
                g: T::unit().quotient(T::lift(2)),
                b: T::unit().quotient(T::lift(2)),
                a: T::unit(),
            }),
    {
        let half = T::one().div(T::from_u32(2));
        FlatMaterial { color: ColorRGBA::new_rgb(half, half, half) }
    }
}

impl<T: Scalar> Material<T> for FlatMaterial<T> {
    open spec fn shade(&self, n: Vec3<T>, i: Vec3<T>, l: Vec3<T>, u: T, v: T) -> ColorRGBA<T> {
        self.color
    }

    open spec fn reflective(&self) -> bool {
        false
    }

    open spec fn refractive(&self) -> bool {
        false
    }

    open spec fn specular(&self, color: ColorRGBA<T>) -> ColorRGBA<T> {
        color
    }

    open spec fn transmissive(&self, color: ColorRGBA<T>) -> ColorRGBA<T> {
        color
    }

    open spec fn passing(&self) -> ColorRGBA<T> {
        ColorRGBA::<T>::dark()
    }

    open spec fn index(&self) -> T {
        T::unit()
    }

    open spec fn glossy(&self) -> bool {
        false
    }

    open spec fn gloss(&self) -> T {
        T::nil()
    }

    open spec fn diffuse_share(&self) -> T {
        T::unit()
    }

    open spec fn specular_share(&self) -> T {
        T::nil()
    }

    open spec fn transmissive_share(&self) -> T {
        T::nil()
    }

    fn sample(&self, _n: Vec3<T>, _i: Vec3<T>, _l: Vec3<T>, _u: T, _v: T) -> (c: ColorRGBA<T>) {
        self.color
    }

    fn is_reflective(&self) -> (r: bool) {
        false
    }

    fn is_refractive(&self) -> (r: bool) {
        false
    }

    fn global_specular(&self, color: &ColorRGBA<T>) -> (c: ColorRGBA<T>) {
        *color
    }

    fn global_transmissive(&self, color: &ColorRGBA<T>) -> (c: ColorRGBA<T>) {
        *color
    }

    fn transmission(&self) -> (c: ColorRGBA<T>) {
        ColorRGBA::black()
    }

    fn ior(&self) -> (r: T) {
        T::one()
    }

    fn is_glossy(&self) -> (r: bool) {
        false
    }

    fn glossiness(&self) -> (r: T) {
        T::zero()
    }

    fn p_diffuse(&self) -> (r: T) {
        T::one()
    }

    fn p_specular(&self) -> (r: T) {
        T::zero()
    }

    fn p_transmit(&self) -> (r: T) {
        T::zero()
    }
}

/// A colour for each point of a surface. The colour is a function of the
/// surface coordinates.
pub trait Texture<T: Scalar> {
    spec fn shown(&self, u: T, v: T) -> ColorRGBA<T>;

    fn color(&self, u: T, v: T) -> (c: ColorRGBA<T>)
        ensures
            c == self.shown(u, v),
    ;
}

/// Shows the surface coordinates: `u` as red and `v` as green, each taken
/// within one repeat of the pattern.
#[derive(Clone, Copy, Debug)]
pub struct UVTexture;

impl<T: Scalar> Texture<T> for UVTexture {
    open spec fn shown(&self, u: T, v: T) -> ColorRGBA<T> {
        ColorRGBA { r: u.remainder(T::unit()), g: v.remainder(T::unit()), b: T::nil(), a: T::unit() }
    }

    fn color(&self, u: T, v: T) -> (c: ColorRGBA<T>) {
        ColorRGBA::new_rgb(u.rem(T::one()), v.rem(T::one()), T::zero())
    }
}

} // verus!
