//! Colours: four or three channels of one channel type.
//!
//! Stored pixels have `u8` channels, whose sums and differences stop at the
//! ends of the range. Radiance has [`Scalar`] channels, which run from 0 to 1
//! and are not cut off until a pixel is stored.

use crate::scalar::Scalar;
use core::ops::{Add, Mul, Sub};
use vstd::prelude::*;
use vstd::std_specs::ops::{AddSpecImpl, MulSpecImpl, SubSpecImpl};

verus! {

/// What a colour needs of its channel type: the two ends of the range, and
/// how two channel values are added and subtracted.
pub trait Channel: Sized + Copy {
    /// The value of a channel that is fully off.
    spec fn lowest() -> Self;

    /// The value of a channel that is fully on.
    spec fn highest() -> Self;

    spec fn plus(a: Self, b: Self) -> Self;

    spec fn minus(a: Self, b: Self) -> Self;

    fn min_value() -> (r: Self)
        ensures
            r == Self::lowest(),
    ;

    fn max_value() -> (r: Self)
        ensures
            r == Self::highest(),
    ;

    fn add(a: Self, b: Self) -> (r: Self)
        ensures
            r == Self::plus(a, b),
    ;

    fn sub(a: Self, b: Self) -> (r: Self)
        ensures
            r == Self::minus(a, b),
    ;
}

impl Channel for u8 {
    open spec fn lowest() -> u8 {
        0u8
    }

    open spec fn highest() -> u8 {
        255u8
    }

    open spec fn plus(a: u8, b: u8) -> u8 {
        if a + b > 255 {
            255u8
        } else {
            (a + b) as u8
        }
    }

    open spec fn minus(a: u8, b: u8) -> u8 {
        if a < b {
            0u8
        } else {
            (a - b) as u8
        }
    }

    #[inline]
    fn min_value() -> (r: u8) {
        0
    }

    #[inline]
    fn max_value() -> (r: u8) {
        255
    }

    #[inline]
    fn add(a: u8, b: u8) -> (r: u8) {
        if a > 255 - b {
            255
        } else {
            a + b
        }
    }

    #[inline]
    fn sub(a: u8, b: u8) -> (r: u8) {
        if a < b {
            0
        } else {
            a - b
        }
    }
}

impl<T: Scalar> Channel for T {
    open spec fn lowest() -> T {
        T::nil()
    }

    open spec fn highest() -> T {
        T::unit()
    }

    open spec fn plus(a: T, b: T) -> T {
        a.sum(b)
    }

    open spec fn minus(a: T, b: T) -> T {
        a.difference(b)
    }

    #[inline]
    fn min_value() -> (r: T) {
        T::zero()
    }

    #[inline]
    fn max_value() -> (r: T) {
        T::one()
    }

    #[inline]
    fn add(a: T, b: T) -> (r: T) {
        Scalar::add(a, b)
    }

    #[inline]
    fn sub(a: T, b: T) -> (r: T) {
        Scalar::sub(a, b)
    }
}

/// `value` brought into `[min_value, max_value]`.
pub open spec fn clamped(value: int, min_value: int, max_value: int) -> int {
    if value < min_value {
        min_value
    } else if max_value < value {
        max_value
    } else {
        value
    }
}

/// Brings `value` into `[min_value, max_value]`. Where the bounds cross, the
/// lower bound is tested first.
pub fn clamp(value: i32, min_value: i32, max_value: i32) -> (r: i32)
    ensures
        r == clamped(value as int, min_value as int, max_value as int),
{
    if value < min_value {
        return min_value;
    }
    if max_value < value {
        return max_value;
    }
    value
}

/// The stored level of a channel whose intensity times 255 rounds to `level`.
pub open spec fn level_of(level: i32) -> u8 {
    clamped(level as int, 0, 255) as u8
}

/// The stored level of the intensity `c`: `c` times 255, rounded, cut off at
/// 0 and 255.
pub open spec fn quantized<T: Scalar>(c: T) -> u8 {
    level_of(c.product(T::lift(255)).nearest())
}

fn quantize<T: Scalar>(c: T) -> (r: u8)
    ensures
        r == quantized(c),
{
    let level: i32 = c.mul(T::from_u32(255)).round();
    let cut: i32 = clamp(level, 0, 255);
    cut as u8
}

/// The intensity `c` brought into `[min_value, max_value]`, the lower bound
/// tested first.
pub open spec fn scalar_clamped<T: Scalar>(c: T, min_value: T, max_value: T) -> T {
    if c.below(min_value) {
        min_value
    } else if max_value.below(c) {
        max_value
    } else {
        c
    }
}

fn scalar_clamp<T: Scalar>(c: T, min_value: T, max_value: T) -> (r: T)
    ensures
        r == scalar_clamped(c, min_value, max_value),
{
    if c.lt(min_value) {
        return min_value;
    }
    if max_value.lt(c) {
        return max_value;
    }
    c
}

/// A colour with an alpha channel.
#[derive(Copy, Debug)]
pub struct ColorRGBA<T> {
    pub r: T,
    pub g: T,
    pub b: T,
    pub a: T,
}

impl<T: Copy> Clone for ColorRGBA<T> {
    fn clone(&self) -> (c: ColorRGBA<T>)
        ensures
            c == *self,
    {
        ColorRGBA { r: self.r, g: self.g, b: self.b, a: self.a }
    }
}

impl ColorRGBA<u8> {
    /// The pixel that stores the intensities `r`, `g`, `b`, fully opaque.
    pub fn new_rgb_clamped<T: Scalar>(r: T, g: T, b: T) -> (c: ColorRGBA<u8>)
        ensures
            c == (ColorRGBA { r: quantized(r), g: quantized(g), b: quantized(b), a: 255u8 }),
    {
        ColorRGBA::new_rgb(quantize(r), quantize(g), quantize(b))
    }
}

impl<T: Scalar> ColorRGBA<T> {
    /// Every channel, alpha too, brought into `[min_value, max_value]`.
    pub fn custom_clamp(&self, min_value: T, max_value: T) -> (c: ColorRGBA<T>)
        ensures
            c == (ColorRGBA {
                r: scalar_clamped(self.r, min_value, max_value),
                g: scalar_clamped(self.g, min_value, max_value),
                b: scalar_clamped(self.b, min_value, max_value),
                a: scalar_clamped(self.a, min_value, max_value),
            }),
    {
        ColorRGBA {
            r: scalar_clamp(self.r, min_value, max_value),
            g: scalar_clamp(self.g, min_value, max_value),
            b: scalar_clamp(self.b, min_value, max_value),
            a: scalar_clamp(self.a, min_value, max_value),
        }
    }

    /// Every channel brought into `[0, 1]`.
    pub open spec fn clamped(self) -> ColorRGBA<T> {
        ColorRGBA {
            r: scalar_clamped(self.r, T::nil(), T::unit()),
            g: scalar_clamped(self.g, T::nil(), T::unit()),
            b: scalar_clamped(self.b, T::nil(), T::unit()),
            a: scalar_clamped(self.a, T::nil(), T::unit()),
        }
    }

    /// Every channel brought into `[0, 1]`.
    pub fn clamp(&self) -> (c: ColorRGBA<T>)
        ensures
            c == self.clamped(),
    {
        self.custom_clamp(T::zero(), T::one())
    }

    /// The pixel that stores this colour: alpha is dropped, the pixel is
    /// opaque.
    pub open spec fn stored(self) -> ColorRGBA<u8> {
        ColorRGBA { r: quantized(self.r), g: quantized(self.g), b: quantized(self.b), a: 255u8 }
    }

    /// The pixel that stores this colour.
    pub fn into_rgba8888_noalpha(&self) -> (c: ColorRGBA<u8>)
        ensures
            c == self.stored(),
    {
        ColorRGBA::new_rgb_clamped(self.r, self.g, self.b)
    }

    /// Each colour channel times `k`; alpha unchanged.
    pub open spec fn scaled(self, k: T) -> ColorRGBA<T> {
        ColorRGBA { r: self.r.product(k), g: self.g.product(k), b: self.b.product(k), a: self.a }
    }

    /// Channel by channel product, alpha included.
    pub open spec fn times(self, other: ColorRGBA<T>) -> ColorRGBA<T> {
        ColorRGBA {
            r: self.r.product(other.r),
            g: self.g.product(other.g),
            b: self.b.product(other.b),
            a: self.a.product(other.a),
        }
    }
}

impl<T: Channel> ColorRGBA<T> {
    pub fn new_rgba(r: T, g: T, b: T, a: T) -> (c: ColorRGBA<T>)
        ensures
            c == (ColorRGBA { r, g, b, a }),
    {
        ColorRGBA { r: r, g: g, b: b, a: a }
    }

    /// An opaque colour.
    pub fn new_rgb(r: T, g: T, b: T) -> (c: ColorRGBA<T>)
        ensures
            c == (ColorRGBA { r, g, b, a: T::highest() }),
    {
        ColorRGBA { r: r, g: g, b: b, a: T::max_value() }
    }

    /// Opaque black.
    pub open spec fn dark() -> ColorRGBA<T> {
        ColorRGBA { r: T::lowest(), g: T::lowest(), b: T::lowest(), a: T::highest() }
    }

    /// Opaque white.
    pub open spec fn bright() -> ColorRGBA<T> {
        ColorRGBA { r: T::highest(), g: T::highest(), b: T::highest(), a: T::highest() }
    }

    pub fn black() -> (c: ColorRGBA<T>)
        ensures
            c == Self::dark(),
    {
        ColorRGBA::new_rgb(T::min_value(), T::min_value(), T::min_value())
    }

    pub fn white() -> (c: ColorRGBA<T>)
        ensures
            c == Self::bright(),
    {
        ColorRGBA::new_rgb(T::max_value(), T::max_value(), T::max_value())
    }

    /// Black with alpha fully off.
    pub fn transparent() -> (c: ColorRGBA<T>)
        ensures
            c == (ColorRGBA { r: T::lowest(), g: T::lowest(), b: T::lowest(), a: T::lowest() }),
    {
        ColorRGBA::new_rgba(T::min_value(), T::min_value(), T::min_value(), T::min_value())
    }

    /// Channel by channel sum, alpha included.
    pub open spec fn added(self, other: ColorRGBA<T>) -> ColorRGBA<T> {
        ColorRGBA {
            r: T::plus(self.r, other.r),
            g: T::plus(self.g, other.g),
            b: T::plus(self.b, other.b),
            a: T::plus(self.a, other.a),
        }
    }

    /// Channel by channel difference, alpha included.
    pub open spec fn subtracted(self, other: ColorRGBA<T>) -> ColorRGBA<T> {
        ColorRGBA {
            r: T::minus(self.r, other.r),
            g: T::minus(self.g, other.g),
            b: T::minus(self.b, other.b),
            a: T::minus(self.a, other.a),
        }
    }
}

impl ColorRGBA<u8> {
    /// The intensities of a stored pixel: each level divided by 255.
    pub fn channel_f64<T: Scalar>(&self) -> (c: ColorRGBA<T>)
        ensures
            c == (ColorRGBA {
                r: T::lift(self.r as int).quotient(T::lift(255)),
                g: T::lift(self.g as int).quotient(T::lift(255)),
                b: T::lift(self.b as int).quotient(T::lift(255)),
                a: T::lift(self.a as int).quotient(T::lift(255)),
            }),
    {
        let max_val: T = T::from_u32(255);
        ColorRGBA {
            r: T::from_u32(self.r as u32).div(max_val),
            g: T::from_u32(self.g as u32).div(max_val),
            b: T::from_u32(self.b as u32).div(max_val),
            a: T::from_u32(self.a as u32).div(max_val),
        }
    }
}

impl<T: Channel> Add for ColorRGBA<T> {
    type Output = ColorRGBA<T>;

    fn add(self, other: ColorRGBA<T>) -> (c: ColorRGBA<T>) {
        ColorRGBA {
            r: T::add(self.r, other.r),
            g: T::add(self.g, other.g),
            b: T::add(self.b, other.b),
            a: T::add(self.a, other.a),
        }
    }
}

impl<T: Channel> AddSpecImpl for ColorRGBA<T> {
    open spec fn obeys_add_spec() -> bool {
        true
    }

    open spec fn add_req(self, other: ColorRGBA<T>) -> bool {
        true
    }

    open spec fn add_spec(self, other: ColorRGBA<T>) -> ColorRGBA<T> {
        self.added(other)
    }
}

impl<T: Channel> Sub for ColorRGBA<T> {
    type Output = ColorRGBA<T>;

    fn sub(self, other: ColorRGBA<T>) -> (c: ColorRGBA<T>) {
        ColorRGBA {
            r: T::sub(self.r, other.r),
            g: T::sub(self.g, other.g),
            b: T::sub(self.b, other.b),
            a: T::sub(self.a, other.a),
        }
    }
}

impl<T: Channel> SubSpecImpl for ColorRGBA<T> {
    open spec fn obeys_sub_spec() -> bool {
        true
    }

    open spec fn sub_req(self, other: ColorRGBA<T>) -> bool {
        true
    }

    open spec fn sub_spec(self, other: ColorRGBA<T>) -> ColorRGBA<T> {
        self.subtracted(other)
    }
}

impl<T: Scalar> Mul for ColorRGBA<T> {
    type Output = ColorRGBA<T>;

    fn mul(self, other: ColorRGBA<T>) -> (c: ColorRGBA<T>) {
        ColorRGBA {
            r: self.r.mul(other.r),
            g: self.g.mul(other.g),
            b: self.b.mul(other.b),
            a: self.a.mul(other.a),
        }
    }
}

impl<T: Scalar> MulSpecImpl for ColorRGBA<T> {
    open spec fn obeys_mul_spec() -> bool {
        true
    }

    open spec fn mul_req(self, other: ColorRGBA<T>) -> bool {
        true
    }

    open spec fn mul_spec(self, other: ColorRGBA<T>) -> ColorRGBA<T> {
        self.times(other)
    }
}

impl<T: Scalar> Mul<T> for ColorRGBA<T> {
    type Output = ColorRGBA<T>;

    fn mul(self, other: T) -> (c: ColorRGBA<T>) {
        ColorRGBA { r: self.r.mul(other), g: self.g.mul(other), b: self.b.mul(other), a: self.a }
    }
}

impl<T: Scalar> MulSpecImpl<T> for ColorRGBA<T> {
    open spec fn obeys_mul_spec() -> bool {
        true
    }

    open spec fn mul_req(self, other: T) -> bool {
        true
    }

    open spec fn mul_spec(self, other: T) -> ColorRGBA<T> {
        self.scaled(other)
    }
}

/// A colour without an alpha channel.
#[derive(Copy, Debug)]
pub struct ColorRGB<T> {
    pub r: T,
    pub g: T,
    pub b: T,
}

impl<T: Copy> Clone for ColorRGB<T> {
    fn clone(&self) -> (c: ColorRGB<T>)
        ensures
            c == *self,
    {
        ColorRGB { r: self.r, g: self.g, b: self.b }
    }
}

impl ColorRGB<u8> {
    /// The pixel that stores the intensities `r`, `g`, `b`.
    pub fn new_rgb_clamped<T: Scalar>(r: T, g: T, b: T) -> (c: ColorRGB<u8>)
        ensures
            c == (ColorRGB { r: quantized(r), g: quantized(g), b: quantized(b) }),
    {
        ColorRGB::new_rgb(quantize(r), quantize(g), quantize(b))
    }

    /// The intensities of a stored pixel: each level divided by 255.
    pub fn channel_f64<T: Scalar>(&self) -> (c: ColorRGB<T>)
        ensures
            c == (ColorRGB {
                r: T::lift(self.r as int).quotient(T::lift(255)),
                g: T::lift(self.g as int).quotient(T::lift(255)),
                b: T::lift(self.b as int).quotient(T::lift(255)),
            }),
    {
        let max_val: T = T::from_u32(255);
        ColorRGB {
            r: T::from_u32(self.r as u32).div(max_val),
            g: T::from_u32(self.g as u32).div(max_val),
            b: T::from_u32(self.b as u32).div(max_val),
        }
    }
}

impl<T: Channel> ColorRGB<T> {
    pub fn new_rgb(r: T, g: T, b: T) -> (c: ColorRGB<T>)
        ensures
            c == (ColorRGB { r, g, b }),
    {
        ColorRGB { r: r, g: g, b: b }
    }

    pub fn black() -> (c: ColorRGB<T>)
        ensures
            c == (ColorRGB { r: T::lowest(), g: T::lowest(), b: T::lowest() }),
    {
        ColorRGB::new_rgb(T::min_value(), T::min_value(), T::min_value())
    }

    pub fn white() -> (c: ColorRGB<T>)
        ensures
            c == (ColorRGB { r: T::highest(), g: T::highest(), b: T::highest() }),
    {
        ColorRGB::new_rgb(T::max_value(), T::max_value(), T::max_value())
    }

    /// Channel by channel sum.
    pub open spec fn added(self, other: ColorRGB<T>) -> ColorRGB<T> {
        ColorRGB {
            r: T::plus(self.r, other.r),
            g: T::plus(self.g, other.g),
            b: T::plus(self.b, other.b),
        }
    }

    /// Channel by channel difference.
    pub open spec fn subtracted(self, other: ColorRGB<T>) -> ColorRGB<T> {
        ColorRGB {
            r: T::minus(self.r, other.r),
            g: T::minus(self.g, other.g),
            b: T::minus(self.b, other.b),
        }
    }
}

impl<T: Channel> Add for ColorRGB<T> {
    type Output = ColorRGB<T>;

    fn add(self, other: ColorRGB<T>) -> (c: ColorRGB<T>) {
        ColorRGB {
            r: T::add(self.r, other.r),
            g: T::add(self.g, other.g),
            b: T::add(self.b, other.b),
        }
    }
}

impl<T: Channel> AddSpecImpl for ColorRGB<T> {
    open spec fn obeys_add_spec() -> bool {
        true
    }

    open spec fn add_req(self, other: ColorRGB<T>) -> bool {
        true
    }

    open spec fn add_spec(self, other: ColorRGB<T>) -> ColorRGB<T> {
        self.added(other)
    }
}

impl<T: Channel> Sub for ColorRGB<T> {
    type Output = ColorRGB<T>;

    fn sub(self, other: ColorRGB<T>) -> (c: ColorRGB<T>) {
        ColorRGB {
            r: T::sub(self.r, other.r),
            g: T::sub(self.g, other.g),
            b: T::sub(self.b, other.b),
        }
    }
}

impl<T: Channel> SubSpecImpl for ColorRGB<T> {
    open spec fn obeys_sub_spec() -> bool {
        true
    }

    open spec fn sub_req(self, other: ColorRGB<T>) -> bool {
        true
    }

    open spec fn sub_spec(self, other: ColorRGB<T>) -> ColorRGB<T> {
        self.subtracted(other)
    }
}

} // verus!
