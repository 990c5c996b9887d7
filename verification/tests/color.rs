use raytracer::colorrgba::{clamp, ColorRGB, ColorRGBA};
use raytracer::scalar::Scalar;

#[derive(Clone, Copy, Debug, PartialEq, PartialOrd)]
struct F(f64);

impl Scalar for F {
    // The names under which contracts speak of the operations.

    fn nil() -> F {
        <F as Scalar>::zero()
    }

    fn unit() -> F {
        <F as Scalar>::one()
    }

    fn unbounded() -> F {
        <F as Scalar>::infinity()
    }

    fn tolerance() -> F {
        <F as Scalar>::epsilon()
    }

    fn half_turn() -> F {
        <F as Scalar>::pi()
    }

    fn of_u32(n: u32) -> F {
        <F as Scalar>::from_u32(n)
    }

    fn of_i32(n: i32) -> F {
        <F as Scalar>::from_i32(n)
    }

    fn sum(self, rhs: F) -> F {
        <F as Scalar>::add(self, rhs)
    }

    fn difference(self, rhs: F) -> F {
        <F as Scalar>::sub(self, rhs)
    }

    fn product(self, rhs: F) -> F {
        <F as Scalar>::mul(self, rhs)
    }

    fn quotient(self, rhs: F) -> F {
        <F as Scalar>::div(self, rhs)
    }

    fn remainder(self, rhs: F) -> F {
        <F as Scalar>::rem(self, rhs)
    }

    fn upper(self, rhs: F) -> F {
        <F as Scalar>::max(self, rhs)
    }

    fn lower(self, rhs: F) -> F {
        <F as Scalar>::min(self, rhs)
    }

    fn below(self, rhs: F) -> bool {
        <F as Scalar>::lt(self, rhs)
    }

    fn at_most(self, rhs: F) -> bool {
        <F as Scalar>::le(self, rhs)
    }

    fn same(self, rhs: F) -> bool {
        <F as Scalar>::eq(self, rhs)
    }

    fn negation(self) -> F {
        <F as Scalar>::neg(self)
    }

    fn root(self) -> F {
        <F as Scalar>::sqrt(self)
    }

    fn magnitude(self) -> F {
        <F as Scalar>::abs(self)
    }

    fn nearest(self) -> i32 {
        <F as Scalar>::round(self)
    }

    fn whole_below(self) -> i32 {
        <F as Scalar>::floor(self)
    }

    fn whole_above(self) -> i32 {
        <F as Scalar>::ceil(self)
    }

    fn tangent(self) -> F {
        <F as Scalar>::tan(self)
    }

    fn radians(self) -> F {
        <F as Scalar>::to_radians(self)
    }

    fn degrees(self) -> F {
        <F as Scalar>::to_degrees(self)
    }

    fn arc_sine(self) -> F {
        <F as Scalar>::asin(self)
    }

    fn sine(self) -> F {
        <F as Scalar>::sin(self)
    }

    fn cosine(self) -> F {
        <F as Scalar>::cos(self)
    }

    fn arc_cosine(self) -> F {
        <F as Scalar>::acos(self)
    }

    fn cube_root(self) -> F {
        <F as Scalar>::cbrt(self)
    }

    fn arc_tangent(self, x: F) -> F {
        <F as Scalar>::atan2(self, x)
    }

    fn zero() -> F {
        F(0.0)
    }

    fn one() -> F {
        F(1.0)
    }

    fn infinity() -> F {
        F(f64::INFINITY)
    }

    fn epsilon() -> F {
        F(f64::EPSILON * 10000.0)
    }

    fn pi() -> F {
        F(std::f64::consts::PI)
    }

    fn from_u32(n: u32) -> F {
        F(f64::from(n))
    }

    fn from_i32(n: i32) -> F {
        F(f64::from(n))
    }

    fn add(self, rhs: F) -> F {
        F(self.0 + rhs.0)
    }

    fn sub(self, rhs: F) -> F {
        F(self.0 - rhs.0)
    }

    fn mul(self, rhs: F) -> F {
        F(self.0 * rhs.0)
    }

    fn div(self, rhs: F) -> F {
        F(self.0 / rhs.0)
    }

    fn rem(self, rhs: F) -> F {
        F(self.0 % rhs.0)
    }

    fn neg(self) -> F {
        F(-self.0)
    }

    fn sqrt(self) -> F {
        F(self.0.sqrt())
    }

    fn abs(self) -> F {
        F(self.0.abs())
    }

    fn max(self, rhs: F) -> F {
        F(self.0.max(rhs.0))
    }

    fn min(self, rhs: F) -> F {
        F(self.0.min(rhs.0))
    }

    fn lt(self, rhs: F) -> bool {
        self.0 < rhs.0
    }

    fn le(self, rhs: F) -> bool {
        self.0 <= rhs.0
    }

    fn eq(self, rhs: F) -> bool {
        self.0 == rhs.0
    }

    fn round(self) -> i32 {
        self.0.round() as i32
    }

    fn floor(self) -> i32 {
        self.0.floor() as i32
    }

    fn ceil(self) -> i32 {
        self.0.ceil() as i32
    }

    fn tan(self) -> F {
        F(self.0.tan())
    }

    fn to_radians(self) -> F {
        F(self.0.to_radians())
    }

    fn to_degrees(self) -> F {
        F(self.0.to_degrees())
    }

    fn asin(self) -> F {
        F(self.0.asin())
    }

    fn atan2(self, x: F) -> F {
        F(self.0.atan2(x.0))
    }

    fn sin(self) -> F {
        F(self.0.sin())
    }

    fn cos(self) -> F {
        F(self.0.cos())
    }

    fn acos(self) -> F {
        F(self.0.acos())
    }

    fn cbrt(self) -> F {
        F(self.0.powf(1.0 / 3.0))
    }
}

#[test]
fn color_add() {
    let foo_color: ColorRGBA<u8> = ColorRGBA::new_rgba(1, 1, 1, 1) +
            ColorRGBA::new_rgba(2, 2, 2, 2);
    assert_eq!(foo_color.r, 3);
    assert_eq!(foo_color.g, 3);
    assert_eq!(foo_color.b, 3);
    assert_eq!(foo_color.a, 3);

    let foo_color: ColorRGBA<u8> = ColorRGBA::new_rgba(200, 1, 1, 1) +
        ColorRGBA::new_rgba(200, 2, 2, 2);
    assert_eq!(foo_color.r, 255);
    assert_eq!(foo_color.g, 3);
    assert_eq!(foo_color.b, 3);
    assert_eq!(foo_color.a, 3);
}

#[test]
fn color_sub() {
    let foo_color: ColorRGBA<u8> = ColorRGBA::new_rgba(7, 7, 7, 7) -
            ColorRGBA::new_rgba(2, 2, 2, 2);
    assert_eq!(foo_color.r, 5);
    assert_eq!(foo_color.g, 5);
    assert_eq!(foo_color.b, 5);
    assert_eq!(foo_color.a, 5);
}

#[test]
fn color_mul() {
    let foo_color = ColorRGBA::<F>::new_rgb(F(0.5), F(0.0), F(0.0)) * F(2.0);

    assert_eq!(foo_color.r, F(1.0));
    assert_eq!(foo_color.g, F(0.0));
    assert_eq!(foo_color.b, F(0.0));
    assert_eq!(foo_color.a, F(1.0));
}

#[test]
fn color_sub_stops_at_zero() {
    let c: ColorRGBA<u8> = ColorRGBA::new_rgba(2, 9, 0, 255) - ColorRGBA::new_rgba(7, 9, 1, 1);
    assert_eq!((c.r, c.g, c.b, c.a), (0, 0, 0, 254));
    let d: ColorRGB<u8> = ColorRGB::new_rgb(250, 5, 0) + ColorRGB::new_rgb(6, 5, 0);
    assert_eq!((d.r, d.g, d.b), (255, 10, 0));
}

#[test]
fn clamp_tests_lower_bound_first() {
    assert_eq!(clamp(-3, 0, 255), 0);
    assert_eq!(clamp(300, 0, 255), 255);
    assert_eq!(clamp(77, 0, 255), 77);
    assert_eq!(clamp(5, 10, 1), 10);
}

#[test]
fn background_blue_is_stored_as_77_128_204() {
    let c = ColorRGBA::<F>::new_rgb(F(0.3), F(0.5), F(0.8)).into_rgba8888_noalpha();
    assert_eq!((c.r, c.g, c.b, c.a), (77, 128, 204, 255));
    let over = ColorRGBA::<u8>::new_rgb_clamped(F(1.5), F(-0.25), F(1.0));
    assert_eq!((over.r, over.g, over.b, over.a), (255, 0, 255, 255));
}
