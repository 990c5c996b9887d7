use raytracer::sampler::{Replay, Sampler};
use raytracer::scalar::Scalar;
use raytracer::vec3::Vec3;

/// Double precision numbers as the scalar of the renderer.
#[derive(Clone, Copy, Debug, PartialEq, PartialOrd)]
struct F(f64);

impl Scalar for F {
    // The names under which contracts speak of the operations.

    fn nil() -> F {
        <F as Scalar>::zero()
    }

    fn unit() -> F {
        <F as Scalar>::one()
    }

    fn unbounded() -> F {
        <F as Scalar>::infinity()
    }

    fn tolerance() -> F {
        <F as Scalar>::epsilon()
    }

    fn half_turn() -> F {
        <F as Scalar>::pi()
    }

    fn of_u32(n: u32) -> F {
        <F as Scalar>::from_u32(n)
    }

    fn of_i32(n: i32) -> F {
        <F as Scalar>::from_i32(n)
    }

    fn sum(self, rhs: F) -> F {
        <F as Scalar>::add(self, rhs)
    }

    fn difference(self, rhs: F) -> F {
        <F as Scalar>::sub(self, rhs)
    }

    fn product(self, rhs: F) -> F {
        <F as Scalar>::mul(self, rhs)
    }

    fn quotient(self, rhs: F) -> F {
        <F as Scalar>::div(self, rhs)
    }

    fn remainder(self, rhs: F) -> F {
        <F as Scalar>::rem(self, rhs)
    }

    fn upper(self, rhs: F) -> F {
        <F as Scalar>::max(self, rhs)
    }

    fn lower(self, rhs: F) -> F {
        <F as Scalar>::min(self, rhs)
    }

    fn below(self, rhs: F) -> bool {
        <F as Scalar>::lt(self, rhs)
    }

    fn at_most(self, rhs: F) -> bool {
        <F as Scalar>::le(self, rhs)
    }

    fn same(self, rhs: F) -> bool {
        <F as Scalar>::eq(self, rhs)
    }

    fn negation(self) -> F {
        <F as Scalar>::neg(self)
    }

    fn root(self) -> F {
        <F as Scalar>::sqrt(self)
    }

    fn magnitude(self) -> F {
        <F as Scalar>::abs(self)
    }

    fn nearest(self) -> i32 {
        <F as Scalar>::round(self)
    }

    fn whole_below(self) -> i32 {
        <F as Scalar>::floor(self)
    }

    fn whole_above(self) -> i32 {
        <F as Scalar>::ceil(self)
    }

    fn tangent(self) -> F {
        <F as Scalar>::tan(self)
    }

    fn radians(self) -> F {
        <F as Scalar>::to_radians(self)
    }

    fn degrees(self) -> F {
        <F as Scalar>::to_degrees(self)
    }

    fn arc_sine(self) -> F {
        <F as Scalar>::asin(self)
    }

    fn sine(self) -> F {
        <F as Scalar>::sin(self)
    }

    fn cosine(self) -> F {
        <F as Scalar>::cos(self)
    }

    fn arc_cosine(self) -> F {
        <F as Scalar>::acos(self)
    }

    fn cube_root(self) -> F {
        <F as Scalar>::cbrt(self)
    }

    fn arc_tangent(self, x: F) -> F {
        <F as Scalar>::atan2(self, x)
    }

    fn zero() -> F {
        F(0.0)
    }

    fn one() -> F {
        F(1.0)
    }

    fn infinity() -> F {
        F(f64::INFINITY)
    }

    fn epsilon() -> F {
        F(f64::EPSILON * 10000.0)
    }

    fn pi() -> F {
        F(std::f64::consts::PI)
    }

    fn from_u32(n: u32) -> F {
        F(f64::from(n))
    }

    fn from_i32(n: i32) -> F {
        F(f64::from(n))
    }

    fn add(self, rhs: F) -> F {
        F(self.0 + rhs.0)
    }

    fn sub(self, rhs: F) -> F {
        F(self.0 - rhs.0)
    }

    fn mul(self, rhs: F) -> F {
        F(self.0 * rhs.0)
    }

    fn div(self, rhs: F) -> F {
        F(self.0 / rhs.0)
    }

    fn rem(self, rhs: F) -> F {
        F(self.0 % rhs.0)
    }

    fn neg(self) -> F {
        F(-self.0)
    }

    fn sqrt(self) -> F {
        F(self.0.sqrt())
    }

    fn abs(self) -> F {
        F(self.0.abs())
    }

    fn max(self, rhs: F) -> F {
        F(self.0.max(rhs.0))
    }

    fn min(self, rhs: F) -> F {
        F(self.0.min(rhs.0))
    }

    fn lt(self, rhs: F) -> bool {
        self.0 < rhs.0
    }

    fn le(self, rhs: F) -> bool {
        self.0 <= rhs.0
    }

    fn eq(self, rhs: F) -> bool {
        self.0 == rhs.0
    }

    fn round(self) -> i32 {
        self.0.round() as i32
    }

    fn floor(self) -> i32 {
        self.0.floor() as i32
    }

    fn ceil(self) -> i32 {
        self.0.ceil() as i32
    }

    fn tan(self) -> F {
        F(self.0.tan())
    }

    fn to_radians(self) -> F {
        F(self.0.to_radians())
    }

    fn to_degrees(self) -> F {
        F(self.0.to_degrees())
    }

    fn asin(self) -> F {
        F(self.0.asin())
    }

    fn atan2(self, x: F) -> F {
        F(self.0.atan2(x.0))
    }

    fn sin(self) -> F {
        F(self.0.sin())
    }

    fn cos(self) -> F {
        F(self.0.cos())
    }

    fn acos(self) -> F {
        F(self.0.acos())
    }

    fn cbrt(self) -> F {
        F(self.0.powf(1.0 / 3.0))
    }
}

fn v(x: f64, y: f64, z: f64) -> Vec3<F> {
    Vec3 { x: F(x), y: F(y), z: F(z) }
}

#[test]
fn it_does_cross_product() {
    assert_eq!(Vec3 { x: F(-1.0), y: F(2.0), z: F(-1.0) }, Vec3 { x: F(1.0), y: F(2.0), z: F(3.0) }.cross(&Vec3 { x: F(2.0), y: F(3.0), z: F(4.0) }));
}

#[test]
fn it_does_dot_product() {
    assert_eq!(F(5.0), Vec3 { x: F(0.0), y: F(1.0), z: F(2.0) }.dot(&Vec3 { x: F(0.0), y: F(1.0), z: F(2.0) }));
}

#[test]
fn it_computes_length_of_a_vec3() {
    assert_eq!(Vec3 { x: F(-1.0), y: F(-1.0), z: F(-1.0) }, -Vec3::<F>::one());
    assert_eq!(F(29.0_f64.sqrt()), Vec3 { x: F(2.0), y: F(3.0), z: F(4.0) }.len());
    assert_eq!(F(1.0), Vec3 { x: F(10.0), y: F(0.0), z: F(0.0) }.unit().len());
}

#[test]
fn it_has_vec3vec3_equality() {
    assert!(Vec3::<F>::zero() != Vec3::<F>::one());
    assert!(Vec3::<F>::zero() == Vec3::<F>::zero());
}

#[test]
fn it_adds_vec3s_and_scalars() {
    assert_eq!(Vec3 { x: F(2.0), y: F(2.0), z: F(2.0) }, Vec3::<F>::one() + Vec3::<F>::one());
    assert_eq!(Vec3 { x: F(2.0), y: F(2.0), z: F(2.0) }, Vec3::<F>::one() + F(1.0));
}

#[test]
fn it_subtracts_vec3s_and_scalars() {
    assert_eq!(Vec3::<F>::zero(), Vec3::<F>::one() - Vec3::<F>::one());
    assert_eq!(Vec3::<F>::zero(), Vec3::<F>::one() - F(1.0));
}

#[test]
fn it_multiplies_vec3s_and_scalars_elementwise() {
    assert_eq!(Vec3 { x: F(2.0), y: F(2.0), z: F(2.0) }, Vec3::<F>::one().scale(F(2.0)));
    assert_eq!(Vec3 { x: F(2.0), y: F(2.0), z: F(2.0) }, Vec3::<F>::one() * F(2.0));
    assert_eq!(Vec3 { x: F(4.0), y: F(9.0), z: F(-4.0) }, Vec3 { x: F(2.0), y: F(3.0), z: F(4.0) } * Vec3 { x: F(2.0), y: F(3.0), z: F(-1.0) });
}

#[test]
fn it_divides_vec3s_and_scalars_elementwise() {
    assert_eq!(Vec3 { x: F(0.5), y: F(0.5), z: F(0.5) }, Vec3::<F>::one() / F(2.0));
    assert_eq!(Vec3 { x: F(0.5), y: F(0.5), z: F(0.5) }, Vec3::<F>::one() / Vec3 { x: F(2.0), y: F(2.0), z: F(2.0) });
}

#[test]
fn it_linearly_interpolates() {
    assert_eq!(Vec3::<F>::zero(), Vec3::lerp(&Vec3::zero(), &Vec3::one(), F(0.0)));
    assert_eq!(Vec3 { x: F(0.5), y: F(0.5), z: F(0.5) }, Vec3::lerp(&Vec3::zero(), &Vec3::one(), F(0.5)));
    assert_eq!(Vec3::<F>::one(), Vec3::lerp(&Vec3::zero(), &Vec3::one(), F(1.0)));
}

#[test]
fn reflect_mirrors_at_the_normal() {
    let n = v(0.0, 1.0, 0.0);
    let incoming = v(1.0, 1.0, 0.0);
    assert_eq!(Vec3::reflect(&incoming, &n), v(-1.0, 1.0, 0.0));
}

#[test]
fn refract_passes_straight_through_equal_media() {
    let n = v(0.0, 1.0, 0.0);
    let towards_viewer = v(0.0, 1.0, 0.0);
    let t = Vec3::refract(&towards_viewer, &n, F(1.0), false).unwrap();
    assert_eq!(t, v(0.0, -1.0, 0.0));
}

#[test]
fn refract_reports_total_internal_reflection() {
    let n = v(0.0, 1.0, 0.0);
    // Leaving glass at a grazing angle: the ray is inside and the normal
    // points out of the medium, so the vector to the viewer points against it.
    let grazing = v(0.9, -0.435889894354, 0.0);
    assert!(Vec3::refract(&grazing, &n, F(1.5), true).is_none());
    assert!(Vec3::refract(&grazing, &n, F(1.0), true).is_some());
}

#[test]
fn clamp_cuts_each_component() {
    assert_eq!(v(-2.0, 0.25, 7.0).clamp(F(0.0), F(1.0)), v(0.0, 0.25, 1.0));
}

/// Hands out the numbers it was given, one after the other.
struct Listed(Vec<f64>, usize);

impl Sampler<F> for Listed {
    fn next_unit(&mut self) -> F {
        let value = self.0[self.1];
        self.1 += 1;
        F(value)
    }
}

fn near(a: Vec3<F>, b: (f64, f64, f64)) -> bool {
    (a.x.0 - b.0).abs() < 1e-12 && (a.y.0 - b.1).abs() < 1e-12 && (a.z.0 - b.2).abs() < 1e-12
}

#[test]
fn three_draws_place_a_point_in_the_ball() {
    // A quarter turn, level with the centre, on the surface.
    assert!(near(Vec3::from_draws(F(0.25), F(0.5), F(1.0)), (0.0, 1.0, 0.0)));
    // The pole, at half the radius: an eighth of the volume lies inside.
    assert!(near(Vec3::from_draws(F(0.0), F(1.0), F(0.125)), (0.0, 0.0, 0.5)));
    // The other pole, and the centre.
    assert!(near(Vec3::from_draws(F(0.0), F(0.0), F(1.0)), (0.0, 0.0, -1.0)));
    assert!(near(Vec3::from_draws(F(0.7), F(0.3), F(0.0)), (0.0, 0.0, 0.0)));
    // Half a turn, level, on the surface.
    assert!(near(Vec3::from_draws(F(0.5), F(0.5), F(1.0)), (-1.0, 0.0, 0.0)));
}

#[test]
fn a_random_point_is_made_of_the_next_three_draws() {
    let mut sampler = Listed(vec![0.25, 0.5, 1.0, 0.1, 0.9, 0.3, 0.6], 0);
    let first = Vec3::random(&mut sampler);
    assert_eq!(sampler.1, 3);
    assert_eq!(first, Vec3::from_draws(F(0.25), F(0.5), F(1.0)));
    let second = Vec3::random(&mut sampler);
    assert_eq!(sampler.1, 6);
    assert_eq!(second, Vec3::from_draws(F(0.1), F(0.9), F(0.3)));
    assert!(second != first);
}

#[test]
fn random_points_lie_in_the_unit_ball() {
    let mut draws = Vec::new();
    let mut state: u64 = 11;
    for _ in 0..300 {
        state = state.wrapping_mul(6364136223846793005).wrapping_add(1442695040888963407);
        draws.push(((state >> 11) as f64) / ((1u64 << 53) as f64));
    }
    let mut sampler = Listed(draws, 0);
    let mut sum = v(0.0, 0.0, 0.0);
    for _ in 0..100 {
        let p = Vec3::random(&mut sampler);
        assert!(p.len().0 <= 1.0 + 1e-12);
        sum = sum + p;
    }
    // Evenly spread points balance each other.
    assert!(sum.len().0 < 30.0);
}

#[test]
fn a_replay_hands_out_its_draws_again_and_again() {
    let mut replay = Replay::new(vec![F(0.25), F(0.5), F(1.0), F(0.75)]);
    let seen: Vec<F> = (0..9).map(|_| replay.next_unit()).collect();
    assert_eq!(
        seen,
        vec![F(0.25), F(0.5), F(1.0), F(0.75), F(0.25), F(0.5), F(1.0), F(0.75), F(0.25)]
    );
    assert_eq!(replay.draw(), F(0.5));
    let mut empty = Replay::<F>::new(vec![]);
    assert_eq!((empty.next_unit(), empty.draw()), (F(0.0), F(0.0)));
    // Two runs on the same draws give the same points.
    let mut first = Replay::new(vec![F(0.1), F(0.9), F(0.3), F(0.6), F(0.2)]);
    let mut second = Replay::new(vec![F(0.1), F(0.9), F(0.3), F(0.6), F(0.2)]);
    for _ in 0..7 {
        assert_eq!(Vec3::random(&mut first), Vec3::random(&mut second));
    }
    let mut third = Replay::new(vec![F(0.25), F(0.5), F(1.0)]);
    assert_eq!(Vec3::random(&mut third), Vec3::from_draws(F(0.25), F(0.5), F(1.0)));
}
