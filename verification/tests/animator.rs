use raytracer::animator::{AnimatedCamera, CameraKeyframe, LerpInterpolator};
use raytracer::camera::Camera;
use raytracer::scalar::Scalar;
use raytracer::vec3::Vec3;

/// Double precision numbers as the scalar of the renderer.
#[derive(Clone, Copy, Debug, PartialEq, PartialOrd)]
struct F(f64);

impl Scalar for F {
    // The names under which contracts speak of the operations.

    fn nil() -> F {
        <F as Scalar>::zero()
    }

    fn unit() -> F {
        <F as Scalar>::one()
    }

    fn unbounded() -> F {
        <F as Scalar>::infinity()
    }

    fn tolerance() -> F {
        <F as Scalar>::epsilon()
    }

    fn half_turn() -> F {
        <F as Scalar>::pi()
    }

    fn of_u32(n: u32) -> F {
        <F as Scalar>::from_u32(n)
    }

    fn of_i32(n: i32) -> F {
        <F as Scalar>::from_i32(n)
    }

    fn sum(self, rhs: F) -> F {
        <F as Scalar>::add(self, rhs)
    }

    fn difference(self, rhs: F) -> F {
        <F as Scalar>::sub(self, rhs)
    }

    fn product(self, rhs: F) -> F {
        <F as Scalar>::mul(self, rhs)
    }

    fn quotient(self, rhs: F) -> F {
        <F as Scalar>::div(self, rhs)
    }

    fn remainder(self, rhs: F) -> F {
        <F as Scalar>::rem(self, rhs)
    }

    fn upper(self, rhs: F) -> F {
        <F as Scalar>::max(self, rhs)
    }

    fn lower(self, rhs: F) -> F {
        <F as Scalar>::min(self, rhs)
    }

    fn below(self, rhs: F) -> bool {
        <F as Scalar>::lt(self, rhs)
    }

    fn at_most(self, rhs: F) -> bool {
        <F as Scalar>::le(self, rhs)
    }

    fn same(self, rhs: F) -> bool {
        <F as Scalar>::eq(self, rhs)
    }

    fn negation(self) -> F {
        <F as Scalar>::neg(self)
    }

    fn root(self) -> F {
        <F as Scalar>::sqrt(self)
    }

    fn magnitude(self) -> F {
        <F as Scalar>::abs(self)
    }

    fn nearest(self) -> i32 {
        <F as Scalar>::round(self)
    }

    fn whole_below(self) -> i32 {
        <F as Scalar>::floor(self)
    }

    fn whole_above(self) -> i32 {
        <F as Scalar>::ceil(self)
    }

    fn tangent(self) -> F {
        <F as Scalar>::tan(self)
    }

    fn radians(self) -> F {
        <F as Scalar>::to_radians(self)
    }

    fn degrees(self) -> F {
        <F as Scalar>::to_degrees(self)
    }

    fn arc_sine(self) -> F {
        <F as Scalar>::asin(self)
    }

    fn sine(self) -> F {
        <F as Scalar>::sin(self)
    }

    fn cosine(self) -> F {
        <F as Scalar>::cos(self)
    }

    fn arc_cosine(self) -> F {
        <F as Scalar>::acos(self)
    }

    fn cube_root(self) -> F {
        <F as Scalar>::cbrt(self)
    }

    fn arc_tangent(self, x: F) -> F {
        <F as Scalar>::atan2(self, x)
    }

    fn zero() -> F {
        F(0.0)
    }

    fn one() -> F {
        F(1.0)
    }

    fn infinity() -> F {
        F(f64::INFINITY)
    }

    fn epsilon() -> F {
        F(f64::EPSILON * 10000.0)
    }

    fn pi() -> F {
        F(std::f64::consts::PI)
    }

    fn from_u32(n: u32) -> F {
        F(f64::from(n))
    }

    fn from_i32(n: i32) -> F {
        F(f64::from(n))
    }

    fn add(self, rhs: F) -> F {
        F(self.0 + rhs.0)
    }

    fn sub(self, rhs: F) -> F {
        F(self.0 - rhs.0)
    }

    fn mul(self, rhs: F) -> F {
        F(self.0 * rhs.0)
    }

    fn div(self, rhs: F) -> F {
        F(self.0 / rhs.0)
    }

    fn rem(self, rhs: F) -> F {
        F(self.0 % rhs.0)
    }

    fn neg(self) -> F {
        F(-self.0)
    }

    fn sqrt(self) -> F {
        F(self.0.sqrt())
    }

    fn abs(self) -> F {
        F(self.0.abs())
    }

    fn max(self, rhs: F) -> F {
        F(self.0.max(rhs.0))
    }

    fn min(self, rhs: F) -> F {
        F(self.0.min(rhs.0))
    }

    fn lt(self, rhs: F) -> bool {
        self.0 < rhs.0
    }

    fn le(self, rhs: F) -> bool {
        self.0 <= rhs.0
    }

    fn eq(self, rhs: F) -> bool {
        self.0 == rhs.0
    }

    fn round(self) -> i32 {
        self.0.round() as i32
    }

    fn floor(self) -> i32 {
        self.0.floor() as i32
    }

    fn ceil(self) -> i32 {
        self.0.ceil() as i32
    }

    fn tan(self) -> F {
        F(self.0.tan())
    }

    fn to_radians(self) -> F {
        F(self.0.to_radians())
    }

    fn to_degrees(self) -> F {
        F(self.0.to_degrees())
    }

    fn asin(self) -> F {
        F(self.0.asin())
    }

    fn atan2(self, x: F) -> F {
        F(self.0.atan2(x.0))
    }

    fn sin(self) -> F {
        F(self.0.sin())
    }

    fn cos(self) -> F {
        F(self.0.cos())
    }

    fn acos(self) -> F {
        F(self.0.acos())
    }

    fn cbrt(self) -> F {
        F(self.0.powf(1.0 / 3.0))
    }
}

fn v(x: f64, y: f64, z: f64) -> Vec3<F> {
    Vec3 { x: F(x), y: F(y), z: F(z) }
}

fn key(time: f64, position: Vec3<F>) -> CameraKeyframe<F> {
    CameraKeyframe { time: F(time), position, look_at: v(0.0, 1.0, 0.0), up: v(0.0, 1.0, 0.0) }
}

#[test]
fn test_lerp_camera_position() {
    // Camera rotates 180 degrees
    let camera = Camera::new(v(-1.0, -1.0, -1.0), v(0.0, 1.0, 0.0), v(0.0, 1.0, 0.0), F(45.0), 10, 10);
    let acamera = AnimatedCamera::new(
        camera,
        vec![
            CameraKeyframe {
                time: F(5.0),
                position: v(0.0, 0.0, 0.0),
                look_at: v(0.0, 1.0, 0.0),
                up: v(0.0, 1.0, 0.0),
            },
            CameraKeyframe {
                time: F(10.0),
                position: v(10.0, 0.0, 0.0),
                look_at: v(0.0, 1.0, 0.0),
                up: v(0.0, 1.0, 0.0),
            },
        ],
    );

    let expected_position_0 = v(-1.0, -1.0, -1.0);
    assert_eq!(LerpInterpolator::interpolate(&acamera, F(0.0)).position, expected_position_0);

    let expected_position_5 = v(0.0, 0.0, 0.0);
    assert_eq!(LerpInterpolator::interpolate(&acamera, F(5.0)).position, expected_position_5);

    let expected_position_7_5 = v(5.0, 0.0, 0.0);
    assert_eq!(LerpInterpolator::interpolate(&acamera, F(7.5)).position, expected_position_7_5);

    let expected_position_10 = v(10.0, 0.0, 0.0);
    assert_eq!(LerpInterpolator::interpolate(&acamera, F(10.0)).position, expected_position_10);
}

#[test]
fn the_camera_as_it_stands_is_the_first_keyframe() {
    let camera = Camera::new(v(1.0, 2.0, 3.0), v(0.0, 0.0, 0.0), v(0.0, 1.0, 0.0), F(30.0), 4, 3);
    let acamera = AnimatedCamera::new(camera, vec![key(2.0, v(5.0, 5.0, 5.0))]);
    assert_eq!(acamera.keyframes.len(), 2);
    assert_eq!(acamera.keyframes[0].time, F(0.0));
    assert_eq!(acamera.keyframes[0].position, v(1.0, 2.0, 3.0));
    assert_eq!(acamera.keyframes[0].look_at, v(0.0, 0.0, 0.0));
    assert_eq!(acamera.keyframes[0].up, v(0.0, 1.0, 0.0));
    assert_eq!(acamera.keyframes[1].time, F(2.0));
    assert_eq!(acamera.camera.image_width, 4);
    let alone = AnimatedCamera::new(camera, vec![]);
    assert_eq!(alone.keyframes.len(), 1);
}

#[test]
fn neighbours_are_the_keyframes_around_the_time() {
    let camera = Camera::new(v(0.0, 0.0, 0.0), v(0.0, 1.0, 0.0), v(0.0, 1.0, 0.0), F(45.0), 10, 10);
    let acamera = AnimatedCamera::new(
        camera,
        vec![key(4.0, v(4.0, 0.0, 0.0)), key(8.0, v(8.0, 0.0, 0.0)), key(16.0, v(0.0, 8.0, 0.0))],
    );
    let (first, second, alpha) = LerpInterpolator::get_neighbour_keyframes(&acamera, F(5.0));
    assert_eq!((first.time, second.time, alpha), (F(4.0), F(8.0), F(0.25)));
    let (first, second, alpha) = LerpInterpolator::get_neighbour_keyframes(&acamera, F(12.0));
    assert_eq!((first.time, second.time, alpha), (F(8.0), F(16.0), F(0.5)));
    // On a keyframe, no time lies between the two neighbours.
    let (first, second, alpha) = LerpInterpolator::get_neighbour_keyframes(&acamera, F(4.0));
    assert_eq!((first.time, second.time, alpha), (F(4.0), F(4.0), F(0.0)));
    // Before all keyframes but the first.
    let (first, second, alpha) = LerpInterpolator::get_neighbour_keyframes(&acamera, F(1.0));
    assert_eq!((first.time, second.time, alpha), (F(0.0), F(4.0), F(0.25)));
}

#[test]
fn the_camera_between_keyframes_keeps_its_picture() {
    let camera = Camera::new(v(0.0, 0.0, 0.0), v(0.0, 0.0, 1.0), v(0.0, 1.0, 0.0), F(45.0), 8, 6);
    let acamera = AnimatedCamera::new(
        camera,
        vec![CameraKeyframe { time: F(2.0), position: v(2.0, 0.0, 0.0), look_at: v(2.0, 0.0, 1.0), up: v(0.0, 1.0, 0.0) }],
    );
    let half = LerpInterpolator::interpolate(&acamera, F(1.0));
    assert_eq!(half.position, v(1.0, 0.0, 0.0));
    assert_eq!(half.look_at, v(1.0, 0.0, 1.0));
    assert_eq!(half.up, v(0.0, 1.0, 0.0));
    assert_eq!((half.image_width, half.image_height, half.fov_deg), (8, 6, F(45.0)));
    let fresh = Camera::new(v(1.0, 0.0, 0.0), v(1.0, 0.0, 1.0), v(0.0, 1.0, 0.0), F(45.0), 8, 6);
    assert_eq!((half.eye, half.right), (fresh.eye, fresh.right));
    assert_eq!((half.half_width, half.pixel_height), (fresh.half_width, fresh.pixel_height));
}
