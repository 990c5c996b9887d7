use raytracer::camera::Camera;
use raytracer::colorrgba::ColorRGBA;
use raytracer::bbox::{BBox, Cell, Probe};
use raytracer::fixed::Fixed;
use raytracer::geometry::{PartialBoundingBox, Prim};
use raytracer::light::PointLight;
use raytracer::material::{FlatMaterial, Material};
use raytracer::octree::Octree;
use raytracer::photon::{Photon, PhotonMap};
use raytracer::ray::Ray;
use raytracer::renderer::{RenderOptions, Renderer};
use raytracer::sampler::Sampler;
use raytracer::scalar::Scalar;
use raytracer::scene::{ColorBackground, Scene};
use raytracer::sphere::Sphere;
use raytracer::vec3::Vec3;

fn fx(v: f64) -> Fixed {
    Fixed { raw: (v * 65536.0).round() as i64 }
}

fn whole(n: i32) -> Fixed {
    Fixed::from_i32(n)
}

fn close(a: Fixed, expected: f64, tolerance: f64) -> bool {
    (a.raw as f64 / 65536.0 - expected).abs() <= tolerance
}

struct Steps(u64);

impl Sampler<Fixed> for Steps {
    fn next_unit(&mut self) -> Fixed {
        self.0 = self.0.wrapping_mul(6364136223846793005).wrapping_add(1442695040888963407);
        Fixed { raw: (self.0 >> 48) as i64 }
    }
}

#[test]
fn sums_and_products_are_exact() {
    assert_eq!(whole(3).add(whole(4)), whole(7));
    assert_eq!(whole(3).sub(whole(4)), whole(-1));
    assert_eq!(whole(3).mul(whole(-4)), whole(-12));
    assert_eq!(fx(0.5).mul(fx(0.5)), fx(0.25));
    assert_eq!(whole(1).div(whole(4)), fx(0.25));
    assert_eq!(whole(1).div(whole(3)), Fixed { raw: 21845 });
    assert_eq!(whole(-1).div(whole(3)), Fixed { raw: -21845 });
    assert_eq!(whole(7).neg(), whole(-7));
    assert_eq!(whole(-7).abs(), whole(7));
    assert_eq!(Fixed::from_u32(255), Fixed { raw: 255 * 65536 });
    assert_eq!(Fixed::zero(), Fixed { raw: 0 });
    assert_eq!(Fixed::one(), Fixed { raw: 65536 });
    assert_eq!(Fixed::epsilon(), Fixed { raw: 16 });
    assert_eq!(Fixed::pi(), Fixed { raw: 205887 });
}

#[test]
fn products_are_rounded_down_and_quotients_towards_zero() {
    let tiny = Fixed { raw: 1 };
    assert_eq!(tiny.mul(fx(0.5)), Fixed { raw: 0 });
    assert_eq!(tiny.neg().mul(fx(0.5)), Fixed { raw: -1 });
    assert_eq!(Fixed { raw: 3 }.div(whole(2)), Fixed { raw: 1 });
    assert_eq!(Fixed { raw: -3 }.div(whole(2)), Fixed { raw: -1 });
    assert_eq!(Fixed { raw: 3 }.div(whole(-2)), Fixed { raw: -1 });
}

#[test]
fn the_range_has_ends() {
    let top = Fixed::infinity();
    assert_eq!(top, Fixed { raw: i64::MAX });
    assert_eq!(top.add(whole(1)), top);
    assert_eq!(top.mul(whole(2)), top);
    assert_eq!(top.neg().sub(whole(5)), Fixed { raw: i64::MIN });
    assert_eq!(Fixed { raw: i64::MIN }.neg(), top);
    assert_eq!(Fixed { raw: i64::MIN }.abs(), top);
    assert_eq!(whole(1).div(Fixed::zero()), top);
    assert_eq!(whole(-1).div(Fixed::zero()), Fixed { raw: i64::MIN });
    assert_eq!(Fixed::zero().div(Fixed::zero()), Fixed::zero());
    assert_eq!(top.round(), i32::MAX);
    assert_eq!(Fixed { raw: i64::MIN }.floor(), i32::MIN);
}

#[test]
fn roots_are_rounded_down() {
    assert_eq!(whole(4).sqrt(), whole(2));
    assert_eq!(whole(2).sqrt(), Fixed { raw: 92681 });
    assert_eq!(fx(0.25).sqrt(), fx(0.5));
    assert_eq!(Fixed::zero().sqrt(), Fixed::zero());
    assert_eq!(whole(-4).sqrt(), Fixed::zero());
    assert_eq!(Fixed { raw: 1 }.sqrt(), Fixed { raw: 256 });
    let big = Fixed::infinity().sqrt();
    assert!(big.mul(big).le(Fixed::infinity()));
    assert_eq!(big, Fixed { raw: 777472127993 });
}

#[test]
fn whole_parts() {
    assert_eq!(fx(2.5).round(), 3);
    assert_eq!(fx(-2.5).round(), -3);
    assert_eq!(fx(2.49).round(), 2);
    assert_eq!(fx(2.5).floor(), 2);
    assert_eq!(fx(-2.5).floor(), -3);
    assert_eq!(fx(2.5).ceil(), 3);
    assert_eq!(fx(-2.5).ceil(), -2);
    assert_eq!(whole(5).floor(), 5);
    assert_eq!(whole(5).ceil(), 5);
}

#[test]
fn remainders_have_the_sign_of_the_dividend() {
    assert_eq!(fx(2.25).rem(whole(1)), fx(0.25));
    assert_eq!(fx(-2.25).rem(whole(1)), fx(-0.25));
    assert_eq!(fx(7.5).rem(whole(-2)), fx(1.5));
    assert_eq!(whole(3).rem(Fixed::zero()), Fixed::zero());
}

#[test]
fn order() {
    assert!(whole(1).lt(whole(2)));
    assert!(!whole(2).lt(whole(2)));
    assert!(whole(2).le(whole(2)));
    assert!(whole(2).eq(whole(2)));
    assert_eq!(whole(1).max(whole(2)), whole(2));
    assert_eq!(whole(1).min(whole(2)), whole(1));
}

#[test]
fn angles_are_approximated() {
    assert_eq!(whole(180).to_radians(), Fixed { raw: 180 * 1144 });
    assert!(close(whole(45).to_radians().tan(), 1.0, 0.01));
    assert!(close(fx(0.3).tan(), 0.3f64.tan(), 0.001));
    assert!(close(Fixed::zero().asin(), 0.0, 0.001));
    assert!(close(whole(1).asin(), std::f64::consts::FRAC_PI_2, 0.001));
    assert!(close(fx(0.5).asin(), 0.5f64.asin(), 0.001));
    assert!(close(fx(-0.5).asin(), (-0.5f64).asin(), 0.001));
    assert!(close(whole(3).asin(), std::f64::consts::FRAC_PI_2, 0.001));
    assert!(close(whole(1).atan2(whole(1)), std::f64::consts::FRAC_PI_4, 0.005));
    assert!(close(whole(1).atan2(whole(-1)), 3.0 * std::f64::consts::FRAC_PI_4, 0.005));
    assert!(close(whole(-1).atan2(whole(0)), -std::f64::consts::FRAC_PI_2, 0.005));
    assert!(close(fx(0.2).atan2(whole(1)), 0.2f64.atan2(1.0), 0.005));
    assert_eq!(Fixed::zero().atan2(Fixed::zero()), Fixed::zero());
}

#[test]
fn sines_and_cosines_are_approximated() {
    let pi = std::f64::consts::PI;
    assert_eq!(Fixed::zero().sin(), Fixed::zero());
    assert!(close(fx(pi / 2.0).sin(), 1.0, 0.005));
    assert!(close(fx(pi / 6.0).sin(), 0.5, 0.005));
    assert!(close(fx(1.0).sin(), 1.0f64.sin(), 0.005));
    assert!(close(fx(-pi / 2.0).sin(), -1.0, 0.005));
    assert!(close(fx(3.0 * pi / 2.0).sin(), -1.0, 0.005));
    assert!(close(fx(4.0).sin(), 4.0f64.sin(), 0.005));
    assert!(close(fx(2.0 * pi + 1.0).sin(), 1.0f64.sin(), 0.005));
    assert!(close(Fixed::zero().cos(), 1.0, 0.005));
    assert!(close(fx(pi).cos(), -1.0, 0.005));
    assert!(close(fx(1.0).cos(), 1.0f64.cos(), 0.005));
    assert!(close(fx(pi / 2.0).cos(), 0.0, 0.005));
    assert!(close(Fixed::zero().acos(), pi / 2.0, 0.001));
    assert!(close(whole(1).acos(), 0.0, 0.001));
    assert!(close(whole(-1).acos(), pi, 0.001));
    assert!(close(fx(0.5).acos(), 0.5f64.acos(), 0.001));
}

#[test]
fn cube_roots_are_rounded_down() {
    assert_eq!(whole(8).cbrt(), whole(2));
    assert_eq!(whole(27).cbrt(), whole(3));
    assert_eq!(whole(1).cbrt(), whole(1));
    assert_eq!(fx(0.125).cbrt(), fx(0.5));
    assert_eq!(Fixed::zero().cbrt(), Fixed::zero());
    assert_eq!(whole(-8).cbrt(), Fixed::zero());
    // The cube root of 2 is 1.2599210...: 82570 65536ths and a bit.
    assert_eq!(whole(2).cbrt(), Fixed { raw: 82570 });
    assert_eq!(Fixed { raw: 1 }.cbrt(), Fixed { raw: 1625 });
    assert!(close(Fixed::infinity().cbrt(), (i64::MAX as f64 / 65536.0).cbrt(), 0.001));
}

#[test]
fn points_of_the_ball_on_exact_numbers() {
    let p = Vec3::from_draws(fx(0.25), fx(0.5), whole(1));
    assert!(close(p.x, 0.0, 0.01) && close(p.y, 1.0, 0.01) && close(p.z, 0.0, 0.01));
    let q = Vec3::from_draws(Fixed::zero(), whole(1), fx(0.125));
    assert!(close(q.x, 0.0, 0.01) && close(q.y, 0.0, 0.01) && close(q.z, 0.5, 0.01));
    let mut sampler = Steps(7);
    let mut again = Steps(7);
    for _ in 0..50 {
        let r = Vec3::random(&mut sampler);
        let a = again.next_unit();
        let b = again.next_unit();
        let c = again.next_unit();
        assert_eq!(r, Vec3::from_draws(a, b, c));
        assert!(close(r.len(), 0.5, 0.52));
    }
}

fn rgb(r: f64, g: f64, b: f64) -> ColorRGBA<Fixed> {
    ColorRGBA::new_rgb(fx(r), fx(g), fx(b))
}

fn v(x: f64, y: f64, z: f64) -> Vec3<Fixed> {
    Vec3 { x: fx(x), y: fx(y), z: fx(z) }
}

#[test]
fn the_renderer_runs_on_exact_numbers() {
    let camera = Camera::new(v(0.0, 0.0, 0.0), v(0.0, 1.0, 0.0), v(0.0, 0.0, 1.0), whole(45), 32, 32);
    let scene: Scene<Sphere<Fixed, FlatMaterial<Fixed>>, PointLight<Fixed>, ColorBackground<Fixed>> = Scene {
        lights: vec![],
        octree: Octree::from_iter(vec![]),
        background: ColorBackground::new(rgb(0.25, 0.5, 0.75)),
    };
    let renderer = Renderer {
        tasks: Some(1),
        options: RenderOptions {
            reflect_depth: 1,
            refract_depth: 1,
            shadow_samples: 1,
            gloss_samples: 1,
            pixel_samples: 1,
        },
        photons: 0,
        photon_bounces: 0,
        photon_spread: fx(0.1),
        photon_samples: 0,
        photon_attempts: 0,
    };
    let mut sampler = Steps(1);
    let image = renderer.render(&camera, &scene, &mut sampler);
    for pixel in image.buffer.iter() {
        assert_eq!((pixel.r, pixel.g, pixel.b, pixel.a), (64, 128, 191, 255));
    }
}

#[test]
fn a_flat_ball_is_seen_on_exact_numbers() {
    let flat = FlatMaterial { color: rgb(0.25, 0.5, 1.0) };
    let scene = Scene {
        lights: vec![PointLight { position: v(0.0, -5.0, 0.0), color: rgb(1.0, 1.0, 1.0) }],
        octree: Octree::from_iter(vec![Sphere { center: v(0.0, 0.0, 5.0), radius: whole(1), material: flat }]),
        background: ColorBackground::new(rgb(0.0, 0.0, 0.0)),
    };
    let ray = Ray::new(v(0.0, 0.0, 0.0), v(0.0, 0.0, 1.0));
    let hit = ray.get_nearest_hit(&scene).unwrap();
    assert_eq!(hit.t, whole(4));
    assert_eq!(hit.position, v(0.0, 0.0, 4.0));
    let options = RenderOptions {
        reflect_depth: 2,
        refract_depth: 2,
        shadow_samples: 0,
        gloss_samples: 1,
        pixel_samples: 1,
    };
    let mut sampler = Steps(1);
    let c = Renderer::trace(&scene, &ray, options, false, &None, whole(0), 0, &mut sampler);
    assert_eq!((c.r, c.g, c.b), (fx(0.25), fx(0.5), fx(1.0)));
    assert_eq!(flat.sample(v(0.0, 0.0, 1.0), v(1.0, 0.0, 0.0), v(0.0, 1.0, 0.0), whole(0), whole(0)).r, fx(0.25));
    let sphere = Sphere { center: v(0.0, 0.0, 5.0), radius: whole(1), material: flat };
    assert!(sphere.intersects(&Ray::new(v(0.0, 3.0, 0.0), v(0.0, 0.0, 1.0)), Fixed::epsilon(), Fixed::infinity()).is_none());
    // From inside, the hit is where the ray leaves.
    let around = Sphere { center: v(0.0, 0.0, 0.0), radius: whole(1), material: flat };
    let inside = Ray::new(v(0.0, 0.0, -0.5), v(0.0, 0.0, 1.0));
    let leaving = around.intersects(&inside, Fixed::epsilon(), Fixed::infinity()).unwrap();
    assert_eq!(leaving.t, fx(1.5));
    assert_eq!(leaving.position, v(0.0, 0.0, 1.0));
}

#[test]
fn indirect_light_is_never_negative_on_exact_numbers() {
    let flat = FlatMaterial { color: rgb(0.25, 0.5, 1.0) };
    let sphere = Sphere { center: v(0.0, 0.0, -1.0), radius: whole(1), material: flat };
    let ray = Ray::new(v(0.0, 0.0, 5.0), v(0.0, 0.0, -1.0));
    let hit = sphere.intersects(&ray, Fixed::epsilon(), Fixed::infinity()).unwrap();
    assert_eq!(hit.position, v(0.0, 0.0, 0.0));
    let n = v(0.0, 0.0, 1.0);
    let photon = |x: f64, power: f64| Photon {
        position: v(x, 0.0, 0.0),
        incoming_dir: v(0.0, 1.0, 0.0),
        power: rgb(power, power, power),
    };
    let map = PhotonMap::new_from_photons(vec![photon(1.0, 2.0), photon(2.0, 3.0), photon(0.0, 1.0), photon(9.0, 4.0)])
        .unwrap();
    for &(spread, max) in [(0.5, 10usize), (1.5, 10), (5.0, 1), (5.0, 2), (5.0, 10), (100.0, 3), (100.0, 10)].iter() {
        let c = Renderer::estimate_indirect_irradiance(&map, fx(spread), max, &hit, &n, &n);
        assert!(c.r.raw >= 0 && c.g.raw >= 0 && c.b.raw >= 0 && c.a.raw >= 0);
    }
    // Three photons, the farthest at distance 2: their power times the
    // colour, over the disc that reaches to the farthest.
    let c = Renderer::estimate_indirect_irradiance(&map, fx(2.5), 10, &hit, &n, &n);
    assert!(close(c.b, 6.0 / (std::f64::consts::PI * 4.0), 0.001));
    assert!(close(c.r, 0.25 * 6.0 / (std::f64::consts::PI * 4.0), 0.001));
    // With room for two, the nearest two are kept: at distances 1 and 0.
    let c = Renderer::estimate_indirect_irradiance(&map, fx(2.5), 2, &hit, &n, &n);
    assert!(close(c.b, 3.0 / std::f64::consts::PI, 0.001));
}

#[test]
fn the_bounds_of_a_sphere_hold_for_directions_of_length_one() {
    let flat = FlatMaterial { color: rgb(1.0, 1.0, 1.0) };
    let sphere = Sphere { center: v(10.0, 0.0, 0.0), radius: whole(1), material: flat };
    let bounds = sphere.partial_bounding_box().unwrap();
    // Straight at the sphere: it is hit, and the ray meets its bounds.
    let straight = Ray::new(v(0.0, 0.0, 0.0), v(1.0, 0.0, 0.0));
    assert_eq!(sphere.intersects(&straight, Fixed::epsilon(), Fixed::infinity()).unwrap().t, whole(9));
    assert!(straight.meets(&bounds));
    // Past the sphere, five units above it: neither.
    let past = Ray::new(v(0.0, 5.0, 0.0), v(1.0, 0.0, 0.0));
    assert!(sphere.intersects(&past, Fixed::epsilon(), Fixed::infinity()).is_none());
    assert!(!past.meets(&bounds));
    // The hit is worked out for a direction of length 1. With a longer one
    // the same line is taken to meet the sphere, though it misses the bounds.
    let long = Ray::new(v(0.0, 5.0, 0.0), v(2.0, 0.0, 0.0));
    assert!(sphere.intersects(&long, Fixed::epsilon(), Fixed::infinity()).is_some());
    assert!(!long.meets(&bounds));
}

#[test]
fn a_ray_meets_the_boxes_on_its_way() {
    let cube = |x: i32, y: i32, z: i32, side: i32| BBox::new(Cell::new(x, y, z), Cell::new(x + side, y + side, z + side));
    let ray = Ray::new(v(0.0, 0.0, 0.0), v(1.0, 0.0, 0.0));
    assert!(ray.meets(&cube(1024, -512, -512, 1024)));
    assert!(ray.meets(&cube(-100, -100, -100, 200)));
    assert!(!ray.meets(&cube(1024, 512, -512, 1024)));
    assert!(!ray.meets(&cube(-4096, -512, -512, 1024)));
    // A box and both of its halves along x.
    let whole_box = BBox::new(Cell::new(1024, -512, -512), Cell::new(3072, 512, 512));
    let lower = BBox::new(Cell::new(1024, -512, -512), Cell::new(2048, 512, 512));
    let upper = BBox::new(Cell::new(2048, -512, -512), Cell::new(3072, 512, 512));
    assert!(ray.meets(&whole_box) && ray.meets(&lower) && ray.meets(&upper));
    // A direction so steep that one over it rounds to nothing: the ray is
    // taken to stay where it is along that axis, even in a box without cells.
    let steep = Ray::new(v(0.0, 0.0, 0.0), Vec3 { x: Fixed { raw: 131072 * 65536 }, y: whole(0), z: whole(0) });
    let hollow = BBox::new(Cell::new(0, 0, 0), Cell::new(-1, 0, 0));
    assert!(steep.meets(&hollow));
}
