use raytracer::bbox::{BBox, Cell, Probe};
use raytracer::camera::Camera;
use raytracer::colorrgba::ColorRGBA;
use raytracer::geometry::{PartialBoundingBox, Prim};
use raytracer::light::{Light, PointLight, SphereLight};
use raytracer::material::{FlatMaterial, Material, Texture, UVTexture};
use raytracer::octree::Octree;
use raytracer::photon::{Photon, PhotonMap, PhotonQuery};
use raytracer::plane::Plane;
use raytracer::ray::Ray;
use raytracer::renderer::{Interaction, RenderOptions, Renderer};
use raytracer::sampler::Sampler;
use raytracer::scalar::Scalar;
use raytracer::scene::{Background, ColorBackground, Scene};
use raytracer::shape::Shape;
use raytracer::sphere::Sphere;
use raytracer::transform::Transform;
use raytracer::triangle::{Mesh, Triangle};
use raytracer::vec3::Vec3;

/// Double precision numbers as the scalar of the renderer.
#[derive(Clone, Copy, Debug, PartialEq, PartialOrd)]
struct F(f64);

impl Scalar for F {
    // The names under which contracts speak of the operations.

    fn nil() -> F {
        <F as Scalar>::zero()
    }

    fn unit() -> F {
        <F as Scalar>::one()
    }

    fn unbounded() -> F {
        <F as Scalar>::infinity()
    }

    fn tolerance() -> F {
        <F as Scalar>::epsilon()
    }

    fn half_turn() -> F {
        <F as Scalar>::pi()
    }

    fn of_u32(n: u32) -> F {
        <F as Scalar>::from_u32(n)
    }

    fn of_i32(n: i32) -> F {
        <F as Scalar>::from_i32(n)
    }

    fn sum(self, rhs: F) -> F {
        <F as Scalar>::add(self, rhs)
    }

    fn difference(self, rhs: F) -> F {
        <F as Scalar>::sub(self, rhs)
    }

    fn product(self, rhs: F) -> F {
        <F as Scalar>::mul(self, rhs)
    }

    fn quotient(self, rhs: F) -> F {
        <F as Scalar>::div(self, rhs)
    }

    fn remainder(self, rhs: F) -> F {
        <F as Scalar>::rem(self, rhs)
    }

    fn upper(self, rhs: F) -> F {
        <F as Scalar>::max(self, rhs)
    }

    fn lower(self, rhs: F) -> F {
        <F as Scalar>::min(self, rhs)
    }

    fn below(self, rhs: F) -> bool {
        <F as Scalar>::lt(self, rhs)
    }

    fn at_most(self, rhs: F) -> bool {
        <F as Scalar>::le(self, rhs)
    }

    fn same(self, rhs: F) -> bool {
        <F as Scalar>::eq(self, rhs)
    }

    fn negation(self) -> F {
        <F as Scalar>::neg(self)
    }

    fn root(self) -> F {
        <F as Scalar>::sqrt(self)
    }

    fn magnitude(self) -> F {
        <F as Scalar>::abs(self)
    }

    fn nearest(self) -> i32 {
        <F as Scalar>::round(self)
    }

    fn whole_below(self) -> i32 {
        <F as Scalar>::floor(self)
    }

    fn whole_above(self) -> i32 {
        <F as Scalar>::ceil(self)
    }

    fn tangent(self) -> F {
        <F as Scalar>::tan(self)
    }

    fn radians(self) -> F {
        <F as Scalar>::to_radians(self)
    }

    fn degrees(self) -> F {
        <F as Scalar>::to_degrees(self)
    }

    fn arc_sine(self) -> F {
        <F as Scalar>::asin(self)
    }

    fn sine(self) -> F {
        <F as Scalar>::sin(self)
    }

    fn cosine(self) -> F {
        <F as Scalar>::cos(self)
    }

    fn arc_cosine(self) -> F {
        <F as Scalar>::acos(self)
    }

    fn cube_root(self) -> F {
        <F as Scalar>::cbrt(self)
    }

    fn arc_tangent(self, x: F) -> F {
        <F as Scalar>::atan2(self, x)
    }

    fn zero() -> F {
        F(0.0)
    }

    fn one() -> F {
        F(1.0)
    }

    fn infinity() -> F {
        F(f64::INFINITY)
    }

    fn epsilon() -> F {
        F(f64::EPSILON * 10000.0)
    }

    fn pi() -> F {
        F(std::f64::consts::PI)
    }

    fn from_u32(n: u32) -> F {
        F(f64::from(n))
    }

    fn from_i32(n: i32) -> F {
        F(f64::from(n))
    }

    fn add(self, rhs: F) -> F {
        F(self.0 + rhs.0)
    }

    fn sub(self, rhs: F) -> F {
        F(self.0 - rhs.0)
    }

    fn mul(self, rhs: F) -> F {
        F(self.0 * rhs.0)
    }

    fn div(self, rhs: F) -> F {
        F(self.0 / rhs.0)
    }

    fn rem(self, rhs: F) -> F {
        F(self.0 % rhs.0)
    }

    fn neg(self) -> F {
        F(-self.0)
    }

    fn sqrt(self) -> F {
        F(self.0.sqrt())
    }

    fn abs(self) -> F {
        F(self.0.abs())
    }

    fn max(self, rhs: F) -> F {
        F(self.0.max(rhs.0))
    }

    fn min(self, rhs: F) -> F {
        F(self.0.min(rhs.0))
    }

    fn lt(self, rhs: F) -> bool {
        self.0 < rhs.0
    }

    fn le(self, rhs: F) -> bool {
        self.0 <= rhs.0
    }

    fn eq(self, rhs: F) -> bool {
        self.0 == rhs.0
    }

    fn round(self) -> i32 {
        self.0.round() as i32
    }

    fn floor(self) -> i32 {
        self.0.floor() as i32
    }

    fn ceil(self) -> i32 {
        self.0.ceil() as i32
    }

    fn tan(self) -> F {
        F(self.0.tan())
    }

    fn to_radians(self) -> F {
        F(self.0.to_radians())
    }

    fn to_degrees(self) -> F {
        F(self.0.to_degrees())
    }

    fn asin(self) -> F {
        F(self.0.asin())
    }

    fn atan2(self, x: F) -> F {
        F(self.0.atan2(x.0))
    }

    fn sin(self) -> F {
        F(self.0.sin())
    }

    fn cos(self) -> F {
        F(self.0.cos())
    }

    fn acos(self) -> F {
        F(self.0.acos())
    }

    fn cbrt(self) -> F {
        F(self.0.powf(1.0 / 3.0))
    }
}

/// A small generator with a fixed seed, so that a test sees the same draws
/// each time.
struct Lcg(u64);

impl Lcg {
    fn step(&mut self) -> f64 {
        self.0 = self.0.wrapping_mul(6364136223846793005).wrapping_add(1442695040888963407);
        ((self.0 >> 11) as f64) / ((1u64 << 53) as f64)
    }
}

impl Sampler<F> for Lcg {
    fn next_unit(&mut self) -> F {
        F(self.step())
    }
}

fn v(x: f64, y: f64, z: f64) -> Vec3<F> {
    Vec3 { x: F(x), y: F(y), z: F(z) }
}

fn rgb(r: f64, g: f64, b: f64) -> ColorRGBA<F> {
    ColorRGBA::new_rgb(F(r), F(g), F(b))
}

fn channels(c: ColorRGBA<F>) -> (f64, f64, f64) {
    (c.r.0, c.g.0, c.b.0)
}

/// A surface for the tests: it scatters its colour by the angle to the
/// light, and mirrors or refracts if told to.
#[derive(Clone, Copy)]
struct Paint {
    albedo: ColorRGBA<F>,
    reflective: bool,
    refractive: bool,
    glossy: bool,
    ior: f64,
    passing: ColorRGBA<F>,
}

fn matte(r: f64, g: f64, b: f64) -> Paint {
    Paint {
        albedo: rgb(r, g, b),
        reflective: false,
        refractive: false,
        glossy: false,
        ior: 1.0,
        passing: rgb(0.0, 0.0, 0.0),
    }
}

impl Material<F> for Paint {
    // The names under which contracts speak of the answers.

    fn shade(&self, n: Vec3<F>, i: Vec3<F>, l: Vec3<F>, u: F, v: F) -> ColorRGBA<F> {
        self.sample(n, i, l, u, v)
    }

    fn reflective(&self) -> bool {
        self.is_reflective()
    }

    fn refractive(&self) -> bool {
        self.is_refractive()
    }

    fn passing(&self) -> ColorRGBA<F> {
        self.transmission()
    }

    fn index(&self) -> F {
        self.ior()
    }

    fn glossy(&self) -> bool {
        self.is_glossy()
    }

    fn gloss(&self) -> F {
        self.glossiness()
    }

    fn diffuse_share(&self) -> F {
        self.p_diffuse()
    }

    fn specular_share(&self) -> F {
        self.p_specular()
    }

    fn transmissive_share(&self) -> F {
        self.p_transmit()
    }

    fn specular(&self, color: ColorRGBA<F>) -> ColorRGBA<F> {
        self.global_specular(&color)
    }

    fn transmissive(&self, color: ColorRGBA<F>) -> ColorRGBA<F> {
        self.global_transmissive(&color)
    }

    fn sample(&self, n: Vec3<F>, _i: Vec3<F>, l: Vec3<F>, _u: F, _v: F) -> ColorRGBA<F> {
        self.albedo * n.dot(&l).max(F(0.0))
    }

    fn is_reflective(&self) -> bool {
        self.reflective
    }

    fn is_refractive(&self) -> bool {
        self.refractive
    }

    fn global_specular(&self, color: &ColorRGBA<F>) -> ColorRGBA<F> {
        *color * F(0.5)
    }

    fn global_transmissive(&self, color: &ColorRGBA<F>) -> ColorRGBA<F> {
        *color * F(0.25)
    }

    fn transmission(&self) -> ColorRGBA<F> {
        self.passing
    }

    fn ior(&self) -> F {
        F(self.ior)
    }

    fn is_glossy(&self) -> bool {
        self.glossy
    }

    fn glossiness(&self) -> F {
        F(0.1)
    }

    fn p_diffuse(&self) -> F {
        F(0.5)
    }

    fn p_specular(&self) -> F {
        F(0.1)
    }

    fn p_transmit(&self) -> F {
        F(0.1)
    }
}

/// A sky that depends on where one looks.
struct Gradient;

impl Background<F> for Gradient {
    fn sky(&self, dir: Vec3<F>) -> ColorRGBA<F> {
        self.color(dir)
    }

    fn color(&self, dir: Vec3<F>) -> ColorRGBA<F> {
        rgb(dir.x.0.abs(), dir.y.0.abs(), dir.z.0.abs())
    }
}

fn options(reflect: u32, refract: u32, shadows: u32) -> RenderOptions {
    RenderOptions {
        reflect_depth: reflect,
        refract_depth: refract,
        shadow_samples: shadows,
        gloss_samples: 1,
        pixel_samples: 1,
    }
}

fn ball(x: f64, y: f64, z: f64, radius: f64, material: Paint) -> Sphere<F, Paint> {
    Sphere { center: v(x, y, z), radius: F(radius), material }
}

fn scene_of(
    balls: Vec<Sphere<F, Paint>>,
    lights: Vec<PointLight<F>>,
    background: ColorRGBA<F>,
) -> Scene<Sphere<F, Paint>, PointLight<F>, ColorBackground<F>> {
    Scene { lights, octree: Octree::from_iter(balls), background: ColorBackground::new(background) }
}

fn trace<P: Prim<F>, L: Light<F>, B: Background<F>>(
    scene: &Scene<P, L, B>,
    ray: &Ray<F>,
    options: RenderOptions,
) -> ColorRGBA<F> {
    let mut sampler = Lcg(7);
    Renderer::trace(scene, ray, options, false, &None, F(0.0), 0, &mut sampler)
}

fn plain_renderer(options: RenderOptions) -> Renderer<F> {
    Renderer {
        tasks: Some(2),
        options,
        photons: 0,
        photon_bounces: 0,
        photon_spread: F(0.1),
        photon_samples: 0,
        photon_attempts: 0,
    }
}

#[test]
fn it_renders_the_background_of_an_empty_scene() {
    let camera = Camera::new(
        Vec3 { x: F(0.0), y: F(0.0), z: F(0.0) },
        Vec3 { x: F(0.0), y: F(1.0), z: F(0.0) },
        Vec3 { x: F(0.0), y: F(0.0), z: F(1.0) },
        F(45.0),
        32,
        32,
    );

    let test_scene: Scene<Sphere<F, Paint>, PointLight<F>, ColorBackground<F>> = Scene {
        lights: vec![],
        octree: Octree::from_iter(vec![]),
        background: ColorBackground::black(),
    };

    let render_options = RenderOptions {
        reflect_depth: 1,
        refract_depth: 1,
        shadow_samples: 1,
        gloss_samples: 1,
        pixel_samples: 1,
    };

    let renderer = plain_renderer(render_options);
    let mut sampler = Lcg(1);
    let image_data = renderer.render(&camera, &test_scene, &mut sampler);

    assert_eq!(image_data.buffer.len(), 32 * 32);
    // A black background renders black: no pixel holds any red, green or blue.
    for color in image_data.buffer.iter() {
        assert_eq!(color.r, 0);
        assert_eq!(color.g, 0);
        assert_eq!(color.b, 0);
    }
}

#[test]
fn an_empty_scene_renders_as_the_stored_background() {
    let camera = Camera::new(v(0.0, 0.0, 0.0), v(0.0, 1.0, 0.0), v(0.0, 0.0, 1.0), F(45.0), 32, 32);
    let scene = scene_of(vec![], vec![], rgb(0.3, 0.5, 0.8));
    let renderer = plain_renderer(options(1, 1, 1));
    let mut sampler = Lcg(1);
    let image = renderer.render(&camera, &scene, &mut sampler);
    assert_eq!((image.width, image.height), (32, 32));
    assert_eq!(image.buffer.len(), 1024);
    for pixel in image.buffer.iter() {
        assert_eq!((pixel.r, pixel.g, pixel.b, pixel.a), (77, 128, 204, 255));
    }
}

#[test]
fn a_picture_that_is_no_multiple_of_the_tile_size_is_filled_to_the_edge() {
    let camera = Camera::new(v(0.0, 0.0, 0.0), v(0.0, 1.0, 0.0), v(0.0, 0.0, 1.0), F(45.0), 130, 11);
    let scene = scene_of(vec![], vec![], rgb(1.0, 0.0, 0.5));
    let renderer = plain_renderer(options(2, 2, 0));
    let mut sampler = Lcg(1);
    let image = renderer.render(&camera, &scene, &mut sampler);
    assert_eq!(image.buffer.len(), 130 * 11);
    for pixel in image.buffer.iter() {
        assert_eq!((pixel.r, pixel.g, pixel.b, pixel.a), (255, 0, 128, 255));
    }
}

#[test]
fn tiles_of_any_size_give_the_same_picture() {
    // One white light, one ball: no draw is taken for such a picture.
    let camera = Camera::new(v(0.0, 0.0, 0.0), v(0.0, 0.0, 5.0), v(0.0, 1.0, 0.0), F(45.0), 37, 23);
    let scene = scene_of(
        vec![ball(0.0, 0.0, 5.0, 1.5, matte(0.9, 0.5, 0.2))],
        vec![PointLight { position: v(3.0, 4.0, 0.0), color: rgb(1.0, 1.0, 1.0) }],
        rgb(0.3, 0.5, 0.8),
    );
    let renderer = plain_renderer(options(2, 2, 0));
    let whole = renderer.render_tiled(&camera, &scene, 37, 23, &mut Lcg(1));
    assert_eq!((whole.width, whole.height, whole.buffer.len()), (37, 23, 37 * 23));
    let pixels = |s: &raytracer::surface::Surface| -> Vec<(u8, u8, u8, u8)> {
        s.buffer.iter().map(|p| (p.r, p.g, p.b, p.a)).collect()
    };
    // The ball shows: not every pixel is the background.
    assert!(pixels(&whole).iter().any(|&p| p != (77, 128, 204, 255)));
    assert!(pixels(&whole).iter().any(|&p| p == (77, 128, 204, 255)));
    for &(tw, th) in [(128usize, 8usize), (8, 5), (1, 1), (37, 1), (1000, 1000), (36, 22)].iter() {
        let tiled = renderer.render_tiled(&camera, &scene, tw, th, &mut Lcg(99));
        assert_eq!((tiled.width, tiled.height), (37, 23));
        assert_eq!(pixels(&tiled), pixels(&whole));
    }
    assert_eq!(pixels(&renderer.render(&camera, &scene, &mut Lcg(5))), pixels(&whole));
}

#[test]
fn trace_returns_the_background_of_an_empty_scene() {
    let scene: Scene<Sphere<F, Paint>, PointLight<F>, Gradient> =
        Scene { lights: vec![], octree: Octree::from_iter(vec![]), background: Gradient };
    for &(x, y, z) in [(0.0, 0.0, 1.0), (0.3, -0.4, 0.5), (-1.0, 0.25, 0.0)].iter() {
        let ray = Ray::new(v(1.0, 2.0, 3.0), v(x, y, z));
        let c = trace(&scene, &ray, options(3, 3, 4));
        assert_eq!(channels(c), (x.abs(), y.abs(), z.abs()));
    }
}

#[test]
fn trace_with_a_spent_budget_is_black() {
    let scene = scene_of(
        vec![ball(0.0, 0.0, 5.0, 1.0, matte(1.0, 1.0, 1.0))],
        vec![PointLight { position: v(0.0, 4.0, 0.0), color: rgb(1.0, 1.0, 1.0) }],
        rgb(0.3, 0.5, 0.8),
    );
    let hitting = Ray::new(v(0.0, 0.0, 0.0), v(0.0, 0.0, 1.0));
    let missing = Ray::new(v(0.0, 0.0, 0.0), v(0.0, 1.0, 0.0));
    for ray in [hitting, missing].iter() {
        for &(reflect, refract) in [(0, 5), (5, 0), (0, 0)].iter() {
            let c = trace(&scene, ray, options(reflect, refract, 1));
            assert_eq!((c.r.0, c.g.0, c.b.0, c.a.0), (0.0, 0.0, 0.0, 1.0));
        }
    }
}

#[test]
fn one_light_without_shadows_gives_light_times_answer() {
    let paint = matte(0.9, 0.5, 0.1);
    let light = PointLight { position: v(0.0, 4.0, 0.0), color: rgb(0.8, 0.7, 0.6) };
    let scene = scene_of(vec![ball(0.0, 0.0, 5.0, 1.0, paint)], vec![light], rgb(0.3, 0.5, 0.8));
    let ray = Ray::new(v(0.0, 0.0, 0.0), v(0.0, 0.0, 1.0));
    let hit = ray.get_nearest_hit(&scene).unwrap();
    assert_eq!(hit.t, F(4.0));
    let n = hit.n.unit();
    let i = (-ray.direction).unit();
    let l = (light.position - hit.position).unit();
    let expected = light.color * paint.sample(n, i, l, hit.u, hit.v);
    assert!(expected.r.0 > 0.0);
    let c = trace(&scene, &ray, options(2, 2, 0));
    assert_eq!(channels(c), channels(expected));
    assert_eq!(channels(c), (0.8 * (0.9 * n.dot(&l).0), 0.7 * (0.5 * n.dot(&l).0), 0.6 * (0.1 * n.dot(&l).0)));
}

#[test]
fn a_material_that_ignores_light_shows_its_colour() {
    let flat = FlatMaterial { color: rgb(0.2, 0.4, 0.6) };
    // Whatever the normal, the viewer and the light: the answer is the colour.
    for &(a, b, c) in [(0.0, 0.0, -1.0), (1.0, 0.0, 0.0), (0.3, -0.2, 0.9)].iter() {
        let s = flat.sample(v(a, b, c), v(b, c, a), v(c, a, b), F(a), F(b));
        assert_eq!(channels(s), (0.2, 0.4, 0.6));
    }
    assert!(!flat.is_reflective());
    assert!(!flat.is_refractive());

    let sphere = Sphere { center: v(0.0, 0.0, 0.0), radius: F(1.0), material: flat };
    let ray = Ray::new(v(0.0, 0.0, -5.0), v(0.0, 0.0, 1.0));
    for &(x, y, z) in [(0.0, 0.0, -9.0), (7.0, 3.0, 1.0), (0.0, -20.0, 0.5)].iter() {
        let scene = Scene {
            lights: vec![PointLight { position: v(x, y, z), color: rgb(1.0, 1.0, 1.0) }],
            octree: Octree::from_iter(vec![Sphere { ..sphere }]),
            background: ColorBackground::new(rgb(0.0, 0.0, 0.0)),
        };
        let c = trace(&scene, &ray, options(3, 3, 0));
        assert_eq!(channels(c), (0.2, 0.4, 0.6));
    }
}

#[test]
fn an_opaque_occluder_casts_a_black_shadow() {
    let paint = matte(1.0, 1.0, 1.0);
    let light = PointLight { position: v(0.0, 4.0, 0.0), color: rgb(1.0, 1.0, 1.0) };
    let lit = scene_of(vec![ball(0.0, 0.0, 5.0, 1.0, paint)], vec![light], rgb(0.0, 0.0, 0.0));
    let shadowed = scene_of(
        vec![ball(0.0, 0.0, 5.0, 1.0, paint), ball(0.0, 2.0, 2.0, 0.5, paint)],
        vec![light],
        rgb(0.0, 0.0, 0.0),
    );
    let ray = Ray::new(v(0.0, 0.0, 0.0), v(0.0, 0.0, 1.0));
    let open = trace(&lit, &ray, options(2, 2, 1));
    assert!(open.r.0 > 0.1);
    let dark = trace(&shadowed, &ray, options(2, 2, 1));
    assert_eq!(channels(dark), (0.0, 0.0, 0.0));
    // With shadows off the occluder is not asked.
    let unasked = trace(&shadowed, &ray, options(2, 2, 0));
    assert_eq!(channels(unasked), channels(trace(&lit, &ray, options(2, 2, 0))));
}

#[test]
fn a_coloured_occluder_casts_a_coloured_shadow() {
    let paint = matte(1.0, 1.0, 1.0);
    let glass = Paint { passing: rgb(0.5, 1.0, 0.25), ..matte(0.0, 0.0, 0.0) };
    let light = PointLight { position: v(0.0, 4.0, 0.0), color: rgb(1.0, 1.0, 1.0) };
    let open = scene_of(vec![ball(0.0, 0.0, 5.0, 1.0, paint)], vec![light], rgb(0.0, 0.0, 0.0));
    let tinted = scene_of(
        vec![ball(0.0, 0.0, 5.0, 1.0, paint), ball(0.0, 2.0, 2.0, 0.5, glass)],
        vec![light],
        rgb(0.0, 0.0, 0.0),
    );
    let ray = Ray::new(v(0.0, 0.0, 0.0), v(0.0, 0.0, 1.0));
    let full = trace(&open, &ray, options(2, 2, 1));
    let part = trace(&tinted, &ray, options(2, 2, 1));
    assert_eq!(channels(part), (full.r.0 * 0.5, full.g.0 * 1.0, full.b.0 * 0.25));
}

#[test]
fn an_area_light_is_sampled_as_often_as_asked() {
    struct Counting(Lcg, usize);
    impl Sampler<F> for Counting {
        fn next_unit(&mut self) -> F {
            self.1 += 1;
            self.0.next_unit()
        }
    }
    let paint = matte(1.0, 1.0, 1.0);
    let lamp = SphereLight { position: v(0.0, 4.0, 0.0), color: rgb(1.0, 1.0, 1.0), radius: F(0.5) };
    let scene = Scene {
        lights: vec![lamp],
        octree: Octree::from_iter(vec![ball(0.0, 0.0, 5.0, 1.0, paint)]),
        background: ColorBackground::new(rgb(0.0, 0.0, 0.0)),
    };
    let ray = Ray::new(v(0.0, 0.0, 0.0), v(0.0, 0.0, 1.0));
    for &samples in [0u32, 1, 5].iter() {
        let mut sampler = Counting(Lcg(3), 0);
        let c = Renderer::trace(&scene, &ray, options(2, 2, samples), false, &None, F(0.0), 0, &mut sampler);
        assert!(c.r.0 > 0.1);
        // Three draws place the light once.
        assert_eq!(sampler.1, 3 * samples as usize);
    }
    assert!(!lamp.is_point());
    assert_eq!(lamp.center(), v(0.0, 4.0, 0.0));
    assert_eq!(lamp.jittered(F(0.5), F(1.0), F(0.0)), v(0.0, 4.25, -0.25));
}

#[test]
fn a_mirror_shows_the_background_while_its_budget_lasts() {
    let mirror = Paint { reflective: true, ior: 1.5, ..matte(0.0, 0.0, 0.0) };
    let scene = scene_of(vec![ball(0.0, 0.0, 5.0, 1.0, mirror)], vec![], rgb(0.3, 0.5, 0.8));
    let ray = Ray::new(v(0.0, 0.0, 0.0), v(0.0, 0.0, 1.0));
    let hit = ray.get_nearest_hit(&scene).unwrap();
    let n = hit.n.unit();
    let i = (-ray.direction).unit();
    let share = Renderer::fresnel_reflect(F(1.5), &i, &n, false);

    // One reflection allowed: the mirrored ray finds its budget spent.
    let spent = trace(&scene, &ray, options(1, 1, 0));
    assert_eq!(channels(spent), (0.0, 0.0, 0.0));

    // Two allowed: the mirrored ray leaves the scene and sees the background.
    let seen = trace(&scene, &ray, options(2, 1, 0));
    let expected = mirror.global_specular(&rgb(0.3, 0.5, 0.8)) * share;
    assert_eq!(channels(seen), channels(expected));
    assert_eq!(channels(seen), (0.3 * 0.5 * share.0, 0.5 * 0.5 * share.0, 0.8 * 0.5 * share.0));
}

#[test]
fn glass_spends_one_refraction_on_the_way_in_and_one_on_the_way_out() {
    let glass = Paint { refractive: true, ior: 1.5, ..matte(0.0, 0.0, 0.0) };
    let scene = scene_of(vec![ball(0.0, 0.0, 5.0, 1.0, glass)], vec![], rgb(1.0, 1.0, 1.0));
    let ray = Ray::new(v(0.0, 0.0, 0.0), v(0.0, 0.0, 1.0));
    // The ray enters (budget 3 to 2), leaves (2 to 1) and reaches the
    // background with a budget left.
    let through = trace(&scene, &ray, options(1, 3, 0));
    assert!(through.r.0 > 0.0);
    // With a budget of 2 the ray that leaves the sphere is not followed.
    let stuck = trace(&scene, &ray, options(1, 2, 0));
    assert_eq!(channels(stuck), (0.0, 0.0, 0.0));
    // The weight of each passage is what the surface keeps times one less
    // the Fresnel share; at normal incidence that share is r0.
    let r0 = ((1.0f64 - 1.5) / (1.0 + 1.5)) * ((1.0 - 1.5) / (1.0 + 1.5));
    let once = 0.25 * (1.0 - r0);
    assert!((through.r.0 - once * once).abs() < 1e-12);
}

#[test]
fn glossy_reflections_are_averaged() {
    let gloss = Paint { reflective: true, glossy: true, ior: 1.5, ..matte(0.0, 0.0, 0.0) };
    let scene = scene_of(vec![ball(0.0, 0.0, 5.0, 1.0, gloss)], vec![], rgb(0.4, 0.4, 0.4));
    let ray = Ray::new(v(0.0, 0.0, 0.0), v(0.0, 0.0, 1.0));
    let hit = ray.get_nearest_hit(&scene).unwrap();
    let share = Renderer::fresnel_reflect(F(1.5), &(-ray.direction).unit(), &hit.n.unit(), false);
    let mut opts = options(2, 1, 0);
    opts.gloss_samples = 8;
    let c = trace(&scene, &ray, opts);
    // Every turned ray leaves the scene and sees the same background.
    assert!((c.r.0 - 0.4 * 0.5 * share.0).abs() < 1e-12);
}

#[test]
fn fresnel_share_follows_schlick() {
    let n = v(0.0, 1.0, 0.0);
    let straight = v(0.0, 1.0, 0.0);
    let r0 = ((1.0f64 - 1.5) / (1.0 + 1.5)) * ((1.0 - 1.5) / (1.0 + 1.5));
    assert_eq!(Renderer::fresnel_reflect(F(1.5), &straight, &n, false), F(r0));
    assert!((r0 - 0.04).abs() < 1e-15);
    // At a grazing angle everything is reflected.
    let grazing = v(1.0, 0.0, 0.0);
    assert_eq!(Renderer::fresnel_reflect(F(1.5), &grazing, &n, false), F(1.0));
    // At 60 degrees: r0 + (1 - r0) / 32.
    let slanted = v(0.75f64.sqrt(), 0.5, 0.0);
    let share = Renderer::fresnel_reflect(F(1.5), &slanted, &n, false);
    assert!((share.0 - (r0 + (1.0 - r0) * 0.5f64.powi(5))).abs() < 1e-15);
    // Leaving glass beyond the critical angle: total internal reflection.
    let inside_normal = v(0.0, -1.0, 0.0);
    let beyond = v(0.9, 0.435889894354, 0.0);
    assert_eq!(Renderer::fresnel_reflect(F(1.5), &beyond, &inside_normal, true), F(1.0));
    // Equal media reflect nothing head on.
    assert_eq!(Renderer::fresnel_reflect(F(1.0), &straight, &n, false), F(0.0));
}

#[test]
fn the_index_finds_what_a_scan_of_all_primitives_finds() {
    let mut state: u64 = 99;
    let mut draw = move || {
        state = state.wrapping_mul(6364136223846793005).wrapping_add(1442695040888963407);
        ((state >> 11) as f64) / ((1u64 << 53) as f64)
    };
    let mut balls = Vec::new();
    for _ in 0..400 {
        let center = (draw() * 20.0 - 10.0, draw() * 20.0 - 10.0, draw() * 20.0 - 10.0);
        balls.push(ball(center.0, center.1, center.2, 0.05 + draw() * 0.8, matte(1.0, 1.0, 1.0)));
    }
    let copies: Vec<Sphere<F, Paint>> = balls.iter().map(|b| Sphere { ..*b }).collect();
    let scene = scene_of(balls, vec![], rgb(0.0, 0.0, 0.0));
    let mut hits = 0;
    for _ in 0..300 {
        let origin = v(draw() * 30.0 - 15.0, draw() * 30.0 - 15.0, draw() * 30.0 - 15.0);
        let direction = v(draw() - 0.5, draw() - 0.5, draw() - 0.5).unit();
        let ray = Ray::new(origin, direction);
        let mut nearest: Option<f64> = None;
        for b in copies.iter() {
            if let Some(h) = b.intersects(&ray, F::epsilon(), F::infinity()) {
                if nearest.map_or(true, |t| h.t.0 < t) {
                    nearest = Some(h.t.0);
                }
            }
        }
        let found = ray.get_nearest_hit(&scene).map(|h| h.t.0);
        assert_eq!(found, nearest);
        if found.is_some() {
            hits += 1;
        }
    }
    assert!(hits > 20);
}

#[test]
fn a_sphere_is_hit_where_the_ray_enters() {
    let s = ball(0.0, 0.0, 5.0, 1.0, matte(1.0, 1.0, 1.0));
    let ray = Ray::new(v(0.0, 0.0, 0.0), v(0.0, 0.0, 1.0));
    let hit = s.intersects(&ray, F::epsilon(), F::infinity()).unwrap();
    assert_eq!(hit.t, F(4.0));
    assert_eq!(hit.position, v(0.0, 0.0, 4.0));
    assert_eq!(hit.n, v(0.0, 0.0, -1.0));
    assert_eq!(hit.u, F(0.5 + (-1.0f64).atan2(0.0) / (2.0 * std::f64::consts::PI)));
    assert_eq!(hit.v, F(0.5));
    // A ray that passes by, and one that only touches.
    assert!(s.intersects(&Ray::new(v(0.0, 2.0, 0.0), v(0.0, 0.0, 1.0)), F::epsilon(), F::infinity()).is_none());
    assert!(s.intersects(&Ray::new(v(0.0, 1.0, 0.0), v(0.0, 0.0, 1.0)), F::epsilon(), F::infinity()).is_none());
    // Out of the window.
    assert!(s.intersects(&ray, F::epsilon(), F(3.0)).is_none());
    assert!(s.intersects(&ray, F(6.5), F(100.0)).is_none());
}

#[test]
fn a_ray_from_inside_a_sphere_hits_where_it_leaves() {
    let s = ball(0.0, 0.0, 0.0, 1.0, matte(1.0, 1.0, 1.0));
    let ray = Ray::new(v(0.0, 0.0, -0.5), v(0.0, 0.0, 1.0));
    // The line meets the sphere at -0.5 and at 1.5; only the second lies ahead.
    let hit = s.intersects(&ray, F::epsilon(), F::infinity()).unwrap();
    assert_eq!(hit.t, F(1.5));
    assert_eq!(hit.position, v(0.0, 0.0, 1.0));
    assert_eq!(hit.n, v(0.0, 0.0, 1.0));
    // With both in the window the smaller is taken, whatever its magnitude.
    let both = s.intersects(&ray, F(-10.0), F(10.0)).unwrap();
    assert_eq!(both.t, F(-0.5));
    // With the far hit cut off, the near one is the only one left.
    let near = s.intersects(&ray, F(-10.0), F(1.0)).unwrap();
    assert_eq!(near.t, F(-0.5));
    assert!(s.intersects(&ray, F(0.0), F(1.0)).is_none());
    // From outside, the far hit is taken once the near one is cut off.
    let outside = Ray::new(v(0.0, 0.0, -5.0), v(0.0, 0.0, 1.0));
    assert_eq!(s.intersects(&outside, F::epsilon(), F::infinity()).unwrap().t, F(4.0));
    assert_eq!(s.intersects(&outside, F(5.0), F::infinity()).unwrap().t, F(6.0));
}

#[test]
fn a_sphere_has_bounds_rounded_outward() {
    let s = ball(0.0, 0.5, -1.0, 0.3, matte(1.0, 1.0, 1.0));
    let b = s.partial_bounding_box().unwrap();
    assert_eq!(b, BBox::new(Cell::new(-308, 204, -1332), Cell::new(308, 820, -716)));
}

#[test]
fn a_ray_meets_the_boxes_it_passes_through() {
    let unit = BBox::new(Cell::new(0, 0, 0), Cell::new(1024, 1024, 1024));
    let along = Ray::new(v(-1.0, 0.5, 0.5), v(1.0, 0.0, 0.0));
    assert!(along.meets(&unit));
    assert!(unit.intersects(&along));
    let away = Ray::new(v(-1.0, 0.5, 0.5), v(-1.0, 0.0, 0.0));
    assert!(!away.meets(&unit));
    let past = Ray::new(v(-1.0, 1.5, 0.5), v(1.0, 0.0, 0.0));
    assert!(!past.meets(&unit));
    let within = Ray::new(v(0.5, 0.5, 0.5), v(0.0, 0.0, 1.0));
    assert!(within.meets(&unit));
    let slanted = Ray::new(v(-1.0, -1.0, -1.0), v(1.0, 1.0, 1.0));
    assert!(slanted.meets(&unit));
}

#[test]
fn the_camera_looks_through_the_middle_of_the_picture() {
    let camera = Camera::new(v(0.0, 0.0, 0.0), v(0.0, 0.0, 1.0), v(0.0, 1.0, 0.0), F(45.0), 11, 11);
    assert_eq!(camera.eye, v(0.0, 0.0, 1.0));
    assert_eq!(camera.half_width, F(45.0f64.to_radians().tan()));
    assert_eq!(camera.pixel_width, F(45.0f64.to_radians().tan() * 2.0 / 10.0));
    let ray = camera.get_ray(F(5.0), F(5.0));
    assert_eq!(ray.origin, v(0.0, 0.0, 0.0));
    assert!(ray.direction.x.0.abs() < 1e-12 && ray.direction.y.0.abs() < 1e-12);
    assert!((ray.direction.z.0 - 1.0).abs() < 1e-12);
    let corner = camera.get_ray(F(0.0), F(0.0));
    assert!((corner.direction.len().0 - 1.0).abs() < 1e-12);
    assert!(corner.direction.y.0 < 0.0);
}

fn photon(x: f64, power: f64) -> Photon<F> {
    Photon { position: v(x, 0.0, 0.0), incoming_dir: v(0.0, 1.0, 0.0), power: rgb(power, power, power) }
}

fn gather(map: &PhotonMap<F>, spread: f64, max: usize) -> Vec<PhotonQuery<F>> {
    let mut heap = Vec::new();
    map.query_nearest(&mut heap, v(0.0, 0.0, 0.0), F(spread), max);
    heap
}

#[test]
fn a_search_keeps_the_nearest_photons_within_the_spread() {
    assert!(PhotonMap::<F>::new_from_photons(vec![]).is_none());
    let map = PhotonMap::new_from_photons(vec![
        photon(3.0, 1.0),
        photon(1.0, 2.0),
        photon(5.0, 3.0),
        photon(2.0, 4.0),
        photon(0.5, 5.0),
    ])
    .unwrap();
    let mut found: Vec<f64> = gather(&map, 4.0, 10).iter().map(|q| q.distance_to_point.0).collect();
    assert_eq!(found, vec![3.0, 1.0, 2.0, 0.5]);
    found = gather(&map, 4.0, 2).iter().map(|q| q.distance_to_point.0).collect();
    found.sort_by(|a, b| a.partial_cmp(b).unwrap());
    assert_eq!(found, vec![0.5, 1.0]);
    assert_eq!(gather(&map, 4.0, 0).len(), 0);
    assert_eq!(gather(&map, 0.5, 10).len(), 0);
    // A photon at the spread itself is out.
    assert_eq!(gather(&map, 1.0, 10).len(), 1);
}

#[test]
fn fewer_than_two_photons_give_no_indirect_light() {
    let flat = FlatMaterial { color: rgb(1.0, 1.0, 1.0) };
    let sphere = Sphere { center: v(0.0, 0.0, -1.0), radius: F(1.0), material: flat };
    let ray = Ray::new(v(0.0, 0.0, 5.0), v(0.0, 0.0, -1.0));
    let hit = sphere.intersects(&ray, F::epsilon(), F::infinity()).unwrap();
    assert_eq!(hit.position, v(0.0, 0.0, 0.0));
    let n = v(0.0, 0.0, 1.0);
    let map = PhotonMap::new_from_photons(vec![photon(1.0, 2.0), photon(2.0, 3.0), photon(9.0, 4.0)]).unwrap();
    for &(spread, max) in [(0.5, 10usize), (1.5, 10), (5.0, 1), (5.0, 0)].iter() {
        let c = Renderer::estimate_indirect_irradiance(&map, F(spread), max, &hit, &n, &n);
        assert_eq!((c.r.0, c.g.0, c.b.0, c.a.0), (0.0, 0.0, 0.0, 0.0));
    }
    // Two photons within reach: their power over the disc to the farther one.
    let c = Renderer::estimate_indirect_irradiance(&map, F(5.0), 10, &hit, &n, &n);
    let expected = (2.0 + 3.0) * ((1.0 / std::f64::consts::PI) / (2.0 * 2.0));
    assert_eq!(channels(c), (expected, expected, expected));
    assert!(c.r.0.is_finite() && c.r.0 >= 0.0);
}

#[test]
fn a_photon_map_adds_indirect_light_to_a_hit() {
    let flat = FlatMaterial { color: rgb(1.0, 1.0, 1.0) };
    let scene = Scene {
        lights: Vec::<PointLight<F>>::new(),
        octree: Octree::from_iter(vec![Sphere { center: v(0.0, 0.0, -1.0), radius: F(1.0), material: flat }]),
        background: ColorBackground::new(rgb(0.0, 0.0, 0.0)),
    };
    let ray = Ray::new(v(0.0, 0.0, 5.0), v(0.0, 0.0, -1.0));
    let map = PhotonMap::new_from_photons(vec![photon(1.0, 2.0), photon(2.0, 3.0)]);
    let mut sampler = Lcg(5);
    let without = Renderer::trace(&scene, &ray, options(1, 1, 0), false, &None, F(5.0), 10, &mut sampler);
    assert_eq!(channels(without), (0.0, 0.0, 0.0));
    let with = Renderer::trace(&scene, &ray, options(1, 1, 0), false, &map, F(5.0), 10, &mut sampler);
    let expected = (2.0 + 3.0) * ((1.0 / std::f64::consts::PI) / 4.0);
    assert_eq!(channels(with), (expected, expected, expected));
}

#[test]
fn what_becomes_of_a_photon() {
    let classify = |spin: f64, bounces: usize, caustic: bool, refractive: bool, reflective: bool| {
        Renderer::classify(F(spin), F(0.2), F(0.4), bounces, caustic, refractive, reflective)
    };
    assert_eq!(classify(0.1, 1, false, false, false), Interaction::Store);
    // Light straight from the lamp is not stored.
    assert_eq!(classify(0.1, 0, false, false, false), Interaction::Lost);
    assert_eq!(classify(0.3, 1, true, false, false), Interaction::Lost);
    assert_eq!(classify(0.3, 1, true, true, false), Interaction::Transmit);
    assert_eq!(classify(0.3, 0, false, false, false), Interaction::Transmit);
    assert_eq!(classify(0.7, 0, false, false, false), Interaction::Reflect);
    assert_eq!(classify(0.7, 3, true, false, true), Interaction::Reflect);
    assert_eq!(classify(0.2, 3, false, false, true), Interaction::Transmit);
}

#[test]
fn photons_are_shot_until_enough_are_stored_or_tried() {
    let paint = matte(1.0, 1.0, 1.0);
    let scene = scene_of(
        vec![ball(0.0, 0.0, 0.0, 50.0, paint)],
        vec![PointLight { position: v(0.0, 0.0, 0.0), color: rgb(1.0, 1.0, 1.0) }],
        rgb(0.0, 0.0, 0.0),
    );
    let mut sampler = Lcg(11);
    assert!(Renderer::shoot_photons(&scene, 0, F(0.01), 5, 100, &mut sampler).is_none());
    assert!(Renderer::shoot_photons(&scene, 10, F(0.01), 5, 0, &mut sampler).is_none());
    assert!(Renderer::shoot_photons(&scene, 10, F(0.01), 0, 100, &mut sampler).is_none());
    let stored = Renderer::shoot_photons(&scene, 10, F(0.01), 8, 10_000, &mut sampler).unwrap();
    // The light sits inside a matte sphere: every photon meets it, and the
    // map without caustics fills up.
    let found = {
        let mut heap = Vec::new();
        stored.query_nearest(&mut heap, v(0.0, 0.0, 0.0), F(1000.0), 100);
        heap
    };
    assert!(found.len() >= 5 && found.len() <= 10);
    for q in found.iter() {
        assert!(q.distance_to_point.0 < 1000.0);
        assert!(q.photon.power.r.0 <= 1.0 && q.photon.power.r.0 >= 0.01 / 3.0f64.sqrt());
    }
    let none: Scene<Sphere<F, Paint>, PointLight<F>, ColorBackground<F>> = Scene {
        lights: vec![],
        octree: Octree::from_iter(vec![]),
        background: ColorBackground::black(),
    };
    assert!(Renderer::shoot_photons(&none, 10, F(0.01), 5, 100, &mut sampler).is_none());
}

#[test]
fn a_photon_path_stores_at_most_one_photon() {
    let paint = matte(1.0, 1.0, 1.0);
    let scene = scene_of(vec![ball(0.0, 0.0, 0.0, 50.0, paint)], vec![], rgb(0.0, 0.0, 0.0));
    let mut sampler = Lcg(21);
    let ray = Ray::new(v(0.0, 0.0, 0.0), v(1.0, 0.0, 0.0));
    let white = rgb(1.0, 1.0, 1.0);
    for _ in 0..200 {
        let got = Renderer::shoot_photon(&scene, &ray, false, F(0.01), white, 6, 0, false, &mut sampler);
        assert!(got.len() <= 1);
    }
    // Too many bounces, too little power, no bounce allowed, nothing to hit.
    assert_eq!(Renderer::shoot_photon(&scene, &ray, false, F(0.01), white, 3, 4, false, &mut sampler).len(), 0);
    let faint = rgb(0.001, 0.001, 0.001);
    assert_eq!(Renderer::shoot_photon(&scene, &ray, false, F(0.01), faint, 3, 1, false, &mut sampler).len(), 0);
    for _ in 0..50 {
        assert_eq!(Renderer::shoot_photon(&scene, &ray, false, F(0.01), white, 0, 0, false, &mut sampler).len(), 0);
    }
    let empty = scene_of(vec![], vec![], rgb(0.0, 0.0, 0.0));
    assert_eq!(Renderer::shoot_photon(&empty, &ray, false, F(0.01), white, 3, 1, false, &mut sampler).len(), 0);
}

#[test]
fn the_number_of_tasks_is_what_is_set_or_what_the_machine_offers() {
    let mut renderer = plain_renderer(options(1, 1, 0));
    assert_eq!(renderer.task_count(8), 2);
    assert_eq!(renderer.workers(), 2);
    renderer.tasks = None;
    assert_eq!(renderer.task_count(8), 8);
    assert!(renderer.workers() >= 1);
}

#[test]
fn supersampling_keeps_a_flat_picture_flat() {
    let camera = Camera::new(v(0.0, 0.0, 0.0), v(0.0, 1.0, 0.0), v(0.0, 0.0, 1.0), F(45.0), 9, 7);
    let scene = scene_of(vec![], vec![], rgb(0.5, 0.25, 1.0));
    let mut opts = options(1, 1, 0);
    opts.pixel_samples = 4;
    let renderer = plain_renderer(opts);
    let mut sampler = Lcg(1);
    let image = renderer.render(&camera, &scene, &mut sampler);
    for pixel in image.buffer.iter() {
        assert_eq!((pixel.r, pixel.g, pixel.b, pixel.a), (128, 64, 255, 255));
    }
}

#[test]
fn a_picture_shows_what_lies_before_the_camera() {
    // A flat red ball in the middle of the picture, blue all around.
    let red = FlatMaterial { color: rgb(1.0, 0.0, 0.0) };
    let scene = Scene {
        lights: vec![PointLight { position: v(0.0, -5.0, 0.0), color: rgb(1.0, 1.0, 1.0) }],
        octree: Octree::from_iter(vec![Sphere { center: v(0.0, 5.0, 0.0), radius: F(1.0), material: red }]),
        background: ColorBackground::new(rgb(0.0, 0.0, 1.0)),
    };
    let camera = Camera::new(v(0.0, 0.0, 0.0), v(0.0, 1.0, 0.0), v(0.0, 0.0, 1.0), F(30.0), 21, 21);
    let renderer = plain_renderer(options(2, 2, 0));
    let mut sampler = Lcg(1);
    let image = renderer.render(&camera, &scene, &mut sampler);
    let middle = image.get(10, 10);
    assert_eq!((middle.r, middle.g, middle.b), (255, 0, 0));
    for &(x, y) in [(0, 0), (20, 0), (0, 20), (20, 20)].iter() {
        let corner = image.get(x, y);
        assert_eq!((corner.r, corner.g, corner.b), (0, 0, 255));
    }
}

#[test]
fn the_uv_texture_shows_the_coordinates() {
    let c = UVTexture.color(F(2.25), F(0.5));
    assert_eq!((c.r.0, c.g.0, c.b.0, c.a.0), (0.25, 0.5, 0.0, 1.0));
    let d = UVTexture.color(F(-0.75), F(3.0));
    assert_eq!((d.r.0, d.g.0, d.b.0), (-0.75, 0.0, 0.0));
}

fn floor(height: f64, material: Paint) -> Plane<F, Paint> {
    // y = height
    Plane { a: F(0.0), b: F(1.0), c: F(0.0), d: F(-height), material }
}

#[test]
fn a_plane_is_met_where_the_ray_crosses_it() {
    let ground = floor(-1.0, matte(1.0, 1.0, 1.0));
    assert!(ground.partial_bounding_box().is_none());
    let down = Ray::new(v(0.0, 2.0, 0.0), v(0.0, -1.0, 0.0));
    let hit = ground.intersects(&down, F::epsilon(), F::infinity()).unwrap();
    assert_eq!(hit.t, F(3.0));
    assert_eq!(hit.position, v(0.0, -1.0, 0.0));
    assert_eq!(hit.n, v(0.0, 1.0, 0.0));
    // A ray along the plane, one that leaves it, and one that meets it too far away.
    let along = Ray::new(v(0.0, 2.0, 0.0), v(1.0, 0.0, 0.0));
    assert!(ground.intersects(&along, F::epsilon(), F::infinity()).is_none());
    let within = Ray::new(v(0.0, -1.0, 0.0), v(1.0, 0.0, 0.0));
    assert!(ground.intersects(&within, F::epsilon(), F::infinity()).is_none());
    let up = Ray::new(v(0.0, 2.0, 0.0), v(0.0, 1.0, 0.0));
    assert!(ground.intersects(&up, F::epsilon(), F::infinity()).is_none());
    assert!(ground.intersects(&down, F::epsilon(), F(2.5)).is_none());
}

#[test]
fn a_ball_casts_its_shadow_on_the_floor() {
    let white = matte(1.0, 1.0, 1.0);
    let scene = Scene {
        lights: vec![PointLight { position: v(0.0, 10.0, 0.0), color: rgb(1.0, 1.0, 1.0) }],
        octree: Octree::from_iter(vec![
            Shape::Plane(floor(0.0, white)),
            Shape::Sphere(ball(0.0, 5.0, 0.0, 1.0, white)),
        ]),
        background: ColorBackground::new(rgb(0.0, 0.0, 1.0)),
    };
    assert_eq!(scene.octree.len(), 2);
    // Straight below the ball the floor is dark; beside it the floor is lit.
    let below = Ray::new(v(0.0, 1.0, -3.0), v(0.0, -1.0, 3.0).unit());
    let c = trace(&scene, &below, options(2, 2, 1));
    assert_eq!(channels(c), (0.0, 0.0, 0.0));
    let beside = Ray::new(v(4.0, 1.0, -3.0), v(0.0, -1.0, 3.0).unit());
    let d = trace(&scene, &beside, options(2, 2, 1));
    assert!(d.r.0 > 0.5);
    // A ray over the horizon sees the sky, one at the ball sees the ball.
    let sky = trace(&scene, &Ray::new(v(0.0, 1.0, -3.0), v(0.0, 1.0, -1.0)), options(2, 2, 1));
    assert_eq!(channels(sky), (0.0, 0.0, 1.0));
    let at_ball = Ray::new(v(0.0, 5.0, -9.0), v(0.0, 0.0, 1.0));
    assert_eq!(at_ball.get_nearest_hit(&scene).unwrap().t, F(8.0));
}

#[test]
fn a_pixel_is_the_mean_of_its_samples() {
    let camera = Camera::new(v(0.0, 0.0, 0.0), v(0.0, 1.0, 0.0), v(0.0, 0.0, 1.0), F(45.0), 9, 7);
    let scene = scene_of(vec![], vec![], rgb(0.5, 0.25, 1.0));
    let mut sampler = Lcg(1);
    for &samples in [1u32, 2, 3].iter() {
        let mut opts = options(1, 1, 0);
        opts.pixel_samples = samples;
        let pixel = Renderer::sample_pixel(&camera, &scene, opts, 4, 3, &None, F(0.0), 0, &mut sampler);
        let per_sample = 1.0 / f64::from(samples * samples);
        let mut sum = (0.0, 0.0, 0.0);
        for _ in 0..samples * samples {
            sum = (sum.0 + 0.5 * per_sample, sum.1 + 0.25 * per_sample, sum.2 + 1.0 * per_sample);
        }
        assert_eq!(
            (pixel.r, pixel.g, pixel.b, pixel.a),
            ((sum.0 * 255.0).round() as u8, (sum.1 * 255.0).round() as u8, (sum.2 * 255.0).round() as u8, 255)
        );
    }
    // What arrives is cut off before it is added: a sky brighter than white
    // counts as white.
    let bright = scene_of(vec![], vec![], rgb(3.0, 0.5, -1.0));
    let pixel = Renderer::sample_pixel(&camera, &bright, options(1, 1, 0), 0, 0, &None, F(0.0), 0, &mut sampler);
    assert_eq!((pixel.r, pixel.g, pixel.b), (255, 128, 0));
}

#[test]
fn what_occluders_let_through_is_multiplied() {
    let red = Paint { passing: rgb(1.0, 0.5, 0.5), ..matte(0.0, 0.0, 0.0) };
    let blue = Paint { passing: rgb(0.5, 0.5, 1.0), ..matte(0.0, 0.0, 0.0) };
    let scene = scene_of(
        vec![ball(0.0, 0.0, 3.0, 1.0, red), ball(0.0, 0.0, 7.0, 1.0, blue)],
        vec![],
        rgb(0.0, 0.0, 0.0),
    );
    let feeler = Ray::new(v(0.0, 0.0, 0.0), v(0.0, 0.0, 1.0));
    // Up to a distance of 10 both occluders are in the way, up to 5 only one.
    let c = Renderer::occluded(&scene, &feeler, F(10.0));
    assert_eq!((c.r.0, c.g.0, c.b.0), (0.5, 0.25, 0.5));
    let d = Renderer::occluded(&scene, &feeler, F(5.0));
    assert_eq!((d.r.0, d.g.0, d.b.0), (1.0, 0.5, 0.5));
    let e = Renderer::occluded(&scene, &feeler, F(1.0));
    assert_eq!((e.r.0, e.g.0, e.b.0), (1.0, 1.0, 1.0));
    let aside = Ray::new(v(0.0, 0.0, 0.0), v(0.0, 1.0, 0.0));
    let f = Renderer::occluded(&scene, &aside, F(100.0));
    assert_eq!((f.r.0, f.g.0, f.b.0), (1.0, 1.0, 1.0));
}

#[test]
fn an_occluder_counts_once_however_often_the_index_hands_it_out() {
    let half = Paint { passing: rgb(0.5, 0.5, 0.5), ..matte(0.0, 0.0, 0.0) };
    let clear = Paint { passing: rgb(1.0, 1.0, 1.0), ..matte(0.0, 0.0, 0.0) };
    // Three primitives make the index split its root once. The occluder in
    // the middle reaches into all eight octants.
    let scene = scene_of(
        vec![ball(0.0, 0.0, 0.0, 1.0, half), ball(-9.0, -9.0, -9.0, 1.0, clear), ball(9.0, 9.0, 9.0, 1.0, clear)],
        vec![],
        rgb(0.0, 0.0, 0.0),
    );
    let feeler = Ray::new(v(0.0, -5.0, 0.0), v(0.0, 1.0, 0.0));
    let mut handed = Vec::new();
    let mut it = scene.octree.intersect_iter(&feeler);
    while let Some((id, candidate)) = it.next_indexed() {
        if candidate.center.x.0 == 0.0 {
            handed.push(id);
        }
    }
    assert!(handed.len() > 1);
    assert!(handed.iter().all(|&id| id == 0));
    let c = Renderer::occluded(&scene, &feeler, F(100.0));
    assert_eq!((c.r.0, c.g.0, c.b.0), (0.5, 0.5, 0.5));
    // The nearest hit does not care how often it is found either.
    assert_eq!(feeler.get_nearest_hit(&scene).unwrap().t, F(4.0));
}

#[test]
fn the_shadow_of_a_point_light_is_one_sample() {
    let white = matte(1.0, 1.0, 1.0);
    let half = Paint { passing: rgb(0.5, 0.5, 0.5), ..matte(0.0, 0.0, 0.0) };
    let light = PointLight { position: v(0.0, 4.0, 0.0), color: rgb(1.0, 1.0, 1.0) };
    let scene = scene_of(
        vec![ball(0.0, 0.0, 5.0, 1.0, white), ball(0.0, 2.0, 2.0, 0.5, half)],
        vec![light],
        rgb(0.0, 0.0, 0.0),
    );
    let ray = Ray::new(v(0.0, 0.0, 0.0), v(0.0, 0.0, 1.0));
    let hit = ray.get_nearest_hit(&scene).unwrap();
    let mut sampler = Lcg(9);
    for &(samples, expected) in [(0u32, 1.0), (1, 0.5), (7, 0.5)].iter() {
        let c = Renderer::shadow_intensity(&scene, &hit, &light, samples, &mut sampler);
        assert_eq!((c.r.0, c.g.0, c.b.0), (expected, expected, expected));
    }
}

fn flat_triangle(z: f64, material: Paint) -> Triangle<F, Paint> {
    Triangle::auto_normal(
        v(0.0, 0.0, z),
        v(4.0, 0.0, z),
        v(0.0, 4.0, z),
        (F(0.0), F(0.0)),
        (F(1.0), F(0.0)),
        (F(0.0), F(1.0)),
        material,
    )
}

#[test]
fn a_triangle_is_hit_inside_its_edges() {
    let t = flat_triangle(5.0, matte(1.0, 1.0, 1.0));
    assert_eq!(t.v0.n, v(0.0, 0.0, 1.0));
    let ray = Ray::new(v(1.0, 2.0, 0.0), v(0.0, 0.0, 1.0));
    let hit = t.intersects(&ray, F::epsilon(), F::infinity()).unwrap();
    assert_eq!(hit.t, F(5.0));
    assert_eq!(hit.position, v(1.0, 2.0, 5.0));
    assert_eq!(hit.n, v(0.0, 0.0, 1.0));
    assert_eq!((hit.u, hit.v), (F(0.25), F(0.5)));
    // On an edge and at a corner the triangle is hit, beyond the long edge it is not.
    assert!(t.intersects(&Ray::new(v(2.0, 2.0, 0.0), v(0.0, 0.0, 1.0)), F::epsilon(), F::infinity()).is_some());
    assert!(t.intersects(&Ray::new(v(0.0, 0.0, 0.0), v(0.0, 0.0, 1.0)), F::epsilon(), F::infinity()).is_some());
    assert!(t.intersects(&Ray::new(v(2.5, 2.0, 0.0), v(0.0, 0.0, 1.0)), F::epsilon(), F::infinity()).is_none());
    assert!(t.intersects(&Ray::new(v(-0.5, 2.0, 0.0), v(0.0, 0.0, 1.0)), F::epsilon(), F::infinity()).is_none());
    // Behind the origin, out of the window, and along the plane.
    assert!(t.intersects(&Ray::new(v(1.0, 2.0, 9.0), v(0.0, 0.0, 1.0)), F::epsilon(), F::infinity()).is_none());
    assert!(t.intersects(&ray, F::epsilon(), F(4.0)).is_none());
    assert!(t.intersects(&Ray::new(v(-1.0, 1.0, 5.0), v(1.0, 0.0, 0.0)), F::epsilon(), F::infinity()).is_none());
    assert_eq!(
        t.partial_bounding_box().unwrap(),
        BBox::new(Cell::new(0, 0, 5120), Cell::new(4096, 4096, 5120))
    );
}

#[test]
fn a_mesh_is_hit_at_its_nearest_triangle() {
    let mesh = Mesh {
        triangles: vec![
            flat_triangle(9.0, matte(0.0, 0.0, 1.0)),
            flat_triangle(5.0, matte(1.0, 0.0, 0.0)),
            flat_triangle(7.0, matte(0.0, 1.0, 0.0)),
        ],
    };
    let ray = Ray::new(v(1.0, 1.0, 0.0), v(0.0, 0.0, 1.0));
    let hit = mesh.intersects(&ray, F::epsilon(), F::infinity()).unwrap();
    assert_eq!(hit.t, F(5.0));
    assert_eq!(channels(hit.material.albedo), (1.0, 0.0, 0.0));
    let from_between = mesh.intersects(&ray, F(6.0), F::infinity()).unwrap();
    assert_eq!(from_between.t, F(7.0));
    assert!(mesh.intersects(&Ray::new(v(9.0, 9.0, 0.0), v(0.0, 0.0, 1.0)), F::epsilon(), F::infinity()).is_none());
    assert_eq!(
        mesh.partial_bounding_box().unwrap(),
        BBox::new(Cell::new(0, 0, 5120), Cell::new(4096, 4096, 9216))
    );
    let empty: Mesh<F, Paint> = Mesh { triangles: vec![] };
    assert!(empty.partial_bounding_box().is_none());
    assert!(empty.intersects(&ray, F::epsilon(), F::infinity()).is_none());

    let scene = Scene {
        lights: Vec::<PointLight<F>>::new(),
        octree: Octree::from_iter(vec![Shape::Mesh(mesh), Shape::Triangle(flat_triangle(3.0, matte(1.0, 1.0, 0.0)))]),
        background: ColorBackground::new(rgb(0.0, 0.0, 0.0)),
    };
    assert_eq!(ray.get_nearest_hit(&scene).unwrap().t, F(3.0));
}

#[test]
fn shapes_move_with_a_transform() {
    let shift = Transform::translation(v(1.0, 2.0, 3.0));
    let mut s = ball(0.0, 0.0, 5.0, 1.0, matte(1.0, 1.0, 1.0));
    s.mut_transform(&shift);
    assert_eq!(s.center, v(1.0, 2.0, 8.0));
    assert_eq!(s.radius, F(1.0));

    let mut t = flat_triangle(5.0, matte(1.0, 1.0, 1.0));
    t.mut_transform(&shift);
    assert_eq!(t.v1.pos, v(5.0, 2.0, 8.0));
    assert_eq!(t.v1.n, v(0.0, 0.0, 1.0));
    t.mut_transform(&Transform::scaling(F(2.0)));
    assert_eq!(t.v1.pos, v(10.0, 4.0, 16.0));

    let mut ground = floor(-1.0, matte(1.0, 1.0, 1.0));
    ground.mut_transform(&shift);
    let down = Ray::new(v(0.0, 5.0, 0.0), v(0.0, -1.0, 0.0));
    assert_eq!(ground.intersects(&down, F::epsilon(), F::infinity()).unwrap().position, v(0.0, 1.0, 0.0));

    let mut shape = Shape::Sphere(ball(0.0, 0.0, 0.0, 1.0, matte(1.0, 1.0, 1.0)));
    shape.mut_transform(&Transform::identity());
    shape.mut_transform(&shift);
    match shape {
        Shape::Sphere(moved) => assert_eq!(moved.center, v(1.0, 2.0, 3.0)),
        _ => panic!("a sphere stays a sphere"),
    }
    let mut mesh = Mesh { triangles: vec![flat_triangle(5.0, matte(1.0, 1.0, 1.0)), flat_triangle(6.0, matte(1.0, 1.0, 1.0))] };
    mesh.mut_transform(&shift);
    assert_eq!(mesh.triangles[1].v0.pos, v(1.0, 2.0, 9.0));
    assert_eq!(shift.apply_vector(&v(1.0, 1.0, 1.0)), v(1.0, 1.0, 1.0));
    assert_eq!(shift.apply_point(&v(1.0, 1.0, 1.0)), v(2.0, 3.0, 4.0));
}
