//! The recursive integrator, the photon pass and the pixel loop.
//!
//! `trace` follows one ray: it finds the surface that the ray reaches first,
//! adds up what each light gives to that point, and follows the reflected
//! and the transmitted ray, each against its own budget.
//!
//! Some of what a render computes is drawn at random: where a light with an
//! extent is seen, how a glossy reflection is turned, where within a pixel a
//! ray passes, what becomes of a photon. Each function that draws is
//! specified by what it returns *for the draws that came back*: `trace`
//! returns `radiance_on` for some `Trail`, `shoot_photon` returns
//! `photon_on` for some path, a pixel is `pixel_on` for some grid of
//! samples. Where no draw is taken (every light is a point or shadows are
//! off, no surface is glossy, one sample per pixel) the results are the
//! functions `radiance` and `still_pixel` of the scene alone.

use crate::camera::Camera;
use crate::colorrgba::ColorRGBA;
use crate::fixed::{lemma_units_are_neutral, Fixed};
use crate::geometry::{Intersection, Prim};
use crate::light::Light;
use crate::material::Material;
use crate::octree::Octree;
use crate::ray::Ray;
use crate::sampler::Sampler;
use crate::scalar::Scalar;
use crate::surface::{
    assembled_pixel, lemma_same_pixels_same_buffer, lemma_tiles_assemble, made_from, shows,
    Surface, SurfaceFactory, SurfaceIterator,
};
use crate::photon::{
    farthest, gathered, lemma_gathered_are_stored, lemma_gathered_len, within, Photon, PhotonMap,
    PhotonQuery,
};
use crate::scene::{lemma_empty_scene_has_no_hit, lemma_first_hit_is_a_strike, Background, Scene};
use crate::vec3::{squared, Vec3};
use core::ops::Neg;
use vstd::prelude::*;

verus! {

/// The budgets of one render.
#[derive(Clone, Copy, Debug)]
pub struct RenderOptions {
    /// How many reflections deep a path may go.
    pub reflect_depth: u32,
    /// How many refractions deep a path may go. Passing through a solid takes
    /// two.
    pub refract_depth: u32,
    /// Shadow rays per area light and hit; 0 switches shadows off.
    pub shadow_samples: u32,
    /// Reflection rays per glossy hit.
    pub gloss_samples: u32,
    /// Side of the grid of samples taken per pixel.
    pub pixel_samples: u32,
}

impl RenderOptions {
    /// The options for what a reflected ray sees.
    pub open spec fn after_reflection(self) -> RenderOptions {
        RenderOptions { reflect_depth: (self.reflect_depth - 1) as u32, ..self }
    }

    /// The options for what a transmitted ray sees.
    pub open spec fn after_refraction(self) -> RenderOptions {
        RenderOptions { refract_depth: (self.refract_depth - 1) as u32, ..self }
    }

    /// Whether a budget is used up, so that nothing more is traced.
    pub open spec fn spent(self) -> bool {
        self.reflect_depth == 0 || self.refract_depth == 0
    }
}

/// The share of light that a surface reflects, after Schlick: with `n1` the
/// index of the side the ray is on and `n2` that of the other side, `r0` the
/// square of `(n1 - n2) / (n1 + n2)`, and `c` the cosine of the angle to the
/// normal on the side of the smaller index, it is `r0 + (1 - r0) (1 - c)^5`,
/// kept between 0 and 1; and 1 where the ray is totally reflected.
pub open spec fn fresnel<T: Scalar>(ior: T, i: Vec3<T>, n: Vec3<T>, inside: bool) -> T {
    let n1 = if inside { ior } else { T::unit() };
    let n2 = if inside { T::unit() } else { ior };
    let actual_n = if inside { n.negated() } else { n };
    let r0 = squared(n1.difference(n2).quotient(n1.sum(n2)));
    let bent = Vec3::refracted(i, actual_n.negated(), ior, inside);
    if !n1.at_most(n2) && bent is None {
        T::unit()
    } else {
        let cos_angle = if n1.at_most(n2) {
            i.inner(actual_n)
        } else {
            actual_n.inner(bent.unwrap()).negation()
        };
        let cos_term = T::unit().difference(cos_angle);
        r0.sum(
            T::unit().difference(r0).product(cos_term).product(cos_term).product(cos_term).product(
                cos_term,
            ).product(cos_term),
        ).upper(T::nil()).lower(T::unit())
    }
}

/// What the occluders among the first `k` of the primitives numbered `ids`
/// let through of the light that travels along `ray` over `distance`, and
/// which of them have been counted: white, times what each occluder passes.
/// An occluder that is numbered more than once counts once.
pub open spec fn let_through<T: Scalar, P: Prim<T>>(
    tree: &Octree<P>,
    ray: Ray<T>,
    distance: T,
    ids: Seq<int>,
    k: int,
) -> (ColorRGBA<T>, Seq<int>)
    decreases k,
{
    if k <= 0 {
        (ColorRGBA::<T>::bright(), Seq::empty())
    } else {
        let before = let_through(tree, ray, distance, ids, k - 1);
        match tree.item(ids[k - 1]).hit(ray, T::tolerance(), distance) {
            Some(occ) => if before.1.contains(ids[k - 1]) {
                before
            } else {
                (before.0.times(occ.material.passing()), before.1.push(ids[k - 1]))
            },
            None => before,
        }
    }
}

/// What reaches `position` of the light that travels along `ray` over
/// `distance`, past the candidates that the index hands out for the ray.
pub open spec fn occlusion<T: Scalar, P: Prim<T>>(tree: &Octree<P>, ray: Ray<T>, distance: T) -> ColorRGBA<
    T,
> {
    let_through(tree, ray, distance, tree.candidates(&ray), tree.candidates(&ray).len() as int).0
}

/// The ray from `position` towards `target`, with a direction of length 1.
pub open spec fn feeler<T: Scalar>(position: Vec3<T>, target: Vec3<T>) -> Ray<T> {
    Ray { origin: position, direction: target.minus(position).normalized() }
}

/// What reaches `position` from the first `k` of the points `seen` of a
/// light, added up: black, plus for each point what the occluders on the
/// way to it let through.
pub open spec fn shadow_sum<T: Scalar, P: Prim<T>>(
    tree: &Octree<P>,
    position: Vec3<T>,
    seen: Seq<Vec3<T>>,
    k: int,
) -> ColorRGBA<T>
    decreases k,
{
    if k <= 0 {
        ColorRGBA::<T>::dark()
    } else {
        shadow_sum(tree, position, seen, k - 1).added(
            occlusion(
                tree,
                feeler(position, seen[k - 1]),
                seen[k - 1].minus(position).norm(),
            ),
        )
    }
}

/// The share of a light that reaches `position` when the light is seen at
/// the points `seen`: the mean of what reaches it from each.
pub open spec fn shadow_mean<T: Scalar, P: Prim<T>>(
    tree: &Octree<P>,
    position: Vec3<T>,
    seen: Seq<Vec3<T>>,
) -> ColorRGBA<T> {
    shadow_sum(tree, position, seen, seen.len() as int).scaled(
        T::unit().quotient(T::lift(seen.len() as int)),
    )
}

/// The share of a light that reaches `position` when the light is seen at
/// the one point `target`.
pub open spec fn lit_from<T: Scalar, P: Prim<T>>(
    tree: &Octree<P>,
    position: Vec3<T>,
    target: Vec3<T>,
) -> ColorRGBA<T> {
    shadow_mean(tree, position, seq![target])
}

/// The shadow factor of a point light, or of any light when shadows are off.
pub open spec fn shadow<T: Scalar, P: Prim<T>, L: Light<T>>(
    tree: &Octree<P>,
    position: Vec3<T>,
    light: &L,
    shadow_samples: u32,
) -> ColorRGBA<T> {
    if shadow_samples == 0 {
        ColorRGBA::<T>::bright()
    } else {
        lit_from(tree, position, light.middle())
    }
}

/// What the first `k` lights give to the point `hit`, seen from direction
/// `i`, with unit normal `n`: black, plus for each light its colour times
/// the material's answer times the shadow factor.
pub open spec fn local_light<T: Scalar, P: Prim<T>, L: Light<T>>(
    tree: &Octree<P>,
    lights: Seq<L>,
    hit: Intersection<'_, T, P::Mat>,
    n: Vec3<T>,
    i: Vec3<T>,
    shadow_samples: u32,
    k: int,
) -> ColorRGBA<T>
    decreases k,
{
    if k <= 0 {
        ColorRGBA::<T>::dark()
    } else {
        let light = lights[k - 1];
        let l = light.middle().minus(hit.position).normalized();
        local_light(tree, lights, hit, n, i, shadow_samples, k - 1).added(
            light.tint().times(hit.material.shade(n, i, l, hit.u, hit.v)).times(
                shadow(tree, hit.position, &light, shadow_samples),
            ),
        )
    }
}

/// Whether no light of the scene needs a random draw: shadows are off, or
/// every light is a point.
pub open spec fn point_lit<L: Light<T>, T: Scalar>(lights: Seq<L>, shadow_samples: u32) -> bool {
    shadow_samples == 0 || forall|k: int| 0 <= k < lights.len() ==> (#[trigger] lights[k]).pointed()
}

/// Whether no surface of the index is glossy.
pub open spec fn gloss_free<T: Scalar, P: Prim<T>>(tree: &Octree<P>) -> bool {
    forall|id: int, ray: Ray<T>, t_min: T, t_max: T|
        0 <= id < tree.count() && (#[trigger] tree.item(id).hit(ray, t_min, t_max)) is Some
            ==> !tree.item(id).hit(ray, t_min, t_max).unwrap().material.glossy()
}

/// The ray that leaves `hit` mirrored.
pub open spec fn mirror_ray<T: Scalar, M>(hit: Intersection<'_, T, M>, i: Vec3<T>, n: Vec3<T>) -> Ray<
    T,
> {
    Ray { origin: hit.position, direction: Vec3::mirrored(i, n) }
}

/// The direction in which light passes on through `hit`: the refracted
/// direction, or the mirrored one on total internal reflection.
pub open spec fn onward<T: Scalar, M: Material<T>>(
    hit: Intersection<'_, T, M>,
    i: Vec3<T>,
    n: Vec3<T>,
    inside: bool,
) -> Vec3<T> {
    match Vec3::refracted(i, n, hit.material.index(), inside) {
        Some(t) => t,
        None => Vec3::mirrored(i, n),
    }
}

/// The ray that passes on through `hit`. It starts a tolerance along its
/// direction, so that it does not meet the surface it leaves.
pub open spec fn onward_ray<T: Scalar, M: Material<T>>(
    hit: Intersection<'_, T, M>,
    i: Vec3<T>,
    n: Vec3<T>,
    inside: bool,
) -> Ray<T> {
    let t = onward(hit, i, n, inside);
    Ray { origin: hit.position.plus(t.scaled(T::tolerance())), direction: t }
}

/// The weight of what passes on through `hit`: `share`, or 1 on total
/// internal reflection.
pub open spec fn onward_weight<T: Scalar, M: Material<T>>(
    hit: Intersection<'_, T, M>,
    i: Vec3<T>,
    n: Vec3<T>,
    inside: bool,
    share: T,
) -> T {
    match Vec3::refracted(i, n, hit.material.index(), inside) {
        Some(_) => share,
        None => T::unit(),
    }
}

/// The colour that arrives along `ray`, where no random draw is taken.
///
/// With a budget used up it is black. Where the ray reaches no surface it is
/// the background in the ray's direction. Else it is what the lights give to
/// the point reached; plus, on a reflective surface, what the surface keeps
/// of the colour that arrives along the mirrored ray, times the Fresnel
/// share; plus, on a refractive surface, what the surface keeps of the colour
/// that arrives along the ray that passes on, times the rest; plus, with a
/// photon map, the indirect light at the point reached.
pub open spec fn radiance<T: Scalar, P: Prim<T>, L: Light<T>, B: Background<T>>(
    scene: &Scene<P, L, B>,
    ray: Ray<T>,
    options: RenderOptions,
    inside: bool,
    photon_map: Option<PhotonMap<T>>,
    photon_spread: T,
    max_photons: usize,
) -> ColorRGBA<T>
    decreases options.reflect_depth + options.refract_depth,
{
    if options.spent() {
        ColorRGBA::<T>::dark()
    } else {
        match ray.first_hit(&scene.octree) {
            None => scene.background.sky(ray.direction),
            Some(hit) => {
                let n = hit.n.normalized();
                let i = ray.direction.negated().normalized();
                let local = local_light(
                    &scene.octree,
                    scene.lights@,
                    hit,
                    n,
                    i,
                    options.shadow_samples,
                    scene.lights.len() as int,
                );
                let share = fresnel(hit.material.index(), i, n, inside);
                let mirrored = if hit.material.reflective() {
                    local.added(
                        hit.material.specular(
                            radiance(
                                scene,
                                mirror_ray(hit, i, n),
                                options.after_reflection(),
                                inside,
                                photon_map,
                                photon_spread,
                                max_photons,
                            ),
                        ).scaled(share),
                    )
                } else {
                    local
                };
                let passed = if hit.material.refractive() {
                    mirrored.added(
                        hit.material.transmissive(
                            radiance(
                                scene,
                                onward_ray(hit, i, n, inside),
                                options.after_refraction(),
                                !inside,
                                photon_map,
                                photon_spread,
                                max_photons,
                            ),
                        ).scaled(onward_weight(hit, i, n, inside, T::unit().difference(share))),
                    )
                } else {
                    mirrored
                };
                match photon_map {
                    Some(map) => passed.added(
                        irradiance(
                            gathered(
                                map.stored(),
                                hit.position,
                                photon_spread,
                                max_photons as int,
                                map.stored().len() as int,
                            ),
                            hit,
                            n,
                            i,
                        ),
                    ),
                    None => passed,
                }
            },
        }
    }
}

/// What the random draws of one trace came to.
///
/// A trace draws where it sees each light that has an extent, by how much
/// each ray that a glossy surface mirrors is turned, and whatever the rays
/// that it follows draw in turn. What arrives along a ray is a function of
/// the scene, the ray and these.
pub struct Trail<T> {
    /// For each light, the points at which it was seen from the surface that
    /// the ray reached.
    pub seen: Seq<Seq<Vec3<T>>>,
    /// For each ray that the surface mirrored: the offset that turned it, and
    /// what was drawn along it.
    pub mirrored: Seq<(Vec3<T>, Trail<T>)>,
    /// What was drawn along the ray that passed on through the surface.
    pub passed: Seq<Trail<T>>,
}

/// The share of `light` that reaches `position` when the light was seen at
/// the points `seen`: white with shadows off; for a point light what reaches
/// it from the light's center; else the mean over `seen`.
pub open spec fn shadow_on<T: Scalar, P: Prim<T>, L: Light<T>>(
    tree: &Octree<P>,
    position: Vec3<T>,
    light: &L,
    shadow_samples: u32,
    seen: Seq<Vec3<T>>,
) -> ColorRGBA<T> {
    if shadow_samples == 0 {
        ColorRGBA::<T>::bright()
    } else if light.pointed() {
        lit_from(tree, position, light.middle())
    } else {
        shadow_mean(tree, position, seen)
    }
}

/// What the first `k` lights give to the point `hit` when light `j` was seen
/// at the points `seen[j]`.
pub open spec fn local_on<T: Scalar, P: Prim<T>, L: Light<T>>(
    tree: &Octree<P>,
    lights: Seq<L>,
    hit: Intersection<'_, T, P::Mat>,
    n: Vec3<T>,
    i: Vec3<T>,
    shadow_samples: u32,
    seen: Seq<Seq<Vec3<T>>>,
    k: int,
) -> ColorRGBA<T>
    decreases k,
{
    if k <= 0 {
        ColorRGBA::<T>::dark()
    } else {
        let light = lights[k - 1];
        let l = light.middle().minus(hit.position).normalized();
        local_on(tree, lights, hit, n, i, shadow_samples, seen, k - 1).added(
            light.tint().times(hit.material.shade(n, i, l, hit.u, hit.v)).times(
                shadow_on(tree, hit.position, &light, shadow_samples, seen[k - 1]),
            ),
        )
    }
}

/// The colour that arrives along `ray` when the draws came to `trail`.
///
/// It is `radiance`, but that a light with an extent is seen at the points
/// that were drawn for it, and that a glossy surface looks along
/// `gloss_samples` rays, each turned by the offset that was drawn for it,
/// and takes the mean.
pub open spec fn radiance_on<T: Scalar, P: Prim<T>, L: Light<T>, B: Background<T>>(
    scene: &Scene<P, L, B>,
    ray: Ray<T>,
    options: RenderOptions,
    inside: bool,
    photon_map: Option<PhotonMap<T>>,
    photon_spread: T,
    max_photons: usize,
    trail: Trail<T>,
) -> ColorRGBA<T>
    decreases options.reflect_depth + options.refract_depth, 2int, 0int,
{
    if options.spent() {
        ColorRGBA::<T>::dark()
    } else {
        match ray.first_hit(&scene.octree) {
            None => scene.background.sky(ray.direction),
            Some(hit) => {
                let n = hit.n.normalized();
                let i = ray.direction.negated().normalized();
                let local = local_on(
                    &scene.octree,
                    scene.lights@,
                    hit,
                    n,
                    i,
                    options.shadow_samples,
                    trail.seen,
                    scene.lights.len() as int,
                );
                let share = fresnel(hit.material.index(), i, n, inside);
                let mirrored = if hit.material.reflective() {
                    local.added(
                        reflection_on(
                            scene,
                            hit,
                            options,
                            inside,
                            i,
                            n,
                            share,
                            photon_map,
                            photon_spread,
                            max_photons,
                            trail.mirrored,
                        ),
                    )
                } else {
                    local
                };
                let passed = if hit.material.refractive() {
                    mirrored.added(
                        transmission_on(
                            scene,
                            hit,
                            options,
                            inside,
                            i,
                            n,
                            T::unit().difference(share),
                            photon_map,
                            photon_spread,
                            max_photons,
                            trail.passed,
                        ),
                    )
                } else {
                    mirrored
                };
                match photon_map {
                    Some(map) => passed.added(
                        irradiance(
                            gathered(
                                map.stored(),
                                hit.position,
                                photon_spread,
                                max_photons as int,
                                map.stored().len() as int,
                            ),
                            hit,
                            n,
                            i,
                        ),
                    ),
                    None => passed,
                }
            },
        }
    }
}

/// What arrives along the first `k` of the rays that a glossy surface
/// mirrors, added up: ray `j` is `base` turned by the offset `mirrored[j].0`,
/// and what is drawn along it is `mirrored[j].1`.
pub open spec fn gloss_sum<T: Scalar, P: Prim<T>, L: Light<T>, B: Background<T>>(
    scene: &Scene<P, L, B>,
    base: Ray<T>,
    gloss: T,
    options: RenderOptions,
    inside: bool,
    photon_map: Option<PhotonMap<T>>,
    photon_spread: T,
    max_photons: usize,
    mirrored: Seq<(Vec3<T>, Trail<T>)>,
    k: int,
) -> ColorRGBA<T>
    decreases options.reflect_depth + options.refract_depth, 3int, k,
{
    if k <= 0 {
        ColorRGBA::<T>::dark()
    } else {
        gloss_sum(
            scene,
            base,
            gloss,
            options,
            inside,
            photon_map,
            photon_spread,
            max_photons,
            mirrored,
            k - 1,
        ).added(
            radiance_on(
                scene,
                base.turned(gloss, mirrored[k - 1].0),
                options,
                inside,
                photon_map,
                photon_spread,
                max_photons,
                mirrored[k - 1].1,
            ),
        )
    }
}

/// What a reflective surface sends on when the draws along the mirrored
/// rays came to `mirrored`: what it keeps of the mean over the turned rays
/// if it is glossy, else of what arrives along the mirrored ray; times
/// `share`.
pub open spec fn reflection_on<T: Scalar, P: Prim<T>, L: Light<T>, B: Background<T>>(
    scene: &Scene<P, L, B>,
    hit: Intersection<'_, T, P::Mat>,
    options: RenderOptions,
    inside: bool,
    i: Vec3<T>,
    n: Vec3<T>,
    share: T,
    photon_map: Option<PhotonMap<T>>,
    photon_spread: T,
    max_photons: usize,
    mirrored: Seq<(Vec3<T>, Trail<T>)>,
) -> ColorRGBA<T>
    decreases options.reflect_depth + options.refract_depth, 1int, 0int,
{
    if options.spent() {
        ColorRGBA::<T>::dark()
    } else {
        let arriving = if hit.material.glossy() {
            gloss_sum(
                scene,
                mirror_ray(hit, i, n),
                hit.material.gloss(),
                options.after_reflection(),
                inside,
                photon_map,
                photon_spread,
                max_photons,
                mirrored,
                options.gloss_samples as int,
            ).scaled(T::unit().quotient(T::lift(options.gloss_samples as int)))
        } else {
            radiance_on(
                scene,
                mirror_ray(hit, i, n),
                options.after_reflection(),
                inside,
                photon_map,
                photon_spread,
                max_photons,
                mirrored[0].1,
            )
        };
        hit.material.specular(arriving).scaled(share)
    }
}

/// What a refractive surface sends on when the draws along the ray that
/// passes on came to `passed[0]`.
pub open spec fn transmission_on<T: Scalar, P: Prim<T>, L: Light<T>, B: Background<T>>(
    scene: &Scene<P, L, B>,
    hit: Intersection<'_, T, P::Mat>,
    options: RenderOptions,
    inside: bool,
    i: Vec3<T>,
    n: Vec3<T>,
    share: T,
    photon_map: Option<PhotonMap<T>>,
    photon_spread: T,
    max_photons: usize,
    passed: Seq<Trail<T>>,
) -> ColorRGBA<T>
    decreases options.reflect_depth + options.refract_depth, 1int, 0int,
{
    if options.spent() {
        ColorRGBA::<T>::dark()
    } else {
        hit.material.transmissive(
            radiance_on(
                scene,
                onward_ray(hit, i, n, inside),
                options.after_refraction(),
                !inside,
                photon_map,
                photon_spread,
                max_photons,
                passed[0],
            ),
        ).scaled(onward_weight(hit, i, n, inside, share))
    }
}

/// What the first `k` of the photons `found` give to the point `hit`, seen
/// from direction `i`: nothing, plus for each photon its power times the
/// material's answer to light from the photon's direction.
pub open spec fn flux<T: Scalar, M: Material<T>>(
    found: Seq<PhotonQuery<T>>,
    hit: Intersection<'_, T, M>,
    n: Vec3<T>,
    i: Vec3<T>,
    k: int,
) -> ColorRGBA<T>
    decreases k,
{
    if k <= 0 {
        nothing()
    } else {
        flux(found, hit, n, i, k - 1).added(
            found[k - 1].photon.power.times(
                hit.material.shade(n, i, found[k - 1].photon.incoming_dir, hit.u, hit.v),
            ),
        )
    }
}

/// The colour with every channel at 0.
pub open spec fn nothing<T: Scalar>() -> ColorRGBA<T> {
    ColorRGBA { r: T::nil(), g: T::nil(), b: T::nil(), a: T::nil() }
}

/// The indirect light at `hit` from the photons `found` around it: nothing
/// if there are fewer than two; else their flux over the area of the disc
/// that reaches to the farthest of them.
pub open spec fn irradiance<T: Scalar, M: Material<T>>(
    found: Seq<PhotonQuery<T>>,
    hit: Intersection<'_, T, M>,
    n: Vec3<T>,
    i: Vec3<T>,
) -> ColorRGBA<T> {
    if found.len() < 2 {
        nothing()
    } else {
        flux(found, hit, n, i, found.len() as int).scaled(
            T::unit().quotient(T::half_turn()).quotient(
                squared(found[farthest(found, found.len() as int)].distance_to_point),
            ),
        )
    }
}

/// Whether `id` is among `ids`.
fn holds(ids: &Vec<usize>, id: usize) -> (r: bool)
    ensures
        r == ids@.map_values(|x: usize| x as int).contains(id as int),
{
    let mut k: usize = 0;
    while k < ids.len()
        invariant
            k <= ids.len(),
            forall|j: int| 0 <= j < k ==> ids[j] != id,
        decreases ids.len() - k,
    {
        if ids[k] == id {
            proof {
                assert(ids@.map_values(|x: usize| x as int)[k as int] == id as int);
            }
            return true;
        }
        k += 1;
    }
    proof {
        let mapped = ids@.map_values(|x: usize| x as int);
        if mapped.contains(id as int) {
            let w = choose|w: int| 0 <= w < mapped.len() && mapped[w] == id as int;
            assert(ids[w] == id);
        }
    }
    false
}

/// `num_cpus::get`: how many logical processors this process may use. The
/// number depends on the machine and on how the process was started; nothing
/// is claimed of it.
#[verifier::external_body]
fn available_tasks() -> usize {
    num_cpus::get()
}

/// The settings of a render.
#[derive(Copy, Debug)]
pub struct Renderer<T> {
    /// How many tasks render at a time; as many as the machine runs at once
    /// if `None`.
    pub tasks: Option<usize>,
    pub options: RenderOptions,
    /// Photons to store per light; 0 switches the photon map off.
    pub photons: usize,
    /// How often a photon may bounce.
    pub photon_bounces: usize,
    /// How far from a point photons are looked for.
    pub photon_spread: T,
    /// How many photons an estimate uses at most.
    pub photon_samples: usize,
    /// How many photons are shot per light and mode at most.
    pub photon_attempts: usize,
}

impl<T: Copy> Clone for Renderer<T> {
    fn clone(&self) -> (r: Renderer<T>)
        ensures
            r == *self,
    {
        Renderer {
            tasks: self.tasks,
            options: self.options,
            photons: self.photons,
            photon_bounces: self.photon_bounces,
            photon_spread: self.photon_spread,
            photon_samples: self.photon_samples,
            photon_attempts: self.photon_attempts,
        }
    }
}

impl<T: Scalar> Renderer<T> {
    /// The reflectivity of a surface with index of refraction `ior`, seen
    /// from direction `i`, with normal `n`. `inside` says that the ray
    /// travels in the medium.
    pub fn fresnel_reflect(ior: T, i: &Vec3<T>, n: &Vec3<T>, inside: bool) -> (r: T)
        ensures
            r == fresnel(ior, *i, *n, inside),
    {
        let (n1, n2) = if inside {
            (ior, T::one())
        } else {
            (T::one(), ior)
        };
        let actual_n = if inside {
            (*n).neg()
        } else {
            *n
        };
        let r0_sqrt = n1.sub(n2).div(n1.add(n2));
        let r0 = r0_sqrt.mul(r0_sqrt);
        let cos_angle = if n1.le(n2) {
            i.dot(&actual_n)
        } else {
            let t = match Vec3::refract(i, &actual_n.neg(), ior, inside) {
                Some(x) => x,
                None => {
                    return T::one();
                },
            };
            actual_n.dot(&t).neg()
        };
        let cos_term = T::one().sub(cos_angle);
        r0.add(
            T::one().sub(r0).mul(cos_term).mul(cos_term).mul(cos_term).mul(cos_term).mul(cos_term),
        ).max(T::zero()).min(T::one())
    }

    /// What reaches the origin of `shadow_ray` of light that travels along it
    /// over `distance_to_light`: white, times what each occluder on the way
    /// lets through. An occluder that the index hands out more than once
    /// counts once.
    pub fn occluded<P: Prim<T>, L, B>(
        scene: &Scene<P, L, B>,
        shadow_ray: &Ray<T>,
        distance_to_light: T,
    ) -> (c: ColorRGBA<T>)
        requires
            scene.octree.wf(),
        ensures
            c == occlusion(&scene.octree, *shadow_ray, distance_to_light),
    {
        let mut it = scene.octree.intersect_iter(shadow_ray);
        let mut shadow_acc: ColorRGBA<T> = ColorRGBA::white();
        let mut counted: Vec<usize> = Vec::new();
        let ghost ids = it.pending();
        let ghost mut k: int = 0;
        proof {
            assert(ids.skip(0) =~= ids);
        }
        loop
            invariant
                it.wf(),
                it.finite() == scene.octree.finite(),
                it.infinite() == scene.octree.infinite(),
                0 <= k <= ids.len(),
                it.pending() == ids.skip(k),
                shadow_acc == let_through(
                    &scene.octree,
                    *shadow_ray,
                    distance_to_light,
                    ids,
                    k,
                ).0,
                counted@.map_values(|id: usize| id as int) == let_through(
                    &scene.octree,
                    *shadow_ray,
                    distance_to_light,
                    ids,
                    k,
                ).1,
            ensures
                k == ids.len(),
                shadow_acc == let_through(
                    &scene.octree,
                    *shadow_ray,
                    distance_to_light,
                    ids,
                    k,
                ).0,
            decreases ids.len() - k,
        {
            match it.next_indexed() {
                None => {
                    break ;
                },
                Some((id, prim)) => {
                    proof {
                        assert(ids.skip(k)[0] == ids[k]);
                        assert(ids.skip(k).skip(1) =~= ids.skip(k + 1));
                        assert(*prim == scene.octree.item(ids[k]));
                    }
                    if let Some(occ) = prim.intersects(shadow_ray, T::epsilon(), distance_to_light) {
                        if !holds(&counted, id) {
                            shadow_acc = shadow_acc * occ.material.transmission();
                            let ghost before = counted@;
                            counted.push(id);
                            proof {
                                assert(counted@.map_values(|id: usize| id as int)
                                    =~= before.map_values(|id: usize| id as int).push(id as int));
                            }
                        }
                    }
                    proof {
                        k = k + 1;
                    }
                },
            }
        }
        shadow_acc
    }

    /// The share of `light` that reaches `hit`.
    ///
    /// With `shadow_samples` 0 it is white: nothing is tested. Else a point
    /// light is sampled once and any other light `shadow_samples` times; each
    /// sample draws a position of the light and asks what the occluders
    /// between let through; the answer is the mean over the samples.
    pub fn shadow_intensity<P: Prim<T>, L: Light<T>, B, S: Sampler<T>>(
        scene: &Scene<P, L, B>,
        hit: &Intersection<'_, T, P::Mat>,
        light: &L,
        shadow_samples: u32,
        sampler: &mut S,
    ) -> (c: ColorRGBA<T>)
        requires
            scene.octree.wf(),
        ensures
            shadow_samples == 0 ==> c == ColorRGBA::<T>::bright(),
            shadow_samples == 0 || light.pointed() ==> c == shadow(
                &scene.octree,
                hit.position,
                light,
                shadow_samples,
            ),
            shadow_samples > 0 ==> exists|seen: Seq<Vec3<T>>|
                {
                    &&& seen.len() == if light.pointed() {
                        1
                    } else {
                        shadow_samples as int
                    }
                    &&& c == #[trigger] shadow_mean(&scene.octree, hit.position, seen)
                },
            exists|seen: Seq<Vec3<T>>|
                c == #[trigger] shadow_on(
                    &scene.octree,
                    hit.position,
                    light,
                    shadow_samples,
                    seen,
                ),
    {
        if shadow_samples == 0 {
            proof {
                assert(ColorRGBA::<T>::bright() == shadow_on(
                    &scene.octree,
                    hit.position,
                    light,
                    shadow_samples,
                    Seq::<Vec3<T>>::empty(),
                ));
            }
            return ColorRGBA::white();
        }
        // Point light speedup (no point in sampling a point light multiple times)

        let shadow_sample_tries: u32 = if light.is_point() {
            1
        } else {
            shadow_samples
        };
        let mut shadow: ColorRGBA<T> = ColorRGBA::black();
        let ghost mut seen: Seq<Vec3<T>> = Seq::empty();
        let mut j: u32 = 0;
        // Take average shadow color after jittering/sampling light position
        while j < shadow_sample_tries
            invariant
                scene.octree.wf(),
                j <= shadow_sample_tries,
                seen.len() == j,
                light.pointed() ==> forall|k: int| 0 <= k < j ==> seen[k] == light.middle(),
                shadow == shadow_sum(&scene.octree, hit.position, seen, j as int),
            decreases shadow_sample_tries - j,
        {
            // L has to be a unit vector for t_max 1:1 correspondence to
            // distance to light to work. Shadow feelers only search up
            // until light source.
            let sampled_light_position = light.position(sampler);
            let shadow_l = (sampled_light_position - hit.position).unit();
            let shadow_ray = Ray::new(hit.position, shadow_l);
            let distance_to_light = (sampled_light_position - hit.position).len();
            // Check against candidate primitives in scene for occlusion
            // and multiply shadow color by occluders' shadow colors
            shadow = shadow + Self::occluded(scene, &shadow_ray, distance_to_light);
            proof {
                let grown = seen.push(sampled_light_position);
                lemma_shadow_sum_grows(&scene.octree, hit.position, seen, grown, j as int);
                seen = grown;
            }
            j += 1;
        }
        proof {
            if light.pointed() {
                assert(seen =~= seq![light.middle()]);
            }
        }
        let mean = shadow * T::one().div(T::from_u32(shadow_sample_tries));
        proof {
            assert(mean == shadow_mean(&scene.octree, hit.position, seen));
            assert(mean == shadow_on(&scene.octree, hit.position, light, shadow_samples, seen));
        }
        mean
    }

    /// The indirect light at `hit` from the photons of `photon_map`: see
    /// `irradiance`.
    pub fn estimate_indirect_irradiance<M: Material<T>>(
        photon_map: &PhotonMap<T>,
        photon_spread: T,
        max_photons: usize,
        hit: &Intersection<'_, T, M>,
        n: &Vec3<T>,
        i: &Vec3<T>,
    ) -> (c: ColorRGBA<T>)
        ensures
            c == irradiance(
                gathered(
                    photon_map.stored(),
                    hit.position,
                    photon_spread,
                    max_photons as int,
                    photon_map.stored().len() as int,
                ),
                *hit,
                *n,
                *i,
            ),
    {
        let mut nearby_photons: Vec<PhotonQuery<T>> = Vec::new();
        photon_map.query_nearest(&mut nearby_photons, hit.position, photon_spread, max_photons);
        // Can't divide by a spread of zero
        if nearby_photons.len() < 2 {
            return ColorRGBA::transparent();
        }
        let mut flux_sum: ColorRGBA<T> = ColorRGBA::transparent();
        let mut k: usize = 0;
        while k < nearby_photons.len()
            invariant
                k <= nearby_photons.len(),
                flux_sum == flux(nearby_photons@, *hit, *n, *i, k as int),
            decreases nearby_photons.len() - k,
        {
            let p = nearby_photons[k].photon;
            flux_sum = flux_sum + p.power * hit.material.sample(*n, *i, p.incoming_dir, hit.u, hit.v);
            k += 1;
        }
        let top = crate::photon::farthest_index(&nearby_photons);
        let d = nearby_photons[top].distance_to_point;
        let photon_spread = d.mul(d);
        let density_factor = T::one().div(T::pi()).div(photon_spread);
        flux_sum * density_factor
    }

    /// What a reflective surface sends on from the mirrored direction.
    ///
    /// A glossy surface looks along `gloss_samples` rays turned away from the
    /// mirrored one at random and takes the mean; any other looks along the
    /// mirrored ray. The surface keeps its share of what arrives, and that is
    /// weighted with `reflect_fresnel`.
    pub fn global_reflection<P: Prim<T>, L: Light<T>, B: Background<T>, S: Sampler<T>>(
        scene: &Scene<P, L, B>,
        hit: &Intersection<'_, T, P::Mat>,
        options: RenderOptions,
        inside: bool,
        i: &Vec3<T>,
        n: &Vec3<T>,
        reflect_fresnel: T,
        photon_map: &Option<PhotonMap<T>>,
        photon_spread: T,
        max_photons: usize,
        sampler: &mut S,
    ) -> (c: ColorRGBA<T>)
        requires
            scene.octree.wf(),
            hit.material.reflective(),
            !options.spent(),
        ensures
            point_lit(scene.lights@, options.shadow_samples) && gloss_free(&scene.octree)
                && !hit.material.glossy() ==> c == hit.material.specular(
                radiance(
                    scene,
                    mirror_ray(*hit, *i, *n),
                    options.after_reflection(),
                    inside,
                    *photon_map,
                    photon_spread,
                    max_photons,
                ),
            ).scaled(reflect_fresnel),
            exists|mirrored: Seq<(Vec3<T>, Trail<T>)>|
                c == #[trigger] reflection_on(
                    scene,
                    *hit,
                    options,
                    inside,
                    *i,
                    *n,
                    reflect_fresnel,
                    *photon_map,
                    photon_spread,
                    max_photons,
                    mirrored,
                ),
        decreases options.reflect_depth + options.refract_depth, 0int,
    {
        let r = Vec3::reflect(i, n);
        let reflect_ray = Ray::new(hit.position, r);
        let next_reflect_options = RenderOptions {
            reflect_depth: options.reflect_depth - 1,
            ..options
        };
        let ghost mut mirrored: Seq<(Vec3<T>, Trail<T>)> = Seq::empty();
        let reflection = if hit.material.is_glossy() {
            // For glossy materials, average multiple perturbed reflection rays
            let mut acc: ColorRGBA<T> = ColorRGBA::black();
            let mut k: u32 = 0;
            while k < options.gloss_samples
                invariant
                    scene.octree.wf(),
                    next_reflect_options == options.after_reflection(),
                    !options.spent(),
                    k <= options.gloss_samples,
                    mirrored.len() == k,
                    reflect_ray == mirror_ray(*hit, *i, *n),
                    acc == gloss_sum(
                        scene,
                        reflect_ray,
                        hit.material.gloss(),
                        next_reflect_options,
                        inside,
                        *photon_map,
                        photon_spread,
                        max_photons,
                        mirrored,
                        k as int,
                    ),
                decreases options.gloss_samples - k,
            {
                let gloss_reflect_ray = reflect_ray.perturb(hit.material.glossiness(), sampler);
                let arriving = Self::trace(
                    scene,
                    &gloss_reflect_ray,
                    next_reflect_options,
                    inside,
                    photon_map,
                    photon_spread,
                    max_photons,
                    sampler,
                );
                proof {
                    let offset = choose|offset: Vec3<T>|
                        gloss_reflect_ray == #[trigger] reflect_ray.turned(
                            hit.material.gloss(),
                            offset,
                        );
                    let trail = choose|trail: Trail<T>|
                        arriving == #[trigger] radiance_on(
                            scene,
                            gloss_reflect_ray,
                            next_reflect_options,
                            inside,
                            *photon_map,
                            photon_spread,
                            max_photons,
                            trail,
                        );
                    let grown = mirrored.push((offset, trail));
                    lemma_gloss_sum_grows(
                        scene,
                        reflect_ray,
                        hit.material.gloss(),
                        next_reflect_options,
                        inside,
                        *photon_map,
                        photon_spread,
                        max_photons,
                        mirrored,
                        grown,
                        k as int,
                    );
                    mirrored = grown;
                }
                acc = acc + arriving;
                k += 1;
            }
            acc * T::one().div(T::from_u32(options.gloss_samples))
        } else {
            // For mirror-like materials just shoot a perfectly reflected ray instead
            let arriving = Self::trace(
                scene,
                &reflect_ray,
                next_reflect_options,
                inside,
                photon_map,
                photon_spread,
                max_photons,
                sampler,
            );
            proof {
                let trail = choose|trail: Trail<T>|
                    arriving == #[trigger] radiance_on(
                        scene,
                        reflect_ray,
                        next_reflect_options,
                        inside,
                        *photon_map,
                        photon_spread,
                        max_photons,
                        trail,
                    );
                mirrored = seq![(*i, trail)];
            }
            arriving
        };
        let sent = hit.material.global_specular(&reflection) * reflect_fresnel;
        proof {
            assert(sent == reflection_on(
                scene,
                *hit,
                options,
                inside,
                *i,
                *n,
                reflect_fresnel,
                *photon_map,
                photon_spread,
                max_photons,
                mirrored,
            ));
        }
        sent
    }

    /// What a refractive surface sends on from behind it.
    ///
    /// The ray passes on in the refracted direction with weight
    /// `refract_fresnel`; on total internal reflection it is mirrored
    /// instead, with weight 1. The surface keeps its share of what arrives.
    pub fn global_transmission<P: Prim<T>, L: Light<T>, B: Background<T>, S: Sampler<T>>(
        scene: &Scene<P, L, B>,
        hit: &Intersection<'_, T, P::Mat>,
        options: RenderOptions,
        inside: bool,
        i: &Vec3<T>,
        n: &Vec3<T>,
        refract_fresnel: T,
        photon_map: &Option<PhotonMap<T>>,
        photon_spread: T,
        max_photons: usize,
        sampler: &mut S,
    ) -> (c: ColorRGBA<T>)
        requires
            scene.octree.wf(),
            hit.material.refractive(),
            !options.spent(),
        ensures
            point_lit(scene.lights@, options.shadow_samples) && gloss_free(&scene.octree) ==> c
                == hit.material.transmissive(
                radiance(
                    scene,
                    onward_ray(*hit, *i, *n, inside),
                    options.after_refraction(),
                    !inside,
                    *photon_map,
                    photon_spread,
                    max_photons,
                ),
            ).scaled(onward_weight(*hit, *i, *n, inside, refract_fresnel)),
            exists|passed: Seq<Trail<T>>|
                c == #[trigger] transmission_on(
                    scene,
                    *hit,
                    options,
                    inside,
                    *i,
                    *n,
                    refract_fresnel,
                    *photon_map,
                    photon_spread,
                    max_photons,
                    passed,
                ),
        decreases options.reflect_depth + options.refract_depth, 0int,
    {
        let (t, actual_refract_fresnel) = match Vec3::refract(i, n, hit.material.ior(), inside) {
            Some(t) => (t, refract_fresnel),
            None => (Vec3::reflect(i, n), T::one()),
        };
        // Offset ray origin by EPSILON * direction to avoid hitting self when refracting
        let refract_ray = Ray::new(hit.position + t.scale(T::epsilon()), t);
        let next_refract_options = RenderOptions {
            refract_depth: options.refract_depth - 1,
            ..options
        };
        let refraction = Self::trace(
            scene,
            &refract_ray,
            next_refract_options,
            !inside,
            photon_map,
            photon_spread,
            max_photons,
            sampler,
        );
        let sent = hit.material.global_transmissive(&refraction) * actual_refract_fresnel;
        proof {
            let flipped = !inside;
            let trail = choose|trail: Trail<T>|
                refraction == #[trigger] radiance_on(
                    scene,
                    refract_ray,
                    next_refract_options,
                    flipped,
                    *photon_map,
                    photon_spread,
                    max_photons,
                    trail,
                );
            assert(sent == transmission_on(
                scene,
                *hit,
                options,
                inside,
                *i,
                *n,
                refract_fresnel,
                *photon_map,
                photon_spread,
                max_photons,
                seq![trail],
            ));
        }
        sent
    }

    /// The colour that arrives along `ray`: `radiance_on` for what the draws
    /// come to.
    ///
    /// With a budget used up it is black, whatever the scene. Where the ray
    /// reaches no surface, as in a scene without primitives, it is the
    /// background in the ray's direction. Where no random draw is taken it is
    /// `radiance`. A trace goes no deeper than the two budgets together
    /// allow: each ray that is followed has one of them lowered by one.
    pub fn trace<P: Prim<T>, L: Light<T>, B: Background<T>, S: Sampler<T>>(
        scene: &Scene<P, L, B>,
        ray: &Ray<T>,
        options: RenderOptions,
        inside: bool,
        photon_map: &Option<PhotonMap<T>>,
        photon_spread: T,
        max_photons: usize,
        sampler: &mut S,
    ) -> (c: ColorRGBA<T>)
        requires
            scene.octree.wf(),
        ensures
            options.spent() ==> c == ColorRGBA::<T>::dark(),
            !options.spent() && ray.first_hit(&scene.octree) is None ==> c == scene.background.sky(
                ray.direction,
            ),
            !options.spent() && scene.octree.count() == 0 ==> c == scene.background.sky(
                ray.direction,
            ),
            point_lit(scene.lights@, options.shadow_samples) && gloss_free(&scene.octree) ==> c
                == radiance(scene, *ray, options, inside, *photon_map, photon_spread, max_photons),
            exists|trail: Trail<T>|
                c == #[trigger] radiance_on(
                    scene,
                    *ray,
                    options,
                    inside,
                    *photon_map,
                    photon_spread,
                    max_photons,
                    trail,
                ),
            !options.spent() && photon_map is None && point_lit(
                scene.lights@,
                options.shadow_samples,
            ) ==> match ray.first_hit(&scene.octree) {
                Some(hit) => !hit.material.reflective() && !hit.material.refractive() ==> c
                    == local_light(
                    &scene.octree,
                    scene.lights@,
                    hit,
                    hit.n.normalized(),
                    ray.direction.negated().normalized(),
                    options.shadow_samples,
                    scene.lights.len() as int,
                ),
                None => true,
            },
        decreases options.reflect_depth + options.refract_depth, 1int,
    {
        let ghost blank = Trail::<T> {
            seen: Seq::empty(),
            mirrored: Seq::empty(),
            passed: Seq::empty(),
        };
        if options.reflect_depth == 0 || options.refract_depth == 0 {
            proof {
                assert(ColorRGBA::<T>::dark() == radiance_on(
                    scene,
                    *ray,
                    options,
                    inside,
                    *photon_map,
                    photon_spread,
                    max_photons,
                    blank,
                ));
            }
            return ColorRGBA::black();
        }
        proof {
            if scene.octree.count() == 0 {
                lemma_empty_scene_has_no_hit(&scene.octree, *ray);
            }
        }
        match ray.get_nearest_hit(scene) {
            Some(hit) => {
                let n = hit.n.unit();
                let i = ray.direction.neg().unit();
                proof {
                    let id = lemma_first_hit_is_a_strike(&scene.octree, *ray);
                    assert(scene.octree.item(id).hit(*ray, T::tolerance(), T::unbounded()) == Some(
                        hit,
                    ));
                }
                // Local lighting computation: surface shading, shadows
                let mut result: ColorRGBA<T> = ColorRGBA::black();
                let ghost mut seen: Seq<Seq<Vec3<T>>> = Seq::empty();
                let mut k: usize = 0;
                while k < scene.lights.len()
                    invariant
                        scene.octree.wf(),
                        k <= scene.lights.len(),
                        seen.len() == k,
                        point_lit(scene.lights@, options.shadow_samples) ==> result == local_light(
                            &scene.octree,
                            scene.lights@,
                            hit,
                            n,
                            i,
                            options.shadow_samples,
                            k as int,
                        ),
                        result == local_on(
                            &scene.octree,
                            scene.lights@,
                            hit,
                            n,
                            i,
                            options.shadow_samples,
                            seen,
                            k as int,
                        ),
                    decreases scene.lights.len() - k,
                {
                    let light = &scene.lights[k];
                    let shadow = Self::shadow_intensity(
                        scene,
                        &hit,
                        light,
                        options.shadow_samples,
                        sampler,
                    );
                    proof {
                        let points = choose|points: Seq<Vec3<T>>|
                            shadow == #[trigger] shadow_on(
                                &scene.octree,
                                hit.position,
                                light,
                                options.shadow_samples,
                                points,
                            );
                        let grown = seen.push(points);
                        lemma_local_on_grows(
                            &scene.octree,
                            scene.lights@,
                            hit,
                            n,
                            i,
                            options.shadow_samples,
                            seen,
                            grown,
                            k as int,
                        );
                        seen = grown;
                    }
                    let l = (light.center() - hit.position).unit();
                    result = result + light.color() * hit.material.sample(n, i, l, hit.u, hit.v)
                        * shadow;
                    k += 1;
                }
                let ghost mut mirrored: Seq<(Vec3<T>, Trail<T>)> = Seq::empty();
                let ghost mut passed: Seq<Trail<T>> = Seq::empty();
                // Global lighting computation: reflections, refractions
                if hit.material.is_reflective() || hit.material.is_refractive() {
                    let reflect_fresnel = Self::fresnel_reflect(hit.material.ior(), &i, &n, inside);
                    let refract_fresnel = T::one().sub(reflect_fresnel);
                    if hit.material.is_reflective() {
                        let sent = Self::global_reflection(
                            scene,
                            &hit,
                            options,
                            inside,
                            &i,
                            &n,
                            reflect_fresnel,
                            photon_map,
                            photon_spread,
                            max_photons,
                            sampler,
                        );
                        proof {
                            mirrored = choose|mirrored: Seq<(Vec3<T>, Trail<T>)>|
                                sent == #[trigger] reflection_on(
                                    scene,
                                    hit,
                                    options,
                                    inside,
                                    i,
                                    n,
                                    reflect_fresnel,
                                    *photon_map,
                                    photon_spread,
                                    max_photons,
                                    mirrored,
                                );
                        }
                        result = result + sent;
                    }
                    if hit.material.is_refractive() {
                        let sent = Self::global_transmission(
                            scene,
                            &hit,
                            options,
                            inside,
                            &i,
                            &n,
                            refract_fresnel,
                            photon_map,
                            photon_spread,
                            max_photons,
                            sampler,
                        );
                        proof {
                            passed = choose|passed: Seq<Trail<T>>|
                                sent == #[trigger] transmission_on(
                                    scene,
                                    hit,
                                    options,
                                    inside,
                                    i,
                                    n,
                                    refract_fresnel,
                                    *photon_map,
                                    photon_spread,
                                    max_photons,
                                    passed,
                                );
                        }
                        result = result + sent;
                    }
                }
                // Indirect illumination, caustics
                if let Some(map) = photon_map {
                    result = result + Self::estimate_indirect_irradiance(
                        map,
                        photon_spread,
                        max_photons,
                        &hit,
                        &n,
                        &i,
                    );
                }
                proof {
                    assert(result == radiance_on(
                        scene,
                        *ray,
                        options,
                        inside,
                        *photon_map,
                        photon_spread,
                        max_photons,
                        Trail { seen, mirrored, passed },
                    ));
                }
                result
            },
            None => {
                proof {
                    assert(scene.background.sky(ray.direction) == radiance_on(
                        scene,
                        *ray,
                        options,
                        inside,
                        *photon_map,
                        photon_spread,
                        max_photons,
                        blank,
                    ));
                }
                scene.background.color(ray.direction)
            },
        }
    }
}

/// The pixel at `(x, y)`, counted from the lower left corner, of a picture
/// taken with one sample per pixel where no random draw is taken: black,
/// plus what arrives along the ray through the pixel, cut off at 0 and 1,
/// weighted with one over the number of samples; stored.
pub open spec fn still_pixel<T: Scalar, P: Prim<T>, L: Light<T>, B: Background<T>>(
    scene: &Scene<P, L, B>,
    camera: &Camera<T>,
    options: RenderOptions,
    photon_map: Option<PhotonMap<T>>,
    photon_spread: T,
    max_photons: usize,
    x: int,
    y: int,
) -> ColorRGBA<u8> {
    ColorRGBA::<T>::dark().added(
        radiance(
            scene,
            camera.ray_through(T::lift(x).sum(T::nil()), T::lift(y).sum(T::nil())),
            options,
            false,
            photon_map,
            photon_spread,
            max_photons,
        ).clamped().scaled(T::unit().quotient(T::lift(1))),
    ).stored()
}

/// What the random draws for one ray through a pixel came to: by how much
/// of its cell of the grid the ray was moved along x and along y, and what
/// was drawn along the ray.
pub struct Sample<T> {
    pub jitter_x: T,
    pub jitter_y: T,
    pub trail: Trail<T>,
}

/// The ray through cell `(x_sub, y_sub)` of the grid of the pixel `(x, y)`.
///
/// With one sample per pixel it is the ray through the corner of the pixel.
/// With more it is moved to the corner of its cell, and on within the cell
/// by the part of the cell that was drawn.
pub open spec fn sample_ray<T: Scalar>(
    camera: &Camera<T>,
    options: RenderOptions,
    x: int,
    y: int,
    x_sub: int,
    y_sub: int,
    sample: Sample<T>,
) -> Ray<T> {
    let cell = T::unit().quotient(T::lift(options.pixel_samples as int));
    if options.pixel_samples > 1 {
        camera.ray_through(
            T::lift(x).sum(T::lift(x_sub).product(cell).sum(sample.jitter_x.product(cell))),
            T::lift(y).sum(T::lift(y_sub).product(cell).sum(sample.jitter_y.product(cell))),
        )
    } else {
        camera.ray_through(T::lift(x).sum(T::nil()), T::lift(y).sum(T::nil()))
    }
}

/// `start`, plus what arrives along the rays through the first `k` cells
/// of row `y_sub` of the grid of the pixel `(x, y)`, each cut off at 0 and 1
/// and weighted with one over the number of cells.
pub open spec fn row_sum<T: Scalar, P: Prim<T>, L: Light<T>, B: Background<T>>(
    scene: &Scene<P, L, B>,
    camera: &Camera<T>,
    options: RenderOptions,
    photon_map: Option<PhotonMap<T>>,
    photon_spread: T,
    max_photons: usize,
    x: int,
    y: int,
    start: ColorRGBA<T>,
    row: Seq<Sample<T>>,
    y_sub: int,
    k: int,
) -> ColorRGBA<T>
    decreases k,
{
    if k <= 0 {
        start
    } else {
        row_sum(
            scene,
            camera,
            options,
            photon_map,
            photon_spread,
            max_photons,
            x,
            y,
            start,
            row,
            y_sub,
            k - 1,
        ).added(
            radiance_on(
                scene,
                sample_ray(camera, options, x, y, k - 1, y_sub, row[k - 1]),
                options,
                false,
                photon_map,
                photon_spread,
                max_photons,
                row[k - 1].trail,
            ).clamped().scaled(
                T::unit().quotient(T::lift(options.pixel_samples * options.pixel_samples)),
            ),
        )
    }
}

/// Black, plus what arrives through the first `k` rows of the grid of the
/// pixel `(x, y)`.
pub open spec fn grid_sum<T: Scalar, P: Prim<T>, L: Light<T>, B: Background<T>>(
    scene: &Scene<P, L, B>,
    camera: &Camera<T>,
    options: RenderOptions,
    photon_map: Option<PhotonMap<T>>,
    photon_spread: T,
    max_photons: usize,
    x: int,
    y: int,
    grid: Seq<Seq<Sample<T>>>,
    k: int,
) -> ColorRGBA<T>
    decreases k,
{
    if k <= 0 {
        ColorRGBA::<T>::dark()
    } else {
        row_sum(
            scene,
            camera,
            options,
            photon_map,
            photon_spread,
            max_photons,
            x,
            y,
            grid_sum(
                scene,
                camera,
                options,
                photon_map,
                photon_spread,
                max_photons,
                x,
                y,
                grid,
                k - 1,
            ),
            grid[k - 1],
            k - 1,
            options.pixel_samples as int,
        )
    }
}

/// The pixel at `(x, y)`, counted from the lower left corner, when the
/// draws for the rays through it came to `grid`: the sum over its grid,
/// stored.
pub open spec fn pixel_on<T: Scalar, P: Prim<T>, L: Light<T>, B: Background<T>>(
    scene: &Scene<P, L, B>,
    camera: &Camera<T>,
    options: RenderOptions,
    photon_map: Option<PhotonMap<T>>,
    photon_spread: T,
    max_photons: usize,
    x: int,
    y: int,
    grid: Seq<Seq<Sample<T>>>,
) -> ColorRGBA<u8> {
    grid_sum(
        scene,
        camera,
        options,
        photon_map,
        photon_spread,
        max_photons,
        x,
        y,
        grid,
        options.pixel_samples as int,
    ).stored()
}

/// Whether `pixel` is what the pixel at `(x, y)` comes to for some draws.
pub open spec fn sampled<T: Scalar, P: Prim<T>, L: Light<T>, B: Background<T>>(
    scene: &Scene<P, L, B>,
    camera: &Camera<T>,
    options: RenderOptions,
    photon_map: Option<PhotonMap<T>>,
    photon_spread: T,
    max_photons: usize,
    x: int,
    y: int,
    pixel: ColorRGBA<u8>,
) -> bool {
    exists|grid: Seq<Seq<Sample<T>>>|
        pixel == #[trigger] pixel_on(
            scene,
            camera,
            options,
            photon_map,
            photon_spread,
            max_photons,
            x,
            y,
            grid,
        )
}

/// Whether `pixel` is a finished pixel of the picture at column `x` of row
/// `y`, the rows counted from the top: it is opaque, and it is what the
/// pixel comes to for some draws.
pub open spec fn taken<T: Scalar, P: Prim<T>, L: Light<T>, B: Background<T>>(
    scene: &Scene<P, L, B>,
    camera: &Camera<T>,
    options: RenderOptions,
    photon_map: Option<PhotonMap<T>>,
    photon_spread: T,
    max_photons: usize,
    x: int,
    y: int,
    pixel: ColorRGBA<u8>,
) -> bool {
    &&& pixel.a == 255
    &&& sampled(
        scene,
        camera,
        options,
        photon_map,
        photon_spread,
        max_photons,
        x,
        camera.image_height - y - 1,
        pixel,
    )
}

/// Whether tracing a picture of `scene` takes no random draw: one sample
/// per pixel, every light a point or shadows off, no glossy surface.
pub open spec fn still<T: Scalar, P: Prim<T>, L: Light<T>, B: Background<T>>(
    scene: &Scene<P, L, B>,
    options: RenderOptions,
) -> bool {
    &&& options.pixel_samples == 1
    &&& point_lit(scene.lights@, options.shadow_samples)
    &&& gloss_free(&scene.octree)
}

/// What happens to a photon at a surface.
#[derive(Clone, Copy, Debug, PartialEq, Eq, Structural)]
pub enum Interaction {
    /// The photon comes to rest and is stored.
    Store,
    /// The photon is dropped.
    Lost,
    /// The photon passes on through the surface.
    Transmit,
    /// The photon bounces off the surface.
    Reflect,
}

/// What happens to a photon that has bounced `bounces` times, for the draw
/// `spin` from `[0, 1)`.
///
/// A draw below `p_absorb` absorbs the photon: it is stored, unless it comes
/// straight from the light, which direct lighting accounts for. A photon for
/// the caustics map that meets a surface which neither reflects nor refracts
/// is dropped. Of the others, a draw below `p_absorb + p_transmit` passes
/// on; the rest bounce off.
pub open spec fn interaction<T: Scalar>(
    spin: T,
    p_absorb: T,
    p_transmit: T,
    bounces: int,
    caustic_mode: bool,
    refractive: bool,
    reflective: bool,
) -> Interaction {
    if spin.below(p_absorb) && bounces > 0 {
        Interaction::Store
    } else if spin.below(p_absorb) {
        Interaction::Lost
    } else if caustic_mode && !refractive && !reflective {
        Interaction::Lost
    } else if spin.below(p_transmit.sum(p_absorb)) {
        Interaction::Transmit
    } else {
        Interaction::Reflect
    }
}

/// The share of photons that a surface absorbs: what is left of 1 after the
/// shares that are transmitted, mirrored and scattered.
pub open spec fn absorbed_share<T: Scalar>(p_transmit: T, p_specular: T, p_diffuse: T) -> T {
    T::unit().difference(p_transmit).difference(p_specular).difference(p_diffuse)
}

/// The length of a colour taken as a vector of red, green and blue.
pub open spec fn strength<T: Scalar>(c: ColorRGBA<T>) -> T {
    (Vec3 { x: c.r, y: c.g, z: c.b }).norm()
}

/// What the random draws at one surface on the way of a photon came to.
pub struct Bounce<T> {
    /// The draw that decides what becomes of the photon.
    pub spin: T,
    /// The draw that decides whether a photon that bounces off is scattered
    /// or mirrored.
    pub turn: T,
    /// The direction in which a scattered photon leaves, before it is turned
    /// to the outer side of the surface.
    pub out: Vec3<T>,
}

/// The photon that comes to rest at `hit` with `power`, having arrived
/// along `ray`.
pub open spec fn rested<T: Scalar, M>(
    hit: Intersection<'_, T, M>,
    ray: Ray<T>,
    power: ColorRGBA<T>,
) -> Photon<T> {
    Photon {
        position: hit.position,
        incoming_dir: ray.direction.scaled(T::unit().negation()),
        power,
    }
}

/// `out` turned to the side of the surface that the normal `n` points to.
pub open spec fn outward<T: Scalar>(out: Vec3<T>, n: Vec3<T>) -> Vec3<T> {
    if out.inner(n).below(T::nil()) {
        out.negated()
    } else {
        out
    }
}

/// The photons that a photon shot along `ray` with `power` leaves behind
/// when the draws at the surfaces on its way came to `path`: none, or the
/// one photon that it comes to rest as.
///
/// The photon is given up after more than `max_bounces` bounces, when its
/// power has sunk below `power_threshold`, and when it meets no surface. At
/// a surface the first draw decides what becomes of it: see `interaction`.
/// A photon that passes on is refracted, or mirrored where it cannot be
/// refracted, and keeps the transmitted share of its power; it is given up
/// at a surface that does not refract. A photon that bounces off is
/// scattered if the second draw, times the shares that are scattered and
/// mirrored, is below the share that is scattered: it leaves in the
/// direction that was drawn, with its power times the answer of the
/// material, cut off at 0 and 1. Else it is mirrored and keeps the mirrored
/// share of its power.
pub open spec fn photon_on<T: Scalar, P: Prim<T>, L, B>(
    scene: &Scene<P, L, B>,
    ray: Ray<T>,
    caustic_mode: bool,
    power_threshold: T,
    power: ColorRGBA<T>,
    max_bounces: int,
    bounces: int,
    inside: bool,
    path: Seq<Bounce<T>>,
) -> Seq<Photon<T>>
    decreases max_bounces + 1 - bounces,
{
    if bounces > max_bounces || strength(power).below(power_threshold) {
        Seq::empty()
    } else {
        match ray.first_hit(&scene.octree) {
            None => Seq::empty(),
            Some(hit) => {
                let n = hit.n.normalized();
                let i = ray.direction.negated().normalized();
                let l = Vec3::mirrored(n, ray.direction);
                let p_diffuse = hit.material.diffuse_share();
                let p_specular = hit.material.specular_share();
                let p_transmit = hit.material.transmissive_share();
                let p_absorb = absorbed_share(p_transmit, p_specular, p_diffuse);
                match interaction(
                    path[0].spin,
                    p_absorb,
                    p_transmit,
                    bounces,
                    caustic_mode,
                    hit.material.refractive(),
                    hit.material.reflective(),
                ) {
                    Interaction::Store => seq![rested(hit, ray, power)],
                    Interaction::Lost => Seq::empty(),
                    Interaction::Transmit => if hit.material.refractive() {
                        photon_on(
                            scene,
                            onward_ray(hit, i, n, inside),
                            caustic_mode,
                            power_threshold,
                            power.scaled(p_transmit),
                            max_bounces,
                            bounces + 1,
                            !inside,
                            path.skip(1),
                        )
                    } else {
                        Seq::empty()
                    },
                    Interaction::Reflect => if path[0].turn.product(
                        p_diffuse.sum(p_specular),
                    ).below(p_diffuse) {
                        photon_on(
                            scene,
                            Ray { origin: hit.position, direction: outward(path[0].out, n) },
                            caustic_mode,
                            power_threshold,
                            power.times(hit.material.shade(n, i, l, hit.u, hit.v).clamped()),
                            max_bounces,
                            bounces + 1,
                            inside,
                            path.skip(1),
                        )
                    } else {
                        photon_on(
                            scene,
                            mirror_ray(hit, i, n),
                            caustic_mode,
                            power_threshold,
                            power.scaled(p_specular),
                            max_bounces,
                            bounces + 1,
                            inside,
                            path.skip(1),
                        )
                    },
                }
            },
        }
    }
}

/// What the random draws for one photon came to: the point of the light
/// that it left from, the direction it left in, and the draws at the
/// surfaces on its way.
pub struct Shot<T> {
    pub from: Vec3<T>,
    pub towards: Vec3<T>,
    pub path: Seq<Bounce<T>>,
}

/// The photons that the first `k` of the photons `shots` leave behind, shot
/// from a light of colour `power`.
pub open spec fn volley<T: Scalar, P: Prim<T>, L, B>(
    scene: &Scene<P, L, B>,
    caustic_mode: bool,
    power_threshold: T,
    power: ColorRGBA<T>,
    max_bounces: int,
    shots: Seq<Shot<T>>,
    k: int,
) -> Seq<Photon<T>>
    decreases k,
{
    if k <= 0 {
        Seq::empty()
    } else {
        volley(scene, caustic_mode, power_threshold, power, max_bounces, shots, k - 1)
            + photon_on(
            scene,
            Ray { origin: shots[k - 1].from, direction: shots[k - 1].towards },
            caustic_mode,
            power_threshold,
            power,
            max_bounces,
            0,
            false,
            shots[k - 1].path,
        )
    }
}

/// Whether `shots` is a whole volley: photons were shot while fewer than
/// `wanted` had been stored and fewer than `max_attempts` had been shot, and
/// no longer.
pub open spec fn whole_volley<T: Scalar, P: Prim<T>, L, B>(
    scene: &Scene<P, L, B>,
    caustic_mode: bool,
    power_threshold: T,
    power: ColorRGBA<T>,
    max_bounces: int,
    wanted: int,
    max_attempts: int,
    shots: Seq<Shot<T>>,
) -> bool {
    &&& forall|k: int|
        0 <= k < shots.len() ==> (#[trigger] volley(
            scene,
            caustic_mode,
            power_threshold,
            power,
            max_bounces,
            shots,
            k,
        )).len() < wanted && k < max_attempts
    &&& !(volley(
        scene,
        caustic_mode,
        power_threshold,
        power,
        max_bounces,
        shots,
        shots.len() as int,
    ).len() < wanted && shots.len() < max_attempts)
}

/// The photons that the first `k` lights leave behind when the photons shot
/// from light `j` were `shots[j].0` for the caustics map and then
/// `shots[j].1` for the rest.
pub open spec fn harvest<T: Scalar, P: Prim<T>, L: Light<T>, B>(
    scene: &Scene<P, L, B>,
    power_threshold: T,
    max_bounces: int,
    shots: Seq<(Seq<Shot<T>>, Seq<Shot<T>>)>,
    k: int,
) -> Seq<Photon<T>>
    decreases k,
{
    if k <= 0 {
        Seq::empty()
    } else {
        harvest(scene, power_threshold, max_bounces, shots, k - 1) + volley(
            scene,
            true,
            power_threshold,
            scene.lights[k - 1].tint(),
            max_bounces,
            shots[k - 1].0,
            shots[k - 1].0.len() as int,
        ) + volley(
            scene,
            false,
            power_threshold,
            scene.lights[k - 1].tint(),
            max_bounces,
            shots[k - 1].1,
            shots[k - 1].1.len() as int,
        )
    }
}

/// Whether `shots` holds, for each of the first `k` lights, two whole
/// volleys, each for half of `photons_per_light`.
pub open spec fn whole_harvest<T: Scalar, P: Prim<T>, L: Light<T>, B>(
    scene: &Scene<P, L, B>,
    photons_per_light: int,
    power_threshold: T,
    max_bounces: int,
    max_attempts: int,
    shots: Seq<(Seq<Shot<T>>, Seq<Shot<T>>)>,
    k: int,
) -> bool {
    forall|j: int|
        0 <= j < k ==> whole_volley(
            scene,
            true,
            power_threshold,
            scene.lights[j].tint(),
            max_bounces,
            photons_per_light / 2,
            max_attempts,
            (#[trigger] shots[j]).0,
        ) && whole_volley(
            scene,
            false,
            power_threshold,
            scene.lights[j].tint(),
            max_bounces,
            photons_per_light / 2,
            max_attempts,
            shots[j].1,
        )
}

/// Whether `map` is what shooting photons gives when the draws came to
/// `shots`: the map of the harvest of whole volleys from every light.
pub open spec fn shot_with<T: Scalar, P: Prim<T>, L: Light<T>, B>(
    scene: &Scene<P, L, B>,
    photons_per_light: int,
    power_threshold: T,
    max_bounces: int,
    max_attempts: int,
    shots: Seq<(Seq<Shot<T>>, Seq<Shot<T>>)>,
    map: Option<PhotonMap<T>>,
) -> bool {
    let all = harvest(scene, power_threshold, max_bounces, shots, scene.lights.len() as int);
    &&& shots.len() == scene.lights.len()
    &&& whole_harvest(
        scene,
        photons_per_light,
        power_threshold,
        max_bounces,
        max_attempts,
        shots,
        scene.lights.len() as int,
    )
    &&& match map {
        Some(m) => all.len() > 0 && m.stored() == all,
        None => all.len() == 0,
    }
}

impl<T: Scalar> Renderer<T> {
    /// Decides what happens to a photon: see `interaction`.
    pub fn classify(
        spin: T,
        p_absorb: T,
        p_transmit: T,
        bounces: usize,
        caustic_mode: bool,
        refractive: bool,
        reflective: bool,
    ) -> (r: Interaction)
        ensures
            r == interaction(
                spin,
                p_absorb,
                p_transmit,
                bounces as int,
                caustic_mode,
                refractive,
                reflective,
            ),
    {
        if spin.lt(p_absorb) && bounces > 0 {
            Interaction::Store
        } else if spin.lt(p_absorb) {
            // Don't store direct lighting
            Interaction::Lost
        } else if caustic_mode && !refractive && !reflective {
            // Don't bother with diffuse surfaces for the caustics map
            Interaction::Lost
        } else if spin.lt(p_transmit.add(p_absorb)) {
            Interaction::Transmit
        } else {
            Interaction::Reflect
        }
    }

    /// Follows one photon from bounce to bounce and returns it if it comes to
    /// rest.
    ///
    /// The photon is given up when it has bounced more than `max_bounces`
    /// times, when its power has sunk below `power_threshold`, and when it
    /// leaves the scene. At a surface a random draw decides what becomes of
    /// it: see `interaction`. A photon that passes on through a surface that
    /// does not refract is given up.
    pub fn shoot_photon<P: Prim<T>, L, B, S: Sampler<T>>(
        scene: &Scene<P, L, B>,
        ray: &Ray<T>,
        caustic_mode: bool,
        power_threshold: T,
        power: ColorRGBA<T>,
        max_bounces: usize,
        bounces: usize,
        inside: bool,
        sampler: &mut S,
    ) -> (photons: Vec<Photon<T>>)
        requires
            scene.octree.wf(),
            max_bounces < usize::MAX,
        ensures
            photons.len() <= 1,
            bounces > max_bounces ==> photons.len() == 0,
            strength(power).below(power_threshold) ==> photons.len() == 0,
            ray.first_hit(&scene.octree) is None ==> photons.len() == 0,
            bounces == 0 && max_bounces == 0 ==> photons.len() == 0,
            photons.len() == 1 ==> bounces > 0 || max_bounces > 0,
            exists|path: Seq<Bounce<T>>|
                photons@ == #[trigger] photon_on(
                    scene,
                    *ray,
                    caustic_mode,
                    power_threshold,
                    power,
                    max_bounces as int,
                    bounces as int,
                    inside,
                    path,
                ),
        decreases max_bounces + 1 - bounces,
    {
        let mut photons: Vec<Photon<T>> = Vec::new();
        let weight = Vec3 { x: power.r, y: power.g, z: power.b };
        let ghost mut path: Seq<Bounce<T>> = Seq::empty();
        if bounces > max_bounces || weight.len().lt(power_threshold) {
            proof {
                assert(photons@ == photon_on(
                    scene,
                    *ray,
                    caustic_mode,
                    power_threshold,
                    power,
                    max_bounces as int,
                    bounces as int,
                    inside,
                    path,
                ));
            }
            return photons;
        }
        match ray.get_nearest_hit(scene) {
            Some(hit) => {
                let n = hit.n.unit();
                let i = ray.direction.neg().unit();
                let l = Vec3::reflect(&n, &ray.direction);
                let u = hit.u;
                let v = hit.v;
                // Randomly decide to reflect/transmit/absorb
                let spin = sampler.next_unit();
                let p_diffuse_reflect = hit.material.p_diffuse();
                let p_specular_reflect = hit.material.p_specular();
                let p_transmit = hit.material.p_transmit();
                let p_absorb = T::one().sub(p_transmit).sub(p_specular_reflect).sub(
                    p_diffuse_reflect,
                );
                let ghost mut here = Bounce { spin, turn: spin, out: n };
                let ghost mut rest: Seq<Bounce<T>> = Seq::empty();
                //   p_absorb   p_transmit    p_reflect
                // *----------*------------*-------------*
                //    eg. 0.2       0.4         0.4
                //
                // p_reflect is then again rolled to check if
                // it is a specular (mirror) reflection or a
                // diffuse reflection (random direction)
                match Self::classify(
                    spin,
                    p_absorb,
                    p_transmit,
                    bounces,
                    caustic_mode,
                    hit.material.is_refractive(),
                    hit.material.is_reflective(),
                ) {
                    Interaction::Store => {
                        photons.push(
                            Photon {
                                position: hit.position,
                                incoming_dir: ray.direction.scale(T::one().neg()),
                                power: power,
                            },
                        );
                        proof {
                            assert(photons@ =~= seq![rested(hit, *ray, power)]);
                        }
                    },
                    Interaction::Lost => {},
                    Interaction::Transmit => {
                        // Without ray marching a photon cannot travel on
                        // inside a surface that does not refract
                        if hit.material.is_refractive() {
                            let t = match Vec3::refract(&i, &n, hit.material.ior(), inside) {
                                Some(t) => t,
                                None => Vec3::reflect(&i, &n),
                            };
                            let refract_ray = Ray::new(hit.position + t.scale(T::epsilon()), t);
                            let photon_color = power * p_transmit;
                            photons = Self::shoot_photon(
                                scene,
                                &refract_ray,
                                caustic_mode,
                                power_threshold,
                                photon_color,
                                max_bounces,
                                bounces + 1,
                                !inside,
                                sampler,
                            );
                            proof {
                                let flipped = !inside;
                                let most = max_bounces as int;
                                let next = bounces + 1;
                                rest = choose|rest: Seq<Bounce<T>>|
                                    photons@ == #[trigger] photon_on(
                                        scene,
                                        refract_ray,
                                        caustic_mode,
                                        power_threshold,
                                        photon_color,
                                        most,
                                        next,
                                        flipped,
                                        rest,
                                    );
                            }
                        }
                    },
                    Interaction::Reflect => {
                        // Reflect, determine if it's a diffuse or specular reflection
                        let second = sampler.next_unit();
                        let specular_spin = second.mul(p_diffuse_reflect.add(p_specular_reflect));
                        let ghost mut drawn = n;
                        // Get output direction:
                        // diffuse reflection = random output direction
                        // specular reflection = mirror output direction
                        let (r, photon_color) = if specular_spin.lt(p_diffuse_reflect) {
                            let mut out = Vec3::random(sampler);
                            proof {
                                drawn = out;
                            }
                            // Get a ray in the direction inside the outward-facing hemisphere
                            if out.dot(&n).lt(T::zero()) {
                                out = out.neg();
                            }
                            (out, power * hit.material.sample(n, i, l, u, v).clamp())
                        } else {
                            (Vec3::reflect(&i, &n), power * p_specular_reflect)
                        };
                        let reflect_ray = Ray::new(hit.position, r);
                        photons = Self::shoot_photon(
                            scene,
                            &reflect_ray,
                            caustic_mode,
                            power_threshold,
                            photon_color,
                            max_bounces,
                            bounces + 1,
                            inside,
                            sampler,
                        );
                        proof {
                            let most = max_bounces as int;
                            let next = bounces + 1;
                            here = Bounce { spin, turn: second, out: drawn };
                            rest = choose|rest: Seq<Bounce<T>>|
                                photons@ == #[trigger] photon_on(
                                    scene,
                                    reflect_ray,
                                    caustic_mode,
                                    power_threshold,
                                    photon_color,
                                    most,
                                    next,
                                    inside,
                                    rest,
                                );
                        }
                    },
                }
                proof {
                    path = seq![here] + rest;
                    assert(path[0] == here);
                    assert(path.skip(1) =~= rest);
                    assert(photons@ =~= photon_on(
                        scene,
                        *ray,
                        caustic_mode,
                        power_threshold,
                        power,
                        max_bounces as int,
                        bounces as int,
                        inside,
                        path,
                    ));
                }
            },
            None => {
                proof {
                    assert(photons@ =~= photon_on(
                        scene,
                        *ray,
                        caustic_mode,
                        power_threshold,
                        power,
                        max_bounces as int,
                        bounces as int,
                        inside,
                        path,
                    ));
                }
            },
        }
        photons
    }

    /// Shoots photons from every light and collects those that come to rest.
    ///
    /// From each light photons are shot twice, once for the caustics map and
    /// once for the rest, each time until `photons_per_light / 2` have been
    /// stored or `max_attempts` have been shot. With `photons_per_light` 0
    /// nothing is shot and there is no map.
    pub fn shoot_photons<P: Prim<T>, L: Light<T>, B, S: Sampler<T>>(
        scene: &Scene<P, L, B>,
        photons_per_light: usize,
        power_threshold: T,
        max_bounces: usize,
        max_attempts: usize,
        sampler: &mut S,
    ) -> (map: Option<PhotonMap<T>>)
        requires
            scene.octree.wf(),
            max_bounces < usize::MAX,
        ensures
            photons_per_light == 0 ==> map is None,
            max_attempts == 0 ==> map is None,
            scene.lights.len() == 0 ==> map is None,
            max_bounces == 0 ==> map is None,
            map is Some ==> map.unwrap().stored().len() <= scene.lights.len() * (2 * (
            photons_per_light / 2)),
            photons_per_light > 0 ==> exists|shots: Seq<(Seq<Shot<T>>, Seq<Shot<T>>)>| #[trigger]
                shot_with(
                    scene,
                    photons_per_light as int,
                    power_threshold,
                    max_bounces as int,
                    max_attempts as int,
                    shots,
                    map,
                ),
    {
        if photons_per_light == 0 {
            return None;
        }
        let mut photons: Vec<Photon<T>> = Vec::new();
        let half: usize = photons_per_light / 2;
        let ghost mut shots: Seq<(Seq<Shot<T>>, Seq<Shot<T>>)> = Seq::empty();
        let mut k: usize = 0;
        while k < scene.lights.len()
            invariant
                scene.octree.wf(),
                max_bounces < usize::MAX,
                k <= scene.lights.len(),
                half == photons_per_light / 2,
                photons.len() <= k * (2 * half),
                max_attempts == 0 || max_bounces == 0 ==> photons.len() == 0,
                shots.len() == k,
                photons@ == harvest(scene, power_threshold, max_bounces as int, shots, k as int),
                whole_harvest(
                    scene,
                    photons_per_light as int,
                    power_threshold,
                    max_bounces as int,
                    max_attempts as int,
                    shots,
                    k as int,
                ),
            decreases scene.lights.len() - k,
        {
            let light = &scene.lights[k];
            let ghost start = photons.len();
            let ghost gathered_before = photons@;
            let ghost mut first: Seq<Shot<T>> = Seq::empty();
            let ghost mut second: Seq<Shot<T>> = Seq::empty();
            let mut mode: usize = 0;
            while mode < 2
                invariant
                    scene.octree.wf(),
                    max_bounces < usize::MAX,
                    mode <= 2,
                    k < scene.lights.len(),
                    light == &scene.lights[k as int],
                    half == photons_per_light / 2,
                    start <= k * (2 * half),
                    photons.len() <= start + mode * half,
                    max_attempts == 0 || max_bounces == 0 ==> photons.len() == 0,
                    mode == 0 ==> photons@ == gathered_before,
                    mode >= 1 ==> whole_volley(
                        scene,
                        true,
                        power_threshold,
                        light.tint(),
                        max_bounces as int,
                        half as int,
                        max_attempts as int,
                        first,
                    ),
                    mode == 1 ==> photons@ == gathered_before + volley(
                        scene,
                        true,
                        power_threshold,
                        light.tint(),
                        max_bounces as int,
                        first,
                        first.len() as int,
                    ),
                    mode == 2 ==> whole_volley(
                        scene,
                        false,
                        power_threshold,
                        light.tint(),
                        max_bounces as int,
                        half as int,
                        max_attempts as int,
                        second,
                    ),
                    mode == 2 ==> photons@ == gathered_before + volley(
                        scene,
                        true,
                        power_threshold,
                        light.tint(),
                        max_bounces as int,
                        first,
                        first.len() as int,
                    ) + volley(
                        scene,
                        false,
                        power_threshold,
                        light.tint(),
                        max_bounces as int,
                        second,
                        second.len() as int,
                    ),
                decreases 2 - mode,
            {
                let caustic_mode = mode == 0;
                let ghost base = photons@;
                let ghost mut fired: Seq<Shot<T>> = Seq::empty();
                let mut photons_shot: usize = 0;
                let mut successful_photon_count: usize = 0;
                while successful_photon_count < half && photons_shot < max_attempts
                    invariant
                        scene.octree.wf(),
                        max_bounces < usize::MAX,
                        successful_photon_count <= half,
                        successful_photon_count <= photons_shot,
                        photons_shot <= max_attempts,
                        photons.len() == base.len() + successful_photon_count,
                        max_bounces == 0 ==> photons.len() == 0,
                        fired.len() == photons_shot,
                        photons@ == base + volley(
                            scene,
                            caustic_mode,
                            power_threshold,
                            light.tint(),
                            max_bounces as int,
                            fired,
                            photons_shot as int,
                        ),
                        forall|j: int|
                            0 <= j < photons_shot ==> (#[trigger] volley(
                                scene,
                                caustic_mode,
                                power_threshold,
                                light.tint(),
                                max_bounces as int,
                                fired,
                                j,
                            )).len() < half && j < max_attempts,
                    decreases max_attempts - photons_shot,
                {
                    let ray = Ray::new(light.position(sampler), Vec3::random(sampler));
                    let old_len = photons.len();
                    let ghost before = photons@;
                    let mut shot = Self::shoot_photon(
                        scene,
                        &ray,
                        caustic_mode,
                        power_threshold,
                        light.color(),
                        max_bounces,
                        0,
                        false,
                        sampler,
                    );
                    proof {
                        let most = max_bounces as int;
                        let path = choose|path: Seq<Bounce<T>>|
                            shot@ == #[trigger] photon_on(
                                scene,
                                ray,
                                caustic_mode,
                                power_threshold,
                                light.tint(),
                                most,
                                0,
                                false,
                                path,
                            );
                        let grown = fired.push(
                            Shot { from: ray.origin, towards: ray.direction, path },
                        );
                        assert forall|j: int| 0 <= j <= photons_shot implies volley(
                            scene,
                            caustic_mode,
                            power_threshold,
                            light.tint(),
                            most,
                            fired,
                            j,
                        ) == #[trigger] volley(
                            scene,
                            caustic_mode,
                            power_threshold,
                            light.tint(),
                            most,
                            grown,
                            j,
                        ) by {
                            lemma_volley_grows(
                                scene,
                                caustic_mode,
                                power_threshold,
                                light.tint(),
                                most,
                                fired,
                                grown,
                                j,
                            );
                        }
                        assert(volley(
                            scene,
                            caustic_mode,
                            power_threshold,
                            light.tint(),
                            most,
                            grown,
                            photons_shot + 1,
                        ) == volley(
                            scene,
                            caustic_mode,
                            power_threshold,
                            light.tint(),
                            most,
                            grown,
                            photons_shot as int,
                        ) + shot@);
                        assert(photons@.len() - base.len() == volley(
                            scene,
                            caustic_mode,
                            power_threshold,
                            light.tint(),
                            most,
                            fired,
                            photons_shot as int,
                        ).len());
                        assert(before + shot@ =~= base + (volley(
                            scene,
                            caustic_mode,
                            power_threshold,
                            light.tint(),
                            most,
                            grown,
                            photons_shot as int,
                        ) + shot@));
                        fired = grown;
                    }
                    photons.append(&mut shot);
                    let change = photons.len() - old_len;
                    successful_photon_count += change;
                    photons_shot += 1;
                }
                proof {
                    assert(photons@.len() - base.len() == volley(
                        scene,
                        caustic_mode,
                        power_threshold,
                        light.tint(),
                        max_bounces as int,
                        fired,
                        photons_shot as int,
                    ).len());
                    if mode == 0 {
                        first = fired;
                    } else {
                        second = fired;
                        assert(photons@ =~= gathered_before + volley(
                            scene,
                            true,
                            power_threshold,
                            light.tint(),
                            max_bounces as int,
                            first,
                            first.len() as int,
                        ) + volley(
                            scene,
                            false,
                            power_threshold,
                            light.tint(),
                            max_bounces as int,
                            second,
                            second.len() as int,
                        ));
                    }
                }
                mode += 1;
                proof {
                    assert(base.len() + half <= start + mode * half) by (nonlinear_arith)
                        requires
                            base.len() <= start + (mode - 1) * half,
                    ;
                }
            }
            proof {
                let grown = shots.push((first, second));
                lemma_harvest_grows(
                    scene,
                    power_threshold,
                    max_bounces as int,
                    shots,
                    grown,
                    k as int,
                );
                assert forall|j: int| 0 <= j < k + 1 implies whole_volley(
                    scene,
                    true,
                    power_threshold,
                    scene.lights[j].tint(),
                    max_bounces as int,
                    photons_per_light as int / 2,
                    max_attempts as int,
                    (#[trigger] grown[j]).0,
                ) && whole_volley(
                    scene,
                    false,
                    power_threshold,
                    scene.lights[j].tint(),
                    max_bounces as int,
                    photons_per_light as int / 2,
                    max_attempts as int,
                    grown[j].1,
                ) by {
                    if j < k {
                        assert(grown[j] == shots[j]);
                    }
                }
                shots = grown;
            }
            k += 1;
            proof {
                assert(start + 2 * half <= k * (2 * half)) by (nonlinear_arith)
                    requires
                        start <= (k - 1) * (2 * half),
                ;
            }
        }
        let map = PhotonMap::new_from_photons(photons);
        proof {
            assert(shot_with(
                scene,
                photons_per_light as int,
                power_threshold,
                max_bounces as int,
                max_attempts as int,
                shots,
                map,
            ));
        }
        map
    }

    /// The colour of the pixel at `(abs_x, abs_y)`, counted from the lower
    /// left corner: the mean over a grid of `pixel_samples` by
    /// `pixel_samples` rays through the pixel.
    ///
    /// With more than one sample per pixel each ray is moved within its cell
    /// of the grid by a random amount. What arrives along a ray is cut off at
    /// 0 and 1 before it is added, and weighted with one over the number of
    /// samples.
    pub fn sample_pixel<P: Prim<T>, L: Light<T>, B: Background<T>, S: Sampler<T>>(
        camera: &Camera<T>,
        scene: &Scene<P, L, B>,
        options: RenderOptions,
        abs_x: u32,
        abs_y: u32,
        photon_map: &Option<PhotonMap<T>>,
        photon_spread: T,
        photon_samples: usize,
        sampler: &mut S,
    ) -> (pixel: ColorRGBA<u8>)
        requires
            scene.octree.wf(),
            options.pixel_samples < 0x10000,
        ensures
            pixel.a == 255,
            still(scene, options) ==> pixel == still_pixel(
                scene,
                camera,
                options,
                *photon_map,
                photon_spread,
                photon_samples,
                abs_x as int,
                abs_y as int,
            ),
            sampled(
                scene,
                camera,
                options,
                *photon_map,
                photon_spread,
                photon_samples,
                abs_x as int,
                abs_y as int,
                pixel,
            ),
    {
        let pixel_samples = options.pixel_samples;
        let ghost mut grid: Seq<Seq<Sample<T>>> = Seq::empty();
        // Supersampling, jitter algorithm
        let pixel_width = T::one().div(T::from_u32(pixel_samples));
        let mut color: ColorRGBA<T> = ColorRGBA::black();
        let ghost quiet = still(scene, options);
        let ghost target = ColorRGBA::<T>::dark().added(
            radiance(
                scene,
                camera.ray_through(
                    T::lift(abs_x as int).sum(T::nil()),
                    T::lift(abs_y as int).sum(T::nil()),
                ),
                options,
                false,
                *photon_map,
                photon_spread,
                photon_samples,
            ).clamped().scaled(T::unit().quotient(T::lift(1))),
        );
        let mut y_subpixel: u32 = 0;
        while y_subpixel < pixel_samples
            invariant
                scene.octree.wf(),
                y_subpixel <= pixel_samples,
                pixel_samples == options.pixel_samples,
                pixel_samples < 0x10000,
                pixel_width == T::unit().quotient(T::lift(pixel_samples as int)),
                grid.len() == y_subpixel,
                color == grid_sum(
                    scene,
                    camera,
                    options,
                    *photon_map,
                    photon_spread,
                    photon_samples,
                    abs_x as int,
                    abs_y as int,
                    grid,
                    y_subpixel as int,
                ),
                quiet ==> pixel_samples == 1,
                quiet ==> point_lit(scene.lights@, options.shadow_samples) && gloss_free(
                    &scene.octree,
                ),
                quiet && y_subpixel == 0 ==> color == ColorRGBA::<T>::dark(),
                quiet && y_subpixel == 1 ==> color == ColorRGBA::<T>::dark().added(
                    radiance(
                        scene,
                        camera.ray_through(
                            T::lift(abs_x as int).sum(T::nil()),
                            T::lift(abs_y as int).sum(T::nil()),
                        ),
                        options,
                        false,
                        *photon_map,
                        photon_spread,
                        photon_samples,
                    ).clamped().scaled(T::unit().quotient(T::lift(1))),
                ),
            decreases pixel_samples - y_subpixel,
        {
            let ghost mut row: Seq<Sample<T>> = Seq::empty();
            let ghost start = color;
            let mut x_subpixel: u32 = 0;
            while x_subpixel < pixel_samples
                invariant
                    scene.octree.wf(),
                    x_subpixel <= pixel_samples,
                    y_subpixel < pixel_samples,
                    pixel_samples == options.pixel_samples,
                    pixel_samples < 0x10000,
                    pixel_width == T::unit().quotient(T::lift(pixel_samples as int)),
                    row.len() == x_subpixel,
                    color == row_sum(
                        scene,
                        camera,
                        options,
                        *photon_map,
                        photon_spread,
                        photon_samples,
                        abs_x as int,
                        abs_y as int,
                        start,
                        row,
                        y_subpixel as int,
                        x_subpixel as int,
                    ),
                    quiet ==> pixel_samples == 1,
                    quiet ==> point_lit(scene.lights@, options.shadow_samples) && gloss_free(
                        &scene.octree,
                    ),
                    quiet && x_subpixel == 0 ==> color == ColorRGBA::<T>::dark(),
                    quiet && x_subpixel == 1 ==> color == ColorRGBA::<T>::dark().added(
                        radiance(
                            scene,
                            camera.ray_through(
                                T::lift(abs_x as int).sum(T::nil()),
                                T::lift(abs_y as int).sum(T::nil()),
                            ),
                            options,
                            false,
                            *photon_map,
                            photon_spread,
                            photon_samples,
                        ).clamped().scaled(T::unit().quotient(T::lift(1))),
                    ),
                decreases pixel_samples - x_subpixel,
            {
                // Don't jitter if not antialiasing
                let ghost mut drawn_x = T::nil();
                let ghost mut drawn_y = T::nil();
                let (j_x, j_y) = if pixel_samples > 1 {
                    let along_x = sampler.next_unit();
                    let along_y = sampler.next_unit();
                    proof {
                        drawn_x = along_x;
                        drawn_y = along_y;
                    }
                    (
                        T::from_u32(x_subpixel).mul(pixel_width).add(along_x.mul(pixel_width)),
                        T::from_u32(y_subpixel).mul(pixel_width).add(along_y.mul(pixel_width)),
                    )
                } else {
                    (T::zero(), T::zero())
                };
                let ray = camera.get_ray(T::from_u32(abs_x).add(j_x), T::from_u32(abs_y).add(j_y));
                let result = Self::trace(
                    scene,
                    &ray,
                    options,
                    false,
                    photon_map,
                    photon_spread,
                    photon_samples,
                    sampler,
                );
                proof {
                    assert(pixel_samples * pixel_samples <= 0xffff * 0xffff) by (nonlinear_arith)
                        requires
                            pixel_samples <= 0xffff,
                    ;
                    if quiet {
                        assert(pixel_samples * pixel_samples == 1) by (nonlinear_arith)
                            requires
                                pixel_samples == 1,
                        ;
                    }
                    let trail = choose|trail: Trail<T>|
                        result == #[trigger] radiance_on(
                            scene,
                            ray,
                            options,
                            false,
                            *photon_map,
                            photon_spread,
                            photon_samples,
                            trail,
                        );
                    let sample = Sample { jitter_x: drawn_x, jitter_y: drawn_y, trail };
                    assert(ray == sample_ray(
                        camera,
                        options,
                        abs_x as int,
                        abs_y as int,
                        x_subpixel as int,
                        y_subpixel as int,
                        sample,
                    ));
                    let grown = row.push(sample);
                    lemma_row_sum_grows(
                        scene,
                        camera,
                        options,
                        *photon_map,
                        photon_spread,
                        photon_samples,
                        abs_x as int,
                        abs_y as int,
                        start,
                        row,
                        grown,
                        y_subpixel as int,
                        x_subpixel as int,
                    );
                    row = grown;
                }
                // Clamp subpixels for now to avoid intense aliasing when combined value is clamped later
                color = color + (result.clamp() * T::one().div(
                    T::from_u32(pixel_samples * pixel_samples),
                ));
                x_subpixel += 1;
            }
            proof {
                let grown = grid.push(row);
                lemma_grid_sum_grows(
                    scene,
                    camera,
                    options,
                    *photon_map,
                    photon_spread,
                    photon_samples,
                    abs_x as int,
                    abs_y as int,
                    grid,
                    grown,
                    y_subpixel as int,
                );
                grid = grown;
            }
            y_subpixel += 1;
        }
        let pixel = color.into_rgba8888_noalpha();
        proof {
            assert(pixel == pixel_on(
                scene,
                camera,
                options,
                *photon_map,
                photon_spread,
                photon_samples,
                abs_x as int,
                abs_y as int,
                grid,
            ));
        }
        pixel
    }

    /// Renders one tile: each of its pixels is sampled, row by row. The rows
    /// of a surface are stored from the top, those of the picture are
    /// counted from the bottom.
    pub fn render_tile<P: Prim<T>, L: Light<T>, B: Background<T>, S: Sampler<T>>(
        camera: &Camera<T>,
        scene: &Scene<P, L, B>,
        options: RenderOptions,
        tile_factory: SurfaceFactory,
        photon_map: &Option<PhotonMap<T>>,
        photon_spread: T,
        photon_samples: usize,
        sampler: &mut S,
    ) -> (tile: Surface)
        requires
            scene.octree.wf(),
            tile_factory.width * tile_factory.height <= usize::MAX,
            tile_factory.x_off + tile_factory.width <= camera.image_width,
            tile_factory.y_off + tile_factory.height <= camera.image_height,
            options.pixel_samples < 0x10000,
        ensures
            tile.wf(),
            made_from(tile, tile_factory),
            tile.background == tile_factory.background,
            forall|x: int, y: int|
                0 <= x < tile.width && 0 <= y < tile.height ==> (#[trigger] tile.pixel(x, y)).a
                    == 255 && sampled(
                    scene,
                    camera,
                    options,
                    *photon_map,
                    photon_spread,
                    photon_samples,
                    tile.x_off + x,
                    camera.image_height - (tile.y_off + y) - 1,
                    tile.pixel(x, y),
                ),
            still(scene, options) ==> forall|x: int, y: int|
                0 <= x < tile.width && 0 <= y < tile.height ==> #[trigger] tile.pixel(x, y)
                    == still_pixel(
                    scene,
                    camera,
                    options,
                    *photon_map,
                    photon_spread,
                    photon_samples,
                    tile.x_off + x,
                    camera.image_height - (tile.y_off + y) - 1,
                ),
    {
        let mut tile = tile_factory.create();
        let ghost quiet = still(scene, options);
        let mut rel_y: usize = 0;
        while rel_y < tile.height
            invariant
                scene.octree.wf(),
                rel_y <= tile.height,
                tile.wf(),
                made_from(tile, tile_factory),
                tile.background == tile_factory.background,
                tile_factory.x_off + tile_factory.width <= camera.image_width,
                tile_factory.y_off + tile_factory.height <= camera.image_height,
                options.pixel_samples < 0x10000,
                quiet == still(scene, options),
                forall|x: int, y: int|
                    0 <= x < tile.width && 0 <= y < rel_y ==> (#[trigger] tile.pixel(x, y)).a
                        == 255 && sampled(
                        scene,
                        camera,
                        options,
                        *photon_map,
                        photon_spread,
                        photon_samples,
                        tile.x_off + x,
                        camera.image_height - (tile.y_off + y) - 1,
                        tile.pixel(x, y),
                    ),
                quiet ==> forall|x: int, y: int|
                    0 <= x < tile.width && 0 <= y < rel_y ==> #[trigger] tile.pixel(x, y)
                        == still_pixel(
                        scene,
                        camera,
                        options,
                        *photon_map,
                        photon_spread,
                        photon_samples,
                        tile.x_off + x,
                        camera.image_height - (tile.y_off + y) - 1,
                    ),
            decreases tile.height - rel_y,
        {
            let abs_y: usize = camera.image_height as usize - (tile.y_off + rel_y) - 1;
            let mut rel_x: usize = 0;
            while rel_x < tile.width
                invariant
                    scene.octree.wf(),
                    rel_y < tile.height,
                    rel_x <= tile.width,
                    tile.wf(),
                    made_from(tile, tile_factory),
                    tile.background == tile_factory.background,
                    tile_factory.x_off + tile_factory.width <= camera.image_width,
                    tile_factory.y_off + tile_factory.height <= camera.image_height,
                    abs_y == camera.image_height - (tile.y_off + rel_y) - 1,
                    options.pixel_samples < 0x10000,
                    quiet == still(scene, options),
                    forall|x: int, y: int|
                        0 <= x < tile.width && 0 <= y < tile.height && (y < rel_y || (y == rel_y
                            && x < rel_x)) ==> (#[trigger] tile.pixel(x, y)).a == 255 && sampled(
                            scene,
                            camera,
                            options,
                            *photon_map,
                            photon_spread,
                            photon_samples,
                            tile.x_off + x,
                            camera.image_height - (tile.y_off + y) - 1,
                            tile.pixel(x, y),
                        ),
                    quiet ==> forall|x: int, y: int|
                        0 <= x < tile.width && 0 <= y < tile.height && (y < rel_y || (y == rel_y
                            && x < rel_x)) ==> #[trigger] tile.pixel(x, y) == still_pixel(
                            scene,
                            camera,
                            options,
                            *photon_map,
                            photon_spread,
                            photon_samples,
                            tile.x_off + x,
                            camera.image_height - (tile.y_off + y) - 1,
                        ),
                decreases tile.width - rel_x,
            {
                let abs_x: usize = tile.x_off + rel_x;
                let pixel = Self::sample_pixel(
                    camera,
                    scene,
                    options,
                    abs_x as u32,
                    abs_y as u32,
                    photon_map,
                    photon_spread,
                    photon_samples,
                    sampler,
                );
                tile.set(rel_x, rel_y, pixel);
                rel_x += 1;
            }
            rel_y += 1;
        }
        tile
    }

    /// How many tasks a render runs at a time on a machine that runs
    /// `available` at once: as many as are set, or `available`.
    pub fn task_count(&self, available: usize) -> (n: usize)
        ensures
            n == match self.tasks {
                Some(t) => t,
                None => available,
            },
    {
        match self.tasks {
            Some(t) => t,
            None => available,
        }
    }

    /// How many tasks a render runs at a time on this machine.
    pub fn workers(&self) -> (n: usize)
        ensures
            self.tasks is Some ==> n == self.tasks.unwrap(),
    {
        self.task_count(available_tasks())
    }

    /// Whether `surface` is a picture that this renderer takes of `scene`
    /// with the photon map `shot`: there is no map if no photons are asked
    /// for, else the map is what shooting them gave for some draws, with a
    /// power threshold of a hundredth; and every pixel is a finished pixel of
    /// the picture.
    pub open spec fn pictured<P: Prim<T>, L: Light<T>, B: Background<T>>(
        &self,
        scene: &Scene<P, L, B>,
        camera: &Camera<T>,
        surface: Surface,
        shot: Option<PhotonMap<T>>,
    ) -> bool {
        &&& self.photons == 0 ==> shot is None
        &&& self.photons > 0 ==> exists|shots: Seq<(Seq<Shot<T>>, Seq<Shot<T>>)>| #[trigger]
            shot_with(
                scene,
                self.photons as int,
                T::unit().quotient(T::lift(100)),
                self.photon_bounces as int,
                self.photon_attempts as int,
                shots,
                shot,
            )
        &&& forall|x: int, y: int|
            0 <= x < surface.width && 0 <= y < surface.height ==> #[trigger] taken(
                scene,
                camera,
                self.options,
                shot,
                self.photon_spread,
                self.photon_samples,
                x,
                y,
                surface.pixel(x, y),
            )
    }

    /// Renders the picture that `camera` takes of `scene`, in tiles of 128
    /// by 8 pixels: see `render_tiled`.
    pub fn render<P: Prim<T>, L: Light<T>, B: Background<T>, S: Sampler<T>>(
        &self,
        camera: &Camera<T>,
        scene: &Scene<P, L, B>,
        sampler: &mut S,
    ) -> (surface: Surface)
        requires
            scene.octree.wf(),
            camera.image_width * camera.image_height <= usize::MAX,
            self.options.pixel_samples < 0x10000,
            self.photon_bounces < usize::MAX,
        ensures
            surface.wf(),
            surface.width == camera.image_width,
            surface.height == camera.image_height,
            exists|shot: Option<PhotonMap<T>>| #[trigger] self.pictured(scene, camera, surface, shot),
            self.photons == 0 && still(scene, self.options) ==> forall|x: int, y: int|
                0 <= x < surface.width && 0 <= y < surface.height ==> #[trigger] surface.pixel(x, y)
                    == still_pixel(
                    scene,
                    camera,
                    self.options,
                    None,
                    self.photon_spread,
                    self.photon_samples,
                    x,
                    camera.image_height - y - 1,
                ),
    {
        self.render_tiled(camera, scene, 128, 8, sampler)
    }

    /// Renders the picture that `camera` takes of `scene`, tile by tile.
    ///
    /// The photon map is shot first; then the surface is cut into tiles of
    /// `tile_width` by `tile_height` pixels, and of each tile the part that
    /// lies in the picture is rendered and copied to its place. Every pixel
    /// is opaque and is what its samples come to for some draws, seen with
    /// the photon map that was shot; where no random draw is taken it is
    /// `still_pixel`, whatever the size of the tiles. Rows are stored from
    /// the top.
    pub fn render_tiled<P: Prim<T>, L: Light<T>, B: Background<T>, S: Sampler<T>>(
        &self,
        camera: &Camera<T>,
        scene: &Scene<P, L, B>,
        tile_width: usize,
        tile_height: usize,
        sampler: &mut S,
    ) -> (surface: Surface)
        requires
            scene.octree.wf(),
            camera.image_width * camera.image_height <= usize::MAX,
            self.options.pixel_samples < 0x10000,
            self.photon_bounces < usize::MAX,
            tile_width > 0,
            tile_height > 0,
        ensures
            surface.wf(),
            surface.width == camera.image_width,
            surface.height == camera.image_height,
            exists|shot: Option<PhotonMap<T>>| #[trigger] self.pictured(scene, camera, surface, shot),
            self.photons == 0 && still(scene, self.options) ==> forall|x: int, y: int|
                0 <= x < surface.width && 0 <= y < surface.height ==> #[trigger] surface.pixel(x, y)
                    == still_pixel(
                    scene,
                    camera,
                    self.options,
                    None,
                    self.photon_spread,
                    self.photon_samples,
                    x,
                    camera.image_height - y - 1,
                ),
    {
        let photon_map = Self::shoot_photons(
            scene,
            self.photons,
            T::one().div(T::from_u32(100)),
            self.photon_bounces,
            self.photon_attempts,
            sampler,
        );
        let mut surface = Surface::new(
            camera.image_width as usize,
            camera.image_height as usize,
            ColorRGBA::new_rgb(0, 0, 0),
        );
        let mut it = surface.divide(tile_width, tile_height);
        let ghost start = it;
        let ghost quiet = self.photons == 0 && still(scene, self.options);
        let ghost mut done: Seq<SurfaceFactory> = Seq::empty();
        loop
            invariant
                scene.octree.wf(),
                self.options.pixel_samples < 0x10000,
                camera.image_width * camera.image_height <= usize::MAX,
                it.wf(),
                start.wf(),
                start.at() == (0usize, 0usize),
                start.extent() == (camera.image_width as usize, camera.image_height as usize),
                it.extent() == start.extent(),
                start.remaining() == done + it.remaining(),
                surface.wf(),
                surface.width == camera.image_width,
                surface.height == camera.image_height,
                quiet ==> photon_map is None,
                quiet == (self.photons == 0 && still(scene, self.options)),
                forall|k: int, x: int, y: int|
                    0 <= k < done.len() && 0 <= x < surface.width && 0 <= y < surface.height
                        && (#[trigger] done[k]).covers(x, y) ==> #[trigger] taken(
                        scene,
                        camera,
                        self.options,
                        photon_map,
                        self.photon_spread,
                        self.photon_samples,
                        x,
                        y,
                        surface.pixel(x, y),
                    ),
                quiet ==> forall|k: int, x: int, y: int|
                    0 <= k < done.len() && 0 <= x < surface.width && 0 <= y < surface.height
                        && (#[trigger] done[k]).covers(x, y) ==> #[trigger] surface.pixel(x, y)
                        == still_pixel(
                        scene,
                        camera,
                        self.options,
                        photon_map,
                        self.photon_spread,
                        self.photon_samples,
                        x,
                        camera.image_height - y - 1,
                    ),
            ensures
                surface.wf(),
                surface.width == camera.image_width,
                surface.height == camera.image_height,
                start.remaining() == done,
                forall|k: int, x: int, y: int|
                    0 <= k < done.len() && 0 <= x < surface.width && 0 <= y < surface.height
                        && (#[trigger] done[k]).covers(x, y) ==> #[trigger] taken(
                        scene,
                        camera,
                        self.options,
                        photon_map,
                        self.photon_spread,
                        self.photon_samples,
                        x,
                        y,
                        surface.pixel(x, y),
                    ),
                quiet ==> forall|k: int, x: int, y: int|
                    0 <= k < done.len() && 0 <= x < surface.width && 0 <= y < surface.height
                        && (#[trigger] done[k]).covers(x, y) ==> #[trigger] surface.pixel(x, y)
                        == still_pixel(
                        scene,
                        camera,
                        self.options,
                        photon_map,
                        self.photon_spread,
                        self.photon_samples,
                        x,
                        camera.image_height - y - 1,
                    ),
            decreases it.remaining().len(),
        {
            let ghost before = it;
            match it.next() {
                None => {
                    proof {
                        assert(done + Seq::<SurfaceFactory>::empty() =~= done);
                        assert(before.remaining() =~= Seq::<SurfaceFactory>::empty());
                    }
                    break ;
                },
                Some(subsurface_factory) => {
                    // A tile in the last column or row may reach past the
                    // picture: only the part inside is rendered.
                    let inside = subsurface_factory.fit(surface.width, surface.height);
                    proof {
                        assert(before.remaining()[0] == subsurface_factory);
                        before.lemma_tiles_inside(0);
                        assert(inside.width * inside.height <= camera.image_width
                            * camera.image_height) by (nonlinear_arith)
                            requires
                                inside.width <= camera.image_width,
                                inside.height <= camera.image_height,
                        ;
                    }
                    let subsurface = Self::render_tile(
                        camera,
                        scene,
                        self.options,
                        inside,
                        &photon_map,
                        self.photon_spread,
                        self.photon_samples,
                        sampler,
                    );
                    let ghost earlier = surface;
                    surface.merge(&subsurface);
                    proof {
                        let grown = done.push(subsurface_factory);
                        assert(grown + it.remaining() =~= done + (seq![subsurface_factory]
                            + it.remaining()));
                        assert forall|k: int, x: int, y: int|
                            0 <= k < grown.len() && 0 <= x < surface.width && 0 <= y
                                < surface.height && (#[trigger] grown[k]).covers(
                                x,
                                y,
                            ) implies #[trigger] taken(
                            scene,
                            camera,
                            self.options,
                            photon_map,
                            self.photon_spread,
                            self.photon_samples,
                            x,
                            y,
                            surface.pixel(x, y),
                        ) by {
                            if !subsurface.covers(x, y) {
                                assert(done[k].covers(x, y));
                                assert(taken(
                                    scene,
                                    camera,
                                    self.options,
                                    photon_map,
                                    self.photon_spread,
                                    self.photon_samples,
                                    x,
                                    y,
                                    earlier.pixel(x, y),
                                ));
                            } else {
                                let a = x - subsurface.x_off;
                                let b = y - subsurface.y_off;
                                assert(subsurface.pixel(a, b).a == 255);
                                assert(subsurface.x_off + a == x);
                                assert(camera.image_height - (subsurface.y_off + b) - 1
                                    == camera.image_height - y - 1);
                            }
                        }
                        if quiet {
                            assert forall|k: int, x: int, y: int|
                                0 <= k < grown.len() && 0 <= x < surface.width && 0 <= y
                                    < surface.height && (#[trigger] grown[k]).covers(
                                    x,
                                    y,
                                ) implies #[trigger] surface.pixel(x, y) == still_pixel(
                                scene,
                                camera,
                                self.options,
                                photon_map,
                                self.photon_spread,
                                self.photon_samples,
                                x,
                                camera.image_height - y - 1,
                            ) by {
                                if !subsurface.covers(x, y) {
                                    assert(done[k].covers(x, y));
                                    assert(earlier.pixel(x, y) == still_pixel(
                                        scene,
                                        camera,
                                        self.options,
                                        photon_map,
                                        self.photon_spread,
                                        self.photon_samples,
                                        x,
                                        camera.image_height - y - 1,
                                    ));
                                } else {
                                    assert(subsurface.pixel(
                                        x - subsurface.x_off,
                                        y - subsurface.y_off,
                                    ) == still_pixel(
                                        scene,
                                        camera,
                                        self.options,
                                        photon_map,
                                        self.photon_spread,
                                        self.photon_samples,
                                        subsurface.x_off + (x - subsurface.x_off),
                                        camera.image_height - (subsurface.y_off + (y
                                            - subsurface.y_off)) - 1,
                                    ));
                                }
                            }
                        }
                        done = grown;
                    }
                },
            }
        }
        proof {
            assert forall|x: int, y: int|
                0 <= x < surface.width && 0 <= y < surface.height implies #[trigger] taken(
                scene,
                camera,
                self.options,
                photon_map,
                self.photon_spread,
                self.photon_samples,
                x,
                y,
                surface.pixel(x, y),
            ) by {
                start.lemma_owes_all(x, y);
                let k = start.lemma_tiles_cover(x, y);
                assert(done[k].covers(x, y));
            }
            assert(self.pictured(scene, camera, surface, photon_map));
            if quiet {
                assert forall|x: int, y: int|
                    0 <= x < surface.width && 0 <= y < surface.height implies #[trigger] surface.pixel(
                    x,
                    y,
                ) == still_pixel(
                    scene,
                    camera,
                    self.options,
                    photon_map,
                    self.photon_spread,
                    self.photon_samples,
                    x,
                    camera.image_height - y - 1,
                ) by {
                    start.lemma_owes_all(x, y);
                    let k = start.lemma_tiles_cover(x, y);
                    assert(done[k].covers(x, y));
                }
            }
        }
        surface
    }
}

/// What one light gives to a plain surface when shadows are off: in each
/// colour channel, the light's colour times the material's answer.
///
/// `local_light` adds the product to black and multiplies it with white.
/// This lemma is for scalars where that changes nothing: where 0 plus the
/// product and the product times 1 are the product.
pub proof fn lemma_single_light<T: Scalar, P: Prim<T>, L: Light<T>>(
    tree: &Octree<P>,
    lights: Seq<L>,
    hit: Intersection<'_, T, P::Mat>,
    n: Vec3<T>,
    i: Vec3<T>,
)
    requires
        lights.len() == 1,
        ({
            let l = lights[0].middle().minus(hit.position).normalized();
            let x = lights[0].tint().times(hit.material.shade(n, i, l, hit.u, hit.v));
            &&& x.r.product(T::unit()) == x.r && T::nil().sum(x.r) == x.r
            &&& x.g.product(T::unit()) == x.g && T::nil().sum(x.g) == x.g
            &&& x.b.product(T::unit()) == x.b && T::nil().sum(x.b) == x.b
        }),
    ensures
        ({
            let l = lights[0].middle().minus(hit.position).normalized();
            let answer = hit.material.shade(n, i, l, hit.u, hit.v);
            let c = local_light(tree, lights, hit, n, i, 0, 1);
            &&& c.r == lights[0].tint().r.product(answer.r)
            &&& c.g == lights[0].tint().g.product(answer.g)
            &&& c.b == lights[0].tint().b.product(answer.b)
        }),
{
    assert(local_light(tree, lights, hit, n, i, 0, 0) == ColorRGBA::<T>::dark());
}

/// On fixed-point numbers, what one light gives to a plain surface when
/// shadows are off is, in each colour channel, the light's colour times the
/// material's answer.
pub proof fn lemma_single_light_exact<P: Prim<Fixed>, L: Light<Fixed>>(
    tree: &Octree<P>,
    lights: Seq<L>,
    hit: Intersection<'_, Fixed, P::Mat>,
    n: Vec3<Fixed>,
    i: Vec3<Fixed>,
)
    requires
        lights.len() == 1,
    ensures
        ({
            let l = lights[0].middle().minus(hit.position).normalized();
            let answer = hit.material.shade(n, i, l, hit.u, hit.v);
            let c = local_light(tree, lights, hit, n, i, 0, 1);
            &&& c.r == lights[0].tint().r.product(answer.r)
            &&& c.g == lights[0].tint().g.product(answer.g)
            &&& c.b == lights[0].tint().b.product(answer.b)
        }),
{
    let l = lights[0].middle().minus(hit.position).normalized();
    let x = lights[0].tint().times(hit.material.shade(n, i, l, hit.u, hit.v));
    lemma_units_are_neutral(x.r);
    lemma_units_are_neutral(x.g);
    lemma_units_are_neutral(x.b);
    lemma_single_light(tree, lights, hit, n, i);
}

/// Where fewer than two photons lie within the spread of a point, the
/// indirect light at the point is nothing, however many photons an estimate
/// may use.
pub proof fn lemma_sparse_photons_give_nothing<T: Scalar, M: Material<T>>(
    photons: Seq<Photon<T>>,
    spread: T,
    max_photons: int,
    hit: Intersection<'_, T, M>,
    n: Vec3<T>,
    i: Vec3<T>,
)
    requires
        0 <= max_photons,
        within(photons, hit.position, spread, photons.len() as int) < 2,
    ensures
        irradiance(
            gathered(photons, hit.position, spread, max_photons, photons.len() as int),
            hit,
            n,
            i,
        ) == nothing::<T>(),
{
    lemma_gathered_len(photons, hit.position, spread, max_photons, photons.len() as int);
}


/// The picture in which the pixel at column `x` of row `y`, the rows counted
/// from the top, is what the draws `draws(x, y)` come to.
pub open spec fn picture_on<T: Scalar, P: Prim<T>, L: Light<T>, B: Background<T>>(
    scene: &Scene<P, L, B>,
    camera: &Camera<T>,
    options: RenderOptions,
    photon_map: Option<PhotonMap<T>>,
    photon_spread: T,
    max_photons: usize,
    draws: spec_fn(int, int) -> Seq<Seq<Sample<T>>>,
) -> spec_fn(int, int) -> ColorRGBA<u8> {
    |x: int, y: int|
        pixel_on(
            scene,
            camera,
            options,
            photon_map,
            photon_spread,
            max_photons,
            x,
            camera.image_height - y - 1,
            draws(x, y),
        )
}

/// The picture that is taken where no random draw is taken.
pub open spec fn still_picture<T: Scalar, P: Prim<T>, L: Light<T>, B: Background<T>>(
    scene: &Scene<P, L, B>,
    camera: &Camera<T>,
    options: RenderOptions,
    photon_map: Option<PhotonMap<T>>,
    photon_spread: T,
    max_photons: usize,
) -> spec_fn(int, int) -> ColorRGBA<u8> {
    |x: int, y: int|
        still_pixel(
            scene,
            camera,
            options,
            photon_map,
            photon_spread,
            max_photons,
            x,
            camera.image_height - y - 1,
        )
}

/// Rendering in tiles loses nothing. Where each pixel is rendered from the
/// same draws, whichever tile it falls in, the tiles of a surface put
/// together and the surface rendered as one tile agree in every pixel: both
/// hold what the draws for that pixel come to.
pub proof fn lemma_tiling_keeps_the_picture<T: Scalar, P: Prim<T>, L: Light<T>, B: Background<T>>(
    scene: &Scene<P, L, B>,
    camera: &Camera<T>,
    options: RenderOptions,
    photon_map: Option<PhotonMap<T>>,
    photon_spread: T,
    max_photons: usize,
    draws: spec_fn(int, int) -> Seq<Seq<Sample<T>>>,
    it: SurfaceIterator,
    base: Surface,
    tiles: Seq<Surface>,
    whole: Surface,
    x: int,
    y: int,
)
    requires
        it.wf(),
        it.at() == (0usize, 0usize),
        tiles.len() == it.remaining().len(),
        forall|k: int|
            0 <= k < tiles.len() ==> made_from(
                #[trigger] tiles[k],
                it.remaining()[k].fitted(it.extent().0, it.extent().1),
            ) && shows(
                tiles[k],
                picture_on(scene, camera, options, photon_map, photon_spread, max_photons, draws),
            ),
        whole.x_off == 0 && whole.y_off == 0,
        (whole.width, whole.height) == it.extent(),
        shows(
            whole,
            picture_on(scene, camera, options, photon_map, photon_spread, max_photons, draws),
        ),
        0 <= x < it.extent().0,
        0 <= y < it.extent().1,
    ensures
        assembled_pixel(base, tiles, tiles.len() as int, x, y) == whole.pixel(x, y),
        whole.pixel(x, y) == pixel_on(
            scene,
            camera,
            options,
            photon_map,
            photon_spread,
            max_photons,
            x,
            camera.image_height - y - 1,
            draws(x, y),
        ),
{
    let image = picture_on(scene, camera, options, photon_map, photon_spread, max_photons, draws);
    lemma_tiles_assemble(it, base, tiles, whole, image, x, y);
    assert(whole.pixel(x, y) == image(whole.x_off + x, whole.y_off + y));
}

/// Where no random draw is taken, what `render_tile` promises of each tile
/// makes the tiles of a surface put together equal to the surface rendered
/// as one tile, in every pixel and for tiles of any size.
pub proof fn lemma_still_tiling_keeps_the_picture<
    T: Scalar,
    P: Prim<T>,
    L: Light<T>,
    B: Background<T>,
>(
    scene: &Scene<P, L, B>,
    camera: &Camera<T>,
    options: RenderOptions,
    photon_map: Option<PhotonMap<T>>,
    photon_spread: T,
    max_photons: usize,
    it: SurfaceIterator,
    base: Surface,
    tiles: Seq<Surface>,
    whole: Surface,
    x: int,
    y: int,
)
    requires
        it.wf(),
        it.at() == (0usize, 0usize),
        tiles.len() == it.remaining().len(),
        forall|k: int|
            0 <= k < tiles.len() ==> made_from(
                #[trigger] tiles[k],
                it.remaining()[k].fitted(it.extent().0, it.extent().1),
            ),
        forall|k: int, a: int, b: int|
            0 <= k < tiles.len() && 0 <= a < tiles[k].width && 0 <= b < tiles[k].height
                ==> #[trigger] tiles[k].pixel(a, b) == still_pixel(
                scene,
                camera,
                options,
                photon_map,
                photon_spread,
                max_photons,
                tiles[k].x_off + a,
                camera.image_height - (tiles[k].y_off + b) - 1,
            ),
        whole.x_off == 0 && whole.y_off == 0,
        (whole.width, whole.height) == it.extent(),
        forall|a: int, b: int|
            0 <= a < whole.width && 0 <= b < whole.height ==> #[trigger] whole.pixel(a, b)
                == still_pixel(
                scene,
                camera,
                options,
                photon_map,
                photon_spread,
                max_photons,
                a,
                camera.image_height - b - 1,
            ),
        0 <= x < it.extent().0,
        0 <= y < it.extent().1,
    ensures
        assembled_pixel(base, tiles, tiles.len() as int, x, y) == whole.pixel(x, y),
{
    let image = still_picture(scene, camera, options, photon_map, photon_spread, max_photons);
    assert forall|k: int| 0 <= k < tiles.len() implies shows(#[trigger] tiles[k], image) by {
        let t = tiles[k];
        assert forall|a: int, b: int| 0 <= a < t.width && 0 <= b < t.height implies #[trigger] t.pixel(
            a,
            b,
        ) == image(t.x_off + a, t.y_off + b) by {
            assert(tiles[k].pixel(a, b) == image(t.x_off + a, t.y_off + b));
        }
    }
    assert(shows(whole, image));
    lemma_tiles_assemble(it, base, tiles, whole, image, x, y);
    assert(whole.pixel(x, y) == image(whole.x_off + x, whole.y_off + y));
}

/// The size of the tiles does not show in a picture for which no random
/// draw is taken: two pictures of which each is what `render_tiled`
/// promises, for tiles of whatever size, agree in every pixel.
pub proof fn lemma_tile_size_does_not_show<T: Scalar, P: Prim<T>, L: Light<T>, B: Background<T>>(
    scene: &Scene<P, L, B>,
    camera: &Camera<T>,
    options: RenderOptions,
    photon_spread: T,
    max_photons: usize,
    one: Surface,
    other: Surface,
    x: int,
    y: int,
)
    requires
        one.width == camera.image_width && one.height == camera.image_height,
        other.width == camera.image_width && other.height == camera.image_height,
        forall|a: int, b: int|
            0 <= a < one.width && 0 <= b < one.height ==> #[trigger] one.pixel(a, b) == still_pixel(
                scene,
                camera,
                options,
                None,
                photon_spread,
                max_photons,
                a,
                camera.image_height - b - 1,
            ),
        forall|a: int, b: int|
            0 <= a < other.width && 0 <= b < other.height ==> #[trigger] other.pixel(a, b)
                == still_pixel(
                scene,
                camera,
                options,
                None,
                photon_spread,
                max_photons,
                a,
                camera.image_height - b - 1,
            ),
        0 <= x < camera.image_width,
        0 <= y < camera.image_height,
    ensures
        one.pixel(x, y) == other.pixel(x, y),
        one.wf() && other.wf() ==> one.buffer@ == other.buffer@,
{
    if one.wf() && other.wf() {
        lemma_same_pixels_same_buffer(one, other);
    }
}

/// Whether every channel of `c` is 0 or above.
pub open spec fn not_negative<T: Scalar>(c: ColorRGBA<T>) -> bool {
    &&& T::nil().at_most(c.r)
    &&& T::nil().at_most(c.g)
    &&& T::nil().at_most(c.b)
    &&& T::nil().at_most(c.a)
}

/// Whether the arithmetic of the scalar stays at 0 or above: 0, 1 and the
/// circle constant are there, and so are the sum, the product and the
/// quotient of two numbers that are, and every square.
pub open spec fn keeps_sign<T: Scalar>() -> bool {
    &&& T::nil().at_most(T::nil())
    &&& T::nil().at_most(T::unit())
    &&& T::nil().at_most(T::half_turn())
    &&& forall|a: T, b: T|
        T::nil().at_most(a) && T::nil().at_most(b) ==> T::nil().at_most(#[trigger] a.sum(b))
    &&& forall|a: T, b: T|
        T::nil().at_most(a) && T::nil().at_most(b) ==> T::nil().at_most(#[trigger] a.product(b))
    &&& forall|a: T, b: T|
        T::nil().at_most(a) && T::nil().at_most(b) ==> T::nil().at_most(#[trigger] a.quotient(b))
    &&& forall|a: T| T::nil().at_most(#[trigger] a.product(a))
}

/// Whether the photons `found` carry no negative power, and the material at
/// `hit` answers none of them with a negative colour.
pub open spec fn bright<T: Scalar, M: Material<T>>(
    found: Seq<PhotonQuery<T>>,
    hit: Intersection<'_, T, M>,
    n: Vec3<T>,
    i: Vec3<T>,
) -> bool {
    forall|j: int|
        0 <= j < found.len() ==> {
            &&& not_negative((#[trigger] found[j]).photon.power)
            &&& not_negative(hit.material.shade(n, i, found[j].photon.incoming_dir, hit.u, hit.v))
        }
}

/// Photons without negative power, answered without negative colours, add
/// up to a flux without a negative channel.
pub proof fn lemma_flux_is_not_negative<T: Scalar, M: Material<T>>(
    found: Seq<PhotonQuery<T>>,
    hit: Intersection<'_, T, M>,
    n: Vec3<T>,
    i: Vec3<T>,
    k: int,
)
    requires
        keeps_sign::<T>(),
        bright(found, hit, n, i),
        0 <= k <= found.len(),
    ensures
        not_negative(flux(found, hit, n, i, k)),
    decreases k,
{
    if k > 0 {
        lemma_flux_is_not_negative(found, hit, n, i, k - 1);
        let sofar = flux(found, hit, n, i, k - 1);
        let power = found[k - 1].photon.power;
        let answer = hit.material.shade(n, i, found[k - 1].photon.incoming_dir, hit.u, hit.v);
        assert(not_negative(power) && not_negative(answer));
        let gain = power.times(answer);
        assert(not_negative(gain));
        assert(not_negative(sofar.added(gain)));
    }
}

/// On a scalar whose arithmetic stays at 0 or above, the indirect light
/// from photons without negative power, answered without negative colours,
/// has no negative channel.
pub proof fn lemma_irradiance_is_not_negative<T: Scalar, M: Material<T>>(
    found: Seq<PhotonQuery<T>>,
    hit: Intersection<'_, T, M>,
    n: Vec3<T>,
    i: Vec3<T>,
)
    requires
        keeps_sign::<T>(),
        bright(found, hit, n, i),
    ensures
        not_negative(irradiance(found, hit, n, i)),
{
    if found.len() >= 2 {
        lemma_flux_is_not_negative(found, hit, n, i, found.len() as int);
        let d = found[farthest(found, found.len() as int)].distance_to_point;
        let per_area = T::unit().quotient(T::half_turn()).quotient(squared(d));
        assert(T::nil().at_most(d.product(d)));
        assert(T::nil().at_most(T::unit().quotient(T::half_turn())));
        assert(T::nil().at_most(per_area));
    }
}

/// On a scalar whose arithmetic stays at 0 or above, the estimate of the
/// indirect light at a point has no negative channel, where no photon of the
/// map carries negative power and the material answers no direction with a
/// negative colour.
pub proof fn lemma_estimate_is_not_negative<T: Scalar, M: Material<T>>(
    photons: Seq<Photon<T>>,
    spread: T,
    max_photons: int,
    hit: Intersection<'_, T, M>,
    n: Vec3<T>,
    i: Vec3<T>,
)
    requires
        keeps_sign::<T>(),
        forall|j: int| 0 <= j < photons.len() ==> not_negative((#[trigger] photons[j]).power),
        forall|l: Vec3<T>| not_negative(#[trigger] hit.material.shade(n, i, l, hit.u, hit.v)),
    ensures
        not_negative(
            irradiance(
                gathered(photons, hit.position, spread, max_photons, photons.len() as int),
                hit,
                n,
                i,
            ),
        ),
{
    let found = gathered(photons, hit.position, spread, max_photons, photons.len() as int);
    assert forall|j: int| 0 <= j < found.len() implies {
        &&& not_negative((#[trigger] found[j]).photon.power)
        &&& not_negative(hit.material.shade(n, i, found[j].photon.incoming_dir, hit.u, hit.v))
    } by {
        let w = lemma_gathered_are_stored(
            photons,
            hit.position,
            spread,
            max_photons,
            photons.len() as int,
            j,
        );
        assert(found[j].photon == photons[w]);
    }
    lemma_irradiance_is_not_negative(found, hit, n, i);
}

/// Fixed-point arithmetic stays at 0 or above.
pub proof fn lemma_fixed_keeps_sign()
    ensures
        keeps_sign::<Fixed>(),
{
    assert forall|a: Fixed, b: Fixed|
        Fixed::nil().at_most(a) && Fixed::nil().at_most(b) implies Fixed::nil().at_most(
        #[trigger] a.product(b),
    ) by {
        assert(a.raw * b.raw >= 0) by (nonlinear_arith)
            requires
                a.raw >= 0,
                b.raw >= 0,
        ;
    }
    assert forall|a: Fixed, b: Fixed|
        Fixed::nil().at_most(a) && Fixed::nil().at_most(b) implies Fixed::nil().at_most(
        #[trigger] a.quotient(b),
    ) by {
        if b.raw != 0 {
            assert((a.raw * 65536) / (b.raw as int) >= 0) by (nonlinear_arith)
                requires
                    a.raw >= 0,
                    b.raw > 0,
            ;
        }
    }
    assert forall|a: Fixed| Fixed::nil().at_most(#[trigger] a.product(a)) by {
        assert(a.raw * a.raw >= 0) by (nonlinear_arith);
    }
}

/// On fixed-point numbers the estimate of the indirect light at a point has
/// no negative channel, where no photon of the map carries negative power
/// and the material answers no direction with a negative colour.
pub proof fn lemma_estimate_is_not_negative_exact<M: Material<Fixed>>(
    photons: Seq<Photon<Fixed>>,
    spread: Fixed,
    max_photons: int,
    hit: Intersection<'_, Fixed, M>,
    n: Vec3<Fixed>,
    i: Vec3<Fixed>,
)
    requires
        forall|j: int| 0 <= j < photons.len() ==> not_negative((#[trigger] photons[j]).power),
        forall|l: Vec3<Fixed>| not_negative(#[trigger] hit.material.shade(n, i, l, hit.u, hit.v)),
    ensures
        not_negative(
            irradiance(
                gathered(photons, hit.position, spread, max_photons, photons.len() as int),
                hit,
                n,
                i,
            ),
        ),
{
    lemma_fixed_keeps_sign();
    lemma_estimate_is_not_negative(photons, spread, max_photons, hit, n, i);
}

/// Points seen later do not change what the earlier ones add up to.
proof fn lemma_shadow_sum_grows<T: Scalar, P: Prim<T>>(
    tree: &Octree<P>,
    position: Vec3<T>,
    seen: Seq<Vec3<T>>,
    grown: Seq<Vec3<T>>,
    k: int,
)
    requires
        0 <= k <= seen.len() <= grown.len(),
        forall|j: int| 0 <= j < seen.len() ==> seen[j] == grown[j],
    ensures
        shadow_sum(tree, position, seen, k) == shadow_sum(tree, position, grown, k),
    decreases k,
{
    if k > 0 {
        lemma_shadow_sum_grows(tree, position, seen, grown, k - 1);
    }
}

/// Lights seen later do not change what the earlier ones give.
proof fn lemma_local_on_grows<T: Scalar, P: Prim<T>, L: Light<T>>(
    tree: &Octree<P>,
    lights: Seq<L>,
    hit: Intersection<'_, T, P::Mat>,
    n: Vec3<T>,
    i: Vec3<T>,
    shadow_samples: u32,
    seen: Seq<Seq<Vec3<T>>>,
    grown: Seq<Seq<Vec3<T>>>,
    k: int,
)
    requires
        0 <= k <= seen.len() <= grown.len(),
        forall|j: int| 0 <= j < seen.len() ==> seen[j] == grown[j],
    ensures
        local_on(tree, lights, hit, n, i, shadow_samples, seen, k) == local_on(
            tree,
            lights,
            hit,
            n,
            i,
            shadow_samples,
            grown,
            k,
        ),
    decreases k,
{
    if k > 0 {
        lemma_local_on_grows(tree, lights, hit, n, i, shadow_samples, seen, grown, k - 1);
    }
}

/// Rays mirrored later do not change what arrives along the earlier ones.
proof fn lemma_gloss_sum_grows<T: Scalar, P: Prim<T>, L: Light<T>, B: Background<T>>(
    scene: &Scene<P, L, B>,
    base: Ray<T>,
    gloss: T,
    options: RenderOptions,
    inside: bool,
    photon_map: Option<PhotonMap<T>>,
    photon_spread: T,
    max_photons: usize,
    mirrored: Seq<(Vec3<T>, Trail<T>)>,
    grown: Seq<(Vec3<T>, Trail<T>)>,
    k: int,
)
    requires
        0 <= k <= mirrored.len() <= grown.len(),
        forall|j: int| 0 <= j < mirrored.len() ==> mirrored[j] == grown[j],
    ensures
        gloss_sum(
            scene,
            base,
            gloss,
            options,
            inside,
            photon_map,
            photon_spread,
            max_photons,
            mirrored,
            k,
        ) == gloss_sum(
            scene,
            base,
            gloss,
            options,
            inside,
            photon_map,
            photon_spread,
            max_photons,
            grown,
            k,
        ),
    decreases k,
{
    if k > 0 {
        lemma_gloss_sum_grows(
            scene,
            base,
            gloss,
            options,
            inside,
            photon_map,
            photon_spread,
            max_photons,
            mirrored,
            grown,
            k - 1,
        );
    }
}

/// Where every light is a point or shadows are off, where each light was
/// seen does not matter.
proof fn lemma_still_light<T: Scalar, P: Prim<T>, L: Light<T>>(
    tree: &Octree<P>,
    lights: Seq<L>,
    hit: Intersection<'_, T, P::Mat>,
    n: Vec3<T>,
    i: Vec3<T>,
    shadow_samples: u32,
    seen: Seq<Seq<Vec3<T>>>,
    k: int,
)
    requires
        point_lit(lights, shadow_samples),
        0 <= k <= lights.len(),
    ensures
        local_on(tree, lights, hit, n, i, shadow_samples, seen, k) == local_light(
            tree,
            lights,
            hit,
            n,
            i,
            shadow_samples,
            k,
        ),
    decreases k,
{
    if k > 0 {
        lemma_still_light(tree, lights, hit, n, i, shadow_samples, seen, k - 1);
        assert(shadow_samples == 0 || lights[k - 1].pointed());
    }
}

/// Where no random draw is taken, what the draws came to does not matter:
/// what arrives along a ray is `radiance`, whatever the trail.
pub proof fn lemma_still_radiance<T: Scalar, P: Prim<T>, L: Light<T>, B: Background<T>>(
    scene: &Scene<P, L, B>,
    ray: Ray<T>,
    options: RenderOptions,
    inside: bool,
    photon_map: Option<PhotonMap<T>>,
    photon_spread: T,
    max_photons: usize,
    trail: Trail<T>,
)
    requires
        scene.octree.wf(),
        point_lit(scene.lights@, options.shadow_samples),
        gloss_free(&scene.octree),
    ensures
        radiance_on(scene, ray, options, inside, photon_map, photon_spread, max_photons, trail)
            == radiance(scene, ray, options, inside, photon_map, photon_spread, max_photons),
    decreases options.reflect_depth + options.refract_depth,
{
    if !options.spent() {
        match ray.first_hit(&scene.octree) {
            None => {},
            Some(hit) => {
                let n = hit.n.normalized();
                let i = ray.direction.negated().normalized();
                let id = lemma_first_hit_is_a_strike(&scene.octree, ray);
                assert(scene.octree.item(id).hit(ray, T::tolerance(), T::unbounded()) == Some(hit));
                assert(!hit.material.glossy());
                lemma_still_light(
                    &scene.octree,
                    scene.lights@,
                    hit,
                    n,
                    i,
                    options.shadow_samples,
                    trail.seen,
                    scene.lights.len() as int,
                );
                if hit.material.reflective() {
                    lemma_still_radiance(
                        scene,
                        mirror_ray(hit, i, n),
                        options.after_reflection(),
                        inside,
                        photon_map,
                        photon_spread,
                        max_photons,
                        trail.mirrored[0].1,
                    );
                }
                if hit.material.refractive() {
                    lemma_still_radiance(
                        scene,
                        onward_ray(hit, i, n, inside),
                        options.after_refraction(),
                        !inside,
                        photon_map,
                        photon_spread,
                        max_photons,
                        trail.passed[0],
                    );
                }
            },
        }
    }
}

/// Rays sampled later do not change what the earlier ones of a row add up
/// to.
proof fn lemma_row_sum_grows<T: Scalar, P: Prim<T>, L: Light<T>, B: Background<T>>(
    scene: &Scene<P, L, B>,
    camera: &Camera<T>,
    options: RenderOptions,
    photon_map: Option<PhotonMap<T>>,
    photon_spread: T,
    max_photons: usize,
    x: int,
    y: int,
    start: ColorRGBA<T>,
    row: Seq<Sample<T>>,
    grown: Seq<Sample<T>>,
    y_sub: int,
    k: int,
)
    requires
        0 <= k <= row.len() <= grown.len(),
        forall|j: int| 0 <= j < row.len() ==> row[j] == grown[j],
    ensures
        row_sum(
            scene,
            camera,
            options,
            photon_map,
            photon_spread,
            max_photons,
            x,
            y,
            start,
            row,
            y_sub,
            k,
        ) == row_sum(
            scene,
            camera,
            options,
            photon_map,
            photon_spread,
            max_photons,
            x,
            y,
            start,
            grown,
            y_sub,
            k,
        ),
    decreases k,
{
    if k > 0 {
        lemma_row_sum_grows(
            scene,
            camera,
            options,
            photon_map,
            photon_spread,
            max_photons,
            x,
            y,
            start,
            row,
            grown,
            y_sub,
            k - 1,
        );
    }
}

/// Rows sampled later do not change what the earlier ones add up to.
proof fn lemma_grid_sum_grows<T: Scalar, P: Prim<T>, L: Light<T>, B: Background<T>>(
    scene: &Scene<P, L, B>,
    camera: &Camera<T>,
    options: RenderOptions,
    photon_map: Option<PhotonMap<T>>,
    photon_spread: T,
    max_photons: usize,
    x: int,
    y: int,
    grid: Seq<Seq<Sample<T>>>,
    grown: Seq<Seq<Sample<T>>>,
    k: int,
)
    requires
        0 <= k <= grid.len() <= grown.len(),
        forall|j: int| 0 <= j < grid.len() ==> grid[j] == grown[j],
    ensures
        grid_sum(
            scene,
            camera,
            options,
            photon_map,
            photon_spread,
            max_photons,
            x,
            y,
            grid,
            k,
        ) == grid_sum(
            scene,
            camera,
            options,
            photon_map,
            photon_spread,
            max_photons,
            x,
            y,
            grown,
            k,
        ),
    decreases k,
{
    if k > 0 {
        lemma_grid_sum_grows(
            scene,
            camera,
            options,
            photon_map,
            photon_spread,
            max_photons,
            x,
            y,
            grid,
            grown,
            k - 1,
        );
    }
}

/// Photons shot later do not change what the earlier ones leave behind.
proof fn lemma_volley_grows<T: Scalar, P: Prim<T>, L, B>(
    scene: &Scene<P, L, B>,
    caustic_mode: bool,
    power_threshold: T,
    power: ColorRGBA<T>,
    max_bounces: int,
    shots: Seq<Shot<T>>,
    grown: Seq<Shot<T>>,
    k: int,
)
    requires
        0 <= k <= shots.len() <= grown.len(),
        forall|j: int| 0 <= j < shots.len() ==> shots[j] == grown[j],
    ensures
        volley(scene, caustic_mode, power_threshold, power, max_bounces, shots, k) == volley(
            scene,
            caustic_mode,
            power_threshold,
            power,
            max_bounces,
            grown,
            k,
        ),
    decreases k,
{
    if k > 0 {
        lemma_volley_grows(
            scene,
            caustic_mode,
            power_threshold,
            power,
            max_bounces,
            shots,
            grown,
            k - 1,
        );
    }
}

/// Lights shot from later do not change the harvest of the earlier ones.
proof fn lemma_harvest_grows<T: Scalar, P: Prim<T>, L: Light<T>, B>(
    scene: &Scene<P, L, B>,
    power_threshold: T,
    max_bounces: int,
    shots: Seq<(Seq<Shot<T>>, Seq<Shot<T>>)>,
    grown: Seq<(Seq<Shot<T>>, Seq<Shot<T>>)>,
    k: int,
)
    requires
        0 <= k <= shots.len() <= grown.len(),
        forall|j: int| 0 <= j < shots.len() ==> shots[j] == grown[j],
    ensures
        harvest(scene, power_threshold, max_bounces, shots, k) == harvest(
            scene,
            power_threshold,
            max_bounces,
            grown,
            k,
        ),
    decreases k,
{
    if k > 0 {
        lemma_harvest_grows(scene, power_threshold, max_bounces, shots, grown, k - 1);
    }
}

} // verus!
