//! The names of the scenes that ship with the renderer.
//!
//! Building one reads meshes and textures from disk; these values only select
//! which to build.

use vstd::prelude::*;

verus! {

/// Which material the heptoroid is made of.
#[derive(Copy, Clone, Debug, PartialEq, Eq, Structural)]
pub enum HeptoroidMaterial {
    Shiny,
    Refractive,
    White,
}

/// The heptoroid, in one of three materials.
#[derive(Copy, Clone, Debug)]
pub struct HeptoroidConfig {
    pub material: HeptoroidMaterial,
}

impl HeptoroidConfig {
    pub fn shiny() -> (c: HeptoroidConfig)
        ensures
            c.material == HeptoroidMaterial::Shiny,
    {
        HeptoroidConfig { material: HeptoroidMaterial::Shiny }
    }

    pub fn white() -> (c: HeptoroidConfig)
        ensures
            c.material == HeptoroidMaterial::White,
    {
        HeptoroidConfig { material: HeptoroidMaterial::White }
    }

    pub fn refractive() -> (c: HeptoroidConfig)
        ensures
            c.material == HeptoroidMaterial::Refractive,
    {
        HeptoroidConfig { material: HeptoroidMaterial::Refractive }
    }
}

/// The cow.
#[derive(Copy, Clone, Debug)]
pub struct CowConfig;

/// The atrium of the Sponza palace.
#[derive(Copy, Clone, Debug)]
pub struct SponzaConfig;

/// The teapot.
#[derive(Copy, Clone, Debug)]
pub struct TeapotConfig;

} // verus!
