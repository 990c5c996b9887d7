//! The core of an offline ray tracer: a spatial index over primitives, the
//! recursive integrator, the tile partition of the output surface and the
//! photon map, with the contracts each of them keeps. Around the core: a
//! camera that moves between keyframes, and a solid of triangles that is
//! coloured from a picture.

pub mod animator;
pub mod bbox;
pub mod camera;
pub mod colorrgba;
pub mod depth;
pub mod fixed;
pub mod geometry;
pub mod gridray;
pub mod icosahedron;
pub mod light;
pub mod material;
pub mod my_scene;
pub mod octree;
pub mod photon;
pub mod plane;
pub mod ray;
pub mod renderer;
pub mod rtree;
pub mod sampler;
pub mod scalar;
pub mod scene;
pub mod shape;
pub mod sphere;
pub mod surface;
pub mod transform;
pub mod triangle;
pub mod vec3;
