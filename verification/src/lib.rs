//! An offline ray-traced image renderer built on saturating fixed-point
//! arithmetic: scenes of spheres with diffuse, metallic and refractive
//! materials are sampled by a camera that shoots jittered rays through
//! each pixel and recursively estimates the light they carry.

pub mod fixed;
pub mod rng;
pub mod vec3;
pub mod ray;
pub mod interval;
pub mod color;
pub mod material;
pub mod hittable;
pub mod hittable_list;
pub mod camera;
pub mod sphere;

pub use fixed::Fp;
