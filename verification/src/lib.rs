//! The decision core of a Monte-Carlo path tracer.
//!
//! Every choice the renderer makes is made here, on numbers held by their bit
//! pattern: which root of a sphere's quadratic is the hit, whether a ray
//! crosses a box, which of two hits is closer, how a hierarchy of bounding
//! boxes is built and searched, when a path ends, and where a pixel's bytes
//! go. The arithmetic between those choices is the caller's.

pub mod scalar;
pub mod vec3;
pub mod ray;
pub mod aabb;
pub mod hitable;
pub mod hitable_list;
pub mod bvh;
pub mod bvh_laws;
pub mod search;
pub mod hit_laws;
pub mod shapes;
pub mod material;
pub mod tracer;
pub mod render;
