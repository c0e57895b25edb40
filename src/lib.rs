//! A path tracer over fixed-point reals: vector algebra, ray/primitive
//! intersection, a closest-hit scene aggregate, material scattering, a
//! camera, the recursive colour estimator and the row-band tile scheduler.

pub mod fixed;
pub mod vec3;
pub mod ray;
pub mod material;
pub mod hittable;
pub mod sphere;
pub mod triangle;
pub mod closest;
pub mod rectangle;
pub mod axis_aligned_cube;
pub mod hittables;
pub mod random;
pub mod camera;
pub mod tracer;
pub mod scheduler;
pub mod render;
pub mod colour_map;
pub mod terrain;
