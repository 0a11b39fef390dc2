//! A path-tracing renderer for scenes of spheres, built on exact
//! fixed-point arithmetic so that every step of the pipeline — vector
//! algebra, ray/sphere intersection, material scattering and the
//! recursive colour estimator — carries a proved contract.

pub mod camera;
pub mod colour;
pub mod fixed;
pub mod hittable;
pub mod hittable_list;
pub mod interval;
pub mod laws;
pub mod material;
pub mod random;
pub mod ray;
pub mod sphere;
pub mod trig;
pub mod vec3;

pub use camera::{Camera, CameraBuilder};
pub use colour::write_colour;
pub use fixed::Fixed;
pub use hittable::HitRecord;
pub use hittable_list::HittableList;
pub use interval::Interval;
pub use material::{Dielectric, Lambertian, Material, Metal, Scattering};
pub use random::Rng;
pub use ray::Ray;
pub use sphere::Sphere;
pub use trig::degrees_to_radians;
pub use vec3::Vec3;
