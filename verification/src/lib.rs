//! A Monte Carlo path tracer over fixed-point arithmetic.
//!
//! A scene is a tree of things that a ray can hit ([`hit::Hittable`]):
//! spheres and rectangles, things moved, turned or seen from the other side,
//! lists of things, and bounding-volume hierarchies over them. Every surface
//! has a material ([`material::Material`]) that emits light, absorbs it, or
//! scatters it, either along one ray or by a density over directions
//! ([`pdf::PDF`]). [`render::get_color`] follows one random path of a ray
//! through the scene and returns the light it finds.
//!
//! All numbers are fixed-point scalars ([`scalar::Scalar`]), so that every
//! result is a function of the scene, the ray and the random samples drawn,
//! and is stated as such. The laws of the tracer are proved of these
//! functions: the bounding boxes form a semilattice under union
//! ([`aabb`]), a sphere is hit at the smaller root first ([`sphere`]), the
//! normal of a hit faces the ray ([`facing`]), and a hierarchy reports what
//! the linear scan reports ([`nearest`]) wherever the bounding boxes are
//! valid, which rounding allows for all rays but those that graze a face
//! of a box ([`enclosure`]).
pub mod aabb;
pub mod bvh;
pub mod camera;
pub mod clock;
pub mod enclosure;
pub mod facing;
pub mod hit;
pub mod material;
pub mod nearest;
pub mod onb;
pub mod pdf;
pub mod point;
pub mod random;
pub mod ray;
pub mod rect;
pub mod render;
pub mod scalar;
pub mod scenes;
mod shared;
pub mod sphere;
pub mod texture;
pub mod transform;
pub mod trig;
pub mod vec3;
