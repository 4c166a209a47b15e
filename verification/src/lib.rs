//! A Whitted-style ray tracer on fixed-point numbers.
//!
//! Given a scene (a camera, shapes, lights and materials) the library
//! computes for every pixel the colour that arrives along the ray through
//! it: direct light with shadows, mirror reflection and refraction, down to
//! a bounded depth of recursion.
//!
//! - [`math`]: fixed-point numbers, vectors, determinants and rays.
//! - [`color`]: colours and their bytes.
//! - [`intersect`]: spheres and triangles, and what a ray test reports.
//! - [`bvh`]: axis-aligned boxes and the hierarchy that holds the shapes,
//!   with the laws that tie a query of the hierarchy to a scan of the shapes.
//! - [`light`]: point lights and directional lights.
//! - [`scene`]: the scene, and the reading of a scene from text.
//! - [`reader`]: words and numbers in a scene text.
//! - [`raytracer`]: the recursive evaluation of rays and the rendering.
//! - [`picture`]: the rendered picture.
//!
//! All numbers are counts of millionths: no operation fails, a result that
//! is too large saturates, and what is rounded is rounded toward zero.
pub mod bvh;
pub mod color;
pub mod intersect;
pub mod light;
pub mod math;
pub mod picture;
pub mod raytracer;
pub mod reader;
pub mod scene;

pub use self::raytracer::run;
