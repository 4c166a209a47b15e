//! The arithmetic foundation: fixed-point numbers, vectors, determinants, rays.
pub mod matrix;
pub mod ray;
pub mod scalar;
pub mod vector;

pub use self::matrix::{det3, Matrix};
pub use self::ray::{in_range, tmax, tmin, Ray, TMAX_RAW, TMIN_RAW};
pub use self::scalar::{Scalar, SCALE};
pub use self::vector::Vector;
