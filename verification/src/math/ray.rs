//! Rays, and the bounds on the parameter of an accepted intersection.
use crate::math::scalar::Scalar;
use crate::math::vector::Vector;
use vstd::prelude::*;

verus! {

/// The raw value of the smallest parameter bound: one millionth.
pub const TMIN_RAW: i64 = 1;

/// The raw value of the largest parameter bound: one hundred thousand.
pub const TMAX_RAW: i64 = 100_000_000_000;

pub open spec fn spec_tmin() -> Scalar {
    Scalar { raw: TMIN_RAW }
}

/// An intersection is accepted only at a parameter above this bound.
#[verifier::when_used_as_spec(spec_tmin)]
pub fn tmin() -> (r: Scalar)
    ensures
        r == spec_tmin(),
{
    Scalar { raw: TMIN_RAW }
}

pub open spec fn spec_tmax() -> Scalar {
    Scalar { raw: TMAX_RAW }
}

/// An intersection is accepted only at a parameter below this bound.
#[verifier::when_used_as_spec(spec_tmax)]
pub fn tmax() -> (r: Scalar)
    ensures
        r == spec_tmax(),
{
    Scalar { raw: TMAX_RAW }
}

/// Whether `t` lies strictly between the two bounds.
pub open spec fn in_range(t: Scalar) -> bool {
    TMIN_RAW < t@ < TMAX_RAW
}

/// A parametric line: the points `pos + dir * t`.
#[derive(Clone, Copy, Debug, PartialEq, Eq, Structural)]
pub struct Ray {
    pub pos: Vector,
    pub dir: Vector,
}

impl Ray {
    pub open spec fn spec_new() -> Ray {
        Ray { pos: Vector::new(), dir: Vector::new() }
    }

    /// The ray at the origin with no direction.
    #[verifier::when_used_as_spec(spec_new)]
    pub fn new() -> (r: Ray)
        ensures
            r == Ray::spec_new(),
    {
        Ray { pos: Vector::new(), dir: Vector::new() }
    }

    pub open spec fn spec_find_point(&self, t: Scalar) -> Vector {
        self.pos.spec_add(self.dir.spec_mul(t))
    }

    /// The point of the ray at parameter `t`.
    #[verifier::when_used_as_spec(spec_find_point)]
    pub fn find_point(&self, t: Scalar) -> (r: Vector)
        ensures
            r == self.spec_find_point(t),
    {
        self.pos.add(self.dir.mul(t))
    }
}

} // verus!
