//! Three-by-three determinants.
use crate::math::scalar::Scalar;
use crate::math::vector::Vector;
use vstd::prelude::*;

verus! {

/// The determinant of the columns `a`, `b`, `c`, expanded along the first row:
/// each product and each difference rounded and saturated as the scalar
/// operations are.
pub open spec fn det3(a: Vector, b: Vector, c: Vector) -> Scalar {
    a.x.mul(b.y.mul(c.z).sub(c.y.mul(b.z))).sub(b.x.mul(a.y.mul(c.z).sub(c.y.mul(a.z)))).add(
        c.x.mul(a.y.mul(b.z).sub(b.y.mul(a.z))),
    )
}

/// Three column vectors.
#[derive(Clone, Copy, Debug)]
pub struct Matrix {
    pub v: [Vector; 3],
}

impl Matrix {
    pub open spec fn spec_det(&self) -> Scalar {
        det3(self.v[0], self.v[1], self.v[2])
    }

    /// The determinant of the three columns.
    #[verifier::when_used_as_spec(spec_det)]
    pub fn det(&self) -> (r: Scalar)
        ensures
            r == self.spec_det(),
    {
        let a: Vector = self.v[0];
        let b: Vector = self.v[1];
        let c: Vector = self.v[2];
        a.x.mul(b.y.mul(c.z).sub(c.y.mul(b.z))).sub(
            b.x.mul(a.y.mul(c.z).sub(c.y.mul(a.z))),
        ).add(c.x.mul(a.y.mul(b.z).sub(b.y.mul(a.z))))
    }
}

} // verus!
