//! Triangles.
use crate::bvh::BoundingBox;
use crate::intersect::{Hit, Intersect};
use crate::math::matrix::{det3, Matrix};
use crate::math::ray::{in_range, tmax, Ray, TMAX_RAW, TMIN_RAW};
use crate::math::scalar::{Scalar, SCALE};
use crate::math::vector::Vector;
use crate::scene::Material;
use vstd::prelude::*;

verus! {

/// The triangle with corners `v1`, `v2`, `v3`.
#[derive(Clone, Copy, Debug, PartialEq, Eq, Structural)]
pub struct Triangle {
    pub v1: Vector,
    pub v3: Vector,
    pub v2: Vector,
    pub mat: Material,
}

impl Triangle {
    /// The determinant of the system that Cramer's rule solves: zero for a
    /// triangle without area and for a ray in the triangle's plane.
    pub open spec fn det_a(&self, ray: Ray) -> Scalar {
        det3(self.v1.sub(self.v2), self.v1.sub(self.v3), ray.dir)
    }

    /// The parameter of the ray at the triangle's plane.
    pub open spec fn param_t(&self, ray: Ray) -> Scalar {
        det3(self.v1.sub(self.v2), self.v1.sub(self.v3), self.v1.sub(ray.pos)).div(
            self.det_a(ray),
        )
    }

    /// The barycentric coordinate along the side from `v1` to `v3`.
    pub open spec fn param_c(&self, ray: Ray) -> Scalar {
        det3(self.v1.sub(self.v2), self.v1.sub(ray.pos), ray.dir).div(self.det_a(ray))
    }

    /// The barycentric coordinate along the side from `v1` to `v2`.
    pub open spec fn param_b(&self, ray: Ray) -> Scalar {
        det3(self.v1.sub(ray.pos), self.v1.sub(self.v3), ray.dir).div(self.det_a(ray))
    }

    /// The unit vector that stands on the triangle, on the side from which
    /// the corners `v1`, `v2`, `v3` run against the clock.
    pub open spec fn upward(&self) -> Vector {
        self.v1.across(&self.v2, &self.v3)
    }

    /// The normal of a triangle whose corners are not on one line has length
    /// one within a few millionths, however small the triangle is; and where
    /// the view direction is on the side of `upward`, the normal is `upward`
    /// and its inner product with the view direction is positive.
    pub proof fn lemma_normal(&self, point: Vector, v: Vector)
        requires
            self.v1.side_product(&self.v2, &self.v3) != (0int, 0int, 0int),
        ensures
            self.spec_normal(point, v).is_unit(),
            v.dot(&self.upward())@ > 0 ==> self.spec_normal(point, v) == self.upward() && v.dot(
                &self.spec_normal(point, v),
            )@ > 0,
            v.dot(&self.upward())@ <= 0 ==> self.spec_normal(point, v) == self.upward().neg(),
    {
        self.v1.lemma_across_unit(&self.v2, &self.v3);
        self.upward().lemma_neg_unit();
    }

    pub open spec fn spec_bounds(&self) -> BoundingBox {
        BoundingBox {
            x_min: self.v1.x.min(self.v2.x.min(self.v3.x)),
            x_max: self.v1.x.max(self.v2.x.max(self.v3.x)),
            y_min: self.v1.y.min(self.v2.y.min(self.v3.y)),
            y_max: self.v1.y.max(self.v2.y.max(self.v3.y)),
            z_min: self.v1.z.min(self.v2.z.min(self.v3.z)),
            z_max: self.v1.z.max(self.v2.z.max(self.v3.z)),
        }
    }

    /// The box around the triangle: on each axis the least and the greatest
    /// coordinate of its corners.
    #[verifier::when_used_as_spec(spec_bounds)]
    pub fn bounds(&self) -> (b: BoundingBox)
        ensures
            b == self.spec_bounds(),
    {
        let x_min: Scalar = self.v1.x.min(self.v2.x.min(self.v3.x));
        let x_max: Scalar = self.v1.x.max(self.v2.x.max(self.v3.x));
        let y_min: Scalar = self.v1.y.min(self.v2.y.min(self.v3.y));
        let y_max: Scalar = self.v1.y.max(self.v2.y.max(self.v3.y));
        let z_min: Scalar = self.v1.z.min(self.v2.z.min(self.v3.z));
        let z_max: Scalar = self.v1.z.max(self.v2.z.max(self.v3.z));
        BoundingBox { x_min, x_max, y_min, y_max, z_min, z_max }
    }

    /// The ray meets the triangle at `param_t` exactly when it passes the slab
    /// test of the triangle's extents, the determinant is not zero, the
    /// parameter lies strictly between the bounds, and the barycentric
    /// coordinates satisfy `0 <= c <= 1` and `0 <= b <= 1 - c`, the borders
    /// of the triangle included. No point of the triangle is outside its
    /// extents, so that the slab test refuses only what rounding made up.
    #[verifier::opaque]
    pub open spec fn meets(&self, ray: Ray) -> Option<Scalar> {
        let t: Scalar = self.param_t(ray);
        let c: Scalar = self.param_c(ray);
        let b: Scalar = self.param_b(ray);
        if self.bounds().admits(ray) && self.det_a(ray)@ != 0 && in_range(t) && 0 <= c@ <= SCALE && 0 <= b@ <= Scalar::one().sub(
            c,
        )@ {
            Some(t)
        } else {
            None
        }
    }

    /// An accepted intersection lies strictly between the two bounds, and a
    /// system with zero determinant has none.
    pub proof fn lemma_meets_in_range(&self, ray: Ray)
        ensures
            self.meets(ray) matches Some(t) ==> in_range(t),
            self.det_a(ray)@ == 0 ==> self.meets(ray) is None,
    {
        reveal(Triangle::meets);
    }

    /// The borders of the triangle belong to it: a ray that reaches the
    /// triangle's plane strictly between the two bounds, with a barycentric
    /// coordinate of exactly zero or with the two coordinates adding up to
    /// exactly one, meets the triangle as one inside it does.
    pub proof fn lemma_borders(&self, ray: Ray)
        requires
            self.bounds().admits(ray),
            self.det_a(ray)@ != 0,
            in_range(self.param_t(ray)),
            0 <= self.param_c(ray)@ <= SCALE,
            0 <= self.param_b(ray)@ <= Scalar::one().sub(self.param_c(ray))@,
        ensures
            self.meets(ray) == Some(self.param_t(ray)),
    {
        reveal(Triangle::meets);
    }

    /// A ray that meets the triangle passes the slab test of its extents.
    pub proof fn lemma_meets_admitted(&self, ray: Ray)
        ensures
            self.meets(ray) is Some ==> self.spec_extents().admits(ray),
    {
        reveal(Triangle::meets);
    }

    /// A ray with a barycentric coordinate outside the triangle, however
    /// little, does not meet it.
    pub proof fn lemma_outside(&self, ray: Ray)
        requires
            self.param_c(ray)@ < 0 || self.param_c(ray)@ > SCALE || self.param_b(ray)@ < 0
                || self.param_b(ray)@ > Scalar::one().sub(self.param_c(ray))@,
        ensures
            self.meets(ray) is None,
    {
        reveal(Triangle::meets);
    }

    /// A triangle with two corners in one place has no area and is never met:
    /// its determinant is zero whatever the ray.
    pub proof fn lemma_coincident_corners(&self, ray: Ray)
        requires
            self.v1 == self.v2 || self.v1 == self.v3 || self.v2 == self.v3,
        ensures
            self.det_a(ray)@ == 0,
            self.meets(ray) is None,
    {
        reveal(Triangle::meets);
        let a: Vector = self.v1.sub(self.v2);
        let b: Vector = self.v1.sub(self.v3);
        let c: Vector = ray.dir;
        if self.v1 == self.v2 {
            a.x.lemma_mul_one();
            c.x.lemma_mul_one();
            b.x.lemma_mul_one();
            a.y.lemma_mul_one();
            a.z.lemma_mul_one();
            c.y.lemma_mul_one();
            c.z.lemma_mul_one();
            b.y.lemma_mul_one();
            b.z.lemma_mul_one();
            b.y.mul(c.z).sub(c.y.mul(b.z)).lemma_mul_one();
        } else if self.v1 == self.v3 {
            a.x.lemma_mul_one();
            c.x.lemma_mul_one();
            a.y.lemma_mul_one();
            a.z.lemma_mul_one();
            c.y.lemma_mul_one();
            c.z.lemma_mul_one();
            a.y.mul(c.z).sub(c.y.mul(a.z)).lemma_mul_one();
        } else {
            c.x.lemma_mul_one();
        }
    }
}

impl Intersect for Triangle {
    open spec fn spec_center(&self) -> Vector {
        self.v1.add(self.v2).add(self.v3).div(Scalar::from_int(3))
    }

    open spec fn spec_intersection(&self, ray: Ray) -> Hit {
        Hit::of(self.meets(ray), ray)
    }

    open spec fn spec_material(&self) -> Material {
        self.mat
    }

    /// Of the two unit vectors that stand on the triangle, the one on the
    /// side of `v`.
    open spec fn spec_normal(&self, point: Vector, v: Vector) -> Vector {
        let up: Vector = self.upward();
        if v.dot(&up)@ > 0 {
            up
        } else {
            up.neg()
        }
    }

    open spec fn spec_extents(&self) -> BoundingBox {
        self.bounds()
    }

    fn center(&self) -> (r: Vector) {
        self.v1.add(self.v2).add(self.v3).div(Scalar::from_int(3))
    }

    fn get_ray_intersection(&self, ray: Ray) -> (h: Hit) {
        reveal(Triangle::meets);
        let mut hit: Hit = Hit { t: tmax(), shape: None, hit: false, ray };
        if !self.bounds().passes(ray) {
            return hit;
        }
        let m: Matrix = Matrix { v: [self.v1.sub(self.v2), self.v1.sub(self.v3), ray.dir] };
        let det_a: Scalar = m.det();
        if det_a.raw == 0 {
            return hit;
        }
        let m: Matrix = Matrix {
            v: [self.v1.sub(self.v2), self.v1.sub(self.v3), self.v1.sub(ray.pos)],
        };
        let t: Scalar = m.det().div(det_a);
        if t.raw <= TMIN_RAW || t.raw >= TMAX_RAW {
            return hit;
        }
        let m: Matrix = Matrix { v: [self.v1.sub(self.v2), self.v1.sub(ray.pos), ray.dir] };
        let c: Scalar = m.det().div(det_a);
        if c.raw < 0 || c.raw > SCALE {
            return hit;
        }
        let m: Matrix = Matrix { v: [self.v1.sub(ray.pos), self.v1.sub(self.v3), ray.dir] };
        let b: Scalar = m.det().div(det_a);
        if b.raw < 0 || b.raw > Scalar::one().sub(c).raw {
            return hit;
        }
        hit.t = t;
        hit.hit = true;
        hit
    }

    fn get_material(&self) -> (m: Material) {
        self.mat
    }

    fn surface_normal(&self, point: Vector, v: Vector) -> (n: Vector) {
        let up: Vector = self.v1.across(&self.v2, &self.v3);
        if v.dot(&up).raw > 0 {
            up
        } else {
            up.neg()
        }
    }

    fn get_extents(&self) -> (b: BoundingBox) {
        self.bounds()
    }
}

} // verus!
