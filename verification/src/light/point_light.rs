//! Lights that shine from a point, and fade with the square of the distance.
use crate::color::Color;
use crate::intersect::{Intersect, Shape};
use crate::light::{mirrored, spec_lambert, spec_phong, spec_toward, toward, Light};
use crate::math::scalar::Scalar;
use crate::math::vector::Vector;
use crate::scene::Material;
use vstd::prelude::*;

verus! {

/// A light at `pos` that sends `intensity` in every direction.
#[derive(Clone, Copy, Debug, PartialEq, Eq, Structural)]
pub struct PointLight {
    pub pos: Vector,
    pub intensity: Color,
}

impl PointLight {
    /// The square of the distance from the light to `point_hit`.
    pub open spec fn falloff(&self, point_hit: Vector) -> Scalar {
        let d: Scalar = self.pos.sub(point_hit).magnitude();
        d.mul(d)
    }
}

impl PointLight {
    /// The direction to the light from every point but the light's own has
    /// length one, within a few millionths.
    pub proof fn lemma_l_unit(&self, point_hit: Vector)
        requires
            self.pos != point_hit,
        ensures
            self.spec_l(point_hit).is_unit(),
    {
        self.pos.lemma_sub_not_origin(point_hit);
        self.pos.sub(point_hit).lemma_normalized_unit();
    }
}

impl Light for PointLight {
    open spec fn spec_position(&self) -> Vector {
        self.pos
    }

    open spec fn spec_l(&self, point_hit: Vector) -> Vector {
        self.pos.sub(point_hit).normalized()
    }

    open spec fn spec_distance(&self, point_hit: Vector) -> Option<Scalar> {
        Some(self.pos.sub(point_hit).magnitude())
    }

    /// The material's diffuse colour times the intensity times the cosine
    /// term, divided by the square of the distance; black at distance zero.
    open spec fn spec_diffuse(&self, point_hit: Vector, v: Vector, shape_hit: &Shape) -> Color {
        let n: Vector = shape_hit.spec_normal(point_hit, v);
        let factor: Scalar = spec_lambert(n, self.spec_l(point_hit)).div(self.falloff(point_hit));
        shape_hit.spec_material().dif.mul_color(self.intensity).mul(factor)
    }

    /// The material's specular colour times the intensity times the
    /// highlight term, divided by the square of the distance; black at
    /// distance zero.
    open spec fn spec_specular(
        &self,
        point_hit: Vector,
        v: Vector,
        shape_hit: &Shape,
        camera_pos: Vector,
    ) -> Color {
        let r: Vector = self.spec_l(point_hit).neg().reflect(
            &shape_hit.spec_normal(point_hit, v),
        ).normalized();
        let mat: Material = shape_hit.spec_material();
        let factor: Scalar = spec_phong(r, spec_toward(point_hit, camera_pos), mat.ns).div(
            self.falloff(point_hit),
        );
        mat.spec.mul_color(self.intensity).mul(factor)
    }

    fn position(&self) -> (p: Vector) {
        self.pos
    }

    fn v(&self, point_hit: Vector, camera_pos: Vector) -> (r: Vector) {
        toward(point_hit, camera_pos)
    }

    fn n(&self, point_hit: Vector, v: Vector, shape_hit: &Shape) -> (r: Vector) {
        shape_hit.surface_normal(point_hit, v)
    }

    fn r(&self, point_hit: Vector, v: Vector, shape_hit: &Shape) -> (r: Vector) {
        mirrored(self.l(point_hit), point_hit, v, shape_hit)
    }

    fn l(&self, point_hit: Vector) -> (r: Vector) {
        self.position().sub(point_hit).normalized()
    }

    fn distance(&self, point_hit: Vector) -> (d: Option<Scalar>) {
        Some(self.position().sub(point_hit).magnitude())
    }

    fn compute_diffuse_component(&self, point_hit: Vector, v: Vector, shape_hit: &Shape) -> (c:
        Color) {
        let n: Vector = self.n(point_hit, v, shape_hit);
        let l: Vector = self.l(point_hit);
        let d: Scalar = self.position().sub(point_hit).magnitude();
        let distance_factor: Scalar = d.mul(d);
        let factor: Scalar = n.dot(&l).max(Scalar::zero()).div(distance_factor);
        shape_hit.get_material().dif.mul_color(self.intensity).mul(factor)
    }

    fn compute_specular_component(
        &self,
        point_hit: Vector,
        v: Vector,
        shape_hit: &Shape,
        camera_pos: Vector,
    ) -> (c: Color) {
        let r: Vector = self.r(point_hit, v, shape_hit);
        let v: Vector = self.v(point_hit, camera_pos);
        let mat: Material = shape_hit.get_material();
        let d: Scalar = self.position().sub(point_hit).magnitude();
        let distance_factor: Scalar = d.mul(d);
        let factor: Scalar = r.dot(&v).max(Scalar::zero()).pow(mat.ns).div(
            distance_factor,
        );
        mat.spec.mul_color(self.intensity).mul(factor)
    }
}

} // verus!
