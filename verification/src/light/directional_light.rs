//! Lights that shine along one direction from infinitely far, and do not fade.
use crate::color::Color;
use crate::intersect::{Intersect, Shape};
use crate::light::{mirrored, spec_lambert, spec_phong, spec_toward, toward, Light};
use crate::math::scalar::Scalar;
use crate::math::vector::Vector;
use crate::scene::Material;
use vstd::prelude::*;

verus! {

/// A light that sends `intensity` along `dir`.
#[derive(Clone, Copy, Debug, PartialEq, Eq, Structural)]
pub struct DirectionalLight {
    pub dir: Vector,
    pub intensity: Color,
}

impl DirectionalLight {
    /// The direction to a light that has a direction has length one, within
    /// a few millionths.
    pub proof fn lemma_l_unit(&self, point_hit: Vector)
        requires
            self.dir.is_not_origin(),
        ensures
            self.spec_l(point_hit).is_unit(),
    {
        self.dir.lemma_normalized_unit();
        self.dir.normalized().lemma_neg_unit();
    }
}

impl Light for DirectionalLight {
    /// A directional light has no place: the origin stands in for it, and
    /// nothing may measure a distance to it.
    open spec fn spec_position(&self) -> Vector {
        Vector::new()
    }

    /// Against the light's direction, whatever the point.
    open spec fn spec_l(&self, point_hit: Vector) -> Vector {
        self.dir.normalized().neg()
    }

    open spec fn spec_distance(&self, point_hit: Vector) -> Option<Scalar> {
        None
    }

    /// The material's diffuse colour times the intensity times the cosine term.
    open spec fn spec_diffuse(&self, point_hit: Vector, v: Vector, shape_hit: &Shape) -> Color {
        let n: Vector = shape_hit.spec_normal(point_hit, v);
        let factor: Scalar = spec_lambert(n, self.spec_l(point_hit));
        shape_hit.spec_material().dif.mul_color(self.intensity).mul(factor)
    }

    /// The material's specular colour times the intensity times the
    /// highlight term.
    open spec fn spec_specular(
        &self,
        point_hit: Vector,
        v: Vector,
        shape_hit: &Shape,
        camera_pos: Vector,
    ) -> Color {
        let r: Vector = self.spec_l(point_hit).neg().reflect(
            &shape_hit.spec_normal(point_hit, v),
        ).normalized();
        let mat: Material = shape_hit.spec_material();
        let factor: Scalar = spec_phong(r, spec_toward(point_hit, camera_pos), mat.ns);
        mat.spec.mul_color(self.intensity).mul(factor)
    }

    fn position(&self) -> (p: Vector) {
        Vector::new()
    }

    fn v(&self, point_hit: Vector, camera_pos: Vector) -> (r: Vector) {
        toward(point_hit, camera_pos)
    }

    fn n(&self, point_hit: Vector, v: Vector, shape_hit: &Shape) -> (r: Vector) {
        shape_hit.surface_normal(point_hit, v)
    }

    fn r(&self, point_hit: Vector, v: Vector, shape_hit: &Shape) -> (r: Vector) {
        mirrored(self.l(point_hit), point_hit, v, shape_hit)
    }

    fn l(&self, point_hit: Vector) -> (r: Vector) {
        self.dir.normalized().neg()
    }

    fn distance(&self, point_hit: Vector) -> (d: Option<Scalar>) {
        None
    }

    fn compute_diffuse_component(&self, point_hit: Vector, v: Vector, shape_hit: &Shape) -> (c:
        Color) {
        let n: Vector = self.n(point_hit, v, shape_hit);
        let l: Vector = self.l(point_hit);
        let factor: Scalar = n.dot(&l).max(Scalar::zero());
        shape_hit.get_material().dif.mul_color(self.intensity).mul(factor)
    }

    fn compute_specular_component(
        &self,
        point_hit: Vector,
        v: Vector,
        shape_hit: &Shape,
        camera_pos: Vector,
    ) -> (c: Color) {
        let r: Vector = self.r(point_hit, v, shape_hit);
        let v: Vector = self.v(point_hit, camera_pos);
        let mat: Material = shape_hit.get_material();
        let factor: Scalar = r.dot(&v).max(Scalar::zero()).pow(mat.ns);
        mat.spec.mul_color(self.intensity).mul(factor)
    }
}

} // verus!
