//! Lights: where they stand and what they add to a surface.
pub mod directional_light;
pub mod point_light;

use crate::color::Color;
use crate::intersect::{Intersect, Shape};
use crate::math::scalar::Scalar;
use crate::math::vector::Vector;
use vstd::prelude::*;

pub use self::directional_light::DirectionalLight;
pub use self::point_light::PointLight;

verus! {

/// The unit direction from `point_hit` to the eye at `camera_pos`.
pub open spec fn spec_toward(point_hit: Vector, camera_pos: Vector) -> Vector {
    camera_pos.sub(point_hit).normalized()
}

/// The share of a light that a surface scatters: the cosine of the angle
/// between the normal `n` and the direction `l` to the light, and nothing
/// where the light is behind the surface.
pub open spec fn spec_lambert(n: Vector, l: Vector) -> Scalar {
    n.dot(&l).max(Scalar::zero())
}

/// The strength of a highlight: the cosine of the angle between the mirrored
/// light direction `r` and the direction `v` to the eye, not below zero, to
/// the power of `ns`.
pub open spec fn spec_phong(r: Vector, v: Vector, ns: Scalar) -> Scalar {
    r.dot(&v).max(Scalar::zero()).pow(ns)
}

/// The unit direction from the surface to the eye.
pub fn toward(point_hit: Vector, camera_pos: Vector) -> (r: Vector)
    ensures
        r == spec_toward(point_hit, camera_pos),
{
    camera_pos.sub(point_hit).normalized()
}

/// The direction `l` mirrored about the surface normal, at unit length.
pub fn mirrored(l: Vector, point_hit: Vector, v: Vector, shape_hit: &Shape) -> (r: Vector)
    ensures
        r == l.neg().reflect(&shape_hit.spec_normal(point_hit, v)).normalized(),
{
    let n: Vector = shape_hit.surface_normal(point_hit, v);
    l.neg().reflect(&n).normalized()
}

/// What a light answers.
pub trait Light {
    /// Where the light stands; the origin for a light without a place.
    spec fn spec_position(&self) -> Vector;

    /// The unit direction from `point_hit` to the light.
    spec fn spec_l(&self, point_hit: Vector) -> Vector;

    /// How far the light is from `point_hit`; `None` for a light without a
    /// place, which is farther than anything.
    spec fn spec_distance(&self, point_hit: Vector) -> Option<Scalar>;

    /// What the light adds to the scattered colour at `point_hit`.
    spec fn spec_diffuse(&self, point_hit: Vector, v: Vector, shape_hit: &Shape) -> Color;

    /// What the light adds to the highlight at `point_hit`.
    spec fn spec_specular(
        &self,
        point_hit: Vector,
        v: Vector,
        shape_hit: &Shape,
        camera_pos: Vector,
    ) -> Color;

    fn position(&self) -> (p: Vector)
        ensures
            p == self.spec_position(),
    ;

    /// The unit direction from the surface to the eye.
    fn v(&self, point_hit: Vector, camera_pos: Vector) -> (r: Vector)
        ensures
            r == spec_toward(point_hit, camera_pos),
    ;

    fn l(&self, point_hit: Vector) -> (r: Vector)
        ensures
            r == self.spec_l(point_hit),
    ;

    fn distance(&self, point_hit: Vector) -> (d: Option<Scalar>)
        ensures
            d == self.spec_distance(point_hit),
    ;

    /// The surface normal at `point_hit`, on the side of `v`.
    fn n(&self, point_hit: Vector, v: Vector, shape_hit: &Shape) -> (r: Vector)
        ensures
            r == shape_hit.spec_normal(point_hit, v),
    ;

    /// The direction to the light mirrored about the normal, at unit length.
    fn r(&self, point_hit: Vector, v: Vector, shape_hit: &Shape) -> (r: Vector)
        ensures
            r == self.spec_l(point_hit).neg().reflect(
                &shape_hit.spec_normal(point_hit, v),
            ).normalized(),
    ;

    fn compute_diffuse_component(&self, point_hit: Vector, v: Vector, shape_hit: &Shape) -> (c:
        Color)
        ensures
            c == self.spec_diffuse(point_hit, v, shape_hit),
    ;

    fn compute_specular_component(
        &self,
        point_hit: Vector,
        v: Vector,
        shape_hit: &Shape,
        camera_pos: Vector,
    ) -> (c: Color)
        ensures
            c == self.spec_specular(point_hit, v, shape_hit, camera_pos),
    ;
}

/// A light of the scene.
#[derive(Clone, Copy, Debug, PartialEq, Eq, Structural)]
pub enum LightSource {
    Point(PointLight),
    Directional(DirectionalLight),
}

impl Light for LightSource {
    open spec fn spec_position(&self) -> Vector {
        match self {
            LightSource::Point(p) => p.spec_position(),
            LightSource::Directional(d) => d.spec_position(),
        }
    }

    open spec fn spec_l(&self, point_hit: Vector) -> Vector {
        match self {
            LightSource::Point(p) => p.spec_l(point_hit),
            LightSource::Directional(d) => d.spec_l(point_hit),
        }
    }

    open spec fn spec_distance(&self, point_hit: Vector) -> Option<Scalar> {
        match self {
            LightSource::Point(p) => p.spec_distance(point_hit),
            LightSource::Directional(d) => d.spec_distance(point_hit),
        }
    }

    open spec fn spec_diffuse(&self, point_hit: Vector, v: Vector, shape_hit: &Shape) -> Color {
        match self {
            LightSource::Point(p) => p.spec_diffuse(point_hit, v, shape_hit),
            LightSource::Directional(d) => d.spec_diffuse(point_hit, v, shape_hit),
        }
    }

    open spec fn spec_specular(
        &self,
        point_hit: Vector,
        v: Vector,
        shape_hit: &Shape,
        camera_pos: Vector,
    ) -> Color {
        match self {
            LightSource::Point(p) => p.spec_specular(point_hit, v, shape_hit, camera_pos),
            LightSource::Directional(d) => d.spec_specular(point_hit, v, shape_hit, camera_pos),
        }
    }

    fn position(&self) -> (p: Vector) {
        match self {
            LightSource::Point(p) => p.position(),
            LightSource::Directional(d) => d.position(),
        }
    }

    fn v(&self, point_hit: Vector, camera_pos: Vector) -> (r: Vector) {
        toward(point_hit, camera_pos)
    }

    fn l(&self, point_hit: Vector) -> (r: Vector) {
        match self {
            LightSource::Point(p) => p.l(point_hit),
            LightSource::Directional(d) => d.l(point_hit),
        }
    }

    fn n(&self, point_hit: Vector, v: Vector, shape_hit: &Shape) -> (r: Vector) {
        shape_hit.surface_normal(point_hit, v)
    }

    fn r(&self, point_hit: Vector, v: Vector, shape_hit: &Shape) -> (r: Vector) {
        mirrored(self.l(point_hit), point_hit, v, shape_hit)
    }

    fn distance(&self, point_hit: Vector) -> (d: Option<Scalar>) {
        match self {
            LightSource::Point(p) => p.distance(point_hit),
            LightSource::Directional(d) => d.distance(point_hit),
        }
    }

    fn compute_diffuse_component(&self, point_hit: Vector, v: Vector, shape_hit: &Shape) -> (c:
        Color) {
        match self {
            LightSource::Point(p) => p.compute_diffuse_component(point_hit, v, shape_hit),
            LightSource::Directional(d) => d.compute_diffuse_component(point_hit, v, shape_hit),
        }
    }

    fn compute_specular_component(
        &self,
        point_hit: Vector,
        v: Vector,
        shape_hit: &Shape,
        camera_pos: Vector,
    ) -> (c: Color) {
        match self {
            LightSource::Point(p) => p.compute_specular_component(
                point_hit,
                v,
                shape_hit,
                camera_pos,
            ),
            LightSource::Directional(d) => d.compute_specular_component(
                point_hit,
                v,
                shape_hit,
                camera_pos,
            ),
        }
    }
}

} // verus!
