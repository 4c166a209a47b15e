//! What a ray can be tested against, and what such a test returns.
pub mod sphere;
pub mod triangle;

use crate::bvh::BoundingBox;
use crate::math::ray::{in_range, tmax, Ray};
use crate::math::scalar::Scalar;
use crate::math::vector::Vector;
use crate::scene::Material;
use vstd::prelude::*;

pub use self::sphere::Sphere;
pub use self::triangle::Triangle;

verus! {

/// The result of testing a ray against a shape or against the hierarchy.
#[derive(Clone, Copy, Debug, PartialEq, Eq, Structural)]
pub struct Hit {
    /// Whether the ray meets anything.
    pub hit: bool,
    /// Where the shape that it meets stands in the scene's list of shapes;
    /// `None` for a test against a single shape or a box.
    pub shape: Option<usize>,
    /// The ray that was tested.
    pub ray: Ray,
    /// The parameter of the intersection; the upper bound where there is none.
    pub t: Scalar,
}

impl Hit {
    pub open spec fn spec_new() -> Hit {
        Hit::miss(Ray::new())
    }

    /// The result that reports no intersection of the empty ray.
    #[verifier::when_used_as_spec(spec_new)]
    pub fn new() -> (h: Hit)
        ensures
            h == Hit::spec_new(),
    {
        Hit { t: tmax(), shape: None, hit: false, ray: Ray::new() }
    }

    /// The result that reports no intersection of `ray`.
    pub open spec fn miss(ray: Ray) -> Hit {
        Hit { t: tmax(), shape: None, hit: false, ray }
    }

    /// The result of a test that found the parameter `t`, or none.
    pub open spec fn of(t: Option<Scalar>, ray: Ray) -> Hit {
        match t {
            Some(t) => Hit { t, shape: None, hit: true, ray },
            None => Hit::miss(ray),
        }
    }

    /// The same result, with the place of the shape filled in where there is
    /// an intersection.
    pub open spec fn spec_at(self, index: usize) -> Hit {
        if self.hit {
            Hit { shape: Some(index), ..self }
        } else {
            self
        }
    }

    /// Names the shape that a successful single-shape test was made against.
    #[verifier::when_used_as_spec(spec_at)]
    pub fn at(self, index: usize) -> (h: Hit)
        ensures
            h == self.spec_at(index),
    {
        if self.hit {
            Hit { shape: Some(index), hit: self.hit, ray: self.ray, t: self.t }
        } else {
            self
        }
    }

    /// An accepted intersection lies strictly between the two bounds.
    pub open spec fn wf(&self) -> bool {
        self.hit ==> in_range(self.t)
    }
}

/// The two roots of a quadratic reduced to the nearest admissible one: the
/// smaller where both lie strictly between the bounds, else the one that does.
pub open spec fn spec_nearer(t1: Scalar, t2: Scalar) -> Option<Scalar> {
    if in_range(t1) && in_range(t2) {
        Some(t1.min(t2))
    } else if in_range(t1) {
        Some(t1)
    } else if in_range(t2) {
        Some(t2)
    } else {
        None
    }
}

/// A renderable primitive.
#[derive(Clone, Copy, Debug, PartialEq, Eq, Structural)]
pub enum Shape {
    Sphere(Sphere),
    Triangle(Triangle),
}

impl Shape {
    /// The parameter at which `ray` meets the shape, if it does.
    pub open spec fn meets(&self, ray: Ray) -> Option<Scalar> {
        match self {
            Shape::Sphere(s) => s.meets(ray),
            Shape::Triangle(t) => t.meets(ray),
        }
    }

    /// A ray that meets the shape passes the slab test of its extents, so
    /// that no box around the shape turns the ray away.
    pub proof fn lemma_meets_admitted(&self, ray: Ray)
        ensures
            self.meets(ray) is Some ==> self.spec_extents().admits(ray),
    {
        match self {
            Shape::Sphere(s) => s.lemma_meets_admitted(ray),
            Shape::Triangle(t) => t.lemma_meets_admitted(ray),
        }
    }

    /// Every accepted intersection lies strictly between the two bounds.
    pub proof fn lemma_meets_in_range(&self, ray: Ray)
        ensures
            self.meets(ray) matches Some(t) ==> in_range(t),
            self.spec_intersection(ray).wf(),
    {
        match self {
            Shape::Sphere(s) => s.lemma_meets_in_range(ray),
            Shape::Triangle(t) => t.lemma_meets_in_range(ray),
        }
    }
}

impl Intersect for Shape {
    open spec fn spec_center(&self) -> Vector {
        match self {
            Shape::Sphere(s) => s.spec_center(),
            Shape::Triangle(t) => t.spec_center(),
        }
    }

    open spec fn spec_intersection(&self, ray: Ray) -> Hit {
        Hit::of(self.meets(ray), ray)
    }

    open spec fn spec_material(&self) -> Material {
        match self {
            Shape::Sphere(s) => s.spec_material(),
            Shape::Triangle(t) => t.spec_material(),
        }
    }

    open spec fn spec_normal(&self, point: Vector, v: Vector) -> Vector {
        match self {
            Shape::Sphere(s) => s.spec_normal(point, v),
            Shape::Triangle(t) => t.spec_normal(point, v),
        }
    }

    open spec fn spec_extents(&self) -> BoundingBox {
        match self {
            Shape::Sphere(s) => s.spec_extents(),
            Shape::Triangle(t) => t.spec_extents(),
        }
    }

    fn center(&self) -> (r: Vector) {
        match self {
            Shape::Sphere(s) => s.center(),
            Shape::Triangle(t) => t.center(),
        }
    }

    fn get_ray_intersection(&self, ray: Ray) -> (h: Hit) {
        match self {
            Shape::Sphere(s) => s.get_ray_intersection(ray),
            Shape::Triangle(t) => t.get_ray_intersection(ray),
        }
    }

    fn get_material(&self) -> (m: Material) {
        match self {
            Shape::Sphere(s) => s.get_material(),
            Shape::Triangle(t) => t.get_material(),
        }
    }

    fn surface_normal(&self, point: Vector, v: Vector) -> (n: Vector) {
        match self {
            Shape::Sphere(s) => s.surface_normal(point, v),
            Shape::Triangle(t) => t.surface_normal(point, v),
        }
    }

    fn get_extents(&self) -> (b: BoundingBox) {
        match self {
            Shape::Sphere(s) => s.get_extents(),
            Shape::Triangle(t) => t.get_extents(),
        }
    }
}

/// What a shape, and a box used as a probe, answers.
pub trait Intersect {
    /// The point by which the hierarchy sorts the shape.
    spec fn spec_center(&self) -> Vector;

    /// What a test of `ray` against this reports.
    spec fn spec_intersection(&self, ray: Ray) -> Hit;

    /// The surface's material.
    spec fn spec_material(&self) -> Material;

    /// The unit normal at `point`, as seen from the direction `v`.
    spec fn spec_normal(&self, point: Vector, v: Vector) -> Vector;

    /// The axis-aligned box around the shape.
    spec fn spec_extents(&self) -> BoundingBox;

    fn center(&self) -> (r: Vector)
        ensures
            r == self.spec_center(),
    ;

    fn get_ray_intersection(&self, ray: Ray) -> (h: Hit)
        ensures
            h == self.spec_intersection(ray),
    ;

    fn get_material(&self) -> (m: Material)
        ensures
            m == self.spec_material(),
    ;

    fn surface_normal(&self, point: Vector, v: Vector) -> (n: Vector)
        ensures
            n == self.spec_normal(point, v),
    ;

    fn get_extents(&self) -> (b: BoundingBox)
        ensures
            b == self.spec_extents(),
    ;
}

} // verus!
