//! Spheres.
use crate::bvh::BoundingBox;
use crate::intersect::{spec_nearer, Hit, Intersect};
use crate::math::ray::{in_range, tmax, Ray, TMAX_RAW, TMIN_RAW};
use crate::math::scalar::{
    lemma_product_bound, lemma_quotient_rounding, quotient, Scalar, SCALE,
};
use crate::math::vector::{size, Vector};
use crate::scene::Material;
use vstd::prelude::*;

verus! {

/// What is left of the quadratic `a t^2 + 2 b t + c` at a parameter `t`, all
/// in raw units: zero at a root.
pub open spec fn residual(a: int, b: int, c: int, t: int) -> int {
    a * (t * t) + 2 * (b * t) * SCALE + c * (SCALE * SCALE)
}

/// The algebra of a rounded root, on whole numbers. With the squares `bb`
/// and `ac` within `s` of `b b / s` and `a c / s`, a root `w` of their
/// difference times `s`, rounded down, and `t` within `a` of
/// `(-b + w) s / a` or of `(-b - w) s / a`, the quadratic at `t`, times
/// `a`, is within the bound stated.
proof fn lemma_root_algebra(
    s: int,
    a: int,
    b: int,
    c: int,
    bb: int,
    ac: int,
    w: int,
    t: int,
    m: int,
)
    requires
        s > 0,
        a > 0,
        size(bb * s - b * b) <= s,
        size(ac * s - a * c) <= s,
        0 <= w,
        w * w <= (bb - ac) * s < (w + 1) * (w + 1),
        m == -b + w || m == -b - w,
        size(t * a - m * s) <= a,
    ensures
        a * size(a * (t * t) + 2 * (b * t) * s + c * (s * s)) <= 2 * (s * s * s) + 2 * w * (s * s)
            + 2 * w * s * a + a * a,
{
    let e: int = t * a - m * s;
    let eb: int = bb * s - b * b;
    let ec: int = ac * s - a * c;
    let e3: int = (bb - ac) * s - w * w;
    let left: int = a * (t * t) + 2 * (b * t) * s + c * (s * s);
    let g: int = t * a + b * s;
    let ta: int = t * a;
    let bs: int = b * s;
    assert(g * g == ta * ta + 2 * (ta * bs) + bs * bs) by (nonlinear_arith)
        requires
            g == ta + bs,
    ;
    assert(ta * ta == a * (a * (t * t))) by (nonlinear_arith)
        requires
            ta == t * a,
    ;
    assert(ta * bs == a * ((b * t) * s)) by (nonlinear_arith)
        requires
            ta == t * a,
            bs == b * s,
    ;
    assert(bs * bs == (s * s) * (b * b)) by (nonlinear_arith)
        requires
            bs == b * s,
    ;
    assert(a * (c * (s * s)) == (s * s) * (a * c)) by (nonlinear_arith);
    assert(a * left == a * (a * (t * t)) + 2 * (a * ((b * t) * s)) + a * (c * (s * s)))
        by (nonlinear_arith)
        requires
            left == a * (t * t) + 2 * (b * t) * s + c * (s * s),
    ;
    assert((s * s) * (b * b - a * c) == (s * s) * (b * b) - (s * s) * (a * c))
        by (nonlinear_arith);
    assert(a * left == g * g - (s * s) * (b * b - a * c));
    let k: int = m + b;
    assert(k * s == m * s + b * s) by (nonlinear_arith)
        requires
            k == m + b,
    ;
    assert(g == k * s + e);
    assert(k == w || k == -w);
    assert(g * g == (w * w) * (s * s) + 2 * (k * s) * e + e * e) by (nonlinear_arith)
        requires
            g == k * s + e,
            k == w || k == -w,
    ;
    assert(b * b - a * c == w * w + e3 - eb + ec) by (nonlinear_arith)
        requires
            eb == bb * s - b * b,
            ec == ac * s - a * c,
            e3 == (bb - ac) * s - w * w,
    ;
    let ss: int = s * s;
    let ww: int = w * w;
    let rest: int = e3 - eb + ec;
    assert(ss * (ww + rest) == ww * ss + ss * rest) by (nonlinear_arith);
    assert(a * left == 2 * (k * s) * e + e * e - ss * rest);
    // sizes
    assert(0 <= e3 <= 2 * w) by (nonlinear_arith)
        requires
            e3 == (bb - ac) * s - w * w,
            w * w <= (bb - ac) * s < (w + 1) * (w + 1),
    ;
    assert(size(rest) <= 2 * s + 2 * w);
    lemma_product_bound(ss, rest, ss, 2 * s + 2 * w);
    assert(ss >= 0) by (nonlinear_arith)
        requires
            ss == s * s,
    ;
    lemma_product_bound(k, s, w, s);
    lemma_product_bound(k * s, e, w * s, a);
    lemma_product_bound(e, e, a, a);
    assert(w * s >= 0) by (nonlinear_arith)
        requires
            w >= 0,
            s > 0,
    ;
    let t1: int = (k * s) * e;
    let t2: int = e * e;
    let t3: int = ss * rest;
    assert(2 * (k * s) * e == 2 * t1) by (nonlinear_arith)
        requires
            t1 == (k * s) * e,
    ;
    assert(a * left == 2 * t1 + t2 - t3);
    assert(size(t1) <= (w * s) * a && size(t2) <= a * a && size(t3) <= ss * (2 * s + 2 * w));
    assert(size(a * left) <= 2 * ((w * s) * a) + a * a + ss * (2 * s + 2 * w));
    assert(a * size(left) == size(a * left)) by (nonlinear_arith)
        requires
            a > 0,
            size(left) == if left < 0 {
                -left
            } else {
                left
            },
            size(a * left) == if a * left < 0 {
                -(a * left)
            } else {
                a * left
            },
    ;
    assert(2 * (s * s * s) + 2 * w * (s * s) + 2 * w * s * a + a * a == 2 * ((w * s) * a) + a * a
        + ss * (2 * s + 2 * w)) by (nonlinear_arith)
        requires
            ss == s * s,
    ;
}

/// The sphere of radius `r` about `pos`.
#[derive(Clone, Copy, Debug, PartialEq, Eq, Structural)]
pub struct Sphere {
    pub pos: Vector,
    pub r: Scalar,
    pub mat: Material,
}

impl Sphere {
    /// The coefficients of the quadratic `a t^2 + 2 b t + c = 0` whose roots
    /// are the parameters at which `ray` is on the sphere.
    pub open spec fn quadratic(&self, ray: Ray) -> (Scalar, Scalar, Scalar) {
        let c_to_p: Vector = ray.pos.sub(self.pos);
        (
            ray.dir.dot(&ray.dir),
            ray.dir.dot(&c_to_p),
            c_to_p.dot(&c_to_p).sub(self.r.mul(self.r)),
        )
    }

    pub open spec fn spec_bounds(&self) -> BoundingBox {
        BoundingBox {
            x_min: self.pos.x.sub(self.r),
            x_max: self.pos.x.add(self.r),
            y_min: self.pos.y.sub(self.r),
            y_max: self.pos.y.add(self.r),
            z_min: self.pos.z.sub(self.r),
            z_max: self.pos.z.add(self.r),
        }
    }

    /// The box around the sphere: the centre, less and more the radius. A
    /// sphere with a negative radius has a box without points, and is never
    /// met.
    #[verifier::when_used_as_spec(spec_bounds)]
    pub fn bounds(&self) -> (b: BoundingBox)
        ensures
            b == self.spec_bounds(),
    {
        BoundingBox {
            x_min: self.pos.x.sub(self.r),
            x_max: self.pos.x.add(self.r),
            y_min: self.pos.y.sub(self.r),
            y_max: self.pos.y.add(self.r),
            z_min: self.pos.z.sub(self.r),
            z_max: self.pos.z.add(self.r),
        }
    }

    /// A sphere without radius, a ray without direction and a quadratic
    /// without real roots meet nowhere, and neither do a sphere and a ray
    /// that fails the slab test of the sphere's extents: no point of the
    /// sphere is outside them, so that only a root that rounding made up is
    /// refused. Otherwise the roots are `(-b + s) / a` and `(-b - s) / a`,
    /// with `s` the root of the discriminant `b^2 - a c`, and the nearer
    /// admissible one is the answer.
    #[verifier::opaque]
    pub open spec fn meets(&self, ray: Ray) -> Option<Scalar> {
        let (a, b, c) = self.quadratic(ray);
        let disc: Scalar = b.mul(b).sub(a.mul(c));
        if !self.bounds().admits(ray) || self.r@ == 0 || a@ == 0 || disc@ < 0 {
            None
        } else {
            let s: Scalar = disc.sqrt();
            spec_nearer(b.neg().add(s).div(a), b.neg().sub(s).div(a))
        }
    }

    /// An accepted intersection lies strictly between the two bounds, and a
    /// sphere without radius is never met.
    pub proof fn lemma_meets_in_range(&self, ray: Ray)
        ensures
            self.meets(ray) matches Some(t) ==> in_range(t),
            self.r@ == 0 ==> self.meets(ray) is None,
    {
        reveal(Sphere::meets);
    }

    /// The normal at every point but the centre has length one, within a few
    /// millionths.
    pub proof fn lemma_normal_unit(&self, point: Vector, v: Vector)
        requires
            point != self.pos,
        ensures
            self.spec_normal(point, v).is_unit(),
    {
        point.lemma_sub_not_origin(self.pos);
        point.sub(self.pos).lemma_normalized_unit();
    }

    /// The two roots of the quadratic, as they are rounded: `(-b + w) / a`
    /// and `(-b - w) / a`, with `w` the root of the discriminant.
    pub open spec fn roots(&self, ray: Ray) -> (Scalar, Scalar) {
        let (a, b, c) = self.quadratic(ray);
        let w: Scalar = b.mul(b).sub(a.mul(c)).sqrt();
        (b.neg().add(w).div(a), b.neg().sub(w).div(a))
    }

    /// The parameter that is reported is one of the two roots, and no root
    /// that lies strictly between the two bounds is nearer; where neither
    /// root lies there, or the discriminant is negative, nothing is met.
    pub proof fn lemma_nearest_root(&self, ray: Ray)
        ensures
            self.meets(ray) matches Some(t) ==> {
                &&& t == self.roots(ray).0 || t == self.roots(ray).1
                &&& in_range(self.roots(ray).0) ==> t@ <= self.roots(ray).0@
                &&& in_range(self.roots(ray).1) ==> t@ <= self.roots(ray).1@
            },
            !in_range(self.roots(ray).0) && !in_range(self.roots(ray).1) ==> self.meets(ray) is None,
            self.quadratic(ray).1.mul(self.quadratic(ray).1).sub(
                self.quadratic(ray).0.mul(self.quadratic(ray).2),
            )@ < 0 ==> self.meets(ray) is None,
    {
        reveal(Sphere::meets);
    }

    /// Whether the three coefficients of the quadratic are at most two to the
    /// fortieth in size, about a million, so that no step of the solution
    /// saturates.
    pub open spec fn is_tame(&self, ray: Ray) -> bool {
        let (a, b, c) = self.quadratic(ray);
        size(a@) <= 0x100_0000_0000 && size(b@) <= 0x100_0000_0000 && size(c@) <= 0x100_0000_0000
    }

    /// The parameter that is reported is a root of the quadratic as nearly
    /// as millionths allow. With `a`, `b`, `c` the coefficients, `w` the root
    /// of the discriminant and `t` the parameter, all in raw units, `a` is
    /// positive and the quadratic at `t`, times `a`, is at most
    /// `2 s^3 + 2 w s^2 + 2 w s a + a^2` in size, where `s` is the scale: for
    /// a direction of length one, a few millionths of `1 + w`.
    pub proof fn lemma_root(&self, ray: Ray)
        requires
            self.meets(ray) is Some,
            self.is_tame(ray),
        ensures
            ({
                let (a, b, c) = self.quadratic(ray);
                let w: int = b.mul(b).sub(a.mul(c)).sqrt()@;
                let t: int = self.meets(ray).unwrap()@;
                &&& a@ > 0
                &&& w >= 0
                &&& a@ * size(residual(a@, b@, c@, t)) <= 2 * (SCALE * SCALE * SCALE) + 2 * w * (
                SCALE * SCALE) + 2 * w * SCALE * a@ + a@ * a@
            }),
    {
        reveal(Sphere::meets);
        let s: int = SCALE as int;
        let lim: int = 0x100_0000_0000;
        let (a, b, c) = self.quadratic(ray);
        let d: Vector = ray.dir;
        // the first coefficient is a sum of squares
        assert(d.x@ * d.x@ >= 0 && d.y@ * d.y@ >= 0 && d.z@ * d.z@ >= 0) by (nonlinear_arith);
        d.x.lemma_mul_sign(d.x);
        d.y.lemma_mul_sign(d.y);
        d.z.lemma_mul_sign(d.z);
        assert(a@ >= 0);
        assert(a@ > 0);
        let bb: Scalar = b.mul(b);
        let ac: Scalar = a.mul(c);
        b.lemma_mul_near(b, lim, lim);
        a.lemma_mul_near(c, lim, lim);
        let disc: Scalar = bb.sub(ac);
        assert(lim * lim == 0x1_0000_0000_0000_0000_0000) by (nonlinear_arith)
            requires
                lim == 0x100_0000_0000,
        ;
        assert(size(bb@) <= 0x2000_0000_0000_0000 && size(ac@) <= 0x2000_0000_0000_0000)
            by (nonlinear_arith)
            requires
                -0x1_0000_0000_0000_0000_0000 <= bb@ * s <= 0x1_0000_0000_0000_0000_0000,
                -0x1_0000_0000_0000_0000_0000 <= ac@ * s <= 0x1_0000_0000_0000_0000_0000,
                s == 1_000_000,
                size(bb@) == if bb@ < 0 {
                    -bb@
                } else {
                    bb@
                },
                size(ac@) == if ac@ < 0 {
                    -ac@
                } else {
                    ac@
                },
        ;
        assert(disc@ == bb@ - ac@);
        assert(disc@ >= 0);
        disc.lemma_sqrt_rounding();
        let w: int = disc.sqrt()@;
        assert(w <= 0x800_0000_0000) by (nonlinear_arith)
            requires
                0 <= w,
                w * w <= disc@ * s,
                disc@ <= 0x4000_0000_0000_0000,
                s == 1_000_000,
        ;
        let plus: Scalar = b.neg().add(disc.sqrt());
        let minus: Scalar = b.neg().sub(disc.sqrt());
        assert(plus@ == -b@ + w && minus@ == -b@ - w);
        let t: Scalar = self.meets(ray).unwrap();
        let tp: Scalar = plus.div(a);
        let tm: Scalar = minus.div(a);
        assert(t == tp || t == tm);
        assert(crate::math::ray::in_range(t));
        let m: int = if t == tp {
            plus@
        } else {
            minus@
        };
        reveal(Scalar::spec_div);
        lemma_quotient_rounding(m * s, a@);
        let q: int = quotient(m * s, a@);
        assert(t@ == q);
        assert(q * a@ == t@ * a@);
        assert(size(t@ * a@ - m * s) <= a@);
        assert(size(bb@ * s - b@ * b@) <= s && size(ac@ * s - a@ * c@) <= s);
        lemma_root_algebra(s, a@, b@, c@, bb@, ac@, w, t@, m);
    }

    /// A ray that meets the sphere passes the slab test of its extents.
    pub proof fn lemma_meets_admitted(&self, ray: Ray)
        ensures
            self.meets(ray) is Some ==> self.spec_extents().admits(ray),
    {
        reveal(Sphere::meets);
    }
}

impl Intersect for Sphere {
    open spec fn spec_center(&self) -> Vector {
        self.pos
    }

    open spec fn spec_intersection(&self, ray: Ray) -> Hit {
        Hit::of(self.meets(ray), ray)
    }

    open spec fn spec_material(&self) -> Material {
        self.mat
    }

    open spec fn spec_normal(&self, point: Vector, v: Vector) -> Vector {
        point.sub(self.pos).normalized()
    }

    open spec fn spec_extents(&self) -> BoundingBox {
        self.bounds()
    }

    fn center(&self) -> (r: Vector) {
        self.pos
    }

    fn get_ray_intersection(&self, ray: Ray) -> (h: Hit) {
        reveal(Sphere::meets);
        let mut hit: Hit = Hit { t: tmax(), shape: None, hit: false, ray };
        if !self.bounds().passes(ray) {
            return hit;
        }
        if self.r.raw == 0 {
            return hit;
        }
        let c_to_p: Vector = ray.pos.sub(self.pos);
        let a: Scalar = ray.dir.dot(&ray.dir);
        if a.raw == 0 {
            return hit;
        }
        let b: Scalar = ray.dir.dot(&c_to_p);
        let c: Scalar = c_to_p.dot(&c_to_p).sub(self.r.mul(self.r));
        let disc: Scalar = b.mul(b).sub(a.mul(c));
        if disc.raw < 0 {
            return hit;
        }
        let s: Scalar = disc.sqrt();
        let t_plus: Scalar = b.neg().add(s).div(a);
        let t_minus: Scalar = b.neg().sub(s).div(a);
        let plus_ok: bool = TMIN_RAW < t_plus.raw && t_plus.raw < TMAX_RAW;
        let minus_ok: bool = TMIN_RAW < t_minus.raw && t_minus.raw < TMAX_RAW;
        if plus_ok && minus_ok {
            hit.t = t_plus.min(t_minus);
        } else if plus_ok {
            hit.t = t_plus;
        } else if minus_ok {
            hit.t = t_minus;
        }
        if plus_ok || minus_ok {
            hit.hit = true;
        }
        hit
    }

    fn get_material(&self) -> (m: Material) {
        self.mat
    }

    fn surface_normal(&self, point: Vector, v: Vector) -> (n: Vector) {
        point.sub(self.pos).normalized()
    }

    fn get_extents(&self) -> (b: BoundingBox) {
        self.bounds()
    }
}

} // verus!
