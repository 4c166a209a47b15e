//! The bounding-volume hierarchy: axis-aligned boxes in a binary tree.
use crate::intersect::{Hit, Intersect, Shape};
use crate::math::ray::{tmax, Ray, TMAX_RAW, TMIN_RAW};
use crate::math::scalar::{lemma_product_bound, narrow, scalar_of, Scalar, SCALE};
use crate::math::vector::Vector;
use crate::scene::Material;
use vstd::arithmetic::div_mod::{
    lemma_div_is_ordered, lemma_div_nonincreasing, lemma_div_pos_is_pos,
    lemma_fundamental_div_mod, lemma_fundamental_div_mod_converse, lemma_mod_bound,
};
use vstd::prelude::*;

verus! {

/// An axis-aligned box: the least and the greatest coordinate on each axis.
#[derive(Clone, Copy, Debug, PartialEq, Eq, Structural)]
pub struct BoundingBox {
    pub x_min: Scalar,
    pub x_max: Scalar,
    pub y_min: Scalar,
    pub y_max: Scalar,
    pub z_min: Scalar,
    pub z_max: Scalar,
}

/// The quotient of `n` by a divisor `d` that is not zero, rounded down.
pub open spec fn floor_quotient(n: int, d: int) -> int {
    if d > 0 {
        n / d
    } else {
        (-n) / (-d)
    }
}

/// The quotient of `n` by a divisor `d` that is not zero, rounded up.
pub open spec fn ceil_quotient(n: int, d: int) -> int {
    -floor_quotient(-n, d)
}

/// The parameters between which a ray is inside one slab, from `lo` to `hi`
/// on one axis, when it starts at `origin` and moves by `dir` on that axis.
/// The differences are taken without rounding; the parameter at which the
/// ray enters is rounded down and the one at which it leaves is rounded up,
/// so that no parameter at which the ray is inside is left out. A ray that
/// does not move on the axis is inside for every parameter or for none.
pub open spec fn spec_slab(lo: Scalar, hi: Scalar, origin: Scalar, dir: Scalar) -> Option<
    (Scalar, Scalar),
> {
    let near: int = (lo@ - origin@) * SCALE;
    let far: int = (hi@ - origin@) * SCALE;
    if dir@ == 0 {
        if lo@ <= origin@ <= hi@ {
            Some((Scalar { raw: i64::MIN }, Scalar { raw: i64::MAX }))
        } else {
            None
        }
    } else if dir@ > 0 {
        Some((scalar_of(floor_quotient(near, dir@)), scalar_of(ceil_quotient(far, dir@))))
    } else {
        Some((scalar_of(floor_quotient(far, dir@)), scalar_of(ceil_quotient(near, dir@))))
    }
}

fn floor_div(n: i128, d: i128) -> (q: i128)
    requires
        d != 0,
        -0x1_0000_0000_0000_0000_0000_0000 <= n <= 0x1_0000_0000_0000_0000_0000_0000,
        -0x1_0000_0000_0000_0000 <= d <= 0x1_0000_0000_0000_0000,
    ensures
        q == floor_quotient(n as int, d as int),
        -0x2_0000_0000_0000_0000_0000_0000 <= q <= 0x2_0000_0000_0000_0000_0000_0000,
{
    let top: i128 = if d > 0 {
        n
    } else {
        -n
    };
    let by: i128 = if d > 0 {
        d
    } else {
        -d
    };
    if top >= 0 {
        proof {
            lemma_div_pos_is_pos(top as int, by as int);
            lemma_div_nonincreasing(top as int, by as int);
        }
        top / by
    } else {
        proof {
            lemma_div_pos_is_pos(-top + by - 1, by as int);
            lemma_div_nonincreasing(-top + by - 1, by as int);
            let q: int = (top as int) / (by as int);
            let r: int = (top as int) % (by as int);
            lemma_fundamental_div_mod(top as int, by as int);
            lemma_mod_bound(top as int, by as int);
            assert(-top + by - 1 == (-q) * by + (by - 1 - r)) by (nonlinear_arith)
                requires
                    top == by * q + r,
            ;
            lemma_fundamental_div_mod_converse(-top + by - 1, by as int, -q, by - 1 - r);
        }
        -((-top + by - 1) / by)
    }
}

fn slab(lo: Scalar, hi: Scalar, origin: Scalar, dir: Scalar) -> (r: Option<(Scalar, Scalar)>)
    ensures
        r == spec_slab(lo, hi, origin, dir),
{
    if dir.raw == 0 {
        if lo.raw <= origin.raw && origin.raw <= hi.raw {
            Some((Scalar { raw: i64::MIN }, Scalar { raw: i64::MAX }))
        } else {
            None
        }
    } else {
        proof {
            lemma_product_bound(
                lo@ - origin@,
                SCALE as int,
                0x1_0000_0000_0000_0000,
                1_000_000,
            );
            lemma_product_bound(
                hi@ - origin@,
                SCALE as int,
                0x1_0000_0000_0000_0000,
                1_000_000,
            );
        }
        let near: i128 = (lo.raw as i128 - origin.raw as i128) * (SCALE as i128);
        let far: i128 = (hi.raw as i128 - origin.raw as i128) * (SCALE as i128);
        let d: i128 = dir.raw as i128;
        if dir.raw > 0 {
            Some((narrow(floor_div(near, d)), narrow(-floor_div(-far, d))))
        } else {
            Some((narrow(floor_div(far, d)), narrow(-floor_div(-near, d))))
        }
    }
}

/// A quotient rounded down grows with its numerator where the divisor is
/// positive, and falls where it is negative; so does one rounded up.
pub proof fn lemma_quotient_monotone(n1: int, n2: int, d: int)
    requires
        n1 <= n2,
        d != 0,
    ensures
        d > 0 ==> floor_quotient(n1, d) <= floor_quotient(n2, d),
        d > 0 ==> ceil_quotient(n1, d) <= ceil_quotient(n2, d),
        d < 0 ==> floor_quotient(n1, d) >= floor_quotient(n2, d),
        d < 0 ==> ceil_quotient(n1, d) >= ceil_quotient(n2, d),
{
    if d > 0 {
        lemma_div_is_ordered(n1, n2, d);
        lemma_div_is_ordered(-n2, -n1, d);
    } else {
        lemma_div_is_ordered(-n2, -n1, -d);
        lemma_div_is_ordered(n1, n2, -d);
    }
}

/// A quotient rounded down, times the divisor, does not pass the dividend
/// on the side of the divisor's sign; one rounded up does not fall short.
pub proof fn lemma_quotient_bounds(n: int, d: int)
    requires
        d != 0,
    ensures
        d > 0 ==> floor_quotient(n, d) * d <= n <= ceil_quotient(n, d) * d,
        d < 0 ==> ceil_quotient(n, d) * d <= n <= floor_quotient(n, d) * d,
{
    let m: int = if d > 0 {
        d
    } else {
        -d
    };
    lemma_fundamental_div_mod(n, m);
    lemma_mod_bound(n, m);
    lemma_fundamental_div_mod(-n, m);
    lemma_mod_bound(-n, m);
    let q: int = n / m;
    let p: int = (-n) / m;
    assert(q * m == m * q && p * m == m * p && (-p) * m == -(m * p) && q * (-m) == -(m * q) && p
        * (-m) == -(m * p) && (-q) * (-m) == m * q && (-p) * (-m) == m * p) by (nonlinear_arith);
}

/// A wider slab holds the ray wherever a narrower one does.
proof fn lemma_slab_grows(
    lo: Scalar,
    hi: Scalar,
    wide_lo: Scalar,
    wide_hi: Scalar,
    origin: Scalar,
    dir: Scalar,
)
    requires
        wide_lo@ <= lo@,
        hi@ <= wide_hi@,
        spec_slab(lo, hi, origin, dir) is Some,
    ensures
        spec_slab(wide_lo, wide_hi, origin, dir) is Some,
        spec_slab(wide_lo, wide_hi, origin, dir).unwrap().0@ <= spec_slab(
            lo,
            hi,
            origin,
            dir,
        ).unwrap().0@,
        spec_slab(lo, hi, origin, dir).unwrap().1@ <= spec_slab(
            wide_lo,
            wide_hi,
            origin,
            dir,
        ).unwrap().1@,
{
    if dir@ != 0 {
        let s: int = SCALE as int;
        assert((wide_lo@ - origin@) * s <= (lo@ - origin@) * s) by (nonlinear_arith)
            requires
                wide_lo@ <= lo@,
                s > 0,
        ;
        assert((hi@ - origin@) * s <= (wide_hi@ - origin@) * s) by (nonlinear_arith)
            requires
                hi@ <= wide_hi@,
                s > 0,
        ;
        lemma_quotient_monotone((wide_lo@ - origin@) * s, (lo@ - origin@) * s, dir@);
        lemma_quotient_monotone((hi@ - origin@) * s, (wide_hi@ - origin@) * s, dir@);
    }
}

/// A ray that is inside a slab at the parameter `num / den`, counted in
/// millionths, is inside it between the two parameters that the slab test
/// gives: the rounding of the test leaves out no parameter at which the ray
/// is inside.
proof fn lemma_slab_holds(
    lo: Scalar,
    hi: Scalar,
    origin: Scalar,
    dir: Scalar,
    num: int,
    den: int,
)
    requires
        den > 0,
        i64::MIN * den <= num <= i64::MAX * den,
        (lo@ - origin@) * SCALE * den <= dir@ * num <= (hi@ - origin@) * SCALE * den,
    ensures
        spec_slab(lo, hi, origin, dir) is Some,
        spec_slab(lo, hi, origin, dir).unwrap().0@ * den <= num,
        num <= spec_slab(lo, hi, origin, dir).unwrap().1@ * den,
{
    let s: int = SCALE as int;
    let near: int = (lo@ - origin@) * s;
    let far: int = (hi@ - origin@) * s;
    let d: int = dir@;
    if d == 0 {
        assert(lo@ <= origin@ <= hi@) by (nonlinear_arith)
            requires
                (lo@ - origin@) * s * den <= d * num <= (hi@ - origin@) * s * den,
                d == 0,
                s > 0,
                den > 0,
        ;
    } else {
        lemma_quotient_bounds(near, d);
        lemma_quotient_bounds(far, d);
        let fe: int = if d > 0 {
            floor_quotient(near, d)
        } else {
            floor_quotient(far, d)
        };
        let cl: int = if d > 0 {
            ceil_quotient(far, d)
        } else {
            ceil_quotient(near, d)
        };
        assert(fe * den <= num && num <= cl * den) by (nonlinear_arith)
            requires
                den > 0,
                d != 0,
                near * den <= d * num <= far * den,
                d > 0 ==> fe * d <= near && far <= cl * d,
                d < 0 ==> far <= fe * d && cl * d <= near,
        ;
        let e: int = crate::math::scalar::saturate(fe);
        let l: int = crate::math::scalar::saturate(cl);
        assert(e * den <= num) by (nonlinear_arith)
            requires
                den > 0,
                fe * den <= num,
                i64::MIN * den <= num,
                e <= fe || e == i64::MIN,
        ;
        assert(num <= l * den) by (nonlinear_arith)
            requires
                den > 0,
                num <= cl * den,
                num <= i64::MAX * den,
                l >= cl || l == i64::MAX,
        ;
    }
}

/// Whether a ray is inside one slab at the parameter `t`, give or take what
/// the ray moves in one millionth of a parameter: on an axis on which it
/// does not move it is inside exactly.
pub open spec fn near_slab(lo: Scalar, hi: Scalar, origin: Scalar, dir: Scalar, t: int) -> bool {
    let reach: int = if dir@ < 0 {
        -dir@
    } else {
        dir@
    };
    (lo@ - origin@) * SCALE - reach <= dir@ * t <= (hi@ - origin@) * SCALE + reach
}

/// Between the two parameters that the slab test gives, the ray is inside
/// the slab, give or take what it moves in one millionth of a parameter.
proof fn lemma_slab_sound(lo: Scalar, hi: Scalar, origin: Scalar, dir: Scalar, t: int)
    requires
        spec_slab(lo, hi, origin, dir) is Some,
        spec_slab(lo, hi, origin, dir).unwrap().0@ <= t <= spec_slab(lo, hi, origin, dir).unwrap().1@,
        i64::MIN < t < i64::MAX,
    ensures
        near_slab(lo, hi, origin, dir, t),
{
    let s: int = SCALE as int;
    let near: int = (lo@ - origin@) * s;
    let far: int = (hi@ - origin@) * s;
    let d: int = dir@;
    if d == 0 {
        assert(near <= 0 <= far && d * t == 0) by (nonlinear_arith)
            requires
                near == (lo@ - origin@) * s,
                far == (hi@ - origin@) * s,
                lo@ <= origin@ <= hi@,
                s > 0,
                d == 0,
        ;
    } else {
        lemma_quotient_tight(near, d);
        lemma_quotient_tight(far, d);
        let fe: int = if d > 0 {
            floor_quotient(near, d)
        } else {
            floor_quotient(far, d)
        };
        let cl: int = if d > 0 {
            ceil_quotient(far, d)
        } else {
            ceil_quotient(near, d)
        };
        assert(fe <= t <= cl);
        assert(d > 0 ==> near - d <= d * t <= far + d) by (nonlinear_arith)
            requires
                fe <= t <= cl,
                d > 0 ==> near < (fe + 1) * d && (cl - 1) * d < far,
        ;
        assert(d < 0 ==> near + d <= d * t <= far - d) by (nonlinear_arith)
            requires
                fe <= t <= cl,
                d < 0 ==> (fe + 1) * d < far && near < (cl - 1) * d,
        ;
    }
}

/// A quotient rounded down is less than one below the true quotient, and
/// one rounded up less than one above it.
pub proof fn lemma_quotient_tight(n: int, d: int)
    requires
        d != 0,
    ensures
        d > 0 ==> n < (floor_quotient(n, d) + 1) * d && (ceil_quotient(n, d) - 1) * d < n,
        d < 0 ==> (floor_quotient(n, d) + 1) * d < n && n < (ceil_quotient(n, d) - 1) * d,
{
    let m: int = if d > 0 {
        d
    } else {
        -d
    };
    lemma_fundamental_div_mod(n, m);
    lemma_mod_bound(n, m);
    lemma_fundamental_div_mod(-n, m);
    lemma_mod_bound(-n, m);
    let q: int = n / m;
    let p: int = (-n) / m;
    assert((q + 1) * m == m * q + m && (p + 1) * m == m * p + m && (-p - 1) * m == -(m * p) - m
        && (q + 1) * (-m) == -(m * q) - m && (p + 1) * (-m) == -(m * p) - m && (-q - 1) * (-m) == m
        * q + m && (-p - 1) * (-m) == m * p + m) by (nonlinear_arith);
}

impl BoundingBox {
    /// The box without points: on each axis the least coordinate is the
    /// largest number and the greatest is the smallest.
    pub open spec fn spec_empty() -> BoundingBox {
        BoundingBox {
            x_min: Scalar { raw: i64::MAX },
            x_max: Scalar { raw: i64::MIN },
            y_min: Scalar { raw: i64::MAX },
            y_max: Scalar { raw: i64::MIN },
            z_min: Scalar { raw: i64::MAX },
            z_max: Scalar { raw: i64::MIN },
        }
    }

    /// The box that holds nothing; the union of a box with it is that box.
    #[verifier::when_used_as_spec(spec_empty)]
    pub fn empty() -> (b: BoundingBox)
        ensures
            b == BoundingBox::spec_empty(),
    {
        BoundingBox {
            x_min: Scalar { raw: i64::MAX },
            x_max: Scalar { raw: i64::MIN },
            y_min: Scalar { raw: i64::MAX },
            y_max: Scalar { raw: i64::MIN },
            z_min: Scalar { raw: i64::MAX },
            z_max: Scalar { raw: i64::MIN },
        }
    }

    /// The box around a shape: its extents.
    pub fn from_shape(shape: &Shape) -> (b: BoundingBox)
        ensures
            b == shape.spec_extents(),
    {
        shape.get_extents()
    }

    pub open spec fn spec_combine(b1: BoundingBox, b2: BoundingBox) -> BoundingBox {
        BoundingBox {
            x_min: b1.x_min.min(b2.x_min),
            x_max: b1.x_max.max(b2.x_max),
            y_min: b1.y_min.min(b2.y_min),
            y_max: b1.y_max.max(b2.y_max),
            z_min: b1.z_min.min(b2.z_min),
            z_max: b1.z_max.max(b2.z_max),
        }
    }

    /// The smallest box that holds both.
    #[verifier::when_used_as_spec(spec_combine)]
    pub fn combine(b1: BoundingBox, b2: BoundingBox) -> (b: BoundingBox)
        ensures
            b == BoundingBox::spec_combine(b1, b2),
    {
        BoundingBox {
            x_min: b1.x_min.min(b2.x_min),
            x_max: b1.x_max.max(b2.x_max),
            y_min: b1.y_min.min(b2.y_min),
            y_max: b1.y_max.max(b2.y_max),
            z_min: b1.z_min.min(b2.z_min),
            z_max: b1.z_max.max(b2.z_max),
        }
    }

    /// Whether `outer` reaches at least as far as `self` on every axis, in
    /// both directions.
    pub open spec fn within(&self, outer: &BoundingBox) -> bool {
        &&& outer.x_min@ <= self.x_min@
        &&& self.x_max@ <= outer.x_max@
        &&& outer.y_min@ <= self.y_min@
        &&& self.y_max@ <= outer.y_max@
        &&& outer.z_min@ <= self.z_min@
        &&& self.z_max@ <= outer.z_max@
    }

    /// The slab test: the ray is inside all three slabs at once for some
    /// parameter, it enters below the upper bound and it leaves above the
    /// lower bound. The test is generous by the rounding of its parameters:
    /// it passes every ray that is inside the box at a parameter strictly
    /// between the bounds.
    #[verifier::opaque]
    pub open spec fn admits(&self, ray: Ray) -> bool {
        let x = spec_slab(self.x_min, self.x_max, ray.pos.x, ray.dir.x);
        let y = spec_slab(self.y_min, self.y_max, ray.pos.y, ray.dir.y);
        let z = spec_slab(self.z_min, self.z_max, ray.pos.z, ray.dir.z);
        &&& x is Some
        &&& y is Some
        &&& z is Some
        &&& {
            let enter: Scalar = x.unwrap().0.max(y.unwrap().0).max(z.unwrap().0);
            let leave: Scalar = x.unwrap().1.min(y.unwrap().1).min(z.unwrap().1);
            enter@ <= leave@ && enter@ < TMAX_RAW && leave@ > TMIN_RAW
        }
    }

    /// The slab test drops no ray that is in the box: a ray that is inside
    /// the box at some parameter `num / den` strictly between the two bounds,
    /// all counted in millionths, passes the test.
    pub proof fn lemma_admits_complete(&self, ray: Ray, num: int, den: int)
        requires
            den > 0,
            TMIN_RAW * den < num < TMAX_RAW * den,
            (self.x_min@ - ray.pos.x@) * SCALE * den <= ray.dir.x@ * num <= (self.x_max@
                - ray.pos.x@) * SCALE * den,
            (self.y_min@ - ray.pos.y@) * SCALE * den <= ray.dir.y@ * num <= (self.y_max@
                - ray.pos.y@) * SCALE * den,
            (self.z_min@ - ray.pos.z@) * SCALE * den <= ray.dir.z@ * num <= (self.z_max@
                - ray.pos.z@) * SCALE * den,
        ensures
            self.admits(ray),
    {
        reveal(BoundingBox::admits);
        assert(i64::MIN * den <= num <= i64::MAX * den) by (nonlinear_arith)
            requires
                den > 0,
                TMIN_RAW * den < num < TMAX_RAW * den,
        ;
        lemma_slab_holds(self.x_min, self.x_max, ray.pos.x, ray.dir.x, num, den);
        lemma_slab_holds(self.y_min, self.y_max, ray.pos.y, ray.dir.y, num, den);
        lemma_slab_holds(self.z_min, self.z_max, ray.pos.z, ray.dir.z, num, den);
        let x = spec_slab(self.x_min, self.x_max, ray.pos.x, ray.dir.x).unwrap();
        let y = spec_slab(self.y_min, self.y_max, ray.pos.y, ray.dir.y).unwrap();
        let z = spec_slab(self.z_min, self.z_max, ray.pos.z, ray.dir.z).unwrap();
        let enter: Scalar = x.0.max(y.0).max(z.0);
        let leave: Scalar = x.1.min(y.1).min(z.1);
        assert(enter@ * den <= num && num <= leave@ * den);
        assert(enter@ <= leave@ && enter@ < TMAX_RAW && leave@ > TMIN_RAW) by (nonlinear_arith)
            requires
                den > 0,
                enter@ * den <= num,
                num <= leave@ * den,
                TMIN_RAW * den < num < TMAX_RAW * den,
        ;
    }

    /// The slab test passes no ray that stays away from the box: a ray that
    /// passes is, at some parameter strictly between the two bounds, inside
    /// the box on every axis, give or take what it moves in one millionth of
    /// a parameter.
    pub proof fn lemma_admits_sound(&self, ray: Ray) -> (t: int)
        requires
            self.admits(ray),
        ensures
            TMIN_RAW < t < TMAX_RAW,
            near_slab(self.x_min, self.x_max, ray.pos.x, ray.dir.x, t),
            near_slab(self.y_min, self.y_max, ray.pos.y, ray.dir.y, t),
            near_slab(self.z_min, self.z_max, ray.pos.z, ray.dir.z, t),
    {
        reveal(BoundingBox::admits);
        let x = spec_slab(self.x_min, self.x_max, ray.pos.x, ray.dir.x).unwrap();
        let y = spec_slab(self.y_min, self.y_max, ray.pos.y, ray.dir.y).unwrap();
        let z = spec_slab(self.z_min, self.z_max, ray.pos.z, ray.dir.z).unwrap();
        let enter: int = x.0.max(y.0).max(z.0)@;
        let leave: int = x.1.min(y.1).min(z.1)@;
        let t: int = if enter > TMIN_RAW {
            enter
        } else {
            TMIN_RAW + 1
        };
        lemma_slab_sound(self.x_min, self.x_max, ray.pos.x, ray.dir.x, t);
        lemma_slab_sound(self.y_min, self.y_max, ray.pos.y, ray.dir.y, t);
        lemma_slab_sound(self.z_min, self.z_max, ray.pos.z, ray.dir.z, t);
        t
    }

    /// Whether `ray` passes the slab test of the box.
    pub fn passes(&self, ray: Ray) -> (r: bool)
        ensures
            r == self.admits(ray),
    {
        reveal(BoundingBox::admits);
        let (x_enter, x_leave) = match slab(self.x_min, self.x_max, ray.pos.x, ray.dir.x) {
            Some(span) => span,
            None => {
                return false;
            },
        };
        let (y_enter, y_leave) = match slab(self.y_min, self.y_max, ray.pos.y, ray.dir.y) {
            Some(span) => span,
            None => {
                return false;
            },
        };
        let (z_enter, z_leave) = match slab(self.z_min, self.z_max, ray.pos.z, ray.dir.z) {
            Some(span) => span,
            None => {
                return false;
            },
        };
        let enter: Scalar = x_enter.max(y_enter).max(z_enter);
        let leave: Scalar = x_leave.min(y_leave).min(z_leave);
        if enter.raw > leave.raw {
            return false;
        }
        enter.raw < TMAX_RAW && leave.raw > TMIN_RAW
    }

    /// A ray that passes the slab test of a box passes that of every box
    /// around it.
    pub proof fn lemma_admits_grows(&self, outer: &BoundingBox, ray: Ray)
        requires
            self.within(outer),
            self.admits(ray),
        ensures
            outer.admits(ray),
    {
        reveal(BoundingBox::admits);
        lemma_slab_grows(self.x_min, self.x_max, outer.x_min, outer.x_max, ray.pos.x, ray.dir.x);
        lemma_slab_grows(self.y_min, self.y_max, outer.y_min, outer.y_max, ray.pos.y, ray.dir.y);
        lemma_slab_grows(self.z_min, self.z_max, outer.z_min, outer.z_max, ray.pos.z, ray.dir.z);
    }
}

impl Intersect for BoundingBox {
    open spec fn spec_center(&self) -> Vector {
        let two: Scalar = Scalar::from_int(2);
        Vector {
            x: self.x_min.add(self.x_max).div(two),
            y: self.y_min.add(self.y_max).div(two),
            z: self.z_min.add(self.z_max).div(two),
        }
    }

    /// A box is a probe: the result says whether the ray passes the slab
    /// test, and reports no parameter and no shape.
    open spec fn spec_intersection(&self, ray: Ray) -> Hit {
        Hit { t: tmax(), shape: None, hit: self.admits(ray), ray }
    }

    open spec fn spec_material(&self) -> Material {
        Material::new()
    }

    open spec fn spec_normal(&self, point: Vector, v: Vector) -> Vector {
        Vector::new()
    }

    open spec fn spec_extents(&self) -> BoundingBox {
        *self
    }

    fn center(&self) -> (r: Vector) {
        let two: Scalar = Scalar::from_int(2);
        Vector {
            x: self.x_min.add(self.x_max).div(two),
            y: self.y_min.add(self.y_max).div(two),
            z: self.z_min.add(self.z_max).div(two),
        }
    }

    fn get_ray_intersection(&self, ray: Ray) -> (h: Hit) {
        Hit { t: tmax(), shape: None, hit: self.passes(ray), ray }
    }

    fn get_material(&self) -> (m: Material) {
        Material::new()
    }

    fn surface_normal(&self, point: Vector, v: Vector) -> (n: Vector) {
        Vector::new()
    }

    fn get_extents(&self) -> (b: BoundingBox) {
        *self
    }
}

/// The axis along which a node of the hierarchy divides its shapes.
#[derive(Clone, Copy, Debug, PartialEq, Eq, Structural)]
pub enum Axis {
    XAxis,
    YAxis,
    ZAxis,
}

impl Axis {
    pub open spec fn spec_next(self) -> Axis {
        match self {
            Axis::XAxis => Axis::YAxis,
            Axis::YAxis => Axis::ZAxis,
            Axis::ZAxis => Axis::XAxis,
        }
    }

    /// The axis of the level below: X, Y, Z and X again.
    #[verifier::when_used_as_spec(spec_next)]
    pub fn next(self) -> (a: Axis)
        ensures
            a == self.spec_next(),
    {
        match self {
            Axis::XAxis => Axis::YAxis,
            Axis::YAxis => Axis::ZAxis,
            Axis::ZAxis => Axis::XAxis,
        }
    }

    pub open spec fn spec_of(self, v: Vector) -> Scalar {
        match self {
            Axis::XAxis => v.x,
            Axis::YAxis => v.y,
            Axis::ZAxis => v.z,
        }
    }

    /// The coordinate of `v` on this axis.
    #[verifier::when_used_as_spec(spec_of)]
    pub fn of(self, v: Vector) -> (c: Scalar)
        ensures
            c == self.spec_of(v),
    {
        match self {
            Axis::XAxis => v.x,
            Axis::YAxis => v.y,
            Axis::ZAxis => v.z,
        }
    }
}

/// What hangs below a node: a shape, by its place in the scene's list, or
/// another node.
#[derive(Debug)]
pub enum Child {
    Shape(usize),
    Node(Box<BVHNode>),
}

/// A node of the hierarchy: a box and up to two children.
#[derive(Debug)]
pub struct BVHNode {
    pub bbox: BoundingBox,
    pub left: Option<Child>,
    pub right: Option<Child>,
}

/// The box of a child: the extents of a shape, the box of a node, and the
/// empty box where there is no child.
pub open spec fn child_box(child: Option<Child>, shapes: Seq<Shape>) -> BoundingBox {
    match child {
        None => BoundingBox::empty(),
        Some(Child::Shape(i)) => shapes[i as int].spec_extents(),
        Some(Child::Node(n)) => n.bbox,
    }
}

/// Whether everything below a child is well formed.
pub open spec fn child_wf(child: Option<Child>, shapes: Seq<Shape>) -> bool
    decreases child,
{
    match child {
        None => true,
        Some(Child::Shape(i)) => i < shapes.len(),
        Some(Child::Node(n)) => n.wf(shapes),
    }
}

/// Whether the shape at place `j` hangs below a child.
pub open spec fn child_holds(child: Option<Child>, j: usize) -> bool
    decreases child,
{
    match child {
        None => false,
        Some(Child::Shape(i)) => i == j,
        Some(Child::Node(n)) => n.holds(j),
    }
}

/// What a query of the ray below a child reports.
pub open spec fn child_nearest(child: Option<Child>, shapes: Seq<Shape>, ray: Ray) -> Hit
    decreases child,
{
    match child {
        None => Hit::miss(ray),
        Some(Child::Shape(i)) => shapes[i as int].spec_intersection(ray).at(i),
        Some(Child::Node(n)) => n.nearest(shapes, ray),
    }
}

/// Of two results the one with the smaller parameter; the right one where
/// the parameters are equal; the one that is an intersection where only one
/// is; no intersection where neither is.
pub open spec fn spec_nearer_hit(left: Hit, right: Hit, ray: Ray) -> Hit {
    if left.hit && right.hit {
        if left.t@ < right.t@ {
            left
        } else {
            right
        }
    } else if left.hit {
        left
    } else if right.hit {
        right
    } else {
        Hit::miss(ray)
    }
}

/// The sum of the centroid coordinates on `axis` of the shapes at `indices`,
/// in raw units and without rounding.
pub open spec fn centroid_sum(shapes: Seq<Shape>, indices: Seq<usize>, axis: Axis) -> int
    decreases indices.len(),
{
    if indices.len() == 0 {
        0
    } else {
        centroid_sum(shapes, indices.drop_last(), axis) + axis.of(
            shapes[indices.last() as int].spec_center(),
        )@
    }
}

/// The test that sends a shape to the left: its centroid coordinate is below
/// the mean `sum / count`, compared without division.
pub open spec fn on_left(shapes: Seq<Shape>, axis: Axis, sum: int, count: int) -> spec_fn(
    usize,
) -> bool {
    |i: usize| axis.of(shapes[i as int].spec_center())@ * count < sum
}

/// The negation of `on_left`.
pub open spec fn on_right(shapes: Seq<Shape>, axis: Axis, sum: int, count: int) -> spec_fn(
    usize,
) -> bool {
    |i: usize| !(axis.of(shapes[i as int].spec_center())@ * count < sum)
}

/// How a node of three or more shapes divides them: those with a centroid
/// below the mean on `axis` to the left and the others to the right, in
/// their order; and where that leaves a side empty, the first half to the
/// left and the rest to the right.
pub open spec fn split(shapes: Seq<Shape>, indices: Seq<usize>, axis: Axis) -> (
    Seq<usize>,
    Seq<usize>,
) {
    let count: int = indices.len() as int;
    let sum: int = centroid_sum(shapes, indices, axis);
    let l: Seq<usize> = indices.filter(on_left(shapes, axis, sum, count));
    let r: Seq<usize> = indices.filter(on_right(shapes, axis, sum, count));
    if l.len() == 0 || r.len() == 0 {
        (indices.take(count / 2), indices.skip(count / 2))
    } else {
        (l, r)
    }
}

impl BVHNode {
    /// Whether the node is of one of the four kinds: empty, a leaf with one
    /// shape on the left, a leaf with a shape on each side, or an inner node
    /// with a node on each side.
    pub open spec fn kind_ok(&self) -> bool {
        match (self.left, self.right) {
            (None, None) => true,
            (Some(Child::Shape(_)), None) => true,
            (Some(Child::Shape(_)), Some(Child::Shape(_))) => true,
            (Some(Child::Node(_)), Some(Child::Node(_))) => true,
            _ => false,
        }
    }

    /// Every node is of one of the four kinds, its box is exactly the union
    /// of its children's boxes, and every shape below it is a shape of the
    /// scene.
    pub open spec fn wf(&self, shapes: Seq<Shape>) -> bool
        decreases self,
    {
        &&& self.kind_ok()
        &&& self.bbox == BoundingBox::combine(
            child_box(self.left, shapes),
            child_box(self.right, shapes),
        )
        &&& child_wf(self.left, shapes)
        &&& child_wf(self.right, shapes)
    }

    /// Whether the shape at place `j` hangs below this node.
    pub open spec fn holds(&self, j: usize) -> bool
        decreases self,
    {
        child_holds(self.left, j) || child_holds(self.right, j)
    }

    /// What a query reports: nothing where the ray fails the slab test of the
    /// node's box, else the nearer of what the two children report.
    pub open spec fn nearest(&self, shapes: Seq<Shape>, ray: Ray) -> Hit
        decreases self,
    {
        if self.bbox.admits(ray) {
            spec_nearer_hit(
                child_nearest(self.left, shapes, ray),
                child_nearest(self.right, shapes, ray),
                ray,
            )
        } else {
            Hit::miss(ray)
        }
    }

    /// The tree that construction gives for the shapes at `indices`: no
    /// child for none, the shapes themselves for one or two, and for more a
    /// node on each side of the split, built along the next axis.
    pub open spec fn built_from(&self, shapes: Seq<Shape>, indices: Seq<usize>, axis: Axis) -> bool
        decreases self,
    {
        &&& self.bbox == BoundingBox::combine(
            child_box(self.left, shapes),
            child_box(self.right, shapes),
        )
        &&& if indices.len() == 0 {
            self.left is None && self.right is None
        } else if indices.len() == 1 {
            self.left == Some(Child::Shape(indices[0])) && self.right is None
        } else if indices.len() == 2 {
            self.left == Some(Child::Shape(indices[0])) && self.right == Some(
                Child::Shape(indices[1]),
            )
        } else {
            let (l, r) = split(shapes, indices, axis);
            &&& self.left matches Some(Child::Node(ln)) && ln.built_from(shapes, l, axis.next())
            &&& self.right matches Some(Child::Node(rn)) && rn.built_from(shapes, r, axis.next())
        }
    }
}

/// The places `0, 1, .., n - 1` in order.
pub open spec fn all_places(n: nat) -> Seq<usize> {
    Seq::new(n, |i: int| i as usize)
}

proof fn lemma_centroid_sum_push(shapes: Seq<Shape>, indices: Seq<usize>, k: int, axis: Axis)
    requires
        0 <= k < indices.len(),
    ensures
        centroid_sum(shapes, indices.take(k + 1), axis) == centroid_sum(
            shapes,
            indices.take(k),
            axis,
        ) + axis.of(shapes[indices[k] as int].spec_center())@,
{
    assert(indices.take(k + 1).drop_last() =~= indices.take(k));
}

fn sum_centroids(shapes: &Vec<Shape>, indices: &Vec<usize>, axis: Axis) -> (sum: i128)
    requires
        forall|k: int| 0 <= k < indices.len() ==> indices[k] < shapes.len(),
    ensures
        sum == centroid_sum(shapes@, indices@, axis),
{
    let mut sum: i128 = 0;
    let mut k: usize = 0;
    while k < indices.len()
        invariant
            k <= indices.len(),
            forall|k: int| 0 <= k < indices.len() ==> indices[k] < shapes.len(),
            sum == centroid_sum(shapes@, indices@.take(k as int), axis),
            -(k * 0x8000_0000_0000_0000) <= sum <= k * 0x8000_0000_0000_0000,
        decreases indices.len() - k,
    {
        let c: Scalar = axis.of(shapes[indices[k]].center());
        proof {
            lemma_centroid_sum_push(shapes@, indices@, k as int, axis);
        }
        sum = sum + c.raw as i128;
        k = k + 1;
    }
    proof {
        assert(indices@.take(indices.len() as int) =~= indices@);
    }
    sum
}

fn is_on_left(shape: &Shape, axis: Axis, sum: i128, count: usize) -> (r: bool)
    ensures
        r == (axis.of(shape.spec_center())@ * count < sum),
{
    let c: Scalar = axis.of(shape.center());
    proof {
        crate::math::scalar::lemma_product_bound(
            c@,
            count as int,
            0x8000_0000_0000_0000,
            0xffff_ffff_ffff_ffff,
        );
    }
    (c.raw as i128) * (count as i128) < sum
}

fn divide_by_mean(shapes: &Vec<Shape>, indices: &Vec<usize>, axis: Axis, sum: i128) -> (r: (
    Vec<usize>,
    Vec<usize>,
))
    requires
        forall|k: int| 0 <= k < indices.len() ==> indices[k] < shapes.len(),
    ensures
        r.0@ == indices@.filter(on_left(shapes@, axis, sum as int, indices.len() as int)),
        r.1@ == indices@.filter(on_right(shapes@, axis, sum as int, indices.len() as int)),
        r.0.len() + r.1.len() == indices.len(),
{
    let count: usize = indices.len();
    let mut left: Vec<usize> = Vec::new();
    let mut right: Vec<usize> = Vec::new();
    let ghost to_left = on_left(shapes@, axis, sum as int, count as int);
    let ghost to_right = on_right(shapes@, axis, sum as int, count as int);
    let mut k: usize = 0;
    proof {
        assert(indices@.take(0) =~= Seq::<usize>::empty());
        assert(Seq::<usize>::empty().filter(to_left) =~= Seq::<usize>::empty()) by {
            reveal(Seq::filter);
        }
        assert(Seq::<usize>::empty().filter(to_right) =~= Seq::<usize>::empty()) by {
            reveal(Seq::filter);
        }
    }
    while k < count
        invariant
            k <= count,
            count == indices.len(),
            to_left == on_left(shapes@, axis, sum as int, count as int),
            to_right == on_right(shapes@, axis, sum as int, count as int),
            forall|k: int| 0 <= k < indices.len() ==> indices[k] < shapes.len(),
            left@ == indices@.take(k as int).filter(to_left),
            right@ == indices@.take(k as int).filter(to_right),
            left.len() + right.len() == k,
        decreases count - k,
    {
        let i: usize = indices[k];
        proof {
            assert(indices@.take(k + 1) =~= indices@.take(k as int).push(i));
            indices@.take(k as int).lemma_filter_push(i, to_left);
            indices@.take(k as int).lemma_filter_push(i, to_right);
        }
        if is_on_left(&shapes[i], axis, sum, count) {
            left.push(i);
        } else {
            right.push(i);
        }
        k = k + 1;
    }
    proof {
        assert(indices@.take(count as int) =~= indices@);
    }
    (left, right)
}

fn copy_range(indices: &Vec<usize>, from: usize, to: usize) -> (r: Vec<usize>)
    requires
        from <= to <= indices.len(),
    ensures
        r@ == indices@.subrange(from as int, to as int),
{
    let mut out: Vec<usize> = Vec::new();
    let mut k: usize = from;
    while k < to
        invariant
            from <= k <= to <= indices.len(),
            out@ == indices@.subrange(from as int, k as int),
        decreases to - k,
    {
        out.push(indices[k]);
        proof {
            assert(indices@.subrange(from as int, k + 1) =~= indices@.subrange(
                from as int,
                k as int,
            ).push(indices[k as int]));
        }
        k = k + 1;
    }
    out
}

fn divide(shapes: &Vec<Shape>, indices: &Vec<usize>, axis: Axis) -> (r: (Vec<usize>, Vec<usize>))
    requires
        indices.len() >= 3,
        forall|k: int| 0 <= k < indices.len() ==> indices[k] < shapes.len(),
    ensures
        (r.0@, r.1@) == split(shapes@, indices@, axis),
        0 < r.0.len() < indices.len(),
        0 < r.1.len() < indices.len(),
{
    let sum: i128 = sum_centroids(shapes, indices, axis);
    let (left, right) = divide_by_mean(shapes, indices, axis, sum);
    if left.len() == 0 || right.len() == 0 {
        let count: usize = indices.len();
        let first: Vec<usize> = copy_range(indices, 0, count / 2);
        let rest: Vec<usize> = copy_range(indices, count / 2, count);
        proof {
            assert(indices@.take(count as int / 2) =~= indices@.subrange(0, count as int / 2));
            assert(indices@.skip(count as int / 2) =~= indices@.subrange(
                count as int / 2,
                count as int,
            ));
        }
        (first, rest)
    } else {
        (left, right)
    }
}

/// Every place in either side of a split is a place of the whole, and every
/// place of the whole is in one of the sides.
pub proof fn lemma_split_covers(shapes: Seq<Shape>, indices: Seq<usize>, axis: Axis, j: usize)
    ensures
        indices.contains(j) <==> split(shapes, indices, axis).0.contains(j) || split(
            shapes,
            indices,
            axis,
        ).1.contains(j),
{
    let count: int = indices.len() as int;
    let sum: int = centroid_sum(shapes, indices, axis);
    let to_left = on_left(shapes, axis, sum, count);
    let to_right = on_right(shapes, axis, sum, count);
    let l: Seq<usize> = indices.filter(to_left);
    let r: Seq<usize> = indices.filter(to_right);
    if l.len() == 0 || r.len() == 0 {
        let a: Seq<usize> = indices.take(count / 2);
        let b: Seq<usize> = indices.skip(count / 2);
        assert(a + b =~= indices);
        vstd::seq_lib::lemma_seq_concat_contains_all_elements(a, b, j);
    } else {
        if l.contains(j) {
            indices.lemma_filter_contains_rev(to_left, j);
        }
        if r.contains(j) {
            indices.lemma_filter_contains_rev(to_right, j);
        }
        if indices.contains(j) {
            let k: int = indices.lemma_contains_to_index(j);
            if to_left(j) {
                indices.lemma_filter_contains(to_left, k);
            } else {
                assert(to_right(j));
                indices.lemma_filter_contains(to_right, k);
            }
        }
    }
}

impl BVHNode {
    fn build(shapes: &Vec<Shape>, indices: &Vec<usize>, axis: Axis) -> (node: BVHNode)
        requires
            forall|k: int| 0 <= k < indices.len() ==> indices[k] < shapes.len(),
        ensures
            node.built_from(shapes@, indices@, axis),
        decreases indices.len(),
    {
        let n: usize = indices.len();
        if n == 0 {
            BVHNode { bbox: BoundingBox::empty(), left: None, right: None }
        } else if n == 1 {
            let i: usize = indices[0];
            BVHNode {
                bbox: BoundingBox::from_shape(&shapes[i]),
                left: Some(Child::Shape(i)),
                right: None,
            }
        } else if n == 2 {
            let i: usize = indices[0];
            let j: usize = indices[1];
            BVHNode {
                bbox: BoundingBox::combine(
                    BoundingBox::from_shape(&shapes[i]),
                    BoundingBox::from_shape(&shapes[j]),
                ),
                left: Some(Child::Shape(i)),
                right: Some(Child::Shape(j)),
            }
        } else {
            let (left_shapes, right_shapes) = divide(shapes, indices, axis);
            proof {
                assert forall|k: int| 0 <= k < left_shapes.len() implies left_shapes[k]
                    < shapes.len() by {
                    assert(left_shapes@.contains(left_shapes[k]));
                    lemma_split_covers(shapes@, indices@, axis, left_shapes[k]);
                }
                assert forall|k: int| 0 <= k < right_shapes.len() implies right_shapes[k]
                    < shapes.len() by {
                    assert(right_shapes@.contains(right_shapes[k]));
                    lemma_split_covers(shapes@, indices@, axis, right_shapes[k]);
                }
            }
            let next_axis: Axis = axis.next();
            let left: BVHNode = BVHNode::build(shapes, &left_shapes, next_axis);
            let right: BVHNode = BVHNode::build(shapes, &right_shapes, next_axis);
            BVHNode {
                bbox: BoundingBox::combine(left.bbox, right.bbox),
                left: Some(Child::Node(Box::new(left))),
                right: Some(Child::Node(Box::new(right))),
            }
        }
    }

    /// Builds the hierarchy over all of `shapes`, dividing first along `axis`.
    pub fn new(shapes: &Vec<Shape>, axis: Axis) -> (node: BVHNode)
        ensures
            node.built_from(shapes@, all_places(shapes@.len()), axis),
    {
        let mut indices: Vec<usize> = Vec::new();
        let mut k: usize = 0;
        while k < shapes.len()
            invariant
                k <= shapes.len(),
                indices@ == all_places(k as nat),
            decreases shapes.len() - k,
        {
            indices.push(k);
            proof {
                assert(indices@ =~= all_places((k + 1) as nat));
            }
            k = k + 1;
        }
        BVHNode::build(shapes, &indices, axis)
    }

    /// The centre of the node's box.
    pub fn center(&self) -> (r: Vector)
        ensures
            r == self.bbox.spec_center(),
    {
        self.bbox.center()
    }

    /// The node's box.
    pub fn get_extents(&self) -> (b: BoundingBox)
        ensures
            b == self.bbox,
    {
        self.bbox.get_extents()
    }

    fn query_child(child: &Option<Child>, shapes: &Vec<Shape>, ray: Ray) -> (h: Hit)
        requires
            child_wf(*child, shapes@),
        ensures
            h == child_nearest(*child, shapes@, ray),
        decreases *child,
    {
        match child {
            None => Hit { t: tmax(), shape: None, hit: false, ray },
            Some(Child::Shape(i)) => shapes[*i].get_ray_intersection(ray).at(*i),
            Some(Child::Node(n)) => n.get_ray_intersection(shapes, ray),
        }
    }

    /// The nearest intersection of `ray` with the shapes below this node.
    pub fn get_ray_intersection(&self, shapes: &Vec<Shape>, ray: Ray) -> (h: Hit)
        requires
            self.wf(shapes@),
        ensures
            h == self.nearest(shapes@, ray),
        decreases self,
    {
        let hit: Hit = Hit { t: tmax(), shape: None, hit: false, ray };
        if self.bbox.get_ray_intersection(ray).hit {
            let hit_left: Hit = BVHNode::query_child(&self.left, shapes, ray);
            let hit_right: Hit = BVHNode::query_child(&self.right, shapes, ray);
            if hit_left.hit && hit_right.hit {
                if hit_left.t.raw < hit_right.t.raw {
                    return hit_left;
                } else {
                    return hit_right;
                }
            }
            if hit_left.hit {
                return hit_left;
            }
            if hit_right.hit {
                return hit_right;
            }
            return hit;
        }
        hit
    }
}

/// What a test of the ray against each of the first `n` shapes in turn
/// reports: the nearest intersection, and the later shape where two are
/// equally near.
pub open spec fn scan(shapes: Seq<Shape>, ray: Ray, n: nat) -> Hit
    decreases n,
{
    if n == 0 {
        Hit::miss(ray)
    } else {
        spec_nearer_hit(
            scan(shapes, ray, (n - 1) as nat),
            shapes[n - 1].spec_intersection(ray).at((n - 1) as usize),
            ray,
        )
    }
}

/// Tests the ray against every shape in turn and keeps the nearest
/// intersection.
pub fn linear_scan(shapes: &Vec<Shape>, ray: Ray) -> (h: Hit)
    ensures
        h == scan(shapes@, ray, shapes@.len()),
{
    let mut best: Hit = Hit { t: tmax(), shape: None, hit: false, ray };
    let mut k: usize = 0;
    while k < shapes.len()
        invariant
            k <= shapes.len(),
            best == scan(shapes@, ray, k as nat),
        decreases shapes.len() - k,
    {
        let found: Hit = shapes[k].get_ray_intersection(ray).at(k);
        if found.hit && !(best.hit && best.t.raw < found.t.raw) {
            best = found;
        }
        k = k + 1;
    }
    best
}

/// Whether a result is either no intersection of `ray`, or names a shape of
/// the scene that `ray` meets at the reported parameter.
pub open spec fn reports(h: Hit, shapes: Seq<Shape>, ray: Ray) -> bool {
    if h.hit {
        &&& h.ray == ray
        &&& h.shape matches Some(i) && i < shapes.len() && shapes[i as int].meets(ray) == Some(h.t)
    } else {
        h == Hit::miss(ray)
    }
}

/// A box is within the union of itself and any other, on either side.
pub proof fn lemma_combine_holds(b1: BoundingBox, b2: BoundingBox)
    ensures
        b1.within(&BoundingBox::combine(b1, b2)),
        b2.within(&BoundingBox::combine(b1, b2)),
{
}

/// Containment of boxes is transitive.
pub proof fn lemma_within_transitive(a: BoundingBox, b: BoundingBox, c: BoundingBox)
    requires
        a.within(&b),
        b.within(&c),
    ensures
        a.within(&c),
{
}

/// The extents of every shape below a child lie within the child's box.
pub proof fn lemma_child_box_holds_shapes(child: Option<Child>, shapes: Seq<Shape>, j: usize)
    requires
        child_wf(child, shapes),
        child_holds(child, j),
    ensures
        j < shapes.len(),
        shapes[j as int].spec_extents().within(&child_box(child, shapes)),
    decreases child,
{
    match child {
        None => {},
        Some(Child::Shape(i)) => {},
        Some(Child::Node(n)) => {
            n.lemma_box_holds_shapes(shapes, j);
        },
    }
}

/// What a query below a child reports is no intersection, or names a shape
/// of the scene that the ray meets at the reported parameter, strictly
/// between the two bounds.
pub proof fn lemma_child_reports(child: Option<Child>, shapes: Seq<Shape>, ray: Ray)
    requires
        child_wf(child, shapes),
    ensures
        reports(child_nearest(child, shapes, ray), shapes, ray),
        child_nearest(child, shapes, ray).wf(),
    decreases child,
{
    match child {
        None => {},
        Some(Child::Shape(i)) => {
            shapes[i as int].lemma_meets_in_range(ray);
        },
        Some(Child::Node(n)) => {
            n.lemma_reports(shapes, ray);
        },
    }
}

/// What a query below a child reports is an intersection with a shape below
/// it, and it is at least as near as every shape below the child that the
/// ray meets.
pub proof fn lemma_child_nearest(child: Option<Child>, shapes: Seq<Shape>, ray: Ray)
    requires
        child_wf(child, shapes),
    ensures
        reports(child_nearest(child, shapes, ray), shapes, ray),
        child_nearest(child, shapes, ray).hit ==> child_holds(
            child,
            child_nearest(child, shapes, ray).shape.unwrap(),
        ),
        forall|j: usize|
            #![trigger child_holds(child, j)]
            child_holds(child, j) && shapes[j as int].meets(ray) is Some ==> {
                &&& child_nearest(child, shapes, ray).hit
                &&& child_nearest(child, shapes, ray).t@ <= shapes[j as int].meets(ray).unwrap()@
            },
    decreases child,
{
    match child {
        None => {},
        Some(Child::Shape(i)) => {},
        Some(Child::Node(n)) => {
            n.lemma_nearest(shapes, ray);
            assert forall|j: usize|
                #![trigger child_holds(child, j)]
                child_holds(child, j) && shapes[j as int].meets(ray) is Some implies {
                &&& child_nearest(child, shapes, ray).hit
                &&& child_nearest(child, shapes, ray).t@ <= shapes[j as int].meets(ray).unwrap()@
            } by {
                assert(n.holds(j));
            }
        },
    }
}

impl BVHNode {
    /// The extents of every shape below a node lie within the node's box.
    pub proof fn lemma_box_holds_shapes(&self, shapes: Seq<Shape>, j: usize)
        requires
            self.wf(shapes),
            self.holds(j),
        ensures
            j < shapes.len(),
            shapes[j as int].spec_extents().within(&self.bbox),
        decreases self,
    {
        let lb: BoundingBox = child_box(self.left, shapes);
        let rb: BoundingBox = child_box(self.right, shapes);
        lemma_combine_holds(lb, rb);
        if child_holds(self.left, j) {
            lemma_child_box_holds_shapes(self.left, shapes, j);
            lemma_within_transitive(shapes[j as int].spec_extents(), lb, self.bbox);
        } else {
            lemma_child_box_holds_shapes(self.right, shapes, j);
            lemma_within_transitive(shapes[j as int].spec_extents(), rb, self.bbox);
        }
    }

    /// What a query reports is an intersection with a shape below the node,
    /// and it is at least as near as every shape below the node that the ray
    /// meets: the boxes turn no ray away from a shape that it meets.
    pub proof fn lemma_nearest(&self, shapes: Seq<Shape>, ray: Ray)
        requires
            self.wf(shapes),
        ensures
            reports(self.nearest(shapes, ray), shapes, ray),
            self.nearest(shapes, ray).hit ==> self.holds(self.nearest(shapes, ray).shape.unwrap()),
            forall|j: usize|
                #![trigger self.holds(j)]
                self.holds(j) && shapes[j as int].meets(ray) is Some ==> {
                    &&& self.nearest(shapes, ray).hit
                    &&& self.nearest(shapes, ray).t@ <= shapes[j as int].meets(ray).unwrap()@
                },
        decreases self,
    {
        if self.bbox.admits(ray) {
            lemma_child_nearest(self.left, shapes, ray);
            lemma_child_nearest(self.right, shapes, ray);
            assert forall|j: usize|
                #![trigger self.holds(j)]
                self.holds(j) && shapes[j as int].meets(ray) is Some implies {
                &&& self.nearest(shapes, ray).hit
                &&& self.nearest(shapes, ray).t@ <= shapes[j as int].meets(ray).unwrap()@
            } by {
                assert(child_holds(self.left, j) || child_holds(self.right, j));
            }
        } else {
            assert forall|j: usize|
                #![trigger self.holds(j)]
                self.holds(j) implies shapes[j as int].meets(ray) is None by {
                self.lemma_box_holds_shapes(shapes, j);
                shapes[j as int].lemma_meets_admitted(ray);
                if shapes[j as int].meets(ray) is Some {
                    shapes[j as int].spec_extents().lemma_admits_grows(&self.bbox, ray);
                }
            }
        }
    }

    /// What a query reports is no intersection, or names a shape of the
    /// scene that the ray meets at the reported parameter, strictly between
    /// the two bounds.
    pub proof fn lemma_reports(&self, shapes: Seq<Shape>, ray: Ray)
        requires
            self.wf(shapes),
        ensures
            reports(self.nearest(shapes, ray), shapes, ray),
            self.nearest(shapes, ray).wf(),
        decreases self,
    {
        lemma_child_reports(self.left, shapes, ray);
        lemma_child_reports(self.right, shapes, ray);
    }

    /// A tree that construction gives is well formed, and the shapes below
    /// it are exactly those at the places it was built from.
    pub proof fn lemma_built_from(&self, shapes: Seq<Shape>, indices: Seq<usize>, axis: Axis)
        requires
            self.built_from(shapes, indices, axis),
            forall|k: int| 0 <= k < indices.len() ==> indices[k] < shapes.len(),
        ensures
            self.wf(shapes),
            forall|j: usize| #![trigger self.holds(j)] self.holds(j) <==> indices.contains(j),
        decreases self,
    {
        if indices.len() == 0 {
        } else if indices.len() == 1 {
            assert forall|j: usize| #![trigger self.holds(j)] self.holds(j) <==> indices.contains(
                j,
            ) by {
                if j == indices[0] {
                    assert(indices.contains(j));
                }
            }
        } else if indices.len() == 2 {
            assert forall|j: usize| #![trigger self.holds(j)] self.holds(j) <==> indices.contains(
                j,
            ) by {
                if j == indices[0] || j == indices[1] {
                    assert(indices.contains(j));
                }
            }
        } else {
            let (l, r) = split(shapes, indices, axis);
            let ln = self.left->Some_0->Node_0;
            let rn = self.right->Some_0->Node_0;
            assert forall|k: int| 0 <= k < l.len() implies l[k] < shapes.len() by {
                assert(l.contains(l[k]));
                lemma_split_covers(shapes, indices, axis, l[k]);
            }
            assert forall|k: int| 0 <= k < r.len() implies r[k] < shapes.len() by {
                assert(r.contains(r[k]));
                lemma_split_covers(shapes, indices, axis, r[k]);
            }
            ln.lemma_built_from(shapes, l, axis.next());
            rn.lemma_built_from(shapes, r, axis.next());
            assert forall|j: usize| #![trigger self.holds(j)] self.holds(j) <==> indices.contains(
                j,
            ) by {
                lemma_split_covers(shapes, indices, axis, j);
                assert(ln.holds(j) <==> l.contains(j));
                assert(rn.holds(j) <==> r.contains(j));
            }
        }
    }
}

/// What a scan of the first `n` shapes reports is an intersection with one
/// of them, and none of them is met nearer.
pub proof fn lemma_scan(shapes: Seq<Shape>, ray: Ray, n: nat)
    requires
        n <= shapes.len() <= usize::MAX,
    ensures
        reports(scan(shapes, ray, n), shapes, ray),
        scan(shapes, ray, n).hit ==> scan(shapes, ray, n).shape.unwrap() < n,
        forall|j: int|
            0 <= j < n && (#[trigger] shapes[j].meets(ray)) is Some ==> {
                &&& scan(shapes, ray, n).hit
                &&& scan(shapes, ray, n).t@ <= shapes[j].meets(ray).unwrap()@
            },
    decreases n,
{
    if n > 0 {
        lemma_scan(shapes, ray, (n - 1) as nat);
    }
}

/// A query of the hierarchy built over a scene's shapes and a scan of those
/// shapes agree for every ray: on whether the ray meets a shape, and on the
/// parameter of the nearest intersection. Each names a shape that the ray
/// meets at that parameter; where only one shape is met there, both name it.
pub proof fn lemma_hierarchy_matches_scan(
    node: BVHNode,
    shapes: Seq<Shape>,
    axis: Axis,
    ray: Ray,
)
    requires
        shapes.len() <= usize::MAX,
        node.built_from(shapes, all_places(shapes.len()), axis),
    ensures
        node.nearest(shapes, ray).hit == scan(shapes, ray, shapes.len()).hit,
        node.nearest(shapes, ray).t == scan(shapes, ray, shapes.len()).t,
        node.nearest(shapes, ray).ray == scan(shapes, ray, shapes.len()).ray,
        reports(node.nearest(shapes, ray), shapes, ray),
        reports(scan(shapes, ray, shapes.len()), shapes, ray),
        (forall|j: int|
            0 <= j < shapes.len() && j != scan(shapes, ray, shapes.len()).shape.unwrap()
                ==> #[trigger] shapes[j].meets(ray) != Some(scan(shapes, ray, shapes.len()).t))
            ==> node.nearest(shapes, ray) == scan(shapes, ray, shapes.len()),
{
    let places: Seq<usize> = all_places(shapes.len());
    let h: Hit = node.nearest(shapes, ray);
    let s: Hit = scan(shapes, ray, shapes.len());
    node.lemma_built_from(shapes, places, axis);
    node.lemma_nearest(shapes, ray);
    lemma_scan(shapes, ray, shapes.len());
    if h.hit {
        let i: usize = h.shape.unwrap();
        assert(shapes[i as int].meets(ray) is Some);
    }
    if s.hit {
        let i: usize = s.shape.unwrap();
        assert(places[i as int] == i);
        assert(places.contains(i));
        assert(node.holds(i));
    }
}

} // verus!
