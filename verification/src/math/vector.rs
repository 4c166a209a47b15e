//! Points and directions in space.
use crate::math::scalar::{
    divide, int_sqrt, is_floor_root, lemma_product_bound, narrow, quotient, scalar_of, wide_root,
    Scalar, SCALE,
};
use vstd::prelude::*;

verus! {

/// The size that the largest coordinate of a vector is brought to, at least,
/// before the vector's length is taken: two to the fortieth.
pub const LIFT_TO: i128 = 0x100_0000_0000;

/// The size of a number.
pub open spec fn size(x: int) -> int {
    if x < 0 {
        -x
    } else {
        x
    }
}

/// The power of two that brings a size `m` to `LIFT_TO` or above; one for a
/// size that is there, and for zero.
pub open spec fn lift(m: int) -> int
    decreases
            (if m >= 0x100_0000_0000 {
                0
            } else {
                0x100_0000_0000 - m
            }),
{
    if m <= 0 || m >= 0x100_0000_0000 {
        1
    } else {
        2 * lift(2 * m)
    }
}

fn lift_of(m: i128) -> (k: i128)
    requires
        0 < m <= 0x8000_0000_0000_0000,
    ensures
        k == lift(m as int),
        1 <= k < 2 * LIFT_TO,
        m >= LIFT_TO ==> k == 1,
        LIFT_TO <= m * k,
        m < LIFT_TO ==> m * k < 2 * LIFT_TO,
{
    let mut k: i128 = 1;
    let mut lifted: i128 = m;
    while lifted < LIFT_TO
        invariant
            0 < m <= 0x8000_0000_0000_0000,
            1 <= k <= lifted,
            lifted == m * k,
            lift(m as int) == k * lift(lifted as int),
            m >= LIFT_TO ==> k == 1,
            k > 1 ==> lifted < 2 * LIFT_TO,
            LIFT_TO == 0x100_0000_0000,
        decreases
                (if lifted >= LIFT_TO {
                    0
                } else {
                    LIFT_TO - lifted
                }),
    {
        proof {
            assert(lift(lifted as int) == 2 * lift(2 * lifted));
            assert(k * (2 * lift(2 * lifted)) == (k * 2) * lift(2 * lifted)) by (nonlinear_arith);
            assert(m * (k * 2) == (m * k) * 2) by (nonlinear_arith);
        }
        lifted = lifted * 2;
        k = k * 2;
    }
    proof {
        assert(k * 1 == k) by (nonlinear_arith);
    }
    k
}

fn magnitude_of(x: i64) -> (r: i128)
    ensures
        r == size(x as int),
{
    if x < 0 {
        -(x as i128)
    } else {
        x as i128
    }
}

/// A point or a direction: three fixed-point coordinates.
#[derive(Clone, Copy, Debug, PartialEq, Eq, Structural)]
pub struct Vector {
    pub x: Scalar,
    pub y: Scalar,
    pub z: Scalar,
}

impl Vector {
    pub open spec fn spec_new() -> Vector {
        Vector { x: Scalar::zero(), y: Scalar::zero(), z: Scalar::zero() }
    }

    /// The origin.
    #[verifier::when_used_as_spec(spec_new)]
    pub fn new() -> (r: Vector)
        ensures
            r == Vector::spec_new(),
    {
        Vector { x: Scalar::zero(), y: Scalar::zero(), z: Scalar::zero() }
    }

    pub open spec fn spec_dot(&self, other: &Vector) -> Scalar {
        self.x.mul(other.x).add(self.y.mul(other.y)).add(self.z.mul(other.z))
    }

    /// The inner product: the three products summed from the left.
    #[verifier::when_used_as_spec(spec_dot)]
    pub fn dot(&self, other: &Vector) -> (r: Scalar)
        ensures
            r == self.spec_dot(other),
    {
        self.x.mul(other.x).add(self.y.mul(other.y)).add(self.z.mul(other.z))
    }

    pub open spec fn spec_magnitude(&self) -> Scalar {
        self.spec_dot(self).sqrt()
    }

    /// The length: the root of the vector's inner product with itself.
    #[verifier::when_used_as_spec(spec_magnitude)]
    pub fn magnitude(&self) -> (r: Scalar)
        ensures
            r == self.spec_magnitude(),
    {
        self.dot(self).sqrt()
    }

    /// The size of the largest coordinate.
    pub open spec fn largest(&self) -> int {
        let x: int = size(self.x@);
        let y: int = size(self.y@);
        let z: int = size(self.z@);
        if x >= y && x >= z {
            x
        } else if y >= z {
            y
        } else {
            z
        }
    }

    /// The sum of the squares of the coordinates, each multiplied by `k`.
    pub open spec fn lifted_square(&self, k: int) -> int {
        (self.x@ * k) * (self.x@ * k) + (self.y@ * k) * (self.y@ * k) + (self.z@ * k) * (self.z@
            * k)
    }

    /// The vector of length one in the direction of `self`, and the origin
    /// for the origin. The coordinates are first multiplied by a power of two
    /// that makes the largest of them large, so that a short vector keeps its
    /// direction; the length is the root of the sum of their squares, taken
    /// without rounding the squares; each coordinate is then divided by it.
    #[verifier::opaque]
    pub open spec fn spec_normalized(&self) -> Vector {
        let k: int = lift(self.largest());
        let len: int = int_sqrt(self.lifted_square(k));
        Vector {
            x: scalar_of(quotient(self.x@ * k * SCALE, len)),
            y: scalar_of(quotient(self.y@ * k * SCALE, len)),
            z: scalar_of(quotient(self.z@ * k * SCALE, len)),
        }
    }

    /// The vector of length one in the direction of `self`; the origin for
    /// the origin.
    #[verifier::when_used_as_spec(spec_normalized)]
    pub fn normalized(&self) -> (r: Vector)
        ensures
            r == self.spec_normalized(),
    {
        reveal(Vector::spec_normalized);
        let ax: i128 = magnitude_of(self.x.raw);
        let ay: i128 = magnitude_of(self.y.raw);
        let az: i128 = magnitude_of(self.z.raw);
        let m: i128 = if ax >= ay && ax >= az {
            ax
        } else if ay >= az {
            ay
        } else {
            az
        };
        if m == 0 {
            proof {
                assert(self.lifted_square(1) == 0) by (nonlinear_arith)
                    requires
                        self.x@ == 0,
                        self.y@ == 0,
                        self.z@ == 0,
                        self.lifted_square(1) == (self.x@ * 1) * (self.x@ * 1) + (self.y@ * 1) * (
                        self.y@ * 1) + (self.z@ * 1) * (self.z@ * 1),
                ;
            }
            return Vector::new();
        }
        let k: i128 = lift_of(m);
        proof {
            lemma_product_bound(self.x@, k as int, m as int, k as int);
            lemma_product_bound(self.y@, k as int, m as int, k as int);
            lemma_product_bound(self.z@, k as int, m as int, k as int);
            assert(m * k <= 0x8000_0000_0000_0000) by (nonlinear_arith)
                requires
                    0 < m <= 0x8000_0000_0000_0000,
                    k >= 1,
                    k == 1 || m * k < 2 * LIFT_TO,
                    LIFT_TO == 0x100_0000_0000,
            ;
        }
        let x: i128 = (self.x.raw as i128) * k;
        let y: i128 = (self.y.raw as i128) * k;
        let z: i128 = (self.z.raw as i128) * k;
        proof {
            lemma_product_bound(x as int, x as int, 0x8000_0000_0000_0000, 0x8000_0000_0000_0000);
            lemma_product_bound(y as int, y as int, 0x8000_0000_0000_0000, 0x8000_0000_0000_0000);
            lemma_product_bound(z as int, z as int, 0x8000_0000_0000_0000, 0x8000_0000_0000_0000);
            assert(x * x >= 0 && y * y >= 0 && z * z >= 0) by (nonlinear_arith);
            lemma_product_bound(x as int, SCALE as int, 0x8000_0000_0000_0000, 1_000_000);
            lemma_product_bound(y as int, SCALE as int, 0x8000_0000_0000_0000, 1_000_000);
            lemma_product_bound(z as int, SCALE as int, 0x8000_0000_0000_0000, 1_000_000);
        }
        let n: u128 = (x * x) as u128 + (y * y) as u128 + (z * z) as u128;
        let len: u128 = wide_root(n);
        proof {
            assert(n == self.lifted_square(k as int));
            self.lemma_lifted_root(k as int);
            assert(is_floor_root(n as int, len as int));
            assert(x != 0 || y != 0 || z != 0) by (nonlinear_arith)
                requires
                    x == self.x@ * k,
                    y == self.y@ * k,
                    z == self.z@ * k,
                    k >= 1,
                    self.x@ != 0 || self.y@ != 0 || self.z@ != 0,
            ;
            assert(n >= 1) by (nonlinear_arith)
                requires
                    n == x * x + y * y + z * z,
                    x != 0 || y != 0 || z != 0,
            ;
            assert(len >= 1) by (nonlinear_arith)
                requires
                    n >= 1,
                    len >= 0,
                    n < (len + 1) * (len + 1),
            ;
        }
        let by: i128 = len as i128;
        Vector {
            x: narrow(divide(x * (SCALE as i128), by)),
            y: narrow(divide(y * (SCALE as i128), by)),
            z: narrow(divide(z * (SCALE as i128), by)),
        }
    }

    /// The root of the sum of the lifted squares is its largest root.
    pub proof fn lemma_lifted_root(&self, k: int)
        ensures
            is_floor_root(self.lifted_square(k), int_sqrt(self.lifted_square(k))),
    {
        let n: int = self.lifted_square(k);
        assert(n >= 0) by (nonlinear_arith)
            requires
                n == (self.x@ * k) * (self.x@ * k) + (self.y@ * k) * (self.y@ * k) + (self.z@ * k)
                    * (self.z@ * k),
        ;
        if n == 0 {
            assert(is_floor_root(0, 0));
        } else {
            crate::math::scalar::lemma_root_exists(n);
        }
    }

    /// Divides the vector by its length, in place.
    pub fn normalize(&mut self)
        ensures
            *final(self) == old(self).spec_normalized(),
    {
        let unit: Vector = self.normalized();
        *self = unit;
    }

    pub open spec fn spec_cross(&self, other: &Vector) -> Vector {
        Vector {
            x: self.y.mul(other.z).sub(other.y.mul(self.z)),
            y: self.z.mul(other.x).sub(other.z.mul(self.x)),
            z: self.x.mul(other.y).sub(other.x.mul(self.y)),
        }
    }

    /// The vector product.
    #[verifier::when_used_as_spec(spec_cross)]
    pub fn cross(&self, other: &Vector) -> (r: Vector)
        ensures
            r == self.spec_cross(other),
    {
        let x: Scalar = self.y.mul(other.z).sub(other.y.mul(self.z));
        let y: Scalar = self.z.mul(other.x).sub(other.z.mul(self.x));
        let z: Scalar = self.x.mul(other.y).sub(other.x.mul(self.y));
        Vector { x, y, z }
    }

    pub open spec fn spec_reflect(&self, other: &Vector) -> Vector {
        self.spec_sub(other.spec_mul(Scalar::from_int(2)).spec_mul(self.spec_dot(other)))
    }

    /// The direction in which an incoming direction `self` leaves a surface
    /// with the normal `other`: `self` less twice its part along `other`. The
    /// part along the normal is reversed, the part across it is kept.
    #[verifier::when_used_as_spec(spec_reflect)]
    pub fn reflect(&self, other: &Vector) -> (r: Vector)
        ensures
            r == self.spec_reflect(other),
    {
        self.sub(other.mul(Scalar::from_int(2)).mul(self.dot(other)))
    }

    pub open spec fn spec_add(self, rhs: Vector) -> Vector {
        Vector { x: self.x.add(rhs.x), y: self.y.add(rhs.y), z: self.z.add(rhs.z) }
    }

    /// The sum, coordinate by coordinate.
    #[verifier::when_used_as_spec(spec_add)]
    pub fn add(self, rhs: Vector) -> (r: Vector)
        ensures
            r == self.spec_add(rhs),
    {
        Vector { x: self.x.add(rhs.x), y: self.y.add(rhs.y), z: self.z.add(rhs.z) }
    }

    /// Adds `other` in place.
    pub fn add_assign(&mut self, other: Vector)
        ensures
            *final(self) == old(self).spec_add(other),
    {
        *self = self.add(other);
    }

    pub open spec fn spec_sub(self, rhs: Vector) -> Vector {
        Vector { x: self.x.sub(rhs.x), y: self.y.sub(rhs.y), z: self.z.sub(rhs.z) }
    }

    /// The difference, coordinate by coordinate.
    #[verifier::when_used_as_spec(spec_sub)]
    pub fn sub(self, rhs: Vector) -> (r: Vector)
        ensures
            r == self.spec_sub(rhs),
    {
        Vector { x: self.x.sub(rhs.x), y: self.y.sub(rhs.y), z: self.z.sub(rhs.z) }
    }

    /// Subtracts `other` in place.
    pub fn sub_assign(&mut self, other: Vector)
        ensures
            *final(self) == old(self).spec_sub(other),
    {
        *self = self.sub(other);
    }

    pub open spec fn spec_neg(self) -> Vector {
        Vector { x: self.x.neg(), y: self.y.neg(), z: self.z.neg() }
    }

    /// The opposite vector.
    #[verifier::when_used_as_spec(spec_neg)]
    pub fn neg(self) -> (r: Vector)
        ensures
            r == self.spec_neg(),
    {
        Vector { x: self.x.neg(), y: self.y.neg(), z: self.z.neg() }
    }

    pub open spec fn spec_mul(self, rhs: Scalar) -> Vector {
        Vector { x: self.x.mul(rhs), y: self.y.mul(rhs), z: self.z.mul(rhs) }
    }

    /// The vector scaled by `rhs`.
    #[verifier::when_used_as_spec(spec_mul)]
    pub fn mul(self, rhs: Scalar) -> (r: Vector)
        ensures
            r == self.spec_mul(rhs),
    {
        Vector { x: self.x.mul(rhs), y: self.y.mul(rhs), z: self.z.mul(rhs) }
    }

    /// Scales by `other` in place.
    pub fn mul_assign(&mut self, other: Scalar)
        ensures
            *final(self) == old(self).spec_mul(other),
    {
        *self = self.mul(other);
    }

    pub open spec fn spec_div(self, rhs: Scalar) -> Vector {
        Vector { x: self.x.div(rhs), y: self.y.div(rhs), z: self.z.div(rhs) }
    }

    /// The vector divided by `rhs`; the origin where `rhs` is zero.
    #[verifier::when_used_as_spec(spec_div)]
    pub fn div(self, rhs: Scalar) -> (r: Vector)
        ensures
            r == self.spec_div(rhs),
    {
        Vector { x: self.x.div(rhs), y: self.y.div(rhs), z: self.z.div(rhs) }
    }

    /// Divides by `other` in place.
    pub fn div_assign(&mut self, other: Scalar)
        ensures
            *final(self) == old(self).spec_div(other),
    {
        *self = self.div(other);
    }
}

impl Vector {
    /// Whether the sum with `rhs` is held without saturation in every coordinate.
    pub open spec fn sum_fits(self, rhs: Vector) -> bool {
        self.x.sum_fits(rhs.x) && self.y.sum_fits(rhs.y) && self.z.sum_fits(rhs.z)
    }

    /// Whether the product with `s` is held as it is in every coordinate.
    pub open spec fn product_exact(self, s: Scalar) -> bool {
        self.x.product_exact(s) && self.y.product_exact(s) && self.z.product_exact(s)
    }

    /// `(a + b) - b == a`, wherever the sum is held without saturation.
    pub proof fn lemma_add_sub(self, b: Vector)
        requires
            self.sum_fits(b),
        ensures
            self.add(b).sub(b) == self,
    {
        self.x.lemma_add_sub(b.x);
        self.y.lemma_add_sub(b.y);
        self.z.lemma_add_sub(b.z);
    }

    /// `(a * s) / s == a` for a nonzero `s`, wherever the product is held as
    /// it is.
    pub proof fn lemma_mul_div(self, s: Scalar)
        requires
            s@ != 0,
            self.product_exact(s),
        ensures
            self.mul(s).div(s) == self,
    {
        self.x.lemma_mul_div(s);
        self.y.lemma_mul_div(s);
        self.z.lemma_mul_div(s);
    }

    /// Whether the vector is one of the six unit vectors along an axis.
    pub open spec fn is_axis_unit(self) -> bool {
        let one: int = Scalar::one()@;
        ||| (self.x@ == one || self.x@ == -one) && self.y@ == 0 && self.z@ == 0
        ||| self.x@ == 0 && (self.y@ == one || self.y@ == -one) && self.z@ == 0
        ||| self.x@ == 0 && self.y@ == 0 && (self.z@ == one || self.z@ == -one)
    }

    /// Whether twice each coordinate is held without saturation.
    pub open spec fn doubles(self) -> bool {
        &&& i64::MIN < 2 * self.x@ <= i64::MAX
        &&& i64::MIN < 2 * self.y@ <= i64::MAX
        &&& i64::MIN < 2 * self.z@ <= i64::MAX
    }

    /// The law of reflection about a normal along an axis: the direction
    /// that leaves has with the normal the opposite inner product of the
    /// incoming direction, and the same length.
    pub proof fn lemma_reflect_about_axis(self, n: Vector)
        requires
            n.is_axis_unit(),
            self.doubles(),
        ensures
            self.reflect(&n).dot(&n) == self.dot(&n).neg(),
            self.reflect(&n).magnitude() == self.magnitude(),
    {
        let two: Scalar = Scalar::from_int(2);
        let one: Scalar = Scalar::one();
        let r: Vector = self.reflect(&n);
        let d: Scalar = self.dot(&n);
        let n2: Vector = n.mul(two);
        self.x.lemma_mul_one();
        self.y.lemma_mul_one();
        self.z.lemma_mul_one();
        two.lemma_mul_one();
        one.neg().lemma_mul_commutes(two);
        d.lemma_mul_one();
        lemma_scale_by_two(d);
        assert(two.neg().mul(d)@ == crate::math::scalar::saturate(-2 * d@));
        assert(two.neg()@ == -2_000_000);
        if n.x@ != 0 {
            assert(n.y == Scalar::zero() && n.z == Scalar::zero());
            assert(n.x == one || n.x == one.neg());
            assert(d@ == self.x@ || d@ == -self.x@);
            assert(n2.y@ == 0 && n2.z@ == 0);
            assert(n2.x == two || n2.x == two.neg());
            assert(n2.x.mul(d)@ == 2 * self.x@);
            assert(r.x == self.x.neg() && r.y == self.y && r.z == self.z);
        } else if n.y@ != 0 {
            assert(n.x == Scalar::zero() && n.z == Scalar::zero());
            assert(n.y == one || n.y == one.neg());
            assert(d@ == self.y@ || d@ == -self.y@);
            assert(n2.x@ == 0 && n2.z@ == 0);
            assert(n2.y == two || n2.y == two.neg());
            assert(n2.y.mul(d)@ == 2 * self.y@);
            assert(r.x == self.x && r.y == self.y.neg() && r.z == self.z);
        } else {
            assert(n.x == Scalar::zero() && n.y == Scalar::zero());
            assert(n.z == one || n.z == one.neg());
            assert(d@ == self.z@ || d@ == -self.z@);
            assert(n2.x@ == 0 && n2.y@ == 0);
            assert(n2.z == two || n2.z == two.neg());
            assert(n2.z.mul(d)@ == 2 * self.z@);
            assert(r.x == self.x && r.y == self.y && r.z == self.z.neg());
        }
        self.x.neg().lemma_mul_one();
        self.y.neg().lemma_mul_one();
        self.z.neg().lemma_mul_one();
        r.x.lemma_mul_one();
        r.y.lemma_mul_one();
        r.z.lemma_mul_one();
        lemma_square_of_opposite(self.x);
        lemma_square_of_opposite(self.y);
        lemma_square_of_opposite(self.z);
    }
}

/// Both sides of `b s = 2 n p` multiplied by `m`.
proof fn lemma_scaled_product(b: int, s: int, n: int, p: int, m: int)
    requires
        b * s == 2 * n * p,
    ensures
        (b * m) * s == 2 * p * (n * m),
{
    assert((b * m) * s == (b * s) * m) by (nonlinear_arith);
    assert((2 * n * p) * m == 2 * p * (n * m)) by (nonlinear_arith);
}

/// A sum of three terms times a factor is the sum of the terms times it.
proof fn lemma_sum_times(x: int, y: int, z: int, k: int)
    ensures
        (x + y + z) * k == x * k + y * k + z * k,
        k * (x + y + z) == k * x + k * y + k * z,
{
    assert((x + y + z) * k == x * k + y * k + z * k) by (nonlinear_arith);
    assert(k * (x + y + z) == k * x + k * y + k * z) by (nonlinear_arith);
}

/// The algebra behind the law of reflection, on whole numbers: for a normal
/// `n` of length `s`, a vector `d` with `p s = d . n`, and `b = 2 p n / s`,
/// the vector `r = b - d` has `r . n = p s` and `r . r = d . d`.
proof fn lemma_mirror_algebra(
    s: int,
    p: int,
    n1: int,
    n2: int,
    n3: int,
    d1: int,
    d2: int,
    d3: int,
    b1: int,
    b2: int,
    b3: int,
)
    requires
        s > 0,
        n1 * n1 + n2 * n2 + n3 * n3 == s * s,
        p * s == d1 * n1 + d2 * n2 + d3 * n3,
        b1 * s == 2 * n1 * p,
        b2 * s == 2 * n2 * p,
        b3 * s == 2 * n3 * p,
    ensures
        (b1 - d1) * n1 + (b2 - d2) * n2 + (b3 - d3) * n3 == p * s,
        (b1 - d1) * (b1 - d1) + (b2 - d2) * (b2 - d2) + (b3 - d3) * (b3 - d3) == d1 * d1 + d2 * d2
            + d3 * d3,
{
    let dn: int = d1 * n1 + d2 * n2 + d3 * n3;
    let nn: int = n1 * n1 + n2 * n2 + n3 * n3;
    let bn: int = b1 * n1 + b2 * n2 + b3 * n3;
    let bb: int = b1 * b1 + b2 * b2 + b3 * b3;
    let bd: int = b1 * d1 + b2 * d2 + b3 * d3;
    // b . n = 2 p s
    lemma_scaled_product(b1, s, n1, p, n1);
    lemma_scaled_product(b2, s, n2, p, n2);
    lemma_scaled_product(b3, s, n3, p, n3);
    lemma_sum_times(b1 * n1, b2 * n2, b3 * n3, s);
    lemma_sum_times(n1 * n1, n2 * n2, n3 * n3, 2 * p);
    assert(bn * s == 2 * p * nn);
    assert(bn == 2 * p * s) by (nonlinear_arith)
        requires
            bn * s == 2 * p * nn,
            nn == s * s,
            s > 0,
    ;
    // b . d = 2 p p
    lemma_scaled_product(b1, s, n1, p, d1);
    lemma_scaled_product(b2, s, n2, p, d2);
    lemma_scaled_product(b3, s, n3, p, d3);
    lemma_sum_times(b1 * d1, b2 * d2, b3 * d3, s);
    lemma_sum_times(n1 * d1, n2 * d2, n3 * d3, 2 * p);
    assert(n1 * d1 == d1 * n1 && n2 * d2 == d2 * n2 && n3 * d3 == d3 * n3) by (nonlinear_arith);
    assert(bd * s == 2 * p * dn);
    assert(bd == 2 * p * p) by (nonlinear_arith)
        requires
            bd * s == 2 * p * dn,
            dn == p * s,
            s > 0,
    ;
    // b . b = 4 p p
    lemma_scaled_product(b1, s, n1, p, b1);
    lemma_scaled_product(b2, s, n2, p, b2);
    lemma_scaled_product(b3, s, n3, p, b3);
    lemma_sum_times(b1 * b1, b2 * b2, b3 * b3, s);
    lemma_sum_times(n1 * b1, n2 * b2, n3 * b3, 2 * p);
    assert(n1 * b1 == b1 * n1 && n2 * b2 == b2 * n2 && n3 * b3 == b3 * n3) by (nonlinear_arith);
    assert(bb * s == 2 * p * bn);
    assert(bb == 4 * p * p) by (nonlinear_arith)
        requires
            bb * s == 2 * p * bn,
            bn == 2 * p * s,
            s > 0,
    ;
    assert((b1 - d1) * n1 + (b2 - d2) * n2 + (b3 - d3) * n3 == bn - dn) by (nonlinear_arith)
        requires
            bn == b1 * n1 + b2 * n2 + b3 * n3,
            dn == d1 * n1 + d2 * n2 + d3 * n3,
    ;
    assert((b1 - d1) * (b1 - d1) + (b2 - d2) * (b2 - d2) + (b3 - d3) * (b3 - d3) == bb - 2 * bd
        + (d1 * d1 + d2 * d2 + d3 * d3)) by (nonlinear_arith)
        requires
            bb == b1 * b1 + b2 * b2 + b3 * b3,
            bd == b1 * d1 + b2 * d2 + b3 * d3,
    ;
    assert(2 * p * s - p * s == p * s) by (nonlinear_arith);
    assert(4 * p * p - 2 * (2 * p * p) == 0) by (nonlinear_arith);
}

impl Vector {
    /// Whether the inner product with `other` is held as it is: each of the
    /// three products is, and neither sum saturates.
    pub open spec fn dot_exact(&self, other: &Vector) -> bool {
        &&& self.x.product_exact(other.x)
        &&& self.y.product_exact(other.y)
        &&& self.z.product_exact(other.z)
        &&& self.x.mul(other.x).sum_fits(self.y.mul(other.y))
        &&& self.x.mul(other.x).add(self.y.mul(other.y)).sum_fits(self.z.mul(other.z))
    }

    /// An inner product that is held as it is, times the scale, is the sum
    /// of the products of the raw coordinates.
    pub proof fn lemma_dot_exact(&self, other: &Vector)
        requires
            self.dot_exact(other),
        ensures
            self.dot(other)@ * crate::math::scalar::SCALE == self.x@ * other.x@ + self.y@
                * other.y@ + self.z@ * other.z@,
    {
        self.x.lemma_mul_exact(other.x);
        self.y.lemma_mul_exact(other.y);
        self.z.lemma_mul_exact(other.z);
        let a: int = self.x.mul(other.x)@;
        let b: int = self.y.mul(other.y)@;
        let c: int = self.z.mul(other.z)@;
        let s: int = crate::math::scalar::SCALE as int;
        assert((a + b + c) * s == a * s + b * s + c * s) by (nonlinear_arith);
    }

    /// Whether every step of the reflection of `self` at a surface with the
    /// normal `n` is held as it is: `n` has length one; the inner products of
    /// `self` and of the result with `n` and with themselves, and the scaling
    /// of twice `n`, are held as they are; and neither the doubling of `n`
    /// nor the final difference saturates.
    pub open spec fn reflects_exactly(&self, n: &Vector) -> bool {
        let along: Vector = n.mul(Scalar::from_int(2)).mul(self.dot(n));
        &&& n.dot_exact(n)
        &&& n.dot(n) == Scalar::one()
        &&& self.dot_exact(n)
        &&& self.dot_exact(self)
        &&& n.doubles()
        &&& n.mul(Scalar::from_int(2)).product_exact(self.dot(n))
        &&& self.x.difference_fits(along.x)
        &&& self.y.difference_fits(along.y)
        &&& self.z.difference_fits(along.z)
        &&& self.reflect(n).dot_exact(n)
        &&& self.reflect(n).dot_exact(&self.reflect(n))
    }

    /// The law of reflection: the direction in which an incoming direction
    /// leaves a surface with a unit normal has with the normal the opposite
    /// inner product, and the same length. This is proved wherever no step
    /// of the computation is rounded or saturated.
    pub proof fn lemma_reflect_exact(&self, n: &Vector)
        requires
            self.reflects_exactly(n),
        ensures
            self.reflect(n).dot(n) == self.dot(n).neg(),
            self.reflect(n).dot(&self.reflect(n)) == self.dot(self),
            self.reflect(n).magnitude() == self.magnitude(),
    {
        let s: int = crate::math::scalar::SCALE as int;
        let two: Scalar = Scalar::from_int(2);
        let p: Scalar = self.dot(n);
        let n2: Vector = n.mul(two);
        let along: Vector = n2.mul(p);
        let r: Vector = self.reflect(n);
        n.lemma_dot_exact(n);
        self.lemma_dot_exact(n);
        self.lemma_dot_exact(self);
        r.lemma_dot_exact(n);
        r.lemma_dot_exact(&r);
        lemma_scale_by_two(n.x);
        lemma_scale_by_two(n.y);
        lemma_scale_by_two(n.z);
        two.lemma_mul_commutes(n.x);
        two.lemma_mul_commutes(n.y);
        two.lemma_mul_commutes(n.z);
        assert(n2.x@ == 2 * n.x@ && n2.y@ == 2 * n.y@ && n2.z@ == 2 * n.z@);
        n2.x.lemma_mul_exact(p);
        n2.y.lemma_mul_exact(p);
        n2.z.lemma_mul_exact(p);
        assert(along.x@ * s == 2 * n.x@ * p@ && along.y@ * s == 2 * n.y@ * p@ && along.z@ * s == 2
            * n.z@ * p@) by (nonlinear_arith)
            requires
                along.x@ * s == n2.x@ * p@,
                along.y@ * s == n2.y@ * p@,
                along.z@ * s == n2.z@ * p@,
                n2.x@ == 2 * n.x@,
                n2.y@ == 2 * n.y@,
                n2.z@ == 2 * n.z@,
        ;
        assert(r.x@ == self.x@ - along.x@ && r.y@ == self.y@ - along.y@ && r.z@ == self.z@
            - along.z@);
        assert(n.dot(n)@ * s == s * s);
        lemma_mirror_algebra(
            s,
            p@,
            n.x@,
            n.y@,
            n.z@,
            self.x@,
            self.y@,
            self.z@,
            along.x@,
            along.y@,
            along.z@,
        );
        let bx: int = along.x@ - self.x@;
        let by: int = along.y@ - self.y@;
        let bz: int = along.z@ - self.z@;
        assert(r.x@ * n.x@ + r.y@ * n.y@ + r.z@ * n.z@ == -(bx * n.x@ + by * n.y@ + bz * n.z@))
            by (nonlinear_arith)
            requires
                r.x@ == -bx,
                r.y@ == -by,
                r.z@ == -bz,
        ;
        assert(r.x@ * r.x@ + r.y@ * r.y@ + r.z@ * r.z@ == bx * bx + by * by + bz * bz)
            by (nonlinear_arith)
            requires
                r.x@ == -bx,
                r.y@ == -by,
                r.z@ == -bz,
        ;
        assert(r.dot(n)@ == -p@) by (nonlinear_arith)
            requires
                r.dot(n)@ * s == -(p@ * s),
                s > 0,
        ;
        assert(r.dot(&r)@ == self.dot(self)@) by (nonlinear_arith)
            requires
                r.dot(&r)@ * s == self.dot(self)@ * s,
                s > 0,
        ;
    }
}

/// The power that lifts a size is at least one, and brings it to `LIFT_TO`
/// or above.
pub proof fn lemma_lift(m: int)
    requires
        m >= 1,
    ensures
        lift(m) >= 1,
        m * lift(m) >= 0x100_0000_0000,
    decreases
            (if m >= 0x100_0000_0000 {
                0
            } else {
                0x100_0000_0000 - m
            }),
{
    if m < 0x100_0000_0000 {
        lemma_lift(2 * m);
        assert(m * (2 * lift(2 * m)) == (2 * m) * lift(2 * m)) by (nonlinear_arith);
    } else {
        assert(m * 1 == m) by (nonlinear_arith);
    }
}

/// Of two numbers that are not negative, the larger has the larger square.
proof fn lemma_squares(a: int, b: int)
    requires
        0 <= a,
    ensures
        a <= b ==> a * a <= b * b,
        a < b ==> a * a < b * b,
{
    assert(a <= b ==> a * a <= b * b) by (nonlinear_arith)
        requires
            0 <= a,
    ;
    assert(a < b ==> a * a < b * b) by (nonlinear_arith)
        requires
            0 <= a,
    ;
}

/// The algebra behind the length of a normalized vector, on whole numbers:
/// sizes `a` whose squares add up to between the squares of `l` and of
/// `l + 1`, each divided by `l` with the scale `s` and rounded down to `u`,
/// give squares of `u` that add up to the square of `s`, within `6 s + 3`
/// below and 2 above.
proof fn lemma_unit_algebra(s: int, l: int, a1: int, a2: int, a3: int, u1: int, u2: int, u3: int)
    requires
        s > 0,
        l > s * s,
        0 <= a1 && 0 <= a2 && 0 <= a3,
        0 <= u1 <= s && 0 <= u2 <= s && 0 <= u3 <= s,
        u1 * l <= a1 * s < (u1 + 1) * l,
        u2 * l <= a2 * s < (u2 + 1) * l,
        u3 * l <= a3 * s < (u3 + 1) * l,
        l * l <= a1 * a1 + a2 * a2 + a3 * a3 < (l + 1) * (l + 1),
    ensures
        s * s - 6 * s - 3 < u1 * u1 + u2 * u2 + u3 * u3 <= s * s + 2,
{
    let n: int = a1 * a1 + a2 * a2 + a3 * a3;
    let t: int = u1 * u1 + u2 * u2 + u3 * u3;
    let w: int = (u1 + 1) * (u1 + 1) + (u2 + 1) * (u2 + 1) + (u3 + 1) * (u3 + 1);
    assert(0 <= u1 * l && 0 <= u2 * l && 0 <= u3 * l && 0 <= a1 * s && 0 <= a2 * s && 0 <= a3 * s)
        by (nonlinear_arith)
        requires
            s > 0,
            l > 0,
            0 <= a1 && 0 <= a2 && 0 <= a3,
            0 <= u1 && 0 <= u2 && 0 <= u3,
    ;
    lemma_squares(u1 * l, a1 * s);
    lemma_squares(u2 * l, a2 * s);
    lemma_squares(u3 * l, a3 * s);
    lemma_squares(a1 * s, (u1 + 1) * l);
    lemma_squares(a2 * s, (u2 + 1) * l);
    lemma_squares(a3 * s, (u3 + 1) * l);
    assert((u1 * l) * (u1 * l) == (u1 * u1) * (l * l) && (u2 * l) * (u2 * l) == (u2 * u2) * (l * l)
        && (u3 * l) * (u3 * l) == (u3 * u3) * (l * l)) by (nonlinear_arith);
    assert((a1 * s) * (a1 * s) == (a1 * a1) * (s * s) && (a2 * s) * (a2 * s) == (a2 * a2) * (s * s)
        && (a3 * s) * (a3 * s) == (a3 * a3) * (s * s)) by (nonlinear_arith);
    assert(((u1 + 1) * l) * ((u1 + 1) * l) == ((u1 + 1) * (u1 + 1)) * (l * l) && ((u2 + 1) * l) * ((
    u2 + 1) * l) == ((u2 + 1) * (u2 + 1)) * (l * l) && ((u3 + 1) * l) * ((u3 + 1) * l) == ((u3
        + 1) * (u3 + 1)) * (l * l)) by (nonlinear_arith);
    lemma_sum_times(u1 * u1, u2 * u2, u3 * u3, l * l);
    lemma_sum_times(a1 * a1, a2 * a2, a3 * a3, s * s);
    lemma_sum_times((u1 + 1) * (u1 + 1), (u2 + 1) * (u2 + 1), (u3 + 1) * (u3 + 1), l * l);
    let ll: int = l * l;
    let ss: int = s * s;
    assert(ss > 0 && ll > 0) by (nonlinear_arith)
        requires
            ss == s * s,
            ll == l * l,
            s > 0,
            l > s * s,
    ;
    assert(t * ll <= n * ss);
    assert(n * ss < w * ll);
    // above: t l^2 <= n s^2 < (l + 1)^2 s^2, and l > s^2
    assert(t <= ss + 2) by (nonlinear_arith)
        requires
            t * ll <= n * ss,
            n < (l + 1) * (l + 1),
            ll == l * l,
            ss == s * s,
            l > ss,
            ss > 0,
    ;
    // below: s^2 l^2 <= n s^2 < w l^2
    assert(ss < w) by (nonlinear_arith)
        requires
            n * ss < w * ll,
            ll <= n,
            ll > 0,
            ss > 0,
    ;
    assert(w == t + 2 * (u1 + u2 + u3) + 3) by (nonlinear_arith)
        requires
            t == u1 * u1 + u2 * u2 + u3 * u3,
            w == (u1 + 1) * (u1 + 1) + (u2 + 1) * (u2 + 1) + (u3 + 1) * (u3 + 1),
    ;
}

/// One coordinate of a normalized vector: the coordinate `x`, lifted by `k`
/// and divided by a length `l` that is not below its size, is between minus
/// one and one, has the sign of `x`, and is the quotient rounded toward
/// zero.
proof fn lemma_coordinate(x: int, k: int, l: int)
    requires
        k >= 1,
        l >= 1,
        size(x) * k <= l,
    ensures
        ({
            let q: int = quotient(x * k * SCALE, l);
            let u: int = size(q);
            let a: int = size(x) * k;
            &&& -SCALE <= q <= SCALE
            &&& 0 <= a
            &&& u * l <= a * SCALE < (u + 1) * l
            &&& (x >= 0 ==> q >= 0) && (x <= 0 ==> q <= 0)
            &&& a * a == (x * k) * (x * k)
            &&& u * u == q * q
        }),
{
    let s: int = SCALE as int;
    let n: int = x * k * s;
    let q: int = quotient(n, l);
    let u: int = size(q);
    let a: int = size(x) * k;
    crate::math::scalar::lemma_quotient_rounding(n, l);
    assert(0 <= a && a * a == (x * k) * (x * k) && (x >= 0 ==> n == a * s && n >= 0) && (x <= 0
        ==> n == -(a * s) && n <= 0)) by (nonlinear_arith)
        requires
            n == x * k * s,
            a == size(x) * k,
            size(x) == if x < 0 {
                -x
            } else {
                x
            },
            k >= 1,
            s > 0,
    ;
    assert(u * u == q * q) by (nonlinear_arith)
        requires
            u == q || u == -q,
    ;
    assert(u * l == if q < 0 {
        -(q * l)
    } else {
        q * l
    }) by (nonlinear_arith)
        requires
            u == if q < 0 {
                -q
            } else {
                q
            },
    ;
    assert((u + 1) * l == u * l + l) by (nonlinear_arith);
    assert(x >= 0 ==> q >= 0) by (nonlinear_arith)
        requires
            n >= 0 ==> 0 <= n - q * l < l,
            x >= 0 ==> n >= 0,
            l >= 1,
    ;
    assert(x <= 0 ==> q <= 0) by (nonlinear_arith)
        requires
            n <= 0 ==> 0 <= q * l - n < l,
            x <= 0 ==> n <= 0,
            l >= 1,
    ;
    if x >= 0 {
        assert(n == a * s && q >= 0 && u == q);
        assert(0 <= n - q * l < l);
        assert(u * l == q * l);
    } else {
        assert(n == -(a * s) && q <= 0 && u == -q);
        assert(0 <= q * l - n < l);
        assert(u * l == -(q * l)) by (nonlinear_arith)
            requires
                u == -q,
        ;
    }
    assert(u * l <= a * s < (u + 1) * l);
    assert(u <= s) by (nonlinear_arith)
        requires
            u * l <= a * s,
            a <= l,
            l >= 1,
            s > 0,
            u >= 0,
    ;
}

impl Vector {
    /// The sum of the squares of the coordinates, in raw units.
    pub open spec fn square(&self) -> int {
        self.x@ * self.x@ + self.y@ * self.y@ + self.z@ * self.z@
    }

    /// Whether the vector has length one as nearly as millionths allow: each
    /// coordinate is between minus one and one, and the squares of the
    /// coordinates add up to one, less at most six millionths and more at
    /// most two millionths of a millionth.
    pub open spec fn is_unit(&self) -> bool {
        &&& -SCALE <= self.x@ <= SCALE
        &&& -SCALE <= self.y@ <= SCALE
        &&& -SCALE <= self.z@ <= SCALE
        &&& SCALE * SCALE - 6 * SCALE - 3 < self.square() <= SCALE * SCALE + 2
    }

    /// Whether some coordinate is not zero.
    pub open spec fn is_not_origin(&self) -> bool {
        self.x@ != 0 || self.y@ != 0 || self.z@ != 0
    }

    /// The opposite of a unit vector is a unit vector.
    pub proof fn lemma_neg_unit(&self)
        requires
            self.is_unit(),
        ensures
            self.neg().is_unit(),
    {
        assert((-self.x@) * (-self.x@) == self.x@ * self.x@ && (-self.y@) * (-self.y@) == self.y@
            * self.y@ && (-self.z@) * (-self.z@) == self.z@ * self.z@) by (nonlinear_arith);
    }

    /// The difference of two points that differ is not the origin.
    pub proof fn lemma_sub_not_origin(&self, other: Vector)
        requires
            *self != other,
        ensures
            self.sub(other).is_not_origin(),
    {
    }

    /// Every vector but the origin normalizes to a vector of length one,
    /// within a few millionths: each coordinate is between minus one and one
    /// and has the sign of the coordinate it comes from, and the squares of
    /// the coordinates add up to one, less at most six millionths and more
    /// at most two millionths of a millionth. No vector is too short for
    /// this.
    pub proof fn lemma_normalized_unit(&self)
        requires
            self.is_not_origin(),
        ensures
            self.normalized().is_unit(),
            (self.x@ >= 0 ==> self.normalized().x@ >= 0) && (self.x@ <= 0
                ==> self.normalized().x@ <= 0),
            (self.y@ >= 0 ==> self.normalized().y@ >= 0) && (self.y@ <= 0
                ==> self.normalized().y@ <= 0),
            (self.z@ >= 0 ==> self.normalized().z@ >= 0) && (self.z@ <= 0
                ==> self.normalized().z@ <= 0),
    {
        reveal(Vector::spec_normalized);
        let s: int = SCALE as int;
        let m: int = self.largest();
        lemma_lift(m);
        let k: int = lift(m);
        let n: int = self.lifted_square(k);
        let l: int = int_sqrt(n);
        self.lemma_lifted_root(k);
        let ax: int = size(self.x@) * k;
        let ay: int = size(self.y@) * k;
        let az: int = size(self.z@) * k;
        assert(0 <= ax <= m * k && 0 <= ay <= m * k && 0 <= az <= m * k && (ax == m * k || ay == m
            * k || az == m * k)) by (nonlinear_arith)
            requires
                ax == size(self.x@) * k,
                ay == size(self.y@) * k,
                az == size(self.z@) * k,
                0 <= size(self.x@) <= m,
                0 <= size(self.y@) <= m,
                0 <= size(self.z@) <= m,
                size(self.x@) == m || size(self.y@) == m || size(self.z@) == m,
                k >= 1,
        ;
        assert(ax * ax == (self.x@ * k) * (self.x@ * k) && ay * ay == (self.y@ * k) * (self.y@ * k)
            && az * az == (self.z@ * k) * (self.z@ * k)) by (nonlinear_arith)
            requires
                ax == size(self.x@) * k,
                ay == size(self.y@) * k,
                az == size(self.z@) * k,
                size(self.x@) == self.x@ || size(self.x@) == -self.x@,
                size(self.y@) == self.y@ || size(self.y@) == -self.y@,
                size(self.z@) == self.z@ || size(self.z@) == -self.z@,
        ;
        assert(ax * ax >= 0 && ay * ay >= 0 && az * az >= 0) by (nonlinear_arith);
        let big: int = m * k;
        assert(big * big <= n);
        assert(l >= 0 && l * l <= n < (l + 1) * (l + 1));
        if big >= l + 1 {
            lemma_squares(l + 1, big);
        }
        assert(big <= l);
        assert(l > s * s);
        lemma_coordinate(self.x@, k, l);
        lemma_coordinate(self.y@, k, l);
        lemma_coordinate(self.z@, k, l);
        let qx: int = quotient(self.x@ * k * s, l);
        let qy: int = quotient(self.y@ * k * s, l);
        let qz: int = quotient(self.z@ * k * s, l);
        lemma_unit_algebra(s, l, ax, ay, az, size(qx), size(qy), size(qz));
    }
}

/// The size from which on the sides of a triangle are quartered, and a
/// vector product is halved: two to the sixty-second.
pub const SIDE_LIMIT: i128 = 0x4000_0000_0000_0000;

/// The largest size among three numbers.
pub open spec fn largest_of(w: (int, int, int)) -> int {
    let x: int = size(w.0);
    let y: int = size(w.1);
    let z: int = size(w.2);
    if x >= y && x >= z {
        x
    } else if y >= z {
        y
    } else {
        z
    }
}

/// Each of three numbers divided by `d` and rounded toward zero.
pub open spec fn each_by(w: (int, int, int), d: int) -> (int, int, int) {
    (quotient(w.0, d), quotient(w.1, d), quotient(w.2, d))
}

/// The vector product of two triples of whole numbers, without rounding.
pub open spec fn exact_cross(a: (int, int, int), b: (int, int, int)) -> (int, int, int) {
    (a.1 * b.2 - b.1 * a.2, a.2 * b.0 - b.2 * a.0, a.0 * b.1 - b.0 * a.1)
}

/// Three numbers halved together, rounding toward zero, until the largest
/// is below `SIDE_LIMIT`.
pub open spec fn shrunk(w: (int, int, int)) -> (int, int, int)
    decreases largest_of(w),
{
    if largest_of(w) < 0x4000_0000_0000_0000 {
        w
    } else {
        shrunk(each_by(w, 2))
    }
}

/// Three numbers that are not all zero are not all zero after they are
/// shrunk, and each is then below `SIDE_LIMIT` in size.
pub proof fn lemma_shrunk(w: (int, int, int))
    ensures
        largest_of(shrunk(w)) < 0x4000_0000_0000_0000,
        largest_of(w) > 0 ==> largest_of(shrunk(w)) > 0,
    decreases largest_of(w),
{
    if largest_of(w) >= 0x4000_0000_0000_0000 {
        lemma_shrunk(each_by(w, 2));
    }
}

fn largest_size(w: (i128, i128, i128)) -> (m: i128)
    requires
        i128::MIN < w.0 && i128::MIN < w.1 && i128::MIN < w.2,
    ensures
        m == largest_of((w.0 as int, w.1 as int, w.2 as int)),
{
    let x: i128 = if w.0 < 0 {
        -w.0
    } else {
        w.0
    };
    let y: i128 = if w.1 < 0 {
        -w.1
    } else {
        w.1
    };
    let z: i128 = if w.2 < 0 {
        -w.2
    } else {
        w.2
    };
    if x >= y && x >= z {
        x
    } else if y >= z {
        y
    } else {
        z
    }
}

fn each_divided(w: (i128, i128, i128), d: i128) -> (r: (i128, i128, i128))
    requires
        i128::MIN < w.0 && i128::MIN < w.1 && i128::MIN < w.2,
        d == 2 || d == 4,
    ensures
        (r.0 as int, r.1 as int, r.2 as int) == each_by((w.0 as int, w.1 as int, w.2 as int), d as int),
        largest_of((r.0 as int, r.1 as int, r.2 as int)) * d <= largest_of(
            (w.0 as int, w.1 as int, w.2 as int),
        ),
{
    (divide(w.0, d), divide(w.1, d), divide(w.2, d))
}

impl Vector {
    /// The side from `self` to `to`, in raw units and without rounding.
    pub open spec fn side_to(&self, to: &Vector) -> (int, int, int) {
        (to.x@ - self.x@, to.y@ - self.y@, to.z@ - self.z@)
    }

    /// The vector product of the sides from `self` to `a` and from `self` to
    /// `b`, without rounding. Sides with a coordinate of `SIDE_LIMIT` or more
    /// are quartered first.
    pub open spec fn side_product(&self, a: &Vector, b: &Vector) -> (int, int, int) {
        let e1: (int, int, int) = self.side_to(a);
        let e2: (int, int, int) = self.side_to(b);
        if largest_of(e1) >= SIDE_LIMIT || largest_of(e2) >= SIDE_LIMIT {
            exact_cross(each_by(e1, 4), each_by(e2, 4))
        } else {
            exact_cross(e1, e2)
        }
    }

    /// The unit vector that stands on the triangle of `self`, `a` and `b`:
    /// the vector product of the two sides at `self`, taken without
    /// rounding, and brought to length one.
    pub open spec fn spec_across(&self, a: &Vector, b: &Vector) -> Vector {
        let w: (int, int, int) = shrunk(self.side_product(a, b));
        Vector { x: scalar_of(w.0), y: scalar_of(w.1), z: scalar_of(w.2) }.normalized()
    }

    /// The unit vector that stands on the triangle of `self`, `a` and `b`;
    /// the origin where the three are on one line.
    #[verifier::when_used_as_spec(spec_across)]
    pub fn across(&self, a: &Vector, b: &Vector) -> (r: Vector)
        ensures
            r == self.spec_across(a, b),
    {
        let mut e1: (i128, i128, i128) = (
            a.x.raw as i128 - self.x.raw as i128,
            a.y.raw as i128 - self.y.raw as i128,
            a.z.raw as i128 - self.z.raw as i128,
        );
        let mut e2: (i128, i128, i128) = (
            b.x.raw as i128 - self.x.raw as i128,
            b.y.raw as i128 - self.y.raw as i128,
            b.z.raw as i128 - self.z.raw as i128,
        );
        if largest_size(e1) >= SIDE_LIMIT || largest_size(e2) >= SIDE_LIMIT {
            e1 = each_divided(e1, 4);
            e2 = each_divided(e2, 4);
        }
        proof {
            let l: int = 0x4000_0000_0000_0000;
            assert(largest_of((e1.0 as int, e1.1 as int, e1.2 as int)) < l);
            assert(largest_of((e2.0 as int, e2.1 as int, e2.2 as int)) < l);
            lemma_product_bound(e1.1 as int, e2.2 as int, l, l);
            lemma_product_bound(e2.1 as int, e1.2 as int, l, l);
            lemma_product_bound(e1.2 as int, e2.0 as int, l, l);
            lemma_product_bound(e2.2 as int, e1.0 as int, l, l);
            lemma_product_bound(e1.0 as int, e2.1 as int, l, l);
            lemma_product_bound(e2.0 as int, e1.1 as int, l, l);
        }
        let mut w: (i128, i128, i128) = (
            e1.1 * e2.2 - e2.1 * e1.2,
            e1.2 * e2.0 - e2.2 * e1.0,
            e1.0 * e2.1 - e2.0 * e1.1,
        );
        let ghost start: (int, int, int) = (w.0 as int, w.1 as int, w.2 as int);
        proof {
            assert(start == self.side_product(a, b));
        }
        while largest_size(w) >= SIDE_LIMIT
            invariant
                i128::MIN < w.0 && i128::MIN < w.1 && i128::MIN < w.2,
                shrunk(start) == shrunk((w.0 as int, w.1 as int, w.2 as int)),
            decreases largest_of((w.0 as int, w.1 as int, w.2 as int)),
        {
            w = each_divided(w, 2);
        }
        let flat: Vector = Vector {
            x: narrow(w.0),
            y: narrow(w.1),
            z: narrow(w.2),
        };
        flat.normalized()
    }

    /// The vector that stands on a triangle whose corners are not on one
    /// line has length one, within a few millionths: it is never the
    /// origin, however small the triangle.
    pub proof fn lemma_across_unit(&self, a: &Vector, b: &Vector)
        requires
            self.side_product(a, b) != (0int, 0int, 0int),
        ensures
            self.across(a, b).is_unit(),
    {
        let p: (int, int, int) = self.side_product(a, b);
        lemma_shrunk(p);
        let w: (int, int, int) = shrunk(p);
        let flat: Vector = Vector { x: scalar_of(w.0), y: scalar_of(w.1), z: scalar_of(w.2) };
        assert(flat.x@ == w.0 && flat.y@ == w.1 && flat.z@ == w.2);
        flat.lemma_normalized_unit();
    }
}

/// The size of a product is at most the product of bounds on the sizes.
proof fn lemma_size_product(a: int, b: int, la: int, lb: int)
    requires
        size(a) <= la,
        size(b) <= lb,
    ensures
        size(a * b) <= la * lb,
{
    lemma_product_bound(a, b, la, lb);
}

/// One coordinate of the algebra of a rounded reflection: with `g = a s`
/// the rounded part along the normal times the scale, `g = 2 n p + e`, and
/// `r = d - a`.
proof fn lemma_reflect_coordinate(s: int, p: int, n: int, d: int, a: int, e: int)
    requires
        a * s == 2 * n * p + e,
    ensures
        s * s * ((d - a) * (d - a) - d * d) == 4 * (p * p) * (n * n) + 4 * p * (n * e) + e * e - 4
            * (p * s) * (d * n) - 2 * s * (d * e),
        s * ((d - a) * n) == s * (d * n) - 2 * p * (n * n) - e * n,
{
    let g: int = a * s;
    assert(s * s * ((d - a) * (d - a) - d * d) == g * g - 2 * s * (d * g)) by (nonlinear_arith)
        requires
            g == a * s,
    ;
    assert(g * g == 4 * (p * p) * (n * n) + 4 * p * (n * e) + e * e) by (nonlinear_arith)
        requires
            g == 2 * n * p + e,
    ;
    assert(2 * s * (d * g) == 4 * (p * s) * (d * n) + 2 * s * (d * e)) by (nonlinear_arith)
        requires
            g == 2 * n * p + e,
    ;
    assert(s * ((d - a) * n) == s * (d * n) - g * n) by (nonlinear_arith)
        requires
            g == a * s,
    ;
    assert(g * n == 2 * p * (n * n) + e * n) by (nonlinear_arith)
        requires
            g == 2 * n * p + e,
    ;
}

/// The algebra of a rounded reflection, on whole numbers. For a normal `n`
/// with coordinates of size at most `s` and squares that add up to `s s`
/// within `6 s + 3`, a vector `d` with `d . n` within `3 s` of `p s`, and
/// parts `a` with `a s` within `s` of `2 n p`, the vector `r = d - a` has
/// squares that add up to those of `d`, and an inner product with `n` that
/// is the opposite of `p s`, within the bounds stated.
proof fn lemma_reflect_algebra(
    s: int,
    p: int,
    n1: int,
    n2: int,
    n3: int,
    d1: int,
    d2: int,
    d3: int,
    a1: int,
    a2: int,
    a3: int,
)
    requires
        s > 0,
        size(n1) <= s && size(n2) <= s && size(n3) <= s,
        size(n1 * n1 + n2 * n2 + n3 * n3 - s * s) <= 6 * s + 3,
        size(d1 * n1 + d2 * n2 + d3 * n3 - p * s) <= 3 * s,
        size(a1 * s - 2 * n1 * p) <= s,
        size(a2 * s - 2 * n2 * p) <= s,
        size(a3 * s - 2 * n3 * p) <= s,
    ensures
        s * s * size(
            (d1 - a1) * (d1 - a1) + (d2 - a2) * (d2 - a2) + (d3 - a3) * (d3 - a3) - (d1 * d1 + d2
                * d2 + d3 * d3),
        ) <= s * s * (2 * (size(d1) + size(d2) + size(d3)) + 24 * size(p) + 3) + 4 * (p * p) * (6
            * s + 3),
        s * size((d1 - a1) * n1 + (d2 - a2) * n2 + (d3 - a3) * n3 + p * s) <= 6 * (s * s) + 2
            * size(p) * (6 * s + 3),
{
    let e1: int = a1 * s - 2 * n1 * p;
    let e2: int = a2 * s - 2 * n2 * p;
    let e3: int = a3 * s - 2 * n3 * p;
    let nn: int = n1 * n1 + n2 * n2 + n3 * n3;
    let dn: int = d1 * n1 + d2 * n2 + d3 * n3;
    let delta: int = nn - s * s;
    let e0: int = dn - p * s;
    let ne: int = n1 * e1 + n2 * e2 + n3 * e3;
    let en: int = e1 * n1 + e2 * n2 + e3 * n3;
    let ee: int = e1 * e1 + e2 * e2 + e3 * e3;
    let de: int = d1 * e1 + d2 * e2 + d3 * e3;
    let pp: int = p * p;
    let ss: int = s * s;
    let change: int = (d1 - a1) * (d1 - a1) + (d2 - a2) * (d2 - a2) + (d3 - a3) * (d3 - a3) - (d1
        * d1 + d2 * d2 + d3 * d3);
    let rn: int = (d1 - a1) * n1 + (d2 - a2) * n2 + (d3 - a3) * n3;
    lemma_reflect_coordinate(s, p, n1, d1, a1, e1);
    lemma_reflect_coordinate(s, p, n2, d2, a2, e2);
    lemma_reflect_coordinate(s, p, n3, d3, a3, e3);
    let c1: int = (d1 - a1) * (d1 - a1) - d1 * d1;
    let c2: int = (d2 - a2) * (d2 - a2) - d2 * d2;
    let c3: int = (d3 - a3) * (d3 - a3) - d3 * d3;
    assert(ss * change == ss * c1 + ss * c2 + ss * c3) by (nonlinear_arith)
        requires
            change == c1 + c2 + c3,
    ;
    assert(4 * pp * (n1 * n1) + 4 * pp * (n2 * n2) + 4 * pp * (n3 * n3) == 4 * pp * nn)
        by (nonlinear_arith)
        requires
            nn == n1 * n1 + n2 * n2 + n3 * n3,
    ;
    assert(4 * p * (n1 * e1) + 4 * p * (n2 * e2) + 4 * p * (n3 * e3) == 4 * p * ne)
        by (nonlinear_arith)
        requires
            ne == n1 * e1 + n2 * e2 + n3 * e3,
    ;
    assert(4 * (p * s) * (d1 * n1) + 4 * (p * s) * (d2 * n2) + 4 * (p * s) * (d3 * n3) == 4 * (p
        * s) * dn) by (nonlinear_arith)
        requires
            dn == d1 * n1 + d2 * n2 + d3 * n3,
    ;
    assert(2 * s * (d1 * e1) + 2 * s * (d2 * e2) + 2 * s * (d3 * e3) == 2 * s * de)
        by (nonlinear_arith)
        requires
            de == d1 * e1 + d2 * e2 + d3 * e3,
    ;
    assert(ss * change == 4 * pp * nn + 4 * p * ne + ee - 4 * (p * s) * dn - 2 * s * de);
    assert(4 * pp * nn - 4 * (p * s) * dn == 4 * pp * delta - 4 * (p * s) * e0)
        by (nonlinear_arith)
        requires
            nn == delta + s * s,
            dn == e0 + p * s,
            pp == p * p,
    ;
    assert(ss * change == 4 * pp * delta + 4 * p * ne + ee - 4 * (p * s) * e0 - 2 * s * de);
    // the sizes of the five parts
    let sp: int = size(p);
    lemma_size_product(n1, e1, s, s);
    lemma_size_product(n2, e2, s, s);
    lemma_size_product(n3, e3, s, s);
    lemma_size_product(e1, n1, s, s);
    lemma_size_product(e2, n2, s, s);
    lemma_size_product(e3, n3, s, s);
    lemma_size_product(e1, e1, s, s);
    lemma_size_product(e2, e2, s, s);
    lemma_size_product(e3, e3, s, s);
    lemma_size_product(d1, e1, size(d1), s);
    lemma_size_product(d2, e2, size(d2), s);
    lemma_size_product(d3, e3, size(d3), s);
    assert(size(ne) <= 3 * ss && size(en) <= 3 * ss && size(ee) <= 3 * ss);
    let dd: int = size(d1) + size(d2) + size(d3);
    assert(size(de) <= dd * s) by (nonlinear_arith)
        requires
            size(d1 * e1) <= size(d1) * s,
            size(d2 * e2) <= size(d2) * s,
            size(d3 * e3) <= size(d3) * s,
            de == d1 * e1 + d2 * e2 + d3 * e3,
            dd == size(d1) + size(d2) + size(d3),
            size(de) == if de < 0 {
                -de
            } else {
                de
            },
            size(d1 * e1) == if d1 * e1 < 0 {
                -(d1 * e1)
            } else {
                d1 * e1
            },
            size(d2 * e2) == if d2 * e2 < 0 {
                -(d2 * e2)
            } else {
                d2 * e2
            },
            size(d3 * e3) == if d3 * e3 < 0 {
                -(d3 * e3)
            } else {
                d3 * e3
            },
    ;
    assert(pp >= 0 && ss > 0) by (nonlinear_arith)
        requires
            pp == p * p,
            ss == s * s,
            s > 0,
    ;
    let t1: int = pp * delta;
    let t2: int = p * ne;
    let t4: int = (p * s) * e0;
    let t5: int = s * de;
    let b1: int = pp * (6 * s + 3);
    let b2: int = sp * ss;
    let b5: int = dd * ss;
    lemma_size_product(pp, delta, pp, 6 * s + 3);
    lemma_size_product(p, ne, sp, 3 * ss);
    lemma_size_product(p, s, sp, s);
    lemma_size_product(p * s, e0, sp * s, 3 * s);
    lemma_size_product(s, de, s, dd * s);
    assert(sp * s * (3 * s) == 3 * b2 && s * (dd * s) == b5 && sp * (3 * ss) == 3 * b2)
        by (nonlinear_arith)
        requires
            ss == s * s,
            b2 == sp * ss,
            b5 == dd * ss,
    ;
    assert(size(t1) <= b1 && size(t2) <= 3 * b2 && size(t4) <= 3 * b2 && size(t5) <= b5);
    assert(4 * pp * delta == 4 * t1 && 4 * p * ne == 4 * t2 && 4 * (p * s) * e0 == 4 * t4 && 2 * s
        * de == 2 * t5) by (nonlinear_arith)
        requires
            t1 == pp * delta,
            t2 == p * ne,
            t4 == (p * s) * e0,
            t5 == s * de,
    ;
    assert(ss * change == 4 * t1 + 4 * t2 + ee - 4 * t4 - 2 * t5);
    assert(size(ss * change) <= 4 * b1 + 12 * b2 + 3 * ss + 12 * b2 + 2 * b5);
    assert(ss * size(change) == size(ss * change)) by (nonlinear_arith)
        requires
            ss > 0,
            size(change) == if change < 0 {
                -change
            } else {
                change
            },
            size(ss * change) == if ss * change < 0 {
                -(ss * change)
            } else {
                ss * change
            },
    ;
    assert(s * s * (2 * dd + 24 * sp + 3) + 4 * (p * p) * (6 * s + 3) == 4 * b1 + 12 * b2 + 3 * ss
        + 12 * b2 + 2 * b5) by (nonlinear_arith)
        requires
            ss == s * s,
            pp == p * p,
            b1 == pp * (6 * s + 3),
            b2 == sp * ss,
            b5 == dd * ss,
    ;
    assert(s * s * size(change) == ss * size(change));
    // the inner product with the normal
    assert(s * rn == s * (d1 * n1) - 2 * p * (n1 * n1) - e1 * n1 + (s * (d2 * n2) - 2 * p * (n2
        * n2) - e2 * n2) + (s * (d3 * n3) - 2 * p * (n3 * n3) - e3 * n3)) by (nonlinear_arith)
        requires
            rn == (d1 - a1) * n1 + (d2 - a2) * n2 + (d3 - a3) * n3,
            s * ((d1 - a1) * n1) == s * (d1 * n1) - 2 * p * (n1 * n1) - e1 * n1,
            s * ((d2 - a2) * n2) == s * (d2 * n2) - 2 * p * (n2 * n2) - e2 * n2,
            s * ((d3 - a3) * n3) == s * (d3 * n3) - 2 * p * (n3 * n3) - e3 * n3,
    ;
    assert(s * rn == s * dn - 2 * p * nn - en) by (nonlinear_arith)
        requires
            s * rn == s * (d1 * n1) - 2 * p * (n1 * n1) - e1 * n1 + (s * (d2 * n2) - 2 * p * (n2
                * n2) - e2 * n2) + (s * (d3 * n3) - 2 * p * (n3 * n3) - e3 * n3),
            dn == d1 * n1 + d2 * n2 + d3 * n3,
            nn == n1 * n1 + n2 * n2 + n3 * n3,
            en == e1 * n1 + e2 * n2 + e3 * n3,
    ;
    assert(s * (rn + p * s) == s * e0 - 2 * (p * delta) - en) by (nonlinear_arith)
        requires
            s * rn == s * dn - 2 * p * nn - en,
            nn == delta + s * s,
            dn == e0 + p * s,
    ;
    let t6: int = s * e0;
    let t7: int = p * delta;
    let b7: int = sp * (6 * s + 3);
    lemma_size_product(s, e0, s, 3 * s);
    lemma_size_product(p, delta, sp, 6 * s + 3);
    assert(s * (3 * s) == 3 * ss) by (nonlinear_arith)
        requires
            ss == s * s,
    ;
    assert(size(t6) <= 3 * ss && size(t7) <= b7);
    assert(s * (rn + p * s) == t6 - 2 * t7 - en);
    assert(size(s * (rn + p * s)) <= 3 * ss + 2 * b7 + 3 * ss);
    assert(s * size(rn + p * s) == size(s * (rn + p * s))) by (nonlinear_arith)
        requires
            s > 0,
            size(rn + p * s) == if rn + p * s < 0 {
                -(rn + p * s)
            } else {
                rn + p * s
            },
            size(s * (rn + p * s)) == if s * (rn + p * s) < 0 {
                -(s * (rn + p * s))
            } else {
                s * (rn + p * s)
            },
    ;
    assert(6 * (s * s) + 2 * size(p) * (6 * s + 3) == 3 * ss + 2 * b7 + 3 * ss)
        by (nonlinear_arith)
        requires
            ss == s * s,
            b7 == sp * (6 * s + 3),
            sp == size(p),
    ;
}

/// A product of two numbers whose true product is within the range is
/// within one millionth of it, and is not larger in size.
proof fn lemma_mul_close(a: Scalar, b: Scalar, la: int)
    requires
        size(a@) <= la,
        size(b@) <= 2 * SCALE,
        0 <= la <= 0x2000_0000_0000_0000,
    ensures
        size(a.mul(b)@ * SCALE - a@ * b@) <= SCALE,
        size(a.mul(b)@) <= 2 * la,
        size(b@) <= SCALE ==> size(a.mul(b)@) <= la,
{
    reveal(Scalar::spec_mul);
    let s: int = SCALE as int;
    let n: int = a@ * b@;
    lemma_product_bound(a@, b@, la, 2 * s);
    if size(b@) <= s {
        lemma_product_bound(a@, b@, la, s);
        let q: int = quotient(n, s);
        crate::math::scalar::lemma_quotient_rounding(n, s);
        assert(size(q) <= la) by (nonlinear_arith)
            requires
                -(la * s) <= n <= la * s,
                n >= 0 ==> 0 <= n - q * s < s,
                n <= 0 ==> 0 <= q * s - n < s,
                s > 0,
                la >= 0,
                size(q) == if q < 0 {
                    -q
                } else {
                    q
                },
        ;
    }
    crate::math::scalar::lemma_quotient_rounding(n, s);
    let q: int = quotient(n, s);
    assert(size(q) <= 2 * la) by (nonlinear_arith)
        requires
            -(la * (2 * s)) <= n <= la * (2 * s),
            n >= 0 ==> 0 <= n - q * s < s,
            n <= 0 ==> 0 <= q * s - n < s,
            s > 0,
            la >= 0,
            size(q) == if q < 0 {
                -q
            } else {
                q
            },
    ;
}

impl Vector {
    /// Whether every coordinate is at most two to the fifty-seventh in size,
    /// so that no step of a reflection saturates.
    pub open spec fn is_small(&self) -> bool {
        &&& size(self.x@) <= 0x200_0000_0000_0000
        &&& size(self.y@) <= 0x200_0000_0000_0000
        &&& size(self.z@) <= 0x200_0000_0000_0000
    }

    /// The sum of the sizes of the coordinates.
    pub open spec fn reach(&self) -> int {
        size(self.x@) + size(self.y@) + size(self.z@)
    }

    /// The law of reflection as far as millionths allow, for every vector
    /// that does not saturate and every unit normal. With `p` the inner
    /// product of the vector and the normal, in raw units: the squares of
    /// the coordinates of the reflection add up to those of the vector,
    /// within twice the sum of the sizes of its coordinates, 24 times the
    /// size of `p`, 3, and 24 millionths of the square of `p`; and the inner
    /// product of the reflection with the normal is the opposite of `p`,
    /// within 9 and 12 millionths of the size of `p`.
    pub proof fn lemma_reflect_bound(&self, n: &Vector)
        requires
            n.is_unit(),
            self.is_small(),
        ensures
            SCALE * SCALE * size(self.reflect(n).square() - self.square()) <= SCALE * SCALE * (2
                * self.reach() + 24 * size(self.dot(n)@) + 3) + 4 * (self.dot(n)@ * self.dot(n)@)
                * (6 * SCALE + 3),
            SCALE * SCALE * size(self.reflect(n).dot(n)@ + self.dot(n)@) <= 9 * (SCALE * SCALE)
                + 2 * size(self.dot(n)@) * (6 * SCALE + 3),
    {
        let s: int = SCALE as int;
        let lim: int = 0x200_0000_0000_0000;
        let two: Scalar = Scalar::from_int(2);
        let qx: Scalar = self.x.mul(n.x);
        let qy: Scalar = self.y.mul(n.y);
        let qz: Scalar = self.z.mul(n.z);
        lemma_mul_close(self.x, n.x, lim);
        lemma_mul_close(self.y, n.y, lim);
        lemma_mul_close(self.z, n.z, lim);
        let p: Scalar = self.dot(n);
        assert(p@ == qx@ + qy@ + qz@);
        assert(size(p@) <= 6 * lim);
        let dn: int = self.x@ * n.x@ + self.y@ * n.y@ + self.z@ * n.z@;
        assert(p@ * s == qx@ * s + qy@ * s + qz@ * s) by (nonlinear_arith)
            requires
                p@ == qx@ + qy@ + qz@,
        ;
        assert(size(dn - p@ * s) <= 3 * s);
        let n2: Vector = n.mul(two);
        lemma_scale_by_two(n.x);
        lemma_scale_by_two(n.y);
        lemma_scale_by_two(n.z);
        two.lemma_mul_commutes(n.x);
        two.lemma_mul_commutes(n.y);
        two.lemma_mul_commutes(n.z);
        assert(n2.x@ == 2 * n.x@ && n2.y@ == 2 * n.y@ && n2.z@ == 2 * n.z@);
        let along: Vector = n2.mul(p);
        p.lemma_mul_commutes(n2.x);
        p.lemma_mul_commutes(n2.y);
        p.lemma_mul_commutes(n2.z);
        lemma_mul_close(p, n2.x, 6 * lim);
        lemma_mul_close(p, n2.y, 6 * lim);
        lemma_mul_close(p, n2.z, 6 * lim);
        assert(p@ * n2.x@ == 2 * n.x@ * p@ && p@ * n2.y@ == 2 * n.y@ * p@ && p@ * n2.z@ == 2 * n.z@
            * p@) by (nonlinear_arith)
            requires
                n2.x@ == 2 * n.x@,
                n2.y@ == 2 * n.y@,
                n2.z@ == 2 * n.z@,
        ;
        let r: Vector = self.reflect(n);
        assert(r.x@ == self.x@ - along.x@ && r.y@ == self.y@ - along.y@ && r.z@ == self.z@
            - along.z@);
        assert(s * s == 1_000_000_000_000) by (nonlinear_arith)
            requires
                s == 1_000_000,
        ;
        lemma_reflect_algebra(
            s,
            p@,
            n.x@,
            n.y@,
            n.z@,
            self.x@,
            self.y@,
            self.z@,
            along.x@,
            along.y@,
            along.z@,
        );
        // the inner product of the reflection with the normal, as it is rounded
        lemma_mul_close(r.x, n.x, 13 * lim);
        lemma_mul_close(r.y, n.y, 13 * lim);
        lemma_mul_close(r.z, n.z, 13 * lim);
        let rho: Scalar = r.dot(n);
        let rn: int = r.x@ * n.x@ + r.y@ * n.y@ + r.z@ * n.z@;
        assert(rho@ == r.x.mul(n.x)@ + r.y.mul(n.y)@ + r.z.mul(n.z)@);
        assert(rho@ * s == r.x.mul(n.x)@ * s + r.y.mul(n.y)@ * s + r.z.mul(n.z)@ * s)
            by (nonlinear_arith)
            requires
                rho@ == r.x.mul(n.x)@ + r.y.mul(n.y)@ + r.z.mul(n.z)@,
        ;
        assert(size(rho@ * s - rn) <= 3 * s);
        let gap: int = rho@ + p@;
        let far: int = rn + p@ * s;
        assert(s * gap == (rho@ * s - rn) + far) by (nonlinear_arith)
            requires
                gap == rho@ + p@,
                far == rn + p@ * s,
        ;
        assert(s * size(gap) <= 3 * s + size(far)) by (nonlinear_arith)
            requires
                s > 0,
                s * gap == (rho@ * s - rn) + far,
                size(rho@ * s - rn) <= 3 * s,
                size(gap) == if gap < 0 {
                    -gap
                } else {
                    gap
                },
                size(far) == if far < 0 {
                    -far
                } else {
                    far
                },
                size(rho@ * s - rn) == if rho@ * s - rn < 0 {
                    -(rho@ * s - rn)
                } else {
                    rho@ * s - rn
                },
        ;
        assert(s * s * size(gap) <= 9 * (s * s) + 2 * size(p@) * (6 * s + 3)) by (nonlinear_arith)
            requires
                s > 0,
                s * size(gap) <= 3 * s + size(far),
                s * size(far) <= 6 * (s * s) + 2 * size(p@) * (6 * s + 3),
        ;
    }
}

/// Twice a number, as the scalar product with two gives it.
proof fn lemma_scale_by_two(d: Scalar)
    ensures
        Scalar::from_int(2).mul(d)@ == crate::math::scalar::saturate(2 * d@),
        Scalar::from_int(2).neg().mul(d)@ == crate::math::scalar::saturate(-2 * d@),
{
    reveal(Scalar::spec_mul);
    crate::math::scalar::lemma_quotient_of_product(2 * d@, crate::math::scalar::SCALE as int);
    crate::math::scalar::lemma_quotient_of_product(-2 * d@, crate::math::scalar::SCALE as int);
    assert(2_000_000 * d@ == (2 * d@) * 1_000_000 && (-2_000_000) * d@ == (-2 * d@) * 1_000_000)
        by (nonlinear_arith);
}

/// A number and its opposite have the same square.
proof fn lemma_square_of_opposite(a: Scalar)
    requires
        i64::MIN < a@,
    ensures
        a.neg().mul(a.neg()) == a.mul(a),
{
    reveal(Scalar::spec_mul);
    assert((-a@) * (-a@) == a@ * a@) by (nonlinear_arith);
}

} // verus!
