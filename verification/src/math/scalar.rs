//! Fixed-point numbers: the arithmetic that every other module stands on.
//!
//! A [`Scalar`] holds a count of millionths in an `i64`. Every operation is
//! total: a result too large for the type is replaced by the nearest value
//! that fits, a quotient is rounded toward zero, and a division by zero
//! gives zero.
use vstd::prelude::*;

verus! {

/// How many raw units make one.
pub const SCALE: i64 = 1_000_000;

/// How many binary digits of the fraction of an exponent are used.
pub const POWER_DIGITS: u32 = 20;

/// The nearest integer to `x` that an `i64` holds.
pub open spec fn saturate(x: int) -> int {
    if x < i64::MIN {
        i64::MIN as int
    } else if x > i64::MAX {
        i64::MAX as int
    } else {
        x
    }
}

/// The quotient of `n` by `d` rounded toward zero, and zero where `d` is zero.
pub open spec fn quotient(n: int, d: int) -> int {
    if d == 0 {
        0
    } else if n >= 0 && d > 0 {
        n / d
    } else if n >= 0 {
        -(n / (-d))
    } else if d > 0 {
        -((-n) / d)
    } else {
        (-n) / (-d)
    }
}

/// Whether `r` is the largest natural number whose square does not exceed `n`.
pub open spec fn is_floor_root(n: int, r: int) -> bool {
    0 <= r && r * r <= n < (r + 1) * (r + 1)
}

/// The largest integer whose square does not exceed `n`, and zero for a negative `n`.
pub open spec fn int_sqrt(n: int) -> int {
    if n <= 0 {
        0
    } else {
        choose|r: int| is_floor_root(n, r)
    }
}

/// Every natural number has a largest number whose square does not exceed it.
pub proof fn lemma_root_exists(n: int)
    requires
        0 <= n,
    ensures
        exists|r: int| is_floor_root(n, r),
    decreases n,
{
    if n == 0 {
        assert(is_floor_root(0, 0));
    } else {
        let m: int = n - 1;
        lemma_root_exists(m);
        let r: int = choose|r: int| is_floor_root(m, r);
        if n < (r + 1) * (r + 1) {
            assert(is_floor_root(n, r));
        } else {
            assert(is_floor_root(n, r + 1)) by (nonlinear_arith)
                requires
                    0 <= r,
                    r * r <= n - 1 < (r + 1) * (r + 1),
                    n >= (r + 1) * (r + 1),
            ;
        }
    }
}

/// A root that squares to at most `n` and whose successor squares to more is the root of `n`.
pub proof fn lemma_int_sqrt_unique(n: int, r: int)
    requires
        is_floor_root(n, r),
    ensures
        int_sqrt(n) == r,
{
    if n <= 0 {
        assert(r == 0) by (nonlinear_arith)
            requires
                0 <= r,
                r * r <= n,
                n <= 0,
        ;
    } else {
        let s: int = int_sqrt(n);
        assert(is_floor_root(n, s));
        assert(s == r) by (nonlinear_arith)
            requires
                0 <= r,
                r * r <= n < (r + 1) * (r + 1),
                0 <= s,
                s * s <= n < (s + 1) * (s + 1),
        ;
    }
}

/// A fixed-point number: `raw` millionths.
#[derive(Clone, Copy, Debug, PartialEq, Eq, Structural)]
pub struct Scalar {
    pub raw: i64,
}

impl View for Scalar {
    type V = int;

    open spec fn view(&self) -> int {
        self.raw as int
    }
}

/// The scalar with `x` millionths, saturated.
pub open spec fn scalar_of(x: int) -> Scalar {
    Scalar { raw: saturate(x) as i64 }
}

/// The scalar with `x` millionths, saturated.
pub fn narrow(x: i128) -> (r: Scalar)
    ensures
        r == scalar_of(x as int),
{
    if x < i64::MIN as i128 {
        Scalar { raw: i64::MIN }
    } else if x > i64::MAX as i128 {
        Scalar { raw: i64::MAX }
    } else {
        Scalar { raw: x as i64 }
    }
}

/// The product of two bounded numbers is bounded by the product of the bounds.
pub proof fn lemma_product_bound(a: int, b: int, la: int, lb: int)
    by (nonlinear_arith)
    requires
        -la <= a <= la,
        -lb <= b <= lb,
    ensures
        -(la * lb) <= a * b <= la * lb,
{
}

/// The quotient of `n` by `d`, rounded toward zero.
pub fn divide(n: i128, d: i128) -> (q: i128)
    requires
        d != 0,
        i128::MIN < n,
        i128::MIN < d,
    ensures
        q == quotient(n as int, d as int),
{
    if n >= 0 && d > 0 {
        n / d
    } else if n >= 0 {
        -(n / (-d))
    } else if d > 0 {
        -((-n) / d)
    } else {
        (-n) / (-d)
    }
}

/// The root of `n`, found by bisection.
fn floor_root(n: u128) -> (r: u128)
    requires
        n < 0x1_0000_0000_0000_0000_0000_0u128,
    ensures
        r == int_sqrt(n as int),
        r < 0x400_0000_0000u128,
{
    let mut lo: u128 = 0;
    let mut hi: u128 = 0x400_0000_0000u128;
    while hi - lo > 1
        invariant
            lo < hi <= 0x400_0000_0000u128,
            lo * lo <= n < hi * hi,
        decreases hi - lo,
    {
        let mid: u128 = lo + (hi - lo) / 2;
        proof {
            lemma_product_bound(mid as int, mid as int, 0x400_0000_0000, 0x400_0000_0000);
        }
        if mid * mid <= n {
            lo = mid;
        } else {
            hi = mid;
        }
    }
    proof {
        assert(hi == lo + 1);
        lemma_int_sqrt_unique(n as int, lo as int);
    }
    lo
}

/// The root of any `n`, found by bisection.
pub fn wide_root(n: u128) -> (r: u128)
    ensures
        r == int_sqrt(n as int),
        r < 0x1_0000_0000_0000_0000u128,
{
    let mut lo: u128 = 0;
    let mut hi: u128 = 0x1_0000_0000_0000_0000u128;
    while hi - lo > 1
        invariant
            lo < hi <= 0x1_0000_0000_0000_0000u128,
            lo * lo <= n < hi * hi,
        decreases hi - lo,
    {
        let mid: u128 = lo + (hi - lo) / 2;
        proof {
            lemma_product_bound(
                mid as int,
                mid as int,
                0xffff_ffff_ffff_ffff,
                0xffff_ffff_ffff_ffff,
            );
        }
        if mid * mid <= n {
            lo = mid;
        } else {
            hi = mid;
        }
    }
    proof {
        assert(hi == lo + 1);
        lemma_int_sqrt_unique(n as int, lo as int);
    }
    lo
}

impl Scalar {
    pub open spec fn spec_zero() -> Scalar {
        Scalar { raw: 0 }
    }

    /// Zero.
    #[verifier::when_used_as_spec(spec_zero)]
    pub fn zero() -> (r: Scalar)
        ensures
            r == Scalar::spec_zero(),
    {
        Scalar { raw: 0 }
    }

    pub open spec fn spec_one() -> Scalar {
        Scalar { raw: SCALE }
    }

    /// One.
    #[verifier::when_used_as_spec(spec_one)]
    pub fn one() -> (r: Scalar)
        ensures
            r == Scalar::spec_one(),
    {
        Scalar { raw: SCALE }
    }

    pub open spec fn spec_from_int(i: i64) -> Scalar {
        scalar_of(i * SCALE)
    }

    /// The whole number `i`.
    #[verifier::when_used_as_spec(spec_from_int)]
    pub fn from_int(i: i64) -> (r: Scalar)
        ensures
            r == Scalar::spec_from_int(i),
    {
        proof {
            lemma_product_bound(i as int, SCALE as int, 0x8000_0000_0000_0000, 1_000_000);
        }
        narrow((i as i128) * (SCALE as i128))
    }

    pub open spec fn spec_add(self, rhs: Scalar) -> Scalar {
        scalar_of(self@ + rhs@)
    }

    /// The sum, saturated.
    #[verifier::when_used_as_spec(spec_add)]
    pub fn add(self, rhs: Scalar) -> (r: Scalar)
        ensures
            r == self.spec_add(rhs),
    {
        narrow(self.raw as i128 + rhs.raw as i128)
    }

    pub open spec fn spec_sub(self, rhs: Scalar) -> Scalar {
        scalar_of(self@ - rhs@)
    }

    /// The difference, saturated.
    #[verifier::when_used_as_spec(spec_sub)]
    pub fn sub(self, rhs: Scalar) -> (r: Scalar)
        ensures
            r == self.spec_sub(rhs),
    {
        narrow(self.raw as i128 - rhs.raw as i128)
    }

    pub open spec fn spec_neg(self) -> Scalar {
        scalar_of(-self@)
    }

    /// The negation, saturated.
    #[verifier::when_used_as_spec(spec_neg)]
    pub fn neg(self) -> (r: Scalar)
        ensures
            r == self.spec_neg(),
    {
        narrow(-(self.raw as i128))
    }

    #[verifier::opaque]
    pub open spec fn spec_mul(self, rhs: Scalar) -> Scalar {
        scalar_of(quotient(self@ * rhs@, SCALE as int))
    }

    /// The product, rounded toward zero and saturated.
    #[verifier::when_used_as_spec(spec_mul)]
    pub fn mul(self, rhs: Scalar) -> (r: Scalar)
        ensures
            r == self.spec_mul(rhs),
    {
        reveal(Scalar::spec_mul);
        proof {
            lemma_product_bound(
                self@,
                rhs@,
                0x8000_0000_0000_0000,
                0x8000_0000_0000_0000,
            );
        }
        let p: i128 = (self.raw as i128) * (rhs.raw as i128);
        narrow(divide(p, SCALE as i128))
    }

    #[verifier::opaque]
    pub open spec fn spec_div(self, rhs: Scalar) -> Scalar {
        scalar_of(quotient(self@ * SCALE, rhs@))
    }

    /// The quotient, rounded toward zero and saturated; zero where `rhs` is zero.
    #[verifier::when_used_as_spec(spec_div)]
    pub fn div(self, rhs: Scalar) -> (r: Scalar)
        ensures
            r == self.spec_div(rhs),
    {
        reveal(Scalar::spec_div);
        if rhs.raw == 0 {
            Scalar { raw: 0 }
        } else {
            proof {
                lemma_product_bound(self@, SCALE as int, 0x8000_0000_0000_0000, 1_000_000);
            }
            let n: i128 = (self.raw as i128) * (SCALE as i128);
            narrow(divide(n, rhs.raw as i128))
        }
    }

    #[verifier::opaque]
    pub open spec fn spec_sqrt(self) -> Scalar {
        scalar_of(int_sqrt(self@ * SCALE))
    }

    /// The square root, rounded down; zero for a negative number.
    #[verifier::when_used_as_spec(spec_sqrt)]
    pub fn sqrt(self) -> (r: Scalar)
        ensures
            r == self.spec_sqrt(),
    {
        reveal(Scalar::spec_sqrt);
        if self.raw <= 0 {
            assert(self@ * SCALE <= 0) by (nonlinear_arith)
                requires
                    self@ <= 0,
                    SCALE == 1_000_000,
            ;
            Scalar { raw: 0 }
        } else {
            proof {
                lemma_product_bound(self@, SCALE as int, 0x8000_0000_0000_0000, 1_000_000);
            }
            let n: u128 = (self.raw as u128) * (SCALE as u128);
            let root: u128 = floor_root(n);
            Scalar { raw: root as i64 }
        }
    }

    /// The product of `n` copies of `self`, each multiplication rounded as `mul` rounds.
    pub open spec fn spec_powi(self, n: nat) -> Scalar
        decreases n,
    {
        if n == 0 {
            Scalar::one()
        } else {
            self.spec_powi((n - 1) as nat).mul(self)
        }
    }

    /// Once a power equals the power before it, every later power equals it.
    pub proof fn lemma_powi_settles(self, i: nat, j: nat)
        requires
            i <= j,
            self.spec_powi(i + 1) == self.spec_powi(i),
        ensures
            self.spec_powi(j) == self.spec_powi(i),
        decreases j,
    {
        if i < j {
            self.lemma_powi_settles(i, (j - 1) as nat);
        }
    }

    /// The power `self` to the `n`.
    pub fn powi(self, n: u32) -> (r: Scalar)
        ensures
            r == self.spec_powi(n as nat),
    {
        let mut acc: Scalar = Scalar::one();
        let mut i: u32 = 0;
        while i < n
            invariant
                i <= n,
                acc == self.spec_powi(i as nat),
            decreases n - i,
        {
            let next: Scalar = acc.mul(self);
            if next.raw == acc.raw {
                proof {
                    self.lemma_powi_settles(i as nat, n as nat);
                }
                return acc;
            }
            acc = next;
            i = i + 1;
        }
        acc
    }

    /// `acc` times the power of `root` whose exponent is the fraction
    /// `f / SCALE`, read in binary to `n` digits: for each digit that is set,
    /// the root of the root before it.
    pub open spec fn spec_root_power(acc: Scalar, root: Scalar, f: int, n: nat) -> Scalar
        decreases n,
    {
        if n == 0 {
            acc
        } else {
            let r: Scalar = root.sqrt();
            if 2 * f >= SCALE {
                Scalar::spec_root_power(acc.mul(r), r, 2 * f - SCALE, (n - 1) as nat)
            } else {
                Scalar::spec_root_power(acc, r, 2 * f, (n - 1) as nat)
            }
        }
    }

    /// The power with an exponent that is not negative: the power of the
    /// whole part of the exponent, times the power of the fraction of the
    /// exponent, which is read in binary to twenty digits.
    pub open spec fn spec_pow_up(self, exponent: Scalar) -> Scalar {
        self.spec_powi(exponent.whole() as nat).mul(
            Scalar::spec_root_power(
                Scalar::one(),
                self,
                exponent@ % (SCALE as int),
                POWER_DIGITS as nat,
            ),
        )
    }

    /// `self` to the power of `exponent`, for a base that is not negative.
    /// With a negative exponent it is one divided by the power of the
    /// opposite exponent.
    pub open spec fn spec_pow(self, exponent: Scalar) -> Scalar {
        if exponent@ >= 0 {
            self.spec_pow_up(exponent)
        } else {
            Scalar::one().div(self.spec_pow_up(exponent.neg()))
        }
    }

    /// An exponent without a fraction adds nothing to the whole power.
    pub proof fn lemma_root_power_whole(acc: Scalar, root: Scalar, n: nat)
        ensures
            Scalar::spec_root_power(acc, root, 0, n) == acc,
        decreases n,
    {
        if n > 0 {
            Scalar::lemma_root_power_whole(acc, root.sqrt(), (n - 1) as nat);
        }
    }

    /// The power with a whole exponent that is not negative is the product
    /// of that many copies of the base.
    pub proof fn lemma_pow_whole(self, exponent: Scalar)
        requires
            exponent@ >= 0,
            exponent@ % (SCALE as int) == 0,
        ensures
            self.spec_pow(exponent) == self.spec_powi(exponent.whole() as nat),
    {
        Scalar::lemma_root_power_whole(Scalar::one(), self, POWER_DIGITS as nat);
        self.spec_powi(exponent.whole() as nat).lemma_mul_one();
    }

    fn pow_up(self, exponent: Scalar) -> (r: Scalar)
        requires
            exponent@ >= 0,
        ensures
            r == self.spec_pow_up(exponent),
    {
        let whole: Scalar = self.powi(exponent.whole());
        let mut f: i64 = exponent.raw % SCALE;
        let mut acc: Scalar = Scalar::one();
        let mut root: Scalar = self;
        let mut i: u32 = 0;
        while i < POWER_DIGITS
            invariant
                i <= POWER_DIGITS,
                0 <= f < SCALE,
                Scalar::spec_root_power(
                    Scalar::one(),
                    self,
                    exponent@ % (SCALE as int),
                    POWER_DIGITS as nat,
                ) == Scalar::spec_root_power(acc, root, f as int, (POWER_DIGITS - i) as nat),
            decreases POWER_DIGITS - i,
        {
            root = root.sqrt();
            f = 2 * f;
            if f >= SCALE {
                acc = acc.mul(root);
                f = f - SCALE;
            }
            i = i + 1;
        }
        whole.mul(acc)
    }

    /// `self` to the power of `exponent`.
    #[verifier::when_used_as_spec(spec_pow)]
    pub fn pow(self, exponent: Scalar) -> (r: Scalar)
        ensures
            r == self.spec_pow(exponent),
    {
        if exponent.raw >= 0 {
            self.pow_up(exponent)
        } else {
            Scalar::one().div(self.pow_up(exponent.neg()))
        }
    }

    pub open spec fn spec_min(self, rhs: Scalar) -> Scalar {
        if rhs@ < self@ {
            rhs
        } else {
            self
        }
    }

    /// The smaller of the two.
    #[verifier::when_used_as_spec(spec_min)]
    pub fn min(self, rhs: Scalar) -> (r: Scalar)
        ensures
            r == self.spec_min(rhs),
    {
        if rhs.raw < self.raw {
            rhs
        } else {
            self
        }
    }

    pub open spec fn spec_max(self, rhs: Scalar) -> Scalar {
        if rhs@ > self@ {
            rhs
        } else {
            self
        }
    }

    /// The larger of the two.
    #[verifier::when_used_as_spec(spec_max)]
    pub fn max(self, rhs: Scalar) -> (r: Scalar)
        ensures
            r == self.spec_max(rhs),
    {
        if rhs.raw > self.raw {
            rhs
        } else {
            self
        }
    }

    /// The whole part of a number that is not negative, as far as a `u32` holds it;
    /// zero for a negative number.
    pub open spec fn spec_whole(self) -> u32 {
        if self@ <= 0 {
            0
        } else if self@ / (SCALE as int) > u32::MAX {
            u32::MAX
        } else {
            (self@ / (SCALE as int)) as u32
        }
    }

    /// The whole part, between zero and the largest `u32`.
    #[verifier::when_used_as_spec(spec_whole)]
    pub fn whole(self) -> (r: u32)
        ensures
            r == self.spec_whole(),
    {
        if self.raw <= 0 {
            0
        } else {
            let w: i64 = self.raw / SCALE;
            if w > u32::MAX as i64 {
                u32::MAX
            } else {
                w as u32
            }
        }
    }
}

/// The raw value of the ratio of a circle's circumference to its diameter,
/// rounded to millionths.
pub const PI_RAW: i64 = 3_141_593;

/// How many terms of a power series are summed.
pub const SERIES_TERMS: u32 = 10;

/// The sum of `acc` and `n` terms of an alternating power series, added from
/// the left. The first term is `term`; each next one is the one before it
/// times `x2`, divided by `d * (d + 1)` and negated, with `d` two more for
/// every term.
pub open spec fn spec_series(acc: Scalar, term: Scalar, x2: Scalar, d: int, n: nat) -> Scalar
    decreases n,
{
    if n == 0 {
        acc
    } else {
        spec_series(
            acc.add(term),
            term.mul(x2).div(scalar_of(d * (d + 1) * SCALE)).neg(),
            x2,
            d + 2,
            (n - 1) as nat,
        )
    }
}

fn series(first: Scalar, x2: Scalar, d: i64) -> (r: Scalar)
    requires
        1 <= d <= 2,
    ensures
        r == spec_series(Scalar::zero(), first, x2, d as int, SERIES_TERMS as nat),
{
    let mut acc: Scalar = Scalar::zero();
    let mut term: Scalar = first;
    let mut k: u32 = 0;
    let mut by: i64 = d;
    while k < SERIES_TERMS
        invariant
            k <= SERIES_TERMS,
            by == d + 2 * k,
            1 <= d <= 2,
            spec_series(Scalar::zero(), first, x2, d as int, SERIES_TERMS as nat) == spec_series(
                acc,
                term,
                x2,
                by as int,
                (SERIES_TERMS - k) as nat,
            ),
        decreases SERIES_TERMS - k,
    {
        acc = acc.add(term);
        assert(by * (by + 1) <= 600) by (nonlinear_arith)
            requires
                1 <= by <= 22,
        ;
        assert(by * (by + 1) * SCALE == (by * (by + 1)) * SCALE) by (nonlinear_arith);
        term = term.mul(x2).div(Scalar::from_int(by * (by + 1))).neg();
        by = by + 2;
        k = k + 1;
    }
    acc
}

impl Scalar {
    pub open spec fn spec_pi() -> Scalar {
        Scalar { raw: PI_RAW }
    }

    /// The ratio of a circle's circumference to its diameter.
    #[verifier::when_used_as_spec(spec_pi)]
    pub fn pi() -> (r: Scalar)
        ensures
            r == Scalar::spec_pi(),
    {
        Scalar { raw: PI_RAW }
    }

    /// The sine of an angle in radians: the first terms of its power series,
    /// `x - x^3 / 3! + x^5 / 5! - ..`.
    pub open spec fn spec_sin(self) -> Scalar {
        spec_series(Scalar::zero(), self, self.mul(self), 2, SERIES_TERMS as nat)
    }

    /// The sine of an angle in radians.
    #[verifier::when_used_as_spec(spec_sin)]
    pub fn sin(self) -> (r: Scalar)
        ensures
            r == self.spec_sin(),
    {
        series(self, self.mul(self), 2)
    }

    /// The cosine of an angle in radians: the first terms of its power
    /// series, `1 - x^2 / 2! + x^4 / 4! - ..`.
    pub open spec fn spec_cos(self) -> Scalar {
        spec_series(Scalar::zero(), Scalar::one(), self.mul(self), 1, SERIES_TERMS as nat)
    }

    /// The cosine of an angle in radians.
    #[verifier::when_used_as_spec(spec_cos)]
    pub fn cos(self) -> (r: Scalar)
        ensures
            r == self.spec_cos(),
    {
        series(Scalar::one(), self.mul(self), 1)
    }

    pub open spec fn spec_tan(self) -> Scalar {
        self.spec_sin().div(self.spec_cos())
    }

    /// The tangent of an angle in radians: the sine divided by the cosine,
    /// and zero where the cosine is zero.
    #[verifier::when_used_as_spec(spec_tan)]
    pub fn tan(self) -> (r: Scalar)
        ensures
            r == self.spec_tan(),
    {
        self.sin().div(self.cos())
    }
}

/// A product divided by one of its nonzero factors is the other factor.
pub proof fn lemma_quotient_of_product(a: int, s: int)
    requires
        s != 0,
    ensures
        quotient(a * s, s) == a,
{
    let pa: int = if a >= 0 {
        a
    } else {
        -a
    };
    let ps: int = if s > 0 {
        s
    } else {
        -s
    };
    vstd::arithmetic::div_mod::lemma_div_multiples_vanish(pa, ps);
    assert(ps * pa == pa * ps && ((a >= 0) == (s > 0) ==> a * s == pa * ps) && ((a >= 0) != (s
        > 0) ==> a * s == -(pa * ps)) && (a == 0 ==> a * s == 0)) by (nonlinear_arith)
        requires
            pa == if a >= 0 {
                a
            } else {
                -a
            },
            ps == if s > 0 {
                s
            } else {
                -s
            },
    ;
    assert(pa > 0 ==> pa * ps > 0) by (nonlinear_arith)
        requires
            ps > 0,
    ;
}

/// The quotient of an exact multiple, multiplied back, is the multiple.
pub proof fn lemma_quotient_exact(n: int, d: int)
    requires
        d > 0,
        n % d == 0,
    ensures
        quotient(n, d) * d == n,
{
    vstd::arithmetic::div_mod::lemma_fundamental_div_mod(n, d);
    if n < 0 {
        vstd::arithmetic::div_mod::lemma_fundamental_div_mod(-n, d);
        let q: int = n / d;
        assert(n == d * q);
        assert(-n == d * (-q)) by (nonlinear_arith)
            requires
                n == d * q,
        ;
        vstd::arithmetic::div_mod::lemma_fundamental_div_mod_converse(-n, d, -q, 0);
        assert(quotient(n, d) == q);
    }
    assert(quotient(n, d) * d == d * quotient(n, d)) by (nonlinear_arith);
}

/// A quotient rounded toward zero, multiplied back, falls short of the
/// dividend by less than the divisor, and never passes it.
pub proof fn lemma_quotient_rounding(n: int, d: int)
    requires
        d > 0,
    ensures
        n >= 0 ==> 0 <= n - quotient(n, d) * d < d,
        n <= 0 ==> 0 <= quotient(n, d) * d - n < d,
{
    let m: int = if n >= 0 {
        n
    } else {
        -n
    };
    vstd::arithmetic::div_mod::lemma_fundamental_div_mod(m, d);
    vstd::arithmetic::div_mod::lemma_mod_bound(m, d);
    let q: int = m / d;
    assert(q * d == d * q && (-q) * d == -(d * q)) by (nonlinear_arith);
}

impl Scalar {
    /// A product that is not saturated is within one millionth of the true
    /// product, on the side of zero.
    pub proof fn lemma_mul_rounding(self, rhs: Scalar)
        requires
            i64::MIN <= quotient(self@ * rhs@, SCALE as int) <= i64::MAX,
        ensures
            self@ * rhs@ >= 0 ==> 0 <= self@ * rhs@ - self.mul(rhs)@ * SCALE < SCALE,
            self@ * rhs@ <= 0 ==> 0 <= self.mul(rhs)@ * SCALE - self@ * rhs@ < SCALE,
    {
        reveal(Scalar::spec_mul);
        lemma_quotient_rounding(self@ * rhs@, SCALE as int);
    }

    /// A product of two numbers of one sign, and a square, is not negative.
    pub proof fn lemma_mul_sign(self, rhs: Scalar)
        requires
            self@ * rhs@ >= 0,
        ensures
            self.mul(rhs)@ >= 0,
    {
        reveal(Scalar::spec_mul);
        lemma_quotient_rounding(self@ * rhs@, SCALE as int);
        let n: int = self@ * rhs@;
        let q: int = quotient(n, SCALE as int);
        assert(q >= 0) by (nonlinear_arith)
            requires
                n >= 0,
                0 <= n - q * SCALE < SCALE,
                SCALE == 1_000_000,
        ;
    }

    /// A product of two numbers of bounded size, whose true product is
    /// within the range, is within one millionth of it, and its size times
    /// the scale is at most the product of the bounds.
    pub proof fn lemma_mul_near(self, rhs: Scalar, la: int, lb: int)
        requires
            -la <= self@ <= la,
            -lb <= rhs@ <= lb,
            0 <= la * lb <= 0x7fff_ffff_ffff_ffff * SCALE,
        ensures
            -SCALE < self.mul(rhs)@ * SCALE - self@ * rhs@ < SCALE,
            -(la * lb) <= self.mul(rhs)@ * SCALE <= la * lb,
            self@ * rhs@ >= 0 ==> self.mul(rhs)@ >= 0,
    {
        reveal(Scalar::spec_mul);
        let s: int = SCALE as int;
        let n: int = self@ * rhs@;
        lemma_product_bound(self@, rhs@, la, lb);
        lemma_quotient_rounding(n, s);
        let q: int = quotient(n, s);
        assert(-0x7fff_ffff_ffff_ffff <= q <= 0x7fff_ffff_ffff_ffff && -(la * lb) <= q * s <= la
            * lb && (n >= 0 ==> q >= 0)) by (nonlinear_arith)
            requires
                -(la * lb) <= n <= la * lb,
                la * lb <= 0x7fff_ffff_ffff_ffff * s,
                n >= 0 ==> 0 <= n - q * s < s,
                n <= 0 ==> 0 <= q * s - n < s,
                s > 0,
        ;
    }

    /// The square of a root is at most the number, and the square of the
    /// next millionth is more: the root of a number that is not negative is
    /// within one millionth of the true root, below it.
    pub proof fn lemma_sqrt_rounding(self)
        requires
            self@ >= 0,
        ensures
            0 <= self.sqrt()@,
            self.sqrt()@ * self.sqrt()@ <= self@ * SCALE < (self.sqrt()@ + 1) * (self.sqrt()@ + 1),
    {
        reveal(Scalar::spec_sqrt);
        let n: int = self@ * SCALE;
        assert(0 <= n <= 0x8000_0000_0000_0000 * 1_000_000) by (nonlinear_arith)
            requires
                n == self@ * SCALE,
                0 <= self@ <= 0x8000_0000_0000_0000,
                SCALE == 1_000_000,
        ;
        if n == 0 {
            assert(is_floor_root(0, 0));
        } else {
            lemma_root_exists(n);
            let r: int = int_sqrt(n);
            assert(is_floor_root(n, r));
            assert(r <= i64::MAX) by (nonlinear_arith)
                requires
                    0 <= r,
                    r * r <= n,
                    n <= 0x8000_0000_0000_0000 * 1_000_000,
            ;
        }
    }

    /// Whether the sum with `rhs` is held without saturation.
    pub open spec fn sum_fits(self, rhs: Scalar) -> bool {
        i64::MIN <= self@ + rhs@ <= i64::MAX
    }

    /// Whether the product with `rhs` is held as it is: it is a whole number
    /// of raw units, and it is not saturated.
    pub open spec fn product_exact(self, rhs: Scalar) -> bool {
        &&& (self@ * rhs@) % (SCALE as int) == 0
        &&& i64::MIN <= quotient(self@ * rhs@, SCALE as int) <= i64::MAX
    }

    /// Whether the difference from `rhs` is held without saturation.
    pub open spec fn difference_fits(self, rhs: Scalar) -> bool {
        i64::MIN <= self@ - rhs@ <= i64::MAX
    }

    /// A product that is held as it is, times the scale, is the product of
    /// the raw values.
    pub proof fn lemma_mul_exact(self, rhs: Scalar)
        requires
            self.product_exact(rhs),
        ensures
            self.mul(rhs)@ * SCALE == self@ * rhs@,
    {
        reveal(Scalar::spec_mul);
        lemma_quotient_exact(self@ * rhs@, SCALE as int);
    }

    /// Adding a number and taking it away again gives back the start,
    /// wherever the sum is held without saturation.
    pub proof fn lemma_add_sub(self, b: Scalar)
        requires
            self.sum_fits(b),
        ensures
            self.add(b).sub(b) == self,
    {
    }

    /// Multiplying by a nonzero number and dividing by it again gives back
    /// the start, wherever the product is held as it is.
    pub proof fn lemma_mul_div(self, s: Scalar)
        requires
            s@ != 0,
            self.product_exact(s),
        ensures
            self.mul(s).div(s) == self,
    {
        reveal(Scalar::spec_mul);
        reveal(Scalar::spec_div);
        lemma_quotient_exact(self@ * s@, SCALE as int);
        lemma_quotient_of_product(self@, s@);
    }

    /// The product does not depend on the order of its factors.
    pub proof fn lemma_mul_commutes(self, rhs: Scalar)
        ensures
            self.mul(rhs) == rhs.mul(self),
    {
        reveal(Scalar::spec_mul);
        assert(self@ * rhs@ == rhs@ * self@) by (nonlinear_arith);
    }

    /// A product with one is the other factor.
    pub proof fn lemma_mul_one(self)
        ensures
            self.mul(Scalar::one()) == self,
            Scalar::one().mul(self) == self,
            self.mul(Scalar::one().neg()) == self.neg(),
            self.mul(Scalar::zero())@ == 0,
            Scalar::zero().mul(self)@ == 0,
    {
        reveal(Scalar::spec_mul);
        lemma_quotient_of_product(self@, SCALE as int);
        lemma_quotient_of_product(-self@, SCALE as int);
        assert(self@ * SCALE == SCALE * self@ && self@ * (-SCALE) == (-self@) * SCALE && self@ * 0
            == 0 && 0 * self@ == 0) by (nonlinear_arith);
    }
}

} // verus!
