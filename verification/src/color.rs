//! Colours: three unclamped fixed-point channels.
use crate::math::scalar::{Scalar, SCALE};
use vstd::prelude::*;

verus! {

/// The raw value of the brightest channel that an output byte shows: 255.
pub const WHITE_RAW: i64 = 255_000_000;

/// `input` held between `min` and `max`, as `num::clamp` gives it: `min` where
/// `input` is below it, `max` where `input` is above it, else `input`.
#[verifier::external_body]
fn clamp_raw(input: i64, min: i64, max: i64) -> (r: i64)
    requires
        min <= max,
    ensures
        r == if input < min {
            min
        } else if input > max {
            max
        } else {
            input
        },
{
    num::clamp(input, min, max)
}

/// The byte that shows a channel: the whole part of 255 times the channel,
/// held between 0 and 255.
pub open spec fn channel_byte(c: Scalar) -> u8 {
    let scaled: int = c.mul(Scalar::from_int(255))@;
    if scaled < 0 {
        0u8
    } else if scaled > WHITE_RAW {
        255u8
    } else {
        (scaled / (SCALE as int)) as u8
    }
}

fn to_byte(c: Scalar) -> (r: u8)
    ensures
        r == channel_byte(c),
{
    let scaled: Scalar = c.mul(Scalar::from_int(255));
    let held: i64 = clamp_raw(scaled.raw, 0, WHITE_RAW);
    (held / SCALE) as u8
}

/// Radiance or reflectance in red, green and blue.
#[derive(Clone, Copy, Debug, PartialEq, Eq, Structural)]
pub struct Color {
    pub r: Scalar,
    pub g: Scalar,
    pub b: Scalar,
}

impl Color {
    pub open spec fn spec_new(r: Scalar, g: Scalar, b: Scalar) -> Color {
        Color { r, g, b }
    }

    /// The colour with the given channels.
    #[verifier::when_used_as_spec(spec_new)]
    pub fn new(r: Scalar, g: Scalar, b: Scalar) -> (c: Color)
        ensures
            c == Color::spec_new(r, g, b),
    {
        Color { r, g, b }
    }

    pub open spec fn black() -> Color {
        Color { r: Scalar::zero(), g: Scalar::zero(), b: Scalar::zero() }
    }

    /// The three output bytes of the colour.
    pub fn to_u8_array(&self) -> (a: [u8; 3])
        ensures
            a[0] == channel_byte(self.r),
            a[1] == channel_byte(self.g),
            a[2] == channel_byte(self.b),
    {
        [to_byte(self.r), to_byte(self.g), to_byte(self.b)]
    }

    pub open spec fn spec_is_not_black(&self) -> bool {
        self.r@ != 0 || self.g@ != 0 || self.b@ != 0
    }

    /// Whether some channel is not zero.
    #[verifier::when_used_as_spec(spec_is_not_black)]
    pub fn is_not_black(&self) -> (r: bool)
        ensures
            r == self.spec_is_not_black(),
    {
        self.r.raw != 0 || self.g.raw != 0 || self.b.raw != 0
    }

    pub open spec fn spec_add(self, rhs: Color) -> Color {
        Color { r: self.r.add(rhs.r), g: self.g.add(rhs.g), b: self.b.add(rhs.b) }
    }

    /// The sum, channel by channel.
    #[verifier::when_used_as_spec(spec_add)]
    pub fn add(self, rhs: Color) -> (r: Color)
        ensures
            r == self.spec_add(rhs),
    {
        Color { r: self.r.add(rhs.r), g: self.g.add(rhs.g), b: self.b.add(rhs.b) }
    }

    /// Adds `other` in place.
    pub fn add_assign(&mut self, other: Color)
        ensures
            *final(self) == old(self).spec_add(other),
    {
        *self = self.add(other);
    }

    pub open spec fn spec_sub(self, rhs: Color) -> Color {
        Color { r: self.r.sub(rhs.r), g: self.g.sub(rhs.g), b: self.b.sub(rhs.b) }
    }

    /// The difference, channel by channel.
    #[verifier::when_used_as_spec(spec_sub)]
    pub fn sub(self, rhs: Color) -> (r: Color)
        ensures
            r == self.spec_sub(rhs),
    {
        Color { r: self.r.sub(rhs.r), g: self.g.sub(rhs.g), b: self.b.sub(rhs.b) }
    }

    /// Subtracts `other` in place.
    pub fn sub_assign(&mut self, other: Color)
        ensures
            *final(self) == old(self).spec_sub(other),
    {
        *self = self.sub(other);
    }

    pub open spec fn spec_neg(self) -> Color {
        Color { r: self.r.neg(), g: self.g.neg(), b: self.b.neg() }
    }

    /// The negated colour.
    #[verifier::when_used_as_spec(spec_neg)]
    pub fn neg(self) -> (r: Color)
        ensures
            r == self.spec_neg(),
    {
        Color { r: self.r.neg(), g: self.g.neg(), b: self.b.neg() }
    }

    pub open spec fn spec_mul(self, rhs: Scalar) -> Color {
        Color { r: self.r.mul(rhs), g: self.g.mul(rhs), b: self.b.mul(rhs) }
    }

    /// The colour scaled by `rhs`.
    #[verifier::when_used_as_spec(spec_mul)]
    pub fn mul(self, rhs: Scalar) -> (r: Color)
        ensures
            r == self.spec_mul(rhs),
    {
        Color { r: self.r.mul(rhs), g: self.g.mul(rhs), b: self.b.mul(rhs) }
    }

    pub open spec fn spec_mul_color(self, rhs: Color) -> Color {
        Color { r: self.r.mul(rhs.r), g: self.g.mul(rhs.g), b: self.b.mul(rhs.b) }
    }

    /// The product, channel by channel.
    #[verifier::when_used_as_spec(spec_mul_color)]
    pub fn mul_color(self, rhs: Color) -> (r: Color)
        ensures
            r == self.spec_mul_color(rhs),
    {
        Color { r: self.r.mul(rhs.r), g: self.g.mul(rhs.g), b: self.b.mul(rhs.b) }
    }

    /// Scales by `other` in place.
    pub fn mul_assign(&mut self, other: Scalar)
        ensures
            *final(self) == old(self).spec_mul(other),
    {
        *self = self.mul(other);
    }

    pub open spec fn spec_div(self, rhs: Scalar) -> Color {
        Color { r: self.r.div(rhs), g: self.g.div(rhs), b: self.b.div(rhs) }
    }

    /// The colour divided by `rhs`; black where `rhs` is zero.
    #[verifier::when_used_as_spec(spec_div)]
    pub fn div(self, rhs: Scalar) -> (r: Color)
        ensures
            r == self.spec_div(rhs),
    {
        Color { r: self.r.div(rhs), g: self.g.div(rhs), b: self.b.div(rhs) }
    }

    /// Divides by `other` in place.
    pub fn div_assign(&mut self, other: Scalar)
        ensures
            *final(self) == old(self).spec_div(other),
    {
        *self = self.div(other);
    }
}

impl Color {
    /// Whether the sum with `rhs` is held without saturation in every channel.
    pub open spec fn sum_fits(self, rhs: Color) -> bool {
        self.r.sum_fits(rhs.r) && self.g.sum_fits(rhs.g) && self.b.sum_fits(rhs.b)
    }

    /// Whether the product with `s` is held as it is in every channel.
    pub open spec fn product_exact(self, s: Scalar) -> bool {
        self.r.product_exact(s) && self.g.product_exact(s) && self.b.product_exact(s)
    }

    /// `(a + b) - b == a`, wherever the sum is held without saturation.
    pub proof fn lemma_add_sub(self, b: Color)
        requires
            self.sum_fits(b),
        ensures
            self.add(b).sub(b) == self,
    {
        self.r.lemma_add_sub(b.r);
        self.g.lemma_add_sub(b.g);
        self.b.lemma_add_sub(b.b);
    }

    /// `(a * s) / s == a` for a nonzero `s`, wherever the product is held as
    /// it is.
    pub proof fn lemma_mul_div(self, s: Scalar)
        requires
            s@ != 0,
            self.product_exact(s),
        ensures
            self.mul(s).div(s) == self,
    {
        self.r.lemma_mul_div(s);
        self.g.lemma_mul_div(s);
        self.b.lemma_mul_div(s);
    }
}

} // verus!
