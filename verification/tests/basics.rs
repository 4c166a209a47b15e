use raytracer::color::Color;
use raytracer::math::{Matrix, Ray, Scalar, Vector};

fn s(x: f64) -> Scalar {
    Scalar { raw: (x * 1e6).round() as i64 }
}

fn v(x: f64, y: f64, z: f64) -> Vector {
    Vector { x: s(x), y: s(y), z: s(z) }
}

#[test]
fn it_works() {
    assert_eq!(2 + 2, 4);
}

#[test]
fn scalar_one_is_a_million_raw_units() {
    assert_eq!(Scalar::one().raw, 1_000_000);
    assert_eq!(Scalar::zero().raw, 0);
    assert_eq!(Scalar::from_int(3).raw, 3_000_000);
    assert_eq!(Scalar::from_int(-7).raw, -7_000_000);
}

#[test]
fn scalar_from_int_saturates() {
    assert_eq!(Scalar::from_int(i64::MAX).raw, i64::MAX);
    assert_eq!(Scalar::from_int(i64::MIN).raw, i64::MIN);
}

#[test]
fn scalar_sum_and_difference() {
    assert_eq!(s(1.5).add(s(2.25)), s(3.75));
    assert_eq!(s(1.5).sub(s(2.25)), s(-0.75));
    assert_eq!(s(1.5).neg(), s(-1.5));
}

#[test]
fn scalar_sum_saturates() {
    let big = Scalar { raw: i64::MAX };
    assert_eq!(big.add(s(1.0)).raw, i64::MAX);
    assert_eq!(big.neg().sub(s(100.0)).raw, i64::MIN);
    assert_eq!(Scalar { raw: i64::MIN }.neg().raw, i64::MAX);
}

#[test]
fn scalar_product_rounds_toward_zero() {
    assert_eq!(s(1.5).mul(s(2.0)), s(3.0));
    assert_eq!(s(-1.5).mul(s(2.0)), s(-3.0));
    // 0.000001 * 0.5 is half a raw unit: it is dropped, with either sign
    assert_eq!(Scalar { raw: 1 }.mul(s(0.5)).raw, 0);
    assert_eq!(Scalar { raw: -1 }.mul(s(0.5)).raw, 0);
    assert_eq!(Scalar { raw: 3 }.mul(s(0.5)).raw, 1);
    assert_eq!(Scalar { raw: -3 }.mul(s(0.5)).raw, -1);
}

#[test]
fn scalar_product_saturates() {
    let big = Scalar { raw: i64::MAX };
    assert_eq!(big.mul(s(2.0)).raw, i64::MAX);
    assert_eq!(big.mul(s(-2.0)).raw, i64::MIN);
}

#[test]
fn scalar_quotient_rounds_toward_zero() {
    assert_eq!(s(3.0).div(s(2.0)), s(1.5));
    assert_eq!(s(1.0).div(s(3.0)).raw, 333_333);
    assert_eq!(s(-1.0).div(s(3.0)).raw, -333_333);
    assert_eq!(s(1.0).div(s(-3.0)).raw, -333_333);
    assert_eq!(s(-1.0).div(s(-3.0)).raw, 333_333);
}

#[test]
fn scalar_division_by_zero_is_zero() {
    assert_eq!(s(3.0).div(Scalar::zero()).raw, 0);
    assert_eq!(s(-3.0).div(Scalar::zero()).raw, 0);
    assert_eq!(Scalar::zero().div(Scalar::zero()).raw, 0);
}

#[test]
fn scalar_quotient_saturates() {
    let big = Scalar { raw: i64::MAX };
    assert_eq!(big.div(s(0.5)).raw, i64::MAX);
    assert_eq!(big.div(s(-0.5)).raw, i64::MIN);
}

#[test]
fn scalar_square_root() {
    assert_eq!(s(4.0).sqrt(), s(2.0));
    assert_eq!(s(1.0).sqrt(), s(1.0));
    assert_eq!(s(0.0).sqrt(), s(0.0));
    assert_eq!(s(2.0).sqrt().raw, 1_414_213);
    assert_eq!(s(0.25).sqrt(), s(0.5));
    assert_eq!(Scalar { raw: 1 }.sqrt().raw, 1_000);
}

#[test]
fn scalar_square_root_of_negative_is_zero() {
    assert_eq!(s(-4.0).sqrt().raw, 0);
}

#[test]
fn scalar_square_root_of_largest() {
    // the root of 9223372036854.775807 is 3037000.499976...
    assert_eq!(Scalar { raw: i64::MAX }.sqrt().raw, 3_037_000_499_976);
}

#[test]
fn scalar_powers() {
    assert_eq!(s(2.0).powi(0), s(1.0));
    assert_eq!(s(2.0).powi(1), s(2.0));
    assert_eq!(s(2.0).powi(10), s(1024.0));
    assert_eq!(s(0.5).powi(2), s(0.25));
    assert_eq!(s(0.0).powi(0), s(1.0));
    assert_eq!(s(0.0).powi(5), s(0.0));
}

#[test]
fn scalar_power_that_vanishes_stays_zero() {
    // 0.001^2 is one raw unit, 0.001^3 is below it
    assert_eq!(s(0.001).powi(2).raw, 1);
    assert_eq!(s(0.001).powi(3).raw, 0);
    assert_eq!(s(0.001).powi(4_000_000_000).raw, 0);
}

#[test]
fn scalar_powers_with_any_exponent() {
    assert_eq!(s(4.0).pow(s(0.5)), s(2.0));
    assert_eq!(s(0.25).pow(s(1.5)), s(0.125));
    assert_eq!(s(2.0).pow(s(10.0)), s(1024.0));
    assert_eq!(s(2.0).pow(s(-1.0)), s(0.5));
    assert_eq!(s(0.8).pow(s(2.0)), s(0.64));
    assert_eq!(s(7.0).pow(s(0.0)), s(1.0));
    assert_eq!(s(0.0).pow(s(0.0)), s(1.0));
    assert_eq!(s(0.0).pow(s(0.3)), s(0.0));
    assert_eq!(s(1.0).pow(s(123.456)), s(1.0));
    // 2 to the power of a quarter is 1.189207
    assert!((s(2.0).pow(s(0.25)).raw - 1_189_207).abs() < 5);
    // 0.8 to the power of 2.9 is 0.523553
    assert!((s(0.8).pow(s(2.9)).raw - 523_553).abs() < 20);
    // 10 to the power of a third is 2.154434
    assert!((s(10.0).pow(Scalar { raw: 333_333 }).raw - 2_154_434).abs() < 40);
}

#[test]
fn scalar_min_max_whole() {
    assert_eq!(s(1.0).min(s(2.0)), s(1.0));
    assert_eq!(s(1.0).max(s(2.0)), s(2.0));
    assert_eq!(s(-1.0).max(Scalar::zero()), Scalar::zero());
    assert_eq!(s(16.0).whole(), 16);
    assert_eq!(s(16.9).whole(), 16);
    assert_eq!(s(-3.0).whole(), 0);
    assert_eq!(s(0.5).whole(), 0);
    assert_eq!(Scalar { raw: i64::MAX }.whole(), u32::MAX);
}

#[test]
fn scalar_trigonometry_is_close() {
    let quarter = Scalar::pi().div(Scalar::from_int(4));
    assert!((quarter.tan().raw - 1_000_000).abs() < 20);
    assert_eq!(Scalar::zero().sin().raw, 0);
    assert_eq!(Scalar::zero().cos().raw, 1_000_000);
    assert_eq!(Scalar::zero().tan().raw, 0);
    let half = Scalar::pi().div(Scalar::from_int(2));
    assert!((half.sin().raw - 1_000_000).abs() < 20);
    assert!(half.cos().raw.abs() < 20);
    let sixth = Scalar::pi().div(Scalar::from_int(6));
    assert!((sixth.sin().raw - 500_000).abs() < 20);
}

#[test]
fn vector_new_is_origin() {
    assert_eq!(Vector::new(), v(0.0, 0.0, 0.0));
    assert_eq!(Ray::new().pos, Vector::new());
    assert_eq!(Ray::new().dir, Vector::new());
}

#[test]
fn vector_dot_and_cross() {
    let a = v(1.0, 2.0, 3.0);
    let b = v(4.0, -5.0, 6.0);
    assert_eq!(a.dot(&b), s(12.0));
    assert_eq!(a.cross(&b), v(27.0, 6.0, -13.0));
    assert_eq!(v(1.0, 0.0, 0.0).cross(&v(0.0, 1.0, 0.0)), v(0.0, 0.0, 1.0));
}

#[test]
fn vector_magnitude_and_normalized() {
    let a = v(3.0, 0.0, 4.0);
    assert_eq!(a.magnitude(), s(5.0));
    assert_eq!(a.normalized(), v(0.6, 0.0, 0.8));
    let mut b = v(0.0, -2.0, 0.0);
    b.normalize();
    assert_eq!(b, v(0.0, -1.0, 0.0));
}

#[test]
fn short_vector_keeps_its_direction() {
    let tiny = Vector { x: Scalar { raw: 1 }, y: Scalar { raw: 0 }, z: Scalar { raw: 0 } };
    assert_eq!(tiny.normalized(), v(1.0, 0.0, 0.0));
    let tiny = Vector { x: Scalar { raw: -3 }, y: Scalar { raw: 0 }, z: Scalar { raw: 4 } };
    assert_eq!(tiny.normalized(), v(-0.6, 0.0, 0.8));
    let tiny = Vector { x: Scalar { raw: 1 }, y: Scalar { raw: 1 }, z: Scalar { raw: 0 } };
    let n = tiny.normalized();
    assert_eq!((n.x.raw, n.y.raw, n.z.raw), (707_106, 707_106, 0));
}

#[test]
fn long_vector_is_normalized_without_saturating() {
    let long = Vector { x: Scalar { raw: i64::MAX }, y: Scalar { raw: 0 }, z: Scalar { raw: i64::MIN } };
    let n = long.normalized();
    assert!((n.x.raw - 707_106).abs() <= 1);
    assert_eq!(n.y.raw, 0);
    assert!((n.z.raw + 707_106).abs() <= 1);
}

#[test]
fn vector_of_no_length_normalizes_to_origin() {
    assert_eq!(Vector::new().normalized(), Vector::new());
    let mut z = Vector::new();
    z.normalize();
    assert_eq!(z, Vector::new());
}

#[test]
fn vector_arithmetic() {
    let a = v(1.0, 2.0, 3.0);
    let b = v(0.5, 0.5, 0.5);
    assert_eq!(a.add(b), v(1.5, 2.5, 3.5));
    assert_eq!(a.sub(b), v(0.5, 1.5, 2.5));
    assert_eq!(a.neg(), v(-1.0, -2.0, -3.0));
    assert_eq!(a.mul(s(2.0)), v(2.0, 4.0, 6.0));
    assert_eq!(a.div(s(2.0)), v(0.5, 1.0, 1.5));
    assert_eq!(a.div(Scalar::zero()), Vector::new());
    let mut c = a;
    c.add_assign(b);
    assert_eq!(c, v(1.5, 2.5, 3.5));
    c.sub_assign(b);
    assert_eq!(c, a);
    c.mul_assign(s(4.0));
    assert_eq!(c, v(4.0, 8.0, 12.0));
    c.div_assign(s(4.0));
    assert_eq!(c, a);
}

#[test]
fn vector_equality_reads_every_coordinate() {
    assert_ne!(v(1.0, 2.0, 3.0), v(1.0, 2.0, 4.0));
    assert_ne!(v(1.0, 2.0, 3.0), v(1.0, 0.0, 3.0));
    assert_ne!(v(1.0, 2.0, 3.0), v(0.0, 2.0, 3.0));
}

#[test]
fn reflection_about_an_axis_reverses_the_part_along_it() {
    let d = v(0.3, -0.4, 0.5);
    let n = v(0.0, 0.0, 1.0);
    let r = d.reflect(&n);
    assert_eq!(r, v(0.3, -0.4, -0.5));
    assert_eq!(r.dot(&n), d.dot(&n).neg());
    assert_eq!(r.magnitude(), d.magnitude());
    let m = v(0.0, -1.0, 0.0);
    let q = d.reflect(&m);
    assert_eq!(q, v(0.3, 0.4, 0.5));
    assert_eq!(q.dot(&m), d.dot(&m).neg());
    assert_eq!(q.magnitude(), d.magnitude());
}

#[test]
fn reflection_of_a_ray_that_falls_on_a_floor() {
    let d = v(1.0, -1.0, 0.0);
    let n = v(0.0, 1.0, 0.0);
    let r = d.reflect(&n);
    assert_eq!(r, v(1.0, 1.0, 0.0));
    assert_eq!(r.dot(&n), s(1.0));
    assert_eq!(r.dot(&r), s(2.0));
}

#[test]
fn reflection_about_a_slanted_normal() {
    // n = (0.6, 0.8, 0), d = (1, 0, 0): d - 2 (d.n) n = (0.28, -0.96, 0)
    let n = v(0.6, 0.8, 0.0);
    let d = v(1.0, 0.0, 0.0);
    let r = d.reflect(&n);
    assert_eq!(r, v(0.28, -0.96, 0.0));
    assert_eq!(n.dot(&n), s(1.0));
    assert_eq!(r.dot(&n), d.dot(&n).neg());
    assert_eq!(r.dot(&r), d.dot(&d));
    assert_eq!(r.magnitude(), d.magnitude());
    let d = v(5.0, -2.5, 7.0);
    let r = d.reflect(&n);
    assert_eq!(r, v(3.8, -4.1, 7.0));
    assert_eq!(r.dot(&n), d.dot(&n).neg());
    assert_eq!(r.dot(&r), d.dot(&d));
    assert_eq!(r.magnitude(), d.magnitude());
}

#[test]
fn reflection_that_is_rounded_keeps_angle_and_length_only_nearly() {
    let n = v(1.0, 1.0, 1.0).normalized();
    let d = v(0.3, -0.4, 0.5);
    let r = d.reflect(&n);
    assert!((r.dot(&n).raw + d.dot(&n).raw).abs() < 10);
    assert!((r.magnitude().raw - d.magnitude().raw).abs() < 10);
}

#[test]
fn reflection_of_a_tiny_vector_is_lost_in_rounding() {
    // three millionths along x, at a surface with the normal (0.6, 0.8, 0)
    let n = v(0.6, 0.8, 0.0);
    let d = Vector { x: Scalar { raw: 3 }, y: Scalar { raw: 0 }, z: Scalar { raw: 0 } };
    let r = d.reflect(&n);
    assert_eq!(d.dot(&n).raw, 1);
    assert_eq!((r.x.raw, r.y.raw, r.z.raw), (2, -1, 0));
    assert_eq!(r.dot(&n).raw, 1);
}

#[test]
fn saturated_sum_does_not_round_trip() {
    let a = s(1.0);
    let b = Scalar { raw: i64::MAX };
    assert_eq!(a.add(b).sub(b).raw, 0);
}

#[test]
fn rounded_product_does_not_round_trip() {
    // one raw unit times a half is dropped, and cannot come back
    let a = Scalar { raw: 1 };
    assert_eq!(a.mul(s(0.5)).div(s(0.5)).raw, 0);
}

#[test]
fn determinant() {
    let m = Matrix { v: [v(1.0, 0.0, 0.0), v(0.0, 1.0, 0.0), v(0.0, 0.0, 1.0)] };
    assert_eq!(m.det(), s(1.0));
    let m = Matrix { v: [v(2.0, 0.0, 1.0), v(1.0, 3.0, 2.0), v(1.0, 1.0, 1.0)] };
    // 2 (3 - 2) - 1 (0 - 1) + 1 (0 - 3) = 0
    assert_eq!(m.det(), s(0.0));
    let m = Matrix { v: [v(1.0, 2.0, 3.0), v(4.0, 5.0, 6.0), v(7.0, 8.0, 10.0)] };
    assert_eq!(m.det(), s(-3.0));
}

#[test]
fn ray_point() {
    let r = Ray { pos: v(1.0, 2.0, 3.0), dir: v(0.0, 0.0, -1.0) };
    assert_eq!(r.find_point(s(2.5)), v(1.0, 2.0, 0.5));
}

#[test]
fn color_bytes_are_clamped() {
    let c = Color::new(s(0.5), s(2.0), s(-1.0));
    assert_eq!(c.to_u8_array(), [127, 255, 0]);
    let c = Color::new(s(1.0), s(0.0), s(0.999999));
    assert_eq!(c.to_u8_array(), [255, 0, 254]);
}

#[test]
fn color_black_test() {
    assert!(!Color::new(s(0.0), s(0.0), s(0.0)).is_not_black());
    assert!(Color::new(s(0.0), s(0.0), s(0.000001)).is_not_black());
    assert!(Color::new(s(0.0), s(-1.0), s(0.0)).is_not_black());
    assert!(Color::new(s(1.0), s(0.0), s(0.0)).is_not_black());
}

#[test]
fn color_arithmetic() {
    let a = Color::new(s(0.5), s(0.25), s(1.0));
    let b = Color::new(s(0.5), s(0.5), s(0.5));
    assert_eq!(a.add(b), Color::new(s(1.0), s(0.75), s(1.5)));
    assert_eq!(a.sub(b), Color::new(s(0.0), s(-0.25), s(0.5)));
    assert_eq!(a.neg(), Color::new(s(-0.5), s(-0.25), s(-1.0)));
    assert_eq!(a.mul(s(2.0)), Color::new(s(1.0), s(0.5), s(2.0)));
    assert_eq!(a.mul_color(b), Color::new(s(0.25), s(0.125), s(0.5)));
    assert_eq!(a.div(s(2.0)), Color::new(s(0.25), s(0.125), s(0.5)));
    let mut c = a;
    c.add_assign(b);
    c.sub_assign(b);
    c.mul_assign(s(2.0));
    c.div_assign(s(2.0));
    assert_eq!(c, a);
}
