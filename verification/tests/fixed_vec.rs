//! Exact arithmetic of the fixed-point scalars and vectors.

use pathtracer::fixed::{Fixed, MAX_RAW, SCALE};
use pathtracer::vec3::Vec3;

fn fx(n: i64) -> Fixed {
    Fixed::from_int(n)
}

#[test]
fn add_and_sub_are_exact_in_range() {
    assert_eq!(fx(3).add(fx(4)).raw, 7 * SCALE);
    assert_eq!(fx(3).sub(fx(5)).raw, -2 * SCALE);
    assert_eq!(fx(0).add(fx(0)).raw, 0);
    assert_eq!(fx(-7).neg().raw, 7 * SCALE);
}

#[test]
fn add_saturates_at_the_bound() {
    let top = Fixed::from_raw(MAX_RAW);
    assert_eq!(top.add(Fixed::one()).raw, MAX_RAW);
    assert_eq!(top.neg().sub(Fixed::one()).raw, -MAX_RAW);
}

#[test]
fn mul_scales_and_truncates_toward_zero() {
    assert_eq!(fx(3).mul(fx(2)).raw, 6 * SCALE);
    assert_eq!(Fixed::from_raw(98304).mul(fx(2)).raw, 196608);
    assert_eq!(fx(-1).mul(Fixed::from_raw(32768)).raw, -32768);
    // 255/65536 squared is below one raw unit: truncates to zero.
    assert_eq!(Fixed::from_raw(255).mul(Fixed::from_raw(255)).raw, 0);
    assert_eq!(fx(0).mul(fx(5)).raw, 0);
}

#[test]
fn div_rounds_toward_zero_and_absorbs_zero_divisors() {
    assert_eq!(fx(3).div(fx(2)).raw, 98304);
    assert_eq!(fx(-3).div(fx(2)).raw, -98304);
    assert_eq!(fx(1).div(fx(3)).raw, 21845);
    assert_eq!(fx(-1).div(fx(3)).raw, -21845);
    assert_eq!(fx(5).div(fx(0)).raw, 0);
}

#[test]
fn sqrt_matches_integer_square_roots() {
    assert_eq!(fx(4).sqrt().raw, 2 * SCALE);
    assert_eq!(fx(25).sqrt().raw, 5 * SCALE);
    assert_eq!(fx(2).sqrt().raw, 92681);
    assert_eq!(fx(0).sqrt().raw, 0);
    assert_eq!(fx(-1).sqrt().raw, 0);
}

#[test]
fn vector_length_is_exact_on_pythagorean_triples() {
    let v = Vec3::new(fx(3), fx(4), fx(0));
    assert_eq!(v.length().raw, 5 * SCALE);
}

#[test]
fn vector_normalization_divides_by_the_length() {
    let v = Vec3::new(fx(3), fx(4), fx(0));
    let u = v.normalized().unwrap();
    assert_eq!(u.x.raw, 39321);
    assert_eq!(u.y.raw, 52428);
    assert_eq!(u.z.raw, 0);
}

#[test]
fn zero_vector_has_no_direction() {
    assert!(Vec3::zero().normalized().is_none());
}

#[test]
fn dot_and_cross_products() {
    let a = Vec3::new(fx(1), fx(2), fx(3));
    let b = Vec3::new(fx(4), fx(5), fx(6));
    assert_eq!(a.dot(b).raw, 32 * SCALE);
    let x = Vec3::new(fx(1), fx(0), fx(0));
    let y = Vec3::new(fx(0), fx(1), fx(0));
    let c = x.cross(y);
    assert_eq!((c.x.raw, c.y.raw, c.z.raw), (0, 0, SCALE));
}
