//! Fixed-point numbers, roots and vectors on chosen values.

use kinetics::physics::roots::isqrt;
use kinetics::physics::scalar::{saturate_wide, Scalar, SCALE};
use kinetics::physics::vector::Vec2;

fn fx(x: f64) -> Scalar {
    Scalar::from_raw((x * 1e6).round() as i64)
}

fn v(x: f64, y: f64) -> Vec2 {
    Vec2::new(fx(x), fx(y))
}

#[test]
fn scale_is_a_million() {
    assert_eq!(SCALE, 1_000_000);
    assert_eq!(Scalar::one().raw(), 1_000_000);
    assert_eq!(Scalar::zero().raw(), 0);
    assert_eq!(Scalar::from_int(600).raw(), 600_000_000);
    assert_eq!(Scalar::from_int(-3).raw(), -3_000_000);
}

#[test]
fn from_int_clamps() {
    assert_eq!(Scalar::from_int(i64::MAX).raw(), i64::MAX);
    assert_eq!(Scalar::from_int(i64::MIN).raw(), i64::MIN);
    assert_eq!(Scalar::from_int(9_223_372_036_854).raw(), 9_223_372_036_854_000_000);
    assert_eq!(Scalar::from_int(9_223_372_036_855).raw(), i64::MAX);
}

#[test]
fn sums_and_differences_clamp() {
    assert_eq!(fx(1.5).plus(fx(2.25)).raw(), 3_750_000);
    assert_eq!(fx(1.5).minus(fx(2.25)).raw(), -750_000);
    assert_eq!(Scalar::from_raw(i64::MAX).plus(Scalar::from_raw(1)).raw(), i64::MAX);
    assert_eq!(Scalar::from_raw(i64::MIN).minus(Scalar::from_raw(1)).raw(), i64::MIN);
    assert_eq!(Scalar::from_raw(i64::MIN).negated().raw(), i64::MAX);
    assert_eq!(fx(2.5).negated().raw(), -2_500_000);
}

#[test]
fn products_round_toward_zero() {
    assert_eq!(fx(1.5).times(fx(2.0)).raw(), 3_000_000);
    assert_eq!(Scalar::from_raw(1).times(Scalar::from_raw(999_999)).raw(), 0);
    assert_eq!(Scalar::from_raw(-1).times(Scalar::from_raw(999_999)).raw(), 0);
    assert_eq!(Scalar::from_raw(3).times(Scalar::from_raw(500_000)).raw(), 1);
    assert_eq!(Scalar::from_raw(-3).times(Scalar::from_raw(500_000)).raw(), -1);
    assert_eq!(fx(1.33).times(fx(-3.0)).raw(), -3_990_000);
    assert_eq!(Scalar::from_raw(i64::MAX).times(Scalar::from_raw(i64::MAX)).raw(), i64::MAX);
    assert_eq!(Scalar::from_raw(i64::MIN).times(Scalar::from_raw(i64::MAX)).raw(), i64::MIN);
}

#[test]
fn quotients_round_toward_zero() {
    assert_eq!(fx(1.0).divided_by(fx(3.0)).unwrap().raw(), 333_333);
    assert_eq!(fx(-1.0).divided_by(fx(3.0)).unwrap().raw(), -333_333);
    assert_eq!(fx(1.0).divided_by(fx(-3.0)).unwrap().raw(), -333_333);
    assert_eq!(fx(-1.0).divided_by(fx(-3.0)).unwrap().raw(), 333_333);
    assert_eq!(fx(7.0).divided_by(fx(0.5)).unwrap().raw(), 14_000_000);
    assert_eq!(Scalar::from_raw(i64::MAX).divided_by(Scalar::from_raw(1)).unwrap().raw(), i64::MAX);
}

#[test]
fn division_by_zero_is_none() {
    assert!(fx(1.0).divided_by(Scalar::zero()).is_none());
    assert!(Scalar::zero().divided_by(Scalar::zero()).is_none());
}

#[test]
fn halves_round_toward_zero() {
    assert_eq!(fx(0.25).halved().raw(), 125_000);
    assert_eq!(Scalar::from_raw(3).halved().raw(), 1);
    assert_eq!(Scalar::from_raw(-3).halved().raw(), -1);
    assert_eq!(Scalar::from_raw(1).halved().raw(), 0);
}

#[test]
fn wide_values_are_clamped() {
    assert_eq!(saturate_wide(1i128 << 70), i64::MAX);
    assert_eq!(saturate_wide(-(1i128 << 70)), i64::MIN);
    assert_eq!(saturate_wide(i128::MAX), i64::MAX);
    assert_eq!(saturate_wide(i128::MIN), i64::MIN);
    assert_eq!(saturate_wide(-17), -17);
}

#[test]
fn integer_roots() {
    assert_eq!(isqrt(0), 0);
    assert_eq!(isqrt(1), 1);
    assert_eq!(isqrt(3), 1);
    assert_eq!(isqrt(4), 2);
    assert_eq!(isqrt(24), 4);
    assert_eq!(isqrt(25), 5);
    assert_eq!(isqrt(1_000_000_000_000), 1_000_000);
    assert_eq!(isqrt(999_999_999_999), 999_999);
    assert_eq!(isqrt(u128::MAX), u64::MAX);
    assert_eq!(isqrt((u64::MAX as u128) * (u64::MAX as u128)), u64::MAX);
    assert_eq!(isqrt((u64::MAX as u128) * (u64::MAX as u128) - 1), u64::MAX - 1);
}

#[test]
fn vector_sums() {
    assert_eq!(v(1.0, 2.0).plus(v(0.5, -3.0)), v(1.5, -1.0));
    assert_eq!(v(1.0, 2.0).minus(v(0.5, -3.0)), v(0.5, 5.0));
    assert_eq!(v(1.0, -2.0).negated(), v(-1.0, 2.0));
    assert_eq!(Vec2::zero(), v(0.0, 0.0));
    assert_eq!(v(1.0, 2.0).perp(), v(-2.0, 1.0));
    assert_eq!(v(3.0, -4.0).scaled(fx(1.33)), v(3.99, -5.32));
    assert_eq!(v(3.0, -4.0).over(fx(2.0)), Some(v(1.5, -2.0)));
    assert_eq!(v(3.0, -4.0).over(Scalar::zero()), None);
}

#[test]
fn dot_products() {
    assert_eq!(v(1.0, 2.0).dot(v(3.0, 4.0)), fx(11.0));
    assert_eq!(v(1.0, 0.0).dot(v(0.0, 1.0)), fx(0.0));
    assert_eq!(v(0.5, 0.0).dot(v(-0.25, 9.0)), fx(-0.125));
    // one rounding for the whole sum: 0.000001 * 0.6 + 0.000001 * 0.6 is 0.0000012
    let tiny = Vec2::new(Scalar::from_raw(1), Scalar::from_raw(1));
    assert_eq!(tiny.dot(v(0.6, 0.6)).raw(), 1);
    let huge = Vec2::new(Scalar::from_raw(i64::MIN), Scalar::from_raw(i64::MIN));
    assert_eq!(huge.dot(huge).raw(), i64::MAX);
    assert_eq!(huge.dot(huge.negated()).raw(), i64::MIN);
}

#[test]
fn lengths() {
    assert_eq!(v(3.0, 4.0).length(), fx(5.0));
    assert_eq!(v(-3.0, 4.0).length(), fx(5.0));
    assert_eq!(v(0.0, 0.0).length(), fx(0.0));
    assert_eq!(v(1.0, 1.0).length().raw(), 1_414_213);
    assert_eq!(v(10.0, 10.0).length().raw(), 14_142_135);
    let huge = Vec2::new(Scalar::from_raw(i64::MIN), Scalar::from_raw(i64::MIN));
    assert_eq!(huge.length().raw(), i64::MAX);
}

#[test]
fn unit_vectors() {
    assert_eq!(v(3.0, 4.0).normalized(), Some(v(0.6, 0.8)));
    assert_eq!(v(-3.0, 4.0).normalized(), Some(v(-0.6, 0.8)));
    assert_eq!(v(0.0, -7.5).normalized(), Some(v(0.0, -1.0)));
    assert_eq!(v(0.000001, 0.0).normalized(), Some(v(1.0, 0.0)));
    let diagonal = v(1.0, 1.0).normalized().unwrap();
    assert_eq!(diagonal.x.raw(), 707_106);
    assert_eq!(diagonal.y.raw(), 707_106);
    let tiny = Vec2::new(Scalar::from_raw(1), Scalar::from_raw(-1)).normalized().unwrap();
    assert_eq!(tiny.x.raw(), 707_106);
    assert_eq!(tiny.y.raw(), -707_106);
}

#[test]
fn unit_vector_of_nothing_is_none() {
    assert_eq!(v(0.0, 0.0).normalized(), None);
}

#[test]
fn unit_vectors_of_huge_vectors() {
    let far = Vec2::new(Scalar::from_raw(i64::MAX), Scalar::from_raw(i64::MIN));
    let unit = far.normalized().unwrap();
    assert_eq!(unit.x.raw(), 707_106);
    assert_eq!(unit.y.raw(), -707_106);
    let along = Vec2::new(Scalar::from_raw(i64::MIN), Scalar::from_raw(5));
    assert_eq!(along.normalized(), Some(v(-1.0, 0.0)));
    let steep = Vec2::new(Scalar::from_raw(3 << 50), Scalar::from_raw(4 << 50));
    assert_eq!(steep.normalized(), Some(v(0.6, 0.8)));
}

#[test]
fn unit_vectors_have_unit_length() {
    let mut seed: u64 = 0x2545_f491_4f6c_dd1d;
    for _ in 0..2000 {
        seed ^= seed << 13;
        seed ^= seed >> 7;
        seed ^= seed << 17;
        let x = (seed as i64) >> (seed % 60);
        seed ^= seed << 13;
        seed ^= seed >> 7;
        seed ^= seed << 17;
        let y = (seed as i64) >> (seed % 60);
        if x == 0 && y == 0 {
            continue;
        }
        let unit = Vec2::new(Scalar::from_raw(x), Scalar::from_raw(y)).normalized().unwrap();
        let square = (unit.x.raw() as i128).pow(2) + (unit.y.raw() as i128).pow(2);
        assert!(square <= 1_000_000_000_000, "{} {}", x, y);
        assert!(square >= 999_998i128 * 999_998, "{} {}", x, y);
        let length = ((x as f64).powi(2) + (y as f64).powi(2)).sqrt();
        assert!((unit.x.raw() as f64 - x as f64 / length * 1e6).abs() <= 1.5, "{} {}", x, y);
        assert!((unit.y.raw() as f64 - y as f64 / length * 1e6).abs() <= 1.5, "{} {}", x, y);
    }
}
