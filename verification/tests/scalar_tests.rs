use raytracer::scalar::{Scalar, RAW_MAX, SCALE};

fn s(raw: i64) -> Scalar {
    Scalar::new(raw)
}

#[test]
fn one_half_times_one_half_is_a_quarter() {
    let half = s(500_000);
    assert_eq!(half.mul(half).raw, 250_000);
}

#[test]
fn constants_have_their_raw_values() {
    assert_eq!(SCALE, 1_000_000);
    assert_eq!(RAW_MAX, i64::MAX);
    assert_eq!(Scalar::zero().raw, 0);
    assert_eq!(Scalar::one().raw, 1_000_000);
    assert_eq!(Scalar::inf().raw, i64::MAX);
    assert_eq!(Scalar::pi().raw, 3_141_593);
}

#[test]
fn from_int_scales_and_saturates() {
    assert_eq!(Scalar::from_int(3).raw, 3_000_000);
    assert_eq!(Scalar::from_int(-7).raw, -7_000_000);
    assert_eq!(Scalar::from_int(i64::MAX).raw, i64::MAX);
    assert_eq!(Scalar::from_int(i64::MIN).raw, -i64::MAX);
    assert_eq!(Scalar::from_count(12).raw, 12_000_000);
    assert_eq!(Scalar::from_count(0).raw, 0);
}

#[test]
fn from_ratio_rounds_toward_zero() {
    assert_eq!(Scalar::from_ratio(1, 3).raw, 333_333);
    assert_eq!(Scalar::from_ratio(-1, 3).raw, -333_333);
    assert_eq!(Scalar::from_ratio(1, -3).raw, -333_333);
    assert_eq!(Scalar::from_ratio(2, 3).raw, 666_666);
    assert_eq!(Scalar::from_ratio(1, 2).raw, 500_000);
    assert_eq!(Scalar::from_ratio(5, 0).raw, i64::MAX);
    assert_eq!(Scalar::from_ratio(-5, 0).raw, -i64::MAX);
    assert_eq!(Scalar::from_ratio(0, 0).raw, 0);
}

#[test]
fn sums_and_differences_saturate() {
    assert_eq!(s(1_500_000).add(s(2_250_000)).raw, 3_750_000);
    assert_eq!(s(1_500_000).sub(s(2_250_000)).raw, -750_000);
    assert_eq!(Scalar::inf().add(Scalar::one()).raw, i64::MAX);
    assert_eq!(Scalar::inf().neg().sub(Scalar::one()).raw, -i64::MAX);
    assert_eq!(s(i64::MIN).add(s(0)).raw, -i64::MAX);
    assert_eq!(Scalar::inf().sub(Scalar::inf()).raw, 0);
}

#[test]
fn negation_and_absolute_value_saturate_at_the_least_raw_value() {
    assert_eq!(s(250_000).neg().raw, -250_000);
    assert_eq!(s(-250_000).neg().raw, 250_000);
    assert_eq!(s(i64::MIN).neg().raw, i64::MAX);
    assert_eq!(s(-250_000).abs().raw, 250_000);
    assert_eq!(s(250_000).abs().raw, 250_000);
    assert_eq!(s(i64::MIN).abs().raw, i64::MAX);
}

#[test]
fn products_round_toward_zero() {
    assert_eq!(s(-500_000).mul(s(3)).raw, -1);
    assert_eq!(s(500_000).mul(s(3)).raw, 1);
    assert_eq!(s(1_500).mul(s(1_500)).raw, 2);
    assert_eq!(s(999).mul(s(999)).raw, 0);
    assert_eq!(s(2_000_000).mul(s(-3_500_000)).raw, -7_000_000);
    assert_eq!(Scalar::inf().mul(s(2_000_000)).raw, i64::MAX);
    assert_eq!(Scalar::inf().mul(s(-2_000_000)).raw, -i64::MAX);
    assert_eq!(Scalar::inf().mul(Scalar::inf()).raw, i64::MAX);
    assert_eq!(Scalar::inf().mul(Scalar::zero()).raw, 0);
}

#[test]
fn quotients_round_toward_zero_and_saturate_at_zero_divisors() {
    assert_eq!(Scalar::one().div(s(3_000_000)).raw, 333_333);
    assert_eq!(Scalar::one().neg().div(s(3_000_000)).raw, -333_333);
    assert_eq!(Scalar::one().div(s(-3_000_000)).raw, -333_333);
    assert_eq!(Scalar::one().div(Scalar::zero()).raw, i64::MAX);
    assert_eq!(Scalar::one().neg().div(Scalar::zero()).raw, -i64::MAX);
    assert_eq!(Scalar::zero().div(Scalar::zero()).raw, 0);
    assert_eq!(s(7_000_000).div(s(2_000_000)).raw, 3_500_000);
    assert_eq!(Scalar::one().div(s(1)).raw, 1_000_000_000_000);
    assert_eq!(Scalar::inf().div(s(500_000)).raw, i64::MAX);
    assert_eq!(s(7_000_001).div_int(2).raw, 3_500_000);
    assert_eq!(s(-7_000_001).div_int(2).raw, -3_500_000);
    assert_eq!(s(7).div_int(0).raw, i64::MAX);
}

#[test]
fn square_roots_round_down() {
    assert_eq!(s(250_000).sqrt().raw, 500_000);
    assert_eq!(s(2_000_000).sqrt().raw, 1_414_213);
    assert_eq!(s(1).sqrt().raw, 1_000);
    assert_eq!(Scalar::one().sqrt().raw, 1_000_000);
    assert_eq!(s(1_000_000_000_000).sqrt().raw, 1_000_000_000);
    assert_eq!(Scalar::zero().sqrt().raw, 0);
    assert_eq!(s(-5).sqrt().raw, 0);
    assert_eq!(Scalar::inf().sqrt().raw, 3_037_000_499_976);
}

#[test]
fn square_root_squared_brackets_the_argument() {
    let mut raw: i64 = 1;
    while raw < 4_000_000_000_000 {
        let r = s(raw).sqrt().raw as i128;
        let n = raw as i128 * 1_000_000;
        assert!(r * r <= n);
        assert!((r + 1) * (r + 1) > n);
        raw = raw * 3 + 7;
    }
}

#[test]
fn minimum_and_maximum_pick_one_argument() {
    assert_eq!(s(3).min(s(-4)).raw, -4);
    assert_eq!(s(3).max(s(-4)).raw, 3);
    assert_eq!(s(5).min(s(5)).raw, 5);
    assert_eq!(s(5).max(s(5)).raw, 5);
}

#[test]
fn powers_round_at_every_product() {
    assert_eq!(s(500_000).powi(0).raw, 1_000_000);
    assert_eq!(s(500_000).powi(1).raw, 500_000);
    assert_eq!(s(500_000).powi(5).raw, 31_250);
    assert_eq!(s(1_100_000).powi(3).raw, 1_331_000);
    assert_eq!(s(-2_000_000).powi(3).raw, -8_000_000);
    assert_eq!(s(1_234).powi(2).raw, 1);
}

#[test]
fn whole_parts_round_toward_zero_or_down() {
    assert_eq!(s(2_999_999).trunc(), 2);
    assert_eq!(s(-2_999_999).trunc(), -2);
    assert_eq!(s(2_999_999).floor(), 2);
    assert_eq!(s(-2_999_999).floor(), -3);
    assert_eq!(s(-3_000_000).floor(), -3);
    assert_eq!(s(0).floor(), 0);
    assert_eq!(s(-1).floor(), -1);
    assert_eq!(s(-1).trunc(), 0);
}

#[test]
fn multiplication_commutes_and_negation_carries_through() {
    let values = [0i64, 1, -1, 999, 123_456, -987_654_321, 5_000_000_000, i64::MAX, -i64::MAX];
    for a in values {
        for b in values {
            assert_eq!(s(a).mul(s(b)), s(b).mul(s(a)));
            assert_eq!(s(a).mul(s(b).neg()), s(a).mul(s(b)).neg());
            assert_eq!(s(a).neg().mul(s(b)), s(a).mul(s(b)).neg());
        }
    }
}

#[test]
fn order_is_kept_by_every_monotonic_operation() {
    let values = [-9_000_000i64, -1_500_000, -1, 0, 2, 750_000, 3_000_000, 80_000_000];
    for i in 0..values.len() {
        for j in i..values.len() {
            let a = s(values[i]);
            let b = s(values[j]);
            for c in values {
                let c = s(c);
                assert!(a.add(c).raw <= b.add(c).raw);
                assert!(a.sub(c).raw <= b.sub(c).raw);
                assert!(c.sub(b).raw <= c.sub(a).raw);
                if c.raw >= 0 {
                    assert!(a.mul(c).raw <= b.mul(c).raw);
                    assert!(a.div(c).raw <= b.div(c).raw);
                } else {
                    assert!(b.mul(c).raw <= a.mul(c).raw);
                    assert!(b.div(c).raw <= a.div(c).raw);
                }
            }
        }
    }
}
