use raytracer::camera::degrees_to_radians;
use raytracer::scalar::Scalar;

fn s(raw: i64) -> Scalar {
    Scalar::new(raw)
}

#[test]
fn sine_at_chosen_angles() {
    assert_eq!(s(0).sin().raw, 0);
    assert_eq!(s(500_000).sin().raw, 479_426);
    assert_eq!(s(1_000_000).sin().raw, 841_471);
    assert_eq!(s(1_570_796).sin().raw, 1_000_000);
    assert_eq!(s(2_000_000).sin().raw, 909_298);
    assert_eq!(s(3_141_593).sin().raw, 0);
    assert_eq!(s(4_000_000).sin().raw, -756_802);
    assert_eq!(s(-1_000_000).sin().raw, -841_471);
}

#[test]
fn sine_repeats_after_a_full_turn() {
    assert_eq!(s(6_283_185).sin().raw, 0);
    assert_eq!(s(6_283_186).sin().raw, s(1).sin().raw);
    assert_eq!(s(100_000_000).sin().raw, -506_361);
    assert_eq!(s(1_000_000 + 5 * 6_283_185).sin().raw, 841_471);
    assert_eq!(s(1_000_000 - 5 * 6_283_185).sin().raw, 841_471);
}

#[test]
fn cosine_is_sine_a_quarter_turn_on() {
    assert_eq!(s(0).cos().raw, 1_000_000);
    assert_eq!(s(500_000).cos().raw, 877_583);
    assert_eq!(s(1_000_000).cos().raw, 540_303);
    assert_eq!(s(1_570_796).cos().raw, 1);
    assert_eq!(s(3_141_593).cos().raw, -1_000_000);
    assert_eq!(s(-1_000_000).cos().raw, 540_302);
    assert_eq!(s(250_000).cos().raw, s(250_000 + 1_570_796).sin().raw);
}

#[test]
fn tangent_is_sine_over_cosine() {
    assert_eq!(s(0).tan().raw, 0);
    assert_eq!(s(500_000).tan().raw, 546_302);
    assert_eq!(s(785_398).tan().raw, 999_998);
    assert_eq!(s(-500_000).tan().raw, -546_303);
}

#[test]
fn sine_and_cosine_stay_close_to_the_unit_circle() {
    let mut angle: i64 = -7_000_000;
    while angle < 7_000_000 {
        let si = s(angle).sin();
        let co = s(angle).cos();
        let sum = si.mul(si).add(co.mul(co)).raw;
        assert!((sum - 1_000_000).abs() <= 4);
        angle += 9_973;
    }
}

#[test]
fn arctangent_in_all_four_quadrants() {
    assert_eq!(s(1_000_000).atan2(s(1_000_000)).raw, 785_398);
    assert_eq!(s(1_000_000).atan2(s(-1_000_000)).raw, 2_356_195);
    assert_eq!(s(-1_000_000).atan2(s(-1_000_000)).raw, -2_356_195);
    assert_eq!(s(-1_000_000).atan2(s(1_000_000)).raw, -785_398);
    assert_eq!(s(300_000).atan2(s(2_000_000)).raw, 148_890);
    assert_eq!(s(2_000_000).atan2(s(300_000)).raw, 1_421_906);
}

#[test]
fn arctangent_on_the_axes_and_at_the_origin() {
    assert_eq!(s(0).atan2(s(1_000_000)).raw, 0);
    assert_eq!(s(0).atan2(s(-1_000_000)).raw, 3_141_593);
    assert_eq!(s(1_000_000).atan2(s(0)).raw, 1_570_796);
    assert_eq!(s(-1_000_000).atan2(s(0)).raw, -1_570_796);
    assert_eq!(s(0).atan2(s(0)).raw, 0);
}

#[test]
fn arcsine_at_chosen_values() {
    assert_eq!(s(0).asin().raw, 0);
    assert_eq!(s(500_000).asin().raw, 523_599);
    assert_eq!(s(900_000).asin().raw, 1_119_770);
    assert_eq!(s(1_000_000).asin().raw, 1_570_796);
    assert_eq!(s(-1_000_000).asin().raw, -1_570_796);
}

#[test]
fn degrees_become_radians() {
    assert_eq!(degrees_to_radians(s(90_000_000)).raw, 1_570_796);
    assert_eq!(degrees_to_radians(s(180_000_000)).raw, 3_141_593);
    assert_eq!(degrees_to_radians(s(45_000_000)).raw, 785_398);
    assert_eq!(degrees_to_radians(s(-90_000_000)).raw, -1_570_796);
    assert_eq!(degrees_to_radians(s(15_000_000)).raw, 261_799);
    assert_eq!(degrees_to_radians(s(0)).raw, 0);
}
