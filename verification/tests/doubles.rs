use qsv2flv::ieee754::double_bits_of_ratio;

#[test]
fn ratio_one_is_one() {
    assert_eq!(double_bits_of_ratio(false, 1, 1), 1.0f64.to_bits());
}

#[test]
fn ratio_third_rounds_as_division() {
    assert_eq!(double_bits_of_ratio(false, 1, 3), (1.0f64 / 3.0f64).to_bits());
}

#[test]
fn ratio_frame_rate_shape() {
    assert_eq!(double_bits_of_ratio(false, 9000, 377), (9000.0f64 / 377.0f64).to_bits());
    assert_eq!(double_bits_of_ratio(true, 9000, 377), (-9000.0f64 / 377.0f64).to_bits());
}

#[test]
fn ratio_millisecond_times() {
    assert_eq!(double_bits_of_ratio(false, 13500, 1000), 13.5f64.to_bits());
    assert_eq!(double_bits_of_ratio(false, 123456789, 1000), (123456789.0f64 / 1000.0f64).to_bits());
    assert_eq!(double_bits_of_ratio(true, 1, 1000), (-0.001f64).to_bits());
}

#[test]
fn ratio_zero_and_infinity() {
    assert_eq!(double_bits_of_ratio(false, 0, 5), 0.0f64.to_bits());
    assert_eq!(double_bits_of_ratio(true, 0, 5), (-0.0f64).to_bits());
    assert_eq!(double_bits_of_ratio(false, 7, 0), f64::INFINITY.to_bits());
    assert_eq!(double_bits_of_ratio(true, 7, 0), f64::NEG_INFINITY.to_bits());
}

#[test]
fn ratio_large_integers_round_half_even() {
    let big = (1u64 << 53) + 1;
    assert_eq!(double_bits_of_ratio(false, big, 1), (big as f64).to_bits());
    let big2 = (1u64 << 53) + 3;
    assert_eq!(double_bits_of_ratio(false, big2, 1), (big2 as f64).to_bits());
    assert_eq!(double_bits_of_ratio(false, u64::MAX, 1), (u64::MAX as f64).to_bits());
}

#[test]
fn ratio_small_fractions() {
    assert_eq!(double_bits_of_ratio(false, 1, u64::MAX), (1.0f64 / (u64::MAX as f64)).to_bits());
}
