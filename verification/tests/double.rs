use perf_compare::benchmark::{
    LARGE, MODERATE, SIGNIFICANCE_THRESHOLD, SMALL, VERY_LARGE, VOLATILE_THRESHOLD,
};
use perf_compare::double::Double;
use perf_compare::variance::{
    NOISE_THRESHOLD, SIGNFICANT_CHANGE_THRESHOLD, SIGNFICANT_DELTA_THRESHOLD,
};

fn double(v: f64) -> Double {
    Double::from_bits(v.to_bits())
}

#[test]
fn thresholds_are_their_decimals() {
    assert_eq!(SIGNIFICANCE_THRESHOLD, 0.01f64.to_bits());
    assert_eq!(VOLATILE_THRESHOLD, 2.0f64.to_bits());
    assert_eq!(VERY_LARGE, 0.10f64.to_bits());
    assert_eq!(LARGE, 0.05f64.to_bits());
    assert_eq!(MODERATE, 0.01f64.to_bits());
    assert_eq!(SMALL, 0.005f64.to_bits());
    assert_eq!(SIGNFICANT_DELTA_THRESHOLD, 0.01f64.to_bits());
    assert_eq!(SIGNFICANT_CHANGE_THRESHOLD, 5.0f64.to_bits());
    assert_eq!(NOISE_THRESHOLD, 0.1f64.to_bits());
}

#[test]
fn doubles_are_ordered_as_numbers() {
    let values = [
        f64::NEG_INFINITY,
        f64::MIN,
        -2.5,
        -1.0,
        -f64::MIN_POSITIVE,
        -5e-324,
        -0.0,
        0.0,
        5e-324,
        f64::MIN_POSITIVE,
        0.1,
        1.0,
        1.0 + f64::EPSILON,
        2.5,
        f64::MAX,
        f64::INFINITY,
        f64::NAN,
        -f64::NAN,
    ];
    for a in values {
        for b in values {
            assert_eq!(double(a).gt(&double(b)), a > b, "{} > {}", a, b);
        }
        assert_eq!(double(a).abs(), double(a.abs()));
        assert_eq!(double(a).is_nan(), a.is_nan());
    }
}
