use lib::fixed::{div, floor, frac, from_int, mul, FX_MAX, ONE};

/// A float to fixed point, for writing expected values.
fn from_f64(v: f64) -> i32 {
    (v * ONE as f64).round() as i32
}

#[test]
fn round_trips_whole_numbers() {
    for i in -1000..1000 {
        assert_eq!(floor(from_int(i)), i);
    }
}

#[test]
fn mul_and_div_invert() {
    let a = from_f64(3.75);
    let b = from_f64(-0.125);
    assert_eq!(mul(a, b), from_f64(-0.46875));
    assert!((div(mul(a, b), b) - a).abs() <= 2);
}

#[test]
fn frac_is_never_negative() {
    assert_eq!(frac(from_f64(-1.25)), from_f64(0.75));
    assert_eq!(frac(from_f64(2.25)), from_f64(0.25));
}

#[test]
fn div_by_zero_is_infinity_not_a_trap() {
    assert_eq!(div(ONE, 0), FX_MAX);
}
