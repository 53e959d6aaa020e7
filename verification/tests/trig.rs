use lib::fixed::{self, ONE};
use lib::trig::{cos, sin, Ang, HALF, QUARTER, TRIG_LEN};

const SHIFT: u32 = 6;

#[test]
fn cardinal_points_are_exact_enough() {
    assert_eq!(sin(0), 0);
    assert!((sin(QUARTER) - ONE).abs() <= 1);
    assert!(sin(HALF).abs() <= 64);
    assert!((sin(HALF + QUARTER) + ONE).abs() <= 1);
}

#[test]
fn identity_holds_across_the_table() {
    for i in 0..TRIG_LEN {
        let a = (i << SHIFT) as Ang;
        let s = sin(a);
        let c = cos(a);
        let sum = fixed::mul(s, s) + fixed::mul(c, c);
        assert!((sum - ONE).abs() < 64, "sin^2+cos^2 off at {i}: {sum}");
    }
}

#[test]
fn angles_wrap_rather_than_overflow() {
    assert_eq!(sin(0), sin(0u16.wrapping_sub(0)));
    let a: Ang = 0xffff;
    let _ = sin(a.wrapping_add(1));
}

#[test]
fn the_sine_reads_only_the_top_ten_bits_and_the_cosine_is_a_quarter_on() {
    for a in [0u16, 1, 63, 64, 1000, 16383, 16384, 40000, 65535] {
        assert_eq!(sin(a), sin(a & 0xffc0));
        assert_eq!(cos(a), sin(a.wrapping_add(QUARTER)));
    }
    assert_eq!(sin(0), 0);
    assert!((sin(QUARTER) - ONE).abs() <= 1);
    assert!(sin(HALF).abs() <= 64);
    assert!((sin(HALF + QUARTER) + ONE).abs() <= 1);
}
