use lib::font::{coverage, dither, facade, get_px, half_plane, less, moments, over, quadrant, rain_streak, subcell24, vrule, xform, Xform};

#[test]
fn dither_is_monotonic_in_level() {
    let mut last = 0;
    for l in 0..=64 {
        let c = coverage(&dither(l));
        assert!(c >= last, "level {l} lost coverage");
        last = c;
    }
    assert_eq!(coverage(&dither(0)), 0);
    assert_eq!(coverage(&dither(64)), 64);
}

#[test]
fn dither_level_is_its_coverage() {
    for l in 0..=64 {
        assert_eq!(coverage(&dither(l)), l);
    }
}

#[test]
fn quadrant_masks_cover_the_right_corners() {
    assert_eq!(coverage(&quadrant(0)), 0);
    assert_eq!(coverage(&quadrant(0b1111)), 64);
    assert_eq!(coverage(&quadrant(0b0001)), 16);
    assert!(get_px(&quadrant(0b0001), 0, 0));
    assert!(!get_px(&quadrant(0b0001), 7, 7));
    assert!(get_px(&quadrant(0b1000), 7, 7));
}

#[test]
fn subcell_gives_eight_distinct_rows() {
    for n in 0..8u32 {
        assert_eq!(coverage(&subcell24(1 << n)), 8);
    }
    assert_eq!(coverage(&subcell24(0xff)), 64);
}

#[test]
fn transforms_are_involutions_or_inverses() {
    let bm = half_plane(3, 1, 12);
    for t in [Xform::FlipH, Xform::FlipV, Xform::Rot180, Xform::Transpose, Xform::Invert] {
        assert_eq!(xform(&xform(&bm, t), t), bm, "{t:?} is not its own inverse");
    }
    assert_eq!(xform(&xform(&bm, Xform::Rot90), Xform::Rot270), bm);
}

#[test]
fn transforms_preserve_coverage() {
    let bm = facade(2, 2, 0b1011);
    for t in [Xform::FlipH, Xform::FlipV, Xform::Rot180, Xform::Transpose, Xform::Rot90] {
        assert_eq!(coverage(&xform(&bm, t)), coverage(&bm));
    }
}

#[test]
fn facade_leaves_mullions_dark() {
    let bm = facade(2, 2, 0xff);
    assert!(coverage(&bm) < 64, "an all-lit facade must still show its grid");
    assert!(!get_px(&bm, 3, 3), "mullion column was lit");
}

#[test]
fn over_and_less_are_complementary() {
    let a = dither(32);
    let b = vrule(3, 2);
    assert_eq!(over(&less(&a, &b), &b), over(&a, &b));
}

#[test]
fn moments_locate_a_corner_block() {
    let (n, mx, my) = moments(&quadrant(0b0001));
    assert_eq!(n, 16);
    assert!(mx < 4 && my < 4);
}

#[test]
fn a_rising_phase_walks_the_streak_up_the_cell() {
    let top = |p: u32| {
        let bm = rain_streak(0, p);
        (0..8u32).find(|&y| get_px(&bm, 4, y))
    };
    for p in 0..7u32 {
        let a = top(p).unwrap_or_else(|| panic!("phase {p} draws nothing"));
        let b = top(p + 1).unwrap_or_else(|| panic!("phase {} draws nothing", p + 1));
        if a > 0 {
            assert_eq!(b, a - 1, "phase {p} to {}: top row {a} then {b}", p + 1);
        }
    }
}

#[test]
fn inverting_leaves_the_rest_of_the_cell() {
    let bm = facade(2, 2, 0b1011);
    assert_eq!(coverage(&xform(&bm, Xform::Invert)), 64 - coverage(&bm));
    assert_eq!(coverage(&xform(&bm, Xform::Rot270)), coverage(&bm));
}
