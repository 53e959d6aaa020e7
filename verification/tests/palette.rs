use lib::palette::{darken, hue_of, luma_of, rgb_index, to_rgb, Color, H_BLUE};

#[test]
fn packing_round_trips() {
    for h in 0..16u8 {
        for l in 0..8u8 {
            let c = rgb_index(h, l);
            assert_eq!(hue_of(c), h);
            assert_eq!(luma_of(c), l);
        }
    }
}

#[test]
fn darkening_saturates_at_black_and_keeps_hue() {
    let c = rgb_index(H_BLUE, 6);
    assert_eq!(luma_of(darken(c, 2)), 4);
    assert_eq!(hue_of(darken(c, 99)), H_BLUE);
    assert_eq!(luma_of(darken(c, 99)), 0);
}

#[test]
fn luminance_zero_is_black_for_every_hue() {
    for h in 0..16u8 {
        assert_eq!(to_rgb(rgb_index(h, 0)), (0, 0, 0));
    }
}

#[test]
fn a_hue_ramp_is_monotonically_brighter() {
    let lum = |c: Color| {
        let (r, g, b) = to_rgb(c);
        r as u32 + g as u32 + b as u32
    };
    for h in 1..16u8 {
        for l in 1..8u8 {
            assert!(lum(rgb_index(h, l)) >= lum(rgb_index(h, l - 1)), "hue {h} went darker from luma {} to {l}", l - 1);
        }
    }
}

#[test]
fn no_hue_or_no_light_is_black_and_every_ramp_only_brightens() {
    for c in 0u8..128 {
        if hue_of(c) == 0 || luma_of(c) == 0 {
            assert_eq!(to_rgb(c), (0, 0, 0), "colour {c}");
        }
    }
    let sum = |t: (u8, u8, u8)| t.0 as u32 + t.1 as u32 + t.2 as u32;
    for h in 1u8..16 {
        for l in 1u8..8 {
            assert!(sum(to_rgb(rgb_index(h, l))) >= sum(to_rgb(rgb_index(h, l - 1))), "hue {h} luma {l}");
        }
    }
}
