use lib::catalog::{
    build, facade_tile, fill_step, shade, GlyphId, FIRE_ZIG_L, FIRE_ZIG_R, G_BLANK, G_FACADE, G_MULLION, G_SOLID,
    N_GLYPHS, PLUS4_BASE,
};
use lib::font::coverage;

#[test]
fn every_slot_is_named() {
    let c = build();
    for i in 0..N_GLYPHS {
        assert!(!c.names[i].is_empty(), "glyph {i} has no name");
    }
}

#[test]
fn only_blank_is_empty() {
    let c = build();
    for i in 0..N_GLYPHS {
        if i as GlyphId == G_BLANK {
            continue;
        }
        assert!(coverage(&c.bitmaps[i]) > 0, "glyph {i} ({}) is blank", c.names[i]);
    }
}

#[test]
fn the_fill_ramp_climbs_by_eight_pixels() {
    let c = build();
    for n in 1..=8u8 {
        assert_eq!(coverage(&c.bitmaps[fill_step(n) as usize]), n as u32 * 8);
    }
    assert_eq!(fill_step(0), G_BLANK);
    assert_eq!(fill_step(20), G_SOLID);
}

#[test]
fn the_shade_ramp_climbs_by_eight_pixels() {
    let c = build();
    for l in 1..=8u8 {
        assert_eq!(coverage(&c.bitmaps[shade(l) as usize]), l as u32 * 8);
    }
}

#[test]
fn facade_indices_stay_inside_their_family() {
    for cfg in 0..4u8 {
        for lit in 0..4u8 {
            let i = facade_tile(cfg, lit);
            assert!((G_FACADE..G_MULLION).contains(&i));
        }
    }
}

#[test]
fn the_catalogue_fits_a_plus4_charset_half() {
    assert!(PLUS4_BASE as usize + N_GLYPHS <= 256);
}

#[test]
fn fire_escape_zigzags_mirror_each_other() {
    let c = build();
    assert_eq!(coverage(&c.bitmaps[FIRE_ZIG_L as usize]), coverage(&c.bitmaps[FIRE_ZIG_R as usize]));
    assert_ne!(c.bitmaps[FIRE_ZIG_L as usize], c.bitmaps[FIRE_ZIG_R as usize]);
}

/// The names the bake sheet prints, at the edges of their families.
#[test]
fn the_catalogue_names_its_families() {
    let c = build();
    assert_eq!(c.names[0], "blank");
    assert_eq!(c.names[7], "dither");
    assert_eq!(c.names[G_SOLID as usize], "solid");
    assert_eq!(c.names[FIRE_ZIG_L as usize], "fire-zig-l");
    assert_eq!(c.names[127], "haze-3");
}

#[test]
fn each_facade_configuration_and_pattern_has_its_own_tile() {
    for c1 in 0u8..8 {
        for l1 in 0u8..8 {
            for c2 in 0u8..8 {
                for l2 in 0u8..8 {
                    let same = facade_tile(c1, l1) == facade_tile(c2, l2);
                    assert_eq!(same, c1 % 4 == c2 % 4 && l1 % 4 == l2 % 4);
                }
            }
        }
    }
}
