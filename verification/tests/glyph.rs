use lib::catalog::{fill_step, shade, G_DITHER, G_FILL, G_QUAD, N_GLYPHS, PLUS4_BASE};
use lib::glyph::{screen_code, Mode, ASCII, UNICODE};

#[test]
fn ascii_table_is_seven_bit_and_printable() {
    for (i, &c) in ASCII.iter().enumerate() {
        assert!((' '..='~').contains(&c), "glyph {i} maps to {c:?}, which is not a typeable ASCII character");
    }
}

#[test]
fn unicode_table_has_no_control_characters() {
    for (i, &c) in UNICODE.iter().enumerate() {
        assert!(!c.is_control(), "glyph {i} maps to a control character");
    }
}

#[test]
fn both_tables_are_complete() {
    assert_eq!(ASCII.len(), N_GLYPHS);
    assert_eq!(UNICODE.len(), N_GLYPHS);
}

#[test]
fn the_unicode_eighth_fills_are_the_real_ones() {
    let want = ['▁', '▂', '▃', '▄', '▅', '▆', '▇', '█'];
    for (n, &w) in want.iter().enumerate() {
        assert_eq!(Mode::Unicode.glyph(G_FILL + n as u8), w);
    }
}

#[test]
fn the_unicode_quadrants_are_the_real_ones() {
    assert_eq!(Mode::Unicode.glyph(G_QUAD + 3 - 1), '▀');
    assert_eq!(Mode::Unicode.glyph(G_QUAD + 12 - 1), '▄');
    assert_eq!(Mode::Unicode.glyph(G_QUAD + 5 - 1), '▌');
    assert_eq!(Mode::Unicode.glyph(G_QUAD + 10 - 1), '▐');
}

#[test]
fn the_ascii_dither_ramp_never_reverses() {
    let weight = |c: char| " .:-=+*#@".find(c).expect("ramp uses an unranked character");
    let mut last = 0;
    for l in 0..=8u8 {
        let w = weight(Mode::Ascii.glyph(shade(l)));
        assert!(w >= last, "the ASCII dither ramp goes backwards at level {l}");
        last = w;
    }
    assert_eq!(Mode::Ascii.glyph(shade(0)), ' ');
    assert_eq!(Mode::Ascii.glyph(G_DITHER), '.');
}

#[test]
fn the_fill_ramp_ends_solid_in_both_modes() {
    assert_eq!(Mode::Ascii.glyph(fill_step(8)), '@');
    assert_eq!(Mode::Unicode.glyph(fill_step(8)), '█');
}

#[test]
fn screen_codes_stay_inside_the_charset() {
    for g in 0..N_GLYPHS as u8 {
        assert!(screen_code(g) >= PLUS4_BASE);
        assert!(screen_code(g) as usize <= 255);
    }
}

#[test]
fn mode_names_parse() {
    assert_eq!(Mode::parse("ascii"), Some(Mode::Ascii));
    assert_eq!(Mode::parse("unicode"), Some(Mode::Unicode));
    assert_eq!(Mode::parse("nonsense"), None);
}
