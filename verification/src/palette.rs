//! Colour, modelled on the Plus/4's TED rather than on the terminal's.
//!
//! The TED gives 16 hues at 8 luminances.  A colour is one byte:
//! `hue << 3 | luminance`, which is also the byte the Plus/4 pokes into
//! colour RAM.  Shading holds the hue and drops the luminance.
use vstd::prelude::*;

verus! {

/// A packed `hue << 3 | luminance` colour byte.
pub type Color = u8;

/// Number of hues.
pub const HUES: u8 = 16;
/// Number of luminance steps per hue.
pub const LUMA: u8 = 8;

/// The byte [`rgb_index`] packs.
pub open spec fn pack(hue: u8, luma: u8) -> Color {
    (((hue % 16) * 8) + luma % 8) as u8
}

/// Pack a hue and luminance.
pub fn rgb_index(hue: u8, luma: u8) -> (c: Color)
    ensures
        c == pack(hue, luma),
        c < 128,
{
    assert((((hue & 0x0fu8) << 3u8) | (luma & 0x07u8)) == (((hue % 16) * 8) + luma % 8) as u8)
        by (bit_vector);
    ((hue & 0x0f) << 3) | (luma & 0x07)
}

/// The hue half of a colour byte.
pub fn hue_of(c: Color) -> (h: u8)
    ensures
        h == c / 8,
{
    assert((c >> 3u8) == c / 8) by (bit_vector);
    c >> 3
}

/// The luminance half of a colour byte.
pub fn luma_of(c: Color) -> (l: u8)
    ensures
        l == c % 8,
{
    assert((c & 7u8) == c % 8) by (bit_vector);
    c & 0x07
}

/// The colour [`darken`] gives: the same hue, `steps` lower, never below
/// zero.
pub open spec fn darken_of(c: Color, steps: u8) -> Color {
    pack(c / 8, if c % 8 > steps { (c % 8 - steps) as u8 } else { 0 })
}

/// Darken by `steps`, saturating at black.  This is the depth cue.
pub fn darken(c: Color, steps: u8) -> (r: Color)
    ensures
        r == darken_of(c, steps),
{
    let l = luma_of(c);
    let l = if l > steps { l - steps } else { 0 };
    rgb_index(hue_of(c), l)
}

/// Brighten by `steps`, saturating at the top luminance.
pub fn brighten(c: Color, steps: u8) -> (r: Color)
    requires
        c % 8 + steps <= 255,
    ensures
        r == pack(c / 8, if c % 8 + steps > 7 { 7 } else { (c % 8 + steps) as u8 }),
{
    let l = luma_of(c) + steps;
    rgb_index(hue_of(c), if l > 7 { 7 } else { l })
}

/// Black - hue 0, and the background of every mode this program has.
pub const BLACK: Color = 0;

/// Hue 0: no chroma at all - black at every luminance.
pub const H_BLACK: u8 = 0;
/// Hue 1: no chroma - the grey column, from black to white.
pub const H_WHITE: u8 = 1;
/// Hue 2.
pub const H_RED: u8 = 2;
/// Hue 3.
pub const H_CYAN: u8 = 3;
/// Hue 4.
pub const H_PURPLE: u8 = 4;
/// Hue 5.
pub const H_GREEN: u8 = 5;
/// Hue 6.
pub const H_BLUE: u8 = 6;
/// Hue 7.
pub const H_YELLOW: u8 = 7;
/// Hue 8.
pub const H_ORANGE: u8 = 8;
/// Hue 9.
pub const H_BROWN: u8 = 9;
/// Hue 10.
pub const H_YELLOW_GREEN: u8 = 10;
/// Hue 11.
pub const H_PINK: u8 = 11;
/// Hue 12.
pub const H_BLUE_GREEN: u8 = 12;
/// Hue 13.
pub const H_LIGHT_BLUE: u8 = 13;
/// Hue 14.
pub const H_DARK_BLUE: u8 = 14;
/// Hue 15.
pub const H_LIGHT_GREEN: u8 = 15;

/// The 128 colours as 8-bit sRGB, indexed by colour byte.
///
/// Each entry is the TED colour taken through Rec.601 YUV to RGB and a
/// mild gamma of 0.85: luminance levels 0, 3/16, 1/4, 5/16, 7/16, 9/16,
/// 3/4 and 1; chroma 0.22 scaled by luminance along the TED hue angles
/// 103, 283, 53, 241, 347, 167, 129, 148, 195, 83, 265, 323, 5 and 213
/// degrees for hues 2 to 15; no chroma for hues 0 and 1, and hue 0 black
/// throughout.
pub const RGB_TABLE: [(u8, u8, u8); 128] = [
    (0, 0, 0), (0, 0, 0), (0, 0, 0), (0, 0, 0),
    (0, 0, 0), (0, 0, 0), (0, 0, 0), (0, 0, 0),
    (0, 0, 0), (61, 61, 61), (78, 78, 78), (95, 95, 95),
    (126, 126, 126), (156, 156, 156), (200, 200, 200), (255, 255, 255),
    (0, 0, 0), (58, 59, 84), (75, 75, 107), (90, 90, 129),
    (120, 120, 172), (149, 149, 213), (190, 190, 255), (243, 243, 255),
    (0, 0, 0), (64, 64, 38), (82, 82, 48), (99, 99, 58),
    (132, 132, 78), (164, 164, 96), (209, 209, 123), (255, 255, 157),
    (0, 0, 0), (69, 54, 80), (88, 69, 102), (107, 83, 123),
    (142, 110, 164), (176, 137, 203), (225, 175, 255), (255, 223, 255),
    (0, 0, 0), (55, 69, 40), (70, 88, 52), (85, 106, 62),
    (113, 141, 83), (140, 175, 103), (179, 223, 131), (228, 255, 167),
    (0, 0, 0), (74, 56, 56), (95, 71, 72), (114, 86, 87),
    (152, 115, 115), (188, 142, 143), (240, 182, 183), (255, 232, 233),
    (0, 0, 0), (48, 67, 67), (62, 85, 85), (75, 103, 103),
    (100, 137, 137), (123, 170, 170), (157, 217, 217), (201, 255, 255),
    (0, 0, 0), (53, 62, 79), (68, 79, 101), (82, 96, 122),
    (109, 128, 163), (135, 158, 201), (173, 202, 255), (220, 255, 255),
    (0, 0, 0), (50, 65, 74), (64, 83, 94), (77, 100, 114),
    (103, 133, 151), (128, 165, 187), (163, 210, 239), (208, 255, 255),
    (0, 0, 0), (49, 69, 55), (62, 88, 71), (75, 107, 85),
    (100, 142, 114), (124, 176, 141), (158, 224, 180), (201, 255, 230),
    (0, 0, 0), (63, 56, 84), (81, 72, 107), (97, 87, 130),
    (130, 115, 172), (160, 143, 214), (205, 182, 255), (255, 233, 255),
    (0, 0, 0), (60, 67, 37), (77, 85, 48), (93, 103, 58),
    (124, 137, 77), (153, 169, 95), (196, 216, 121), (250, 255, 155),
    (0, 0, 0), (72, 59, 47), (92, 75, 60), (111, 91, 73),
    (147, 121, 97), (183, 150, 120), (233, 191, 153), (255, 244, 195),
    (0, 0, 0), (74, 54, 63), (95, 69, 81), (115, 84, 98),
    (153, 112, 130), (189, 138, 162), (241, 177, 206), (255, 225, 255),
    (0, 0, 0), (50, 69, 49), (64, 89, 62), (78, 107, 75),
    (103, 143, 100), (128, 177, 123), (163, 226, 158), (209, 255, 201),
];

/// How bright an sRGB triple is, as the sum of its channels.
pub open spec fn brightness(t: (u8, u8, u8)) -> int {
    t.0 as int + t.1 as int + t.2 as int
}

/// A colour with no hue, or with no light, is black.
pub proof fn lemma_no_hue_or_no_light_is_black(c: int)
    requires
        0 <= c < 128,
        c / 8 == 0 || c % 8 == 0,
    ensures
        RGB_TABLE[c] == (0u8, 0u8, 0u8),
{
    assert(forall|k: int| 0 <= k < 128 && (k / 8 == 0 || k % 8 == 0) ==> #[trigger] RGB_TABLE[k] == (0u8, 0u8, 0u8));
}

/// Each hue's ramp only gets brighter: a step up in luminance never gives
/// a darker colour.
pub proof fn lemma_a_hue_ramp_only_gets_brighter(h: int, l: int)
    requires
        1 <= h < 16,
        1 <= l < 8,
    ensures
        brightness(RGB_TABLE[h * 8 + l]) >= brightness(RGB_TABLE[h * 8 + l - 1]),
{
    assert(forall|k: int| 1 <= k < 128 && k % 8 != 0 ==> brightness(#[trigger] RGB_TABLE[k]) >= brightness(RGB_TABLE[k - 1]));
    assert((h * 8 + l) % 8 == l) by (nonlinear_arith)
        requires
            1 <= l < 8;
}

/// Expand a packed colour byte to 8-bit sRGB, for terminals that can show
/// 24-bit colour.  Only the 128 bytes a colour can be have an expansion.
pub fn to_rgb(c: Color) -> (r: (u8, u8, u8))
    requires
        c < 128,
    ensures
        r == RGB_TABLE[c as int],
{
    RGB_TABLE[c as usize]
}

/// The whole 128-entry palette as sRGB.
pub fn rgb_table() -> (t: &'static [(u8, u8, u8); 128])
    ensures
        t@ == RGB_TABLE@,
{
    &RGB_TABLE
}

/// One bit of an ANSI colour: `n` if the channel clears the threshold.
pub open spec fn ansi_bit(v: u8, t: u8, n: u8) -> u8 {
    if v > t { n } else { 0 }
}

/// The SGR code [`to_ansi16`] picks.
pub open spec fn ansi16_of(c: Color) -> u8 {
    let l = c % 8;
    if c / 8 == H_BLACK || l == 0 {
        30
    } else {
        let (r, g, b) = RGB_TABLE[c as int];
        let bright = l >= 5;
        let t: u8 = if bright { 110 } else { 90 };
        let base = ansi_bit(r, t, 1) | ansi_bit(g, t, 2) | ansi_bit(b, t, 4);
        let base = if base == 0 { 7u8 } else { base };
        if bright { (90 + base) as u8 } else { (30 + base) as u8 }
    }
}

/// The nearest of the 8 ANSI colours plus their bright variants, for
/// terminals without 24-bit colour.  Returns an SGR foreground code.
pub fn to_ansi16(c: Color) -> (r: u8)
    requires
        c < 128,
    ensures
        r == ansi16_of(c),
        30 <= r <= 37 || 90 <= r <= 97,
{
    let l = luma_of(c);
    if hue_of(c) == H_BLACK || l == 0 {
        return 30;
    }
    let (r, g, b) = to_rgb(c);
    let bright = l >= 5;
    let t: u8 = if bright { 110 } else { 90 };
    let br: u8 = if r > t { 1 } else { 0 };
    let bg: u8 = if g > t { 2 } else { 0 };
    let bb: u8 = if b > t { 4 } else { 0 };
    let base = br | bg | bb;
    assert(base <= 7) by (bit_vector)
        requires
            br <= 1 && bg <= 2 && bb <= 4,
            br == 0 || br == 1,
            bg == 0 || bg == 2,
            bb == 0 || bb == 4,
            base == br | bg | bb,
    ;
    let base = if base == 0 { 7 } else { base };
    if bright {
        90 + base
    } else {
        30 + base
    }
}

/// Packing round-trips: the hue and luminance of a packed colour are the
/// ones it was packed from.
pub proof fn lemma_pack_round_trip(hue: u8, luma: u8)
    requires
        hue < HUES,
        luma < LUMA,
    ensures
        pack(hue, luma) / 8 == hue,
        pack(hue, luma) % 8 == luma,
{
}

/// Darkening keeps the hue and saturates at luminance zero.
pub proof fn lemma_darken_keeps_hue(c: Color, steps: u8)
    requires
        c < 128,
    ensures
        darken_of(c, steps) / 8 == c / 8,
        darken_of(c, steps) % 8 == if c % 8 > steps { c % 8 - steps } else { 0 },
        steps >= c % 8 ==> darken_of(c, steps) % 8 == 0,
{
}

/// Luminance zero is black whatever the hue, so that `darken` walks every
/// colour down to the same black.
pub proof fn lemma_luma_zero_is_black(hue: u8)
    requires
        hue < HUES,
    ensures
        RGB_TABLE[pack(hue, 0) as int] == (0u8, 0u8, 0u8),
{
    assert(forall|h: int| 0 <= h < 16 ==> #[trigger] RGB_TABLE[h * 8] == (0u8, 0u8, 0u8));
}

/// The brightness a terminal sees in a colour: the sum of its channels.
pub open spec fn rgb_sum(c: (u8, u8, u8)) -> int {
    c.0 + c.1 + c.2
}

/// Every hue's ramp climbs: one luminance step up is never darker.
pub proof fn lemma_ramp_climbs(hue: u8, luma: u8)
    requires
        1 <= hue < HUES,
        1 <= luma < LUMA,
    ensures
        rgb_sum(RGB_TABLE[pack(hue, luma) as int]) >= rgb_sum(RGB_TABLE[pack(hue, (luma - 1) as u8) as int]),
{
    assert(forall|i: int| 8 <= i < 128 && i % 8 != 0 ==> #[trigger] rgb_sum(RGB_TABLE[i]) >= rgb_sum(RGB_TABLE[i - 1]));
}

} // verus!
