//! The glyph catalogue: 128 shapes, generated, indexed, and shared.
//!
//! The renderer emits catalogue indices, and each target renders an index
//! its own way: the Plus/4 as screen code `index + 64` from the baked
//! charset, a terminal through one of the tables in [`crate::glyph`].
use vstd::prelude::*;
use crate::font::{
    Bitmap, BLANK, SOLID, Xform, px, in_cell, dither_px, quadrant_px, half_plane_px, vrule_px,
    hrule_px, disc_px, speck_px, rain_px, facade_px, dither, quadrant, half_plane, vrule, hrule,
    disc_quadrant, speck, rain_streak, facade, xform, over, less,
};

verus! {

/// A catalogue index.  Also the Plus/4 screen code, less [`PLUS4_BASE`].
pub type GlyphId = u8;

/// Number of glyphs in the catalogue.
pub const N_GLYPHS: usize = 128;

/// Screen code of catalogue index 0 on the Plus/4.
pub const PLUS4_BASE: u8 = 64;

/// Nothing.  Sky, and the inside of a dark window.
pub const G_BLANK: GlyphId = 0;
/// Seven ordered-dither levels, `G_DITHER + 0..7`, lightest first.
pub const G_DITHER: GlyphId = 1;
/// A fully covered cell.
pub const G_SOLID: GlyphId = 8;
/// The fifteen non-empty 2x2 quadrant masks, `G_QUAD + (mask - 1)`.
pub const G_QUAD: GlyphId = 9;
/// Eight partial fills from the bottom up, `G_FILL + 0..7`.
pub const G_FILL: GlyphId = 24;
/// Eight edge slopes, `G_SLOPE + 0..7`, at 45 and 22.5 degrees.
pub const G_SLOPE: GlyphId = 32;
/// Sixteen facade tiles, `G_FACADE + 0..15`.  See [`facade_tile`].
pub const G_FACADE: GlyphId = 40;
/// Four vertical mullions, `G_MULLION + 0..3`.
pub const G_MULLION: GlyphId = 56;
/// Four horizontal bands - spandrel, cornice, setback ledge, parapet.
pub const G_CORNICE: GlyphId = 60;
/// Six fire-escape parts, `G_FIRE + 0..5`.
pub const G_FIRE: GlyphId = 64;
/// Four roofscape parts - parapet, water tower, plant housing, antenna.
pub const G_ROOF: GlyphId = 70;
/// Eight ground surfaces, `G_ROAD + 0..7`.
pub const G_ROAD: GlyphId = 74;
/// Six plants, `G_FLORA + 0..5`.
pub const G_FLORA: GlyphId = 82;
/// Six pieces of street furniture, `G_STREET + 0..5`.
pub const G_STREET: GlyphId = 88;
/// Four vehicle parts, `G_VEHICLE + 0..3`.
pub const G_VEHICLE: GlyphId = 94;
/// Two pedestrian glyphs.
pub const G_PED: GlyphId = 98;
/// Eight rain phases, `G_RAIN + 0..7`.
pub const G_RAIN: GlyphId = 100;
/// The moon, as four quadrants in reading order.
pub const G_MOON: GlyphId = 108;
/// The moon's halo, as four quadrants in reading order.
pub const G_HALO: GlyphId = 112;
/// Eight star positions within a cell, `G_STAR + 0..7`.
pub const G_STAR: GlyphId = 116;
/// Four haze levels, sparser than the lightest dither.
pub const G_HAZE: GlyphId = 124;

/// A zigzag stair leaning right - the outward-facing half of a fire escape.
pub const FIRE_ZIG_R: GlyphId = 64;
/// The same stair leaning left; the two alternate up the building.
pub const FIRE_ZIG_L: GlyphId = 65;
/// A landing: the horizontal platform the stairs meet.
pub const FIRE_LANDING: GlyphId = 66;
/// Vertical railing, drawn at the outer edge of a landing.
pub const FIRE_RAIL: GlyphId = 67;
/// The counterweighted drop ladder at the bottom of the run.
pub const FIRE_LADDER: GlyphId = 68;
/// The bracket tying the ironwork back to the wall.
pub const FIRE_BRACKET: GlyphId = 69;

/// Plain asphalt.
pub const ROAD_ASPHALT: GlyphId = 74;
/// A lane dash.
pub const ROAD_DASH: GlyphId = 75;
/// The double centre line.
pub const ROAD_CENTRE: GlyphId = 76;
/// A crosswalk stripe.
pub const ROAD_CROSSING: GlyphId = 77;
/// The kerb, where road meets sidewalk.
pub const ROAD_KERB: GlyphId = 78;
/// Paving.
pub const ROAD_PAVING: GlyphId = 79;
/// A storm grate.
pub const ROAD_GRATE: GlyphId = 80;
/// Standing water, which is where the rain ends up.
pub const ROAD_PUDDLE: GlyphId = 81;

/// Dense tree canopy.
pub const FLORA_CANOPY: GlyphId = 82;
/// Thin canopy, for the edge of a crown.
pub const FLORA_LEAF: GlyphId = 83;
/// A trunk.
pub const FLORA_TRUNK: GlyphId = 84;
/// A hedge.
pub const FLORA_HEDGE: GlyphId = 85;
/// Grass.
pub const FLORA_GRASS: GlyphId = 86;
/// A street planter.
pub const FLORA_PLANTER: GlyphId = 87;

/// A lamp post.
pub const ST_POST: GlyphId = 88;
/// The lamp head, and the only thing in the city that lights the ground.
pub const ST_LAMP: GlyphId = 89;
/// A traffic signal.
pub const ST_SIGNAL: GlyphId = 90;
/// A sign board.
pub const ST_SIGN: GlyphId = 91;
/// A hydrant.
pub const ST_HYDRANT: GlyphId = 92;
/// A bollard.
pub const ST_BOLLARD: GlyphId = 93;

/// The value of [`facade_tile`].
pub open spec fn facade_tile_of(cfg: u8, lit: u8) -> GlyphId {
    (G_FACADE + (cfg % 4) * 4 + lit % 4) as u8
}

/// Index of the facade tile for configuration `cfg` and lit pattern
/// `lit`.  Four configurations, four patterns each.
pub fn facade_tile(cfg: u8, lit: u8) -> (g: GlyphId)
    ensures
        g == facade_tile_of(cfg, lit),
        G_FACADE <= g < G_MULLION,
{
    assert(((cfg & 3u8) << 2u8) == (cfg % 4) * 4) by (bit_vector);
    assert((lit & 3u8) == lit % 4) by (bit_vector);
    G_FACADE + ((cfg & 3) << 2) + (lit & 3)
}

/// Each facade configuration and lit pattern has a tile of its own: two
/// give the same tile exactly when their configurations agree in the low
/// two bits and so do their patterns.
pub proof fn lemma_facade_tiles_are_distinct(c1: u8, l1: u8, c2: u8, l2: u8)
    ensures
        (facade_tile_of(c1, l1) == facade_tile_of(c2, l2)) <==> (c1 % 4 == c2 % 4 && l1 % 4 == l2 % 4),
        G_FACADE <= facade_tile_of(c1, l1) < G_MULLION,
{
}

/// The value of [`fill_step`].
pub open spec fn fill_step_of(eighths: u8) -> GlyphId {
    if eighths == 0 {
        G_BLANK
    } else if eighths >= 8 {
        G_SOLID
    } else {
        (G_FILL + eighths - 1) as u8
    }
}

/// The eighth-step fill whose top edge is nearest `eighths` from the bottom.
pub fn fill_step(eighths: u8) -> (g: GlyphId)
    ensures
        g == fill_step_of(eighths),
{
    if eighths == 0 {
        G_BLANK
    } else if eighths >= 8 {
        G_SOLID
    } else {
        G_FILL + eighths - 1
    }
}

/// The value of [`shade`].
pub open spec fn shade_of(level: u8) -> GlyphId {
    if level == 0 {
        G_BLANK
    } else if level >= 8 {
        G_SOLID
    } else {
        (G_DITHER + level - 1) as u8
    }
}

/// The dither nearest a 0..=8 intensity.
pub fn shade(level: u8) -> (g: GlyphId)
    ensures
        g == shade_of(level),
{
    if level == 0 {
        G_BLANK
    } else if level >= 8 {
        G_SOLID
    } else {
        G_DITHER + level - 1
    }
}


// --- the shapes -------------------------------------------------------------

/// The eight edges, as half-planes `a*x + b*y < c`: four 45-degree
/// corners, then the shallow and steep half-cell steps.
pub open spec fn slope_plane(k: int) -> (i32, i32, i32) {
    if k == 0 { (1i32, 1i32, 8i32) }
    else if k == 1 { (-1i32, 1i32, 0i32) }
    else if k == 2 { (1i32, -1i32, 0i32) }
    else if k == 3 { (-1i32, -1i32, -8i32) }
    else if k == 4 { (1i32, 2i32, 12i32) }
    else if k == 5 { (-1i32, 2i32, 4i32) }
    else if k == 6 { (2i32, 1i32, 12i32) }
    else { (-2i32, 1i32, 4i32) }
}

/// Windows across, and floors down, of facade configuration `c`, coarse
/// to fine.
pub open spec fn facade_cfg(c: int) -> (u32, u32) {
    if c == 0 { (2, 2) }
    else if c == 1 { (2, 4) }
    else if c == 2 { (4, 4) }
    else { (4, 2) }
}

/// Lit pattern `l` of a facade tile.  Fixed rather than random, so a wall
/// does not change its mind between frames.
pub open spec fn facade_lit(l: int) -> u8 {
    if l == 0 { 0xff }
    else if l == 1 { 0b1011_0110 }
    else if l == 2 { 0b0110_1101 }
    else { 0b1101_0011 }
}

/// The rising stair of a fire escape: a diagonal run with a rail above it.
pub open spec fn zig_px(i: int, j: int) -> bool {
    half_plane_px(-3i32, 4i32, 2i32, i, j) || half_plane_px(3i32, -4i32, -14i32, i, j)
}

/// Mullions `0..4`, then horizontal bands `4..8`.
pub open spec fn trim_px(k: int, i: int, j: int) -> bool {
    if k == 0 { vrule_px(0, 1, i, j) }
    else if k == 1 { vrule_px(7, 1, i, j) }
    else if k == 2 { vrule_px(3, 2, i, j) }
    else if k == 3 { vrule_px(0, 1, i, j) || vrule_px(7, 1, i, j) }
    else if k == 4 { hrule_px(0, 1, i, j) }
    else if k == 5 { hrule_px(0, 3, i, j) }
    else if k == 6 { hrule_px(0, 2, i, j) || hrule_px(6, 2, i, j) }
    else { hrule_px(6, 2, i, j) }
}

/// The fire-escape parts, in the order of [`FIRE_ZIG_R`] and friends.
pub open spec fn fire_px(k: int, i: int, j: int) -> bool {
    if k == 0 { zig_px(i, j) }
    else if k == 1 { in_cell(i, j) && zig_px(7 - i, j) }
    else if k == 2 { hrule_px(3, 1, i, j) || hrule_px(7, 1, i, j) }
    else if k == 3 { hrule_px(3, 1, i, j) || vrule_px(6, 1, i, j) }
    else if k == 4 {
        vrule_px(2, 1, i, j) || vrule_px(5, 1, i, j) || hrule_px(1, 1, i, j) || hrule_px(3, 1, i, j)
            || hrule_px(5, 1, i, j) || hrule_px(7, 1, i, j)
    }
    else { vrule_px(0, 1, i, j) || half_plane_px(3, 4, 20, i, j) }
}

/// The roofscape parts: parapet, water tower, plant housing, antenna.
pub open spec fn roof_px(k: int, i: int, j: int) -> bool {
    if k == 0 { hrule_px(5, 3, i, j) }
    else if k == 1 { hrule_px(2, 3, i, j) || vrule_px(2, 4, i, j) }
    else if k == 2 { hrule_px(4, 4, i, j) || vrule_px(1, 2, i, j) }
    else { vrule_px(3, 1, i, j) || hrule_px(0, 1, i, j) }
}

/// The ground surfaces, in the order of [`ROAD_ASPHALT`] and friends.
pub open spec fn road_px(k: int, i: int, j: int) -> bool {
    if k == 0 { dither_px(4, i, j) }
    else if k == 1 { hrule_px(3, 2, i, j) }
    else if k == 2 { hrule_px(2, 1, i, j) || hrule_px(5, 1, i, j) }
    else if k == 3 { vrule_px(1, 3, i, j) }
    else if k == 4 { hrule_px(6, 2, i, j) }
    else if k == 5 { hrule_px(0, 1, i, j) || vrule_px(0, 1, i, j) }
    else if k == 6 { dither_px(24, i, j) }
    else { hrule_px(4, 3, i, j) }
}

/// The plants, in the order of [`FLORA_CANOPY`] and friends.
pub open spec fn flora_px(k: int, i: int, j: int) -> bool {
    if k == 0 { dither_px(44, i, j) }
    else if k == 1 { dither_px(20, i, j) }
    else if k == 2 { vrule_px(3, 2, i, j) }
    else if k == 3 { dither_px(36, i, j) || hrule_px(7, 1, i, j) }
    else if k == 4 { dither_px(12, i, j) }
    else { hrule_px(5, 3, i, j) || dither_px(16, i, j) }
}

/// The street furniture, in the order of [`ST_POST`] and friends.
pub open spec fn street_px(k: int, i: int, j: int) -> bool {
    if k == 0 { vrule_px(3, 1, i, j) }
    else if k == 1 { hrule_px(1, 2, i, j) || vrule_px(3, 1, i, j) }
    else if k == 2 { speck_px(5, i, j) || speck_px(9, i, j) || vrule_px(3, 1, i, j) }
    else if k == 3 { hrule_px(1, 4, i, j) }
    else if k == 4 { hrule_px(4, 4, i, j) || hrule_px(3, 1, i, j) }
    else { vrule_px(3, 2, i, j) }
}

/// The vehicle parts `0..4` - body, light, bus, taxi - then the two
/// pedestrians.
pub open spec fn traffic_px(k: int, i: int, j: int) -> bool {
    if k == 0 { hrule_px(4, 3, i, j) }
    else if k == 1 { speck_px(6, i, j) }
    else if k == 2 { hrule_px(2, 5, i, j) }
    else if k == 3 { hrule_px(4, 3, i, j) || hrule_px(2, 1, i, j) }
    else if k == 4 { vrule_px(3, 1, i, j) || speck_px(5, i, j) }
    else { vrule_px(4, 1, i, j) || speck_px(6, i, j) }
}

/// The haze levels, sparser than the lightest dither.
pub open spec fn haze_px(k: int, i: int, j: int) -> bool {
    if k == 0 { speck_px(3, i, j) }
    else { dither_px((2 * k) as u32, i, j) }
}

/// The pixels of catalogue glyph `g`: the definition of every shape.
pub open spec fn glyph_px(g: int, i: int, j: int) -> bool {
    if g < G_DITHER {
        false
    } else if g < G_SOLID {
        dither_px(((g - G_DITHER + 1) * 8) as u32, i, j)
    } else if g < G_QUAD {
        in_cell(i, j)
    } else if g < G_FILL {
        quadrant_px((g - G_QUAD + 1) as u8, i, j)
    } else if g < G_SLOPE {
        in_cell(i, j) && j >= 8 - (g - G_FILL + 1)
    } else if g < G_FACADE {
        let (a, b, c) = slope_plane(g - G_SLOPE);
        half_plane_px(a, b, c, i, j)
    } else if g < G_MULLION {
        let (bays, floors) = facade_cfg((g - G_FACADE) / 4);
        facade_px(bays, floors, facade_lit((g - G_FACADE) % 4), i, j)
    } else if g < G_FIRE {
        trim_px(g - G_MULLION, i, j)
    } else if g < G_ROOF {
        fire_px(g - G_FIRE, i, j)
    } else if g < G_ROAD {
        roof_px(g - G_ROOF, i, j)
    } else if g < G_FLORA {
        road_px(g - G_ROAD, i, j)
    } else if g < G_STREET {
        flora_px(g - G_FLORA, i, j)
    } else if g < G_VEHICLE {
        street_px(g - G_STREET, i, j)
    } else if g < G_RAIN {
        traffic_px(g - G_VEHICLE, i, j)
    } else if g < G_MOON {
        rain_px(-3i32, (g - G_RAIN) as u32, i, j)
    } else if g < G_HALO {
        disc_px(7, ((g - G_MOON) % 2) as u32, ((g - G_MOON) / 2) as u32, i, j)
    } else if g < G_STAR {
        let (qx, qy) = (((g - G_HALO) % 2) as u32, ((g - G_HALO) / 2) as u32);
        disc_px(8, qx, qy, i, j) && !disc_px(7, qx, qy, i, j)
    } else if g < G_HAZE {
        speck_px(((g - G_STAR) * 2 + 1) as u32, i, j)
    } else {
        haze_px(g - G_HAZE, i, j)
    }
}

/// The short name of catalogue glyph `g`, for the sheet the bake tool
/// prints.
pub open spec fn glyph_name(g: int) -> &'static str {
    if g < G_DITHER { "blank" }
    else if g < G_SOLID { "dither" }
    else if g < G_QUAD { "solid" }
    else if g < G_FILL { "quad" }
    else if g < G_SLOPE { "fill" }
    else if g == 32 { "slope-nw" }
    else if g == 33 { "slope-ne" }
    else if g == 34 { "slope-sw" }
    else if g == 35 { "slope-se" }
    else if g == 36 { "slope-shallow-l" }
    else if g == 37 { "slope-shallow-r" }
    else if g == 38 { "slope-steep-l" }
    else if g == 39 { "slope-steep-r" }
    else if g < G_MULLION { "facade" }
    else if g == 56 { "mullion-l" }
    else if g == 57 { "mullion-r" }
    else if g == 58 { "mullion-c" }
    else if g == 59 { "mullion-lr" }
    else if g == 60 { "spandrel" }
    else if g == 61 { "cornice" }
    else if g == 62 { "ledge" }
    else if g == 63 { "parapet" }
    else if g == 64 { "fire-zig-r" }
    else if g == 65 { "fire-zig-l" }
    else if g == 66 { "fire-landing" }
    else if g == 67 { "fire-rail" }
    else if g == 68 { "fire-ladder" }
    else if g == 69 { "fire-bracket" }
    else if g == 70 { "roof-parapet" }
    else if g == 71 { "roof-tank" }
    else if g == 72 { "roof-plant" }
    else if g == 73 { "roof-mast" }
    else if g == 74 { "asphalt" }
    else if g == 75 { "lane-dash" }
    else if g == 76 { "centre-line" }
    else if g == 77 { "crossing" }
    else if g == 78 { "kerb" }
    else if g == 79 { "paving" }
    else if g == 80 { "grate" }
    else if g == 81 { "puddle" }
    else if g == 82 { "canopy" }
    else if g == 83 { "leaf" }
    else if g == 84 { "trunk" }
    else if g == 85 { "hedge" }
    else if g == 86 { "grass" }
    else if g == 87 { "planter" }
    else if g == 88 { "post" }
    else if g == 89 { "lamp" }
    else if g == 90 { "signal" }
    else if g == 91 { "sign" }
    else if g == 92 { "hydrant" }
    else if g == 93 { "bollard" }
    else if g == 94 { "car-body" }
    else if g == 95 { "car-light" }
    else if g == 96 { "bus" }
    else if g == 97 { "taxi" }
    else if g == 98 { "ped" }
    else if g == 99 { "ped-alt" }
    else if g < G_MOON { "rain" }
    else if g < G_HALO { "moon" }
    else if g < G_STAR { "halo" }
    else if g < G_HAZE { "star" }
    else if g == 124 { "haze-0" }
    else if g == 125 { "haze-1" }
    else if g == 126 { "haze-2" }
    else { "haze-3" }
}


// --- construction -----------------------------------------------------------

/// One of the eight edge glyphs.
fn slope_shape(k: u8) -> (bm: Bitmap)
    requires
        k < 8,
    ensures
        forall|i: int, j: int| #[trigger] px(bm, i, j) == ({
            let (a, b, c) = slope_plane(k as int);
            half_plane_px(a, b, c, i, j)
        }),
{
    if k == 0 {
        half_plane(1, 1, 8)
    } else if k == 1 {
        half_plane(-1, 1, 0)
    } else if k == 2 {
        half_plane(1, -1, 0)
    } else if k == 3 {
        half_plane(-1, -1, -8)
    } else if k == 4 {
        half_plane(1, 2, 12)
    } else if k == 5 {
        half_plane(-1, 2, 4)
    } else if k == 6 {
        half_plane(2, 1, 12)
    } else {
        half_plane(-2, 1, 4)
    }
}

/// Facade tile `k`: configuration `k / 4`, lit pattern `k % 4`.
fn facade_shape(k: u8) -> (bm: Bitmap)
    requires
        k < 16,
    ensures
        forall|i: int, j: int| #[trigger] px(bm, i, j) == facade_px(
            facade_cfg(k as int / 4).0,
            facade_cfg(k as int / 4).1,
            facade_lit(k as int % 4),
            i,
            j,
        ),
{
    let c = k / 4;
    let l = k % 4;
    let (bays, floors): (u32, u32) = if c == 0 {
        (2, 2)
    } else if c == 1 {
        (2, 4)
    } else if c == 2 {
        (4, 4)
    } else {
        (4, 2)
    };
    let lit: u8 = if l == 0 {
        0xff
    } else if l == 1 {
        0b1011_0110
    } else if l == 2 {
        0b0110_1101
    } else {
        0b1101_0011
    };
    assert(bays * floors <= 16) by (nonlinear_arith)
        requires
            bays <= 4,
            floors <= 4,
    ;
    facade(bays, floors, lit)
}

/// Mullions and horizontal bands.
fn trim_shape(k: u8) -> (bm: Bitmap)
    requires
        k < 8,
    ensures
        forall|i: int, j: int| #[trigger] px(bm, i, j) == trim_px(k as int, i, j),
{
    if k == 0 {
        vrule(0, 1)
    } else if k == 1 {
        vrule(7, 1)
    } else if k == 2 {
        vrule(3, 2)
    } else if k == 3 {
        over(&vrule(0, 1), &vrule(7, 1))
    } else if k == 4 {
        hrule(0, 1)
    } else if k == 5 {
        hrule(0, 3)
    } else if k == 6 {
        over(&hrule(0, 2), &hrule(6, 2))
    } else {
        hrule(6, 2)
    }
}

/// Fire-escape parts.  The zigzag is the readable signature of a prewar
/// building at any distance, so it gets glyphs of its own.
fn fire_shape(k: u8) -> (bm: Bitmap)
    requires
        k < 6,
    ensures
        forall|i: int, j: int| #[trigger] px(bm, i, j) == fire_px(k as int, i, j),
{
    if k < 2 {
        let zig_r = over(&half_plane(-3, 4, 2), &half_plane(3, -4, -14));
        if k == 0 {
            zig_r
        } else {
            xform(&zig_r, Xform::FlipH)
        }
    } else if k == 2 {
        over(&hrule(3, 1), &hrule(7, 1))
    } else if k == 3 {
        over(&hrule(3, 1), &vrule(6, 1))
    } else if k == 4 {
        let mut ladder = over(&vrule(2, 1), &vrule(5, 1));
        ladder = over(&ladder, &hrule(1, 1));
        ladder = over(&ladder, &hrule(3, 1));
        ladder = over(&ladder, &hrule(5, 1));
        ladder = over(&ladder, &hrule(7, 1));
        ladder
    } else {
        over(&vrule(0, 1), &half_plane(3, 4, 20))
    }
}

/// Roofscape parts.
fn roof_shape(k: u8) -> (bm: Bitmap)
    requires
        k < 4,
    ensures
        forall|i: int, j: int| #[trigger] px(bm, i, j) == roof_px(k as int, i, j),
{
    if k == 0 {
        hrule(5, 3)
    } else if k == 1 {
        over(&hrule(2, 3), &vrule(2, 4))
    } else if k == 2 {
        over(&hrule(4, 4), &vrule(1, 2))
    } else {
        over(&vrule(3, 1), &hrule(0, 1))
    }
}

/// Ground surfaces.
fn road_shape(k: u8) -> (bm: Bitmap)
    requires
        k < 8,
    ensures
        forall|i: int, j: int| #[trigger] px(bm, i, j) == road_px(k as int, i, j),
{
    if k == 0 {
        dither(4)
    } else if k == 1 {
        hrule(3, 2)
    } else if k == 2 {
        over(&hrule(2, 1), &hrule(5, 1))
    } else if k == 3 {
        vrule(1, 3)
    } else if k == 4 {
        hrule(6, 2)
    } else if k == 5 {
        over(&hrule(0, 1), &vrule(0, 1))
    } else if k == 6 {
        dither(24)
    } else {
        hrule(4, 3)
    }
}

/// Plants.
fn flora_shape(k: u8) -> (bm: Bitmap)
    requires
        k < 6,
    ensures
        forall|i: int, j: int| #[trigger] px(bm, i, j) == flora_px(k as int, i, j),
{
    if k == 0 {
        dither(44)
    } else if k == 1 {
        dither(20)
    } else if k == 2 {
        vrule(3, 2)
    } else if k == 3 {
        over(&dither(36), &hrule(7, 1))
    } else if k == 4 {
        dither(12)
    } else {
        over(&hrule(5, 3), &dither(16))
    }
}

/// Street furniture.
fn street_shape(k: u8) -> (bm: Bitmap)
    requires
        k < 6,
    ensures
        forall|i: int, j: int| #[trigger] px(bm, i, j) == street_px(k as int, i, j),
{
    if k == 0 {
        vrule(3, 1)
    } else if k == 1 {
        over(&hrule(1, 2), &vrule(3, 1))
    } else if k == 2 {
        over(&speck(5), &over(&speck(9), &vrule(3, 1)))
    } else if k == 3 {
        hrule(1, 4)
    } else if k == 4 {
        over(&hrule(4, 4), &hrule(3, 1))
    } else {
        vrule(3, 2)
    }
}

/// Vehicle parts and pedestrians.
fn traffic_shape(k: u8) -> (bm: Bitmap)
    requires
        k < 6,
    ensures
        forall|i: int, j: int| #[trigger] px(bm, i, j) == traffic_px(k as int, i, j),
{
    if k == 0 {
        hrule(4, 3)
    } else if k == 1 {
        speck(6)
    } else if k == 2 {
        hrule(2, 5)
    } else if k == 3 {
        over(&hrule(4, 3), &hrule(2, 1))
    } else if k == 4 {
        over(&vrule(3, 1), &speck(5))
    } else {
        over(&vrule(4, 1), &speck(6))
    }
}

/// The bitmap of catalogue glyph `g`.
fn shape(g: u8) -> (bm: Bitmap)
    requires
        g < 128,
    ensures
        forall|i: int, j: int| #[trigger] px(bm, i, j) == glyph_px(g as int, i, j),
{
    if g < G_DITHER {
        proof {
            crate::font::lemma_blank();
        }
        BLANK
    } else if g < G_SOLID {
        dither(((g - G_DITHER) as u32 + 1) * 8)
    } else if g < G_QUAD {
        proof {
            crate::font::lemma_solid();
        }
        SOLID
    } else if g < G_FILL {
        quadrant(g - G_QUAD + 1)
    } else if g < G_SLOPE {
        let n = (g - G_FILL + 1) as u32;
        hrule(8 - n, n)
    } else if g < G_FACADE {
        slope_shape(g - G_SLOPE)
    } else if g < G_MULLION {
        facade_shape(g - G_FACADE)
    } else if g < G_FIRE {
        trim_shape(g - G_MULLION)
    } else if g < G_ROOF {
        fire_shape(g - G_FIRE)
    } else if g < G_ROAD {
        roof_shape(g - G_ROOF)
    } else if g < G_FLORA {
        road_shape(g - G_ROAD)
    } else if g < G_STREET {
        flora_shape(g - G_FLORA)
    } else if g < G_VEHICLE {
        street_shape(g - G_STREET)
    } else if g < G_RAIN {
        traffic_shape(g - G_VEHICLE)
    } else if g < G_MOON {
        rain_streak(-3, (g - G_RAIN) as u32)
    } else if g < G_HALO {
        let q = g - G_MOON;
        disc_quadrant(7, (q % 2) as u32, (q / 2) as u32)
    } else if g < G_STAR {
        let q = g - G_HALO;
        less(&disc_quadrant(8, (q % 2) as u32, (q / 2) as u32), &disc_quadrant(7, (q % 2) as u32, (q / 2) as u32))
    } else if g < G_HAZE {
        speck((g - G_STAR) as u32 * 2 + 1)
    } else if g == G_HAZE {
        speck(3)
    } else {
        dither((g - G_HAZE) as u32 * 2)
    }
}


/// The name of catalogue glyph `g`.
fn name(g: u8) -> (n: &'static str)
    requires
        g < 128,
    ensures
        n == glyph_name(g as int),
{
    if g < G_DITHER { "blank" }
    else if g < G_SOLID { "dither" }
    else if g < G_QUAD { "solid" }
    else if g < G_FILL { "quad" }
    else if g < G_SLOPE { "fill" }
    else if g == 32 { "slope-nw" }
    else if g == 33 { "slope-ne" }
    else if g == 34 { "slope-sw" }
    else if g == 35 { "slope-se" }
    else if g == 36 { "slope-shallow-l" }
    else if g == 37 { "slope-shallow-r" }
    else if g == 38 { "slope-steep-l" }
    else if g == 39 { "slope-steep-r" }
    else if g < G_MULLION { "facade" }
    else if g == 56 { "mullion-l" }
    else if g == 57 { "mullion-r" }
    else if g == 58 { "mullion-c" }
    else if g == 59 { "mullion-lr" }
    else if g == 60 { "spandrel" }
    else if g == 61 { "cornice" }
    else if g == 62 { "ledge" }
    else if g == 63 { "parapet" }
    else if g == 64 { "fire-zig-r" }
    else if g == 65 { "fire-zig-l" }
    else if g == 66 { "fire-landing" }
    else if g == 67 { "fire-rail" }
    else if g == 68 { "fire-ladder" }
    else if g == 69 { "fire-bracket" }
    else if g == 70 { "roof-parapet" }
    else if g == 71 { "roof-tank" }
    else if g == 72 { "roof-plant" }
    else if g == 73 { "roof-mast" }
    else if g == 74 { "asphalt" }
    else if g == 75 { "lane-dash" }
    else if g == 76 { "centre-line" }
    else if g == 77 { "crossing" }
    else if g == 78 { "kerb" }
    else if g == 79 { "paving" }
    else if g == 80 { "grate" }
    else if g == 81 { "puddle" }
    else if g == 82 { "canopy" }
    else if g == 83 { "leaf" }
    else if g == 84 { "trunk" }
    else if g == 85 { "hedge" }
    else if g == 86 { "grass" }
    else if g == 87 { "planter" }
    else if g == 88 { "post" }
    else if g == 89 { "lamp" }
    else if g == 90 { "signal" }
    else if g == 91 { "sign" }
    else if g == 92 { "hydrant" }
    else if g == 93 { "bollard" }
    else if g == 94 { "car-body" }
    else if g == 95 { "car-light" }
    else if g == 96 { "bus" }
    else if g == 97 { "taxi" }
    else if g == 98 { "ped" }
    else if g == 99 { "ped-alt" }
    else if g < G_MOON { "rain" }
    else if g < G_HALO { "moon" }
    else if g < G_STAR { "halo" }
    else if g < G_HAZE { "star" }
    else if g == 124 { "haze-0" }
    else if g == 125 { "haze-1" }
    else if g == 126 { "haze-2" }
    else { "haze-3" }
}

/// Every catalogue glyph has a name.
pub proof fn lemma_every_glyph_named()
    ensures
        forall|g: int| 0 <= g < N_GLYPHS ==> (#[trigger] glyph_name(g))@.len() > 0,
{
    reveal_strlit("asphalt");
    reveal_strlit("blank");
    reveal_strlit("bollard");
    reveal_strlit("bus");
    reveal_strlit("canopy");
    reveal_strlit("car-body");
    reveal_strlit("car-light");
    reveal_strlit("centre-line");
    reveal_strlit("cornice");
    reveal_strlit("crossing");
    reveal_strlit("dither");
    reveal_strlit("facade");
    reveal_strlit("fill");
    reveal_strlit("fire-bracket");
    reveal_strlit("fire-ladder");
    reveal_strlit("fire-landing");
    reveal_strlit("fire-rail");
    reveal_strlit("fire-zig-l");
    reveal_strlit("fire-zig-r");
    reveal_strlit("grass");
    reveal_strlit("grate");
    reveal_strlit("halo");
    reveal_strlit("haze-0");
    reveal_strlit("haze-1");
    reveal_strlit("haze-2");
    reveal_strlit("haze-3");
    reveal_strlit("hedge");
    reveal_strlit("hydrant");
    reveal_strlit("kerb");
    reveal_strlit("lamp");
    reveal_strlit("lane-dash");
    reveal_strlit("leaf");
    reveal_strlit("ledge");
    reveal_strlit("moon");
    reveal_strlit("mullion-c");
    reveal_strlit("mullion-l");
    reveal_strlit("mullion-lr");
    reveal_strlit("mullion-r");
    reveal_strlit("parapet");
    reveal_strlit("paving");
    reveal_strlit("ped");
    reveal_strlit("ped-alt");
    reveal_strlit("planter");
    reveal_strlit("post");
    reveal_strlit("puddle");
    reveal_strlit("quad");
    reveal_strlit("rain");
    reveal_strlit("roof-mast");
    reveal_strlit("roof-parapet");
    reveal_strlit("roof-plant");
    reveal_strlit("roof-tank");
    reveal_strlit("sign");
    reveal_strlit("signal");
    reveal_strlit("slope-ne");
    reveal_strlit("slope-nw");
    reveal_strlit("slope-se");
    reveal_strlit("slope-shallow-l");
    reveal_strlit("slope-shallow-r");
    reveal_strlit("slope-steep-l");
    reveal_strlit("slope-steep-r");
    reveal_strlit("slope-sw");
    reveal_strlit("solid");
    reveal_strlit("spandrel");
    reveal_strlit("star");
    reveal_strlit("taxi");
    reveal_strlit("trunk");
}

/// The catalogue: 128 bitmaps and their names.
pub struct Catalog {
    /// The bitmaps, indexed by [`GlyphId`].
    pub bitmaps: [Bitmap; 128],
    /// A short name per glyph, for the sheet the bake tool prints.
    pub names: [&'static str; 128],
}

/// Build the catalogue.  Pure, deterministic, and the only definition of
/// what any of these shapes are.
pub fn build() -> (c: Catalog)
    ensures
        forall|g: int, i: int, j: int|
            0 <= g < N_GLYPHS ==> #[trigger] px(c.bitmaps[g], i, j) == glyph_px(g, i, j),
        forall|g: int| 0 <= g < N_GLYPHS ==> #[trigger] c.names[g] == glyph_name(g),
        forall|g: int| 0 <= g < N_GLYPHS ==> (#[trigger] c.names[g])@.len() > 0,
{
    let mut bitmaps: [Bitmap; 128] = [BLANK; 128];
    let mut names: [&'static str; 128] = [""; 128];
    let mut g: u8 = 0;
    while g < 128
        invariant
            g <= 128,
            forall|h: int, i: int, j: int|
                0 <= h < g ==> #[trigger] px(bitmaps[h], i, j) == glyph_px(h, i, j),
            forall|h: int| 0 <= h < g ==> #[trigger] names[h] == glyph_name(h),
        decreases 128 - g,
    {
        bitmaps[g as usize] = shape(g);
        names[g as usize] = name(g);
        g = g + 1;
    }
    proof {
        lemma_every_glyph_named();
    }
    Catalog { bitmaps, names }
}

} // verus!
