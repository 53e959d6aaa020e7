//! The projection the wall pass and everything drawn after it share.
//!
//! The sprite pass and the ground decals have to agree with the wall pass
//! exactly - the same horizon, the same rows per world unit - or
//! billboards float above the pavement.  Rather than recomputing it and
//! hoping the derivations stay in step, the numbers are handed over in a
//! [`Proj`].
//!
//! The road markings are read off two numbers per point: how far across
//! the carriageway it is from the near kerb, and how wide the carriageway
//! is.  Widening a boulevard moves its centre line with it, and there is
//! no second definition of where the middle is.  A crossing is painted
//! wherever the plan says one is, and the inside of a junction is bare.
//!
//! The pavement is four bands from the kerb to the building line, read off
//! which sides of its cell meet the road and which meet a wall.
use vstd::prelude::*;
use crate::catalog::{self, GlyphId};
use crate::atmos::{Atmos, lambert_of, sky_of, sky_fits, day_fits, draw_distance_of, moon_fits, moon_at_of, with_moon};
use crate::camera::Camera;
use crate::frame::{Cel, Frame, on_screen, empty_cel};
use crate::arch::{Lot, Face, facade_of, roof_of, lod_of, face_index, face_of, ROOF};
use crate::shadow::ShadowMap;
use crate::fixed::{self, Fx, HALF, ONE, fx_mul, fx_div, fx_floor, from_int_of, trunc_div};
use crate::palette;
use crate::rng::{hash3, hash3_of};
use crate::road::Strip;
use crate::trig::{self, Ang, sin_of, cos_of};

verus! {

/// How much taller a character cell is than it is wide.
pub const CELL_ASPECT: i32 = 2;

/// The projection one frame was drawn with.
#[derive(Clone, Copy, Debug)]
pub struct Proj {
    /// Frame width in columns.
    pub w: i32,
    /// Frame height in rows.
    pub h: i32,
    /// Screen row the horizon falls on, pitch included.
    pub horizon: i32,
    /// Screen rows per world unit at unit distance.
    pub proj: Fx,
    /// How high the camera is above the ground it is standing on.
    pub eye: Fx,
}

/// The value of [`scale`].
pub open spec fn scale_of(w: i32, fov: Fx) -> Fx {
    fx_div(from_int_of(w as int), fx_mul(fov, from_int_of(2 * CELL_ASPECT)))
}

/// Screen rows per world unit at unit distance: the frame's width over the
/// camera plane's width, narrowed by the cell aspect.
pub fn scale(w: i32, fov: Fx) -> (r: Fx)
    ensures
        r == scale_of(w, fov),
{
    fixed::div(fixed::from_int(w), fixed::mul(fov, fixed::from_int(2 * CELL_ASPECT)))
}

/// The value of [`pitch_down`].
pub open spec fn pitch_down_of(w: i32, h: i32, fov: Fx, eye: Fx, far: i32) -> int {
    let e = if eye > 1 { eye } else { 1 };
    let f = if far > 1 { far } else { 1 };
    let rows = fx_div(fx_mul(e, scale_of(w, fov)), from_int_of(f as int));
    -(trunc_div(h as int, 2) + fx_floor(rows))
}

/// The pitch that aims a camera `eye` units above the ground *at the
/// ground*, with the furthest thing it could see - `far` away - at the top
/// of the frame: ground `d` away is drawn `eye * scale / d` rows below the
/// horizon.
pub fn pitch_down(w: i32, h: i32, fov: Fx, eye: Fx, far: i32) -> (r: i32)
    ensures
        r == pitch_down_of(w, h, fov, eye, far),
{
    let e = if eye > 1 { eye } else { 1 };
    let f = if far > 1 { far } else { 1 };
    let rows = fixed::div(fixed::mul(e, scale(w, fov)), fixed::from_int(f));
    -(h / 2 + fixed::floor(rows))
}

/// Half-width of the painted centre line: a sixth of a cell, wide enough
/// to survive the ground sampler and narrow enough to read as a line.
pub const CENTRE_HALF: Fx = 10922;
/// Half-width of a dashed lane divider: a tenth of a cell.
pub const LANE_HALF: Fx = 6553;
/// Width of the solid white line along the kerb: an eighth of a cell.
pub const EDGE_W: Fx = 8192;
/// Lane dividers are only painted on roads at least three cells wide; a
/// two-cell street has one lane each way and nothing to divide.
pub const LANE_MIN_W: Fx = 196608;
/// How far apart crosswalk stripes are: half a cell.
pub const ZEBRA_PITCH: Fx = 32768;
/// How much of that pitch is painted: eleven twentieths.
pub const ZEBRA_DUTY: Fx = 36044;

/// Whether a point is on a road whose markings can be worked out in 32
/// bits: within a quarter of the number range of the kerb, on a road no
/// wider than that.
pub open spec fn paint_fits(across: Fx, width: Fx) -> bool {
    &&& -0x2000_0000 <= across <= 0x2000_0000
    &&& -0x2000_0000 <= width <= 0x2000_0000
}

/// Whether `across` is within `half` of `at`.
pub open spec fn near(across: int, at: int, half: int) -> bool {
    vstd::math::abs(across - at) < half
}

/// The value of [`lines`]: the double yellow down the middle; on a road
/// wide enough, a dashed divider at a quarter and three quarters across,
/// on for a cell and off for a cell along the road; a solid-looking dash
/// along each kerb; and nothing else.
pub open spec fn lines_of(across: Fx, width: Fx, along: Fx) -> Option<(GlyphId, u8, u8)> {
    let centre = trunc_div(width as int, 2);
    if near(across as int, centre, CENTRE_HALF as int) {
        Some((catalog::ROAD_CENTRE, palette::H_YELLOW, 6u8))
    } else if width >= LANE_MIN_W
        && (near(across as int, fx_mul(width, 16384) as int, LANE_HALF as int)
            || near(across as int, fx_mul(width, 49152) as int, LANE_HALF as int)) {
        if (fx_mul(along, HALF) as int) % 65536 < HALF {
            Some((catalog::ROAD_DASH, palette::H_WHITE, 5u8))
        } else {
            None
        }
    } else if !(EDGE_W <= across && across <= width - EDGE_W) {
        Some((catalog::ROAD_DASH, palette::H_WHITE, 3u8))
    } else {
        None
    }
}

/// The lines along an ordinary stretch of road, at `across` from the near
/// kerb of a carriageway `width` wide, `along` being the world coordinate
/// running down the road, which is what breaks the dividers into dashes.
pub fn lines(across: Fx, width: Fx, along: Fx) -> (r: Option<(GlyphId, u8, u8)>)
    requires
        paint_fits(across, width),
    ensures
        r == lines_of(across, width, along),
{
    let centre = width / 2;
    if fixed::abs(across - centre) < CENTRE_HALF {
        return Some((catalog::ROAD_CENTRE, palette::H_YELLOW, 6));
    }
    if width >= LANE_MIN_W {
        proof {
            fixed::lemma_mul_bound(width, 16384, 0x2000_0000, 65536);
            fixed::lemma_mul_bound(width, 49152, 0x2000_0000, 65536);
        }
        let quarter = fixed::mul(width, fixed::ratio(1, 4));
        let three = fixed::mul(width, fixed::ratio(3, 4));
        proof {
            assert(fixed::from_int_of(1) == 65536 && fixed::from_int_of(4) == 262144 && fixed::from_int_of(3) == 196608);
            assert((65536int * 65536) / 262144int == 16384) by (nonlinear_arith);
            assert((196608int * 65536) / 262144int == 49152) by (nonlinear_arith);
        }
        if fixed::abs(across - quarter) < LANE_HALF || fixed::abs(across - three) < LANE_HALF {
            return if fixed::frac(fixed::mul(along, HALF)) < HALF {
                Some((catalog::ROAD_DASH, palette::H_WHITE, 5))
            } else {
                None
            };
        }
    }
    if !(EDGE_W <= across && across <= width - EDGE_W) {
        return Some((catalog::ROAD_DASH, palette::H_WHITE, 3));
    }
    None
}

/// The value of [`zebra`]: a stripe for the first eleven twentieths of
/// every half cell along the crossing.
pub open spec fn zebra_of(along: Fx) -> Option<(GlyphId, u8, u8)> {
    if (fx_div(along, ZEBRA_PITCH) as int) % 65536 < ZEBRA_DUTY {
        Some((catalog::ROAD_CROSSING, palette::H_WHITE, 6u8))
    } else {
        None
    }
}

/// One stripe of a crosswalk, or bare tarmac between stripes.
pub fn zebra(along: Fx) -> (r: Option<(GlyphId, u8, u8)>)
    ensures
        r == zebra_of(along),
{
    let t = fixed::frac(fixed::div(along, ZEBRA_PITCH));
    if t < ZEBRA_DUTY {
        Some((catalog::ROAD_CROSSING, palette::H_WHITE, 6))
    } else {
        None
    }
}

/// Which way a painted crossing runs, where the plan has one: over the
/// north-south carriageway (stripes laid along x) or over the east-west
/// one.
#[derive(Clone, Copy, Debug, PartialEq, Eq, Structural)]
pub enum Crossing {
    OverCols,
    OverRows,
}

/// The projection a camera and a frame make, for the ground under the
/// camera standing at `ground`: the frame's size, the horizon moved by the
/// pitch, the scale, and the eye's height above that ground, at least a
/// hair.
pub open spec fn projection_of(cam: Camera, w: int, h: int, ground: Fx) -> Proj {
    let eye = cam.z - ground;
    Proj {
        w: w as i32,
        h: h as i32,
        horizon: (h / 2 + cam.pitch) as i32,
        proj: scale_of(w as i32, cam.fov),
        eye: if eye > 1 { eye as i32 } else { 1i32 },
    }
}

/// Work out the projection for a camera and a frame, with `ground` the
/// height of the ground in each cell.
pub fn projection(ground: impl Fn(i32, i32) -> Fx, cam: &Camera, f: &Frame) -> (p: Proj)
    requires
        forall|a: i32, b: i32| ground.requires((a, b)),
        forall|a: i32, b: i32, g: Fx| #[trigger] ground.ensures((a, b), g) ==> -0x4000_0000 <= g <= 0x4000_0000,
        -0x3fff_ffff <= cam.z <= 0x3fff_ffff,
        f.w <= 0x7fff_ffff,
        f.h <= 0x7fff_ffff,
        -0x4000_0000 <= cam.pitch <= 0x4000_0000,
    ensures
        exists|g: Fx| #[trigger] ground.ensures(((cam.x as int / 65536) as i32, (cam.y as int / 65536) as i32), g)
            && p == projection_of(*cam, f.w as int, f.h as int, g),
{
    let (w, h) = (f.w as i32, f.h as i32);
    let a = fixed::floor(cam.x);
    let b = fixed::floor(cam.y);
    let g = ground(a, b);
    assert(ground.ensures((a, b), g));
    let eye = cam.z - g;
    let p = Proj {
        w,
        h,
        horizon: h / 2 + cam.pitch,
        proj: scale(w, cam.fov),
        eye: if eye > 1 { eye } else { 1 },
    };
    assert(p == projection_of(*cam, f.w as int, f.h as int, g));
    assert(a == (cam.x as int / 65536) as i32 && b == (cam.y as int / 65536) as i32);
    assert(ground.ensures(((cam.x as int / 65536) as i32, (cam.y as int / 65536) as i32), g));
    p
}

/// Whether a point of ground is one the renderer can work out in 32-bit
/// world units: a cell the integer part can hold, and a fraction of it.
pub open spec fn ground_fits(gx: i32, gy: i32, fx: Fx, fy: Fx) -> bool {
    &&& -32768 <= gx < 32768
    &&& -32768 <= gy < 32768
    &&& 0 <= fx < ONE
    &&& 0 <= fy < ONE
}

/// How far across the carriageway a point is, in cells.
fn across(r: Strip, frac: Fx) -> (a: Fx)
    requires
        0 <= frac < ONE,
    ensures
        a == r.across * 65536 + frac,
{
    fixed::from_int(r.across as i32) + frac
}

/// How wide the carriageway is, in cells.
fn width(r: Strip) -> (w: Fx)
    ensures
        w == r.width * 65536,
{
    fixed::from_int(r.width as i32)
}

/// The markings along whichever single street a point is on: none inside
/// a junction or off the streets.
pub open spec fn street_paint(col: Strip, row: Strip, gx: int, gy: int, fx: Fx, fy: Fx) -> Option<(GlyphId, u8, u8)> {
    if col.street && row.street {
        None
    } else if col.street {
        lines_of((col.across * 65536 + fx) as i32, (col.width * 65536) as i32, (gy * 65536 + fy) as i32)
    } else if row.street {
        lines_of((row.across * 65536 + fy) as i32, (row.width * 65536) as i32, (gx * 65536 + fx) as i32)
    } else {
        None
    }
}

/// The value of [`road`]: a crossing's stripe where the plan paints one,
/// else the street's own lines, else bare tarmac with the odd grate.
pub open spec fn road_of(col: Strip, row: Strip, crossing: Option<Crossing>, gx: i32, gy: i32, fx: Fx, fy: Fx) -> (GlyphId, u8, u8) {
    let zx = zebra_of((gx * 65536 + fx) as i32);
    let zy = zebra_of((gy * 65536 + fy) as i32);
    if crossing == Some(Crossing::OverCols) && zx is Some {
        zx->0
    } else if crossing == Some(Crossing::OverRows) && zy is Some {
        zy->0
    } else {
        match street_paint(col, row, gx as int, gy as int, fx, fy) {
            Some(m) => m,
            None => if hash3_of(gx as u32, gy as u32, 0x6247_4154) & 63 == 0 {
                (catalog::ROAD_GRATE, palette::H_WHITE, 2u8)
            } else {
                (catalog::ROAD_ASPHALT, palette::H_WHITE, 1u8)
            },
        }
    }
}

/// Road surface markings, read straight off the street plan under the
/// cell: `col` and `row` are the plan's strips through it, and `crossing`
/// the crossing the plan paints there, if any.
///
/// A crossing first, at the stop line outside the junction box; inside a
/// junction, bare tarmac; along a street, its lines.  Alleys are not
/// streets and get nothing.
pub fn road(col: &Strip, row: &Strip, crossing: Option<Crossing>, gx: i32, gy: i32, fx: Fx, fy: Fx) -> (r: (GlyphId, u8, u8))
    requires
        ground_fits(gx, gy, fx, fy),
    ensures
        r == road_of(*col, *row, crossing, gx, gy, fx, fy),
{
    match crossing {
        Some(Crossing::OverCols) => {
            if let Some(m) = zebra(fixed::from_int(gx) + fx) {
                return m;
            }
        },
        Some(Crossing::OverRows) => {
            if let Some(m) = zebra(fixed::from_int(gy) + fy) {
                return m;
            }
        },
        None => {},
    }
    if col.street && row.street {
    } else if col.street {
        if let Some(m) = lines(across(*col, fx), width(*col), fixed::from_int(gy) + fy) {
            return m;
        }
    } else if row.street {
        if let Some(m) = lines(across(*row, fy), width(*row), fixed::from_int(gx) + fx) {
            return m;
        }
    }
    let h = hash3(gx as u32, gy as u32, 0x6247_4154);
    if h & 63 == 0 {
        return (catalog::ROAD_GRATE, palette::H_WHITE, 2);
    }
    (catalog::ROAD_ASPHALT, palette::H_WHITE, 1)
}

/// Inside a junction, and on an alley or anything else that is not a
/// single street, nothing is painted but a crossing: the ground there is
/// tarmac or a grate.
pub proof fn lemma_a_junction_is_bare_tarmac_inside(col: Strip, row: Strip, gx: i32, gy: i32, fx: Fx, fy: Fx)
    requires
        col.street == row.street,
    ensures
        road_of(col, row, None, gx, gy, fx, fy).0 == catalog::ROAD_GRATE
            || road_of(col, row, None, gx, gy, fx, fy).0 == catalog::ROAD_ASPHALT,
{
}

/// Every street has its yellow centre line down the middle: on a street
/// running north-south, away from a crossing, a point within the line's
/// half-width of the crown is painted with it.
pub proof fn lemma_every_street_has_a_centre_line(col: Strip, row: Strip, gx: i32, gy: i32, fx: Fx, fy: Fx)
    requires
        ground_fits(gx, gy, fx, fy),
        col.street,
        !row.street,
        near(col.across * 65536 + fx, trunc_div(col.width * 65536, 2), CENTRE_HALF as int),
    ensures
        road_of(col, row, None, gx, gy, fx, fy) == (catalog::ROAD_CENTRE, palette::H_YELLOW, 6u8),
{
}

/// How far across the pavement the kerb reaches from the carriageway.
pub const KERB_BAND: Fx = 10922;
/// How far the planted verge reaches.
pub const VERGE_BAND: Fx = 32768;
/// How close to the building line the paving stops.
pub const SEAM_BAND: Fx = 8192;

/// The value of [`edge_distance`].
pub open spec fn edge_distance_of(sides: u8, fx: int, fy: int) -> int {
    let d0 = 65536int;
    let d1 = if sides & 1 != 0 && fx < d0 { fx } else { d0 };
    let d2 = if sides & 2 != 0 && 65536 - fx < d1 { 65536 - fx } else { d1 };
    let d3 = if sides & 4 != 0 && fy < d2 { fy } else { d2 };
    if sides & 8 != 0 && 65536 - fy < d3 { 65536 - fy } else { d3 }
}

/// Distance to the nearest of a cell's marked sides, in cells.
///
/// The low four bits of `sides` are west, east, north and south.  One when
/// no side is marked, which is what a fragment of pavement in the middle
/// of a block should read as.
pub fn edge_distance(sides: u8, fx: Fx, fy: Fx) -> (d: Fx)
    requires
        0 <= fx <= ONE,
        0 <= fy <= ONE,
    ensures
        d == edge_distance_of(sides, fx as int, fy as int),
        0 <= d <= ONE,
{
    let mut d = ONE;
    if sides & 1 != 0 && fx < d {
        d = fx;
    }
    if sides & 2 != 0 && ONE - fx < d {
        d = ONE - fx;
    }
    if sides & 4 != 0 && fy < d {
        d = fy;
    }
    if sides & 8 != 0 && ONE - fy < d {
        d = ONE - fy;
    }
    d
}

/// The value of [`pavement`].
pub open spec fn pavement_of(kerbs: u8, walls: u8, gx: i32, gy: i32, fx: Fx, fy: Fx) -> (GlyphId, u8, u8) {
    let kerb = edge_distance_of(kerbs, fx as int, fy as int);
    if kerb < KERB_BAND {
        (catalog::ROAD_KERB, palette::H_WHITE, 6u8)
    } else if kerb < VERGE_BAND {
        let h = hash3_of(gx as u32, gy as u32, 0x9E46_E000) & 7;
        if h == 0 {
            (catalog::FLORA_HEDGE, palette::H_GREEN, 4u8)
        } else if h <= 2 {
            (catalog::FLORA_GRASS, palette::H_LIGHT_GREEN, 5u8)
        } else {
            (catalog::FLORA_GRASS, palette::H_GREEN, 5u8)
        }
    } else if edge_distance_of(walls, fx as int, fy as int) < SEAM_BAND {
        (catalog::G_CORNICE, palette::H_WHITE, 1u8)
    } else {
        let h = hash3_of(gx as u32, gy as u32, 0xCE11_7A00) & 15;
        if h == 0 {
            (catalog::ROAD_GRATE, palette::H_WHITE, 3u8)
        } else if h == 1 {
            (catalog::ROAD_PAVING, palette::H_BROWN, 3u8)
        } else if h <= 4 {
            (catalog::ROAD_PAVING, palette::H_WHITE, 3u8)
        } else {
            (catalog::ROAD_PAVING, palette::H_WHITE, 4u8)
        }
    }
}

/// The pavement, in bands from the kerb to the building line: the kerb,
/// the brightest thing on the ground; the planted verge; the paving,
/// varying cell to cell; and a dark seam where the paving meets the wall.
///
/// `kerbs` marks the sides of the cell that meet the carriageway and
/// `walls` those that meet a building, west, east, north and south in the
/// low four bits.  The dirt and the grass are hashes of the cell, so a
/// stain stays where it is from frame to frame.
pub fn pavement(kerbs: u8, walls: u8, gx: i32, gy: i32, fx: Fx, fy: Fx) -> (r: (GlyphId, u8, u8))
    requires
        0 <= fx <= ONE,
        0 <= fy <= ONE,
    ensures
        r == pavement_of(kerbs, walls, gx, gy, fx, fy),
{
    let kerb = edge_distance(kerbs, fx, fy);
    if kerb < KERB_BAND {
        return (catalog::ROAD_KERB, palette::H_WHITE, 6);
    }
    if kerb < VERGE_BAND {
        let h = hash3(gx as u32, gy as u32, 0x9E46_E000) & 7;
        return if h == 0 {
            (catalog::FLORA_HEDGE, palette::H_GREEN, 4)
        } else if h <= 2 {
            (catalog::FLORA_GRASS, palette::H_LIGHT_GREEN, 5)
        } else {
            (catalog::FLORA_GRASS, palette::H_GREEN, 5)
        };
    }
    if edge_distance(walls, fx, fy) < SEAM_BAND {
        return (catalog::G_CORNICE, palette::H_WHITE, 1);
    }
    let h = hash3(gx as u32, gy as u32, 0xCE11_7A00) & 15;
    if h == 0 {
        (catalog::ROAD_GRATE, palette::H_WHITE, 3)
    } else if h == 1 {
        (catalog::ROAD_PAVING, palette::H_BROWN, 3)
    } else if h <= 4 {
        (catalog::ROAD_PAVING, palette::H_WHITE, 3)
    } else {
        (catalog::ROAD_PAVING, palette::H_WHITE, 4)
    }
}

/// The kerb stays the brightest thing on the pavement, and everything
/// people walk on can be seen: whatever the cell, the kerb is at
/// luminance six and every other band is below it; grass is at least
/// four and green or light green; paving and grates at least three.
pub proof fn lemma_the_kerb_is_the_brightest_band(kerbs: u8, walls: u8, gx: i32, gy: i32, fx: Fx, fy: Fx)
    ensures
        ({
            let (g, hue, l) = pavement_of(kerbs, walls, gx, gy, fx, fy);
            &&& g == catalog::ROAD_KERB ==> l == 6
            &&& g != catalog::ROAD_KERB ==> l < 6
            &&& (g == catalog::FLORA_GRASS || g == catalog::FLORA_HEDGE)
                ==> l >= 4 && (hue == palette::H_GREEN || hue == palette::H_LIGHT_GREEN)
            &&& (g == catalog::ROAD_PAVING || g == catalog::ROAD_GRATE) ==> l >= 3
        }),
{
}

/// What a cell of the city is, as far as the ground pass cares.
#[derive(Clone, Copy, Debug, PartialEq, Eq, Structural)]
pub enum Kind {
    Road,
    Sidewalk,
    Park,
    Plaza,
    Building,
}

/// What the ground pass reads of one cell: what it is, the street plan's
/// column and row through it and the crossing painted there, which of its
/// sides meet the carriageway and which a wall, and the height of its
/// ground.
#[derive(Clone, Copy, Debug, PartialEq, Eq, Structural)]
pub struct Site {
    pub kind: Kind,
    pub col: Strip,
    pub row: Strip,
    pub crossing: Option<Crossing>,
    pub kerbs: u8,
    pub walls: u8,
    pub ground: Fx,
}

/// The height below which a cell is in the shade of something upstream.
pub open spec fn shadow_line(s: ShadowMap, x: int, y: int) -> int {
    trunc_div(from_int_of(s.line_steps(x, y) as int) as int, 32)
}

/// A colour with the depth cue applied: the hue held, the luminance
/// dropped by the haze at that distance.
pub open spec fn shaded_colour(a: Atmos, hue: u8, luma: u8, dist: Fx) -> palette::Color {
    palette::pack(hue, if luma >= a.fade_of(dist) { (luma - a.fade_of(dist)) as u8 } else { 0 })
}

/// What the surface of a cell is at a point of it, before the light: the
/// road's markings, the pavement's bands, grass with the odd hedge in a
/// park, paving in a plaza, and black under a building.
pub open spec fn surface_of(site: Site, gx: i32, gy: i32, fx: Fx, fy: Fx) -> (GlyphId, u8, u8) {
    match site.kind {
        Kind::Road => road_of(site.col, site.row, site.crossing, gx, gy, fx, fy),
        Kind::Sidewalk => pavement_of(site.kerbs, site.walls, gx, gy, fx, fy),
        Kind::Park => {
            let h = hash3_of(gx as u32, gy as u32, ((fx * 4) / 65536 + (fy * 4) / 65536) as u32);
            if h & 7 == 0 {
                (catalog::FLORA_HEDGE, palette::H_GREEN, 4u8)
            } else {
                (catalog::FLORA_GRASS, palette::H_GREEN, 5u8)
            }
        },
        Kind::Plaza => (catalog::ROAD_PAVING, palette::H_WHITE, 4u8),
        Kind::Building => (catalog::G_SOLID, palette::H_BLACK, 0u8),
    }
}

/// Whether a point of a cell is under a puddle when the ground is wet: a
/// square of a quarter to five eighths of the cell in its middle, on one
/// cell in four, never in a park.
pub open spec fn puddle_at(site: Site, gx: i32, gy: i32, fx: Fx, fy: Fx) -> bool {
    let h = hash3_of(gx as u32, gy as u32, 0x5075_4444);
    let size = (2 + (h & 3)) * 8192;
    &&& site.kind != Kind::Park
    &&& vstd::math::abs(fx - HALF) < size
    &&& vstd::math::abs(fy - HALF) < size
    &&& h & 12 == 0
}

/// The value of [`ground`] for the cell's site and shadow line: a lit
/// puddle if it is wet and there is one, else the surface lit as ground
/// faces, up, and in shade below the line when there is a light.
pub open spec fn ground_of(site: Site, line: int, a: Atmos, light: Light, wx: Fx, wy: Fx, dist: Fx) -> Cel {
    let (gx, gy) = ((wx as int / 65536) as i32, (wy as int / 65536) as i32);
    let (fx, fy) = ((wx as int % 65536) as i32, (wy as int % 65536) as i32);
    if a.rain >= 2 && puddle_at(site, gx, gy, fx, fy) {
        Cel { glyph: catalog::ROAD_PUDDLE, color: shaded_colour(a, palette::H_YELLOW, 5, dist) }
    } else {
        let (g, hue, luma) = surface_of(site, gx, gy, fx, fy);
        let shaded = site.ground < line;
        let off = if light.shadows && shaded { SHADOW_STEP } else { light.lambert[4] };
        Cel { glyph: g, color: shaded_colour(a, hue, lit_of(luma, off), dist) }
    }
}

/// What the ground looks like at a world point `(wx, wy)`, `dist` away,
/// with `site_at` saying what each cell is and `shadow` where the shade
/// falls.  Everything is a function of position: lane markings are the
/// fraction of the world coordinate, crossings the plan's, and puddles a
/// hash that only shows when it is raining.
pub fn ground(site_at: impl Fn(i32, i32) -> Site, shadow: &ShadowMap, atmos: &Atmos, light: &Light, wx: Fx, wy: Fx, dist: Fx) -> (c: Cel)
    requires
        forall|a: i32, b: i32| site_at.requires((a, b)),
        shadow.wf(),
    ensures
        exists|site: Site| #[trigger] site_at.ensures(((wx as int / 65536) as i32, (wy as int / 65536) as i32), site)
            && c == ground_of(site, shadow_line(*shadow, wx as int / 65536, wy as int / 65536), *atmos, *light, wx, wy, dist),
{
    let gx = fixed::floor(wx);
    let gy = fixed::floor(wy);
    let site = site_at(gx, gy);
    assert(site_at.ensures((gx, gy), site));
    let shaded = !shadow.lit(gx, gy, site.ground);
    let fx = fixed::frac(wx);
    let fy = fixed::frac(wy);
    let c = if atmos.wet() && puddle(&site, gx, gy, fx, fy) {
        Cel { glyph: catalog::ROAD_PUDDLE, color: atmos.shade(palette::H_YELLOW, 5, dist) }
    } else {
        let (glyph, hue, luma) = surface(&site, gx, gy, fx, fy);
        let l = lit(luma, light.on(crate::arch::ROOF, shaded));
        Cel { glyph, color: atmos.shade(hue, l, dist) }
    };
    assert(gx == (wx as int / 65536) as i32 && gy == (wy as int / 65536) as i32);
    assert(site_at.ensures(((wx as int / 65536) as i32, (wy as int / 65536) as i32), site));
    c
}

/// What the surface of a cell is at a point of it, before the light.
fn surface(site: &Site, gx: i32, gy: i32, fx: Fx, fy: Fx) -> (r: (GlyphId, u8, u8))
    requires
        ground_fits(gx, gy, fx, fy),
    ensures
        r == surface_of(*site, gx, gy, fx, fy),
{
    match site.kind {
        Kind::Road => road(&site.col, &site.row, site.crossing, gx, gy, fx, fy),
        Kind::Sidewalk => pavement(site.kerbs, site.walls, gx, gy, fx, fy),
        Kind::Park => {
            let h = hash3(gx as u32, gy as u32, (fixed::floor(fx * 4) + fixed::floor(fy * 4)) as u32);
            if h & 7 == 0 {
                (catalog::FLORA_HEDGE, palette::H_GREEN, 4)
            } else {
                (catalog::FLORA_GRASS, palette::H_GREEN, 5)
            }
        },
        Kind::Plaza => (catalog::ROAD_PAVING, palette::H_WHITE, 4),
        Kind::Building => (catalog::G_SOLID, palette::H_BLACK, 0),
    }
}

/// Whether a point of a cell is under a puddle, when the ground is wet.
fn puddle(site: &Site, gx: i32, gy: i32, fx: Fx, fy: Fx) -> (r: bool)
    requires
        0 <= fx < ONE,
        0 <= fy < ONE,
    ensures
        r == puddle_at(*site, gx, gy, fx, fy),
{
    if site.kind == Kind::Park {
        return false;
    }
    let h = hash3(gx as u32, gy as u32, 0x5075_4444);
    let k = h & 3;
    proof {
        assert(h & 3 <= 3) by (bit_vector);
    }
    let size = fixed::ratio(2 + k as i32, 8);
    proof {
        let kk = 2 + k;
        assert(fixed::from_int_of(kk as int) == kk * 65536);
        assert(fixed::from_int_of(8) == 524288);
        assert(trunc_div(kk * 65536 * 65536, 524288) == kk * 8192) by (nonlinear_arith)
            requires 2 <= kk <= 5;
    }
    fixed::abs(fx - HALF) < size && fixed::abs(fy - HALF) < size && h & 12 == 0
}

/// What a surface loses when something upstream is between it and the
/// light: the same as a face turned fully away.
pub const SHADOW_STEP: i8 = -2;

/// The value of [`lit`].
pub open spec fn lit_of(base: u8, offset: i8) -> u8 {
    fixed::clamp_of(base + offset, 1, 7) as u8
}

/// Apply a diffuse offset to a surface's own brightness, clamped at one
/// rather than zero: a lit window is a light of its own.
pub fn lit(base: u8, offset: i8) -> (l: u8)
    ensures
        l == lit_of(base, offset),
        1 <= l <= 7,
{
    let v = base as i32 + offset as i32;
    (if v < 1 { 1 } else if v > 7 { 7 } else { v }) as u8
}

/// The lighting state for one frame: a diffuse offset per surface normal
/// (the four faces, then the roof), and whether anything casts a shadow.
#[derive(Clone, Copy)]
pub struct Light {
    pub lambert: [i8; 5],
    pub shadows: bool,
}

impl Light {
    /// The frame's lighting: the moon's Lambert terms, and shadows when
    /// there is a moon.
    pub fn of(atmos: &Atmos) -> (l: Light)
        ensures
            l.shadows == atmos.moon,
            forall|n: int| 0 <= n < 5 ==> #[trigger] l.lambert[n] == lambert_of(*atmos, n),
    {
        Light { lambert: atmos.lambert(), shadows: atmos.moon }
    }

    /// The luminance offset for a surface with a given normal, in shade or
    /// not.
    pub fn on(&self, normal: usize, shaded: bool) -> (v: i8)
        requires
            normal < 5,
        ensures
            v == if self.shadows && shaded { SHADOW_STEP } else { self.lambert[normal as int] },
    {
        if self.shadows && shaded {
            SHADOW_STEP
        } else {
            self.lambert[normal]
        }
    }
}

/// The value of [`column_bearing`]: the yaw turned by `camx * fov`
/// radians, at 10430 angle units to the radian.
pub open spec fn column_bearing_of(yaw: Ang, camx: Fx, fov: Fx) -> Ang {
    let off = ((fx_mul(camx, fov) as int * 10430) / 65536) as i32;
    ((yaw as int + off as int) % 65536) as Ang
}

/// The compass bearing of one column's ray: a small-angle approximation
/// of `yaw + atan(camx * fov)`, used only to place stars.
pub fn column_bearing(yaw: Ang, camx: Fx, fov: Fx) -> (a: Ang)
    ensures
        a == column_bearing_of(yaw, camx, fov),
{
    let t = fixed::mul(camx, fov);
    let p: i64 = t as i64 * 10430;
    proof {
        fixed::lemma_shr16_i64(p);
    }
    let off = (p >> 16u64) as i32;
    let r = yaw.wrapping_add(off as Ang);
    proof {
        crate::trig::lemma_turn(yaw, off);
    }
    r
}

/// A narrow street gets no lane dividers: on a road under three cells
/// wide, the only white dashes are within a kerb line's width of a kerb.
pub proof fn lemma_a_narrow_street_gets_no_lane_dividers(across: Fx, width: Fx, along: Fx)
    requires
        width < LANE_MIN_W,
        EDGE_W <= across <= width - EDGE_W,
    ensures
        !(lines_of(across, width, along) matches Some(m) && m.0 == catalog::ROAD_DASH),
{
}

/// The centre line is where the middle of the road is: a point is painted
/// yellow exactly when it is within the line's half-width of the crown.
pub proof fn lemma_the_centre_line_is_down_the_middle(across: Fx, width: Fx, along: Fx)
    ensures
        (lines_of(across, width, along) matches Some(m) && m.0 == catalog::ROAD_CENTRE)
            <==> near(across as int, trunc_div(width as int, 2), CENTRE_HALF as int),
{
}

/// A step across the grid for a ray running along it: never, in effect.
pub const HUGE: Fx = 0x1000_0000;

/// Whether a city reading always answers, and answers the same for the
/// same cell.  The renderer reads the city as a map, not as a service.
pub open spec fn reads<R, F: Fn(i32, i32) -> R>(f: F) -> bool {
    &&& forall|i: i32, j: i32| f.requires((i, j))
    &&& forall|i: i32, j: i32, r1: R, r2: R|
        #![trigger f.ensures((i, j), r1), f.ensures((i, j), r2)]
        f.ensures((i, j), r1) && f.ensures((i, j), r2) ==> r1 == r2
}

/// What a city reading answers for a cell.
pub open spec fn read<R, F: Fn(i32, i32) -> R>(f: F, i: i32, j: i32) -> R {
    choose|r: R| f.ensures((i, j), r)
}

/// A reading that answers the same every time answers what [`read`] says.
pub proof fn lemma_read<R, F: Fn(i32, i32) -> R>(f: F, i: i32, j: i32, r: R)
    requires
        reads(f),
        f.ensures((i, j), r),
    ensures
        read(f, i, j) == r,
{
}

/// Everything one column's cast is made with, besides the city: the
/// camera, the sky (which also lights the city), which column, the ray's
/// direction, where the horizon is, the projection scale and the draw
/// distance.
#[derive(Clone, Copy)]
pub struct Cast {
    pub cam: Camera,
    pub atmos: Atmos,
    pub x: i32,
    pub rdx: Fx,
    pub rdy: Fx,
    pub horizon: i32,
    pub proj: Fx,
    pub far: Fx,
}

/// Where a column's walk through the grid has got to: the cell it is in,
/// how far along the ray the next crossing of each grid axis is, the row
/// above which nothing has been drawn yet, the cells stepped through and
/// the nearest wall met (`FX_MAX` for none yet).
#[derive(Clone, Copy)]
pub struct Walk {
    pub map_x: i32,
    pub map_y: i32,
    pub side_x: Fx,
    pub side_y: Fx,
    pub ceiling: i32,
    pub steps: u32,
    pub nearest: Fx,
}

/// How far along the ray one grid step along an axis is, for the ray's
/// component `r` along that axis, held at [`HUGE`].
pub open spec fn delta_of(r: Fx) -> Fx {
    if r == 0 {
        HUGE
    } else {
        let d = vstd::math::abs(fx_div(ONE, r) as int);
        if d < HUGE { d as i32 } else { HUGE }
    }
}

/// Which way the walk steps along an axis.
pub open spec fn step_dir(r: Fx) -> i32 {
    if r < 0 { -1i32 } else { 1i32 }
}

/// How far along the ray the first crossing of an axis is, from a
/// position `p` in cell `m`.
pub open spec fn first_side(p: Fx, m: int, r: Fx) -> Fx {
    if r < 0 {
        fx_mul((p - m * 65536) as i32, delta_of(r))
    } else {
        fx_mul(((m + 1) * 65536 - p) as i32, delta_of(r))
    }
}

/// Where a column's walk starts: in the camera's cell, with nothing drawn.
pub open spec fn walk_start(c: Cast, h: usize) -> Walk {
    let mx = fx_floor(c.cam.x);
    let my = fx_floor(c.cam.y);
    Walk {
        map_x: mx as i32,
        map_y: my as i32,
        side_x: first_side(c.cam.x, mx, c.rdx),
        side_y: first_side(c.cam.y, my, c.rdy),
        ceiling: h as i32,
        steps: 0,
        nearest: fixed::FX_MAX,
    }
}

/// A sum of two numbers of the range, held at its top.
pub open spec fn sat_add(a: int, b: int) -> i32 {
    if a + b > i32::MAX { i32::MAX } else { (a + b) as i32 }
}

/// One step of the walk: across whichever grid line is nearer, and how far
/// along the ray that line was, and whether it was a line of constant x.
pub open spec fn advance_walk(c: Cast, s: Walk) -> (Walk, Fx, bool) {
    if s.side_x < s.side_y {
        (Walk {
            side_x: sat_add(s.side_x as int, delta_of(c.rdx) as int),
            map_x: (s.map_x + step_dir(c.rdx)) as i32,
            steps: (s.steps + 1) as u32,
            ..s
        }, s.side_x, true)
    } else {
        (Walk {
            side_y: sat_add(s.side_y as int, delta_of(c.rdy) as int),
            map_y: (s.map_y + step_dir(c.rdy)) as i32,
            steps: (s.steps + 1) as u32,
            ..s
        }, s.side_y, false)
    }
}

/// Screen rows per world unit at a distance.
pub open spec fn per_of(c: Cast, dist: Fx) -> Fx {
    fx_div(c.proj, dist)
}

/// The screen row of the top of a cell `bh` high standing on ground `g`.
pub open spec fn top_of(c: Cast, g: Fx, bh: u8, dist: Fx) -> int {
    c.horizon - fx_floor(fx_mul((g + bh * 65536 - c.cam.z) as i32, per_of(c, dist)))
}

/// The screen row of the footing of a cell standing on ground `g`.
pub open spec fn bot_of(c: Cast, g: Fx, dist: Fx) -> int {
    c.horizon + fx_floor(fx_mul((c.cam.z - g) as i32, per_of(c, dist)))
}

/// Where along a wall the ray landed, in world units.
pub open spec fn along_of(c: Cast, vertical: bool, dist: Fx) -> int {
    if vertical { c.cam.y + fx_mul(c.rdy, dist) } else { c.cam.x + fx_mul(c.rdx, dist) }
}

/// The highest a facade is ever asked about: above every roofline, where
/// a facade is all cornice.
pub const FACADE_CAP: Fx = 0x0100_0000;

/// The height above its footing a facade is asked about, for a point of
/// wall at height `z` on ground `g`: never below the footing, never above
/// [`FACADE_CAP`].
pub open spec fn facade_z(z: int, g: Fx) -> Fx {
    let a = z - g;
    (if a <= 0 { 0 } else if a >= FACADE_CAP { FACADE_CAP as int } else { a }) as i32
}

/// One row of wall, at height `z`, `dist` away: the facade's surface there,
/// lit by the face's own light or put in the shade of whatever stands
/// upstream below `line`.
pub open spec fn wall_cel(c: Cast, lot: Lot, face: Face, along: Fx, g: Fx, bh: u8, dist: Fx, line: int, z: int) -> Cel {
    let s = facade_of(lot, face, along, facade_z(z, g), (bh * 65536) as i32, lod_of(dist));
    let shaded = line > 0 && z < line;
    let off = if c.atmos.moon && shaded { SHADOW_STEP } else { lambert_of(c.atmos, face_index(face) as int) };
    Cel { glyph: s.glyph, color: shaded_colour(c.atmos, s.hue, lit_of(s.luma, off), dist) }
}

/// The roof of a cell, seen from above its roofline.
pub open spec fn roof_cel(c: Cast, lot: Lot, mx: i32, my: i32, ch: int, dist: Fx, line: int) -> Cel {
    let s = roof_of(lot, mx, my);
    let off = if c.atmos.moon && ch < line { SHADOW_STEP } else { lambert_of(c.atmos, ROOF as int) };
    Cel { glyph: s.glyph, color: shaded_colour(c.atmos, s.hue, lit_of(s.luma, off), dist) }
}

/// A frame's cells with one more written, if it is on screen.
pub open spec fn put_of(cells: Seq<Cel>, w: usize, h: usize, x: int, y: int, c: Cel) -> Seq<Cel> {
    if on_screen(w as int, h as int, x, y) { cells.update(y * w + x, c) } else { cells }
}

/// The rows `y..=y1` of a wall, drawn down from height `z` a step `dz` a
/// row.
pub open spec fn wall_rows(
    c: Cast,
    w: usize,
    h: usize,
    lot: Lot,
    face: Face,
    along: Fx,
    g: Fx,
    bh: u8,
    dist: Fx,
    line: int,
    dz: Fx,
    z: int,
    y: int,
    y1: int,
    cells: Seq<Cel>,
) -> Seq<Cel>
    decreases y1 + 1 - y,
{
    if y > y1 {
        cells
    } else {
        wall_rows(c, w, h, lot, face, along, g, bh, dist, line, dz, z - dz, y + 1, y1,
            put_of(cells, w, h, c.x as int, y, wall_cel(c, lot, face, along, g, bh, dist, line, z)))
    }
}

/// The cells of a hit on a lot's cell, rows `y0..=y1`: the roof on the top
/// row when the camera looks down on it, the wall below.
pub open spec fn hit_cells(
    c: Cast,
    w: usize,
    h: usize,
    lot: Lot,
    mx: i32,
    my: i32,
    vertical: bool,
    g: Fx,
    bh: u8,
    dist: Fx,
    line: int,
    y0: int,
    y1: int,
    cells: Seq<Cel>,
) -> Seq<Cel> {
    let ch = g + bh * 65536;
    let looking_down = c.cam.z > ch;
    let roofed = if looking_down {
        put_of(cells, w, h, c.x as int, y0, roof_cel(c, lot, mx, my, ch, dist, line))
    } else {
        cells
    };
    let first = if looking_down { y0 + 1 } else { y0 };
    let dz = fx_div(dist, c.proj);
    let z0 = c.cam.z + fx_mul(from_int_of(c.horizon - y0), dz);
    let z1 = z0 - fx_mul(from_int_of(first - y0), dz);
    let face = face_of(vertical, step_dir(c.rdx), step_dir(c.rdy));
    wall_rows(c, w, h, lot, face, along_of(c, vertical, dist) as i32, g, bh, dist, line, dz, z1, first, y1, roofed)
}

/// The walk of one column, front to back, from state `s` over cells
/// `cells`: the cells it leaves, the steps it took, whether it closed (1)
/// or ran out of draw distance or steps (0), and the nearest wall it met.
pub open spec fn walk_of<H: Fn(i32, i32) -> u8, G: Fn(i32, i32) -> Fx, L: Fn(i32, i32) -> Option<Lot>>(
    height: H,
    ground: G,
    lot_at: L,
    shadow: ShadowMap,
    c: Cast,
    w: usize,
    h: usize,
    s: Walk,
    cells: Seq<Cel>,
) -> (Seq<Cel>, u32, u32, Fx)
    decreases 513 - s.steps,
{
    if s.ceiling <= 0 {
        (cells, s.steps, 1, s.nearest)
    } else {
        let (s1, dist, vertical) = advance_walk(c, s);
        if dist >= c.far || s.steps >= 512 {
            (cells, s1.steps, 0, s.nearest)
        } else {
            let bh = read(height, s1.map_x, s1.map_y);
            if bh == 0 {
                walk_of(height, ground, lot_at, shadow, c, w, h, s1, cells)
            } else {
                let nearest = if s.nearest == fixed::FX_MAX { dist } else { s.nearest };
                let g = read(ground, s1.map_x, s1.map_y);
                let top = top_of(c, g, bh, dist);
                let bot = bot_of(c, g, dist);
                let y0 = if top > 0 { top } else { 0 };
                let y1a = if bot < s.ceiling - 1 { bot } else { s.ceiling - 1 };
                let y1 = if y1a < h - 1 { y1a } else { h - 1 };
                let ceiling = if top < s.ceiling { y0 } else { s.ceiling as int };
                let line = shadow_line(shadow, s1.map_x as int, s1.map_y as int);
                let drawn = if y1 < y0 {
                    cells
                } else {
                    match read(lot_at, s1.map_x, s1.map_y) {
                        Some(lot) => hit_cells(c, w, h, lot, s1.map_x, s1.map_y, vertical, g, bh, dist, line, y0, y1, cells),
                        None => cells,
                    }
                };
                walk_of(height, ground, lot_at, shadow, c, w, h, Walk { ceiling: ceiling as i32, nearest, ..s1 }, drawn)
            }
        }
    }
}

/// What a column's cast needs to stay in 32 bits: a camera within 512
/// cells of the origin, a ray of no more than about four cells a unit, a
/// reciprocal the absolute value of which exists, a horizon and a frame
/// height within 16384 rows, a positive scale and a draw distance of at
/// most 256 cells.
pub open spec fn cast_fits(c: Cast, h: usize) -> bool {
    &&& -0x0200_0000 <= c.cam.x <= 0x0200_0000
    &&& -0x0200_0000 <= c.cam.y <= 0x0200_0000
    &&& -0x0200_0000 <= c.cam.z <= 0x0200_0000
    &&& -0x0004_1000 <= c.rdx <= 0x0004_1000
    &&& -0x0004_1000 <= c.rdy <= 0x0004_1000
    &&& fx_div(ONE, c.rdx) != i32::MIN
    &&& fx_div(ONE, c.rdy) != i32::MIN
    &&& -0x4000 <= c.horizon <= 0x4000
    &&& h <= 0x4000
    &&& 0 < c.far <= 0x0100_0000
}

/// Whether ground heights are within 256 cells of sea level.
pub open spec fn ground_bounded<G: Fn(i32, i32) -> Fx>(ground: G) -> bool {
    forall|i: i32, j: i32, g: Fx| #[trigger] ground.ensures((i, j), g) ==> -0x0100_0000 <= g <= 0x0100_0000
}

/// The cast a column is made with, from its parts.
pub open spec fn cast_of(cam: Camera, atmos: Atmos, x: i32, rdx: Fx, rdy: Fx, horizon: i32, proj: Fx, far: Fx) -> Cast {
    Cast { cam, atmos, x, rdx, rdy, horizon, proj, far }
}

/// Whether a frame's light is the one its sky throws: the moon's Lambert
/// terms, and shadows when the moon is up.
pub open spec fn light_is(light: Light, a: Atmos) -> bool {
    &&& light.shadows == a.moon
    &&& forall|n: int| 0 <= n < 5 ==> #[trigger] light.lambert[n] == lambert_of(a, n)
}

/// How far along a ray one grid step along an axis is.
fn delta(r: Fx) -> (d: Fx)
    requires
        fx_div(ONE, r) != i32::MIN,
    ensures
        d == delta_of(r),
        0 <= d <= HUGE,
{
    if r == 0 {
        HUGE
    } else {
        let a = fixed::abs(fixed::div(ONE, r));
        if a < HUGE { a } else { HUGE }
    }
}

/// A sum of two non-negative numbers, held at the top of the range.
fn saturating(a: Fx, b: Fx) -> (r: Fx)
    requires
        0 <= a,
        0 <= b,
    ensures
        r == sat_add(a as int, b as int),
        0 <= r,
{
    match a.checked_add(b) {
        Some(v) => v,
        None => i32::MAX,
    }
}

/// Whether the wall of a cell no higher than 255 cells can be asked about
/// at any height up to [`FACADE_CAP`]: its window keys fit.
proof fn lemma_facade_fits(lot: Lot, face: Face, along: Fx, z: Fx, bh: u8, lod: crate::arch::Lod)
    requires
        0 <= z <= FACADE_CAP,
    ensures
        crate::arch::facade_fits(lot, face, along, z, (bh * 65536) as i32, lod),
{
    let floor = crate::arch::index_at(z, crate::arch::FLOORS_PER_UNIT);
    assert(fixed::mul_wide(z as int, 131072int) == z * 2) by (nonlinear_arith)
        requires
            0 <= z <= 0x0100_0000,
    ;
    assert(0 <= floor <= 512);
    assert(face_index(face) <= 3);
    assert(fixed::trunc_div(floor, crate::arch::lod_quant(lod) as int) <= 512);
    assert(fixed::trunc_div(floor, crate::arch::lod_quant(lod) as int) >= 0);
}

/// The height above its footing a facade is asked about.
fn facade_height(z: i64, g: Fx) -> (r: Fx)
    requires
        -0x4000_0000_0000_0000 <= z <= 0x4000_0000_0000_0000,
    ensures
        r == facade_z(z as int, g),
        0 <= r <= FACADE_CAP,
{
    let a = z - g as i64;
    if a <= 0 {
        0
    } else if a >= FACADE_CAP as i64 {
        FACADE_CAP
    } else {
        a as i32
    }
}

/// Draw what a column's ray hit on a lot's cell, rows `y0..=y1`: the roof
/// when the camera looks down on it, then the wall, row by row down from
/// its top.
fn draw_hit(
    f: &mut Frame,
    lot: &Lot,
    c: Ghost<Cast>,
    cam: &Camera,
    atmos: &Atmos,
    light: &Light,
    x: i32,
    horizon: i32,
    proj: Fx,
    mx: i32,
    my: i32,
    vertical: bool,
    step_x: i32,
    step_y: i32,
    along: Fx,
    g: Fx,
    bh: u8,
    dist: Fx,
    line: Fx,
    y0: i32,
    y1: i32,
)
    requires
        old(f).wf(),
        c@.cam == *cam,
        c@.atmos == *atmos,
        light_is(*light, *atmos),
        c@.x == x,
        c@.horizon == horizon,
        c@.proj == proj,
        step_x == step_dir(c@.rdx),
        step_y == step_dir(c@.rdy),
        along == along_of(c@, vertical, dist),
        -0x0200_0000 <= cam.z <= 0x0200_0000,
        -0x0100_0000 <= g <= 0x0100_0000,
        -0x4000 <= horizon <= 0x4000,
        0 <= y0 <= y1 < 0x4000,
    ensures
        final(f).wf(),
        final(f).w == old(f).w,
        final(f).h == old(f).h,
        final(f).cels@ == hit_cells(c@, old(f).w, old(f).h, *lot, mx, my, vertical, g, bh, dist, line as int, y0 as int, y1 as int, old(f).cels@),
{
    let ch = g + fixed::from_int(bh as i32);
    let face = Face::of(vertical, step_x, step_y);
    let lod = crate::arch::Lod::at(dist);
    let dz = fixed::div(dist, proj);
    let z0: i64 = cam.z as i64 + fixed::mul(fixed::from_int(horizon - y0), dz) as i64;
    if cam.z > ch {
        let s = crate::arch::roof(lot, mx, my);
        let shaded = ch < line;
        let luma = lit(s.luma, light.on(ROOF, shaded));
        f.put(x, y0, Cel { glyph: s.glyph, color: atmos.shade(s.hue, luma, dist) });
    }
    let ghost roofed = f.cels@;
    let first = if cam.z > ch { y0 + 1 } else { y0 };
    let mut z: i64 = z0 - fixed::mul(fixed::from_int(first - y0), dz) as i64;
    let ghost z1 = z as int;
    let bhf = fixed::from_int(bh as i32);
    let normal = face.index() as usize;
    let mut y = first;
    while y <= y1
        invariant
            f.wf(),
            f.w == old(f).w,
            f.h == old(f).h,
            0 <= first <= y <= y1 + 1,
            y1 < 0x4000,
            -0x2_0000_0000 <= z1 <= 0x2_0000_0000,
            z as int == z1 - (y - first) * dz,
            face == face_of(vertical, step_dir(c@.rdx), step_dir(c@.rdy)),
            lod == crate::arch::lod_of(dist),
            bhf == bh * 65536,
            normal == face_index(face),
            c@.x == x,
            light_is(*light, *atmos),
            c@.atmos == *atmos,
            wall_rows(c@, old(f).w, old(f).h, *lot, face, along, g, bh, dist, line as int, dz, z as int, y as int, y1 as int, f.cels@)
                == wall_rows(c@, old(f).w, old(f).h, *lot, face, along, g, bh, dist, line as int, dz, z1, first as int, y1 as int, roofed),
        decreases y1 + 1 - y,
    {
        proof {
            assert(-0x4001 * 0x8000_0000 <= (y - first) * dz <= 0x4001 * 0x8000_0000) by (nonlinear_arith)
                requires
                    0 <= y - first <= 0x4001,
                    -0x8000_0000 <= dz <= 0x8000_0000,
            ;
        }
        let zc = facade_height(z, g);
        proof {
            lemma_facade_fits(*lot, face, along, zc, bh, lod);
        }
        let s = crate::arch::facade(lot, face, along, zc, bhf, lod);
        let shaded = line > 0 && z < line as i64;
        let luma = lit(s.luma, light.on(normal, shaded));
        f.put(x, y, Cel { glyph: s.glyph, color: atmos.shade(s.hue, luma, dist) });
        proof {
            assert(-0x4001 * 0x8000_0000 <= (y + 1 - first) * dz <= 0x4001 * 0x8000_0000) by (nonlinear_arith)
                requires
                    0 <= y + 1 - first <= 0x4001,
                    -0x8000_0000 <= dz <= 0x8000_0000,
            ;
            assert((y + 1 - first) * dz == (y - first) * dz + dz) by (nonlinear_arith);
        }
        z = z - dz as i64;
        y = y + 1;
    }
}

/// Walk one column of the frame front to back through the city, drawing
/// every wall it meets below the line above which nothing has been drawn,
/// until that line reaches the top, the ray runs out of draw distance or
/// it has stepped through 512 cells.  `height`, `ground` and `lot_at` read
/// the city: each cell's building height in whole cells, its ground level
/// and its lot.  Returns the cells stepped through, whether the column
/// closed (1) or not (0), and the distance to the nearest wall met
/// (`FX_MAX` for none).
pub fn column<H: Fn(i32, i32) -> u8, G: Fn(i32, i32) -> Fx, L: Fn(i32, i32) -> Option<Lot>>(
    height: &H,
    ground: &G,
    lot_at: &L,
    shadow: &ShadowMap,
    cam: &Camera,
    atmos: &Atmos,
    f: &mut Frame,
    x: i32,
    rdx: Fx,
    rdy: Fx,
    horizon: i32,
    proj: Fx,
    far: Fx,
    light: &Light,
) -> (r: (u32, u32, Fx))
    requires
        old(f).wf(),
        shadow.wf(),
        reads(*height),
        reads(*ground),
        reads(*lot_at),
        ground_bounded(*ground),
        light_is(*light, *atmos),
        cast_fits(cast_of(*cam, *atmos, x, rdx, rdy, horizon, proj, far), old(f).h),
    ensures
        final(f).wf(),
        final(f).w == old(f).w,
        final(f).h == old(f).h,
        final(f).cels@ == walk_of(*height, *ground, *lot_at, *shadow, cast_of(*cam, *atmos, x, rdx, rdy, horizon, proj, far),
            old(f).w, old(f).h, walk_start(cast_of(*cam, *atmos, x, rdx, rdy, horizon, proj, far), old(f).h), old(f).cels@).0,
        forall|j: int| 0 <= j < old(f).cels@.len() && j % (old(f).w as int) != x ==> #[trigger] final(f).cels@[j] == old(f).cels@[j],
        r == ({
            let out = walk_of(*height, *ground, *lot_at, *shadow, cast_of(*cam, *atmos, x, rdx, rdy, horizon, proj, far),
                old(f).w, old(f).h, walk_start(cast_of(*cam, *atmos, x, rdx, rdy, horizon, proj, far), old(f).h), old(f).cels@);
            (out.1, out.2, out.3)
        }),
{
    let ghost c = cast_of(*cam, *atmos, x, rdx, rdy, horizon, proj, far);
    let ghost (w0, h0, cells0) = (f.w, f.h, f.cels@);

    let h = f.h as i32;
    let mut map_x = fixed::floor(cam.x);
    let mut map_y = fixed::floor(cam.y);
    let ghost (mx0, my0) = (map_x as int, map_y as int);
    let delta_x = delta(rdx);
    let delta_y = delta(rdy);
    let ox = if rdx < 0 { cam.x - fixed::from_int(map_x) } else { fixed::from_int(map_x + 1) - cam.x };
    let oy = if rdy < 0 { cam.y - fixed::from_int(map_y) } else { fixed::from_int(map_y + 1) - cam.y };
    proof {
        fixed::lemma_mul_bound(ox, delta_x, 65536, HUGE as int);
        fixed::lemma_mul_bound(oy, delta_y, 65536, HUGE as int);
        assert(0 <= ox * delta_x) by (nonlinear_arith)
            requires
                0 <= ox,
                0 <= delta_x,
        ;
        assert(0 <= oy * delta_y) by (nonlinear_arith)
            requires
                0 <= oy,
                0 <= delta_y,
        ;
    }
    let step_x: i32 = if rdx < 0 { -1 } else { 1 };
    let step_y: i32 = if rdy < 0 { -1 } else { 1 };
    let mut side_x = fixed::mul(ox, delta_x);
    let mut side_y = fixed::mul(oy, delta_y);
    let mut ceiling = h;
    let mut steps: u32 = 0;
    let mut nearest = fixed::FX_MAX;
    assert(walk_start(c, h0) == (Walk { map_x, map_y, side_x, side_y, ceiling, steps, nearest }));
    while ceiling > 0
        invariant
            f.wf(),
            f.w == w0,
            f.h == h0,
            w0 == old(f).w,
            h0 == old(f).h,
            cells0 == old(f).cels@,
            cells0.len() == w0 * h0,
            h == h0,
            h0 <= 0x4000,
            shadow.wf(),
            reads(*height),
            reads(*ground),
            reads(*lot_at),
            ground_bounded(*ground),
            light_is(*light, *atmos),
            cast_fits(c, h0),
            c == cast_of(*cam, *atmos, x, rdx, rdy, horizon, proj, far),
            delta_x == delta_of(rdx),
            delta_y == delta_of(rdy),
            step_x == step_dir(rdx),
            step_y == step_dir(rdy),
            0 <= side_x,
            0 <= side_y,
            steps <= 512,
            -512 <= mx0 <= 512,
            -512 <= my0 <= 512,
            mx0 - steps <= map_x <= mx0 + steps,
            my0 - steps <= map_y <= my0 + steps,
            ceiling <= h,
            walk_of(*height, *ground, *lot_at, *shadow, c, w0, h0, Walk { map_x, map_y, side_x, side_y, ceiling, steps, nearest }, f.cels@)
                == walk_of(*height, *ground, *lot_at, *shadow, c, w0, h0, walk_start(c, h0), cells0),
        decreases 513 - steps,
    {
        let ghost before = Walk { map_x, map_y, side_x, side_y, ceiling, steps, nearest };
        let vertical = side_x < side_y;
        let dist = if vertical {
            let d = side_x;
            side_x = saturating(side_x, delta_x);
            map_x = map_x + step_x;
            d
        } else {
            let d = side_y;
            side_y = saturating(side_y, delta_y);
            map_y = map_y + step_y;
            d
        };
        if dist >= far || steps >= 512 {
            proof {
                if w0 > 0 {
                    lemma_a_column_draws_only_its_own_column(*height, *ground, *lot_at, *shadow, c, w0, h0, walk_start(c, h0), cells0);
                }
            }
            return (steps + 1, 0, nearest);
        }
        steps = steps + 1;
        let ghost s1 = Walk { map_x, map_y, side_x, side_y, ceiling, steps, nearest };
        assert(advance_walk(c, before) == (s1, dist, vertical));
        let bh = height(map_x, map_y);
        proof {
            lemma_read(*height, map_x, map_y, bh);
        }
        if bh == 0 {
            continue;
        }
        if nearest == fixed::FX_MAX {
            nearest = dist;
        }
        let g = ground(map_x, map_y);
        proof {
            lemma_read(*ground, map_x, map_y, g);
        }
        let ch = g + fixed::from_int(bh as i32);
        let per = fixed::div(proj, dist);
        let top = horizon - fixed::floor(fixed::mul(ch - cam.z, per));
        let bot = horizon + fixed::floor(fixed::mul(cam.z - g, per));
        let y0 = if top > 0 { top } else { 0 };
        let y1a = if bot < ceiling - 1 { bot } else { ceiling - 1 };
        let y1 = if y1a < h - 1 { y1a } else { h - 1 };
        let line = shadow.line_at(map_x, map_y);
        if y1 >= y0 {
            let lot_here = lot_at(map_x, map_y);
            proof {
                lemma_read(*lot_at, map_x, map_y, lot_here);
                fixed::lemma_mul_bound(rdy, dist, 0x0004_1000, 0x0100_0000);
                fixed::lemma_mul_bound(rdx, dist, 0x0004_1000, 0x0100_0000);
            }
            if let Some(lot) = lot_here {
                let along = if vertical { cam.y + fixed::mul(rdy, dist) } else { cam.x + fixed::mul(rdx, dist) };
                draw_hit(f, &lot, Ghost(c), cam, atmos, light, x, horizon, proj, map_x, map_y, vertical, step_x, step_y,
                    along, g, bh, dist, line, y0, y1);
            }
        }
        if top < ceiling {
            ceiling = y0;
        }
    }
    proof {
        if w0 > 0 {
            lemma_a_column_draws_only_its_own_column(*height, *ground, *lot_at, *shadow, c, w0, h0, walk_start(c, h0), cells0);
        }
    }
    (steps, 1, nearest)
}

/// The light a sky throws, as a value.
pub open spec fn sky_light(a: Atmos) -> Light {
    choose|l: Light| light_is(l, a)
}

/// Where column `x` of a `w`-column frame sits on the camera plane, from
/// `-ONE` at the left edge, and the direction of its ray.
pub open spec fn ray_of(cam: Camera, x: int, w: int) -> (Fx, Fx, Fx) {
    let camx = (fx_div(from_int_of(2 * x), from_int_of(w)) - ONE) as i32;
    let px = fixed::mul_wide(-sin_of(cam.yaw), cam.fov as int) as i32;
    let py = fixed::mul_wide(cos_of(cam.yaw) as int, cam.fov as int) as i32;
    (camx, (cos_of(cam.yaw) + fx_mul(px, camx)) as i32, (sin_of(cam.yaw) + fx_mul(py, camx)) as i32)
}

/// The draw distance, in world units.
pub open spec fn far_of(a: Atmos) -> Fx {
    (draw_distance_of(a.haze) * 65536) as i32
}

/// How far away the ground drawn on row `y` below the horizon is.
pub open spec fn row_dist_of(p: Proj, y: int) -> Fx {
    fx_div(fx_mul(p.eye, p.proj), from_int_of(y - p.horizon))
}

/// The ground seen on row `y` of column `x`: nothing past the draw
/// distance, the ground at the point the row's ray lands on within it.
pub open spec fn ground_cel<S: Fn(i32, i32) -> Site>(site_at: S, shadow: ShadowMap, a: Atmos, cam: Camera, p: Proj, x: int, y: int) -> Cel {
    let (camx, rdx, rdy) = ray_of(cam, x, p.w as int);
    let d = row_dist_of(p, y);
    if d >= far_of(a) {
        crate::frame::empty_cel()
    } else {
        let wx = (cam.x + fx_mul(rdx, d)) as i32;
        let wy = (cam.y + fx_mul(rdy, d)) as i32;
        ground_of(read(site_at, (wx as int / 65536) as i32, (wy as int / 65536) as i32),
            shadow_line(shadow, wx as int / 65536, wy as int / 65536), a, sky_light(a), wx, wy, d)
    }
}

/// What the first pass leaves at `(x, y)`, which held `was`: the sky above
/// the horizon, the ground below it, and the horizon row as it was.
pub open spec fn backdrop_cel<S: Fn(i32, i32) -> Site>(site_at: S, shadow: ShadowMap, a: Atmos, cam: Camera, p: Proj, x: int, y: int, was: Cel) -> Cel {
    if y < p.horizon {
        let camx = ray_of(cam, x, p.w as int).0;
        sky_of(a, crate::raycast::column_bearing_of(cam.yaw, camx, cam.fov), (p.horizon - y) as i32, p.horizon)
    } else if y > p.horizon && y > 0 {
        ground_cel(site_at, shadow, a, cam, p, x, y)
    } else {
        was
    }
}

/// The frame after the first pass and the moon, from its cells `cells`.
pub open spec fn backdrop<S: Fn(i32, i32) -> Site>(site_at: S, shadow: ShadowMap, a: Atmos, cam: Camera, p: Proj, w: usize, h: usize, cells: Seq<Cel>) -> Seq<Cel> {
    Seq::new(cells.len(), |i: int| with_moon(a, moon_at_of(a, cam, w, h, p.horizon), w as int, h as int, i % (w as int), i / (w as int),
        backdrop_cel(site_at, shadow, a, cam, p, i % (w as int), i / (w as int), cells[i])))
}

/// The cast of column `x` of a frame.
pub open spec fn column_cast(a: Atmos, cam: Camera, p: Proj, x: int) -> Cast {
    let (camx, rdx, rdy) = ray_of(cam, x, p.w as int);
    cast_of(cam, a, x as i32, rdx, rdy, p.horizon, p.proj, far_of(a))
}

/// The first `n` columns cast over `cells`, in order: the cells they
/// leave, and their steps and closed columns added up.
pub open spec fn columns_of<H: Fn(i32, i32) -> u8, G: Fn(i32, i32) -> Fx, L: Fn(i32, i32) -> Option<Lot>>(
    height: H,
    ground: G,
    lot_at: L,
    shadow: ShadowMap,
    a: Atmos,
    cam: Camera,
    p: Proj,
    w: usize,
    h: usize,
    n: int,
    cells: Seq<Cel>,
) -> (Seq<Cel>, int, int)
    decreases n,
{
    if n <= 0 {
        (cells, 0, 0)
    } else {
        let prev = columns_of(height, ground, lot_at, shadow, a, cam, p, w, h, n - 1, cells);
        let c = column_cast(a, cam, p, n - 1);
        let out = walk_of(height, ground, lot_at, shadow, c, w, h, walk_start(c, h), prev.0);
        (out.0, prev.1 + out.1, prev.2 + out.2)
    }
}

/// The nearest wall column `x` met, cast after the columns left of it.
pub open spec fn column_nearest<H: Fn(i32, i32) -> u8, G: Fn(i32, i32) -> Fx, L: Fn(i32, i32) -> Option<Lot>>(
    height: H,
    ground: G,
    lot_at: L,
    shadow: ShadowMap,
    a: Atmos,
    cam: Camera,
    p: Proj,
    w: usize,
    h: usize,
    x: int,
    cells: Seq<Cel>,
) -> Fx {
    let c = column_cast(a, cam, p, x);
    walk_of(height, ground, lot_at, shadow, c, w, h, walk_start(c, h),
        columns_of(height, ground, lot_at, shadow, a, cam, p, w, h, x, cells).0).3
}

/// A walk takes at most 513 steps and closes at most once.
proof fn lemma_walk_bounds<H: Fn(i32, i32) -> u8, G: Fn(i32, i32) -> Fx, L: Fn(i32, i32) -> Option<Lot>>(
    height: H,
    ground: G,
    lot_at: L,
    shadow: ShadowMap,
    c: Cast,
    w: usize,
    h: usize,
    s: Walk,
    cells: Seq<Cel>,
)
    requires
        s.steps <= 512,
    ensures
        walk_of(height, ground, lot_at, shadow, c, w, h, s, cells).1 <= 513,
        walk_of(height, ground, lot_at, shadow, c, w, h, s, cells).2 <= 1,
    decreases 513 - s.steps,
{
    if s.ceiling > 0 {
        let (s1, dist, vertical) = advance_walk(c, s);
        if !(dist >= c.far || s.steps >= 512) {
            let bh = read(height, s1.map_x, s1.map_y);
            if bh == 0 {
                lemma_walk_bounds(height, ground, lot_at, shadow, c, w, h, s1, cells);
            } else {
                let nearest = if s.nearest == fixed::FX_MAX { dist } else { s.nearest };
                let g = read(ground, s1.map_x, s1.map_y);
                let top = top_of(c, g, bh, dist);
                let bot = bot_of(c, g, dist);
                let y0 = if top > 0 { top } else { 0 };
                let y1a = if bot < s.ceiling - 1 { bot } else { s.ceiling - 1 };
                let y1 = if y1a < h - 1 { y1a } else { h - 1 };
                let ceiling = if top < s.ceiling { y0 } else { s.ceiling as int };
                let line = shadow_line(shadow, s1.map_x as int, s1.map_y as int);
                let drawn = if y1 < y0 {
                    cells
                } else {
                    match read(lot_at, s1.map_x, s1.map_y) {
                        Some(lot) => hit_cells(c, w, h, lot, s1.map_x, s1.map_y, vertical, g, bh, dist, line, y0, y1, cells),
                        None => cells,
                    }
                };
                lemma_walk_bounds(height, ground, lot_at, shadow, c, w, h, Walk { ceiling: ceiling as i32, nearest, ..s1 }, drawn);
            }
        }
    }
}

/// The first `n` columns take at most 513 steps each and close at most
/// once each.
proof fn lemma_columns_bounds<H: Fn(i32, i32) -> u8, G: Fn(i32, i32) -> Fx, L: Fn(i32, i32) -> Option<Lot>>(
    height: H,
    ground: G,
    lot_at: L,
    shadow: ShadowMap,
    a: Atmos,
    cam: Camera,
    p: Proj,
    w: usize,
    h: usize,
    n: int,
    cells: Seq<Cel>,
)
    requires
        0 <= n,
    ensures
        0 <= columns_of(height, ground, lot_at, shadow, a, cam, p, w, h, n, cells).1 <= 513 * n,
        0 <= columns_of(height, ground, lot_at, shadow, a, cam, p, w, h, n, cells).2 <= n,
    decreases n,
{
    if n > 0 {
        lemma_columns_bounds(height, ground, lot_at, shadow, a, cam, p, w, h, n - 1, cells);
        let prev = columns_of(height, ground, lot_at, shadow, a, cam, p, w, h, n - 1, cells);
        let c = column_cast(a, cam, p, n - 1);
        lemma_walk_bounds(height, ground, lot_at, shadow, c, w, h, walk_start(c, h), prev.0);
    }
}

/// Column `x`'s place on the camera plane and its ray.
fn ray(cam: &Camera, x: i32, w: i32) -> (r: (Fx, Fx, Fx))
    requires
        0 <= x < w <= 512,
        0 <= cam.fov <= 0x30000,
    ensures
        r == ray_of(*cam, x as int, w as int),
        -ONE <= r.0 <= ONE,
        -0x0004_1000 <= r.1 <= 0x0004_1000,
        -0x0004_1000 <= r.2 <= 0x0004_1000,
{
    let q = fixed::div(fixed::from_int(2 * x), fixed::from_int(w));
    proof {
        assert(fixed::trunc_div(2 * x * 65536 * 65536, w * 65536) == 2 * x * 65536 * 65536 / (w * 65536));
        assert(0 <= 2 * x * 65536 * 65536 / (w * 65536) <= 131072) by (nonlinear_arith)
            requires
                0 <= x < w,
        ;
    }
    let camx = q - ONE;
    let (dx, dy) = cam.dir();
    let (px, py) = cam.plane();
    proof {
        trig::lemma_table_bounds(cam.yaw);
        fixed::lemma_mul_bound((-sin_of(cam.yaw)) as i32, cam.fov, 65536, 0x30000);
        fixed::lemma_mul_bound(cos_of(cam.yaw), cam.fov, 65536, 0x30000);
        fixed::lemma_mul_bound(px, camx, 0x30001, 65536);
        fixed::lemma_mul_bound(py, camx, 0x30001, 65536);
    }
    let rdx = dx + fixed::mul(px, camx);
    let rdy = dy + fixed::mul(py, camx);
    (camx, rdx, rdy)
}

/// The ground a frame's light throws on a point is the ground its sky's
/// light throws there, read off the site the city answers for its cell.
proof fn lemma_ground_as_read<S: Fn(i32, i32) -> Site>(site_at: S, site: Site, line: int, a: Atmos, light: Light, wx: Fx, wy: Fx, d: Fx)
    requires
        reads(site_at),
        site_at.ensures(((wx as int / 65536) as i32, (wy as int / 65536) as i32), site),
        light_is(light, a),
    ensures
        ground_of(site, line, a, light, wx, wy, d)
            == ground_of(read(site_at, (wx as int / 65536) as i32, (wy as int / 65536) as i32), line, a, sky_light(a), wx, wy, d),
{
    lemma_read(site_at, (wx as int / 65536) as i32, (wy as int / 65536) as i32, site);
    assert(light_is(sky_light(a), a));
    assert(light.lambert[4] == lambert_of(a, 4));
    assert(sky_light(a).lambert[4] == lambert_of(a, 4));
}

/// The first pass over a frame: the sky above the horizon, and the ground
/// below it out to the draw distance, column by column.
fn backdrop_pass<S: Fn(i32, i32) -> Site + Copy>(
    site_at: S,
    shadow: &ShadowMap,
    atmos: &Atmos,
    cam: &Camera,
    f: &mut Frame,
    p: Proj,
    light: &Light,
    far: Fx,
)
    requires
        old(f).wf(),
        shadow.wf(),
        reads(site_at),
        light_is(*light, *atmos),
        p.w == old(f).w,
        p.h == old(f).h,
        1 <= p.w <= 512,
        p.h <= 512,
        -0x2000 <= p.horizon <= 0x2000,
        0 <= fixed::mul_wide(p.eye as int, p.proj as int) <= i32::MAX,
        far == far_of(*atmos),
        0 < far <= 0x0100_0000,
        -0x0200_0000 <= cam.x <= 0x0200_0000,
        -0x0200_0000 <= cam.y <= 0x0200_0000,
        0 <= cam.fov <= 0x30000,
        day_fits(atmos.day),
    ensures
        final(f).wf(),
        final(f).w == old(f).w,
        final(f).h == old(f).h,
        forall|x: int, y: int| on_screen(old(f).w as int, old(f).h as int, x, y) ==> #[trigger] final(f).cell(x, y)
            == backdrop_cel(site_at, *shadow, *atmos, *cam, p, x, y, old(f).cell(x, y)),
{
    let ghost f0 = *f;
    let w = f.w as i32;
    let h = f.h as i32;
    let horizon = p.horizon;
    let mut row_dist: Vec<Fx> = Vec::new();
    let mut y: i32 = 0;
    while y < h
        invariant
            0 <= y <= h,
            h <= 512,
            -0x2000 <= horizon <= 0x2000,
            horizon == p.horizon,
            row_dist@.len() == y,
            forall|k: int| 0 <= k < y && k > horizon && k >= 1 ==> #[trigger] row_dist@[k] == row_dist_of(p, k),
        decreases h - y,
    {
        let d = if y > horizon && y >= 1 {
            fixed::div(fixed::mul(p.eye, p.proj), fixed::from_int(y - horizon))
        } else {
            HUGE
        };
        row_dist.push(d);
        y = y + 1;
    }
    let lo = if horizon > 0 { horizon } else { 0 };
    let sky_top = if horizon < h { horizon } else { h };
    let mut x: i32 = 0;
    while x < w
        invariant
            f.wf(),
            f.w == f0.w,
            f.h == f0.h,
            w == f0.w,
            h == f0.h,
            1 <= w <= 512,
            h <= 512,
            p.w == w,
            p.h == h,
            horizon == p.horizon,
            -0x2000 <= horizon <= 0x2000,
            lo == (if horizon > 0 { horizon } else { 0 }),
            sky_top == (if horizon < h { horizon } else { h }),
            0 <= x <= w,
            row_dist@.len() == h,
            forall|k: int| 0 <= k < h && k > horizon && k >= 1 ==> #[trigger] row_dist@[k] == row_dist_of(p, k),
            shadow.wf(),
            reads(site_at),
            light_is(*light, *atmos),
            0 <= fixed::mul_wide(p.eye as int, p.proj as int) <= i32::MAX,
            far == far_of(*atmos),
            0 < far <= 0x0100_0000,
            -0x0200_0000 <= cam.x <= 0x0200_0000,
            -0x0200_0000 <= cam.y <= 0x0200_0000,
            0 <= cam.fov <= 0x30000,
            day_fits(atmos.day),
            forall|i: int, j: int| on_screen(w as int, h as int, i, j) ==> #[trigger] f.cell(i, j)
                == if i < x { backdrop_cel(site_at, *shadow, *atmos, *cam, p, i, j, f0.cell(i, j)) } else { f0.cell(i, j) },
        decreases w - x,
    {
        let (camx, rdx, rdy) = ray(cam, x, w);
        let bearing = column_bearing(cam.yaw, camx, cam.fov);
        let mut y: i32 = 0;
        while y < sky_top
            invariant
                f.wf(),
                f.w == f0.w,
                f.h == f0.h,
                w == f0.w,
                h == f0.h,
                p.w == w,
                p.h == h,
                horizon == p.horizon,
                -0x2000 <= horizon <= 0x2000,
                h <= 512,
                sky_top == (if horizon < h { horizon } else { h }),
                0 <= x < w,
                0 <= y,
                y <= sky_top || y == 0,
                (camx, rdx, rdy) == ray_of(*cam, x as int, w as int),
                bearing == column_bearing_of(cam.yaw, camx, cam.fov),
                day_fits(atmos.day),
                forall|i: int, j: int| on_screen(w as int, h as int, i, j) ==> #[trigger] f.cell(i, j)
                    == if i < x || (i == x && j < y) { backdrop_cel(site_at, *shadow, *atmos, *cam, p, i, j, f0.cell(i, j)) } else { f0.cell(i, j) },
            decreases sky_top - y,
        {
            let c = atmos.sky(bearing, horizon - y, horizon);
            f.put(x, y, c);
            y = y + 1;
        }
        let mut y: i32 = lo + 1;
        while y < h
            invariant
                f.wf(),
                f.w == f0.w,
                f.h == f0.h,
                w == f0.w,
                h == f0.h,
                p.w == w,
                p.h == h,
                horizon == p.horizon,
                -0x2000 <= horizon <= 0x2000,
                h <= 512,
                lo == (if horizon > 0 { horizon } else { 0 }),
                lo + 1 <= y,
                y <= h || y == lo + 1,
                0 <= x < w,
                (camx, rdx, rdy) == ray_of(*cam, x as int, w as int),
                -0x0004_1000 <= rdx <= 0x0004_1000,
                -0x0004_1000 <= rdy <= 0x0004_1000,
                row_dist@.len() == h,
                forall|k: int| 0 <= k < h && k > horizon && k >= 1 ==> #[trigger] row_dist@[k] == row_dist_of(p, k),
                shadow.wf(),
                reads(site_at),
                light_is(*light, *atmos),
                0 <= fixed::mul_wide(p.eye as int, p.proj as int) <= i32::MAX,
                far == far_of(*atmos),
                0 < far <= 0x0100_0000,
                -0x0200_0000 <= cam.x <= 0x0200_0000,
                -0x0200_0000 <= cam.y <= 0x0200_0000,
                forall|i: int, j: int| on_screen(w as int, h as int, i, j) ==> #[trigger] f.cell(i, j)
                    == if i < x || (i == x && j < y) { backdrop_cel(site_at, *shadow, *atmos, *cam, p, i, j, f0.cell(i, j)) } else { f0.cell(i, j) },
            decreases h - y,
        {
            let d = row_dist[y as usize];
            proof {
                let m = fixed::mul_wide(p.eye as int, p.proj as int);
                let k = y - horizon;
                assert(fx_mul(p.eye, p.proj) == m);
                assert(from_int_of(k) == k * 65536);
                assert(0 <= m * 65536 / (k * 65536) <= m) by (nonlinear_arith)
                    requires
                        0 <= m,
                        k >= 1,
                ;
                assert(fixed::trunc_div(m * 65536, k * 65536) == m * 65536 / (k * 65536));
                assert(0 <= d);
            }
            if d >= far {
                f.put(x, y, Cel::empty());
            } else {
                proof {
                    fixed::lemma_mul_bound(rdx, d, 0x0004_1000, 0x0100_0000);
                    fixed::lemma_mul_bound(rdy, d, 0x0004_1000, 0x0100_0000);
                }
                let wx = cam.x + fixed::mul(rdx, d);
                let wy = cam.y + fixed::mul(rdy, d);
                let c = ground(site_at, shadow, atmos, light, wx, wy, d);
                proof {
                    let site = choose|site: Site| #[trigger] site_at.ensures(((wx as int / 65536) as i32, (wy as int / 65536) as i32), site)
                        && c == ground_of(site, shadow_line(*shadow, wx as int / 65536, wy as int / 65536), *atmos, *light, wx, wy, d);
                    lemma_ground_as_read(site_at, site, shadow_line(*shadow, wx as int / 65536, wy as int / 65536), *atmos, *light, wx, wy, d);
                }
                f.put(x, y, c);
            }
            y = y + 1;
        }
        x = x + 1;
    }
}

/// Whether ground heights are within sixteen cells of sea level.
pub open spec fn ground_near<G: Fn(i32, i32) -> Fx>(ground: G) -> bool {
    forall|i: i32, j: i32, g: Fx| #[trigger] ground.ensures((i, j), g) ==> -0x0010_0000 <= g <= 0x0010_0000
}

/// The projection a frame is drawn with, for the ground the city answers
/// under the camera.
pub open spec fn frame_proj<G: Fn(i32, i32) -> Fx>(ground: G, cam: Camera, w: usize, h: usize) -> Proj {
    projection_of(cam, w as int, h as int, read(ground, (cam.x as int / 65536) as i32, (cam.y as int / 65536) as i32))
}

/// What a frame's cast needs to stay in 32 bits: at most 512 columns and
/// rows, a camera within 512 cells of the origin and sixteen of sea level,
/// a field of view from a quarter to three, a pitch within 4096 rows, a
/// reciprocal of every column's ray whose absolute value exists, a sky
/// whose day fits and a moon that can be placed.
pub open spec fn render_fits(cam: Camera, a: Atmos, w: usize, h: usize) -> bool {
    &&& w <= 512
    &&& h <= 512
    &&& -0x0200_0000 <= cam.x <= 0x0200_0000
    &&& -0x0200_0000 <= cam.y <= 0x0200_0000
    &&& -0x0010_0000 <= cam.z <= 0x0010_0000
    &&& 0x4000 <= cam.fov <= 0x30000
    &&& -0x1000 <= cam.pitch <= 0x1000
    &&& forall|x: int| 0 <= x < w ==> fx_div(ONE, #[trigger] ray_of(cam, x, w as int).1) != i32::MIN
        && fx_div(ONE, ray_of(cam, x, w as int).2) != i32::MIN
    &&& day_fits(a.day)
    &&& moon_fits(a, cam, ((h as int) / 2 + cam.pitch) as i32)
}

/// A frame's projection scale lies between one and `w` rows a unit.
proof fn lemma_scale_bounds(w: i32, fov: Fx)
    requires
        1 <= w <= 512,
        0x4000 <= fov <= 0x30000,
    ensures
        1 <= scale_of(w, fov) <= w * 65536,
{
    assert(from_int_of(2 * CELL_ASPECT as int) == 262144);
    assert(fixed::mul_wide(fov as int, 262144) == fov * 4) by (nonlinear_arith);
    assert(from_int_of(w as int) == w * 65536);
    let d = fov * 4;
    assert(1 <= (w * 65536 * 65536) / d <= w * 65536) by (nonlinear_arith)
        requires
            1 <= w <= 512,
            0x10000 <= d <= 0xC0000,
    ;
    assert(fixed::trunc_div(w * 65536 * 65536, d) == (w * 65536 * 65536) / d);
}

/// Render the city into a frame, and record how far away the nearest
/// wall was in each column so that what is drawn over it can be clipped
/// against it.  The sky and the ground go down first, then the moon, then
/// the buildings, column by column.  Does not draw rain.  `height`,
/// `ground`, `lot_at` and `site_at` read the city.  Returns the cells
/// stepped through over all columns, the columns that closed, and the
/// nearest wall in the middle column (`FX_MAX` for none).
pub fn render_to<
    H: Fn(i32, i32) -> u8 + Copy,
    G: Fn(i32, i32) -> Fx + Copy,
    L: Fn(i32, i32) -> Option<Lot> + Copy,
    S: Fn(i32, i32) -> Site + Copy,
>(
    height: H,
    ground: G,
    lot_at: L,
    site_at: S,
    shadow: &ShadowMap,
    cam: &Camera,
    atmos: &Atmos,
    f: &mut Frame,
    depth: &mut Vec<Fx>,
) -> (r: (u32, u32, Fx))
    requires
        old(f).wf(),
        shadow.wf(),
        reads(height),
        reads(ground),
        reads(lot_at),
        reads(site_at),
        ground_near(ground),
        render_fits(*cam, *atmos, old(f).w, old(f).h),
    ensures
        final(f).wf(),
        final(f).w == old(f).w,
        final(f).h == old(f).h,
        final(depth)@.len() == old(f).w,
        old(f).w == 0 || old(f).h == 0 ==> final(f).cels@ == old(f).cels@ && r == (0u32, 0u32, fixed::FX_MAX)
            && forall|k: int| 0 <= k < old(f).w ==> final(depth)@[k] == fixed::FX_MAX,
        old(f).w > 0 && old(f).h > 0 ==> ({
            let p = frame_proj(ground, *cam, old(f).w, old(f).h);
            let base = backdrop(site_at, *shadow, *atmos, *cam, p, old(f).w, old(f).h, old(f).cels@);
            let out = columns_of(height, ground, lot_at, *shadow, *atmos, *cam, p, old(f).w, old(f).h, old(f).w as int, base);
            &&& final(f).cels@ == out.0
            &&& r.0 == out.1
            &&& r.1 == out.2
            &&& r.2 == column_nearest(height, ground, lot_at, *shadow, *atmos, *cam, p, old(f).w, old(f).h, old(f).w as int / 2, base)
            &&& forall|k: int| 0 <= k < old(f).w ==> final(depth)@[k]
                == column_nearest(height, ground, lot_at, *shadow, *atmos, *cam, p, old(f).w, old(f).h, k, base)
        }),
{
    let ghost f0 = *f;
    depth.clear();
    let mut i: usize = 0;
    while i < f.w
        invariant
            *f == f0,
            i <= f.w,
            depth@.len() == i,
            forall|k: int| 0 <= k < i ==> depth@[k] == fixed::FX_MAX,
        decreases f.w - i,
    {
        depth.push(fixed::FX_MAX);
        i = i + 1;
    }
    if f.w == 0 || f.h == 0 {
        return (0, 0, fixed::FX_MAX);
    }
    let w = f.w as i32;
    let h = f.h as i32;
    let p = projection(ground, cam, f);
    proof {
        let g0 = choose|g: Fx| #[trigger] ground.ensures(((cam.x as int / 65536) as i32, (cam.y as int / 65536) as i32), g)
            && p == projection_of(*cam, f.w as int, f.h as int, g);
        lemma_read(ground, (cam.x as int / 65536) as i32, (cam.y as int / 65536) as i32, g0);
        lemma_scale_bounds(w, cam.fov);
        assert(1 <= p.eye <= 0x0020_0000);
        assert(0 <= p.eye * p.proj <= 0x0020_0000 * (512 * 65536)) by (nonlinear_arith)
            requires
                1 <= p.eye <= 0x0020_0000,
                1 <= p.proj <= 512 * 65536,
        ;
    }
    let horizon = p.horizon;
    let proj = p.proj;
    let far = fixed::from_int(crate::atmos::draw_distance(atmos.haze));
    let light = Light::of(atmos);
    backdrop_pass(site_at, shadow, atmos, cam, f, p, &light, far);
    let ghost f1 = *f;
    atmos.draw_moon(f, cam, horizon);
    let ghost base = backdrop(site_at, *shadow, *atmos, *cam, p, f0.w, f0.h, f0.cels@);
    proof {
        assert forall|k: int| 0 <= k < f.cels@.len() implies f.cels@[k] == base[k] by {
            let wi = f0.w as int;
            assert(0 <= k % wi < wi && 0 <= k / wi && k == (k / wi) * wi + k % wi) by (nonlinear_arith)
                requires
                    0 <= k,
                    wi > 0,
            ;
            assert(k / wi < f0.h as int) by (nonlinear_arith)
                requires
                    0 <= k < wi * (f0.h as int),
                    k == (k / wi) * wi + k % wi,
                    0 <= k % wi < wi,
                    wi > 0,
            ;
            assert(f.cell(k % wi, k / wi) == f.cels@[k]);
            assert(f0.cell(k % wi, k / wi) == f0.cels@[k]);
            assert(f1.cell(k % wi, k / wi) == backdrop_cel(site_at, *shadow, *atmos, *cam, p, k % wi, k / wi, f0.cell(k % wi, k / wi)));
        }
        assert(f.cels@ =~= base);
    }
    let mut steps: u32 = 0;
    let mut closed: u32 = 0;
    let mut nearest = fixed::FX_MAX;
    let mut x: i32 = 0;
    while x < w
        invariant
            f.wf(),
            f.w == f0.w,
            f.h == f0.h,
            w == f0.w,
            h == f0.h,
            1 <= w <= 512,
            1 <= h <= 512,
            0 <= x <= w,
            p == frame_proj(ground, *cam, f0.w, f0.h),
            horizon == p.horizon,
            proj == p.proj,
            -0x2000 <= horizon <= 0x2000,
            far == far_of(*atmos),
            0 < far <= 0x0100_0000,
            shadow.wf(),
            reads(height),
            reads(ground),
            reads(lot_at),
            ground_near(ground),
            light_is(light, *atmos),
            render_fits(*cam, *atmos, f0.w, f0.h),
            depth@.len() == w,
            base == backdrop(site_at, *shadow, *atmos, *cam, p, f0.w, f0.h, f0.cels@),
            f.cels@ == columns_of(height, ground, lot_at, *shadow, *atmos, *cam, p, f0.w, f0.h, x as int, base).0,
            steps == columns_of(height, ground, lot_at, *shadow, *atmos, *cam, p, f0.w, f0.h, x as int, base).1,
            closed == columns_of(height, ground, lot_at, *shadow, *atmos, *cam, p, f0.w, f0.h, x as int, base).2,
            forall|k: int| 0 <= k < x ==> depth@[k] == column_nearest(height, ground, lot_at, *shadow, *atmos, *cam, p, f0.w, f0.h, k, base),
            nearest == if x > w / 2 {
                column_nearest(height, ground, lot_at, *shadow, *atmos, *cam, p, f0.w, f0.h, w / 2, base)
            } else {
                fixed::FX_MAX
            },
        decreases w - x,
    {
        let (_camx, rdx, rdy) = ray(cam, x, w);
        proof {
            lemma_columns_bounds(height, ground, lot_at, *shadow, *atmos, *cam, p, f0.w, f0.h, x as int, base);
            let c = column_cast(*atmos, *cam, p, x as int);
            lemma_walk_bounds(height, ground, lot_at, *shadow, c, f0.w, f0.h, walk_start(c, f0.h),
                columns_of(height, ground, lot_at, *shadow, *atmos, *cam, p, f0.w, f0.h, x as int, base).0);
            assert(fx_div(ONE, ray_of(*cam, x as int, w as int).1) != i32::MIN);
        }
        let s = column(&height, &ground, &lot_at, shadow, cam, atmos, f, x, rdx, rdy, horizon, proj, far, &light);
        steps = steps + s.0;
        closed = closed + s.1;
        depth.set(x as usize, s.2);
        if x == w / 2 {
            nearest = s.2;
        }
        x = x + 1;
    }
    (steps, closed, nearest)
}

/// What [`render_to`] leaves in a `w` by `h` frame that held `cells`,
/// and its cells stepped through, columns closed and nearest wall in the
/// middle column.
pub open spec fn rendered<
    H: Fn(i32, i32) -> u8,
    G: Fn(i32, i32) -> Fx,
    L: Fn(i32, i32) -> Option<Lot>,
    S: Fn(i32, i32) -> Site,
>(
    height: H,
    ground: G,
    lot_at: L,
    site_at: S,
    shadow: ShadowMap,
    cam: Camera,
    a: Atmos,
    w: usize,
    h: usize,
    cells: Seq<Cel>,
) -> (Seq<Cel>, int, int, Fx) {
    if w == 0 || h == 0 {
        (cells, 0, 0, fixed::FX_MAX)
    } else {
        let p = frame_proj(ground, cam, w, h);
        let base = backdrop(site_at, shadow, a, cam, p, w, h, cells);
        let out = columns_of(height, ground, lot_at, shadow, a, cam, p, w, h, w as int, base);
        (out.0, out.1, out.2, column_nearest(height, ground, lot_at, shadow, a, cam, p, w, h, w as int / 2, base))
    }
}

/// Render a frame, then rain on it: [`render_to`] for callers with
/// nothing to draw between the city and the weather.
pub fn render<
    H: Fn(i32, i32) -> u8 + Copy,
    G: Fn(i32, i32) -> Fx + Copy,
    L: Fn(i32, i32) -> Option<Lot> + Copy,
    S: Fn(i32, i32) -> Site + Copy,
>(
    height: H,
    ground: G,
    lot_at: L,
    site_at: S,
    shadow: &ShadowMap,
    cam: &Camera,
    atmos: &Atmos,
    f: &mut Frame,
) -> (r: (u32, u32, Fx))
    requires
        old(f).wf(),
        shadow.wf(),
        reads(height),
        reads(ground),
        reads(lot_at),
        reads(site_at),
        ground_near(ground),
        render_fits(*cam, *atmos, old(f).w, old(f).h),
        atmos.rain != 0 ==> i32::MIN <= (atmos.tick as i32) * 3 <= i32::MAX,
    ensures
        final(f).wf(),
        final(f).w == old(f).w,
        final(f).h == old(f).h,
        ({
            let out = rendered(height, ground, lot_at, site_at, *shadow, *cam, *atmos, old(f).w, old(f).h, old(f).cels@);
            &&& r == (out.1 as u32, out.2 as u32, out.3)
            &&& forall|x: int, y: int| on_screen(old(f).w as int, old(f).h as int, x, y) ==> #[trigger] final(f).cell(x, y)
                == crate::atmos::with_rain(*atmos, x, y, out.0[y * old(f).w + x])
        }),
{
    let mut depth: Vec<Fx> = Vec::new();
    let st = render_to(height, ground, lot_at, site_at, shadow, cam, atmos, f, &mut depth);
    let ghost f1 = *f;
    atmos.rain_over(f, cam);
    proof {
        assert forall|x: int, y: int| on_screen(f1.w as int, f1.h as int, x, y) implies #[trigger] f1.cell(x, y) == f1.cels@[y * f1.w + x] by {
        }
    }
    st
}

/// Writing a cell of column `x` leaves every other column as it was.
proof fn lemma_put_stays_in_its_column(cells: Seq<Cel>, w: usize, h: usize, x: int, y: int, c: Cel)
    requires
        w > 0,
        cells.len() == w * h,
    ensures
        put_of(cells, w, h, x, y, c).len() == cells.len(),
        forall|j: int| 0 <= j < cells.len() && j % (w as int) != x ==> #[trigger] put_of(cells, w, h, x, y, c)[j] == cells[j],
{
    if on_screen(w as int, h as int, x, y) {
        let wi = w as int;
        assert((y * wi + x) % wi == x) by (nonlinear_arith)
            requires
                0 <= x < wi,
                0 <= y,
        ;
        assert(y * wi + x < wi * (h as int)) by (nonlinear_arith)
            requires
                0 <= x < wi,
                0 <= y < h,
        ;
    }
}

/// Drawing rows of a wall in column `x` leaves every other column as it
/// was.
proof fn lemma_rows_stay_in_their_column(
    c: Cast,
    w: usize,
    h: usize,
    lot: Lot,
    face: Face,
    along: Fx,
    g: Fx,
    bh: u8,
    dist: Fx,
    line: int,
    dz: Fx,
    z: int,
    y: int,
    y1: int,
    cells: Seq<Cel>,
)
    requires
        w > 0,
        cells.len() == w * h,
    ensures
        wall_rows(c, w, h, lot, face, along, g, bh, dist, line, dz, z, y, y1, cells).len() == cells.len(),
        forall|j: int| 0 <= j < cells.len() && j % (w as int) != c.x ==>
            #[trigger] wall_rows(c, w, h, lot, face, along, g, bh, dist, line, dz, z, y, y1, cells)[j] == cells[j],
    decreases y1 + 1 - y,
{
    if y <= y1 {
        let next = put_of(cells, w, h, c.x as int, y, wall_cel(c, lot, face, along, g, bh, dist, line, z));
        lemma_put_stays_in_its_column(cells, w, h, c.x as int, y, wall_cel(c, lot, face, along, g, bh, dist, line, z));
        lemma_rows_stay_in_their_column(c, w, h, lot, face, along, g, bh, dist, line, dz, z - dz, y + 1, y1, next);
    }
}

/// A column's walk draws in its own column and nowhere else: every cell of
/// every other column is left as it was.
pub proof fn lemma_a_column_draws_only_its_own_column<H: Fn(i32, i32) -> u8, G: Fn(i32, i32) -> Fx, L: Fn(i32, i32) -> Option<Lot>>(
    height: H,
    ground: G,
    lot_at: L,
    shadow: ShadowMap,
    c: Cast,
    w: usize,
    h: usize,
    s: Walk,
    cells: Seq<Cel>,
)
    requires
        w > 0,
        cells.len() == w * h,
    ensures
        walk_of(height, ground, lot_at, shadow, c, w, h, s, cells).0.len() == cells.len(),
        forall|j: int| 0 <= j < cells.len() && j % (w as int) != c.x ==>
            #[trigger] walk_of(height, ground, lot_at, shadow, c, w, h, s, cells).0[j] == cells[j],
    decreases 513 - s.steps,
{
    if s.ceiling > 0 {
        let (s1, dist, vertical) = advance_walk(c, s);
        if !(dist >= c.far || s.steps >= 512) {
            let bh = read(height, s1.map_x, s1.map_y);
            if bh == 0 {
                lemma_a_column_draws_only_its_own_column(height, ground, lot_at, shadow, c, w, h, s1, cells);
            } else {
                let nearest = if s.nearest == fixed::FX_MAX { dist } else { s.nearest };
                let g = read(ground, s1.map_x, s1.map_y);
                let top = top_of(c, g, bh, dist);
                let bot = bot_of(c, g, dist);
                let y0 = if top > 0 { top } else { 0 };
                let y1a = if bot < s.ceiling - 1 { bot } else { s.ceiling - 1 };
                let y1 = if y1a < h - 1 { y1a } else { h - 1 };
                let ceiling = if top < s.ceiling { y0 } else { s.ceiling as int };
                let line = shadow_line(shadow, s1.map_x as int, s1.map_y as int);
                let drawn = if y1 < y0 {
                    cells
                } else {
                    match read(lot_at, s1.map_x, s1.map_y) {
                        Some(lot) => hit_cells(c, w, h, lot, s1.map_x, s1.map_y, vertical, g, bh, dist, line, y0, y1, cells),
                        None => cells,
                    }
                };
                if y1 >= y0 {
                    if let Some(lot) = read(lot_at, s1.map_x, s1.map_y) {
                        let ch = g + bh * 65536;
                        let looking_down = c.cam.z > ch;
                        let roofed = if looking_down {
                            put_of(cells, w, h, c.x as int, y0, roof_cel(c, lot, s1.map_x, s1.map_y, ch, dist, line))
                        } else {
                            cells
                        };
                        lemma_put_stays_in_its_column(cells, w, h, c.x as int, y0, roof_cel(c, lot, s1.map_x, s1.map_y, ch, dist, line));
                        let first = if looking_down { y0 + 1 } else { y0 };
                        let dz = fx_div(dist, c.proj);
                        let z0 = c.cam.z + fx_mul(from_int_of(c.horizon - y0), dz);
                        let z1 = z0 - fx_mul(from_int_of(first - y0), dz);
                        let face = face_of(vertical, step_dir(c.rdx), step_dir(c.rdy));
                        lemma_rows_stay_in_their_column(c, w, h, lot, face, along_of(c, vertical, dist) as i32, g, bh, dist, line, dz, z1, first, y1, roofed);
                    }
                }
                lemma_a_column_draws_only_its_own_column(height, ground, lot_at, shadow, c, w, h, Walk { ceiling: ceiling as i32, nearest, ..s1 }, drawn);
            }
        }
    }
}

} // verus!
