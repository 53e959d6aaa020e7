//! Building architecture: what a wall looks like at a given point.
//!
//! When a ray lands on a facade this module is asked what is at that exact
//! spot, and it answers from the archetype, the floor, the bay and a hash -
//! never from stored geometry.  Windows repeat on a fixed floor and bay
//! pitch; brick walk-ups carry a fire escape on one face; the ground floor
//! is a lit shopfront; the top is a cornice.
use vstd::prelude::*;
use crate::catalog::{self, GlyphId, facade_tile_of, shade_of};
use crate::fixed::{self, Fx, mul_wide};
use crate::rng::{hash3, hash3_of};

verus! {

/// Floors per world unit of height.
pub const FLOORS_PER_UNIT: i32 = 2;

/// Window bays per world unit across a facade.
pub const BAYS_PER_UNIT: i32 = 3;

/// Height of the ground-floor shopfront, in world units: one half.
pub const GROUND: Fx = 32768;

/// How many surface normals a lot presents: four walls and a roof.
pub const NORMALS: usize = 5;

/// Index of the roof among the normals, after the four faces.
pub const ROOF: usize = 4;

/// The architectural archetype of a lot.
#[derive(Clone, Copy, Debug, PartialEq, Eq, Structural)]
pub enum Arch {
    /// A brick walk-up with a fire escape.
    Prewar,
    /// A low brick building, also with a fire escape.
    LowRise,
    /// An Art Deco tower, with piers every third bay and a crown.
    Deco,
    /// A slab, striped top to bottom by its piers.
    Slab,
    /// A tiered tower.
    Setback,
    /// A glass curtain wall.
    CurtainWall,
}

impl Arch {
    /// Whether this archetype carries a fire escape: the brick ones do.
    pub open spec fn fire_escape_spec(self) -> bool {
        self == Arch::Prewar || self == Arch::LowRise
    }

    /// Whether this archetype carries a fire escape: the brick ones do.
    pub fn has_fire_escape(self) -> (r: bool)
        ensures
            r == self.fire_escape_spec(),
    {
        match self {
            Arch::Prewar | Arch::LowRise => true,
            _ => false,
        }
    }
}

/// One lot of the city: its footprint, its building and how it is lit.
#[derive(Clone, Copy, Debug)]
pub struct Lot {
    /// First column of the footprint.
    pub x0: u16,
    /// First row of the footprint.
    pub y0: u16,
    /// Last column of the footprint, inclusive.
    pub x1: u16,
    /// Last row of the footprint, inclusive.
    pub y1: u16,
    /// Height in whole cells.
    pub height: u8,
    /// The archetype.
    pub arch: Arch,
    /// The hue its walls are drawn in.
    pub hue: u8,
    /// The base luminance of its walls, 0..=7.
    pub luma: u8,
    /// How much of it is lit at night, 0..=15.
    pub lit: u8,
    /// The hash seed that decides its windows.
    pub seed: u32,
}

impl Lot {
    /// Width of the footprint along x, in cells.
    pub open spec fn width(self) -> int {
        self.x1 - self.x0 + 1
    }

    /// Depth of the footprint along y, in cells.
    pub open spec fn depth(self) -> int {
        self.y1 - self.y0 + 1
    }

    /// Width of the footprint along x, in cells.
    pub fn w(&self) -> (r: i32)
        ensures
            r == self.width(),
    {
        self.x1 as i32 - self.x0 as i32 + 1
    }

    /// Depth of the footprint along y, in cells.
    pub fn d(&self) -> (r: i32)
        ensures
            r == self.depth(),
    {
        self.y1 as i32 - self.y0 as i32 + 1
    }
}

/// Which wall of a lot a ray hit.
#[derive(Clone, Copy, Debug, PartialEq, Eq, Structural)]
pub enum Face {
    /// Facing -y.
    North,
    /// Facing +x.
    East,
    /// Facing +y.
    South,
    /// Facing -x.
    West,
}

/// The index of a face: north, east, south, west as 0 to 3.
pub open spec fn face_index(f: Face) -> u32 {
    match f {
        Face::North => 0,
        Face::East => 1,
        Face::South => 2,
        Face::West => 3,
    }
}

/// The face a ray hits, from the grid plane it crossed and its direction.
pub open spec fn face_of(vertical: bool, step_x: i32, step_y: i32) -> Face {
    if vertical {
        if step_x > 0 { Face::West } else { Face::East }
    } else if step_y > 0 {
        Face::North
    } else {
        Face::South
    }
}

impl Face {
    /// Index 0..3, for hashing.
    pub fn index(self) -> (r: u32)
        ensures
            r == face_index(self),
    {
        match self {
            Face::North => 0,
            Face::East => 1,
            Face::South => 2,
            Face::West => 3,
        }
    }

    /// The face a ray hit, from which grid plane it crossed and which way
    /// it was going.
    pub fn of(vertical: bool, step_x: i32, step_y: i32) -> (f: Face)
        ensures
            f == face_of(vertical, step_x, step_y),
    {
        if vertical {
            if step_x > 0 {
                Face::West
            } else {
                Face::East
            }
        } else if step_y > 0 {
            Face::North
        } else {
            Face::South
        }
    }
}

/// How much of a facade one character cell has to hold.
#[derive(Clone, Copy, Debug, PartialEq, Eq, Structural)]
pub enum Lod {
    /// One cell is part of one window.
    Near,
    /// One cell is about one window.
    Mid,
    /// One cell is a few windows.
    Far,
    /// One cell is a whole patch of facade.
    Distant,
}

/// The level of detail for a perpendicular distance.
pub open spec fn lod_of(dist: Fx) -> Lod {
    let d = dist as int / 65536;
    if d < 3 {
        Lod::Near
    } else if d < 9 {
        Lod::Mid
    } else if d < 26 {
        Lod::Far
    } else {
        Lod::Distant
    }
}

/// The facade tile configuration a level of detail uses.
pub open spec fn lod_cfg(l: Lod) -> u8 {
    match l {
        Lod::Near => 0,
        Lod::Mid => 1,
        Lod::Far => 2,
        Lod::Distant => 3,
    }
}

/// How many floors and bays one screen cell covers at a level of detail.
pub open spec fn lod_quant(l: Lod) -> i32 {
    match l {
        Lod::Near => 1,
        Lod::Mid => 1,
        Lod::Far => 2,
        Lod::Distant => 4,
    }
}

impl Lod {
    /// Pick a level of detail from the perpendicular distance in world units.
    pub fn at(dist: Fx) -> (l: Lod)
        ensures
            l == lod_of(dist),
    {
        let d = fixed::floor(dist);
        if d < 3 {
            Lod::Near
        } else if d < 9 {
            Lod::Mid
        } else if d < 26 {
            Lod::Far
        } else {
            Lod::Distant
        }
    }

    /// Which facade tile configuration this level uses.
    pub fn cfg(self) -> (c: u8)
        ensures
            c == lod_cfg(self),
    {
        match self {
            Lod::Near => 0,
            Lod::Mid => 1,
            Lod::Far => 2,
            Lod::Distant => 3,
        }
    }

    /// How many floors and bays one screen cell covers, near enough.
    pub fn quant(self) -> (q: i32)
        ensures
            q == lod_quant(self),
    {
        match self {
            Lod::Near => 1,
            Lod::Mid => 1,
            Lod::Far => 2,
            Lod::Distant => 4,
        }
    }
}

/// What is at one point on a wall.
#[derive(Clone, Copy, Debug, PartialEq, Eq, Structural)]
pub struct Surface {
    /// Which catalogue shape to draw.
    pub glyph: GlyphId,
    /// Hue to draw it in.
    pub hue: u8,
    /// How bright before distance is applied, 0..=7.
    pub luma: u8,
}

/// Shopfront hues: warm.
pub open spec fn shop_hue_of(h: u32) -> u8 {
    let k = (h >> 5u32) & 3u32;
    if k == 0 {
        crate::palette::H_YELLOW
    } else if k == 1 {
        crate::palette::H_ORANGE
    } else if k == 2 {
        crate::palette::H_WHITE
    } else {
        crate::palette::H_YELLOW_GREEN
    }
}

/// Sign hues: saturated, because neon is.
pub open spec fn sign_hue_of(h: u32) -> u8 {
    let k = (h >> 11u32) & 3u32;
    if k == 0 {
        crate::palette::H_RED
    } else if k == 1 {
        crate::palette::H_PINK
    } else if k == 2 {
        crate::palette::H_CYAN
    } else {
        crate::palette::H_GREEN
    }
}

/// Shopfront hues: warm, because a lit shop at night is warm.
pub fn shop_hue(h: u32) -> (r: u8)
    ensures
        r == shop_hue_of(h),
{
    let warm: [u8; 4] = [
        crate::palette::H_YELLOW,
        crate::palette::H_ORANGE,
        crate::palette::H_WHITE,
        crate::palette::H_YELLOW_GREEN,
    ];
    let k = (h >> 5) & 3;
    assert(k < 4) by (bit_vector)
        requires
            k == (h >> 5u32) & 3u32,
    ;
    warm[k as usize]
}

/// Sign hues: saturated, because neon is.
pub fn sign_hue(h: u32) -> (r: u8)
    ensures
        r == sign_hue_of(h),
{
    let neon: [u8; 4] = [
        crate::palette::H_RED,
        crate::palette::H_PINK,
        crate::palette::H_CYAN,
        crate::palette::H_GREEN,
    ];
    let k = (h >> 11) & 3;
    assert(k < 4) by (bit_vector)
        requires
            k == (h >> 11u32) & 3u32,
    ;
    neon[k as usize]
}

/// Which of the four lit patterns this building is drawn in.
pub open spec fn house_style_of(lot: Lot) -> u8 {
    ((lot.seed >> 17u32) as u8) & 3u8
}

/// Which of the four lit patterns this *building* is drawn in.  Constant
/// for the life of the lot.
pub fn house_style(lot: &Lot) -> (r: u8)
    ensures
        r == house_style_of(*lot),
        r < 4,
{
    let seed = lot.seed;
    let r = (seed >> 17) as u8 & 3;
    assert(r < 4) by (bit_vector)
        requires
            r == ((seed >> 17u32) as u8) & 3u8,
    ;
    r
}

/// How many bays fit across the widest face of a lot.
pub open spec fn span_bays_of(lot: Lot) -> int {
    (if lot.width() >= lot.depth() { lot.width() } else { lot.depth() }) * BAYS_PER_UNIT
}

/// How many bays fit across the widest face of a lot.
pub fn span_bays(lot: &Lot) -> (r: i32)
    ensures
        r == span_bays_of(*lot),
{
    lot.w().max(lot.d()) * BAYS_PER_UNIT
}

/// `a` modulo a positive `m`, always in `0..m`.
fn rem_euclid(a: i32, m: i32) -> (r: i32)
    requires
        m > 0,
    ensures
        r == a as int % m as int,
{
    if a >= 0 {
        a % m
    } else {
        let b = -(a + 1);
        let r = b % m;
        proof {
            let q = b as int / m as int;
            assert(b == q * m + r) by (nonlinear_arith)
                requires
                    q == b as int / m as int,
                    r == b as int % m as int,
                    m > 0,
            ;
            assert(a == (-(q + 1)) * m + (m - 1 - r)) by (nonlinear_arith)
                requires
                    b == q * m + r,
                    b == -(a + 1),
            ;
            vstd::arithmetic::div_mod::lemma_mod_multiples_vanish(-(q + 1), (m - 1 - r) as int, m as int);
            vstd::arithmetic::div_mod::lemma_small_mod((m - 1 - r) as nat, m as nat);
        }
        m - 1 - r
    }
}

/// The whole-number part of `v` times `k`, for floor and bay indices.
pub open spec fn index_at(v: Fx, k: i32) -> int {
    (mul_wide(v as int, k as int * 65536) as i32) as int / 65536
}

/// Where the fire escape sits on a lot: its face and the first of its two
/// bays along that face.
pub open spec fn fire_pick(lot: Lot) -> u32 {
    hash3_of(lot.seed, 0xF14E_5C00u32, 0)
}

/// The value of [`fire_escape`].
pub open spec fn fire_escape_of(lot: Lot, face: Face, bay: int, floor: int, z: Fx, top: int) -> Option<Surface> {
    let pick = fire_pick(lot);
    let width = 2int;
    let span = span_bays_of(lot);
    let m = if span - width >= 1 { span - width } else { 1 };
    let start = ((pick >> 8u32) as int) % m;
    let local = bay % (if span >= 1 { span } else { 1 }) - start;
    let hue = crate::palette::H_WHITE;
    let sub = (mul_wide(z as int, 131072) as i32) as int % 65536;
    if face_index(face) != pick & 3 {
        None
    } else if !(0 <= local < width) {
        None
    } else if floor >= top - 1 {
        None
    } else if floor <= 1 {
        Some(Surface { glyph: catalog::FIRE_LADDER, hue, luma: 3 })
    } else if sub < 21845 {
        Some(Surface { glyph: if local == width - 1 { catalog::FIRE_RAIL } else { catalog::FIRE_LANDING }, hue, luma: 4 })
    } else if floor % 2 == 0 {
        Some(Surface { glyph: catalog::FIRE_ZIG_R, hue, luma: 3 })
    } else {
        Some(Surface { glyph: catalog::FIRE_ZIG_L, hue, luma: 3 })
    }
}

/// The ironwork, or `None` if this spot on the wall is not on it.
pub fn fire_escape(lot: &Lot, face: Face, bay: i32, floor: i32, z: Fx, top: i32) -> (r: Option<Surface>)
    requires
        i32::MIN < top,
    ensures
        r == fire_escape_of(*lot, face, bay as int, floor as int, z, top as int),
{
    let pick = hash3(lot.seed, 0xF14E_5C00, 0);
    if face.index() != pick & 3 {
        return None;
    }
    let width: i32 = 2;
    let span = span_bays(lot);
    proof {
        assert((pick >> 8u32) <= 0x00ff_ffff) by (bit_vector);
    }
    let start = (pick >> 8) as i32 % (span - width).max(1);
    let local = rem_euclid(bay, span.max(1)) - start;
    if !(0 <= local && local < width) {
        return None;
    }
    if floor >= top - 1 {
        return None;
    }
    let hue = crate::palette::H_WHITE;
    let sub = fixed::frac(fixed::mul(z, fixed::from_int(FLOORS_PER_UNIT)));
    let on_landing = sub < 21845;
    Some(if floor <= 1 {
        Surface { glyph: catalog::FIRE_LADDER, hue, luma: 3 }
    } else if on_landing {
        let g = if local == width - 1 { catalog::FIRE_RAIL } else { catalog::FIRE_LANDING };
        Surface { glyph: g, hue, luma: 4 }
    } else if floor % 2 == 0 {
        Surface { glyph: catalog::FIRE_ZIG_R, hue, luma: 3 }
    } else {
        Surface { glyph: catalog::FIRE_ZIG_L, hue, luma: 3 }
    })
}

/// What is on top of a building, seen from above its roofline.
pub open spec fn roof_of(lot: Lot, x: i32, y: i32) -> Surface {
    let h = hash3_of(lot.seed, x as u32, y as u32);
    let k = h & 7;
    let g = if k == 0 {
        (catalog::G_ROOF + 1) as u8
    } else if k == 1 {
        (catalog::G_ROOF + 2) as u8
    } else if k == 2 && lot.height > 24 {
        (catalog::G_ROOF + 3) as u8
    } else {
        catalog::G_ROOF
    };
    Surface { glyph: g, hue: lot.hue, luma: 3 }
}

/// What is on top of a building, seen from above its roofline.
pub fn roof(lot: &Lot, x: i32, y: i32) -> (s: Surface)
    ensures
        s == roof_of(*lot, x, y),
{
    let h = hash3(lot.seed, x as u32, y as u32);
    let k = h & 7;
    let g = if k == 0 {
        catalog::G_ROOF + 1
    } else if k == 1 {
        catalog::G_ROOF + 2
    } else if k == 2 && lot.height > 24 {
        catalog::G_ROOF + 3
    } else {
        catalog::G_ROOF
    };
    Surface { glyph: g, hue: lot.hue, luma: 3 }
}

/// The cornice glyph an archetype tops its walls with.
pub open spec fn cornice_of(a: Arch) -> GlyphId {
    match a {
        Arch::Prewar | Arch::LowRise => (catalog::G_CORNICE + 1) as u8,
        Arch::Deco => (catalog::G_CORNICE + 2) as u8,
        _ => (catalog::G_CORNICE + 3) as u8,
    }
}

/// How often a pier interrupts the bays: every second on a slab, every
/// third on a Deco tower, never otherwise.
pub open spec fn pier_pitch_of(a: Arch) -> int {
    match a {
        Arch::Slab => 2,
        Arch::Deco => 3,
        _ => 0,
    }
}

/// How much later than its own setting an archetype keeps its lights on.
pub open spec fn lit_bias_of(a: Arch) -> int {
    match a {
        Arch::CurtainWall => 1,
        Arch::Slab | Arch::Setback | Arch::Deco => 0,
        Arch::Prewar => -2,
        Arch::LowRise => -3,
    }
}

/// The luminance of a pier: a step darker than the wall, never black.
pub open spec fn pier_luma(luma: u8) -> u8 {
    let l = if luma >= 1 { (luma - 1) as u8 } else { 0u8 };
    if l >= 1 { l } else { 1 }
}

/// The value of [`facade`].
pub open spec fn facade_of(lot: Lot, face: Face, along: Fx, z: Fx, local_h: Fx, lod: Lod) -> Surface {
    let hue = lot.hue;
    let floor = index_at(z, FLOORS_PER_UNIT);
    let bay = index_at(along, BAYS_PER_UNIT);
    let f = face_index(face);
    let top_floor = index_at(local_h, FLOORS_PER_UNIT);
    if floor >= top_floor - 1 {
        Surface { glyph: cornice_of(lot.arch), hue, luma: lot.luma }
    } else if z < GROUND {
        shopfront_of(lot, f, bay, z, lod)
    } else {
        upper_of(lot, face, floor, bay, z, top_floor, lod)
    }
}

/// Above the shopfront and below the cornice: ironwork, piers, corners,
/// spandrels and windows, in that order of precedence.
pub open spec fn upper_of(lot: Lot, face: Face, floor: int, bay: int, z: Fx, top_floor: int, lod: Lod) -> Surface {
    let hue = lot.hue;
    let f = face_index(face);
    let pier = Surface { glyph: (catalog::G_MULLION + 2) as u8, hue, luma: pier_luma(lot.luma) };
    let face_bays = span_bays_of(lot);
    let local_bay = bay % (if face_bays >= 1 { face_bays } else { 1 });
    if lot.arch.fire_escape_spec() && fire_escape_of(lot, face, bay, floor, z, top_floor) is Some {
        fire_escape_of(lot, face, bay, floor, z, top_floor)->0
    } else if pier_pitch_of(lot.arch) != 0 && bay % pier_pitch_of(lot.arch) == 0 {
        pier
    } else if local_bay == 0 || local_bay == face_bays - 1 {
        pier
    } else if lot.arch == Arch::Prewar && floor >= 0 && floor % 4 == 3 {
        Surface { glyph: catalog::G_CORNICE, hue, luma: 3 }
    } else {
        window_of(lot, f, floor, bay, lod)
    }
}

/// Whether [`upper_of`] falls through to an ordinary window.
pub open spec fn reaches_window(lot: Lot, face: Face, floor: int, bay: int, z: Fx, top_floor: int) -> bool {
    let face_bays = span_bays_of(lot);
    let local_bay = bay % (if face_bays >= 1 { face_bays } else { 1 });
    &&& !(lot.arch.fire_escape_spec() && fire_escape_of(lot, face, bay, floor, z, top_floor) is Some)
    &&& !(pier_pitch_of(lot.arch) != 0 && bay % pier_pitch_of(lot.arch) == 0)
    &&& !(local_bay == 0 || local_bay == face_bays - 1)
    &&& !(lot.arch == Arch::Prewar && floor >= 0 && floor % 4 == 3)
}

/// Whether the window hash's floor key fits in 32 bits.
pub open spec fn window_key_fits(f: u32, floor: int, lod: Lod) -> bool {
    f * 8192 + (fixed::trunc_div(floor, lod_quant(lod) as int) as u32) <= u32::MAX
}

/// Whether [`facade`] can sample this point without its window key
/// overflowing: only a point some sixteen thousand cells up, on a window,
/// cannot.
pub open spec fn facade_fits(lot: Lot, face: Face, along: Fx, z: Fx, local_h: Fx, lod: Lod) -> bool {
    let floor = index_at(z, FLOORS_PER_UNIT);
    let bay = index_at(along, BAYS_PER_UNIT);
    let top_floor = index_at(local_h, FLOORS_PER_UNIT);
    (floor < top_floor - 1 && z >= GROUND && reaches_window(lot, face, floor, bay, z, top_floor))
        ==> window_key_fits(face_index(face), floor, lod)
}

/// A ground-floor shopfront: a neon sign one bay in eight, a dark sill at
/// the bottom, and lit glass above it.
pub open spec fn shopfront_of(lot: Lot, f: u32, bay: int, z: Fx, lod: Lod) -> Surface {
    let h = hash3_of(lot.seed, f, bay as u32);
    if h & 7 == 0 {
        Surface { glyph: catalog::ST_SIGN, hue: sign_hue_of(h), luma: 7 }
    } else if z < SHOP_SILL {
        Surface { glyph: catalog::G_CORNICE, hue: lot.hue, luma: 3 }
    } else {
        Surface { glyph: facade_tile_of(lod_cfg(lod), 0), hue: shop_hue_of(h), luma: 7 }
    }
}

/// An ordinary window: dark or lit by a hash taken at the resolution the
/// level of detail can resolve, drawn in the building's own tile.
pub open spec fn window_of(lot: Lot, f: u32, floor: int, bay: int, lod: Lod) -> Surface {
    let q = lod_quant(lod) as int;
    let qf = fixed::trunc_div(floor, q);
    let qb = fixed::trunc_div(bay, q);
    let h = hash3_of(lot.seed, (f * 8192 + (qf as u32)) as u32, qb as u32);
    let occupied = (h >> 3u32) & 15;
    let t = lot.lit + lit_bias_of(lot.arch);
    let threshold = if t < 1 { 1 } else if t > 15 { 15 } else { t };
    if occupied >= threshold {
        Surface { glyph: shade_of(1), hue: lot.hue, luma: if lot.luma / 3 >= 1 { lot.luma / 3 } else { 1 } }
    } else {
        let l = lot.luma + (h >> 20u32) % 2;
        Surface { glyph: facade_tile_of(lod_cfg(lod), house_style_of(lot)), hue: lot.hue, luma: if l <= 7 { l as u8 } else { 7 } }
    }
}

/// The top of the shopfront's dark sill: a quarter of [`GROUND`].
pub const SHOP_SILL: Fx = 8192;

/// Sample a facade.
///
/// `along` is the world coordinate running across the face and `z` is the
/// height above the pavement, both in cell units.  `local_h` is the height
/// of the *cell* that was hit rather than of the whole lot, so a setback
/// tier ends where that tier ends.
pub fn facade(lot: &Lot, face: Face, along: Fx, z: Fx, local_h: Fx, lod: Lod) -> (s: Surface)
    requires
        facade_fits(*lot, face, along, z, local_h, lod),
    ensures
        s == facade_of(*lot, face, along, z, local_h, lod),
{
    let hue = lot.hue;
    let floor = fixed::floor(fixed::mul(z, fixed::from_int(FLOORS_PER_UNIT)));
    let bay = fixed::floor(fixed::mul(along, fixed::from_int(BAYS_PER_UNIT)));
    let f = face.index();
    let top_floor = fixed::floor(fixed::mul(local_h, fixed::from_int(FLOORS_PER_UNIT)));
    proof {
        assert(-32768 <= floor <= 32767 && -32768 <= bay <= 32767 && -32768 <= top_floor <= 32767);
    }
    if floor >= top_floor - 1 {
        let g = match lot.arch {
            Arch::Prewar | Arch::LowRise => catalog::G_CORNICE + 1,
            Arch::Deco => catalog::G_CORNICE + 2,
            _ => catalog::G_CORNICE + 3,
        };
        return Surface { glyph: g, hue, luma: lot.luma };
    }
    if z < GROUND {
        return shopfront(lot, f, bay, z, lod);
    }
    upper(lot, face, floor, bay, z, top_floor, lod)
}

/// Above the shopfront and below the cornice.
#[verifier::rlimit(40)]
fn upper(lot: &Lot, face: Face, floor: i32, bay: i32, z: Fx, top_floor: i32, lod: Lod) -> (s: Surface)
    requires
        i32::MIN < top_floor,
        reaches_window(*lot, face, floor as int, bay as int, z, top_floor as int) ==> window_key_fits(face_index(face), floor as int, lod),
    ensures
        s == upper_of(*lot, face, floor as int, bay as int, z, top_floor as int, lod),
{
    let hue = lot.hue;
    let f = face.index();
    if lot.arch.has_fire_escape() {
        if let Some(s) = fire_escape(lot, face, bay, floor, z, top_floor) {
            return s;
        }
    }
    let pier_pitch: i32 = match lot.arch {
        Arch::Slab => 2,
        Arch::Deco => 3,
        _ => 0,
    };
    let pier_l = lot.luma.saturating_sub(1).max(1);
    if pier_pitch != 0 && rem_euclid(bay, pier_pitch) == 0 {
        return Surface { glyph: catalog::G_MULLION + 2, hue, luma: pier_l };
    }
    let face_bays = span_bays(lot);
    let local_bay = rem_euclid(bay, face_bays.max(1));
    if local_bay == 0 || local_bay == face_bays - 1 {
        return Surface { glyph: catalog::G_MULLION + 2, hue, luma: pier_l };
    }
    if lot.arch == Arch::Prewar && rem4(floor) == 3 {
        return Surface { glyph: catalog::G_CORNICE, hue, luma: 3 };
    }
    window(lot, f, floor, bay, lod)
}

/// A ground-floor shopfront.
fn shopfront(lot: &Lot, f: u32, bay: i32, z: Fx, lod: Lod) -> (s: Surface)
    ensures
        s == shopfront_of(*lot, f, bay as int, z, lod),
{
    let h = hash3(lot.seed, f, bay as u32);
    let sign = h & 7 == 0;
    if sign {
        Surface { glyph: catalog::ST_SIGN, hue: sign_hue(h), luma: 7 }
    } else if z < SHOP_SILL {
        Surface { glyph: catalog::G_CORNICE, hue: lot.hue, luma: 3 }
    } else {
        Surface { glyph: catalog::facade_tile(lod.cfg(), 0), hue: shop_hue(h), luma: 7 }
    }
}

/// An ordinary window.
///
/// Which tile is a property of the building, from the lot's seed alone;
/// whether the light is on is a property of the window, sampled at the
/// resolution the screen cell can resolve.
fn window(lot: &Lot, f: u32, floor: i32, bay: i32, lod: Lod) -> (s: Surface)
    requires
        f < 4,
        window_key_fits(f, floor as int, lod),
    ensures
        s == window_of(*lot, f, floor as int, bay as int, lod),
{
    let q = lod.quant();
    let qf = floor / q;
    let qb = bay / q;
    assert(qb == fixed::trunc_div(bay as int, q as int));
    assert(qf == fixed::trunc_div(floor as int, q as int));
    let h = hash3(lot.seed, f * 8192 + qf as u32, qb as u32);
    let occupied = (h >> 3) & 15;
    let bias: i32 = match lot.arch {
        Arch::CurtainWall => 1,
        Arch::Slab | Arch::Setback | Arch::Deco => 0,
        Arch::Prewar => -2,
        Arch::LowRise => -3,
    };
    let t = lot.lit as i32 + bias;
    let threshold: u32 = if t < 1 { 1 } else if t > 15 { 15 } else { t as u32 };
    if occupied >= threshold {
        return Surface { glyph: catalog::shade(1), hue: lot.hue, luma: (lot.luma / 3).max(1) };
    }
    Surface {
        glyph: catalog::facade_tile(lod.cfg(), house_style(lot)),
        hue: lot.hue,
        luma: (lot.luma as u32 + (h >> 20) % 2).min(7) as u8,
    }
}

/// The remainder of a floor index by four, as Rust's `%` gives it.
fn rem4(floor: i32) -> (r: i32)
    ensures
        floor >= 0 ==> r == floor % 4,
        floor < 0 ==> r <= 0,
{
    floor % 4
}

/// Level of detail coarsens with distance: a further wall never gets a
/// finer tile configuration than a nearer one.
pub proof fn lemma_lod_coarsens(near: Fx, far: Fx)
    requires
        near <= far,
    ensures
        lod_cfg(lod_of(near)) <= lod_cfg(lod_of(far)),
{
    assert(near as int / 65536 <= far as int / 65536) by (nonlinear_arith)
        requires
            near <= far,
    ;
}

/// Whether a glyph is part of a fire escape.
pub open spec fn is_ironwork(g: GlyphId) -> bool {
    catalog::G_FIRE <= g < catalog::G_ROOF
}

/// The fire escape stays in the same place as the camera moves: whether a
/// point on a wall shows ironwork does not depend on the level of detail,
/// only on the building and the point.
pub proof fn lemma_fire_escape_ignores_lod(
    lot: Lot,
    face: Face,
    along: Fx,
    z: Fx,
    local_h: Fx,
    lod1: Lod,
    lod2: Lod,
)
    ensures
        is_ironwork(facade_of(lot, face, along, z, local_h, lod1).glyph) == is_ironwork(
            facade_of(lot, face, along, z, local_h, lod2).glyph,
        ),
{
    let floor = index_at(z, FLOORS_PER_UNIT);
    let bay = index_at(along, BAYS_PER_UNIT);
    let top_floor = index_at(local_h, FLOORS_PER_UNIT);
    let iron = floor < top_floor - 1 && z >= GROUND && lot.arch.fire_escape_spec() && fire_escape_of(
        lot,
        face,
        bay,
        floor,
        z,
        top_floor,
    ) is Some;
    assert forall|l: Lod| #[trigger] is_ironwork(facade_of(lot, face, along, z, local_h, l).glyph) == iron by {
        if iron {
            let e = fire_escape_of(lot, face, bay, floor, z, top_floor)->0;
            assert(is_ironwork(e.glyph));
        }
    }
}

/// A building carries its ironwork on one face only: any two points that
/// show it are on the same face.
pub proof fn lemma_ironwork_on_one_face(
    lot: Lot,
    f1: Face,
    along1: Fx,
    z1: Fx,
    h1: Fx,
    lod1: Lod,
    f2: Face,
    along2: Fx,
    z2: Fx,
    h2: Fx,
    lod2: Lod,
)
    requires
        is_ironwork(facade_of(lot, f1, along1, z1, h1, lod1).glyph),
        is_ironwork(facade_of(lot, f2, along2, z2, h2, lod2).glyph),
    ensures
        f1 == f2,
{
}

/// The top of a building is a cornice: in its top two courses a wall is a
/// cornice glyph in the lot's own hue, whatever the face, the bay or the
/// detail.
pub proof fn lemma_the_top_of_a_building_is_a_cornice(lot: Lot, face: Face, along: Fx, z: Fx, local_h: Fx, lod: Lod)
    requires
        index_at(z, FLOORS_PER_UNIT) >= index_at(local_h, FLOORS_PER_UNIT) - 1,
    ensures
        catalog::G_CORNICE <= facade_of(lot, face, along, z, local_h, lod).glyph < catalog::G_FIRE,
        facade_of(lot, face, along, z, local_h, lod).hue == lot.hue,
{
}

} // verus!
