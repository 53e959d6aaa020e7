//! Billboards: everything in the city that is not a building.
//!
//! Lamp posts, hydrants, trees, traffic, pedestrians, the fare markers and
//! the coins are all drawn the same way - as a flat card standing at a world
//! position, always facing the camera, clipped against the depth of the wall
//! behind it.  Most cards are eight rows of eight characters of ASCII art;
//! a vehicle is a function of where on the card you are, evaluated at the
//! resolution it is drawn at.
use vstd::prelude::*;
use crate::catalog::{self, GlyphId};
use crate::fixed::{self, Fx, ONE, HALF, fx_mul, fx_div, fx_floor, clamp_of, lerp_of};
use crate::palette;
use crate::trig::{self, Ang, sin_of, cos_of};
use crate::atmos::{Atmos, day_fits, sun_az_of, sky_colour_of, draw_distance_of};
use crate::camera::Camera;
use crate::frame::{Cel, Frame, on_screen};
use crate::raycast::{Proj, CELL_ASPECT};
use vstd::string::StrSliceExecFns;

verus! {

/// What a billboard is a picture of.
#[derive(Clone, Copy, Debug, PartialEq, Eq, Structural)]
pub enum Stamp {
    /// A street light: post, arm, lamp.
    LampPost,
    /// A traffic signal on a pole.
    Signal,
    /// A fire hydrant.
    Hydrant,
    /// A mailbox - a thing that exists to be knocked over.
    Mailbox,
    /// A street tree.
    Tree,
    /// A bollard.
    Bollard,
    /// A parking meter.
    Meter,
    /// A three-box saloon.
    Car,
    /// A boxy four-wheel-drive: short, tall, upright glass.
    Jeep,
    /// A land yacht of about 1972: very long, very low, most of it bonnet.
    Boat,
    /// The cab: longer than a saloon, with a checker band and a roof sign.
    Taxi,
    /// A car that has been hit hard enough to show it.
    Wreck,
    /// A bus.
    Bus,
    /// A person.
    Ped,
    /// A fare coin, spinning.
    Coin,
    /// The marker over a waiting passenger.
    Pickup,
    /// The marker over their destination.
    Dropoff,
    /// What is left of something you drove through.
    Debris,
}

/// A street light: a mast, a lamp, and the glow around it.
pub const LAMP_POST_ART: [&'static str; 8] = [
    "  .:*:. ",
    "  :*O*: ",
    "  .:*:. ",
    "   ||   ",
    "   ||   ",
    "   ||   ",
    "   ||   ",
    "  ====  ",
];

/// A signal head with its three aspects, on a pole.
pub const SIGNAL_ART: [&'static str; 8] = [
    "  ####  ",
    "  #r #  ",
    "  #y #  ",
    "  #g #  ",
    "  ####  ",
    "   ||   ",
    "   ||   ",
    "  ====  ",
];

/// A hydrant.
pub const HYDRANT_ART: [&'static str; 8] = [
    "        ",
    "        ",
    "        ",
    "        ",
    "   #    ",
    "  ###   ",
    "  ###   ",
    " #####  ",
];

/// A mailbox on a post.
pub const MAILBOX_ART: [&'static str; 8] = [
    "        ",
    "        ",
    "  ####  ",
    " ###### ",
    " ###### ",
    "   ||   ",
    "   ||   ",
    "  ====  ",
];

/// A street tree.
pub const TREE_ART: [&'static str; 8] = [
    "  TTT   ",
    " TTTTT  ",
    "TTTTTTT ",
    "TTTTTTT ",
    " TTTTT  ",
    "  t t   ",
    "   t    ",
    "  ===   ",
];

/// A bollard.
pub const BOLLARD_ART: [&'static str; 8] = [
    "        ",
    "        ",
    "        ",
    "        ",
    "   ##   ",
    "   ##   ",
    "   ##   ",
    "  ====  ",
];

/// A parking meter.
pub const METER_ART: [&'static str; 8] = [
    "        ",
    "        ",
    "   ##   ",
    "   o    ",
    "   |    ",
    "   |    ",
    "   |    ",
    "  ==    ",
];

/// A person.
pub const PED_ART: [&'static str; 8] = [
    "        ",
    "        ",
    "   o    ",
    "   #    ",
    "  ###   ",
    "   #    ",
    "   |    ",
    "  = =   ",
];

/// A fare coin.
pub const COIN_ART: [&'static str; 8] = [
    "        ",
    "  ####  ",
    " ###### ",
    " ###### ",
    " ###### ",
    "  ####  ",
    "        ",
    "        ",
];

/// The marker over a fare.
pub const PICKUP_ART: [&'static str; 8] = [
    "  ####  ",
    " ###### ",
    "  ####  ",
    "   ##   ",
    "        ",
    "        ",
    "        ",
    "        ",
];

/// What is left of something driven through.
pub const DEBRIS_ART: [&'static str; 8] = [
    "        ",
    "        ",
    "        ",
    "        ",
    "        ",
    "        ",
    " .  . . ",
    " ...#.. ",
];

/// A blank card, for the stamps that are painted by a function rather than
/// sampled from art.  Nothing ever reads it.
pub const NO_ART: [&'static str; 8] = [
    "        ",
    "        ",
    "        ",
    "        ",
    "        ",
    "        ",
    "        ",
    "        ",
];

/// The art of each stamp; the vehicles are painted, and have none.
pub open spec fn art_of(s: Stamp) -> [&'static str; 8] {
    match s {
        Stamp::LampPost => LAMP_POST_ART,
        Stamp::Signal => SIGNAL_ART,
        Stamp::Hydrant => HYDRANT_ART,
        Stamp::Mailbox => MAILBOX_ART,
        Stamp::Tree => TREE_ART,
        Stamp::Bollard => BOLLARD_ART,
        Stamp::Meter => METER_ART,
        Stamp::Ped => PED_ART,
        Stamp::Coin => COIN_ART,
        Stamp::Pickup | Stamp::Dropoff => PICKUP_ART,
        Stamp::Debris => DEBRIS_ART,
        _ => NO_ART,
    }
}

impl Stamp {
    /// The art for this stamp: eight rows of eight characters.
    pub fn art(self) -> (a: &'static [&'static str; 8])
        ensures
            *a == art_of(self),
    {
        match self {
            Stamp::LampPost => &LAMP_POST_ART,
            Stamp::Signal => &SIGNAL_ART,
            Stamp::Hydrant => &HYDRANT_ART,
            Stamp::Mailbox => &MAILBOX_ART,
            Stamp::Tree => &TREE_ART,
            Stamp::Bollard => &BOLLARD_ART,
            Stamp::Meter => &METER_ART,
            Stamp::Ped => &PED_ART,
            Stamp::Coin => &COIN_ART,
            Stamp::Pickup | Stamp::Dropoff => &PICKUP_ART,
            Stamp::Debris => &DEBRIS_ART,
            Stamp::Car | Stamp::Jeep | Stamp::Boat | Stamp::Taxi | Stamp::Wreck | Stamp::Bus => &NO_ART,
        }
    }

    /// Whether this belongs at the kerb rather than set back on the
    /// pavement: street lighting and signals, where they are of use.
    pub fn kerbside(self) -> (r: bool)
        ensures
            r == (self == Stamp::LampPost || self == Stamp::Signal || self == Stamp::Hydrant
                || self == Stamp::Bollard),
    {
        match self {
            Stamp::LampPost | Stamp::Signal | Stamp::Hydrant | Stamp::Bollard => true,
            _ => false,
        }
    }

    /// Whether this is planted, and therefore belongs in the verge.
    pub fn planted(self) -> (r: bool)
        ensures
            r == (self == Stamp::Tree),
    {
        match self {
            Stamp::Tree => true,
            _ => false,
        }
    }

    /// Whether this is something a car can flatten.
    pub fn frangible(self) -> (r: bool)
        ensures
            r == (self == Stamp::LampPost || self == Stamp::Mailbox || self == Stamp::Hydrant
                || self == Stamp::Bollard || self == Stamp::Meter || self == Stamp::Signal),
    {
        match self {
            Stamp::LampPost | Stamp::Mailbox | Stamp::Hydrant | Stamp::Bollard | Stamp::Meter | Stamp::Signal => true,
            _ => false,
        }
    }
}

/// What one art character paints: a glyph, a hue and a luminance, or
/// `None` for a transparent space.  Bit 0 of the phase says the camera is
/// in front of a car, bit 1 that it is braking; a signal's phase modulo
/// three picks its lit aspect.
pub open spec fn glyph_for_of(c: char, hue: u8, phase: u8) -> Option<(GlyphId, u8, u8)> {
    if c == ' ' {
        None
    } else {
        Some(
            if c == '#' {
                (catalog::G_SOLID, hue, 5u8)
            } else if c == '.' {
                (catalog::shade_of(3), hue, 3u8)
            } else if c == '|' {
                (catalog::ST_POST, palette::H_WHITE, 3u8)
            } else if c == '=' {
                ((catalog::G_CORNICE + 3) as u8, palette::H_WHITE, 2u8)
            } else if c == 'b' {
                if phase / 2 % 2 == 1 {
                    (catalog::G_SOLID, palette::H_RED, 7u8)
                } else {
                    (catalog::ST_LAMP, palette::H_RED, 4u8)
                }
            } else if c == 'o' {
                if phase % 2 == 1 {
                    (catalog::ST_LAMP, palette::H_WHITE, 7u8)
                } else if phase / 2 % 2 == 1 {
                    (catalog::G_SOLID, palette::H_RED, 7u8)
                } else {
                    (catalog::ST_LAMP, palette::H_RED, 5u8)
                }
            } else if c == 'O' {
                (catalog::ST_LAMP, palette::H_YELLOW, 7u8)
            } else if c == 'T' {
                (catalog::FLORA_CANOPY, palette::H_GREEN, 4u8)
            } else if c == 't' {
                (catalog::FLORA_TRUNK, palette::H_BROWN, 3u8)
            } else if c == 'L' || c == 'R' {
                ((catalog::G_QUAD + 12 - 1) as u8, hue, 4u8)
            } else if c == 'k' {
                ((catalog::G_QUAD + 6 - 1) as u8, palette::H_WHITE, 7u8)
            } else if c == 'S' {
                (catalog::G_SOLID, palette::H_YELLOW, 7u8)
            } else if c == '*' {
                ((catalog::G_HAZE + 3) as u8, palette::H_YELLOW, 6u8)
            } else if c == ':' {
                ((catalog::G_HAZE + 1) as u8, palette::H_YELLOW, 4u8)
            } else if c == 'r' {
                (catalog::G_SOLID, palette::H_RED, if phase % 3 == 0 { 7u8 } else { 1u8 })
            } else if c == 'y' {
                (catalog::G_SOLID, palette::H_YELLOW, if phase % 3 == 1 { 7u8 } else { 1u8 })
            } else if c == 'g' {
                (catalog::G_SOLID, palette::H_GREEN, if phase % 3 == 2 { 7u8 } else { 1u8 })
            } else {
                (catalog::G_SOLID, hue, 5u8)
            },
        )
    }
}

/// One art character, as a glyph and a brightness, or `None` for
/// transparent.
pub fn glyph_for(c: char, hue: u8, phase: u8) -> (r: Option<(GlyphId, u8, u8)>)
    ensures
        r == glyph_for_of(c, hue, phase),
{
    let braking = phase / 2 % 2 == 1;
    Some(
        match c {
            ' ' => {
                return None;
            },
            '#' => (catalog::G_SOLID, hue, 5),
            '.' => (catalog::shade(3), hue, 3),
            '|' => (catalog::ST_POST, palette::H_WHITE, 3),
            '=' => (catalog::G_CORNICE + 3, palette::H_WHITE, 2),
            'b' => {
                if braking {
                    (catalog::G_SOLID, palette::H_RED, 7)
                } else {
                    (catalog::ST_LAMP, palette::H_RED, 4)
                }
            },
            'o' => {
                if phase % 2 == 1 {
                    (catalog::ST_LAMP, palette::H_WHITE, 7)
                } else if braking {
                    (catalog::G_SOLID, palette::H_RED, 7)
                } else {
                    (catalog::ST_LAMP, palette::H_RED, 5)
                }
            },
            'O' => (catalog::ST_LAMP, palette::H_YELLOW, 7),
            'T' => (catalog::FLORA_CANOPY, palette::H_GREEN, 4),
            't' => (catalog::FLORA_TRUNK, palette::H_BROWN, 3),
            'L' | 'R' => (catalog::G_QUAD + 12 - 1, hue, 4),
            'k' => (catalog::G_QUAD + 6 - 1, palette::H_WHITE, 7),
            'S' => (catalog::G_SOLID, palette::H_YELLOW, 7),
            '*' => (catalog::G_HAZE + 3, palette::H_YELLOW, 6),
            ':' => (catalog::G_HAZE + 1, palette::H_YELLOW, 4),
            'r' => (catalog::G_SOLID, palette::H_RED, if phase % 3 == 0 { 7 } else { 1 }),
            'y' => (catalog::G_SOLID, palette::H_YELLOW, if phase % 3 == 1 { 7 } else { 1 }),
            'g' => (catalog::G_SOLID, palette::H_GREEN, if phase % 3 == 2 { 7 } else { 1 }),
            _ => (catalog::G_SOLID, hue, 5),
        },
    )
}

/// Which way round a car is, as the card sees it.  See [`aspect`].
#[derive(Clone, Copy, Debug, PartialEq, Eq, Structural)]
pub struct Aspect {
    /// How wide the card is, in world units.
    pub width: Fx,
    /// What fraction of the card is the end of the car rather than its
    /// flank, from 0 (broadside) to 1 (dead astern or dead ahead).
    pub end: Fx,
    /// Whether that end band is on the left of the card.
    pub end_left: bool,
    /// Whether the end you can see is the front of the car.
    pub front: bool,
    /// Whether the car's nose points to the left of the card.
    pub nose_left: bool,
}

/// Looked at down its own length: what everything that is not a vehicle
/// gets, and what a vehicle gets before anybody has worked out where the
/// camera is.
pub open spec fn end_on_aspect() -> Aspect {
    Aspect { width: 0, end: ONE, end_left: false, front: false, nose_left: false }
}

impl Aspect {
    /// The end-on aspect: see [`end_on_aspect`].
    pub fn end_on() -> (a: Aspect)
        ensures
            a == end_on_aspect(),
    {
        Aspect { width: 0, end: ONE, end_left: false, front: false, nose_left: false }
    }
}

/// The octagonal norm of a vector: the larger component plus three
/// eighths of the smaller, within six per cent of its length.
pub open spec fn octagonal(x: Fx, y: Fx) -> int {
    let (a, b) = (vstd::math::abs(x as int), vstd::math::abs(y as int));
    let (hi, lo) = if a > b { (a, b) } else { (b, a) };
    hi + fx_mul(lo as i32, 24576)
}

/// The view direction along a car's axis and across it, from a view
/// vector normalised by its octagonal norm.
pub open spec fn view_axes(yaw: Ang, vx: Fx, vy: Fx) -> (int, int) {
    let (ax, ay) = (cos_of(yaw), sin_of(yaw));
    let n = octagonal(vx, vy) as i32;
    let (ux, uy) = (fx_div(vx, n), fx_div(vy, n));
    (fx_mul(ux, ax) + fx_mul(uy, ay), fx_mul(ux, (-ay) as i32) + fx_mul(uy, ax))
}

/// The widths of the end of a car and of its flank, as the card sees them.
pub open spec fn aspect_widths(len: Fx, wid: Fx, yaw: Ang, vx: Fx, vy: Fx) -> (int, int) {
    let (along, across) = view_axes(yaw, vx, vy);
    (
        fx_mul(wid, vstd::math::abs(along) as i32) as int,
        fx_mul(len, vstd::math::abs(across) as i32) as int,
    )
}

/// Whether [`aspect`]'s arithmetic fits in 32 bits: the view vector can
/// be measured, and the two widths can be added.
pub open spec fn aspect_fits(len: Fx, wid: Fx, yaw: Ang, vx: Fx, vy: Fx) -> bool {
    &&& vx != i32::MIN
    &&& vy != i32::MIN
    &&& octagonal(vx, vy) <= i32::MAX
    &&& octagonal(vx, vy) > 0 ==> i32::MIN <= aspect_widths(len, wid, yaw, vx, vy).0
        + aspect_widths(len, wid, yaw, vx, vy).1 <= i32::MAX
}

/// The value of [`aspect`].
pub open spec fn aspect_of(len: Fx, wid: Fx, yaw: Ang, vx: Fx, vy: Fx) -> Aspect {
    if octagonal(vx, vy) <= 0 {
        end_on_aspect()
    } else {
        let (along, across) = view_axes(yaw, vx, vy);
        let (end_w, side_w) = aspect_widths(len, wid, yaw, vx, vy);
        let width = (end_w + side_w) as i32;
        let nose_left = across > 0;
        let front = along < 0;
        Aspect {
            width,
            end: if width > 0 { fx_div(end_w as i32, width) } else { ONE },
            end_left: nose_left == front,
            front,
            nose_left,
        }
    }
}

/// Where the camera is standing relative to a car, in the terms the
/// painter needs: `yaw` is the way the car points, `(vx, vy)` the
/// direction from the camera to it.  The card is `wid * |cos t|` of end
/// and `len * |sin t|` of flank, side by side, and the end is on the left
/// when the car's nose points to the right of the view.
pub fn aspect(len: Fx, wid: Fx, yaw: Ang, vx: Fx, vy: Fx) -> (r: Aspect)
    requires
        aspect_fits(len, wid, yaw, vx, vy),
    ensures
        r == aspect_of(len, wid, yaw, vx, vy),
{
    proof {
        trig::lemma_table_bounds(yaw);
    }
    let (ax, ay) = (trig::cos(yaw), trig::sin(yaw));
    let (a, b) = (fixed::abs(vx), fixed::abs(vy));
    let (hi, lo) = if a > b { (a, b) } else { (b, a) };
    proof {
        fixed::lemma_mul_fraction(lo, 24576);
    }
    let n = hi + fixed::mul(lo, 24576);
    if n <= 0 {
        return Aspect::end_on();
    }
    proof {
        assert(n as int * 65536 / n as int == 65536) by (nonlinear_arith)
            requires
                n > 0,
        ;
        fixed::lemma_div_bound(vx, n, n as int, n as int);
        fixed::lemma_div_bound(vy, n, n as int, n as int);
    }
    let (ux, uy) = (fixed::div(vx, n), fixed::div(vy, n));
    proof {
        fixed::lemma_mul_bound(ux, ax, 65536, 65536);
        fixed::lemma_mul_bound(uy, ay, 65536, 65536);
        fixed::lemma_mul_bound(ux, (-ay) as i32, 65536, 65536);
        fixed::lemma_mul_bound(uy, ax, 65536, 65536);
    }
    let along = fixed::mul(ux, ax) + fixed::mul(uy, ay);
    let across = fixed::mul(ux, -ay) + fixed::mul(uy, ax);
    let (fa, fc) = (fixed::abs(along), fixed::abs(across));
    let end_w = fixed::mul(wid, fa);
    let side_w = fixed::mul(len, fc);
    let width = end_w + side_w;
    let nose_left = across > 0;
    let front = along < 0;
    Aspect {
        width,
        end: if width > 0 { fixed::div(end_w, width) } else { ONE },
        end_left: nose_left == front,
        front,
        nose_left,
    }
}

/// How wide a box of `len` by `wid` looks, and whether you are seeing it
/// side-on: the projection of a rectangle onto the view's cross axis.
pub fn silhouette(len: Fx, wid: Fx, yaw: Ang, vx: Fx, vy: Fx) -> (r: (Fx, bool))
    requires
        aspect_fits(len, wid, yaw, vx, vy),
    ensures
        r.0 == aspect_of(len, wid, yaw, vx, vy).width,
        r.1 == (aspect_of(len, wid, yaw, vx, vy).end < HALF),
{
    let a = aspect(len, wid, yaw, vx, vy);
    (a.width, a.end < HALF)
}

/// What kind of vehicle is being painted.
#[derive(Clone, Copy, Debug, PartialEq, Eq, Structural)]
pub enum Body {
    /// Somebody else's car: a three-box saloon.
    Saloon,
    /// Short, tall and square: a four-wheel-drive.
    Jeep,
    /// Long and low: the land yacht.
    Boat,
    /// The one you are driving: chequer band, roof sign.
    Taxi,
    /// Longer, taller, flatter.
    Bus,
    /// A saloon that has been in the wars.
    Wreck,
}

/// The body a stamp is painted as, if it is a vehicle.
pub open spec fn body_of(stamp: Stamp) -> Option<Body> {
    match stamp {
        Stamp::Taxi => Some(Body::Taxi),
        Stamp::Car => Some(Body::Saloon),
        Stamp::Jeep => Some(Body::Jeep),
        Stamp::Boat => Some(Body::Boat),
        Stamp::Bus => Some(Body::Bus),
        Stamp::Wreck => Some(Body::Wreck),
        _ => None,
    }
}

impl Body {
    /// Which body a stamp is, if it is a vehicle.
    pub fn of(stamp: Stamp) -> (r: Option<Body>)
        ensures
            r == body_of(stamp),
    {
        match stamp {
            Stamp::Taxi => Some(Body::Taxi),
            Stamp::Car => Some(Body::Saloon),
            Stamp::Jeep => Some(Body::Jeep),
            Stamp::Boat => Some(Body::Boat),
            Stamp::Bus => Some(Body::Bus),
            Stamp::Wreck => Some(Body::Wreck),
            _ => None,
        }
    }
}

/// Where the lamps stop and the bumper starts, down the card: `0.82`.
pub const BUMPER: Fx = 53739;

/// How far across the half-width the bodywork runs before the rim - the
/// panel turned edge-on, which shows the sky - starts: `0.83`.
pub const RIM: Fx = 54394;

/// How far down from the top edge of the body the same fade reaches:
/// `0.04` of the card.
pub const RIM_TOP: Fx = 2621;

/// How far up the card the wheel arches are cut, from the ground line:
/// `0.20`.
pub const ARCH: Fx = 13107;

/// How much of the top of the cab's card its roof sign occupies: `0.20`.
pub const SIGN_BAND: Fx = 13107;

/// Half the width of the sign box, as a fraction of the card: `0.15`.
pub const SIGN_HALF: Fx = 9830;

/// Where the sign box stops, down the card: `0.12`.
pub const SIGN_BOX: Fx = 7864;

/// `T A X I` in a 3x3 alphabet: three rows, three bits a letter, most
/// significant first, with a blank column between letters.
pub const TAXI_ROWS: [u16; 3] = [0b111_0_111_0_101_0_111, 0b010_0_111_0_010_0_010, 0b010_0_101_0_101_0_111];

/// The rows the sign box needs before the word is set in it.
pub const TYPE_ROWS: i32 = 3;

/// The columns the sign box needs before the word is set in it.
pub const TYPE_COLS: i32 = 15;

/// Where the glass stops and the doors start, down the card.
pub open spec fn waist_spec(body: Body) -> Fx {
    match body {
        Body::Bus => 36044,
        Body::Jeep => 38010,
        Body::Boat => 21626,
        _ => 26214,
    }
}

/// Where the glass stops and the doors start, down the card: one figure
/// for both faces of a body, because a waist line runs round a car.
pub fn waist_of(body: Body, side: bool) -> (w: Fx)
    ensures
        w == waist_spec(body),
{
    match body {
        Body::Bus => 36044,
        Body::Jeep => 38010,
        Body::Boat => 21626,
        _ => 26214,
    }
}

/// Half the width of a body at the roof, the shoulder and the sill.
pub open spec fn body_profile(body: Body, side: bool) -> (Fx, Fx, Fx) {
    if body == Body::Bus {
        (27525, 31457, 30146)
    } else if body == Body::Jeep {
        (26214, 30801, 29491)
    } else if side {
        (32768, 32768, 31457)
    } else {
        (19660, 30146, 27525)
    }
}

/// The value of [`body_half`].
pub open spec fn body_half_of(body: Body, side: bool, v: Fx) -> Fx {
    let (roof_top, shoulder, sill) = body_profile(body, side);
    let waist = waist_spec(body);
    if v < waist {
        lerp_of(roof_top as int, shoulder as int, clamp_of(fx_div(v, waist) as int, 0, ONE as int)) as i32
    } else {
        lerp_of(shoulder as int, sill as int, clamp_of(fx_div((v - waist) as i32, (ONE - waist) as i32) as int, 0, ONE as int)) as i32
    }
}

/// Half the width of the body at a given height down the card: a roof
/// narrower than the waist, widening to the shoulder, and a slight tuck
/// at the sills.
pub fn body_half(body: Body, side: bool, v: Fx) -> (h: Fx)
    requires
        v >= i32::MIN + 65536,
    ensures
        h == body_half_of(body, side, v),
        19660 <= h <= 32768,
{
    let (roof_top, shoulder, sill): (Fx, Fx, Fx) = if body == Body::Bus {
        (27525, 31457, 30146)
    } else if body == Body::Jeep {
        (26214, 30801, 29491)
    } else if side {
        (32768, 32768, 31457)
    } else {
        (19660, 30146, 27525)
    };
    let waist = waist_of(body, side);
    if v < waist {
        let t = fixed::clamp(fixed::div(v, waist), 0, ONE);
        proof {
            fixed::lemma_lerp_between(roof_top as int, shoulder as int, t as int);
        }
        fixed::lerp(roof_top, shoulder, t)
    } else {
        let t = fixed::clamp(fixed::div(v - waist, ONE - waist), 0, ONE);
        proof {
            fixed::lemma_lerp_between(shoulder as int, sill as int, t as int);
        }
        fixed::lerp(shoulder, sill, t)
    }
}

/// Where a flank's cabin starts and stops, and how far down the card the
/// bonnet and the boot sit, as fractions of the waist.
pub open spec fn flank_profile(body: Body) -> (Fx, Fx, Fx, Fx) {
    if body == Body::Jeep {
        (10485, 60293, 45875, 36044)
    } else if body == Body::Boat {
        (30146, 52428, 60293, 52428)
    } else {
        (20971, 49807, 57671, 49807)
    }
}

/// The value of [`flank_top`].
pub open spec fn flank_top_of(body: Body, u: Fx) -> Fx {
    if body == Body::Bus {
        0
    } else {
        let waist = waist_spec(body);
        let (front, back, bonnet_f, boot_f) = flank_profile(body);
        let (bonnet, boot) = (fx_mul(waist, bonnet_f), fx_mul(waist, boot_f));
        let rake: Fx = 6553;
        if u >= front && u <= back {
            0
        } else if u < front {
            let d = if front - u < rake { (front - u) as i32 } else { rake };
            fx_mul(bonnet, clamp_of(fx_div(d, rake) as int, 0, ONE as int) as i32)
        } else {
            let d = if u - back < rake { (u - back) as i32 } else { rake };
            fx_mul(boot, clamp_of(fx_div(d, rake) as int, 0, ONE as int) as i32)
        }
    }
}

/// The top of the body along the flank, as a `v` down the card: bonnet,
/// cabin, boot.  `u` runs nose-first, 0 the front bumper and 1 the back.
pub fn flank_top(body: Body, u: Fx) -> (t: Fx)
    requires
        -0x4000_0000 <= u <= 0x4000_0000,
    ensures
        t == flank_top_of(body, u),
        0 <= t <= ONE,
{
    if body == Body::Bus {
        return 0;
    }
    let waist = waist_of(body, true);
    let (front, back, bonnet_f, boot_f): (Fx, Fx, Fx, Fx) = if body == Body::Jeep {
        (10485, 60293, 45875, 36044)
    } else if body == Body::Boat {
        (30146, 52428, 60293, 52428)
    } else {
        (20971, 49807, 57671, 49807)
    };
    proof {
        fixed::lemma_mul_fraction(waist, bonnet_f);
        fixed::lemma_mul_fraction(waist, boot_f);
    }
    let bonnet = fixed::mul(waist, bonnet_f);
    let boot = fixed::mul(waist, boot_f);
    let rake: Fx = 6553;
    if u >= front && u <= back {
        return 0;
    }
    if u < front {
        let d = if front - u < rake { front - u } else { rake };
        let t = fixed::clamp(fixed::div(d, rake), 0, ONE);
        proof {
            fixed::lemma_mul_fraction(bonnet, t);
        }
        return fixed::mul(bonnet, t);
    }
    let d = if u - back < rake { u - back } else { rake };
    let t = fixed::clamp(fixed::div(d, rake), 0, ONE);
    proof {
        fixed::lemma_mul_fraction(boot, t);
    }
    fixed::mul(boot, t)
}

/// The value of [`flank_glass`].
pub open spec fn flank_glass_of(body: Body, u: Fx, pillar: Fx) -> bool {
    if body == Body::Bus {
        u > pillar && u < ONE - pillar
    } else {
        &&& flank_top_of(body, u) <= 0
        &&& flank_top_of(body, if u - pillar > 0 { (u - pillar) as i32 } else { 0 }) <= 0
        &&& flank_top_of(body, if u + pillar < ONE { (u + pillar) as i32 } else { ONE }) <= 0
    }
}

/// Whether a point along the flank is in the glasshouse: where the
/// roofline is flat, a pillar's width in from each end of it.
pub fn flank_glass(body: Body, u: Fx, pillar: Fx) -> (r: bool)
    requires
        -0x3000_0000 <= u <= 0x3000_0000,
        0 <= pillar <= ONE,
    ensures
        r == flank_glass_of(body, u, pillar),
{
    if body == Body::Bus {
        return u > pillar && u < ONE - pillar;
    }
    let flat = flank_top(body, u) <= 0;
    let before = if u - pillar > 0 { u - pillar } else { 0 };
    let after = if u + pillar < ONE { u + pillar } else { ONE };
    flat && flank_top(body, before) <= 0 && flank_top(body, after) <= 0
}

/// The value of [`rim`].
pub open spec fn rim_of(edge: Fx, u: Fx, key: Fx, sky: (u8, u8)) -> (GlyphId, u8, u8) {
    let (sh, sl) = sky;
    let t = clamp_of(fx_div((edge - RIM) as i32, (ONE - RIM) as i32) as int, 0, ONE as int) as i32;
    let cover = 8 - clamp_of(fx_floor(fx_mul(t, 393216)), 0, 6);
    let side_key = if u > HALF { key as int } else { -key };
    let up = fx_floor(fx_mul(if side_key > 0 { side_key as i32 } else { 0i32 }, 131072));
    let l = clamp_of(sl + up, 1, 7) as u8;
    (catalog::shade_of(cover as u8), sh, l)
}

/// The last of a car's width, drawn as the sky rather than as the car: a
/// panel at a grazing angle is a mirror.  Dithered, thinning towards the
/// silhouette, and lifted on the side the sun is behind.
pub fn rim(edge: Fx, u: Fx, key: Fx, sky: (u8, u8)) -> (r: (GlyphId, u8, u8))
    requires
        edge >= i32::MIN + RIM,
        key > i32::MIN,
    ensures
        r == rim_of(edge, u, key, sky),
{
    let (sh, sl) = sky;
    let t = fixed::clamp(fixed::div(edge - RIM, ONE - RIM), 0, ONE);
    let c6 = fixed::floor(fixed::mul(t, fixed::from_int(6)));
    let cover = 8 - (if c6 < 0 { 0 } else if c6 > 6 { 6 } else { c6 });
    let side_key = if u > HALF { key } else { -key };
    let up = fixed::floor(fixed::mul(if side_key > 0 { side_key } else { 0 }, fixed::from_int(2)));
    let l0 = sl as i32 + up;
    let l = (if l0 < 1 { 1 } else if l0 > 7 { 7 } else { l0 }) as u8;
    (catalog::shade(cover as u8), sh, l)
}

/// The value of [`roof_sign`] inside the box, off its rim: the word, or a
/// bar where there is no room to set it, on a lit ground.
pub open spec fn sign_face_of(u: Fx, v: Fx, rows: i32, cols: i32) -> (GlyphId, u8, u8) {
    let rim: Fx = 1966;
    let inner_half: Fx = 7864;
    let lu = fx_div((u - (HALF - inner_half)) as i32, 15728);
    let lv = fx_div((v - rim) as i32, 3932);
    let (mx, my): (Fx, Fx) = (5242, 11796);
    let inside = lu > mx && lu < ONE - mx && lv > my && lv < ONE - my;
    let box_rows = fx_floor(fx_mul(SIGN_BOX, fixed::from_int_of(rows as int)));
    let box_cols = fx_floor(fx_mul(15728, fixed::from_int_of(cols as int)));
    let ink = (catalog::G_SOLID, palette::H_BLACK, 0u8);
    let lit = (catalog::G_SOLID, palette::H_YELLOW, 7u8);
    if inside && box_rows >= TYPE_ROWS && box_cols >= TYPE_COLS {
        let col = clamp_of(fx_floor(fx_mul(fx_div((lu - mx) as i32, 55052), fixed::from_int_of(TYPE_COLS as int))), 0, TYPE_COLS - 1);
        let row = clamp_of(fx_floor(fx_mul(fx_div((lv - my) as i32, 41944), fixed::from_int_of(3))), 0, 2);
        if (TAXI_ROWS[row] >> ((TYPE_COLS - 1 - col) as u16)) & 1u16 == 1u16 { ink } else { lit }
    } else if inside && lv > 22937 && lv < 42598 {
        ink
    } else {
        lit
    }
}

/// The value of [`roof_sign`].
pub open spec fn roof_sign_of(u: Fx, v: Fx, sky: (u8, u8), rows: i32, cols: i32) -> Option<(GlyphId, u8, u8)> {
    let rim: Fx = 1966;
    let mid = vstd::math::abs(u - HALF);
    if v >= SIGN_BAND {
        None
    } else if v < SIGN_BOX {
        if mid > SIGN_HALF {
            None
        } else if mid > SIGN_HALF - rim || v < rim || v > SIGN_BOX - rim {
            Some((catalog::G_SOLID, palette::H_BROWN, 2u8))
        } else {
            Some(sign_face_of(u, v, rows, cols))
        }
    } else {
        let (sh, sl) = sky;
        let leg: Fx = 2621;
        let stand: Fx = 5898;
        if vstd::math::abs(mid - stand) < leg / 2 {
            Some((catalog::G_SOLID, sh, if sl >= 4 { (sl - 3) as u8 } else { 1u8 }))
        } else {
            None
        }
    }
}

/// The lit box over the cab, the legs it stands on, and the word in it;
/// `None` where the sign is not, which is most of its band.
pub fn roof_sign(u: Fx, v: Fx, sky: (u8, u8), rows: i32, cols: i32) -> (r: Option<(GlyphId, u8, u8)>)
    requires
        -0x4000_0000 <= u <= 0x4000_0000,
        -0x4000_0000 <= v <= 0x4000_0000,
    ensures
        r == roof_sign_of(u, v, sky, rows, cols),
{
    if v >= SIGN_BAND {
        return None;
    }
    let mid = fixed::abs(u - HALF);
    let rim: Fx = 1966;
    if v < SIGN_BOX {
        if mid > SIGN_HALF {
            return None;
        }
        if mid > SIGN_HALF - rim || v < rim || v > SIGN_BOX - rim {
            return Some((catalog::G_SOLID, palette::H_BROWN, 2));
        }
        let inner_half: Fx = SIGN_HALF - rim;
        let (du, wu) = (u - (HALF - inner_half), inner_half * 2);
        let (dv, wv) = (v - rim, SIGN_BOX - rim * 2);
        proof {
            fixed::lemma_div_bound(du, wu, 15728, 15728);
            fixed::lemma_div_bound(dv, wv, 3932, 3932);
        }
        let lu = fixed::div(du, wu);
        let lv = fixed::div(dv, wv);
        let (mx, my): (Fx, Fx) = (5242, 11796);
        let inside = lu > mx && lu < ONE - mx && lv > my && lv < ONE - my;
        let box_rows = fixed::floor(fixed::mul(SIGN_BOX, fixed::from_int(rows)));
        let box_cols = fixed::floor(fixed::mul(inner_half * 2, fixed::from_int(cols)));
        if inside && box_rows >= TYPE_ROWS && box_cols >= TYPE_COLS {
            let c = fixed::floor(fixed::mul(fixed::div(lu - mx, ONE - mx * 2), fixed::from_int(TYPE_COLS)));
            let col = if c < 0 { 0 } else if c > TYPE_COLS - 1 { TYPE_COLS - 1 } else { c };
            let w = fixed::floor(fixed::mul(fixed::div(lv - my, ONE - my * 2), fixed::from_int(3)));
            let row = if w < 0 { 0 } else if w > 2 { 2 } else { w };
            if (TAXI_ROWS[row as usize] >> ((TYPE_COLS - 1 - col) as u16)) & 1 == 1 {
                return Some((catalog::G_SOLID, palette::H_BLACK, 0));
            }
        } else if inside && lv > 22937 && lv < 42598 {
            return Some((catalog::G_SOLID, palette::H_BLACK, 0));
        }
        return Some((catalog::G_SOLID, palette::H_YELLOW, 7));
    }
    let leg: Fx = 2621;
    let stand: Fx = SIGN_HALF - 3932;
    if fixed::abs(mid - stand) < leg / 2 {
        let (sh, sl) = sky;
        let l = sl.saturating_sub(3);
        return Some((catalog::G_SOLID, sh, if l > 1 { l } else { 1 }));
    }
    None
}

/// The lamps at the bottom corners of the end you are looking at: white
/// if it is the front, bright red braking, dim red otherwise.
pub open spec fn lamp_of(phase: u8) -> (GlyphId, u8, u8) {
    if phase % 2 == 1 {
        (catalog::G_SOLID, palette::H_WHITE, 7u8)
    } else if phase / 2 % 2 == 1 {
        (catalog::G_SOLID, palette::H_RED, 7u8)
    } else {
        (catalog::G_SOLID, palette::H_RED, 4u8)
    }
}

/// A wheel in its arch, at `mid` from the middle of the card and `v` down
/// it: black, with a lighter hub; `None` above the arch or off the wheel.
pub open spec fn wheel_of(side: bool, mid: int, v: Fx) -> Option<(GlyphId, u8, u8)> {
    let (near, far): (int, int) = if side { (14417, 30146) } else { (17039, 28835) };
    if mid > near && mid < far {
        let hub = (near + far) / 2;
        let span = (far - near) / 2;
        let t = fx_div((mid - hub) as i32, span as i32);
        let lift = clamp_of(ONE - fx_mul(t, t), 0, ONE as int);
        let arch = 57671 - fx_mul(ARCH, lift as i32);
        if v > arch {
            let up = fx_div((57671 - v) as i32, ARCH);
            let spoke = vstd::math::abs(up - 22937) < 7864 && vstd::math::abs(t as int) < 19660;
            Some(
                if spoke {
                    (catalog::G_SOLID, palette::H_WHITE, 2u8)
                } else {
                    (catalog::G_SOLID, palette::H_BLACK, 0u8)
                },
            )
        } else {
            None
        }
    } else {
        None
    }
}

/// The body panel below the glass: darkening towards the sills, turning
/// towards or away from the key light across the card, and dented on a
/// wreck.
pub open spec fn panel_of(body: Body, u: Fx, v: Fx, half: Fx, hue: u8, key: Fx) -> (GlyphId, u8, u8) {
    let waist = waist_spec(body);
    let down = clamp_of(fx_div((v - waist) as i32, (ONE - waist) as i32) as int, 0, ONE as int);
    let shade = 6 - clamp_of(fx_floor(fx_mul(down as i32, 131072)), 0, 2);
    let turn = clamp_of(fx_div((u - HALF) as i32, half) as int, -ONE, ONE as int);
    let lit = fx_mul(turn as i32, key);
    let luma = shade + fx_floor((fx_mul(lit, 98304) + HALF) as i32);
    let dented = body == Body::Wreck && fx_floor(fx_mul((u + v) as i32, 589824)) % 2 == 0;
    let luma = if dented { luma - 2 } else { luma };
    (catalog::G_SOLID, hue, clamp_of(luma, 1, 7) as u8)
}

/// The glass, in the sky's hue, brighter at the top where more of the sky
/// is in it.
pub open spec fn glass_of(v: Fx, roof: Fx, waist: Fx, sky: (u8, u8)) -> (GlyphId, u8, u8) {
    let (sh, sl) = sky;
    let t = clamp_of(fx_div((v - roof) as i32, (waist - roof) as i32) as int, 0, ONE as int);
    let up = if sl as int + 1 > 255 { 255 } else { sl as int + 1 };
    let dim = fx_floor(fx_mul(t as i32, ONE));
    let luma = if up - dim < 0 { 0 } else { up - dim };
    (catalog::G_SOLID, sh, clamp_of(luma, 1, 7) as u8)
}

/// Everything on a body below its top edge: the rim at a grazing edge,
/// the roof, the glass, the chequer band and the panels.
pub open spec fn finish_of(
    body: Body,
    side: bool,
    u: Fx,
    v: Fx,
    hue: u8,
    sky: (u8, u8),
    key: Fx,
    towards_seam: bool,
    half: Fx,
    top: Fx,
    along_u: Fx,
) -> (GlyphId, u8, u8) {
    let mid = vstd::math::abs(u - HALF);
    let waist = waist_spec(body);
    let roof = fx_mul(waist, 22937);
    let edge = if towards_seam { 0i32 } else { fx_div(mid as i32, half) };
    let above = v - (if top > 0 { top } else { 0 });
    if edge > RIM {
        rim_of(edge, u, key, sky)
    } else if above < RIM_TOP {
        let t = clamp_of(ONE - fx_div(above as i32, RIM_TOP), 0, ONE as int);
        rim_of(lerp_of(RIM as int, ONE as int, t) as i32, u, key, sky)
    } else if v < roof {
        (catalog::G_SOLID, hue, 6u8)
    } else if (!side || (top <= 0 && flank_glass_of(body, along_u, 3932))) && v < waist && mid < half - 3932 {
        glass_of(v, roof, waist, sky)
    } else if body == Body::Taxi && side && v > 36044 && v < 45875 {
        let white = fx_floor(fx_mul(u, 655360)) % 2 == 0;
        (
            catalog::G_SOLID,
            if white { palette::H_WHITE } else { palette::H_BLACK },
            if white { 7u8 } else { 0u8 },
        )
    } else {
        panel_of(body, u, v, half, hue, key)
    }
}

/// The paint of a body face at `(u, v)`, below the cab's sign band.
pub open spec fn body_paint_of(
    body: Body,
    side: bool,
    u: Fx,
    v: Fx,
    hue: u8,
    phase: u8,
    sky: (u8, u8),
    key: Fx,
    seam: i8,
    nose_left: bool,
) -> Option<(GlyphId, u8, u8)> {
    let mid = vstd::math::abs(u - HALF);
    let half = body_half_of(body, side, v);
    let towards_seam = (seam > 0 && u > HALF) || (seam < 0 && u < HALF);
    let along_u = if nose_left { u } else { (ONE - u) as i32 };
    let top = if side { flank_top_of(body, along_u) } else { 0 };
    if !side && v > 45875 && v < BUMPER && mid <= half && mid > half - 10485 {
        Some(lamp_of(phase))
    } else if wheel_of(side, mid as int, v) is Some {
        wheel_of(side, mid as int, v)
    } else if v > 57671 || (mid > half && !towards_seam) {
        None
    } else if v < top {
        None
    } else {
        Some(finish_of(body, side, u, v, hue, sky, key, towards_seam, half, top, along_u))
    }
}

/// The value of [`paint_face_at`].
pub open spec fn paint_face_at_of(
    body: Body,
    side: bool,
    u: Fx,
    v: Fx,
    hue: u8,
    phase: u8,
    sky: (u8, u8),
    key: Fx,
    rows: i32,
    cols: i32,
    seam: i8,
    nose_left: bool,
) -> Option<(GlyphId, u8, u8)> {
    if body == Body::Taxi && roof_sign_of(u, v, sky, rows, cols) is Some {
        roof_sign_of(u, v, sky, rows, cols)
    } else if body == Body::Taxi && v < SIGN_BAND {
        None
    } else {
        let bv = if body == Body::Taxi { fx_div((v - SIGN_BAND) as i32, 52429i32) } else { v };
        body_paint_of(body, side, u, bv, hue, phase, sky, key, seam, nose_left)
    }
}

/// Whether a point is on a card a painter can be asked about: across it
/// within a few thousand cards either way, and down it from the top.
pub open spec fn on_card(u: Fx, v: Fx) -> bool {
    &&& -0x1000_0000 <= u <= 0x1000_0000
    &&& 0 <= v <= 0x1000_0000
}

/// Paint one point of one face of a car, plus which side of this face the
/// corner of the car is on: 0 for neither, -1 for the left of the card,
/// +1 for the right.  A face with a seam runs out to it rather than ending.
pub fn paint_face_at(
    body: Body,
    side: bool,
    u: Fx,
    v: Fx,
    hue: u8,
    phase: u8,
    sky: (u8, u8),
    key: Fx,
    rows: i32,
    cols: i32,
    seam: i8,
    nose_left: bool,
) -> (r: Option<(GlyphId, u8, u8)>)
    requires
        on_card(u, v),
        -ONE <= key <= ONE,
    ensures
        r == paint_face_at_of(body, side, u, v, hue, phase, sky, key, rows, cols, seam, nose_left),
{
    if body == Body::Taxi {
        if let Some(paint) = roof_sign(u, v, sky, rows, cols) {
            return Some(paint);
        }
        if v < SIGN_BAND {
            return None;
        }
    }
    let v = if body == Body::Taxi {
        let (dv, dd) = (v - SIGN_BAND, ONE - SIGN_BAND);
        proof {
            fixed::lemma_div_bound(dv, dd, 0x1000_0000, 52429);
        }
        fixed::div(dv, dd)
    } else {
        v
    };
    proof {
        assert(0 <= v <= 0x1400_0000);
    }
    body_paint(body, side, u, v, hue, phase, sky, key, seam, nose_left)
}

/// The paint of a body face below the sign band: see [`body_paint_of`].
fn body_paint(
    body: Body,
    side: bool,
    u: Fx,
    v: Fx,
    hue: u8,
    phase: u8,
    sky: (u8, u8),
    key: Fx,
    seam: i8,
    nose_left: bool,
) -> (r: Option<(GlyphId, u8, u8)>)
    requires
        -0x1000_0000 <= u <= 0x1000_0000,
        0 <= v <= 0x1400_0000,
        -ONE <= key <= ONE,
    ensures
        r == body_paint_of(body, side, u, v, hue, phase, sky, key, seam, nose_left),
{
    let mid = fixed::abs(u - HALF);
    let ground: Fx = 57671;
    let lamps: Fx = 45875;
    let half = body_half(body, side, v);
    if !side && v > lamps && v < BUMPER && mid <= half && mid > half - 10485 {
        return Some(
            if phase % 2 == 1 {
                (catalog::G_SOLID, palette::H_WHITE, 7)
            } else if phase / 2 % 2 == 1 {
                (catalog::G_SOLID, palette::H_RED, 7)
            } else {
                (catalog::G_SOLID, palette::H_RED, 4)
            },
        );
    }
    if let Some(w) = wheel(side, mid, v) {
        return Some(w);
    }
    let towards_seam = (seam > 0 && u > HALF) || (seam < 0 && u < HALF);
    if v > ground || (mid > half && !towards_seam) {
        return None;
    }
    let along_u = if nose_left { u } else { ONE - u };
    let top = if side { flank_top(body, along_u) } else { 0 };
    if v < top {
        return None;
    }
    Some(finish(body, side, u, v, hue, sky, key, towards_seam, half, top, along_u))
}

/// A wheel in its arch: see [`wheel_of`].
fn wheel(side: bool, mid: Fx, v: Fx) -> (r: Option<(GlyphId, u8, u8)>)
    requires
        0 <= v <= 0x1400_0000,
    ensures
        r == wheel_of(side, mid as int, v),
{
    let (near, far): (Fx, Fx) = if side { (14417, 30146) } else { (17039, 28835) };
    if mid > near && mid < far {
        let hub = (near + far) / 2;
        let span = (far - near) / 2;
        let sp = if span > 1 { span } else { 1 };
        let dm = mid - hub;
        proof {
            assert(sp as int * 65536 / sp as int == 65536) by (nonlinear_arith)
                requires
                    sp > 0,
            ;
            fixed::lemma_div_bound(dm, sp, sp as int, sp as int);
        }
        let t = fixed::div(dm, sp);
        proof {
            fixed::lemma_mul_bound(t, t, 65536, 65536);
        }
        let lift = fixed::clamp(ONE - fixed::mul(t, t), 0, ONE);
        proof {
            fixed::lemma_mul_fraction(ARCH, lift);
        }
        let arch = ground_line() - fixed::mul(ARCH, lift);
        if v > arch {
            let gv = ground_line() - v;
            proof {
                fixed::lemma_div_bound(gv, ARCH, 0x1401_0000, 13107);
            }
            let up = fixed::div(gv, if ARCH > 1 { ARCH } else { 1 });
            let spoke = fixed::abs(up - 22937) < 7864 && fixed::abs(t) < 19660;
            return Some(
                if spoke {
                    (catalog::G_SOLID, palette::H_WHITE, 2)
                } else {
                    (catalog::G_SOLID, palette::H_BLACK, 0)
                },
            );
        }
    }
    None
}

/// Where the wheels stand, down the card: `0.88`.
fn ground_line() -> (g: Fx)
    ensures
        g == 57671,
{
    57671
}

/// Everything below a body's top edge: see [`finish_of`].
fn finish(
    body: Body,
    side: bool,
    u: Fx,
    v: Fx,
    hue: u8,
    sky: (u8, u8),
    key: Fx,
    towards_seam: bool,
    half: Fx,
    top: Fx,
    along_u: Fx,
) -> (r: (GlyphId, u8, u8))
    requires
        -0x1000_0000 <= u <= 0x1000_0000,
        0 <= v <= 0x1400_0000,
        -ONE <= key <= ONE,
        19660 <= half <= 32768,
        0 <= top <= ONE,
        v >= top,
        -0x1000_0000 <= along_u <= 0x1001_0000,
    ensures
        r == finish_of(body, side, u, v, hue, sky, key, towards_seam, half, top, along_u),
{
    let mid = fixed::abs(u - HALF);
    let waist = waist_of(body, side);
    proof {
        fixed::lemma_mul_fraction(waist, 22937);
    }
    let roof = fixed::mul(waist, 22937);
    let hm = if half > 1 { half } else { 1 };
    proof {
        fixed::lemma_div_bound(mid, hm, 0x1001_0000, 19660);
    }
    let edge = if towards_seam { 0 } else { fixed::div(mid, hm) };
    if edge > RIM {
        return rim(edge, u, key, sky);
    }
    let above = v - (if top > 0 { top } else { 0 });
    if above < RIM_TOP {
        proof {
            fixed::lemma_div_bound(above, RIM_TOP, RIM_TOP as int, RIM_TOP as int);
        }
        let t = fixed::clamp(ONE - fixed::div(above, RIM_TOP), 0, ONE);
        proof {
            fixed::lemma_lerp_between(RIM as int, ONE as int, t as int);
        }
        return rim(fixed::lerp(RIM, ONE, t), u, key, sky);
    }
    if v < roof {
        return (catalog::G_SOLID, hue, 6);
    }
    let pillar: Fx = 3932;
    let glassy = !side || (top <= 0 && flank_glass(body, along_u, pillar));
    if glassy && v < waist && mid < half - pillar {
        let (sh, sl) = sky;
        let span = if waist - roof > 1 { waist - roof } else { 1 };
        let t = fixed::clamp(fixed::div(v - roof, span), 0, ONE);
        proof {
            fixed::lemma_mul_fraction(t, ONE);
        }
        let dim = fixed::floor(fixed::mul(t, ONE)) as u8;
        let luma = sl.saturating_add(1).saturating_sub(dim);
        return (catalog::G_SOLID, sh, if luma < 1 { 1 } else if luma > 7 { 7 } else { luma });
    }
    if body == Body::Taxi && side {
        if v > 36044 && v < 45875 {
            let square = fixed::floor(fixed::mul(u, fixed::from_int(10)));
            let white = square % 2 == 0;
            return (
                catalog::G_SOLID,
                if white { palette::H_WHITE } else { palette::H_BLACK },
                if white { 7 } else { 0 },
            );
        }
    }
    panel(body, u, v, half, hue, key)
}

/// The body panel below the glass: see [`panel_of`].
fn panel(body: Body, u: Fx, v: Fx, half: Fx, hue: u8, key: Fx) -> (r: (GlyphId, u8, u8))
    requires
        -0x1000_0000 <= u <= 0x1000_0000,
        0 <= v <= 0x1400_0000,
        -ONE <= key <= ONE,
        19660 <= half <= 32768,
    ensures
        r == panel_of(body, u, v, half, hue, key),
{
    let waist = waist_of(body, false);
    let down = fixed::clamp(fixed::div(v - waist, ONE - waist), 0, ONE);
    proof {
        fixed::lemma_mul_fraction(131072, down);
    }
    let d2 = fixed::floor(fixed::mul(down, fixed::from_int(2)));
    let mut luma: i32 = 6 - (if d2 < 0 { 0 } else if d2 > 2 { 2 } else { d2 });
    let turn = fixed::clamp(fixed::div(u - HALF, half), -ONE, ONE);
    proof {
        fixed::lemma_mul_bound(turn, key, 65536, 65536);
    }
    let lit = fixed::mul(turn, key);
    proof {
        fixed::lemma_mul_bound(lit, 98304, 65537, 98304);
    }
    luma = luma + fixed::floor(fixed::mul(lit, 98304) + HALF);
    let f9 = fixed::floor(fixed::mul(u + v, fixed::from_int(9)));
    proof {
        assert((f9 & 1i32) == 0 <==> f9 % 2 == 0) by (bit_vector);
    }
    let dented = body == Body::Wreck && (f9 & 1) == 0;
    if dented {
        luma = luma - 2;
    }
    (catalog::G_SOLID, hue, (if luma < 1 { 1 } else if luma > 7 { 7 } else { luma }) as u8)
}

/// Paint one point of one face of a car - the end of it, or the flank -
/// with no seam.  `side` is true for the flank; `phase` carries bit 0,
/// that you are looking at the front, and bit 1, that it is braking.
pub fn paint_face(
    body: Body,
    side: bool,
    u: Fx,
    v: Fx,
    hue: u8,
    phase: u8,
    sky: (u8, u8),
    key: Fx,
    rows: i32,
    cols: i32,
) -> (r: Option<(GlyphId, u8, u8)>)
    requires
        on_card(u, v),
        -ONE <= key <= ONE,
    ensures
        r == paint_face_at_of(body, side, u, v, hue, phase, sky, key, rows, cols, 0, true),
{
    paint_face_at(body, side, u, v, hue, phase, sky, key, rows, cols, 0, true)
}

/// A band of end or flank narrower than this is not worth a seam:
/// `0.12` of the card.
pub const SLIVER: Fx = 7864;

/// How [`paint_car`] splits the card between the end and the flank: which
/// face `u` is on, where on that face it is, and which side of that face
/// the corner of the car is.
pub open spec fn car_split(view: Aspect, u: Fx) -> (bool, Fx, i8) {
    let end = clamp_of(view.end as int, 0, ONE as int) as i32;
    let (in_end, local) = if view.end_left {
        (u < end, if u < end { fx_div(u, end) } else { fx_div((u - end) as i32, (ONE - end) as i32) })
    } else {
        let seam = (ONE - end) as i32;
        (u >= seam, if u >= seam { fx_div((u - seam) as i32, end) } else { fx_div(u, seam) })
    };
    let seam: i8 = if view.end_left == in_end { 1i8 } else { -1i8 };
    (in_end, clamp_of(local as int, 0, ONE as int) as i32, seam)
}

/// The value of [`paint_car`].
pub open spec fn paint_car_of(
    body: Body,
    view: Aspect,
    u: Fx,
    v: Fx,
    hue: u8,
    phase: u8,
    sky: (u8, u8),
    key: Fx,
    rows: i32,
    cols: i32,
) -> Option<(GlyphId, u8, u8)> {
    let end = clamp_of(view.end as int, 0, ONE as int);
    if end >= ONE - SLIVER {
        paint_face_at_of(body, false, u, v, hue, phase, sky, key, rows, cols, 0, true)
    } else if end <= SLIVER {
        paint_face_at_of(body, true, u, v, hue, phase, sky, key, rows, cols, 0, true)
    } else {
        let (in_end, local, seam) = car_split(view, u);
        paint_face_at_of(body, !in_end, local, v, hue, phase, sky, key, rows, cols, seam, view.nose_left)
    }
}

/// A sliver is not drawn as a seam: a car seen all but end-on is painted
/// as its end alone, and one seen all but side-on as its flank alone, each
/// with the same face a direct call of [`paint_face`] would give.
pub proof fn lemma_a_sliver_is_not_a_seam(
    body: Body,
    view: Aspect,
    u: Fx,
    v: Fx,
    hue: u8,
    phase: u8,
    sky: (u8, u8),
    key: Fx,
    rows: i32,
    cols: i32,
)
    ensures
        clamp_of(view.end as int, 0, ONE as int) >= ONE - SLIVER ==> paint_car_of(body, view, u, v, hue, phase, sky, key, rows, cols)
            == paint_face_at_of(body, false, u, v, hue, phase, sky, key, rows, cols, 0, true),
        clamp_of(view.end as int, 0, ONE as int) <= SLIVER ==> paint_car_of(body, view, u, v, hue, phase, sky, key, rows, cols)
            == paint_face_at_of(body, true, u, v, hue, phase, sky, key, rows, cols, 0, true),
{
}

/// Paint one point of a car, from wherever you happen to be standing: the
/// card is split between the end and the flank in the proportions
/// [`aspect`] gave, and each point is handed to its face with its own
/// local `u`.  The seam between them is the corner of the car.
pub fn paint_car(
    body: Body,
    view: Aspect,
    u: Fx,
    v: Fx,
    hue: u8,
    phase: u8,
    sky: (u8, u8),
    key: Fx,
    rows: i32,
    cols: i32,
) -> (r: Option<(GlyphId, u8, u8)>)
    requires
        on_card(u, v),
        -ONE <= key <= ONE,
    ensures
        r == paint_car_of(body, view, u, v, hue, phase, sky, key, rows, cols),
{
    let end = fixed::clamp(view.end, 0, ONE);
    if end >= ONE - SLIVER {
        return paint_face(body, false, u, v, hue, phase, sky, key, rows, cols);
    }
    if end <= SLIVER {
        return paint_face(body, true, u, v, hue, phase, sky, key, rows, cols);
    }
    let (in_end, local) = if view.end_left {
        (u < end, if u < end { fixed::div(u, end) } else { fixed::div(u - end, ONE - end) })
    } else {
        let seam = ONE - end;
        (u >= seam, if u >= seam { fixed::div(u - seam, end) } else { fixed::div(u, seam) })
    };
    let seam: i8 = if view.end_left == in_end { 1 } else { -1 };
    paint_face_at(
        body,
        !in_end,
        fixed::clamp(local, 0, ONE),
        v,
        hue,
        phase,
        sky,
        key,
        rows,
        cols,
        seam,
        view.nose_left,
    )
}

/// One billboard in the world.
#[derive(Clone, Copy, Debug)]
pub struct Billboard {
    /// Position.
    pub x: Fx,
    /// Position.
    pub y: Fx,
    /// Height of the bottom of the card above the pavement.
    pub base: Fx,
    /// Width of the card, in world units.
    pub w: Fx,
    /// Height of the card, in world units.
    pub h: Fx,
    /// What it is a picture of.
    pub stamp: Stamp,
    /// Hue, where the stamp does not insist on its own.
    pub hue: u8,
    /// Animation phase - the spin of a coin, the stride of a walker.
    pub phase: u8,
    /// How far over it has been knocked, 0 upright to 8 flat.
    pub lean: u8,
    /// Which way round a vehicle is.  Ignored by everything else.
    pub view: Aspect,
}

impl Billboard {
    /// An upright thing on the pavement.
    pub fn upright(stamp: Stamp, x: Fx, y: Fx, w: Fx, h: Fx, hue: u8) -> (b: Billboard)
        ensures
            b == (Billboard { x, y, base: 0, w, h, stamp, hue, phase: 0, lean: 0, view: end_on_aspect() }),
    {
        Billboard { x, y, base: 0, w, h, stamp, hue, phase: 0, lean: 0, view: Aspect::end_on() }
    }
}

/// The value of [`key_light`].
pub open spec fn key_light_of(a: Atmos, cam: Camera) -> Fx {
    let s = sun_az_of(a);
    let (sx, sy) = (cos_of(s), sin_of(s));
    let (dx, dy) = (cos_of(cam.yaw), sin_of(cam.yaw));
    clamp_of(fx_mul(sx, (-dy) as i32) + fx_mul(sy, dx), -ONE, ONE as int) as i32
}

/// Where the sun is, across the view, from -1 (hard left) to +1 (hard
/// right): the sun's bearing along the camera's right-hand axis.
pub fn key_light(atmos: &Atmos, cam: &Camera) -> (k: Fx)
    requires
        day_fits(atmos.day),
    ensures
        k == key_light_of(*atmos, *cam),
        -ONE <= k <= ONE,
{
    let a = atmos.sun_az();
    proof {
        trig::lemma_table_bounds(a);
        trig::lemma_table_bounds(cam.yaw);
    }
    let (sx, sy) = (trig::cos(a), trig::sin(a));
    let (dx, dy) = cam.dir();
    let (rx, ry) = (-dy, dx);
    proof {
        fixed::lemma_mul_bound(sx, rx, 65536, 65536);
        fixed::lemma_mul_bound(sy, ry, 65536, 65536);
    }
    fixed::clamp(fixed::mul(sx, rx) + fixed::mul(sy, ry), -ONE, ONE)
}

/// Where a billboard lands on the screen: its depth, the column of its
/// centre, its half-width in columns, its height in rows, and the rows of
/// its foot and its top.
pub struct Card {
    /// The camera-space determinant; zero for a degenerate camera.
    pub det: int,
    /// Sideways distance in camera space.
    pub tx: int,
    /// Perpendicular distance in camera space.
    pub ty: int,
    /// The column of the centre.
    pub cx: int,
    /// Half the width, in columns.
    pub half_w: int,
    /// The height, in rows.
    pub rows: int,
    /// The row below the foot of the card.
    pub foot: int,
    /// The top row.
    pub top: int,
}

/// The billboard taken into camera space: `(det, tx, ty)`.
pub open spec fn camera_space(cam: Camera, bx: Fx, by: Fx) -> (int, int, int) {
    let (dx, dy) = (cos_of(cam.yaw), sin_of(cam.yaw));
    let (px, py) = (fx_mul((-dy) as i32, cam.fov), fx_mul(dx, cam.fov));
    let (rx, ry) = ((bx - cam.x) as i32, (by - cam.y) as i32);
    let det = (fx_mul(px, dy) - fx_mul(dx, py)) as i32;
    (
        det as int,
        fx_div((fx_mul(dy, rx) - fx_mul(dx, ry)) as i32, det) as int,
        fx_div((fx_mul(px, ry) - fx_mul(py, rx)) as i32, det) as int,
    )
}

/// Where a billboard lands on the screen.
pub open spec fn card_of(cam: Camera, p: Proj, b: Billboard) -> Card {
    let (det, tx, ty) = camera_space(cam, b.x, b.y);
    let centre = fx_mul(from_int_spec(trunc_half(p.w)), (ONE + fx_div(tx as i32, ty as i32)) as i32);
    let hw = fx_floor(fx_div(fx_mul(fx_mul(b.w, p.proj), from_int_spec(CELL_ASPECT as int)), fx_mul(ty as i32, from_int_spec(2))));
    let rows = fx_floor(fx_div(fx_mul(b.h, p.proj), ty as i32));
    let foot = p.horizon + fx_floor(fx_div(fx_mul((p.eye - b.base) as i32, p.proj), ty as i32));
    let rows = if rows > 0 { rows } else { 0 };
    Card {
        det,
        tx,
        ty,
        cx: fx_floor(centre),
        half_w: if hw > 0 { hw } else { 0 },
        rows,
        foot,
        top: foot - rows,
    }
}

/// `i` in fixed point, wrapping as a shift does.
pub open spec fn from_int_spec(i: int) -> Fx {
    fixed::from_int_of(i)
}

/// Half of `w`, rounding towards zero.
pub open spec fn trunc_half(w: i32) -> int {
    fixed::trunc_div(w as int, 2)
}

/// Whether a billboard is drawn at all: in front of the camera by at
/// least an eighth, no further than the haze lets anything be seen, and
/// at least a row and a column in size.
pub open spec fn card_shown(c: Card, haze: u8) -> bool {
    &&& c.det != 0
    &&& c.ty >= 8192
    &&& c.ty <= draw_distance_of(haze) * 65536
    &&& c.rows != 0
    &&& c.half_w != 0
}

/// How far a row of the card leans over, in columns: a knocked-over thing
/// pivots about its foot.
pub open spec fn lean_of(b: Billboard, c: Card, sy: int) -> int {
    let v = clamp_of((sy - c.top) * 8 / (if c.rows > 1 { c.rows } else { 1 }), 0, 7);
    (b.lean * (7 - v) * c.half_w) / 8
}

/// Whether screen cell `(sx, sy)` is inside a shown card.
pub open spec fn card_covers(c: Card, p: Proj, b: Billboard, sx: int, sy: int) -> bool {
    let left = c.cx - c.half_w + lean_of(b, c, sy);
    let right = c.cx + c.half_w + lean_of(b, c, sy);
    &&& (if c.top > 0 { c.top } else { 0 }) <= sy
    &&& sy <= (if c.foot - 1 < p.h - 1 { c.foot - 1 } else { p.h - 1 })
    &&& (if left > 0 { left } else { 0 }) <= sx
    &&& sx <= (if right < p.w - 1 { right } else { p.w - 1 })
}

/// The character of a stamp's art at row `v`, column `u`; a space past
/// the end of the row.
pub open spec fn art_char(s: Stamp, v: int, u: int) -> char {
    if u < art_of(s)[v]@.len() {
        art_of(s)[v]@[u]
    } else {
        ' '
    }
}

/// What a card paints at screen cell `(sx, sy)`, before the depth test:
/// a vehicle is painted by [`paint_car_of`] at the card's resolution, and
/// anything else samples its eight-by-eight art.
pub open spec fn card_paint(b: Billboard, c: Card, sky: (u8, u8), key: Fx, sx: int, sy: int) -> Option<(GlyphId, u8, u8)> {
    let rows1 = if c.rows > 1 { c.rows } else { 1 };
    let v = clamp_of((sy - c.top) * 8 / rows1, 0, 7);
    let vf = fx_div((from_int_spec(sy - c.top) + HALF) as i32, from_int_spec(rows1));
    let left = c.cx - c.half_w + lean_of(b, c, sy);
    let span1 = if 2 * c.half_w > 1 { 2 * c.half_w } else { 1 };
    match body_of(b.stamp) {
        Some(body) => {
            let uf = fx_div((from_int_spec(sx - left) + HALF) as i32, from_int_spec(span1));
            paint_car_of(body, b.view, uf, vf, b.hue, b.phase, sky, key, c.rows as i32, (2 * c.half_w) as i32)
        },
        None => {
            let u = clamp_of((sx - left) * 8 / span1, 0, 7);
            glyph_for_of(art_char(b.stamp, v, u), b.hue, b.phase)
        },
    }
}

/// Whether [`draw`] paints screen cell `(sx, sy)`: the card is shown and
/// covers it, no wall in that column is nearer, and the card is not
/// transparent there.
pub open spec fn draws_at(cam: Camera, a: Atmos, p: Proj, b: Billboard, depth: Seq<Fx>, sx: int, sy: int) -> bool {
    let c = card_of(cam, p, b);
    &&& card_shown(c, a.haze)
    &&& card_covers(c, p, b, sx, sy)
    &&& 0 <= sx < depth.len()
    &&& depth[sx] >= c.ty
    &&& card_paint(b, c, sky_colour_of(a), key_light_of(a, cam), sx, sy) is Some
}

/// The cell [`draw`] leaves where it paints: the card's glyph, its hue
/// with the haze's fade taken off its luminance.
pub open spec fn drawn_cel(cam: Camera, a: Atmos, p: Proj, b: Billboard, sx: int, sy: int) -> Cel {
    let c = card_of(cam, p, b);
    let (g, hue, luma) = card_paint(b, c, sky_colour_of(a), key_light_of(a, cam), sx, sy)->0;
    let f = a.fade_of(c.ty as i32);
    Cel { glyph: g, color: palette::pack(hue, if luma >= f { (luma - f) as u8 } else { 0 }) }
}

/// Whether [`draw`]'s arithmetic fits in 32 bits: the billboard is within
/// five hundred cells of the camera, the lens is no wider than the twenty
/// cells a field of view is ever clamped to, and a shown card is narrower
/// than the number of columns a fixed-point coordinate can count.
pub open spec fn draw_fits(cam: Camera, p: Proj, b: Billboard, haze: u8) -> bool {
    let c = card_of(cam, p, b);
    &&& -0x0200_0000 <= b.x - cam.x <= 0x0200_0000
    &&& -0x0200_0000 <= b.y - cam.y <= 0x0200_0000
    &&& -0x0014_0000 <= cam.fov <= 0x0014_0000
    &&& i32::MIN <= p.eye - b.base <= i32::MAX
    &&& -0x4000_0000 <= p.horizon <= 0x4000_0000
    &&& p.w > i32::MIN
    &&& p.h > i32::MIN
    &&& (c.det != 0 && c.ty >= 8192) ==> i32::MIN <= ONE + fx_div(c.tx as i32, c.ty as i32) <= i32::MAX
    &&& card_shown(c, haze) ==> 2 * c.half_w <= 32767
}

/// A point of a card, as a fraction of it: at most half again the card's
/// size past its far edge.
proof fn lemma_card_fraction(num: int, den: int)
    requires
        0 < den,
        0 <= num <= den + 32768,
        den >= 65536,
    ensures
        0 <= (num * 65536) / den <= 2 * 65536,
{
    assert((num * 65536) / den <= 2 * 65536) by (nonlinear_arith)
        requires
            0 < den,
            0 <= num <= den + 32768,
            den >= 65536,
    ;
    assert(0 <= (num * 65536) / den) by (nonlinear_arith)
        requires
            0 < den,
            0 <= num,
    ;
}

/// What a card paints at one screen cell: see [`card_paint`].
fn card_point(
    b: &Billboard,
    art: &[&'static str; 8],
    painted: Option<Body>,
    sky: (u8, u8),
    key: Fx,
    c: Ghost<Card>,
    rows: i32,
    half_w: i32,
    sy: i32,
    v: i32,
    vf: Fx,
    left: i32,
    span1: i32,
    sx: i32,
) -> (r: Option<(GlyphId, u8, u8)>)
    requires
        painted == body_of(b.stamp),
        *art == art_of(b.stamp),
        -ONE <= key <= ONE,
        rows == c@.rows,
        half_w == c@.half_w,
        0 < half_w,
        2 * half_w <= 32767,
        v == clamp_of((sy - c@.top) * 8 / (if c@.rows > 1 { c@.rows } else { 1 }), 0, 7),
        vf == fx_div((from_int_spec(sy - c@.top) + HALF) as i32, from_int_spec(if c@.rows > 1 { c@.rows } else { 1 })),
        0 <= vf <= 2 * 65536,
        left == c@.cx - c@.half_w + lean_of(*b, c@, sy as int),
        span1 == (if 2 * half_w > 1 { 2 * half_w } else { 1 }),
        left <= sx <= left + 2 * half_w,
    ensures
        r == card_paint(*b, c@, sky, key, sx as int, sy as int),
{
    match painted {
        Some(body) => {
            let span = fixed::from_int(span1);
            proof {
                lemma_card_fraction((sx - left) as int * 65536 + 32768, span as int);
            }
            let uf = fixed::div(fixed::from_int(sx - left) + HALF, span);
            paint_car(body, b.view, uf, vf, b.hue, b.phase, sky, key, rows, 2 * half_w)
        },
        None => {
            let u0 = (sx - left) * 8 / span1;
            let u = if u0 < 0 { 0 } else if u0 > 7 { 7 } else { u0 };
            let row = art[v as usize];
            let ch = if (u as usize) < row.unicode_len() { row.get_char(u as usize) } else { ' ' };
            glyph_for(ch, b.hue, b.phase)
        },
    }
}

/// Draw one billboard: project it, and paint every cell of the card that
/// is on the screen, not behind a nearer wall, and not transparent.
/// Returns whether anything was painted.
#[verifier::rlimit(60)]
pub fn draw(f: &mut Frame, depth: &[Fx], cam: &Camera, atmos: &Atmos, p: &Proj, b: &Billboard) -> (drawn: bool)
    requires
        old(f).wf(),
        day_fits(atmos.day),
        draw_fits(*cam, *p, *b, atmos.haze),
    ensures
        final(f).wf(),
        final(f).w == old(f).w && final(f).h == old(f).h,
        forall|x: int, y: int| #[trigger] final(f).cell(x, y) == if on_screen(old(f).w as int, old(f).h as int, x, y)
            && draws_at(*cam, *atmos, *p, *b, depth@, x, y) {
            drawn_cel(*cam, *atmos, *p, *b, x, y)
        } else {
            old(f).cell(x, y)
        },
        drawn == exists|x: int, y: int| draws_at(*cam, *atmos, *p, *b, depth@, x, y),
{
    let ghost c = card_of(*cam, *p, *b);
    let ghost f0 = *f;
    proof {
        trig::lemma_table_bounds(cam.yaw);
    }
    let (dx, dy) = cam.dir();
    let (px, py) = cam.plane();
    let key = key_light(atmos, cam);
    let (rx, ry) = (b.x - cam.x, b.y - cam.y);
    proof {
        fixed::lemma_mul_bound((-dy) as i32, cam.fov, 65536, 0x0014_0000);
        fixed::lemma_mul_bound(dx, cam.fov, 65536, 0x0014_0000);
        fixed::lemma_mul_bound(px, dy, 0x0014_0001, 65536);
        fixed::lemma_mul_bound(dx, py, 65536, 0x0014_0001);
        fixed::lemma_mul_bound(dy, rx, 65536, 0x0200_0000);
        fixed::lemma_mul_bound(dx, ry, 65536, 0x0200_0000);
        fixed::lemma_mul_bound(px, ry, 0x0014_0001, 0x0200_0000);
        fixed::lemma_mul_bound(py, rx, 0x0014_0001, 0x0200_0000);
    }
    let det = fixed::mul(px, dy) - fixed::mul(dx, py);
    assert(det == c.det);
    if det == 0 {
        return false;
    }
    let tx = fixed::div(fixed::mul(dy, rx) - fixed::mul(dx, ry), det);
    let ty = fixed::div(fixed::mul(px, ry) - fixed::mul(py, rx), det);
    assert(tx == c.tx && ty == c.ty);
    if ty < 8192 {
        return false;
    }
    if ty > fixed::from_int(crate::atmos::draw_distance(atmos.haze)) {
        return false;
    }
    let centre = fixed::mul(fixed::from_int(p.w / 2), ONE + fixed::div(tx, ty));
    let cx = fixed::floor(centre);
    let hw0 = fixed::floor(
        fixed::div(fixed::mul(fixed::mul(b.w, p.proj), fixed::from_int(CELL_ASPECT)), fixed::mul(ty, fixed::from_int(2))),
    );
    let half_w = if hw0 > 0 { hw0 } else { 0 };
    let r0 = fixed::floor(fixed::div(fixed::mul(b.h, p.proj), ty));
    let rows = if r0 > 0 { r0 } else { 0 };
    let foot = p.horizon + fixed::floor(fixed::div(fixed::mul(p.eye - b.base, p.proj), ty));
    assert(cx == c.cx && half_w == c.half_w && rows == c.rows && foot == c.foot);
    if rows == 0 || half_w == 0 {
        return false;
    }
    let top = foot - rows;
    assert(card_shown(c, atmos.haze));
    let shear = b.lean as i32;
    let mut drawn = false;
    let art = b.stamp.art();
    let painted = Body::of(b.stamp);
    let sky = atmos.sky_colour();
    let rows1 = if rows > 1 { rows } else { 1 };
    let sy0 = if top > 0 { top } else { 0 };
    let sy1 = if foot - 1 < p.h - 1 { foot - 1 } else { p.h - 1 };
    let mut sy = sy0;
    while sy <= sy1
        invariant
            f.wf(),
            f.w == f0.w && f.h == f0.h,
            c == card_of(*cam, *p, *b),
            draw_fits(*cam, *p, *b, atmos.haze),
            card_shown(c, atmos.haze),
            2 * c.half_w <= 32767,
            cx == c.cx && half_w == c.half_w && rows == c.rows && foot == c.foot && top == c.top && ty == c.ty,
            rows1 == (if rows > 1 { rows } else { 1 }),
            -32768 <= cx <= 32767,
            0 < rows <= 32767,
            key == key_light_of(*atmos, *cam),
            -ONE <= key <= ONE,
            sky == sky_colour_of(*atmos),
            painted == body_of(b.stamp),
            *art == art_of(b.stamp),
            shear == b.lean,
            sy0 == (if top > 0 { top } else { 0 }),
            sy1 == (if foot - 1 < p.h - 1 { foot - 1 } else { p.h - 1 }),
            sy1 < i32::MAX,
            sy0 <= sy,
            sy <= sy1 + 1 || sy == sy0,
            forall|i: int, j: int| #[trigger] f.cell(i, j) == if on_screen(f0.w as int, f0.h as int, i, j)
                && draws_at(*cam, *atmos, *p, *b, depth@, i, j) && j < sy {
                drawn_cel(*cam, *atmos, *p, *b, i, j)
            } else {
                f0.cell(i, j)
            },
            drawn == exists|i: int, j: int| #[trigger] draws_at(*cam, *atmos, *p, *b, depth@, i, j) && j < sy,
        decreases sy1 + 1 - sy,
    {
        let v0 = (sy - top) * 8 / rows1;
        let v = if v0 < 0 { 0 } else if v0 > 7 { 7 } else { v0 };
        let vf = fixed::div(fixed::from_int(sy - top) + HALF, fixed::from_int(rows1));
        proof {
            lemma_card_fraction((sy - top) as int * 65536 + 32768, rows1 as int * 65536);
            assert(0 <= shear * (7 - v) <= 255 * 7) by (nonlinear_arith)
                requires
                    0 <= shear <= 255,
                    0 <= 7 - v <= 7,
            ;
            assert(0 <= (shear * (7 - v)) * half_w <= 255 * 7 * 16383) by (nonlinear_arith)
                requires
                    0 <= shear * (7 - v) <= 255 * 7,
                    0 <= half_w <= 16383,
            ;
        }
        let lean_px = shear * (7 - v) * half_w / 8;
        let left = cx - half_w + lean_px;
        let span1 = if 2 * half_w > 1 { 2 * half_w } else { 1 };
        let right0 = cx + half_w + lean_px;
        let sx0 = if left > 0 { left } else { 0 };
        let sx1 = if right0 < p.w - 1 { right0 } else { p.w - 1 };
        let mut sx = sx0;
        while sx <= sx1
            invariant
                f.wf(),
                f.w == f0.w && f.h == f0.h,
                c == card_of(*cam, *p, *b),
                draw_fits(*cam, *p, *b, atmos.haze),
                card_shown(c, atmos.haze),
                2 * c.half_w <= 32767,
                cx == c.cx && half_w == c.half_w && rows == c.rows && foot == c.foot && top == c.top && ty == c.ty,
                rows1 == (if rows > 1 { rows } else { 1 }),
                -32768 <= cx <= 32767,
                0 < rows <= 32767,
                key == key_light_of(*atmos, *cam),
                -ONE <= key <= ONE,
                sky == sky_colour_of(*atmos),
                painted == body_of(b.stamp),
                *art == art_of(b.stamp),
                shear == b.lean,
                sy0 == (if top > 0 { top } else { 0 }),
                sy1 == (if foot - 1 < p.h - 1 { foot - 1 } else { p.h - 1 }),
                sy0 <= sy <= sy1,
                sy1 < i32::MAX,
                v == clamp_of((sy - top) * 8 / rows1 as int, 0, 7),
                vf == fx_div((from_int_spec(sy - top) + HALF) as i32, from_int_spec(rows1 as int)),
                0 <= vf <= 2 * 65536,
                lean_px == lean_of(*b, c, sy as int),
                left == c.cx - c.half_w + lean_of(*b, c, sy as int),
                right0 == c.cx + c.half_w + lean_of(*b, c, sy as int),
                span1 == (if 2 * half_w > 1 { 2 * half_w } else { 1 }),
                sx0 == (if left > 0 { left as int } else { 0 }),
                sx1 == (if right0 < p.w - 1 { right0 as int } else { p.w - 1 }),
                sx1 < i32::MAX,
                sx0 <= sx,
                sx <= sx1 + 1 || sx == sx0,
                forall|i: int, j: int| #[trigger] f.cell(i, j) == if on_screen(f0.w as int, f0.h as int, i, j)
                    && draws_at(*cam, *atmos, *p, *b, depth@, i, j) && (j < sy || (j == sy && i < sx)) {
                    drawn_cel(*cam, *atmos, *p, *b, i, j)
                } else {
                    f0.cell(i, j)
                },
                drawn == exists|i: int, j: int| #[trigger] draws_at(*cam, *atmos, *p, *b, depth@, i, j) && (j < sy || (j == sy
                    && i < sx)),
            decreases sx1 + 1 - sx,
        {
            let col = sx as usize;
            let ghost here = draws_at(*cam, *atmos, *p, *b, depth@, sx as int, sy as int);
            if col < depth.len() && depth[col] >= ty {
                let paint = card_point(b, art, painted, sky, key, Ghost(c), rows, half_w, sy, v, vf, left, span1, sx);
                assert(paint == card_paint(*b, c, sky, key, sx as int, sy as int));
                if let Some((g, hue, luma)) = paint {
                    f.put(sx, sy, Cel { glyph: g, color: atmos.shade(hue, luma, ty) });
                    drawn = true;
                    assert(draws_at(*cam, *atmos, *p, *b, depth@, sx as int, sy as int));
                } else {
                    assert(!here);
                }
            } else {
                assert(!here);
            }
            sx = sx + 1;
        }
        sy = sy + 1;
    }
    drawn
}

/// The distance [`draw_all`] sorts by: the octagonal norm of the
/// billboard's offset from the camera, which cannot overflow where a
/// squared distance would.
pub open spec fn depth_key(cam: Camera, b: Billboard) -> int {
    let (a, c) = (vstd::math::abs(b.x - cam.x) as int, vstd::math::abs(b.y - cam.y) as int);
    let (hi, lo) = if a > c { (a, c) } else { (c, a) };
    hi + lo * 3 / 8
}

/// What one [`draw`] leaves in a cell that held `before`.
pub open spec fn draw_cell(cam: Camera, a: Atmos, p: Proj, b: Billboard, depth: Seq<Fx>, w: int, h: int, before: Cel, x: int, y: int) -> Cel {
    if on_screen(w, h, x, y) && draws_at(cam, a, p, b, depth, x, y) {
        drawn_cel(cam, a, p, b, x, y)
    } else {
        before
    }
}

/// A cell of the frame after the first `k` billboards of `order` have been
/// drawn over `f0`, in that order.
pub open spec fn cell_after(
    cam: Camera,
    a: Atmos,
    p: Proj,
    boards: Seq<Billboard>,
    order: Seq<(Fx, usize)>,
    depth: Seq<Fx>,
    f0: Frame,
    k: nat,
    x: int,
    y: int,
) -> Cel
    decreases k,
{
    if k == 0 {
        f0.cell(x, y)
    } else {
        draw_cell(
            cam,
            a,
            p,
            boards[order[k - 1].1 as int],
            depth,
            f0.w as int,
            f0.h as int,
            cell_after(cam, a, p, boards, order, depth, f0, (k - 1) as nat, x, y),
            x,
            y,
        )
    }
}

/// Whether `order` lists every board exactly once, each with its
/// distance, furthest first.
pub open spec fn furthest_first(cam: Camera, boards: Seq<Billboard>, order: Seq<(Fx, usize)>) -> bool {
    &&& order.len() == boards.len()
    &&& forall|m: int| 0 <= m < order.len() ==> (#[trigger] order[m]).1 < boards.len() && order[m].0 == depth_key(cam, boards[order[m].1 as int])
    &&& forall|m1: int, m2: int| 0 <= m1 < m2 < order.len() ==> (#[trigger] order[m1]).1 != (#[trigger] order[m2]).1
    &&& forall|m1: int, m2: int| 0 <= m1 < m2 < order.len() ==> (#[trigger] order[m1]).0 >= (#[trigger] order[m2]).0
    &&& forall|j: int| 0 <= j < boards.len() ==> #[trigger] listed(order, j)
}

/// Whether board `j` appears in `order`.
pub open spec fn listed(order: Seq<(Fx, usize)>, j: int) -> bool {
    exists|m: int| 0 <= m < order.len() && (#[trigger] order[m]).1 == j
}

/// Draw a list of billboards, furthest first so nearer ones win.  `order`
/// is left holding the order they were drawn in.
pub fn draw_all(
    f: &mut Frame,
    depth: &[Fx],
    cam: &Camera,
    atmos: &Atmos,
    p: &Proj,
    boards: &mut [Billboard],
    order: &mut Vec<(Fx, usize)>,
)
    requires
        old(f).wf(),
        day_fits(atmos.day),
        forall|i: int| 0 <= i < old(boards)@.len() ==> draw_fits(*cam, *p, #[trigger] old(boards)@[i], atmos.haze),
    ensures
        final(boards)@ == old(boards)@,
        final(f).wf(),
        final(f).w == old(f).w && final(f).h == old(f).h,
        furthest_first(*cam, old(boards)@, final(order)@),
        forall|x: int, y: int| #[trigger] final(f).cell(x, y) == cell_after(
            *cam,
            *atmos,
            *p,
            old(boards)@,
            final(order)@,
            depth@,
            *old(f),
            final(order)@.len(),
            x,
            y,
        ),
{
    order.clear();
    let n = boards.len();
    let mut i: usize = 0;
    while i < n
        invariant
            n == boards@.len(),
            boards@ == old(boards)@,
            forall|k: int| 0 <= k < boards@.len() ==> draw_fits(*cam, *p, #[trigger] boards@[k], atmos.haze),
            i <= n,
            order@.len() == i,
            forall|m: int| 0 <= m < order@.len() ==> (#[trigger] order@[m]).1 < i && order@[m].0 == depth_key(*cam, boards@[order@[m].1 as int]),
            forall|m1: int, m2: int| 0 <= m1 < m2 < order@.len() ==> (#[trigger] order@[m1]).1 != (#[trigger] order@[m2]).1,
            forall|m1: int, m2: int| 0 <= m1 < m2 < order@.len() ==> (#[trigger] order@[m1]).0 >= (#[trigger] order@[m2]).0,
            forall|j: int| 0 <= j < i ==> #[trigger] listed(order@, j),
        decreases n - i,
    {
        let b = &boards[i];
        let (rx, ry) = (b.x - cam.x, b.y - cam.y);
        let (a, c) = (fixed::abs(rx), fixed::abs(ry));
        let (hi, lo) = if a > c { (a, c) } else { (c, a) };
        let key = hi + lo * 3 / 8;
        let mut pos: usize = 0;
        while pos < order.len() && order[pos].0 >= key
            invariant
                pos <= order@.len(),
                forall|m: int| 0 <= m < pos ==> (#[trigger] order@[m]).0 >= key,
            decreases order@.len() - pos,
        {
            pos = pos + 1;
        }
        let ghost before = order@;
        order.insert(pos, (key, i));
        proof {
            assert forall|j: int| 0 <= j < i + 1 implies #[trigger] listed(order@, j) by {
                if j == i {
                    assert(order@[pos as int].1 == j);
                } else {
                    assert(listed(before, j));
                    let m0 = choose|m: int| 0 <= m < before.len() && (#[trigger] before[m]).1 == j;
                    if m0 < pos {
                        assert(order@[m0].1 == j);
                    } else {
                        assert(order@[m0 + 1].1 == j);
                    }
                }
            }
            assert forall|m1: int, m2: int| 0 <= m1 < m2 < order@.len() implies (#[trigger] order@[m1]).0 >= (#[trigger] order@[m2]).0 by {
                if m2 == pos {
                } else if m1 == pos {
                    if pos < before.len() {
                        assert(before[pos as int].0 < key);
                        assert(before[pos as int].0 >= before[m2 - 1].0);
                    }
                }
            }
        }
        i = i + 1;
    }
    let ghost f0 = *f;
    let mut m: usize = 0;
    while m < order.len()
        invariant
            furthest_first(*cam, boards@, order@),
            boards@ == old(boards)@,
            forall|k: int| 0 <= k < boards@.len() ==> draw_fits(*cam, *p, #[trigger] boards@[k], atmos.haze),
            f0 == *old(f),
            day_fits(atmos.day),
            f.wf(),
            f.w == f0.w && f.h == f0.h,
            m <= order@.len(),
            forall|x: int, y: int| #[trigger] f.cell(x, y) == cell_after(*cam, *atmos, *p, boards@, order@, depth@, f0, m as nat, x, y),
        decreases order@.len() - m,
    {
        let k = order[m].1;
        let ghost g = *f;
        draw(f, depth, cam, atmos, p, &boards[k]);
        proof {
            assert forall|x: int, y: int| #[trigger] f.cell(x, y) == cell_after(*cam, *atmos, *p, boards@, order@, depth@, f0, (m + 1) as nat, x, y) by {
                assert(g.cell(x, y) == cell_after(*cam, *atmos, *p, boards@, order@, depth@, f0, m as nat, x, y));
            }
        }
        m = m + 1;
    }
}

} // verus!
