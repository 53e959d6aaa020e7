//! Weather and sky: rain, the moon, stars, and the haze that eats distance.
//!
//! All four are cheap on purpose.  Rain is a glyph family and a scrolling
//! hash; stars are a hash of the direction you are facing, so they stay put
//! as you turn; the moon is four glyphs; haze is a luminance step count.
use vstd::prelude::*;
use crate::arch::{self, Face};
use crate::camera::Camera;
use crate::catalog;
use crate::fixed::{self, Fx, ONE, clamp_of, div_of, from_int_of};
use crate::frame::{Cel, Frame};
use crate::palette::{self, rgb_index, Color};
use crate::rng::{hash3, hash3_of};
use crate::trig::{self, Ang};

verus! {

/// How many phases a day has.
pub const DAY_LEN: usize = 12;

/// What each phase of the day is called, for the status line.
pub const DAY_NAME: [&'static str; 12] = [
    "NIGHT",
    "MORNING",
    "AWAKENING",
    "SUNRISE",
    "DUST",
    "NOON",
    "AFTERNOON",
    "OVERCAST",
    "SUNSET",
    "AFTERGLOW",
    "GLOAMING",
    "DEEP NIGHT",
];

/// The hue of the whole sky in each phase: dark blue, white, light blue,
/// orange, red, yellow, blue, white, green, pink, green, blue.
pub const DAY_HUE: [u8; 12] = [14, 1, 13, 8, 2, 7, 6, 1, 5, 11, 5, 6];

/// Luminance at the zenith in each phase.
pub const DAY_TOP: [u8; 12] = [0, 2, 3, 3, 3, 5, 4, 4, 3, 2, 1, 0];

/// Luminance at the horizon in each phase, which is where the light is.
pub const DAY_BOTTOM: [u8; 12] = [2, 4, 5, 6, 5, 7, 6, 6, 5, 5, 3, 2];

/// How many shares of the day each phase lasts.  Sunrise and sunset hold
/// one share each, and the middle of one is twelve shares - half a day -
/// from the middle of the other, so the sun rises due east and sets due
/// west.
pub const DAY_HOLD: [u8; 12] = [2, 2, 2, 1, 1, 2, 6, 2, 1, 1, 1, 3];

/// The shares of a day, added up.
pub const DAY_SHARES: u32 = 24;

/// Ticks in a full cycle of the day, at one tick a frame.
pub const DAY_TICKS: u32 = 7200;

/// The fewest rows the sky gradient is ever spread over.
pub const MIN_SKY_SPAN: i32 = 12;

/// A block of the city, in cells.
pub const BLOCK_PITCH: i32 = 13;

/// One phase of the day: what colour the sky is, and how it is graded.
#[derive(Clone, Copy, Debug)]
pub struct Phase {
    /// What to call it, for the status line.
    pub name: &'static str,
    /// The hue of the whole sky in this phase.
    pub hue: u8,
    /// Luminance at the zenith.
    pub top: u8,
    /// Luminance at the horizon, which is where the light is.
    pub bottom: u8,
    /// How long this phase lasts, in shares of the day.
    pub hold: u8,
}

/// Phase `i` of the day, in the order they happen.
pub fn day(i: usize) -> (p: Phase)
    requires
        i < DAY_LEN,
    ensures
        p.name == DAY_NAME[i as int],
        p.hue == DAY_HUE[i as int],
        p.top == DAY_TOP[i as int],
        p.bottom == DAY_BOTTOM[i as int],
        p.hold == DAY_HOLD[i as int],
{
    Phase { name: DAY_NAME[i], hue: DAY_HUE[i], top: DAY_TOP[i], bottom: DAY_BOTTOM[i], hold: DAY_HOLD[i] }
}

/// The state of the sky.
#[derive(Clone, Copy, Debug)]
pub struct Atmos {
    /// Rain, 0 (dry) to 8 (torrential).
    pub rain: u8,
    /// Whether the moon is up.
    pub moon: bool,
    /// The moon's compass bearing.
    pub moon_az: Ang,
    /// The moon's height above the horizon, in screen rows.
    pub moon_alt: i32,
    /// How fast distance fades to black, 0 (clear) to 8 (soup).
    pub haze: u8,
    /// Star density, 0 to 8.
    pub stars: u8,
    /// Ticks in a full cycle of the sky.  Zero holds it at `sky_offset`.
    pub day: u32,
    /// Where in the cycle the sky starts, in ticks.
    pub sky_offset: u32,
    /// Frame counter, driving everything that moves.
    pub tick: u32,
}

impl Default for Atmos {
    /// Dry, the moon up on the shadow sweep's bearing nine rows high, a
    /// little haze, a few stars, the standard day, starting at its top.
    fn default() -> (a: Atmos)
        ensures
            a.rain == 0 && a.moon && a.moon_az == crate::shadow::DEFAULT_AZ && a.moon_alt == 9,
            a.haze == 3 && a.stars == 4 && a.day == DAY_TICKS && a.sky_offset == 0 && a.tick == 0,
    {
        Atmos {
            rain: 0,
            moon: true,
            moon_az: crate::shadow::DEFAULT_AZ,
            moon_alt: 9,
            haze: 3,
            stars: 4,
            day: DAY_TICKS,
            sky_offset: 0,
            tick: 0,
        }
    }
}

/// The value of [`draw_distance`].
pub open spec fn draw_distance_of(haze: u8) -> int {
    BLOCK_PITCH + if haze == 0 {
        200int
    } else if haze == 1 {
        150
    } else if haze == 2 {
        110
    } else if haze == 3 {
        80
    } else if haze == 4 {
        60
    } else if haze == 5 {
        45
    } else if haze == 6 {
        34
    } else if haze == 7 {
        26
    } else {
        20
    }
}

/// Distance at which everything has faded to black, in world units, as a
/// function of haze: a block further than the haze alone allows.
pub fn draw_distance(haze: u8) -> (d: i32)
    ensures
        d == draw_distance_of(haze),
        33 <= d <= 213,
{
    BLOCK_PITCH + match haze {
        0 => 200,
        1 => 150,
        2 => 110,
        3 => 80,
        4 => 60,
        5 => 45,
        6 => 34,
        7 => 26,
        _ => 20,
    }
}

/// The length of one cycle of the sky, in ticks.
pub open spec fn cycle_of(day: u32) -> u32 {
    let c = if day == 0 { DAY_TICKS } else { day };
    if c >= DAY_SHARES { c } else { DAY_SHARES }
}

/// Where in the cycle the sky is, in ticks.
pub open spec fn sky_tick(a: Atmos) -> u32 {
    let cycle = cycle_of(a.day);
    if a.day == 0 {
        a.sky_offset % cycle
    } else {
        (((a.tick + a.sky_offset) % 0x1_0000_0000) % cycle as int) as u32
    }
}

/// How many ticks phase `i` lasts in a cycle.
pub open spec fn phase_len(cycle: u32, i: int) -> int {
    cycle * DAY_HOLD[i] / DAY_SHARES as int
}

/// How many ticks the first `n` phases last, together.
pub open spec fn phases_before(cycle: u32, n: int) -> int
    decreases n,
{
    if n <= 0 { 0 } else { phases_before(cycle, n - 1) + phase_len(cycle, n - 1) }
}

/// How far through a phase of `len` ticks a point `d` ticks into it is.
pub open spec fn within_of(d: int, len: int) -> Fx {
    if len == 0 {
        0
    } else {
        clamp_of(div_of(from_int_of(d as i32 as int) as int, from_int_of(len as i32 as int) as int) as int, 0, ONE as int) as i32
    }
}

/// The phase the sky is in at tick `t` of a cycle, looking from phase `i`
/// on, and how far through it.  The last phase takes whatever is left.
pub open spec fn phase_from(cycle: u32, t: u32, i: int) -> (usize, Fx)
    decreases DAY_LEN - i,
{
    let start = phases_before(cycle, i);
    let len = phase_len(cycle, i);
    if i >= DAY_LEN - 1 || t < start + len {
        (i as usize, within_of(t - start, len))
    } else {
        phase_from(cycle, t, i + 1)
    }
}

/// Whether a cycle is short enough for its phase arithmetic to fit in 32
/// bits: a day of at most some seven hundred million ticks.
pub open spec fn day_fits(day: u32) -> bool {
    cycle_of(day) * 6 <= u32::MAX
}

/// The first `n` phases last no longer than their shares of the cycle.
proof fn lemma_prefix_bound(cycle: u32, n: int)
    requires
        0 <= n <= DAY_LEN,
    ensures
        phases_before(cycle, n) * 24 <= cycle * shares_before(n),
        0 <= phases_before(cycle, n) <= cycle,
    decreases n,
{
    if n > 0 {
        lemma_prefix_bound(cycle, n - 1);
        let h = DAY_HOLD[n - 1] as int;
        assert(phase_len(cycle, n - 1) * 24 <= cycle * h) by (nonlinear_arith)
            requires
                phase_len(cycle, n - 1) == cycle * h / 24,
                cycle >= 0,
                h >= 0,
        ;
        assert(cycle * shares_before(n - 1) + cycle * h == cycle * shares_before(n)) by (nonlinear_arith)
            requires
                shares_before(n) == shares_before(n - 1) + h,
        ;
    }
    lemma_shares_at_most_day(n);
    assert(phases_before(cycle, n) <= cycle) by (nonlinear_arith)
        requires
            phases_before(cycle, n) * 24 <= cycle * shares_before(n),
            shares_before(n) <= 24,
            cycle >= 0,
    ;
}

/// The shares of the first `n` phases are no more than the day's.
proof fn lemma_shares_at_most_day(n: int)
    requires
        0 <= n <= DAY_LEN,
    ensures
        0 <= shares_before(n) <= 24,
    decreases DAY_LEN - n,
{
    if n == DAY_LEN {
        assert(shares_before(12) == 24) by {
            reveal_with_fuel(shares_before, 13);
        }
    } else {
        lemma_shares_at_most_day(n + 1);
        assert(shares_before(n + 1) == shares_before(n) + DAY_HOLD[n]);
        lemma_shares_nonneg(n);
    }
}

proof fn lemma_shares_nonneg(n: int)
    ensures
        shares_before(n) >= 0,
    decreases n,
{
    if n > 0 {
        lemma_shares_nonneg(n - 1);
    }
}

/// How many shares the first `n` phases hold.
pub open spec fn shares_before(n: int) -> int
    decreases n,
{
    if n <= 0 { 0 } else { shares_before(n - 1) + DAY_HOLD[n - 1] }
}

impl Atmos {
    /// Advance one frame.
    pub fn step(&mut self)
        ensures
            *final(self) == (Atmos { tick: ((old(self).tick + 1) % 0x1_0000_0000) as u32, ..*old(self) }),
    {
        self.tick = self.tick.wrapping_add(1);
    }

    /// The value of [`Atmos::fade`].
    pub open spec fn fade_of(self, dist: Fx) -> u8 {
        let d = if dist as int / 65536 >= 0 { dist as int / 65536 } else { 0 };
        let full = draw_distance_of(self.haze) as int;
        clamp_of((d * 8) / full, 0, 8) as u8
    }

    /// How many luminance steps to drop at a given distance: none at the
    /// camera, all eight at the draw distance and beyond.
    pub fn fade(&self, dist: Fx) -> (f: u8)
        ensures
            f == self.fade_of(dist),
            f <= 8,
    {
        let d0 = fixed::floor(dist);
        let d = if d0 > 0 { d0 } else { 0 };
        let full = draw_distance(self.haze);
        let v = (d * 8) / (if full > 1 { full } else { 1 });
        (if v < 0 { 0 } else if v > 8 { 8 } else { v }) as u8
    }

    /// Apply the depth cue to a colour: the hue held, the luminance dropped.
    pub fn shade(&self, hue: u8, luma: u8, dist: Fx) -> (c: Color)
        ensures
            c == palette::pack(hue, if luma >= self.fade_of(dist) { (luma - self.fade_of(dist)) as u8 } else { 0 }),
    {
        let f = self.fade(dist);
        let l = luma.saturating_sub(f);
        rgb_index(hue, l)
    }

    /// Whether the ground should be wet: a little rain or more.
    pub fn wet(&self) -> (r: bool)
        ensures
            r == (self.rain >= 2),
    {
        self.rain >= 2
    }
}

/// The length of one cycle of the sky, in ticks.
fn cycle(day: u32) -> (c: u32)
    ensures
        c == cycle_of(day),
{
    let c = if day == 0 { DAY_TICKS } else { day };
    if c >= DAY_SHARES { c } else { DAY_SHARES }
}

/// The ticks of phase `i` in a cycle.
fn phase_ticks(cycle: u32, i: usize) -> (len: u32)
    requires
        i < DAY_LEN,
        cycle * 6 <= u32::MAX,
    ensures
        len == phase_len(cycle, i as int),
        len <= cycle,
{
    let h = DAY_HOLD[i] as u32;
    assert(h <= 6);
    proof {
        assert(cycle * h <= cycle * 6) by (nonlinear_arith)
            requires
                h <= 6,
        ;
        assert(cycle * h / 24 <= cycle) by (nonlinear_arith)
            requires
                h <= 6,
        ;
    }
    cycle * h / DAY_SHARES
}

/// The value of [`Atmos::sun_az`]: the bearing goes once round in a day,
/// due east at the middle of sunrise.
pub open spec fn sun_az_of(a: Atmos) -> Ang {
    let cycle = cycle_of(a.day);
    let t = sky_tick(a);
    let rise = phases_before(cycle, 3) + phase_len(cycle, 3) / 2;
    ((((t - rise) % (cycle as int)) * 65536 / (cycle as int)) as i32) as Ang
}

/// The value of [`Atmos::phase_offset`].
pub open spec fn phase_offset_of(n: u32, day: u32) -> u32 {
    let cycle = cycle_of(day);
    let k = (n % 12) as int;
    (phases_before(cycle, k) + phase_len(cycle, k) / 2) as u32
}

/// The value of [`Atmos::sky_colour`]: the phase's hue at its horizon
/// brightness, a step darker, never black.
pub open spec fn sky_colour_of(a: Atmos) -> (u8, u8) {
    let i = phase_from(cycle_of(a.day), sky_tick(a), 0).0 as int;
    let b = DAY_BOTTOM[i];
    (DAY_HUE[i], if b >= 2 { (b - 1) as u8 } else { 1u8 })
}

impl Atmos {
    /// Which phase the sky is in, and how far through it, from 0 to `ONE`.
    /// With `day` at zero the sky holds wherever `sky_offset` put it.
    pub fn phase(&self) -> (r: (usize, Fx))
        requires
            day_fits(self.day),
        ensures
            r == phase_from(cycle_of(self.day), sky_tick(*self), 0),
            r.0 < DAY_LEN,
    {
        let cycle = cycle(self.day);
        let t = if self.day == 0 {
            self.sky_offset % cycle
        } else {
            self.tick.wrapping_add(self.sky_offset) % cycle
        };
        let mut start = 0u32;
        let mut i: usize = 0;
        while i < DAY_LEN
            invariant
                cycle == cycle_of(self.day),
                cycle * 6 <= u32::MAX,
                t == sky_tick(*self),
                t < cycle,
                i < DAY_LEN,
                start == phases_before(cycle, i as int),
                start <= t,
                phase_from(cycle, t, 0) == phase_from(cycle, t, i as int),
            decreases DAY_LEN - i,
        {
            let len = phase_ticks(cycle, i);
            proof {
                lemma_prefix_bound(cycle, (i + 1) as int);
            }
            if t < start + len || i == DAY_LEN - 1 {
                let within = if len == 0 {
                    0
                } else {
                    fixed::div(fixed::from_int((t - start) as i32), fixed::from_int(len as i32))
                };
                let w = if within < 0 { 0 } else if within > ONE { ONE } else { within };
                return (i, w);
            }
            start = start + len;
            i = i + 1;
        }
        (0, 0)
    }

    /// Where the light is, as a compass bearing: one turn a day, due east
    /// (angle zero, `+x`) at the middle of sunrise and due west, half a turn
    /// later, at the middle of sunset.
    pub fn sun_az(&self) -> (a: Ang)
        requires
            day_fits(self.day),
        ensures
            a == sun_az_of(*self),
    {
        let cycle = cycle(self.day);
        let t = if self.day == 0 {
            self.sky_offset % cycle
        } else {
            self.tick.wrapping_add(self.sky_offset) % cycle
        };
        let mut rise = 0u32;
        let mut i: usize = 0;
        while i < 3
            invariant
                cycle == cycle_of(self.day),
                cycle * 6 <= u32::MAX,
                i <= 3,
                rise == phases_before(cycle, i as int),
            decreases 3 - i,
        {
            proof {
                lemma_prefix_bound(cycle, (i + 1) as int);
            }
            rise = rise + phase_ticks(cycle, i);
            i = i + 1;
        }
        proof {
            lemma_prefix_bound(cycle, 4);
        }
        rise = rise + phase_ticks(cycle, 3) / 2;
        let d = rem_euclid_i64(t as i64 - rise as i64, cycle as i64);
        proof {
            assert(d * 65536 / (cycle as int) < 65536) by (nonlinear_arith)
                requires
                    0 <= d < cycle,
            ;
            assert(d * 65536 / (cycle as int) >= 0) by (nonlinear_arith)
                requires
                    0 <= d < cycle,
            ;
        }
        let round = (d * 65536 / cycle as i64) as i32;
        round as Ang
    }

    /// The tick offset that starts the cycle half way into phase `n`.
    pub fn phase_offset(n: u32, day: u32) -> (o: u32)
        requires
            day_fits(day),
        ensures
            o == phase_offset_of(n, day),
    {
        let cycle = cycle(day);
        let n = (n as usize) % DAY_LEN;
        let mut start = 0u32;
        let mut i: usize = 0;
        while i < n
            invariant
                cycle == cycle_of(day),
                cycle * 6 <= u32::MAX,
                n < DAY_LEN,
                i <= n,
                start == phases_before(cycle, i as int),
            decreases n - i,
        {
            proof {
                lemma_prefix_bound(cycle, (i + 1) as int);
            }
            start = start + phase_ticks(cycle, i);
            i = i + 1;
        }
        proof {
            lemma_prefix_bound(cycle, (n + 1) as int);
        }
        start + phase_ticks(cycle, n) / 2
    }

    /// How much light the sky is throwing on the city, in luminance steps,
    /// read off the zenith of the current phase.
    pub fn daylight(&self) -> (d: i8)
        requires
            day_fits(self.day),
        ensures
            d == daylight_of(DAY_TOP[phase_from(cycle_of(self.day), sky_tick(*self), 0).0 as int]),
    {
        let (i, _) = self.phase();
        let top = DAY_TOP[i];
        if top <= 1 {
            0
        } else if top <= 3 {
            1
        } else {
            2
        }
    }

    /// The colour of the sky, for things that reflect it: the phase's hue
    /// at its horizon brightness, a step darker, never black.
    pub fn sky_colour(&self) -> (c: (u8, u8))
        requires
            day_fits(self.day),
        ensures
            c == sky_colour_of(*self),
    {
        let (i, _) = self.phase();
        let b = DAY_BOTTOM[i];
        let l = b.saturating_sub(1);
        (DAY_HUE[i], if l >= 1 { l } else { 1 })
    }

    /// What to call the sky right now, for the status line.
    pub fn phase_name(&self) -> (n: &'static str)
        requires
            day_fits(self.day),
        ensures
            n == DAY_NAME[phase_from(cycle_of(self.day), sky_tick(*self), 0).0 as int],
    {
        let (i, _) = self.phase();
        DAY_NAME[i]
    }
}

/// How much daylight a zenith luminance throws: none, one step or two.
pub open spec fn daylight_of(top: u8) -> i8 {
    if top <= 1 { 0 } else if top <= 3 { 1 } else { 2 }
}

/// `a` modulo a positive `m`, always in `0..m`.
fn rem_euclid_i64(a: i64, m: i64) -> (r: i64)
    requires
        m > 0,
    ensures
        r == a as int % m as int,
        0 <= r < m,
{
    if a >= 0 {
        a % m
    } else {
        let b = -(a + 1);
        let r = b % m;
        proof {
            let q = b as int / m as int;
            assert(b == q * m + r) by (nonlinear_arith)
                requires
                    q == b as int / m as int,
                    r == b as int % m as int,
                    m > 0,
            ;
            assert(a == (-(q + 1)) * m + (m - 1 - r)) by (nonlinear_arith)
                requires
                    b == q * m + r,
                    b == -(a + 1),
            ;
            vstd::arithmetic::div_mod::lemma_mod_multiples_vanish(-(q + 1), (m - 1 - r) as int, m as int);
            vstd::arithmetic::div_mod::lemma_small_mod((m - 1 - r) as nat, m as nat);
        }
        m - 1 - r
    }
}

/// How much of a cell the sky fills, for a given luminance.
pub open spec fn sky_fill_of(luma: u8) -> catalog::GlyphId {
    if luma == 0 {
        catalog::G_BLANK
    } else if luma == 1 {
        (catalog::G_HAZE + 1) as u8
    } else if luma == 2 {
        (catalog::G_HAZE + 2) as u8
    } else if luma == 3 {
        (catalog::G_HAZE + 3) as u8
    } else if luma == 4 {
        catalog::shade_of(2)
    } else if luma == 5 {
        catalog::shade_of(3)
    } else if luma == 6 {
        catalog::shade_of(4)
    } else {
        catalog::shade_of(6)
    }
}

/// How much of a cell the sky fills, for a given luminance: the two darkest
/// levels from the haze family, the rest up the dither ramp, stopping
/// short of solid.
pub fn sky_fill(luma: u8) -> (g: catalog::GlyphId)
    ensures
        g == sky_fill_of(luma),
{
    match luma {
        0 => catalog::G_BLANK,
        1 => catalog::G_HAZE + 1,
        2 => catalog::G_HAZE + 2,
        3 => catalog::G_HAZE + 3,
        4 => catalog::shade(2),
        5 => catalog::shade(3),
        6 => catalog::shade(4),
        _ => catalog::shade(6),
    }
}

/// A signed angle from a bearing difference: the `u16` read as an `i16`.
pub open spec fn signed_ang(a: int) -> int {
    let b = a % 65536;
    if b >= 32768 { b - 65536 } else { b }
}

/// How bright the sun makes the sky near it, by the horizon luminance of
/// the phase: not at all for a dark one, a step or two for a bright one.
pub open spec fn glow_strength(bottom: u8) -> int {
    if bottom <= 2 { 0 } else if bottom <= 4 { 1 } else { 2 }
}

/// How far up a sky of `span` rows the incoming colour has climbed, a
/// fraction `t` through its phase: all of it by half way.
pub open spec fn swept_of(t: Fx, span: int) -> int {
    let t2 = fixed::mul_wide(t as int, 131072) as i32;
    fixed::mul_wide(if t2 <= ONE { t2 as int } else { ONE as int }, span * 65536) as i32 as int / 65536
}

/// How far up the sky a row is, from 0 at the horizon to `ONE` at the top
/// of a `span`-row gradient.
pub open spec fn up_of(rows_above: i32, span: int) -> int {
    div_of(clamp_of(rows_above as int, 0, span) * 65536, span * 65536) as int
}

/// The gradient of phase `p`, `up` of the way from horizon to zenith.
pub open spec fn gradient_of(p: int, up: int) -> int {
    fixed::lerp_of(DAY_BOTTOM[p] * 65536, DAY_TOP[p] * 65536, up)
}

/// The sun's glow at `off` from its bearing, `up` of the way to the zenith.
pub open spec fn glow_of(strength: int, off: int, up: int) -> int {
    if strength > 0 && off < 16384 {
        let near = div_of((16384 - off) * 65536, 16384int * 65536) as int;
        fixed::mul_wide(fixed::mul_wide(strength * 65536, near) as i32 as int, ONE - up) as i32 as int
    } else {
        0
    }
}

/// The span of rows a sky of `sky_rows` spreads its gradient over.
pub open spec fn span_of(sky_rows: i32) -> int {
    if sky_rows >= MIN_SKY_SPAN { sky_rows as int } else { MIN_SKY_SPAN as int }
}

/// Which phase's colours a sky row shows: the current phase up to where it
/// has climbed, the one before it above that.
pub open spec fn sky_phase_of(a: Atmos, rows_above: i32, sky_rows: i32, jitter: u32) -> int {
    let (i, t) = phase_from(cycle_of(a.day), sky_tick(a), 0);
    if rows_above + jitter % 2 <= swept_of(t, span_of(sky_rows)) { i as int } else { (i + 11) % 12 }
}

/// The value of [`Atmos::sky_at`].
pub open spec fn sky_at_of(a: Atmos, rows_above: i32, sky_rows: i32, bearing: Ang, jitter: u32) -> (u8, u8) {
    let span = span_of(sky_rows);
    let p = sky_phase_of(a, rows_above, sky_rows, jitter);
    let up = up_of(rows_above, span);
    let off = vstd::math::abs(signed_ang(bearing - sun_az_of(a))) as int;
    let luma = gradient_of(p, up) + glow_of(glow_strength(DAY_BOTTOM[p]), off, up);
    (DAY_HUE[p], clamp_of((luma + 32768) / 65536, 0, 7) as u8)
}

/// What [`Atmos::sky_at`] needs to stay in 32 bits: a day that fits, a sky
/// of under 32768 rows, and room to nudge the row by one.
pub open spec fn sky_fits(a: Atmos, rows_above: i32, sky_rows: i32) -> bool {
    &&& day_fits(a.day)
    &&& sky_rows <= 32767
    &&& rows_above < i32::MAX
}

/// How far up a `span`-row sky a row is, in `0..=ONE`.
fn sky_up(rows_above: i32, span: i32) -> (up: Fx)
    requires
        MIN_SKY_SPAN <= span <= 32767,
    ensures
        up == up_of(rows_above, span as int),
        0 <= up <= ONE,
{
    let c = if rows_above < 0 { 0 } else if rows_above > span { span } else { rows_above };
    let up = fixed::div(fixed::from_int(c), fixed::from_int(span));
    proof {
        assert(((c * 65536) * 65536) / (span * 65536) <= 65536) by (nonlinear_arith)
            requires
                0 <= c <= span,
                span > 0,
        ;
        assert(((c * 65536) * 65536) / (span * 65536) >= 0) by (nonlinear_arith)
            requires
                0 <= c <= span,
                span > 0,
        ;
    }
    up
}

/// The gradient of phase `p`, `up` of the way from horizon to zenith.
fn gradient(p: usize, up: Fx) -> (g: Fx)
    requires
        p < DAY_LEN,
        0 <= up <= ONE,
    ensures
        g == gradient_of(p as int, up as int),
        0 <= g <= 7 * 65536,
{
    proof {
        assert(0 <= DAY_BOTTOM[p as int] <= 7 && 0 <= DAY_TOP[p as int] <= 7);
        let d = DAY_TOP[p as int] * 65536 - DAY_BOTTOM[p as int] * 65536;
        assert(-7 * 65536 * 65536 <= d * up <= 7 * 65536 * 65536) by (nonlinear_arith)
            requires
                -7 * 65536 <= d <= 7 * 65536,
                0 <= up <= 65536,
        ;
        let a = DAY_BOTTOM[p as int] * 65536;
        let b = DAY_TOP[p as int] * 65536;
        let q = (d * up) / 65536;
        if d >= 0 {
            assert(0 <= q <= d) by (nonlinear_arith)
                requires
                    q == (d * up) / 65536,
                    0 <= up <= 65536,
                    d >= 0,
            ;
        } else {
            assert(d <= q <= 0) by (nonlinear_arith)
                requires
                    q == (d * up) / 65536,
                    0 <= up <= 65536,
                    d < 0,
            ;
        }
    }
    fixed::lerp(fixed::from_int(DAY_BOTTOM[p] as i32), fixed::from_int(DAY_TOP[p] as i32), up)
}

/// The sun's glow at `off` from its bearing, `up` of the way to the zenith.
fn glow(strength: i32, off: i32, up: Fx) -> (g: Fx)
    requires
        1 <= strength <= 2,
        0 <= off,
        0 <= up <= ONE,
    ensures
        g == glow_of(strength as int, off as int, up as int),
        0 <= g <= 2 * 65536,
{
    let quarter = trig::QUARTER as i32;
    if off < quarter {
        let near = fixed::div(fixed::from_int(quarter - off), fixed::from_int(quarter));
        let low = ONE - up;
        proof {
            assert(0 <= near <= 65536) by {
                assert((((16384 - off) * 65536) * 65536) / (16384int * 65536) <= 65536) by (nonlinear_arith)
                    requires
                        0 <= off < 16384,
                ;
                assert((((16384 - off) * 65536) * 65536) / (16384int * 65536) >= 0) by (nonlinear_arith)
                    requires
                        0 <= off < 16384,
                ;
            }
            let sn = strength * 65536 * near;
            assert(0 <= sn <= 2 * 65536 * 65536) by (nonlinear_arith)
                requires
                    sn == strength * 65536 * near,
                    0 <= near <= 65536,
                    1 <= strength <= 2,
            ;
            let m1 = fixed::mul_wide(strength * 65536, near as int);
            assert(0 <= m1 * low <= 2 * 65536 * 65536) by (nonlinear_arith)
                requires
                    0 <= m1 <= 2 * 65536,
                    0 <= low <= 65536,
            ;
        }
        fixed::mul(fixed::mul(fixed::from_int(strength), near), low)
    } else {
        0
    }
}

impl Atmos {
    /// The hue and luminance of the sky this many rows above the horizon.
    ///
    /// A phase change rises: for the first half of a phase the incoming
    /// colour climbs from the horizon to the zenith (the boundary nudged
    /// by a row of `jitter`), and for the second half it holds.  The
    /// gradient is palest at the horizon and darkens to the zenith over the
    /// whole sky, never fewer than [`MIN_SKY_SPAN`] rows; the sky nearest
    /// the sun glows, most at the horizon, by how much light the phase has.
    pub fn sky_at(&self, rows_above: i32, sky_rows: i32, bearing: Ang, jitter: u32) -> (r: (u8, u8))
        requires
            sky_fits(*self, rows_above, sky_rows),
        ensures
            r == sky_at_of(*self, rows_above, sky_rows, bearing, jitter),
            r.1 <= 7,
    {
        let (i, t) = self.phase();
        let before = (i + DAY_LEN - 1) % DAY_LEN;
        let span = if sky_rows >= MIN_SKY_SPAN { sky_rows } else { MIN_SKY_SPAN };
        let t2 = fixed::mul(t, fixed::from_int(2));
        let swept = fixed::floor(fixed::mul(if t2 <= ONE { t2 } else { ONE }, fixed::from_int(span)));
        proof {
            assert((jitter & 1u32) == jitter % 2) by (bit_vector);
        }
        let here = rows_above + (jitter & 1) as i32;
        let p = if here <= swept { i } else { before };
        let up = sky_up(rows_above, span);
        let base = gradient(p, up);
        let b = DAY_BOTTOM[p];
        let strength: i32 = if b <= 2 { 0 } else if b <= 4 { 1 } else { 2 };
        let mut luma = base;
        if strength > 0 {
            let d = bearing.wrapping_sub(self.sun_az());
            proof {
                assert((d as i16) as int == if d >= 32768 { d - 65536 } else { d as int }) by (bit_vector);
                assert((d as i16) as int == signed_ang(bearing - sun_az_of(*self)));
            }
            let off = fixed::abs(d as i16 as i32);
            luma = luma + glow(strength, off, up);
        }
        let v = fixed::floor(luma + fixed::HALF);
        (DAY_HUE[p], (if v < 0 { 0 } else if v > 7 { 7 } else { v }) as u8)
    }
}

/// The star a sky cell might hold, from its hash: its glyph and, for the
/// one in eight that twinkle, a brightness that moves with the tick.
pub open spec fn star_of(tick: u32, h: u32) -> Cel {
    let twinkle = (h >> 17u32) & 7 == 0;
    let star = if twinkle {
        (2 + ((((tick >> 3u32) as u8) ^ ((h >> 9u32) as u8)) % 3)) as u8
    } else {
        (1 + ((h >> 11u32) as u8) % 3) as u8
    };
    Cel { glyph: (catalog::G_STAR + ((h >> 24u32) as u8) % 8) as u8, color: palette::pack(palette::H_WHITE, star) }
}

/// The hash a sky cell is decided by: its bearing bucket and its row.
pub open spec fn sky_hash(col_ang: Ang, row: i32) -> u32 {
    hash3_of((col_ang >> 5u16) as u32, row as u32, 0x5747_2A25)
}

/// The value of [`Atmos::sky`].
pub open spec fn sky_of(a: Atmos, col_ang: Ang, row: i32, sky_rows: i32) -> Cel {
    let h = sky_hash(col_ang, row);
    let (hue, luma) = sky_at_of(a, row, sky_rows, col_ang, h >> 5u32);
    let dark = if luma <= 2 { 2 - luma } else { 0 };
    if row <= 0 {
        crate::frame::empty_cel()
    } else if a.stars > 0 && (h & 255) < a.stars * dark {
        star_of(a.tick, h)
    } else if luma == 0 {
        crate::frame::empty_cel()
    } else {
        Cel { glyph: sky_fill_of(luma), color: palette::pack(hue, luma) }
    }
}

impl Atmos {
    /// What is in the sky along a ray of bearing `col_ang`, at a given row
    /// above the horizon: a star where it is dark enough and the hash puts
    /// one, otherwise the sky's own colour as coverage.  Stars are fixed to
    /// the world, not to the screen.
    pub fn sky(&self, col_ang: Ang, row_above_horizon: i32, sky_rows: i32) -> (c: Cel)
        requires
            sky_fits(*self, row_above_horizon, sky_rows),
        ensures
            c == sky_of(*self, col_ang, row_above_horizon, sky_rows),
    {
        if row_above_horizon <= 0 {
            return Cel::empty();
        }
        let bucket = (col_ang >> 5) as u32;
        let h = hash3(bucket, row_above_horizon as u32, 0x5747_2A25);
        let (hue, luma) = self.sky_at(row_above_horizon, sky_rows, col_ang, h >> 5);
        let dark = 2u32.saturating_sub(luma as u32);
        assert(dark <= 2);
        assert(self.stars as u32 * dark <= 510) by (nonlinear_arith)
            requires
                dark <= 2,
                self.stars <= 255,
        ;
        if self.stars > 0 && (h & 255) < self.stars as u32 * dark {
            let twinkle = (h >> 17) & 7 == 0;
            let star = if twinkle {
                2 + ((self.tick >> 3) as u8 ^ (h >> 9) as u8) % 3
            } else {
                1 + (h >> 11) as u8 % 3
            };
            return Cel { glyph: catalog::G_STAR + (h >> 24) as u8 % 8, color: rgb_index(palette::H_WHITE, star) };
        }
        if luma == 0 {
            return Cel::empty();
        }
        Cel { glyph: sky_fill(luma), color: rgb_index(hue, luma) }
    }
}

/// The moon's bearing relative to the camera's, as a signed angle.
pub open spec fn moon_rel(a: Atmos, cam: Camera) -> int {
    signed_ang(a.moon_az - cam.yaw)
}

/// Where on the camera plane the moon projects: `tan(rel) / fov`.
pub open spec fn moon_camx(a: Atmos, cam: Camera) -> int {
    let d = ((a.moon_az - cam.yaw) % 65536) as Ang;
    div_of(div_of(trig::sin_of(d) as int, trig::cos_of(d) as int) as int, cam.fov as int) as int
}

/// Whether the moon projection reaches its magnitude test with a value
/// that has one.
pub open spec fn moon_fits(a: Atmos, cam: Camera, horizon: i32) -> bool {
    &&& i32::MIN <= horizon - a.moon_alt <= i32::MAX
    &&& (a.moon && vstd::math::abs(moon_rel(a, cam)) < 13107
        && trig::cos_of(((a.moon_az - cam.yaw) % 65536) as Ang) > 0) ==> moon_camx(a, cam) != i32::MIN
}

/// The value of [`Atmos::moon_at`].
pub open spec fn moon_at_of(a: Atmos, cam: Camera, w: usize, h: usize, horizon: i32) -> Option<(i32, i32)> {
    let d = ((a.moon_az - cam.yaw) % 65536) as Ang;
    let camx = moon_camx(a, cam);
    let x = fixed::mul_wide(camx + ONE, from_int_of(fixed::trunc_div((w as i32) as int, 2)) as int) as i32 as int / 65536;
    let y = horizon - a.moon_alt;
    if !a.moon {
        None
    } else if vstd::math::abs(moon_rel(a, cam)) >= 13107 {
        None
    } else if trig::cos_of(d) <= 0 {
        None
    } else if vstd::math::abs(camx) > ONE {
        None
    } else if y < -1 || y > h as i32 || x < -1 || x > w as i32 {
        None
    } else {
        Some((x as i32, y as i32))
    }
}

impl Atmos {
    /// Where the moon lands on screen, if it is visible at all: the column
    /// and row of the top-left cell of its 2x2 block.  Behind the camera,
    /// or more than 72 degrees off its axis, it is not drawn.
    pub fn moon_at(&self, cam: &Camera, w: usize, h: usize, horizon: i32) -> (r: Option<(i32, i32)>)
        requires
            moon_fits(*self, *cam, horizon),
        ensures
            r == moon_at_of(*self, *cam, w, h, horizon),
    {
        if !self.moon {
            return None;
        }
        let d = self.moon_az.wrapping_sub(cam.yaw);
        let rel = d as i16 as i32;
        proof {
            assert((d as i16) as int == if d >= 32768 { d - 65536 } else { d as int }) by (bit_vector);
        }
        let quarter = trig::QUARTER as i32;
        if fixed::abs(rel) >= quarter * 8 / 10 {
            return None;
        }
        let da = rel as i16 as u16;
        proof {
            assert((d as i16) as u16 == d) by (bit_vector);
            assert(rel as i16 == d as i16);
            assert(da == d);
            assert(d == ((self.moon_az - cam.yaw) % 65536) as Ang);
        }
        let s = trig::sin(da);
        let c = trig::cos(da);
        if c <= 0 {
            return None;
        }
        let camx = fixed::div(fixed::div(s, c), cam.fov);
        if fixed::abs(camx) > fixed::from_int(1) {
            return None;
        }
        let x = fixed::floor(fixed::mul(camx + fixed::ONE, fixed::from_int(w as i32 / 2)));
        let y = horizon - self.moon_alt;
        if y < -1 || y > h as i32 || x < -1 || x > w as i32 {
            return None;
        }
        Some((x, y))
    }
}

/// What the moon puts at `(x, y)` with its top-left cell at `(mx, my)`:
/// the disc in its 2x2 block, the halo in the ring of cells around it, and
/// nothing elsewhere.
pub open spec fn moon_cel(a: Atmos, mx: int, my: int, x: int, y: int) -> Option<Cel> {
    let dx = x - mx;
    let dy = y - my;
    let halo = palette::pack(palette::H_WHITE, if a.haze >= 4 { 3 } else { 2 });
    if 0 <= dx < 2 && 0 <= dy < 2 {
        Some(Cel { glyph: (catalog::G_MOON + dy * 2 + dx) as u8, color: palette::pack(palette::H_WHITE, 7) })
    } else if -1 <= dx <= 2 && -1 <= dy <= 2 {
        let qx = if dx <= 0 { 0int } else { 1 };
        let qy = if dy <= 0 { 0int } else { 1 };
        Some(Cel { glyph: (catalog::G_HALO + qy * 2 + qx) as u8, color: halo })
    } else {
        None
    }
}

/// The luminance offset a surface gets from a Lambert term `nl` in
/// `-ONE..=ONE`: three steps per unit, held to `-2..=1`.
pub open spec fn lambert_step(nl: int) -> i8 {
    clamp_of((fixed::mul_wide(nl, 196608) as i32) as int / 65536, -2, 1) as i8
}

/// How far the moon's altitude tips its light towards the roof, `0..=ONE`.
pub open spec fn moon_tilt(a: Atmos) -> int {
    clamp_of(div_of(from_int_of(a.moon_alt as int) as int, 24int * 65536) as int, 0, ONE as int)
}

/// The horizontal part of the moon's light, foreshortened by its tilt.
pub open spec fn moon_flat(a: Atmos) -> int {
    ONE - (fixed::mul_wide(moon_tilt(a), 49152) as i32) as int
}

/// The value of [`Atmos::lambert`], entry by entry: north, east, south,
/// west, roof.
pub open spec fn lambert_of(a: Atmos, n: int) -> i8 {
    let lx = fixed::mul_wide(trig::cos_of(a.moon_az) as int, moon_flat(a)) as i32 as int;
    let ly = fixed::mul_wide(trig::sin_of(a.moon_az) as int, moon_flat(a)) as i32 as int;
    let tilt = moon_tilt(a);
    if !a.moon {
        0
    } else if n == 0 {
        lambert_step(-ly)
    } else if n == 1 {
        lambert_step(lx)
    } else if n == 2 {
        lambert_step(ly)
    } else if n == 3 {
        lambert_step(-lx)
    } else {
        lambert_step(if tilt >= 21845 { tilt } else { 21845 })
    }
}

/// The luminance offset for a Lambert term.
fn lambert_offset(nl: Fx) -> (v: i8)
    ensures
        v == lambert_step(nl as int),
        -2 <= v <= 1,
{
    let v = fixed::floor(fixed::mul(nl, fixed::from_int(3)));
    (if v < -2 { -2 } else if v > 1 { 1 } else { v }) as i8
}

impl Atmos {
    /// The diffuse light each of the five normals receives, as a luminance
    /// offset, indexed by [`Face`] with [`arch::ROOF`] last.  The moon is a
    /// directional source, so this is five numbers a frame; with no moon
    /// they are all zero.
    pub fn lambert(&self) -> (t: [i8; 5])
        ensures
            forall|n: int| 0 <= n < 5 ==> #[trigger] t[n] == lambert_of(*self, n),
    {
        if !self.moon {
            return [0i8, 0, 0, 0, 0];
        }
        let tilt0 = fixed::div(fixed::from_int(self.moon_alt), fixed::from_int(24));
        let tilt = fixed::clamp(tilt0, 0, ONE);
        proof {
            assert(fixed::mul_wide(tilt as int, 49152) <= 49152) by (nonlinear_arith)
                requires
                    0 <= tilt <= 65536,
            ;
            assert(fixed::mul_wide(tilt as int, 49152) >= 0) by (nonlinear_arith)
                requires
                    0 <= tilt <= 65536,
            ;
        }
        let flat = ONE - fixed::mul(tilt, 49152);
        proof {
            trig::lemma_table_bounds(self.moon_az);
            let c = trig::cos_of(self.moon_az) as int;
            let sn = trig::sin_of(self.moon_az) as int;
            assert(-65536 <= fixed::mul_wide(sn, flat as int) <= 65536) by (nonlinear_arith)
                requires
                    -65536 <= sn <= 65536,
                    0 <= flat <= 65536,
            ;
            assert(-65536 <= fixed::mul_wide(c, flat as int) <= 65536) by (nonlinear_arith)
                requires
                    -65536 <= c <= 65536,
                    0 <= flat <= 65536,
            ;
        }
        let lx = fixed::mul(trig::cos(self.moon_az), flat);
        let ly = fixed::mul(trig::sin(self.moon_az), flat);
        let mut t = [0i8, 0, 0, 0, 0];
        t[0] = lambert_offset(-ly);
        t[1] = lambert_offset(lx);
        t[2] = lambert_offset(ly);
        t[3] = lambert_offset(-lx);
        t[arch::ROOF] = lambert_offset(if tilt >= 21845 { tilt } else { 21845 });
        t
    }
}

/// What the moon leaves at `(x, y)` of a `w` by `h` frame that held
/// `was` there: its own cell where it has one on screen, `was` elsewhere.
pub open spec fn with_moon(a: Atmos, at: Option<(i32, i32)>, w: int, h: int, x: int, y: int, was: Cel) -> Cel {
    match at {
        Some((mx, my)) => if crate::frame::on_screen(w, h, x, y) && moon_cel(a, mx as int, my as int, x, y) is Some {
            moon_cel(a, mx as int, my as int, x, y)->0
        } else {
            was
        },
        None => was,
    }
}

/// The frame sizes the overlays can count cells of in an `i32`.
pub open spec fn frame_fits(f: &Frame) -> bool {
    &&& f.wf()
    &&& f.w <= 0x3fff_ffff
    &&& f.h <= 0x3fff_ffff
}

impl Atmos {
    /// Draw the moon and its halo: the halo ring first, then the disc on
    /// top of it, both clipped to the frame.
    pub fn draw_moon(&self, f: &mut Frame, cam: &Camera, horizon: i32)
        requires
            frame_fits(old(f)),
            moon_fits(*self, *cam, horizon),
        ensures
            frame_fits(final(f)),
            final(f).w == old(f).w && final(f).h == old(f).h,
            forall|x: int, y: int| #[trigger] final(f).cell(x, y) == with_moon(
                *self,
                moon_at_of(*self, *cam, old(f).w, old(f).h, horizon),
                old(f).w as int,
                old(f).h as int,
                x,
                y,
                old(f).cell(x, y),
            ),
    {
        let at = self.moon_at(cam, f.w, f.h, horizon);
        let (mx, my) = match at {
            Some(p) => p,
            None => {
                return;
            },
        };
        let ghost f0 = *f;
        let halo = rgb_index(palette::H_WHITE, if self.haze >= 4 { 3 } else { 2 });
        let mut dy: i32 = -1;
        while dy <= 2
            invariant
                -1 <= dy <= 3,
                -1 <= mx <= 0x3fff_ffff,
                -1 <= my <= 0x3fff_ffff,
                at == Some((mx, my)),
                frame_fits(f),
                f.w == f0.w && f.h == f0.h,
                halo == palette::pack(palette::H_WHITE, if self.haze >= 4 { 3 } else { 2 }),
                forall|x: int, y: int| #[trigger] f.cell(x, y) == if y - my < dy && with_moon(*self, at, f0.w as int, f0.h as int, x, y, f0.cell(x, y)) != f0.cell(x, y) && !(0 <= x - mx < 2 && 0 <= y - my < 2) {
                    with_moon(*self, at, f0.w as int, f0.h as int, x, y, f0.cell(x, y))
                } else {
                    f0.cell(x, y)
                },
            decreases 3 - dy,
        {
            let mut dx: i32 = -1;
            while dx <= 2
                invariant
                    -1 <= dy <= 2,
                    -1 <= dx <= 3,
                    -1 <= mx <= 0x3fff_ffff,
                    -1 <= my <= 0x3fff_ffff,
                    at == Some((mx, my)),
                    frame_fits(f),
                    f.w == f0.w && f.h == f0.h,
                    halo == palette::pack(palette::H_WHITE, if self.haze >= 4 { 3 } else { 2 }),
                    forall|x: int, y: int| #[trigger] f.cell(x, y) == if (y - my < dy || (y - my == dy && x - mx < dx)) && with_moon(*self, at, f0.w as int, f0.h as int, x, y, f0.cell(x, y)) != f0.cell(x, y) && !(0 <= x - mx < 2 && 0 <= y - my < 2) {
                        with_moon(*self, at, f0.w as int, f0.h as int, x, y, f0.cell(x, y))
                    } else {
                        f0.cell(x, y)
                    },
                decreases 3 - dx,
            {
                if !((0 <= dx && dx < 2) && (0 <= dy && dy < 2)) {
                    let qy: u8 = if dy <= 0 { 0 } else { 1 };
                    let qx: u8 = if dx <= 0 { 0 } else { 1 };
                    let q = (qy << 1) | qx;
                    proof {
                        assert(((qy << 1u8) | qx) == qy * 2 + qx) by (bit_vector)
                            requires
                                qy <= 1,
                                qx <= 1,
                        ;
                    }
                    f.put(mx + dx, my + dy, Cel { glyph: catalog::G_HALO + q, color: halo });
                }
                dx = dx + 1;
            }
            dy = dy + 1;
        }
        let disc = rgb_index(palette::H_WHITE, 7);
        let mut dy: i32 = 0;
        while dy < 2
            invariant
                0 <= dy <= 2,
                -1 <= mx <= 0x3fff_ffff,
                -1 <= my <= 0x3fff_ffff,
                at == Some((mx, my)),
                frame_fits(f),
                f.w == f0.w && f.h == f0.h,
                disc == palette::pack(palette::H_WHITE, 7),
                forall|x: int, y: int| #[trigger] f.cell(x, y) == if (y - my < dy || !(0 <= x - mx < 2 && 0 <= y - my < 2)) {
                    with_moon(*self, at, f0.w as int, f0.h as int, x, y, f0.cell(x, y))
                } else {
                    f0.cell(x, y)
                },
            decreases 2 - dy,
        {
            let mut dx: i32 = 0;
            while dx < 2
                invariant
                    0 <= dy < 2,
                    0 <= dx <= 2,
                    -1 <= mx <= 0x3fff_ffff,
                    -1 <= my <= 0x3fff_ffff,
                    at == Some((mx, my)),
                    frame_fits(f),
                    f.w == f0.w && f.h == f0.h,
                    disc == palette::pack(palette::H_WHITE, 7),
                    forall|x: int, y: int| #[trigger] f.cell(x, y) == if (y - my < dy || (y - my == dy && x - mx < dx) || !(0 <= x - mx < 2 && 0 <= y - my < 2)) {
                        with_moon(*self, at, f0.w as int, f0.h as int, x, y, f0.cell(x, y))
                    } else {
                        f0.cell(x, y)
                    },
                decreases 2 - dx,
            {
                let q = ((dy as u8) << 1) | dx as u8;
                proof {
                    let (a, b) = (dy as u8, dx as u8);
                    assert(((a << 1u8) | b) == a * 2 + b) by (bit_vector)
                        requires
                            a <= 1,
                            b <= 1,
                    ;
                }
                f.put(mx + dx, my + dy, Cel { glyph: catalog::G_MOON + q, color: disc });
                dx = dx + 1;
            }
            dy = dy + 1;
        }
    }
}

/// How far the rain has scrolled, in rows, at a tick.
pub open spec fn rain_scroll(a: Atmos) -> u32 {
    ((a.tick as i32) * 3) as u32
}

/// Whether a cell counts as sky for the rain: nothing drawn, or drawn so
/// far off that the haze has taken it to black.
pub open spec fn on_sky(c: Cel) -> bool {
    c.glyph == catalog::G_BLANK || c.color % 8 == 0
}

/// What the rain leaves at on-screen `(x, y)` over `was`: a streak against
/// the sky where the scrolling hash falls under the density, `was`
/// elsewhere.  Its phase counts down the rows as the tick rises, so the
/// streaks fall.
pub open spec fn with_rain(a: Atmos, x: int, y: int, was: Cel) -> Cel {
    let scroll = rain_scroll(a);
    let h = hash3_of(x as u32, ((y as u32 + scroll / 2) % 0x1_0000_0000) as u32, 0x4241_4E00);
    let phase = (((y as u32 - scroll) % 0x1_0000_0000) as u32 & 7u32) as u8;
    if a.rain != 0 && on_sky(was) && (h & 255) < a.rain * 3 {
        Cel { glyph: (catalog::G_RAIN + phase) as u8, color: palette::pack(palette::H_LIGHT_BLUE, 3) }
    } else {
        was
    }
}

impl Atmos {
    /// Lay rain over the finished frame: on the sky and on nothing else,
    /// at a density of three in 256 cells per step of rain.
    pub fn rain_over(&self, f: &mut Frame, cam: &Camera)
        requires
            frame_fits(old(f)),
            self.rain != 0 ==> i32::MIN <= (self.tick as i32) * 3 <= i32::MAX,
        ensures
            frame_fits(final(f)),
            final(f).w == old(f).w && final(f).h == old(f).h,
            forall|x: int, y: int| crate::frame::on_screen(old(f).w as int, old(f).h as int, x, y)
                ==> #[trigger] final(f).cell(x, y) == with_rain(*self, x, y, old(f).cell(x, y)),
    {
        let ghost f0 = *f;
        if self.rain == 0 {
            return;
        }
        let sky_density = self.rain as u32 * 3;
        let scroll = (self.tick as i32 * 3) as u32;
        let w = f.w as i32;
        let h = f.h as i32;
        let mut y: i32 = 0;
        while y < h
            invariant
                frame_fits(f),
                f.w == f0.w && f.h == f0.h,
                w == f0.w && h == f0.h,
                0 <= y <= h,
                self.rain != 0,
                sky_density == self.rain * 3,
                scroll == rain_scroll(*self),
                forall|i: int, j: int| #[trigger] f.cell(i, j) == if crate::frame::on_screen(w as int, h as int, i, j) && j < y {
                    with_rain(*self, i, j, f0.cell(i, j))
                } else {
                    f0.cell(i, j)
                },
            decreases h - y,
        {
            let mut x: i32 = 0;
            while x < w
                invariant
                    frame_fits(f),
                    f.w == f0.w && f.h == f0.h,
                    w == f0.w && h == f0.h,
                    0 <= y < h,
                    0 <= x <= w,
                    self.rain != 0,
                    sky_density == self.rain * 3,
                    scroll == rain_scroll(*self),
                    forall|i: int, j: int| #[trigger] f.cell(i, j) == if crate::frame::on_screen(w as int, h as int, i, j) && (j < y || (j == y && i < x)) {
                        with_rain(*self, i, j, f0.cell(i, j))
                    } else {
                        f0.cell(i, j)
                    },
                decreases w - x,
            {
                let ghost before = *f;
                let behind = f.get(x, y);
                assert(behind == f0.cell(x as int, y as int));
                let on_sky = behind.glyph == catalog::G_BLANK || palette::luma_of(behind.color) == 0;
                let hv = hash3(x as u32, (y as u32).wrapping_add(scroll / 2), 0x4241_4E00);
                if on_sky && (hv & 255) < sky_density {
                    let phase = ((y as u32).wrapping_sub(scroll) & 7) as u8;
                    proof {
                        let v = (y as u32).wrapping_sub(scroll);
                        assert((v & 7u32) < 8) by (bit_vector);
                    }
                    f.put(x, y, Cel { glyph: catalog::G_RAIN + phase, color: rgb_index(palette::H_LIGHT_BLUE, 3) });
                    assert(f.cell(x as int, y as int) == with_rain(*self, x as int, y as int, f0.cell(x as int, y as int)));
                } else {
                    assert(with_rain(*self, x as int, y as int, f0.cell(x as int, y as int)) == f0.cell(x as int, y as int));
                }
                x = x + 1;
            }
            y = y + 1;
        }
    }
}

/// The haze only thickens with distance: a further point is never faded
/// less than a nearer one.
pub proof fn lemma_fade_is_monotonic(a: Atmos, near: Fx, far: Fx)
    requires
        near <= far,
    ensures
        a.fade_of(near) <= a.fade_of(far),
{
    let dn = if near as int / 65536 >= 0 { near as int / 65536 } else { 0 };
    let df = if far as int / 65536 >= 0 { far as int / 65536 } else { 0 };
    let full = draw_distance_of(a.haze) as int;
    assert(near as int / 65536 <= far as int / 65536) by (nonlinear_arith)
        requires
            near <= far,
    ;
    assert((dn * 8) / full <= (df * 8) / full) by (nonlinear_arith)
        requires
            0 <= dn <= df,
            full > 0,
    ;
}

/// Nothing is faded at the camera, and everything is faded out at the
/// draw distance and beyond.
pub proof fn lemma_fade_ends(a: Atmos, dist: Fx)
    ensures
        a.fade_of(0) == 0,
        dist as int / 65536 >= draw_distance_of(a.haze) ==> a.fade_of(dist) == 8,
{
    let d = dist as int / 65536;
    let full = draw_distance_of(a.haze) as int;
    if d >= full {
        assert((d * 8) / full >= 8) by (nonlinear_arith)
            requires
                d >= full,
                full > 0,
        ;
    }
}

/// Shading holds the hue and only ever takes light away.
pub proof fn lemma_shade_keeps_hue(a: Atmos, hue: u8, luma: u8, dist: Fx)
    requires
        hue < 16,
        luma < 8,
    ensures
        ({
            let f = a.fade_of(dist);
            let c = palette::pack(hue, if luma >= f { (luma - f) as u8 } else { 0 });
            c / 8 == hue && c % 8 <= luma
        }),
{
}

/// With no rain there is no overlay: every cell is left as it was.
pub proof fn lemma_no_rain_no_overlay(a: Atmos, x: int, y: int, was: Cel)
    requires
        a.rain == 0,
    ensures
        with_rain(a, x, y, was) == was,
{
}

/// Rain falls against the sky and nowhere else, and what it leaves there
/// is a streak whose phase counts down the rows as the tick rises.
pub proof fn lemma_rain_only_on_sky(a: Atmos, x: int, y: int, was: Cel)
    ensures
        with_rain(a, x, y, was) != was ==> on_sky(was) && with_rain(a, x, y, was).glyph
            == catalog::G_RAIN + ((((y as u32 - rain_scroll(a)) % 0x1_0000_0000) as u32 & 7u32) as u8),
{
    let v = ((y as u32 - rain_scroll(a)) % 0x1_0000_0000) as u32;
    assert((v & 7u32) <= 7) by (bit_vector);
}

/// Looking from phase `i` on, the sky is in phase `i` or a later one.
proof fn lemma_phase_from_at_least(cycle: u32, t: u32, i: int)
    requires
        0 <= i < DAY_LEN,
    ensures
        i <= phase_from(cycle, t, i).0 < DAY_LEN,
    decreases DAY_LEN - i,
{
    let start = phases_before(cycle, i);
    let len = phase_len(cycle, i);
    if !(i >= DAY_LEN - 1 || t < start + len) {
        lemma_phase_from_at_least(cycle, t, i + 1);
    }
}

/// Looking from the same phase, a later tick is never in an earlier phase.
proof fn lemma_phase_from_monotonic(cycle: u32, t1: u32, t2: u32, i: int)
    requires
        0 <= i < DAY_LEN,
        t1 <= t2,
    ensures
        phase_from(cycle, t1, i).0 <= phase_from(cycle, t2, i).0,
    decreases DAY_LEN - i,
{
    let start = phases_before(cycle, i);
    let len = phase_len(cycle, i);
    if !(i >= DAY_LEN - 1 || t2 < start + len) {
        lemma_phase_from_at_least(cycle, t2, i + 1);
        if !(t1 < start + len) {
            lemma_phase_from_monotonic(cycle, t1, t2, i + 1);
        }
    }
}

/// The phases start one after another.
proof fn lemma_phases_before_monotonic(cycle: u32, a: int, b: int)
    requires
        0 <= a <= b <= DAY_LEN,
    ensures
        phases_before(cycle, a) <= phases_before(cycle, b),
    decreases b - a,
{
    if a < b {
        lemma_phases_before_monotonic(cycle, a, b - 1);
        assert(phase_len(cycle, b - 1) >= 0) by (nonlinear_arith)
            requires
                phase_len(cycle, b - 1) == cycle * DAY_HOLD[b - 1] / DAY_SHARES as int,
                cycle >= 0,
                DAY_HOLD[b - 1] >= 0,
        ;
    }
}

/// At the first tick of phase `k`, looking from any earlier phase, the sky
/// is in phase `k` - provided phase `k` lasts at all.
proof fn lemma_phase_at_its_start(cycle: u32, k: int, i: int)
    requires
        0 <= i <= k < DAY_LEN,
        phase_len(cycle, k) > 0,
    ensures
        phase_from(cycle, phases_before(cycle, k) as u32, i).0 == k,
    decreases k - i,
{
    lemma_prefix_bound(cycle, k);
    let t = phases_before(cycle, k) as u32;
    if i < k {
        lemma_phases_before_monotonic(cycle, i + 1, k);
        lemma_phase_at_its_start(cycle, k, i + 1);
    }
}

/// Through a cycle the sky only moves forward through its phases, and it
/// enters every phase that lasts any time at all at that phase's first
/// tick: it visits them in order.
pub proof fn lemma_the_sky_runs_forward(cycle: u32, t1: u32, t2: u32, k: int)
    requires
        t1 <= t2,
        0 <= k < DAY_LEN,
    ensures
        phase_from(cycle, t1, 0).0 <= phase_from(cycle, t2, 0).0,
        phase_from(cycle, t2, 0).0 < DAY_LEN,
        phase_len(cycle, k) > 0 ==> phase_from(cycle, phases_before(cycle, k) as u32, 0).0 == k,
{
    lemma_phase_from_monotonic(cycle, t1, t2, 0);
    lemma_phase_from_at_least(cycle, t2, 0);
    if phase_len(cycle, k) > 0 {
        lemma_phase_at_its_start(cycle, k, 0);
    }
}

/// Looking from phase `i` on, any tick inside phase `k` is in phase `k`.
proof fn lemma_phase_within(cycle: u32, t: u32, k: int, i: int)
    requires
        0 <= i <= k < DAY_LEN,
        phases_before(cycle, k) <= t < phases_before(cycle, k) + phase_len(cycle, k),
    ensures
        phase_from(cycle, t, i).0 == k,
    decreases k - i,
{
    if i < k {
        lemma_phases_before_monotonic(cycle, i + 1, k);
        lemma_phase_within(cycle, t, k, i + 1);
    }
}

/// Every phase lasts at least a tick: a cycle is never shorter than the
/// day's shares, and every phase holds at least one.
proof fn lemma_phase_lasts(day: u32, k: int)
    requires
        0 <= k < DAY_LEN,
    ensures
        phase_len(cycle_of(day), k) >= 1,
{
    let c = cycle_of(day);
    let h = DAY_HOLD[k] as int;
    assert(c * h / 24 >= 1) by (nonlinear_arith)
        requires
            c >= 24,
            h >= 1,
    ;
}

/// A day visits every phase, in order: a later tick of the cycle is never
/// in an earlier phase, and each phase `k` has a tick of the cycle - its
/// first - at which the sky is in it.
pub proof fn lemma_a_day_visits_every_phase(day: u32, t1: u32, t2: u32, k: int)
    requires
        day_fits(day),
        t1 <= t2,
        0 <= k < DAY_LEN,
    ensures
        phase_from(cycle_of(day), t1, 0).0 <= phase_from(cycle_of(day), t2, 0).0,
        phase_from(cycle_of(day), t2, 0).0 < DAY_LEN,
        phases_before(cycle_of(day), k) < cycle_of(day),
        phase_from(cycle_of(day), phases_before(cycle_of(day), k) as u32, 0).0 == k,
{
    let c = cycle_of(day);
    lemma_phase_lasts(day, k);
    lemma_prefix_bound(c, k + 1);
    lemma_the_sky_runs_forward(c, t1, t2, k);
}

/// The offset for phase `n` puts a held sky in phase `n`, counted round
/// the twelve, whatever the tick.
pub proof fn lemma_phase_offset_lands_in_its_phase(a: Atmos, n: u32)
    requires
        a.day == 0,
    ensures
        phase_from(cycle_of(0), sky_tick(Atmos { sky_offset: phase_offset_of(n, 0), ..a }), 0).0
            == n % 12,
{
    let c = cycle_of(0);
    let k = (n % 12) as int;
    lemma_phase_lasts(0, k);
    lemma_prefix_bound(c, k + 1);
    lemma_prefix_bound(c, k);
    assert(phases_before(c, k + 1) == phases_before(c, k) + phase_len(c, k));
    let off = phase_offset_of(n, 0);
    assert(off == phases_before(c, k) + phase_len(c, k) / 2);
    assert(off < c);
    lemma_phase_within(c, off, k, 0);
}

/// The sun rises due east and sets due west: with the sky held at the
/// middle of sunrise it is at bearing zero, and at the middle of sunset it
/// is half a turn round.
pub proof fn lemma_sun_rises_east_and_sets_west(a: Atmos)
    requires
        a.day == 0,
    ensures
        sun_az_of(Atmos { sky_offset: phase_offset_of(3, 0), ..a }) == 0,
        sun_az_of(Atmos { sky_offset: phase_offset_of(8, 0), ..a }) == trig::HALF,
{
    reveal_with_fuel(phases_before, 10);
    assert(cycle_of(0) == 7200);
    assert(phases_before(7200, 3) == 1800);
    assert(phases_before(7200, 8) == 5400);
    assert(phase_offset_of(3, 0) == 1950);
    assert(phase_offset_of(8, 0) == 5550);
    assert(((1950int - 1950) % 7200) * 65536 / 7200 == 0);
    assert(((5550int - 1950) % 7200) * 65536 / 7200 == 32768);
}

/// Every phase's sky is palest at the horizon: no zenith is brighter than
/// its horizon.
proof fn lemma_top_below_bottom(p: int)
    requires
        0 <= p < DAY_LEN,
    ensures
        DAY_TOP[p] <= DAY_BOTTOM[p],
{
    assert(DAY_TOP[0] <= DAY_BOTTOM[0] && DAY_TOP[1] <= DAY_BOTTOM[1] && DAY_TOP[2] <= DAY_BOTTOM[2]);
    assert(DAY_TOP[3] <= DAY_BOTTOM[3] && DAY_TOP[4] <= DAY_BOTTOM[4] && DAY_TOP[5] <= DAY_BOTTOM[5]);
    assert(DAY_TOP[6] <= DAY_BOTTOM[6] && DAY_TOP[7] <= DAY_BOTTOM[7] && DAY_TOP[8] <= DAY_BOTTOM[8]);
    assert(DAY_TOP[9] <= DAY_BOTTOM[9] && DAY_TOP[10] <= DAY_BOTTOM[10] && DAY_TOP[11] <= DAY_BOTTOM[11]);
}

/// A lower row is no further up the sky than a higher one, and both lie
/// between the horizon and the zenith.
proof fn lemma_up_monotonic(low: i32, high: i32, span: int)
    requires
        low <= high,
        MIN_SKY_SPAN <= span <= 32767,
    ensures
        0 <= up_of(low, span) <= up_of(high, span) <= ONE,
{
    let c1 = clamp_of(low as int, 0, span);
    let c2 = clamp_of(high as int, 0, span);
    assert(0 <= c1 <= c2 <= span);
    assert(c1 * 65536 * 65536 / (span * 65536) <= c2 * 65536 * 65536 / (span * 65536)) by (nonlinear_arith)
        requires
            0 <= c1 <= c2,
            span > 0,
    ;
    assert(0 <= c1 * 65536 * 65536 / (span * 65536)) by (nonlinear_arith)
        requires
            0 <= c1,
            span > 0,
    ;
    assert(c2 * 65536 * 65536 / (span * 65536) <= 65536) by (nonlinear_arith)
        requires
            0 <= c2 <= span,
            span > 0,
    ;
}

/// Higher up the sky the gradient is no brighter, and the sun's glow no
/// stronger.
proof fn lemma_luma_falls_with_height(p: int, s: int, off: int, up1: int, up2: int)
    requires
        0 <= p < DAY_LEN,
        0 <= s <= 2,
        0 <= off,
        0 <= up1 <= up2 <= ONE,
    ensures
        gradient_of(p, up1) >= gradient_of(p, up2),
        glow_of(s, off, up1) >= glow_of(s, off, up2),
{
    lemma_top_below_bottom(p);
    let d = DAY_TOP[p] as int - DAY_BOTTOM[p] as int;
    assert(-7 <= d <= 0);
    assert(fixed::mul_wide(d * 65536, up1) == d * up1 && fixed::mul_wide(d * 65536, up2) == d * up2) by (nonlinear_arith)
        requires
            -7 <= d <= 0,
            0 <= up1 <= 65536,
            0 <= up2 <= 65536,
    ;
    assert(d * up1 >= d * up2) by (nonlinear_arith)
        requires
            d <= 0,
            up1 <= up2,
    ;
    assert(-7 * 65536 <= d * up2 && d * up1 <= 0) by (nonlinear_arith)
        requires
            -7 <= d <= 0,
            0 <= up1 <= 65536,
            0 <= up2 <= 65536,
    ;
    if s > 0 && off < 16384 {
        let near = div_of((16384 - off) * 65536, 16384int * 65536) as int;
        assert(near == (16384 - off) * 65536 * 65536 / (16384int * 65536));
        assert(0 <= (16384 - off) * 65536 * 65536 / (16384int * 65536) <= 65536) by (nonlinear_arith)
            requires
                0 < 16384 - off <= 16384,
        ;
        let inner = fixed::mul_wide(s * 65536, near);
        assert(0 <= inner <= 131072) by (nonlinear_arith)
            requires
                inner == (s * 65536 * near) / 65536,
                0 <= s <= 2,
                0 <= near <= 65536,
        ;
        assert(inner * (ONE - up1) / 65536 >= inner * (ONE - up2) / 65536) by (nonlinear_arith)
            requires
                0 <= inner,
                0 <= ONE - up2 <= ONE - up1,
        ;
        assert(inner * (ONE - up1) / 65536 <= 131072) by (nonlinear_arith)
            requires
                0 <= inner <= 131072,
                0 <= ONE - up1 <= 65536,
        ;
        assert(inner * (ONE - up2) / 65536 >= 0) by (nonlinear_arith)
            requires
                0 <= inner,
                0 <= ONE - up2,
        ;
    }
}

/// The sky is palest at the horizon: of two rows showing the same phase's
/// colours, under the same sun, the lower is never the darker.
pub proof fn lemma_sky_palest_at_horizon(
    a: Atmos,
    low: i32,
    high: i32,
    sky_rows: i32,
    bearing: Ang,
    jitter: u32,
)
    requires
        sky_fits(a, high, sky_rows),
        low <= high,
        sky_phase_of(a, low, sky_rows, jitter) == sky_phase_of(a, high, sky_rows, jitter),
    ensures
        sky_at_of(a, low, sky_rows, bearing, jitter).1 >= sky_at_of(a, high, sky_rows, bearing, jitter).1,
        sky_at_of(a, low, sky_rows, bearing, jitter).0 == sky_at_of(a, high, sky_rows, bearing, jitter).0,
{
    let span = span_of(sky_rows);
    let p = sky_phase_of(a, low, sky_rows, jitter);
    lemma_phase_from_at_least(cycle_of(a.day), sky_tick(a), 0);
    assert(0 <= p < DAY_LEN);
    lemma_up_monotonic(low, high, span);
    let up1 = up_of(low, span);
    let up2 = up_of(high, span);
    let off = vstd::math::abs(signed_ang(bearing - sun_az_of(a))) as int;
    let s = glow_strength(DAY_BOTTOM[p]);
    lemma_luma_falls_with_height(p, s, off, up1, up2);
    let l1 = gradient_of(p, up1) + glow_of(s, off, up1);
    let l2 = gradient_of(p, up2) + glow_of(s, off, up2);
    assert((l1 + 32768) / 65536 >= (l2 + 32768) / 65536) by (nonlinear_arith)
        requires
            l1 >= l2,
    ;
}

/// The sky comes round again: a whole cycle of ticks later it is at the
/// same tick of its cycle, and so in the same phase, as long as the tick
/// counter has not wrapped in between.
pub proof fn lemma_the_sky_returns_after_a_day(a: Atmos)
    requires
        a.day != 0,
        day_fits(a.day),
        a.tick + a.sky_offset + cycle_of(a.day) < 0x1_0000_0000,
    ensures
        ({
            let later = Atmos { tick: (a.tick + cycle_of(a.day)) as u32, ..a };
            &&& sky_tick(later) == sky_tick(a)
            &&& phase_from(cycle_of(a.day), sky_tick(later), 0) == phase_from(cycle_of(a.day), sky_tick(a), 0)
        }),
{
    let c = cycle_of(a.day) as int;
    let x = a.tick + a.sky_offset;
    assert(x % 0x1_0000_0000 == x);
    assert((x + c) % 0x1_0000_0000 == x + c);
    assert((x + c) % c == x % c) by (nonlinear_arith)
        requires
            c > 0,
            x >= 0;
}

} // verus!
