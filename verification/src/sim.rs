//! The moving city's records: the fare on the meter, the coins strung
//! along its route, the street furniture and the people, what happened
//! this tick, and the compass.
//!
//! A fare has four places, not two.  The passenger waits on the pavement
//! and is set down on one - that is where the marker goes - and a car
//! cannot be either of those places, so each end also carries the kerb the
//! cab actually pulls up at.
use vstd::prelude::*;
use crate::fixed::{self, Fx, ONE, HALF, fx_mul, fx_div, fx_floor, div_of, from_int_of};
use crate::sprite::Billboard;
use crate::trig::{self, Ang};
use crate::drive::{Car, CarKind, Controls, half_len_of, hull_of, octagonal_len, short};
use crate::rng::{Rng, xorshift, scale_below};
use crate::walk::{WalkMap, step_toward_of};
use crate::road::{Strip, street_axis_of, flow_of, lane_biased_of, lane_of, heading_of};
use crate::raycast::{reads, read, lemma_read, Kind};
use crate::drive::turn_rate_of;
use crate::atmos::{Atmos, day_fits, draw_distance_of};
use crate::camera::Camera;
use crate::frame::{Cel, Frame, on_screen};
use crate::raycast::Proj;
use crate::sprite::{Stamp, Aspect, aspect_of, aspect_fits, draw_fits, cell_after, furthest_first, end_on_aspect};
use crate::decal::{ring_fits, rings_at, ground_dist};
use crate::palette;
use crate::trig::{sin_of, cos_of};

verus! {

/// How close to the stopping circle at the kerb a car must be: three
/// quarters of a cell.
pub const STOP_RADIUS: Fx = 49152;

/// How slowly a car must be going to hand a passenger over: one and a
/// half cells a second.
pub const STOP_SPEED: Fx = 98304;

/// How close to the passenger themselves a car must be, on each axis: a
/// cell and a quarter, which a cab pulled up at the kerb beside them is.
pub const REACH: Fx = 81920;

/// How close to the kerb stop a car must be, on each axis: half a cell
/// wider than the circle, because a cab stops inside it and then coasts.
pub const KERB_REACH: Fx = 81920;

/// A piece of street furniture.
#[derive(Clone, Copy, Debug)]
pub struct Prop {
    /// How it is drawn and where it stands.
    pub board: Billboard,
    /// Velocity, non-zero only while it is tumbling.
    pub vx: Fx,
    /// Velocity.
    pub vy: Fx,
    /// Whether it is still standing.
    pub standing: bool,
}

/// Somebody on the pavement.
#[derive(Clone, Copy, Debug)]
pub struct Ped {
    /// Where they are.
    pub x: Fx,
    /// Where they are.
    pub y: Fx,
    /// Which way they are walking.
    pub dir: Ang,
    /// Where they are going, in cells.
    pub goal: (i32, i32),
    /// Stride phase.
    pub phase: u8,
    /// Hue.
    pub hue: u8,
}

/// One of the coins strung along the route to the drop-off.
#[derive(Clone, Copy, Debug)]
pub struct Coin {
    /// Where it hangs.
    pub x: Fx,
    /// Where it hangs.
    pub y: Fx,
    /// Whether it has been taken.
    pub taken: bool,
}

/// The current job.
#[derive(Debug)]
pub struct Fare {
    /// Where the passenger is waiting, on foot.
    pub from: (Fx, Fx),
    /// Where they are going, on foot.
    pub to: (Fx, Fx),
    /// The kerb beside `from`.
    pub from_stop: (Fx, Fx),
    /// The kerb beside `to`.
    pub to_stop: (Fx, Fx),
    /// Whether they are in the car.
    pub aboard: bool,
    /// The coins between here and there.
    pub coins: Vec<Coin>,
    /// What the fare is worth, in whole units of money.
    pub value: u32,
}

/// Where the passenger is - the end of the job that is drawn.
pub open spec fn marker_of(f: Fare) -> (Fx, Fx) {
    if f.aboard { f.to } else { f.from }
}

/// Where a car stops to reach them.
pub open spec fn stop_of(f: Fare) -> (Fx, Fx) {
    if f.aboard { f.to_stop } else { f.from_stop }
}

/// Whether `(x, y)` is within `r` of `(px, py)` on both axes.
pub open spec fn within(px: int, py: int, x: int, y: int, r: int) -> bool {
    vstd::math::abs(px - x) < r && vstd::math::abs(py - y) < r
}

/// Whether a place is one where points that far apart can be subtracted
/// in 32 bits.
pub open spec fn near_enough(a: (Fx, Fx), x: Fx, y: Fx) -> bool {
    &&& i32::MIN < a.0 - x <= i32::MAX
    &&& i32::MIN < a.1 - y <= i32::MAX
}

impl Fare {
    /// Where the passenger is - the end of the job that is drawn.
    pub fn marker(&self) -> (m: (Fx, Fx))
        ensures
            m == marker_of(*self),
    {
        if self.aboard { self.to } else { self.from }
    }

    /// Where a car stops to reach them.
    pub fn stop(&self) -> (s: (Fx, Fx))
        ensures
            s == stop_of(*self),
    {
        if self.aboard { self.to_stop } else { self.from_stop }
    }

    /// Whether a car at `(x, y)` is pulled up close enough to hand the
    /// passenger over: near the person, or near the kerb stop.  The first
    /// is what a player aims at and the second what the autopilot drives
    /// to, and a rule that accepted only one would fail whichever of the
    /// two is at the wheel.
    pub fn at_stop(&self, x: Fx, y: Fx) -> (b: bool)
        requires
            near_enough(marker_of(*self), x, y),
            near_enough(stop_of(*self), x, y),
        ensures
            b == (within(marker_of(*self).0 as int, marker_of(*self).1 as int, x as int, y as int, REACH as int)
                || within(stop_of(*self).0 as int, stop_of(*self).1 as int, x as int, y as int, KERB_REACH as int)),
    {
        let (mx, my) = self.marker();
        let (sx, sy) = self.stop();
        (fixed::abs(mx - x) < REACH && fixed::abs(my - y) < REACH)
            || (fixed::abs(sx - x) < KERB_REACH && fixed::abs(sy - y) < KERB_REACH)
    }
}

/// Something that just happened and that the front end may want to say out
/// loud.
#[derive(Clone, Copy, Debug, PartialEq, Eq, Structural)]
pub enum Event {
    /// A piece of street furniture went over.
    Flattened,
    /// Another car was hit.
    Rammed,
    /// A wall was hit.
    Crunched,
    /// A coin was collected.
    Coin,
    /// The passenger got in.
    PickedUp,
    /// The passenger got out.
    DroppedOff,
    /// The clock ran out.
    TimeUp,
}

/// The cubic fit of the arctangent on `0..=ONE`, in angle units:
/// `(pi/4) r - r (r - 1) (0.2447 + 0.0663 r)`, where a quarter turn is
/// 16384, so `pi/4` is 8192 and a radian 10430.
pub open spec fn atan_kernel(r: Fx) -> int {
    let t = fx_mul(r, (r - ONE) as i32);
    let k = div_of(from_int_of(2447) as int, from_int_of(10000) as int)
        + fx_mul(div_of(from_int_of(663) as int, from_int_of(10000) as int), r);
    let corr = fx_mul(t, k as i32);
    (8192 * r as int) / 65536 - (10430 * corr as int) / 65536
}

/// The heading of a point whose distance from the x axis is `ay`, before
/// the side of the x axis it is on is taken into account: nought to a
/// half turn.
pub open spec fn half_turn_of(ay: int, x: Fx) -> int {
    let ax = vstd::math::abs(x as int) as int;
    let folded = !(ax >= ay);
    let r = if folded { fx_div(ax as i32, ay as i32) } else { fx_div(ay as i32, ax as i32) };
    let atan = atan_kernel(r);
    let a1 = if folded { 16384 - atan } else { atan };
    if x < 0 { 32768 - a1 } else { a1 }
}

/// The value of [`atan2_approx`]: the fit, folded out of the first octant
/// into the whole turn.
pub open spec fn atan2_of(y: Fx, x: Fx) -> Ang {
    if x == 0 && y == 0 {
        0
    } else {
        let a2 = half_turn_of(vstd::math::abs(y as int) as int, x);
        let a3 = if y < 0 { -a2 } else { a2 };
        (a3 % 65536) as u16
    }
}

/// A cheap arctangent, accurate to about a fifth of a degree: the heading
/// of `(x, y)`, where a quarter turn is the positive y axis.
pub fn atan2_approx(y: Fx, x: Fx) -> (a: Ang)
    requires
        x != i32::MIN,
        y != i32::MIN,
    ensures
        a == atan2_of(y, x),
{
    if x == 0 && y == 0 {
        return 0;
    }
    let ax = fixed::abs(x);
    let ay = fixed::abs(y);
    let (num, den, folded) = if ax >= ay { (ay, ax, false) } else { (ax, ay, true) };
    proof {
        assert(num as int * 65536 / (den as int) <= 65536) by (nonlinear_arith)
            requires
                0 <= num <= den,
                0 < den,
        ;
        fixed::lemma_div_bound(num, den, num as int, den as int);
        fixed::lemma_div_nonneg(num, den);
    }
    let r = fixed::div(num, den);
    let rm = r - ONE;
    proof {
        fixed::lemma_mul_bound(r, rm, 65536, 65536);
        fixed::lemma_mul_nonpos(rm as int, r as int);
        assert(fixed::mul_wide(r as int, rm as int) == fixed::mul_wide(rm as int, r as int)) by (nonlinear_arith);
    }
    let t = fixed::mul(r, rm);
    let a0 = fixed::ratio(2447, 10000);
    let b0 = fixed::ratio(663, 10000);
    proof {
        assert(from_int_of(2447) == 160366592 && from_int_of(663) == 43450368 && from_int_of(10000) == 655360000);
        assert((160366592int * 65536) / 655360000int == 16036) by (nonlinear_arith);
        assert((43450368int * 65536) / 655360000int == 4345) by (nonlinear_arith);
        fixed::lemma_mul_fraction(b0, r);
    }
    let k = a0 + fixed::mul(b0, r);
    proof {
        fixed::lemma_mul_bound(t, k, 65537, 20382);
    }
    let corr = fixed::mul(t, k);
    let p: i64 = 8192i64 * r as i64;
    let q: i64 = 10430i64 * corr as i64;
    proof {
        fixed::lemma_shr16_i64(p);
        fixed::lemma_shr16_i64(q);
    }
    let atan = ((p >> 16u64) - (q >> 16u64)) as i32;
    let a1 = if folded { trig::QUARTER as i32 - atan } else { atan };
    let a2 = if x < 0 { trig::HALF as i32 - a1 } else { a1 };
    let a3 = if y < 0 { -a2 } else { a2 };
    fixed::frac(a3) as u16
}

/// The compass is exact along the axes and on the diagonal: east is
/// nought, south (the positive y axis) a quarter turn, west a half and
/// north three quarters, and a point as far along both axes as it is is
/// an eighth of a turn round.
pub proof fn lemma_the_compass_is_exact_on_the_axes(t: Fx)
    requires
        0 < t,
    ensures
        atan2_of(0, t) == 0,
        atan2_of(t, 0) == 16384,
        atan2_of(0, (-t) as i32) == 32768,
        atan2_of((-t) as i32, 0) == 49152,
        atan2_of(t, t) == 8192,
{
    fixed::lemma_div_nonneg(0, t);
    assert(0int * 65536 / (t as int) == 0);
    assert(fx_div(0, t) == 0);
    assert(atan_kernel(0) == 0) by {
        assert(fx_mul(0, -65536i32) == 0);
        assert(0 * (div_of(from_int_of(2447) as int, from_int_of(10000) as int) + fx_mul(div_of(from_int_of(663) as int, from_int_of(10000) as int), 0)) == 0) by (nonlinear_arith);
    }
    assert((t as int * 65536) / (t as int) == 65536) by (nonlinear_arith)
        requires
            0 < t,
    ;
    assert(fx_div(t, t) == 65536);
    assert(atan_kernel(65536) == 8192) by {
        assert(fx_mul(65536, 0) == 0);
        assert(0 * (div_of(from_int_of(2447) as int, from_int_of(10000) as int) + fx_mul(div_of(from_int_of(663) as int, from_int_of(10000) as int), 65536)) == 0) by (nonlinear_arith);
    }
}

/// Mirroring a point in the x axis mirrors its heading: the compass reads
/// the same angle the other way round.
pub proof fn lemma_the_compass_mirrors(y: Fx, x: Fx)
    requires
        0 < y,
    ensures
        atan2_of((-y) as i32, x) == (65536 - atan2_of(y, x)) % 65536,
{
    let a = half_turn_of(y as int, x);
    assert(vstd::math::abs((-y) as i32 as int) as int == y as int);
    assert((-a) % 65536 == (65536 - a % 65536) % 65536) by (nonlinear_arith);
}

/// How far ahead a driver looks for the car in front: six cells.
pub const LOOK: Fx = 393216;

/// Forward speed below which a negative throttle means reverse: a quarter.
pub const ROLLING: Fx = 16384;

/// The dead band round a wanted speed: a fifth of a unit a second.
pub const SLACK: Fx = 13107;

/// The throttle traffic cruises on: two fifths.
pub const CRUISE_THROTTLE: Fx = 26214;

/// The value of [`follow`]: nothing with no gap, rising in a straight line
/// to eight times the cruising throttle at [`LOOK`] and level after.
pub open spec fn follow_of(gap: Fx) -> int {
    if gap <= 0 {
        0
    } else {
        let t = fx_div(gap, LOOK) as int;
        fx_mul(209712, if t < 65536 { t as i32 } else { 65536i32 }) as int
    }
}

/// The speed that keeps a given gap to the car in front: a following
/// distance rather than a switch, so a queue settles rather than
/// concertinas.
pub fn follow(gap: Fx) -> (v: Fx)
    ensures
        v == follow_of(gap),
        0 <= v <= 209712,
{
    if gap <= 0 {
        return 0;
    }
    let q = fixed::div(gap, LOOK);
    let t = if q < ONE { q } else { ONE };
    proof {
        assert(0 <= q) by {
            fixed::lemma_div_nonneg(gap, LOOK);
        }
        assert(0 <= 209712 * t <= 209712 * 65536) by (nonlinear_arith)
            requires 0 <= t <= 65536;
    }
    fixed::mul(CRUISE_THROTTLE * 8, t)
}

/// A queue settles: the further back the car in front, the faster a
/// driver may go, up to the cruising pace.
pub proof fn lemma_a_longer_gap_is_never_slower(a: Fx, b: Fx)
    requires
        a <= b,
    ensures
        follow_of(a) <= follow_of(b),
{
    if b > 0 {
        fixed::lemma_div_nonneg(b, LOOK);
        let tb = fx_div(b, LOOK) as int;
        let cb = if tb < 65536 { tb } else { 65536 };
        assert(0 <= (209712 * cb) / 65536 <= 209712) by (nonlinear_arith)
            requires 0 <= cb <= 65536;
    }
    if a > 0 {
        fixed::lemma_div_nonneg(a, LOOK);
        fixed::lemma_div_nonneg(b, LOOK);
        let (ta, tb) = (fx_div(a, LOOK) as int, fx_div(b, LOOK) as int);
        assert(ta == (a * 65536) / 393216int);
        assert(tb == (b * 65536) / 393216int);
        assert((a * 65536) / 393216int <= (b * 65536) / 393216int) by (nonlinear_arith)
            requires 0 < a <= b;
        let (ca, cb) = (if ta < 65536 { ta } else { 65536 }, if tb < 65536 { tb } else { 65536 });
        assert((209712 * ca) / 65536 <= (209712 * cb) / 65536) by (nonlinear_arith)
            requires 0 <= ca <= cb;
        assert(0 <= (209712 * ca) / 65536 <= 209712) by (nonlinear_arith)
            requires 0 <= ca <= 65536;
    }
}

/// The value of [`crossing`]: within an eighth of a turn of perpendicular.
pub open spec fn crossing_of(a: Ang, b: Ang) -> bool {
    let d = vstd::math::abs(trig::signed_of(((b + 65536 - a) % 65536) as u16)) as int;
    vstd::math::abs(d - 16384) < 8192
}

/// Whether two headings are crossing rather than sharing a road: on a grid
/// the other car is on the cross street.
pub fn crossing(a: Ang, b: Ang) -> (r: bool)
    ensures
        r == crossing_of(a, b),
{
    let w = b.wrapping_sub(a);
    proof {
        trig::lemma_signed(w);
    }
    let s = w as i16 as i32;
    let d = if s < 0 { -s } else { s };
    let e = d - trig::QUARTER as i32;
    (if e < 0 { -e } else { e }) < trig::QUARTER as i32 / 2
}

/// Crossing is the same from either car: if the other car is crossing my
/// path, I am crossing its.
pub proof fn lemma_crossing_is_mutual(a: Ang, b: Ang)
    ensures
        crossing_of(a, b) == crossing_of(b, a),
{
}

/// The value of [`pace`].
pub open spec fn pace_of(vf: Fx, want: Fx) -> int {
    if vf > want + SLACK {
        if vf > ROLLING { -65536 } else { 0 }
    } else if vf < want - SLACK {
        CRUISE_THROTTLE as int
    } else {
        0
    }
}

/// Throttle or brake to hold a speed, with a dead band round it, and
/// nothing below zero at a standstill: a car that gives way by reversing
/// into the one behind has not given way.
pub fn pace(vf: Fx, want: Fx) -> (t: Fx)
    requires
        0 <= want <= 0x4000_0000,
    ensures
        t == pace_of(vf, want),
{
    if vf > want + SLACK {
        if vf > ROLLING { -ONE } else { 0 }
    } else if vf < want - SLACK {
        CRUISE_THROTTLE
    } else {
        0
    }
}

/// Traffic never reverses to give way: a negative throttle only comes when
/// the car is rolling forwards, where it brakes.
pub proof fn lemma_giving_way_never_reverses(vf: Fx, want: Fx)
    ensures
        pace_of(vf, want) < 0 ==> vf > ROLLING,
{
}

/// Ticks a second the shift is counted in.
pub const SIM_HZ: i32 = 60;

/// What of the cab's speed a flattened prop takes with it: three fifths.
pub const KNOCK: Fx = 39321;

/// What of its speed a tumbling prop keeps from one tick to the next:
/// ninety-three hundredths.
pub const TUMBLE: Fx = 60948;

/// The whole moving city's state that the shift is scored on: the cab,
/// everyone else's cars, the street furniture, the people, the job on the
/// meter, the money, the run of things hit, the clock and the tick.
pub struct Sim {
    /// The car you are driving.
    pub taxi: Car,
    /// Everyone else's cars.
    pub traffic: Vec<Car>,
    /// The street furniture.
    pub props: Vec<Prop>,
    /// The pedestrians.
    pub peds: Vec<Ped>,
    /// The current job, if any.
    pub fare: Option<Fare>,
    /// Money taken this shift, after petrol.
    pub money: i32,
    /// What the petrol has cost so far.
    pub spent: u32,
    /// Consecutive things hit without stopping.
    pub combo: u32,
    /// Ticks left on the clock; negative once the shift is in overtime.
    pub ticks_left: i32,
    /// Frames since the shift began.
    pub tick: u32,
    /// Whether the shift is over.
    pub over: bool,
    /// Whether the cab was on the brakes last tick, for its brake lights.
    pub braking: bool,
    /// Each of the other cars' controls, for their brake lights.
    pub traffic_ctl: Vec<Controls>,
    /// How fast each of the other cars would like to go on a clear road.
    pub traffic_cruise: Vec<Fx>,
    /// Where in its own half of the road each of the other cars likes to
    /// sit, from against the crown to against the kerb.
    pub traffic_bias: Vec<Fx>,
    /// Ticks each of the other cars has left to spend reversing out of a
    /// shunt.
    pub traffic_backing: Vec<u32>,
    /// The shift's own generator, for the errands people run.
    pub rng: Rng,
    /// The billboards of the last frame drawn.
    pub boards: Vec<Billboard>,
    /// Scratch for putting them in order, furthest first.
    pub order: Vec<(Fx, usize)>,
}

/// The value of [`Sim::seconds_left`]: whole seconds on the clock, rounded
/// away from zero once it has run out, so the first tick of overtime reads
/// minus one.
pub open spec fn seconds_left_of(ticks: i32) -> int {
    if ticks >= 0 {
        (ticks as int) / (SIM_HZ as int)
    } else {
        -((-(ticks as int) + SIM_HZ - 1) / (SIM_HZ as int))
    }
}

/// One prop, one tick: a standing prop within the cab's reach of a cab
/// doing better than a cell a second goes over, taking three fifths of the
/// cab's velocity; a fallen one slides, slows and leans a step further
/// every fourth tick until it lies flat; a flat one stays put.  The flag
/// says whether it went over this tick.
pub open spec fn prop_step(p: Prop, taxi: Car, speed: Fx, inv: Fx, tick: u32) -> (Prop, bool) {
    if p.standing {
        let reach = half_len_of(taxi.kind) + p.board.w;
        if vstd::math::abs(p.board.x - taxi.x) < reach && vstd::math::abs(p.board.y - taxi.y) < reach && speed > ONE {
            (Prop { standing: false, vx: fx_mul(taxi.vx, KNOCK), vy: fx_mul(taxi.vy, KNOCK), ..p }, true)
        } else {
            (p, false)
        }
    } else if p.board.lean < 8 {
        (Prop {
            board: Billboard {
                x: (p.board.x + fx_mul(p.vx, inv)) as i32,
                y: (p.board.y + fx_mul(p.vy, inv)) as i32,
                lean: if tick % 4 == 0 { (p.board.lean + 1) as u8 } else { p.board.lean },
                ..p.board
            },
            vx: fx_mul(p.vx, TUMBLE),
            vy: fx_mul(p.vy, TUMBLE),
            ..p
        }, false)
    } else {
        (p, false)
    }
}

/// The first `n` props after a tick, in order, with the run of things hit
/// and the money after them: each prop that goes over adds one to the run
/// and the run to the money.  Also how many went over.
pub open spec fn props_run(props: Seq<Prop>, n: int, taxi: Car, speed: Fx, inv: Fx, tick: u32, combo: int, money: int) -> (Seq<Prop>, int, int, int)
    decreases n,
{
    if n <= 0 {
        (props, combo, money, 0)
    } else {
        let prev = props_run(props, n - 1, taxi, speed, inv, tick, combo, money);
        let (q, hit) = prop_step(props[n - 1], taxi, speed, inv, tick);
        if hit {
            (prev.0.update(n - 1, q), prev.1 + 1, prev.2 + prev.1 + 1, prev.3 + 1)
        } else {
            (prev.0.update(n - 1, q), prev.1, prev.2, prev.3)
        }
    }
}

/// Whether the props are where a tick can move them in 32 bits.
pub open spec fn props_fit(props: Seq<Prop>) -> bool {
    &&& props.len() <= 4096
    &&& forall|i: int| 0 <= i < props.len() ==> {
        let p = #[trigger] props[i];
        &&& -0x3000_0000 <= p.board.x <= 0x3000_0000
        &&& -0x3000_0000 <= p.board.y <= 0x3000_0000
        &&& -0x1000_0000 <= p.vx <= 0x1000_0000
        &&& -0x1000_0000 <= p.vy <= 0x1000_0000
        &&& 0 <= p.board.w <= 0x0100_0000
    }
}

/// The run of things hit only grows by what goes over, and the money by
/// the run at each: never down.
proof fn lemma_props_run_bounds(props: Seq<Prop>, n: int, taxi: Car, speed: Fx, inv: Fx, tick: u32, combo: int, money: int)
    requires
        0 <= n <= props.len(),
        0 <= combo,
    ensures
        props_run(props, n, taxi, speed, inv, tick, combo, money).0.len() == props.len(),
        props_run(props, n, taxi, speed, inv, tick, combo, money).1 == combo + props_run(props, n, taxi, speed, inv, tick, combo, money).3,
        0 <= props_run(props, n, taxi, speed, inv, tick, combo, money).3 <= n,
        money <= props_run(props, n, taxi, speed, inv, tick, combo, money).2 <= money + n * (combo + n),
        forall|i: int| n <= i < props.len() ==> #[trigger] props_run(props, n, taxi, speed, inv, tick, combo, money).0[i] == props[i],
    decreases n,
{
    if n > 0 {
        lemma_props_run_bounds(props, n - 1, taxi, speed, inv, tick, combo, money);
        let prev = props_run(props, n - 1, taxi, speed, inv, tick, combo, money);
        assert((n - 1) * (combo + n - 1) + combo + n <= n * (combo + n)) by (nonlinear_arith)
            requires
                n >= 1,
                combo >= 0,
        ;
        assert(prev.2 + prev.1 + 1 <= money + n * (combo + n)) by (nonlinear_arith)
            requires
                prev.2 <= money + (n - 1) * (combo + n - 1),
                prev.1 == combo + prev.3,
                prev.3 <= n - 1,
                (n - 1) * (combo + n - 1) + combo + n <= n * (combo + n),
        ;
    }
}

impl Sim {
    /// Seconds left on the clock, which goes negative once it has run out:
    /// rounded away from zero there, so the first tick of overtime reads
    /// minus one rather than a zero that looks stuck.
    pub fn seconds_left(&self) -> (s: i32)
        requires
            self.ticks_left > i32::MIN + SIM_HZ,
        ensures
            s == seconds_left_of(self.ticks_left),
    {
        if self.ticks_left >= 0 {
            self.ticks_left / SIM_HZ
        } else {
            -((-self.ticks_left + SIM_HZ - 1) / SIM_HZ)
        }
    }

    /// Where the passenger or the destination is, for the compass and the
    /// marker: on the pavement, which is where people are.
    pub fn target(&self) -> (t: Option<(Fx, Fx)>)
        ensures
            t == match self.fare {
                Some(f) => Some(marker_of(f)),
                None => None,
            },
    {
        match &self.fare {
            Some(f) => Some(f.marker()),
            None => None,
        }
    }

    /// Where a car goes to reach that: the kerb beside the marker.
    pub fn drive_target(&self) -> (t: Option<(Fx, Fx)>)
        ensures
            t == match self.fare {
                Some(f) => Some(stop_of(f)),
                None => None,
            },
    {
        match &self.fare {
            Some(f) => Some(f.stop()),
            None => None,
        }
    }

    /// Bearing from the taxi to the target, relative to where it is
    /// pointing, as a signed angle: zero is dead ahead.
    pub fn target_bearing(&self) -> (b: Option<i32>)
        requires
            self.fare matches Some(f) ==> near_enough(marker_of(f), self.taxi.x, self.taxi.y),
        ensures
            b == match self.fare {
                Some(f) => {
                    let m = marker_of(f);
                    let a = atan2_of((m.1 - self.taxi.y) as i32, (m.0 - self.taxi.x) as i32);
                    Some(crate::atmos::signed_ang(a - self.taxi.yaw) as i32)
                },
                None => None,
            },
    {
        match self.target() {
            Some((tx, ty)) => {
                let dx = tx - self.taxi.x;
                let dy = ty - self.taxi.y;
                let d = atan2_approx(dy, dx).wrapping_sub(self.taxi.yaw);
                proof {
                    assert((d as i16) as int == if d >= 32768 { d - 65536 } else { d as int }) by (bit_vector);
                    assert(d == (atan2_of(dy, dx) - self.taxi.yaw) % 65536);
                }
                Some(d as i16 as i32)
            },
            None => None,
        }
    }

    /// Knock over what the cab runs into, and let what is already falling
    /// finish falling: each prop that goes over adds one to the run of
    /// things hit, the run to the money, and a [`Event::Flattened`] to
    /// `out`.  Nothing that has gone over gets up again.
    pub fn step_props(&mut self, hz: i32, out: &mut Vec<Event>)
        requires
            hz < 32768,
            short(old(self).taxi.vx, old(self).taxi.vy),
            -0x3000_0000 <= old(self).taxi.x <= 0x3000_0000,
            -0x3000_0000 <= old(self).taxi.y <= 0x3000_0000,
            props_fit(old(self).props@),
            old(self).combo <= 4096,
            -0x4000_0000 <= old(self).money <= 0x4000_0000,
        ensures
            ({
                let inv = fx_div(ONE, from_int_of(if hz > 1 { hz as int } else { 1 }));
                let run = props_run(old(self).props@, old(self).props@.len() as int, old(self).taxi,
                    octagonal_len(old(self).taxi.vx, old(self).taxi.vy) as i32, inv, old(self).tick,
                    old(self).combo as int, old(self).money as int);
                &&& final(self).props@ == run.0
                &&& final(self).combo == run.1
                &&& final(self).money == run.2
                &&& final(out)@ == old(out)@ + Seq::new(run.3 as nat, |i: int| Event::Flattened)
            }),
            final(self).taxi == old(self).taxi,
            final(self).traffic@ == old(self).traffic@,
            final(self).peds@ == old(self).peds@,
            final(self).fare == old(self).fare,
            final(self).spent == old(self).spent,
            final(self).ticks_left == old(self).ticks_left,
            final(self).tick == old(self).tick,
            final(self).over == old(self).over,
            *final(self) == (Sim { props: final(self).props, combo: final(self).combo, money: final(self).money, ..*old(self) }),
    {
        let h = if hz > 1 { hz } else { 1 };
        let inv = fixed::div(ONE, fixed::from_int(h));
        proof {
            assert(fixed::trunc_div(4294967296int, h * 65536) == 4294967296int / (h * 65536));
            assert(0 < 4294967296int / (h * 65536) <= 65536) by (nonlinear_arith)
                requires
                    1 <= h < 32768,
            ;
        }
        let speed = self.taxi.speed();
        let ghost props0 = self.props@;
        let ghost (combo0, money0) = (self.combo as int, self.money as int);
        let ghost out0 = out@;
        let n = self.props.len();
        let mut i: usize = 0;
        while i < n
            invariant
                0 <= i <= n,
                n == props0.len(),
                props_fit(props0),
                0 < inv <= ONE,
                combo0 <= 4096,
                -0x4000_0000 <= money0 <= 0x4000_0000,
                -0x3000_0000 <= self.taxi.x <= 0x3000_0000,
                -0x3000_0000 <= self.taxi.y <= 0x3000_0000,
                self.taxi == old(self).taxi,
                self.traffic@ == old(self).traffic@,
                self.peds@ == old(self).peds@,
                self.fare == old(self).fare,
                self.spent == old(self).spent,
                self.ticks_left == old(self).ticks_left,
                self.tick == old(self).tick,
                self.over == old(self).over,
                *self == (Sim { props: self.props, combo: self.combo, money: self.money, ..*old(self) }),
                props0 == old(self).props@,
                combo0 == old(self).combo,
                money0 == old(self).money,
                out0 == old(out)@,
                speed == octagonal_len(self.taxi.vx, self.taxi.vy),
                inv == fx_div(ONE, from_int_of(if hz > 1 { hz as int } else { 1 })),
                ({
                    let run = props_run(props0, i as int, self.taxi, speed, inv, self.tick, combo0, money0);
                    &&& self.props@ == run.0
                    &&& self.combo == run.1
                    &&& self.money == run.2
                    &&& out@ == out0 + Seq::new(run.3 as nat, |k: int| Event::Flattened)
                }),
            decreases n - i,
        {
            proof {
                lemma_props_run_bounds(props0, i as int, self.taxi, speed, inv, self.tick, combo0, money0);
                assert((i as int) * (combo0 + i) <= 4096 * 8192) by (nonlinear_arith)
                    requires
                        0 <= i <= 4096,
                        0 <= combo0 <= 4096,
                ;
            }
            let ghost before = self.props@;
            let mut p = self.props[i];
            assert(p == props0[i as int]);
            let mut hit = false;
            if p.standing {
                let dx = p.board.x - self.taxi.x;
                let dy = p.board.y - self.taxi.y;
                let reach = self.taxi.kind.half_len() + p.board.w;
                if fixed::abs(dx) < reach && fixed::abs(dy) < reach && speed > ONE {
                    p.standing = false;
                    p.vx = fixed::mul(self.taxi.vx, KNOCK);
                    p.vy = fixed::mul(self.taxi.vy, KNOCK);
                    self.combo = self.combo + 1;
                    self.money = self.money + self.combo as i32;
                    out.push(Event::Flattened);
                    hit = true;
                }
            } else if p.board.lean < 8 {
                proof {
                    fixed::lemma_mul_fraction(p.vx, inv);
                    fixed::lemma_mul_fraction(p.vy, inv);
                }
                p.board.x = p.board.x + fixed::mul(p.vx, inv);
                p.board.y = p.board.y + fixed::mul(p.vy, inv);
                p.vx = fixed::mul(p.vx, TUMBLE);
                p.vy = fixed::mul(p.vy, TUMBLE);
                if self.tick % 4 == 0 {
                    p.board.lean = p.board.lean + 1;
                }
            }
            self.props.set(i, p);
            proof {
                let run = props_run(props0, i as int, self.taxi, speed, inv, self.tick, combo0, money0);
                let (q, h2) = prop_step(props0[i as int], self.taxi, speed, inv, self.tick);
                assert(p == q);
                assert(hit == h2);
                assert(out@ =~= out0 + Seq::new((run.3 + if hit { 1int } else { 0int }) as nat, |k: int| Event::Flattened));
            }
            i = i + 1;
        }
    }
}

/// Nothing knocked over gets up again: a prop that is down after a tick,
/// and every prop that was down before it stays down.
pub proof fn lemma_a_flattened_prop_stays_down(p: Prop, taxi: Car, speed: Fx, inv: Fx, tick: u32)
    ensures
        !p.standing ==> !prop_step(p, taxi, speed, inv, tick).0.standing,
        prop_step(p, taxi, speed, inv, tick).1 ==> p.standing && !prop_step(p, taxi, speed, inv, tick).0.standing,
        !p.standing ==> prop_step(p, taxi, speed, inv, tick).0.board.lean >= p.board.lean,
{
}

/// A person's card: a third of a cell wide, six fifths tall.
pub const PED_W: Fx = 21845;
/// How tall a person is drawn.
pub const PED_H: Fx = 78643;
/// The narrowest a spinning coin's card gets, and how much wider it swings.
pub const COIN_W: Fx = 16384;
/// How tall a coin is drawn.
pub const COIN_H: Fx = 39321;
/// How tall the marker over a passenger is.
pub const MARK_H: Fx = 52428;
/// How high the marker floats, and how far it bobs.
pub const MARK_BASE: Fx = 98304;
/// How far the marker bobs.
pub const MARK_BOB: Fx = 13107;
/// How thick the circle painted where the passenger stands is.
pub const RING_W: Fx = 8192;

/// How far from the camera a billboard is still worth drawing: the draw
/// distance, in world units.
pub open spec fn cull_of(a: Atmos) -> int {
    draw_distance_of(a.haze) * 65536
}

/// Whether a point is within the cull distance of the camera, measured
/// along the grid.
pub open spec fn near_cam(cam: Camera, cull: int, x: Fx, y: Fx) -> bool {
    vstd::math::abs(x - cam.x) + vstd::math::abs(y - cam.y) < cull
}

/// An upright card of a stamp.
pub open spec fn upright_of(stamp: Stamp, x: Fx, y: Fx, w: Fx, h: Fx, hue: u8) -> Billboard {
    Billboard { x, y, base: 0, w, h, stamp, hue, phase: 0, lean: 0, view: end_on_aspect() }
}

/// Whether the camera is in front of a car: along its heading from it.
pub open spec fn facing(cam: Camera, c: Car) -> bool {
    fx_mul((cam.x - c.x) as i32, cos_of(c.yaw)) + fx_mul((cam.y - c.y) as i32, sin_of(c.yaw)) > 0
}

/// How a car is seen from the camera.
pub open spec fn car_view(cam: Camera, c: Car) -> Aspect {
    let (len, wid, h) = hull_of(c.kind);
    aspect_of(len, wid, c.yaw, (c.x - cam.x) as i32, (c.y - cam.y) as i32)
}

/// The cab's card: its own body, seen from the camera, with which end is
/// towards you in bit 0 and its brake lights in bit 1.
pub open spec fn taxi_board(cam: Camera, taxi: Car, braking: bool) -> Billboard {
    let view = car_view(cam, taxi);
    Billboard {
        view,
        phase: ((if facing(cam, taxi) { 1int } else { 0 }) + (if braking { 2int } else { 0 })) as u8,
        ..upright_of(Stamp::Taxi, taxi.x, taxi.y, view.width, hull_of(taxi.kind).2, palette::H_YELLOW)
    }
}

/// Which picture a car in the traffic is: a bus, a wreck once it has lost
/// more than sixty of its paint, or a saloon.
pub open spec fn traffic_stamp(c: Car) -> Stamp {
    if c.kind == CarKind::Bus { Stamp::Bus } else if c.damage > 60 { Stamp::Wreck } else { Stamp::Car }
}

/// A car in the traffic's card, with which end is towards you in bit 0 and
/// its brake lights, shown only on its tail, in bit 1.
pub open spec fn traffic_board(cam: Camera, c: Car, braking: bool) -> Billboard {
    let view = car_view(cam, c);
    let front = facing(cam, c);
    Billboard {
        view,
        phase: ((if front { 1int } else { 0 }) + (if braking && !front { 2int } else { 0 })) as u8,
        ..upright_of(traffic_stamp(c), c.x, c.y, view.width, hull_of(c.kind).2, c.hue)
    }
}

/// The cards of the first `n` props that are near the camera, in order,
/// each with the frame's sway phase.
pub open spec fn prop_boards(props: Seq<Prop>, tick: u32, cam: Camera, cull: int, n: int) -> Seq<Billboard>
    decreases n,
{
    if n <= 0 {
        seq![]
    } else {
        let prev = prop_boards(props, tick, cam, cull, n - 1);
        let b = props[n - 1].board;
        if near_cam(cam, cull, b.x, b.y) { prev.push(Billboard { phase: ((tick / 90) % 3) as u8, ..b }) } else { prev }
    }
}

/// The cards of the first `n` cars of the traffic that are near the camera.
pub open spec fn traffic_boards(cars: Seq<Car>, ctl: Seq<Controls>, cam: Camera, cull: int, n: int) -> Seq<Billboard>
    decreases n,
{
    if n <= 0 {
        seq![]
    } else {
        let prev = traffic_boards(cars, ctl, cam, cull, n - 1);
        let c = cars[n - 1];
        if near_cam(cam, cull, c.x, c.y) { prev.push(traffic_board(cam, c, ctl[n - 1].throttle < 0)) } else { prev }
    }
}

/// The cards of the first `n` people near the camera.
pub open spec fn ped_boards(peds: Seq<Ped>, cam: Camera, cull: int, n: int) -> Seq<Billboard>
    decreases n,
{
    if n <= 0 {
        seq![]
    } else {
        let prev = ped_boards(peds, cam, cull, n - 1);
        let pd = peds[n - 1];
        if near_cam(cam, cull, pd.x, pd.y) {
            prev.push(Billboard { phase: pd.phase, ..upright_of(Stamp::Ped, pd.x, pd.y, PED_W, PED_H, pd.hue) })
        } else {
            prev
        }
    }
}

/// How wide a coin's card is on a tick: it pulses as the coin spins.
pub open spec fn coin_w(tick: u32) -> Fx {
    let s = sin_of((((tick as int) * 2400) % 0x1_0000_0000) as u32 as u16);
    (COIN_W + fx_mul(vstd::math::abs(s as int) as i32, COIN_W)) as i32
}

/// The cards of the first `n` coins not yet taken that are near the
/// camera.
pub open spec fn coin_boards(coins: Seq<Coin>, tick: u32, cam: Camera, cull: int, n: int) -> Seq<Billboard>
    decreases n,
{
    if n <= 0 {
        seq![]
    } else {
        let prev = coin_boards(coins, tick, cam, cull, n - 1);
        let c = coins[n - 1];
        if !c.taken && near_cam(cam, cull, c.x, c.y) {
            prev.push(upright_of(Stamp::Coin, c.x, c.y, coin_w(tick), COIN_H, palette::H_YELLOW))
        } else {
            prev
        }
    }
}

/// The marker over the passenger or the destination, bobbing.
pub open spec fn marker_board(f: Fare, tick: u32) -> Billboard {
    let m = marker_of(f);
    let bob = fx_mul(sin_of((((tick as int) * 900) % 0x1_0000_0000) as u32 as u16), MARK_BOB);
    Billboard {
        base: (MARK_BASE + bob) as i32,
        ..upright_of(if f.aboard { Stamp::Dropoff } else { Stamp::Pickup }, m.0, m.1, ONE, MARK_H,
            if f.aboard { palette::H_CYAN } else { palette::H_GREEN })
    }
}

/// Every billboard worth drawing this frame, in the order they are
/// collected: the furniture, the cab, the traffic, the people, the coins
/// and the marker, each only within the cull distance of the camera.
pub open spec fn sim_boards(s: Sim, cam: Camera, a: Atmos) -> Seq<Billboard> {
    let cull = cull_of(a);
    let props = prop_boards(s.props@, s.tick, cam, cull, s.props@.len() as int);
    let taxi = if near_cam(cam, cull, s.taxi.x, s.taxi.y) { seq![taxi_board(cam, s.taxi, s.braking)] } else { seq![] };
    let cars = traffic_boards(s.traffic@, s.traffic_ctl@, cam, cull, s.traffic@.len() as int);
    let peds = ped_boards(s.peds@, cam, cull, s.peds@.len() as int);
    let fare = match s.fare {
        Some(f) => coin_boards(f.coins@, s.tick, cam, cull, f.coins@.len() as int)
            + if near_cam(cam, cull, marker_of(f).0, marker_of(f).1) { seq![marker_board(f, s.tick)] } else { seq![] },
        None => seq![],
    };
    props + taxi + cars + peds + fare
}

/// Whether a point is one the cull can measure in 32 bits.
pub open spec fn placed(x: Fx, y: Fx) -> bool {
    &&& -0x1000_0000 <= x <= 0x1000_0000
    &&& -0x1000_0000 <= y <= 0x1000_0000
}

/// Whether everything in the moving city is somewhere the frame can be
/// worked out from in 32 bits, every car's view of it can be taken, and
/// every car has its controls.
pub open spec fn sim_placed(s: Sim, cam: Camera) -> bool {
    &&& placed(cam.x, cam.y)
    &&& placed(s.taxi.x, s.taxi.y)
    &&& aspect_fits(hull_of(s.taxi.kind).0, hull_of(s.taxi.kind).1, s.taxi.yaw, (s.taxi.x - cam.x) as i32, (s.taxi.y - cam.y) as i32)
    &&& s.traffic_ctl@.len() == s.traffic@.len()
    &&& forall|i: int| 0 <= i < s.traffic@.len() ==> placed(#[trigger] s.traffic@[i].x, s.traffic@[i].y)
        && aspect_fits(hull_of(s.traffic@[i].kind).0, hull_of(s.traffic@[i].kind).1, s.traffic@[i].yaw,
            (s.traffic@[i].x - cam.x) as i32, (s.traffic@[i].y - cam.y) as i32)
    &&& forall|i: int| 0 <= i < s.props@.len() ==> placed(#[trigger] s.props@[i].board.x, s.props@[i].board.y)
    &&& forall|i: int| 0 <= i < s.peds@.len() ==> placed(#[trigger] s.peds@[i].x, s.peds@[i].y)
    &&& (s.fare matches Some(f) ==> {
        &&& placed(marker_of(f).0, marker_of(f).1)
        &&& forall|i: int| 0 <= i < f.coins@.len() ==> placed(#[trigger] f.coins@[i].x, f.coins@[i].y)
    })
}

/// What the circle where the passenger stands leaves at `(x, y)` of a
/// frame that held `was` there.
pub open spec fn ringed_cel(s: Sim, cam: Camera, a: Atmos, p: Proj, depth: Seq<Fx>, w: int, h: int, x: int, y: int, was: Cel) -> Cel {
    match s.fare {
        Some(f) => {
            let m = marker_of(f);
            if near_cam(cam, cull_of(a), m.0, m.1) && on_screen(w, h, x, y) && rings_at(cam, a, p, depth, m.0, m.1, STOP_RADIUS, RING_W, x, y) {
                let luma = 7u8;
                Cel {
                    glyph: crate::catalog::shade_of(6),
                    color: palette::pack(if f.aboard { palette::H_CYAN } else { palette::H_GREEN },
                        if luma >= a.fade_of(ground_dist(p, y)) { (luma - a.fade_of(ground_dist(p, y))) as u8 } else { 0 }),
                }
            } else {
                was
            }
        },
        None => was,
    }
}

/// Whether a point is within `cull` of the camera, along the grid.
fn near(cam: &Camera, cull: Fx, x: Fx, y: Fx) -> (b: bool)
    requires
        placed(cam.x, cam.y),
        placed(x, y),
    ensures
        b == near_cam(*cam, cull as int, x, y),
{
    fixed::abs(x - cam.x) + fixed::abs(y - cam.y) < cull
}

/// Whether the camera is in front of a car.
fn facing_car(cam: &Camera, c: &Car) -> (b: bool)
    requires
        placed(cam.x, cam.y),
        placed(c.x, c.y),
    ensures
        b == facing(*cam, *c),
{
    proof {
        trig::lemma_table_bounds(c.yaw);
        fixed::lemma_mul_bound((cam.x - c.x) as i32, cos_of(c.yaw), 0x2000_0000, 65536);
        fixed::lemma_mul_bound((cam.y - c.y) as i32, sin_of(c.yaw), 0x2000_0000, 65536);
    }
    fixed::mul(cam.x - c.x, trig::cos(c.yaw)) + fixed::mul(cam.y - c.y, trig::sin(c.yaw)) > 0
}

impl Sim {
    /// Collect every billboard worth drawing this frame - the furniture,
    /// the cab, the traffic, the people, the coins and the marker, each only
    /// within the draw distance of the camera along the grid - and draw
    /// them, furthest first, over the circle painted where the passenger
    /// stands.  Only the frame, the billboards and their order change.
    pub fn draw(&mut self, f: &mut Frame, depth: &[Fx], cam: &Camera, atmos: &Atmos, p: &Proj)
        requires
            old(f).wf(),
            day_fits(atmos.day),
            sim_placed(*old(self), *cam),
            forall|i: int| 0 <= i < sim_boards(*old(self), *cam, *atmos).len()
                ==> draw_fits(*cam, *p, #[trigger] sim_boards(*old(self), *cam, *atmos)[i], atmos.haze),
            old(self).fare matches Some(fr) ==> (near_cam(*cam, cull_of(*atmos), marker_of(fr).0, marker_of(fr).1)
                ==> ring_fits(*cam, *p, atmos.haze, marker_of(fr).0, marker_of(fr).1, STOP_RADIUS, RING_W)),
        ensures
            final(self).boards@ == sim_boards(*old(self), *cam, *atmos),
            *final(self) == (Sim { boards: final(self).boards, order: final(self).order, ..*old(self) }),
            final(self).taxi == old(self).taxi,
            final(self).traffic@ == old(self).traffic@,
            final(self).traffic_ctl@ == old(self).traffic_ctl@,
            final(self).props@ == old(self).props@,
            final(self).peds@ == old(self).peds@,
            final(self).fare == old(self).fare,
            final(self).money == old(self).money,
            final(self).spent == old(self).spent,
            final(self).combo == old(self).combo,
            final(self).ticks_left == old(self).ticks_left,
            final(self).tick == old(self).tick,
            final(self).over == old(self).over,
            final(self).braking == old(self).braking,
            final(f).wf(),
            final(f).w == old(f).w && final(f).h == old(f).h,
            furthest_first(*cam, final(self).boards@, final(self).order@),
            exists|mid: Frame| #![trigger mid.w] {
                &&& mid.w == old(f).w
                &&& mid.h == old(f).h
                &&& forall|x: int, y: int| #[trigger] mid.cell(x, y)
                    == ringed_cel(*old(self), *cam, *atmos, *p, depth@, old(f).w as int, old(f).h as int, x, y, old(f).cell(x, y))
                &&& forall|x: int, y: int| #[trigger] final(f).cell(x, y) == cell_after(*cam, *atmos, *p, final(self).boards@,
                    final(self).order@, depth@, mid, final(self).order@.len(), x, y)
            },
    {
        let ghost s0 = *self;
        let ghost all = sim_boards(*self, *cam, *atmos);
        self.boards.clear();
        let cull = fixed::from_int(crate::atmos::draw_distance(atmos.haze));
        let ghost c = cull as int;
        assert(c == cull_of(*atmos));
        match &self.fare {
            Some(fare) => {
                let (mx, my) = fare.marker();
                if near(cam, cull, mx, my) {
                    crate::decal::ring(f, depth, cam, atmos, p, mx, my, STOP_RADIUS, RING_W, crate::catalog::shade(6),
                        if fare.aboard { palette::H_CYAN } else { palette::H_GREEN }, 7);
                }
            },
            None => {},
        }
        let ghost mid = *f;
        let n = self.props.len();
        let mut i: usize = 0;
        while i < n
            invariant
                *self == (Sim { boards: self.boards, ..s0 }),
                n == s0.props@.len(),
                i <= n,
                sim_placed(s0, *cam),
                cull as int == cull_of(*atmos),
                self.boards@ == prop_boards(s0.props@, s0.tick, *cam, cull as int, i as int),
            decreases n - i,
        {
            let b = self.props[i].board;
            if near(cam, cull, b.x, b.y) {
                let mut nb = b;
                nb.phase = ((self.tick / 90) % 3) as u8;
                self.boards.push(nb);
            }
            i = i + 1;
        }
        let ghost after_props = self.boards@;
        if near(cam, cull, self.taxi.x, self.taxi.y) {
            let (len, wid, h) = self.taxi.kind.hull();
            let view = crate::sprite::aspect(len, wid, self.taxi.yaw, self.taxi.x - cam.x, self.taxi.y - cam.y);
            let mut b = Billboard::upright(Stamp::Taxi, self.taxi.x, self.taxi.y, view.width, h, palette::H_YELLOW);
            b.view = view;
            let front: u8 = if facing_car(cam, &self.taxi) { 1 } else { 0 };
            let lamps: u8 = if self.braking { 2 } else { 0 };
            b.phase = front + lamps;
            self.boards.push(b);
        }
        let ghost after_taxi = self.boards@;
        assert(after_taxi =~= after_props + if near_cam(*cam, c, s0.taxi.x, s0.taxi.y) {
            seq![taxi_board(*cam, s0.taxi, s0.braking)]
        } else {
            seq![]
        });
        let n = self.traffic.len();
        let mut i: usize = 0;
        while i < n
            invariant
                *self == (Sim { boards: self.boards, ..s0 }),
                n == s0.traffic@.len(),
                i <= n,
                sim_placed(s0, *cam),
                cull as int == cull_of(*atmos),
                self.boards@ == after_taxi + traffic_boards(s0.traffic@, s0.traffic_ctl@, *cam, cull as int, i as int),
            decreases n - i,
        {
            let car = self.traffic[i];
            assert(placed(s0.traffic@[i as int].x, s0.traffic@[i as int].y));
            if near(cam, cull, car.x, car.y) {
                let (len, wid, h) = car.kind.hull();
                let view = crate::sprite::aspect(len, wid, car.yaw, car.x - cam.x, car.y - cam.y);
                let stamp = if car.kind == CarKind::Bus {
                    Stamp::Bus
                } else if car.damage > 60 {
                    Stamp::Wreck
                } else {
                    Stamp::Car
                };
                let mut b = Billboard::upright(stamp, car.x, car.y, view.width, h, car.hue);
                b.view = view;
                let front = facing_car(cam, &car);
                let braking = self.traffic_ctl[i].throttle < 0;
                let bit0: u8 = if front { 1 } else { 0 };
                let bit1: u8 = if braking && !front { 2 } else { 0 };
                b.phase = bit0 + bit1;
                self.boards.push(b);
                assert(self.boards@ =~= after_taxi + traffic_boards(s0.traffic@, s0.traffic_ctl@, *cam, cull as int, (i + 1) as int));
            }
            i = i + 1;
        }
        let ghost after_cars = self.boards@;
        let n = self.peds.len();
        let mut i: usize = 0;
        while i < n
            invariant
                *self == (Sim { boards: self.boards, ..s0 }),
                n == s0.peds@.len(),
                i <= n,
                sim_placed(s0, *cam),
                cull as int == cull_of(*atmos),
                self.boards@ == after_cars + ped_boards(s0.peds@, *cam, cull as int, i as int),
            decreases n - i,
        {
            let pd = self.peds[i];
            assert(placed(s0.peds@[i as int].x, s0.peds@[i as int].y));
            if near(cam, cull, pd.x, pd.y) {
                let mut b = Billboard::upright(Stamp::Ped, pd.x, pd.y, PED_W, PED_H, pd.hue);
                b.phase = pd.phase;
                self.boards.push(b);
                assert(self.boards@ =~= after_cars + ped_boards(s0.peds@, *cam, cull as int, (i + 1) as int));
            }
            i = i + 1;
        }
        let ghost after_peds = self.boards@;
        let ghost mut fare_boards: Seq<Billboard> = seq![];
        match &self.fare {
            Some(fare) => {
                let n = fare.coins.len();
                let mut i: usize = 0;
                let s = trig::sin(self.tick.wrapping_mul(2400) as u16);
                proof {
                    trig::lemma_table_bounds(self.tick.wrapping_mul(2400) as u16);
                }
                let sa = fixed::abs(s);
                proof {
                    fixed::lemma_mul_bound(sa, COIN_W, 65536, 65536);
                }
                let w = COIN_W + fixed::mul(sa, COIN_W);
                assert(w == coin_w(s0.tick));
                while i < n
                    invariant
                        n == fare.coins@.len(),
                        s0.fare == Some(*fare),
                        i <= n,
                        sim_placed(s0, *cam),
                        cull as int == cull_of(*atmos),
                        w == coin_w(s0.tick),
                        self.boards@ == after_peds + coin_boards(fare.coins@, s0.tick, *cam, cull as int, i as int),
                        *self == (Sim { boards: self.boards, ..s0 }),
                    decreases n - i,
                {
                    let coin = fare.coins[i];
                    assert(placed(fare.coins@[i as int].x, fare.coins@[i as int].y));
                    if !coin.taken && near(cam, cull, coin.x, coin.y) {
                        let b = Billboard::upright(Stamp::Coin, coin.x, coin.y, w, COIN_H, palette::H_YELLOW);
                        self.boards.push(b);
                        assert(self.boards@ =~= after_peds + coin_boards(fare.coins@, s0.tick, *cam, cull as int, (i + 1) as int));
                    }
                    i = i + 1;
                }
                let (mx, my) = fare.marker();
                let ghost after_coins = self.boards@;
                if near(cam, cull, mx, my) {
                    let stamp = if fare.aboard { Stamp::Dropoff } else { Stamp::Pickup };
                    let hue = if fare.aboard { palette::H_CYAN } else { palette::H_GREEN };
                    let mut b = Billboard::upright(stamp, mx, my, ONE, MARK_H, hue);
                    let bob_s = trig::sin(self.tick.wrapping_mul(900) as u16);
                    proof {
                        trig::lemma_table_bounds(self.tick.wrapping_mul(900) as u16);
                        fixed::lemma_mul_bound(bob_s, MARK_BOB, 65536, 65536);
                    }
                    b.base = MARK_BASE + fixed::mul(bob_s, MARK_BOB);
                    self.boards.push(b);
                }
                proof {
                    fare_boards = coin_boards(fare.coins@, s0.tick, *cam, cull as int, n as int)
                        + if near_cam(*cam, c, marker_of(*fare).0, marker_of(*fare).1) { seq![marker_board(*fare, s0.tick)] } else { seq![] };
                    assert(self.boards@ =~= after_peds + fare_boards);
                }
            },
            None => {},
        }
        proof {
            assert(self.boards@ =~= all);
        }
        let ghost boards_now = self.boards@;
        crate::sprite::draw_all(f, depth, cam, atmos, p, self.boards.as_mut_slice(), &mut self.order);
        assert(self.boards@ == boards_now);
        assert(mid.w == f.w);
    }
}

/// How far to either side of a car's line another counts as in its lane:
/// nine tenths of a cell.
pub const CORRIDOR: Fx = 58982;

/// How close a junction is, up the road and to the right, for giving way:
/// four and a half cells.
pub const JUNCTION: Fx = 294912;

/// How much clear road a shunted car wants in front before it stops
/// backing away: four cells.
pub const CLEAR: Fx = 262144;

/// How far up the road from car `c` another car `o` is.
pub open spec fn lon_of(c: Car, o: Car) -> int {
    fx_mul((o.x - c.x) as i32, cos_of(c.yaw)) + fx_mul((o.y - c.y) as i32, sin_of(c.yaw))
}

/// How far to the right of car `c`'s line another car `o` is.
pub open spec fn lat_of(c: Car, o: Car) -> int {
    fx_mul((o.x - c.x) as i32, (-sin_of(c.yaw)) as i32) + fx_mul((o.y - c.y) as i32, cos_of(c.yaw))
}

/// Whether `o` is in front of `c`, within `reach`, in its lane - or
/// alongside it, no further back than its middle.
pub open spec fn in_the_way(c: Car, o: Car, reach: Fx) -> bool {
    lon_of(c, o) > -half_len_of(c.kind) && lon_of(c, o) < reach && vstd::math::abs(lat_of(c, o)) < CORRIDOR
}

/// The value of [`Sim::crowded`]: whether any other car of the traffic, or
/// the cab, is in the way of car `i`.
pub open spec fn crowded_of(s: Sim, i: int, reach: Fx) -> bool {
    ||| exists|j: int| 0 <= j < s.traffic@.len() && j != i && in_the_way(s.traffic@[i], #[trigger] s.traffic@[j], reach)
    ||| in_the_way(s.traffic@[i], s.taxi, reach)
}

/// How fast car `c` should go, wanting `want`, once it has seen `o`: no
/// faster than the gap to `o` allows if `o` is ahead in its lane, not at
/// all if `o` is rolling across its nose from the right near a junction,
/// and as it was otherwise.
pub open spec fn yield_to(c: Car, o: Car, want: Fx) -> Fx {
    let lon = lon_of(c, o);
    let lat = lat_of(c, o);
    if lon <= 0 {
        want
    } else if vstd::math::abs(lat) < CORRIDOR && lon < LOOK {
        let f = follow_of((lon - half_len_of(c.kind) - half_len_of(o.kind)) as i32);
        if f < want { f as i32 } else { want }
    } else if lat > 0 && lat < JUNCTION && lon < JUNCTION && crossing_of(c.yaw, o.yaw) && octagonal_len(o.vx, o.vy) > ROLLING {
        0
    } else {
        want
    }
}

/// Car `i`'s cruising speed after seeing the first `n` cars of the
/// traffic, itself excepted.
pub open spec fn give_way_fold(s: Sim, i: int, n: int) -> Fx
    decreases n,
{
    if n <= 0 {
        s.traffic_cruise@[i]
    } else {
        let w = give_way_fold(s, i, n - 1);
        if n - 1 == i { w } else { yield_to(s.traffic@[i], s.traffic@[n - 1], w) }
    }
}

/// The value of [`Sim::give_way`]: the cruise, lowered for every car of
/// the traffic and then for the cab.
pub open spec fn give_way_of(s: Sim, i: int) -> Fx {
    yield_to(s.traffic@[i], s.taxi, give_way_fold(s, i, s.traffic@.len() as int))
}

/// Whether the traffic and the cab are where a car's view of them can be
/// worked out in 32 bits, and each car of the traffic has a cruise.
pub open spec fn traffic_placed(s: Sim) -> bool {
    &&& placed(s.taxi.x, s.taxi.y)
    &&& short(s.taxi.vx, s.taxi.vy)
    &&& s.traffic_cruise@.len() == s.traffic@.len()
    &&& forall|j: int| 0 <= j < s.traffic@.len() ==> placed(#[trigger] s.traffic@[j].x, s.traffic@[j].y)
        && short(s.traffic@[j].vx, s.traffic@[j].vy)
}

/// Where `o` is in `c`'s frame: up the road and to the right.
fn frame_of(c: &Car, o: &Car) -> (r: (Fx, Fx))
    requires
        placed(c.x, c.y),
        placed(o.x, o.y),
    ensures
        r.0 == lon_of(*c, *o),
        r.1 == lat_of(*c, *o),
        -0x4100_0000 <= r.0 <= 0x4100_0000,
        -0x4100_0000 <= r.1 <= 0x4100_0000,
{
    proof {
        trig::lemma_table_bounds(c.yaw);
        fixed::lemma_mul_bound((o.x - c.x) as i32, cos_of(c.yaw), 0x2000_0000, 65536);
        fixed::lemma_mul_bound((o.y - c.y) as i32, sin_of(c.yaw), 0x2000_0000, 65536);
        fixed::lemma_mul_bound((o.x - c.x) as i32, (-sin_of(c.yaw)) as i32, 0x2000_0000, 65536);
        fixed::lemma_mul_bound((o.y - c.y) as i32, cos_of(c.yaw), 0x2000_0000, 65536);
    }
    let (fx, fy) = (trig::cos(c.yaw), trig::sin(c.yaw));
    let (dx, dy) = (o.x - c.x, o.y - c.y);
    (fixed::mul(dx, fx) + fixed::mul(dy, fy), fixed::mul(dx, -fy) + fixed::mul(dy, fx))
}

/// The value of [`yield_to`].
fn yield_for(c: &Car, o: &Car, want: Fx) -> (v: Fx)
    requires
        placed(c.x, c.y),
        placed(o.x, o.y),
        short(o.vx, o.vy),
    ensures
        v == yield_to(*c, *o, want),
{
    let (lon, lat) = frame_of(c, o);
    if lon <= 0 {
        return want;
    }
    if fixed::abs(lat) < CORRIDOR && lon < LOOK {
        let gap = lon - c.kind.half_len() - o.kind.half_len();
        let f = follow(gap);
        if f < want { f } else { want }
    } else if lat > 0 && lat < JUNCTION && lon < JUNCTION && crossing(c.yaw, o.yaw) && o.speed() > ROLLING {
        0
    } else {
        want
    }
}

impl Sim {
    /// Whether anything - another car of the traffic or the cab - is in
    /// the way of car `i`: in its lane, in front of its middle and within
    /// `reach`.
    pub fn crowded(&self, i: usize, reach: Fx) -> (b: bool)
        requires
            i < self.traffic@.len(),
            traffic_placed(*self),
        ensures
            b == crowded_of(*self, i as int, reach),
    {
        let c = self.traffic[i];
        let n = self.traffic.len();
        let mut j: usize = 0;
        while j < n
            invariant
                n == self.traffic@.len(),
                i < n,
                j <= n,
                c == self.traffic@[i as int],
                traffic_placed(*self),
                forall|k: int| 0 <= k < j && k != i ==> !in_the_way(c, #[trigger] self.traffic@[k], reach),
            decreases n - j,
        {
            if j != i {
                let o = self.traffic[j];
                assert(placed(self.traffic@[j as int].x, self.traffic@[j as int].y));
                let (lon, lat) = frame_of(&c, &o);
                if lon > -c.kind.half_len() && lon < reach && fixed::abs(lat) < CORRIDOR {
                    return true;
                }
            }
            j = j + 1;
        }
        let (lon, lat) = frame_of(&c, &self.taxi);
        lon > -c.kind.half_len() && lon < reach && fixed::abs(lat) < CORRIDOR
    }

    /// The fastest car `i` should go, given what is in front of it: no
    /// faster than the gap to anything ahead in its lane allows, and not at
    /// all while something rolls across its nose from the right near a
    /// junction.  The cab counts, after the traffic.
    pub fn give_way(&self, i: usize) -> (v: Fx)
        requires
            i < self.traffic@.len(),
            traffic_placed(*self),
        ensures
            v == give_way_of(*self, i as int),
    {
        let c = self.traffic[i];
        let mut want = self.traffic_cruise[i];
        let n = self.traffic.len();
        let mut j: usize = 0;
        while j < n
            invariant
                n == self.traffic@.len(),
                i < n,
                j <= n,
                c == self.traffic@[i as int],
                traffic_placed(*self),
                want == give_way_fold(*self, i as int, j as int),
            decreases n - j,
        {
            if j != i {
                let o = self.traffic[j];
                assert(placed(self.traffic@[j as int].x, self.traffic@[j as int].y));
                want = yield_for(&c, &o, want);
            }
            j = j + 1;
        }
        yield_for(&c, &self.taxi, want)
    }
}

/// Following speeds lie between a stop and eight times the cruising
/// throttle.
proof fn lemma_follow_range(gap: Fx)
    ensures
        0 <= follow_of(gap) <= 209712,
{
    if gap > 0 {
        fixed::lemma_div_nonneg(gap, LOOK);
        let t0 = fx_div(gap, LOOK) as int;
        let t: int = if t0 < 65536 { t0 } else { 65536 };
        assert(0 <= 209712 * t <= 209712 * 65536) by (nonlinear_arith)
            requires
                0 <= t <= 65536,
        ;
    }
}

/// Seeing another car never makes a car want to go faster, and a car that
/// wanted to go at all still wants to go no slower than standing.
proof fn lemma_yield_never_speeds_up(c: Car, o: Car, want: Fx)
    requires
        want >= 0,
    ensures
        0 <= yield_to(c, o, want) <= want,
{
    let lon = lon_of(c, o);
    if lon > 0 && vstd::math::abs(lat_of(c, o)) < CORRIDOR && lon < LOOK {
        lemma_follow_range((lon - half_len_of(c.kind) - half_len_of(o.kind)) as i32);
    }
}

/// The give-way fold only ever lowers the cruise, and never below a stop.
proof fn lemma_give_way_fold_bounds(s: Sim, i: int, n: int)
    requires
        s.traffic_cruise@[i] >= 0,
    ensures
        0 <= give_way_fold(s, i, n) <= s.traffic_cruise@[i],
    decreases n,
{
    if n > 0 {
        lemma_give_way_fold_bounds(s, i, n - 1);
        if n - 1 != i {
            lemma_yield_never_speeds_up(s.traffic@[i], s.traffic@[n - 1], give_way_fold(s, i, n - 1));
        }
    }
}

/// Traffic gives way: a car never wants to go faster than its own cruise
/// and never wants to reverse, and it stops for the cab rolling across its
/// nose from the right near a junction.
pub proof fn lemma_traffic_gives_way(s: Sim, i: int)
    requires
        0 <= i < s.traffic@.len(),
        s.traffic_cruise@[i] >= 0,
    ensures
        0 <= give_way_of(s, i) <= s.traffic_cruise@[i],
        ({
            let c = s.traffic@[i];
            let lat = lat_of(c, s.taxi);
            let lon = lon_of(c, s.taxi);
            (0 < lon < JUNCTION && 0 < lat < JUNCTION && !(lat < CORRIDOR && lon < LOOK)
                && crossing_of(c.yaw, s.taxi.yaw) && octagonal_len(s.taxi.vx, s.taxi.vy) > ROLLING) ==> give_way_of(s, i) == 0
        }),
{
    lemma_give_way_fold_bounds(s, i, s.traffic@.len() as int);
    lemma_yield_never_speeds_up(s.traffic@[i], s.taxi, give_way_fold(s, i, s.traffic@.len() as int));
}

/// How fast people walk: two fifths of a cell a second.
pub const PED_PACE: Fx = 26214;

/// How far, along either axis, a person looks for somewhere to walk to.
pub const ERRAND: i32 = 18;

/// Where a person at `from` decides to walk to, and the generator's state
/// after deciding: the first of up to forty darts within [`ERRAND`] cells
/// of them, along each axis, that lands on the walking network, or where
/// they are if none does.
pub open spec fn goal_search(walk: WalkMap, from: (i32, i32), state: u32, k: int) -> ((i32, i32), u32)
    decreases 40 - k,
{
    if k >= 40 {
        (from, state)
    } else {
        let s1 = xorshift(state);
        let x = from.0 - ERRAND + scale_below(s1, 37);
        let s2 = xorshift(s1);
        let y = from.1 - ERRAND + scale_below(s2, 37);
        if walk.open_at(x, y) { ((x as i32, y as i32), s2) } else { goal_search(walk, from, s2, k + 1) }
    }
}

/// Where a person stands, in cells.
pub open spec fn ped_cell(p: Ped) -> (i32, i32) {
    (fx_floor(p.x) as i32, fx_floor(p.y) as i32)
}

/// One person, one tick: facing the network's next step towards their
/// goal (or as they were, when it has none for them), a pace along that
/// heading on each axis that keeps them on the network, and a stride
/// every twenty-four ticks.  The flag says they need a new errand.
pub open spec fn ped_moved(walk: WalkMap, p: Ped, i: int, tick: u32, inv: Fx) -> (Ped, bool) {
    let step = step_toward_of(walk, ped_cell(p), p.goal);
    let dir = match step {
        Some(a) => a,
        None => p.dir,
    };
    let nx = (p.x + fx_mul(fx_mul(cos_of(dir), PED_PACE), inv)) as i32;
    let ny = (p.y + fx_mul(fx_mul(sin_of(dir), PED_PACE), inv)) as i32;
    let x1 = if walk.open_at(fx_floor(nx), fx_floor(p.y)) { nx } else { p.x };
    let y1 = if walk.open_at(fx_floor(x1), fx_floor(ny)) { ny } else { p.y };
    let phase = if ((tick + i) % 0x1_0000_0000) % 24 == 0 { p.phase ^ 1u8 } else { p.phase };
    (Ped { x: x1, y: y1, dir, phase, ..p }, step is None)
}

/// The indices of the first `n` people who need a new errand after their
/// step, in order.
pub open spec fn stuck_list(walk: WalkMap, peds: Seq<Ped>, tick: u32, inv: Fx, n: int) -> Seq<usize>
    decreases n,
{
    if n <= 0 {
        seq![]
    } else {
        let prev = stuck_list(walk, peds, tick, inv, n - 1);
        if ped_moved(walk, peds[n - 1], n - 1, tick, inv).1 { prev.push((n - 1) as usize) } else { prev }
    }
}

/// New errands for the first `k` people listed, in order, from generator
/// state `state`: the people after, and the state after.
pub open spec fn regoal_list(walk: WalkMap, peds: Seq<Ped>, list: Seq<usize>, k: int, state: u32) -> (Seq<Ped>, u32)
    decreases k,
{
    if k <= 0 {
        (peds, state)
    } else {
        let (ps, st) = regoal_list(walk, peds, list, k - 1, state);
        let i = list[k - 1] as int;
        let (g, st2) = goal_search(walk, ped_cell(ps[i]), st, 0);
        (ps.update(i, Ped { goal: g, ..ps[i] }), st2)
    }
}

/// The people after a tick, and the generator's state: everyone steps,
/// those with nowhere to go are sent somewhere new in order, and every
/// thirty-seventh tick one more, in turn, is sent on a new errand anyway.
pub open spec fn peds_after(walk: WalkMap, peds: Seq<Ped>, tick: u32, inv: Fx, state: u32) -> (Seq<Ped>, u32) {
    let moved = Seq::new(peds.len(), |i: int| ped_moved(walk, peds[i], i, tick, inv).0);
    let stuck = stuck_list(walk, peds, tick, inv, peds.len() as int);
    let (ps, st) = regoal_list(walk, moved, stuck, stuck.len() as int, state);
    if tick % 37 == 0 && ps.len() > 0 {
        let i = ((tick / 37) as int) % (ps.len() as int);
        let (g, st2) = goal_search(walk, ped_cell(ps[i]), st, 0);
        (ps.update(i, Ped { goal: g, ..ps[i] }), st2)
    } else {
        (ps, st)
    }
}

/// Whether a person is somewhere a tick's arithmetic fits: within a few
/// thousand cells of the origin, with a goal there too.
pub open spec fn ped_placed(p: Ped) -> bool {
    &&& -0x1000_0000 <= p.x <= 0x1000_0000
    &&& -0x1000_0000 <= p.y <= 0x1000_0000
    &&& -0x1000 <= p.goal.0 <= 0x1000
    &&& -0x1000 <= p.goal.1 <= 0x1000
}

/// The indices listed are people, in increasing order.
proof fn lemma_stuck_list(walk: WalkMap, peds: Seq<Ped>, tick: u32, inv: Fx, n: int)
    requires
        0 <= n <= peds.len(),
    ensures
        stuck_list(walk, peds, tick, inv, n).len() <= n,
        forall|k: int| 0 <= k < stuck_list(walk, peds, tick, inv, n).len() ==> #[trigger] stuck_list(walk, peds, tick, inv, n)[k] < n,
    decreases n,
{
    if n > 0 {
        lemma_stuck_list(walk, peds, tick, inv, n - 1);
    }
}

/// New errands change only goals: everyone stays where they stood.
proof fn lemma_regoal_keeps_places(walk: WalkMap, peds: Seq<Ped>, list: Seq<usize>, k: int, state: u32)
    requires
        0 <= k <= list.len(),
        forall|m: int| 0 <= m < list.len() ==> #[trigger] list[m] < peds.len(),
    ensures
        regoal_list(walk, peds, list, k, state).0.len() == peds.len(),
        forall|i: int| 0 <= i < peds.len() ==> (#[trigger] regoal_list(walk, peds, list, k, state).0[i]).x == peds[i].x
            && regoal_list(walk, peds, list, k, state).0[i].y == peds[i].y,
    decreases k,
{
    if k > 0 {
        lemma_regoal_keeps_places(walk, peds, list, k - 1, state);
    }
}

impl Sim {
    /// Somewhere a person at `from` could be walking to: the first of up
    /// to forty darts within eighteen cells that lands on the walking
    /// network, or where they are.
    pub fn walk_goal(&mut self, walk: &WalkMap, from: (i32, i32)) -> (g: (i32, i32))
        requires
            -0x4000_0000 <= from.0 <= 0x4000_0000,
            -0x4000_0000 <= from.1 <= 0x4000_0000,
        ensures
            (g, final(self).rng.state()) == goal_search(*walk, from, old(self).rng.state(), 0),
            *final(self) == (Sim { rng: final(self).rng, ..*old(self) }),
    {
        let ghost s0 = self.rng.state();
        let mut k: usize = 0;
        while k < 40
            invariant
                k <= 40,
                -0x4000_0000 <= from.0 <= 0x4000_0000,
                -0x4000_0000 <= from.1 <= 0x4000_0000,
                goal_search(*walk, from, self.rng.state(), k as int) == goal_search(*walk, from, s0, 0),
                *self == (Sim { rng: self.rng, ..*old(self) }),
                s0 == old(self).rng.state(),
            decreases 40 - k,
        {
            let x = from.0 + self.rng.range(-ERRAND, ERRAND);
            let y = from.1 + self.rng.range(-ERRAND, ERRAND);
            if walk.passable(x, y) {
                return (x, y);
            }
            k = k + 1;
        }
        from
    }

    /// Walk the people along the walking network: each faces the
    /// network's next step towards where they are going and steps a pace,
    /// each axis only onto the network; anybody with nowhere to step is
    /// sent on a new errand, and every thirty-seventh tick one more is, in
    /// turn, so that a crowd does not settle.
    #[verifier::rlimit(40)]
    pub fn step_peds(&mut self, walk: &WalkMap, hz: i32)
        requires
            hz < 32768,
            old(self).peds@.len() <= 0x1000_0000,
            forall|i: int| 0 <= i < old(self).peds@.len() ==> ped_placed(#[trigger] old(self).peds@[i]),
        ensures
            ({
                let inv = fx_div(ONE, from_int_of(if hz > 1 { hz as int } else { 1 }));
                let out = peds_after(*walk, old(self).peds@, old(self).tick, inv, old(self).rng.state());
                &&& final(self).peds@ == out.0
                &&& final(self).rng.state() == out.1
            }),
            *final(self) == (Sim { peds: final(self).peds, rng: final(self).rng, ..*old(self) }),
    {
        let h = if hz > 1 { hz } else { 1 };
        let inv = fixed::div(ONE, fixed::from_int(h));
        proof {
            assert(fixed::trunc_div(4294967296int, h * 65536) == 4294967296int / (h * 65536));
            assert(0 < 4294967296int / (h * 65536) <= 65536) by (nonlinear_arith)
                requires
                    1 <= h < 32768,
            ;
        }
        let ghost peds0 = self.peds@;
        let ghost s0 = *self;
        let n = self.peds.len();
        let mut regoal: Vec<usize> = Vec::new();
        let mut i: usize = 0;
        while i < n
            invariant
                0 <= i <= n,
                n == peds0.len(),
                n <= 0x1000_0000,
                0 < inv <= ONE,
                inv == fx_div(ONE, from_int_of(if hz > 1 { hz as int } else { 1 })),
                forall|k: int| 0 <= k < n ==> ped_placed(#[trigger] peds0[k]),
                *self == (Sim { peds: self.peds, ..s0 }),
                s0.peds@ == peds0,
                self.peds@.len() == n,
                forall|k: int| 0 <= k < i ==> #[trigger] self.peds@[k] == ped_moved(*walk, peds0[k], k, s0.tick, inv).0,
                forall|k: int| i <= k < n ==> #[trigger] self.peds@[k] == peds0[k],
                forall|k: int| 0 <= k < n ==> -0x1000_0000 - 65536 <= (#[trigger] self.peds@[k]).x <= 0x1000_0000 + 65536
                    && -0x1000_0000 - 65536 <= self.peds@[k].y <= 0x1000_0000 + 65536,
                regoal@ == stuck_list(*walk, peds0, s0.tick, inv, i as int),
            decreases n - i,
        {
            let mut p = self.peds[i];
            assert(ped_placed(peds0[i as int]));
            let at = (fixed::floor(p.x), fixed::floor(p.y));
            match walk.step_toward(at, p.goal) {
                Some(a) => {
                    p.dir = a;
                },
                None => {
                    regoal.push(i);
                },
            }
            proof {
                trig::lemma_table_bounds(p.dir);
                fixed::lemma_mul_bound(cos_of(p.dir), PED_PACE, 65536, 26214);
                fixed::lemma_mul_bound(sin_of(p.dir), PED_PACE, 65536, 26214);
                fixed::lemma_mul_bound(fx_mul(cos_of(p.dir), PED_PACE), inv, 26215, 65536);
                fixed::lemma_mul_bound(fx_mul(sin_of(p.dir), PED_PACE), inv, 26215, 65536);
            }
            let nx = p.x + fixed::mul(fixed::mul(trig::cos(p.dir), PED_PACE), inv);
            let ny = p.y + fixed::mul(fixed::mul(trig::sin(p.dir), PED_PACE), inv);
            if walk.passable(fixed::floor(nx), fixed::floor(p.y)) {
                p.x = nx;
            }
            if walk.passable(fixed::floor(p.x), fixed::floor(ny)) {
                p.y = ny;
            }
            if self.tick.wrapping_add(i as u32) % 24 == 0 {
                p.phase = p.phase ^ 1;
            }
            self.peds.set(i, p);
            i = i + 1;
        }
        let ghost moved = self.peds@;
        proof {
            assert(moved =~= Seq::new(peds0.len(), |k: int| ped_moved(*walk, peds0[k], k, s0.tick, inv).0));
            lemma_stuck_list(*walk, peds0, s0.tick, inv, n as int);
        }
        let ghost st0 = self.rng.state();
        let m = regoal.len();
        let mut k: usize = 0;
        while k < m
            invariant
                0 <= k <= m,
                m == regoal@.len(),
                n == peds0.len(),
                regoal@ == stuck_list(*walk, peds0, s0.tick, inv, n as int),
                forall|j: int| 0 <= j < m ==> #[trigger] regoal@[j] < n,
                *self == (Sim { peds: self.peds, rng: self.rng, ..s0 }),
                st0 == s0.rng.state(),
                moved.len() == n,
                (self.peds@, self.rng.state()) == regoal_list(*walk, moved, regoal@, k as int, st0),
                forall|j: int| 0 <= j < n ==> -0x1000_0000 - 65536 <= (#[trigger] moved[j]).x <= 0x1000_0000 + 65536
                    && -0x1000_0000 - 65536 <= moved[j].y <= 0x1000_0000 + 65536,
            decreases m - k,
        {
            let j = regoal[k];
            proof {
                lemma_regoal_keeps_places(*walk, moved, regoal@, k as int, st0);
            }
            let at = (fixed::floor(self.peds[j].x), fixed::floor(self.peds[j].y));
            let goal = self.walk_goal(walk, at);
            let mut p = self.peds[j];
            p.goal = goal;
            self.peds.set(j, p);
            k = k + 1;
        }
        if self.tick % 37 == 0 && self.peds.len() > 0 {
            let j = (self.tick as usize / 37) % self.peds.len();
            proof {
                lemma_regoal_keeps_places(*walk, moved, regoal@, m as int, st0);
            }
            let at = (fixed::floor(self.peds[j].x), fixed::floor(self.peds[j].y));
            let goal = self.walk_goal(walk, at);
            let mut p = self.peds[j];
            p.goal = goal;
            self.peds.set(j, p);
        }
    }
}

/// People keep to the walking network: somebody standing on it is still
/// on it after their step, whichever way they were facing.
pub proof fn lemma_people_keep_to_the_network(walk: WalkMap, p: Ped, i: int, tick: u32, inv: Fx)
    requires
        walk.open_at(fx_floor(p.x), fx_floor(p.y)),
    ensures
        walk.open_at(fx_floor(ped_moved(walk, p, i, tick, inv).0.x), fx_floor(ped_moved(walk, p, i, tick, inv).0.y)),
{
}

/// How far off its line a car's heading is worth a full lock: a tenth of
/// a turn, in angle units.
pub const LANE_LOCK: i32 = 6500;

/// The most the cross-track term asks of the wheel: half a lock.
pub const LANE_CROSS: Fx = 32768;

/// How much the wheel is taken back for each unit of yaw rate: a half.
pub const LANE_DAMP: Fx = 32768;

/// How much speed along an axis counts as going that way: an eighth.
pub const INTENT_SPEED: Fx = 8192;

/// A component of a car's motion, or of its heading when it is barely
/// moving that way.
pub open spec fn leading(v: Fx, f: Fx) -> Fx {
    if vstd::math::abs(v as int) > HALF { v } else { f }
}

/// A number's direction: one way or the other.
pub open spec fn sign_of(v: int) -> i32 {
    if v > 0 { 1i32 } else { -1i32 }
}

/// Which way along the street a car in the traffic is trying to go, from
/// the plan's row and column through its cell: its own direction of
/// travel resolved onto the street's axis while it has any along it;
/// otherwise the flow of the side of the road it is on; otherwise its
/// heading, resolved onto the nearer axis.
pub open spec fn intent_of(row: Strip, col: Strip, c: Car) -> (i32, i32) {
    let (fx, fy) = (cos_of(c.yaw), sin_of(c.yaw));
    let dx = leading(c.vx, fx);
    let dy = leading(c.vy, fy);
    let ax = street_axis_of(row, col);
    if ax == Some(true) && vstd::math::abs(dx as int) > INTENT_SPEED {
        (sign_of(dx as int), 0)
    } else if ax == Some(false) && vstd::math::abs(dy as int) > INTENT_SPEED {
        (0, sign_of(dy as int))
    } else {
        match flow_of(row, col, fx_floor(c.x), fx_floor(c.y)) {
            Some(f) => f,
            None => if vstd::math::abs(fx as int) >= vstd::math::abs(fy as int) { (sign_of(fx as int), 0) } else { (0, sign_of(fy as int)) },
        }
    }
}

/// What the driver of traffic car `i` does when it is not backing out of
/// a shunt: throttle to hold the speed it may go, and steer by the angle
/// to the street and the distance from its line, damped by its yaw rate.
pub open spec fn drive_controls_of(s: Sim, plan: (Strip, Strip), i: int, hz: i32) -> Controls {
    let c = s.traffic@[i];
    let (row, col) = plan;
    let (fx, fy) = (cos_of(c.yaw), sin_of(c.yaw));
    let (rx, ry) = ((-fy) as i32, fx);
    let vf = fx_mul(c.vx, fx) + fx_mul(c.vy, fy);
    let dir = intent_of(row, col, c);
    let (cx, cy) = (fx_floor(c.x), fx_floor(c.y));
    let target: (int, int) = match flow_of(row, col, cx, cy) {
        Some(f) => if f == dir { (cx * 65536 + HALF, cy * 65536 + HALF) } else {
            lane_biased_of(row, col, cx, cy, dir.0 as int, dir.1 as int, s.traffic_bias@[i] as int)
        },
        None => lane_biased_of(row, col, cx, cy, dir.0 as int, dir.1 as int, s.traffic_bias@[i] as int),
    };
    let off = fx_mul((c.x - target.0) as i32, rx) + fx_mul((c.y - target.1) as i32, ry);
    let psi = crate::atmos::signed_ang(heading_of(dir.0, dir.1) - c.yaw);
    let angle = fx_div(from_int_of(psi), from_int_of(LANE_LOCK as int));
    let pull = fixed::clamp_of(fx_div(off as i32, (octagonal_len(c.vx, c.vy) + ONE) as i32) as int, -LANE_CROSS as int, LANE_CROSS as int);
    let damp = fx_mul(LANE_DAMP, turn_rate_of(c.spin, hz));
    Controls {
        throttle: pace_of(vf as i32, give_way_of(s, i)) as i32,
        steer: fixed::clamp_of(angle - pull - damp, -ONE as int, ONE as int) as i32,
        handbrake: false,
    }
}

/// The controls of a car backing out of a shunt: full reverse, with half
/// a lock one way for even cars and the other way for odd ones.
pub open spec fn backing_controls(i: int) -> Controls {
    Controls { throttle: -65536i32, steer: if i % 2 == 0 { 32768i32 } else { -32768i32 }, handbrake: false }
}

/// Which way along the street a car is trying to go.
fn intent(row: &Strip, col: &Strip, c: &Car) -> (d: (i32, i32))
    requires
        crate::road::on_plan(fx_floor(c.x), fx_floor(c.y)),
        c.vx != i32::MIN,
        c.vy != i32::MIN,
    ensures
        d == intent_of(*row, *col, *c),
        -1 <= d.0 <= 1,
        -1 <= d.1 <= 1,
{
    proof {
        trig::lemma_table_bounds(c.yaw);
    }
    let (fx, fy) = (trig::cos(c.yaw), trig::sin(c.yaw));
    let dx = if fixed::abs(c.vx) > HALF { c.vx } else { fx };
    let dy = if fixed::abs(c.vy) > HALF { c.vy } else { fy };
    match crate::road::street_axis(row, col) {
        Some(true) => {
            if fixed::abs(dx) > INTENT_SPEED {
                return (if dx > 0 { 1 } else { -1 }, 0);
            }
        },
        Some(false) => {
            if fixed::abs(dy) > INTENT_SPEED {
                return (0, if dy > 0 { 1 } else { -1 });
            }
        },
        None => {},
    }
    match crate::road::flow(row, col, fixed::floor(c.x), fixed::floor(c.y)) {
        Some(f) => f,
        None => {
            if fixed::abs(fx) >= fixed::abs(fy) {
                (if fx > 0 { 1 } else { -1 }, 0)
            } else {
                (0, if fy > 0 { 1 } else { -1 })
            }
        },
    }
}

/// Whether car `i` of the traffic can be steered in 32 bits: on the plan,
/// no faster than 256 cells a second, with a lane bias within a lane.
pub open spec fn steerable(s: Sim, i: int) -> bool {
    let c = s.traffic@[i];
    &&& -0x0100_0000 <= c.vx <= 0x0100_0000
    &&& -0x0100_0000 <= c.vy <= 0x0100_0000
    &&& -ONE <= s.traffic_bias@[i] <= ONE
    &&& 0 <= s.traffic_cruise@[i] <= 0x4000_0000
    &&& s.traffic_bias@.len() == s.traffic@.len()
    &&& s.traffic_backing@.len() == s.traffic@.len()
}

/// The point a car steers for lies within a few hundred cells of the cell
/// it is in.
proof fn lemma_lane_near(row: Strip, col: Strip, x: int, y: int, rx: int, ry: int, bias: int)
    requires
        -ONE <= bias <= ONE,
    ensures
        vstd::math::abs(lane_biased_of(row, col, x, y, rx, ry, bias).0 - x * 65536) <= 0x0200_0000,
        vstd::math::abs(lane_biased_of(row, col, x, y, rx, ry, bias).1 - y * 65536) <= 0x0200_0000,
{
    let lanes_t = fixed::clamp_of(bias + 65536, 0, 131072int) / 2;
    assert(0 <= fixed::mul_wide(lanes_t, 131072int) <= 131072) by (nonlinear_arith)
        requires
            0 <= lanes_t <= 65536,
    ;
    assert(0 <= fixed::mul_wide(lanes_t, 65536int) <= 65536) by (nonlinear_arith)
        requires
            0 <= lanes_t <= 65536,
    ;
    assert(0 <= fixed::mul_wide(lanes_t, 0int) <= 0) by (nonlinear_arith)
        requires
            0 <= lanes_t <= 65536,
    ;
}

/// A car's yaw rate, as a fraction of the full rate, is under one and a
/// half.
proof fn lemma_turn_rate_bound(spin: i32, hz: i32)
    ensures
        -0x16000 <= turn_rate_of(spin, hz) <= 0x16000,
{
    let h: int = if hz > 1 { hz as int } else { 1 };
    let per_s = fixed::clamp_of(spin * h, -32_767, 32_767);
    assert(from_int_of(per_s) == per_s * 65536);
    assert(from_int_of(crate::drive::TURN_RATE as int) == 24000 * 65536);
    let a = vstd::math::abs(per_s * 65536 * 65536) as int;
    assert(a / (24000int * 65536) <= 0x16000) by (nonlinear_arith)
        requires
            a <= 32767 * 65536 * 65536,
            a >= 0,
    ;
}

/// How hard the wheel is put over for a heading error is within five
/// locks either way.
proof fn lemma_angle_bound(psi: i32)
    requires
        -32768 <= psi <= 32767,
    ensures
        -0x60000 <= fx_div(from_int_of(psi as int), from_int_of(LANE_LOCK as int)) <= 0x60000,
{
    assert(from_int_of(psi as int) == psi * 65536);
    assert(from_int_of(LANE_LOCK as int) == 6500 * 65536);
    let a = vstd::math::abs(psi * 65536 * 65536) as int;
    assert(a / (6500int * 65536) <= 0x60000) by (nonlinear_arith)
        requires
            a <= 32768 * 65536 * 65536,
            a >= 0,
    ;
}

impl Sim {
    /// What the driver of car `i` of the traffic does this tick, with
    /// `plan_at` reading the street plan's row and column through a cell.
    /// A car backing out of a shunt carries on in full reverse, half a lock
    /// over, until there is clear road in front of it; any other keeps its
    /// lane - the middle of the one it is in when that one goes its way,
    /// its own place on the correct side of the crown otherwise - and holds
    /// the speed that what is in front of it allows.
    pub fn traffic_controls<P: Fn(i32, i32) -> (Strip, Strip)>(&mut self, plan_at: &P, i: usize, hz: i32) -> (r: Controls)
        requires
            i < old(self).traffic@.len(),
            traffic_placed(*old(self)),
            steerable(*old(self), i as int),
            reads(*plan_at),
        ensures
            ({
                let b = old(self).traffic_backing@[i as int];
                let c = old(self).traffic@[i as int];
                if b > 0 && crowded_of(*old(self), i as int, CLEAR) {
                    &&& r == backing_controls(i as int)
                    &&& final(self).traffic_backing@ == old(self).traffic_backing@.update(i as int, (b - 1) as u32)
                } else {
                    &&& r == drive_controls_of(*old(self), read(*plan_at, fx_floor(c.x) as i32, fx_floor(c.y) as i32), i as int, hz)
                    &&& final(self).traffic_backing@ == old(self).traffic_backing@.update(i as int, 0)
                }
            }),
            *final(self) == (Sim { traffic_backing: final(self).traffic_backing, ..*old(self) }),
    {
        let ghost s0 = *self;
        let b = self.traffic_backing[i];
        if b > 0 && self.crowded(i, CLEAR) {
            self.traffic_backing.set(i, b - 1);
            let lock = if i % 2 == 0 { ONE } else { -ONE };
            return Controls { throttle: -ONE, steer: fixed::mul(lock, HALF), handbrake: false };
        }
        let c = self.traffic[i];
        assert(placed(s0.traffic@[i as int].x, s0.traffic@[i as int].y));
        let (cx, cy) = (fixed::floor(c.x), fixed::floor(c.y));
        let (row, col) = plan_at(cx, cy);
        proof {
            lemma_read(*plan_at, cx, cy, (row, col));
        }
        let r = self.drive_controls(&row, &col, i, hz);
        self.traffic_backing.set(i, 0);
        r
    }

    /// What the driver of car `i` of the traffic does when it is not
    /// backing out of a shunt, on the plan's row and column through its
    /// cell.
    #[verifier::spinoff_prover]
    #[verifier::rlimit(40)]
    fn drive_controls(&self, row: &Strip, col: &Strip, i: usize, hz: i32) -> (r: Controls)
        requires
            i < self.traffic@.len(),
            traffic_placed(*self),
            steerable(*self, i as int),
        ensures
            r == drive_controls_of(*self, (*row, *col), i as int, hz),
    {
        let c = self.traffic[i];
        assert(placed(self.traffic@[i as int].x, self.traffic@[i as int].y));
        proof {
            trig::lemma_table_bounds(c.yaw);
            fixed::lemma_mul_bound(c.vx, cos_of(c.yaw), 0x0100_0000, 65536);
            fixed::lemma_mul_bound(c.vy, sin_of(c.yaw), 0x0100_0000, 65536);
        }
        let (fx, fy) = (trig::cos(c.yaw), trig::sin(c.yaw));
        let (rx, ry) = (-fy, fx);
        let vf = fixed::mul(c.vx, fx) + fixed::mul(c.vy, fy);
        let (cx, cy) = (fixed::floor(c.x), fixed::floor(c.y));
        let dir = intent(row, col, &c);
        let (lx, ly) = match crate::road::flow(row, col, cx, cy) {
            Some(f) => {
                if f.0 == dir.0 && f.1 == dir.1 {
                    crate::road::centre(cx, cy)
                } else {
                    crate::road::lane_biased(row, col, cx, cy, dir, self.traffic_bias[i])
                }
            },
            None => crate::road::lane_biased(row, col, cx, cy, dir, self.traffic_bias[i]),
        };
        proof {
            lemma_lane_near(*row, *col, cx as int, cy as int, dir.0 as int, dir.1 as int, self.traffic_bias@[i as int] as int);
        }
        let (ox, oy) = (c.x - lx, c.y - ly);
        proof {
            fixed::lemma_mul_bound(ox, rx, 0x2000_0000, 65536);
            fixed::lemma_mul_bound(oy, ry, 0x2000_0000, 65536);
        }
        let off = fixed::mul(ox, rx) + fixed::mul(oy, ry);
        let d = crate::road::heading(dir.0, dir.1).wrapping_sub(c.yaw);
        proof {
            trig::lemma_signed(d);
        }
        let psi = d as i16 as i32;
        let angle = fixed::div(fixed::from_int(psi), fixed::from_int(LANE_LOCK));
        let sp = c.speed();
        let pull = fixed::clamp(fixed::div(off, sp + ONE), -LANE_CROSS, LANE_CROSS);
        let tr = c.turn_rate(hz);
        proof {
            lemma_turn_rate_bound(c.spin, hz);
            fixed::lemma_mul_bound(LANE_DAMP, tr, 32768, 0x0560_0000);
            lemma_angle_bound(psi);
        }
        let damp = fixed::mul(LANE_DAMP, tr);
        let steer = fixed::clamp(angle - pull - damp, -ONE, ONE);
        let want = self.give_way(i);
        proof {
            lemma_traffic_gives_way(*self, i as int);
        }
        Controls { throttle: pace(vf, want), steer, handbrake: false }
    }
}

/// How many rings out from a point the cab is looked for a kerb to park at.
pub const PARK_RINGS: i32 = 24;

/// Whether a cab can wait at a cell: road, open, not in a junction, and on
/// a street rather than an alley.
pub open spec fn kerb_ok<K: Fn(i32, i32) -> Kind, O: Fn(i32, i32) -> bool, J: Fn(i32, i32) -> bool, P: Fn(i32, i32) -> (Strip, Strip)>(
    kind_at: K,
    open: O,
    junction: J,
    plan_at: P,
    x: i32,
    y: i32,
) -> bool {
    &&& read(kind_at, x, y) == Kind::Road
    &&& read(open, x, y)
    &&& !read(junction, x, y)
    &&& (read(plan_at, x, y).1.street || read(plan_at, x, y).0.street)
}

/// The first cell a cab can wait at, searching out from `(x, y)` ring by
/// ring - row by row within a ring, left to right within a row - from
/// ring `r`, row `dy` and column `dx` on, before ring [`PARK_RINGS`].
pub open spec fn ring_search<K: Fn(i32, i32) -> Kind, O: Fn(i32, i32) -> bool, J: Fn(i32, i32) -> bool, P: Fn(i32, i32) -> (Strip, Strip)>(
    kind_at: K,
    open: O,
    junction: J,
    plan_at: P,
    x: int,
    y: int,
    r: int,
    dy: int,
    dx: int,
) -> Option<(i32, i32)>
    decreases PARK_RINGS - r, r + 1 - dy, r + 1 - dx,
{
    if r >= PARK_RINGS || r < 0 || dy < -r || dx < -r {
        None
    } else if dy > r {
        ring_search(kind_at, open, junction, plan_at, x, y, r + 1, -(r + 1), -(r + 1))
    } else if dx > r {
        ring_search(kind_at, open, junction, plan_at, x, y, r, dy + 1, -r)
    } else if crate::walk::ring_of(dx, dy) == r && kerb_ok(kind_at, open, junction, plan_at, (x + dx) as i32, (y + dy) as i32) {
        Some(((x + dx) as i32, (y + dy) as i32))
    } else {
        ring_search(kind_at, open, junction, plan_at, x, y, r, dy, dx + 1)
    }
}

/// The cab parked at a kerb cell: at rest, in the lane of the side of the
/// road it is on and facing that way, or in the middle of the cell facing
/// along the street where the road has no side to give.
pub open spec fn parked_at(taxi: Car, plan: (Strip, Strip), px: i32, py: i32) -> Car {
    let (row, col) = plan;
    let still = Car { vx: 0, vy: 0, spin: 0, ..taxi };
    match flow_of(row, col, px as int, py as int) {
        Some(dir) => {
            let l = lane_of(row, col, px as int, py as int, dir.0 as int, dir.1 as int);
            Car { x: l.0 as i32, y: l.1 as i32, yaw: heading_of(dir.0, dir.1), ..still }
        },
        None => Car {
            x: (px * 65536 + HALF) as i32,
            y: (py * 65536 + HALF) as i32,
            yaw: if col.street { trig::QUARTER } else { 0 },
            ..still
        },
    }
}

/// A kerb found ring by ring out from a cell is within the rings searched.
proof fn lemma_ring_near<K: Fn(i32, i32) -> Kind, O: Fn(i32, i32) -> bool, J: Fn(i32, i32) -> bool, P: Fn(i32, i32) -> (Strip, Strip)>(
    kind_at: K, open: O, junction: J, plan_at: P, x: int, y: int, r: int, dy: int, dx: int,
)
    requires
        -32000 <= x <= 32000,
        -32000 <= y <= 32000,
    ensures
        ring_search(kind_at, open, junction, plan_at, x, y, r, dy, dx) matches Some(c) ==> -PARK_RINGS <= c.0 - x <= PARK_RINGS
            && -PARK_RINGS <= c.1 - y <= PARK_RINGS,
    decreases PARK_RINGS - r, r + 1 - dy, r + 1 - dx,
{
    if r >= PARK_RINGS || r < 0 || dy < -r || dx < -r {
    } else if dy > r {
        lemma_ring_near(kind_at, open, junction, plan_at, x, y, r + 1, -(r + 1), -(r + 1));
    } else if dx > r {
        lemma_ring_near(kind_at, open, junction, plan_at, x, y, r, dy + 1, -r);
    } else if crate::walk::ring_of(dx, dy) == r && kerb_ok(kind_at, open, junction, plan_at, (x + dx) as i32, (y + dy) as i32) {
    } else {
        lemma_ring_near(kind_at, open, junction, plan_at, x, y, r, dy, dx + 1);
    }
}

/// Where the cab is parked is somewhere it may wait: road, open, outside
/// any junction, on a street.
proof fn lemma_ring_finds_a_kerb<K: Fn(i32, i32) -> Kind, O: Fn(i32, i32) -> bool, J: Fn(i32, i32) -> bool, P: Fn(i32, i32) -> (Strip, Strip)>(
    kind_at: K, open: O, junction: J, plan_at: P, x: int, y: int, r: int, dy: int, dx: int,
)
    ensures
        ring_search(kind_at, open, junction, plan_at, x, y, r, dy, dx) matches Some(c) ==> {
            &&& read(kind_at, c.0, c.1) == Kind::Road
            &&& read(open, c.0, c.1)
            &&& !read(junction, c.0, c.1)
            &&& read(plan_at, c.0, c.1).0.street || read(plan_at, c.0, c.1).1.street
        },
    decreases PARK_RINGS - r, r + 1 - dy, r + 1 - dx,
{
    if r >= PARK_RINGS || r < 0 || dy < -r || dx < -r {
    } else if dy > r {
        lemma_ring_finds_a_kerb(kind_at, open, junction, plan_at, x, y, r + 1, -(r + 1), -(r + 1));
    } else if dx > r {
        lemma_ring_finds_a_kerb(kind_at, open, junction, plan_at, x, y, r, dy + 1, -r);
    } else if crate::walk::ring_of(dx, dy) == r && kerb_ok(kind_at, open, junction, plan_at, (x + dx) as i32, (y + dy) as i32) {
    } else {
        lemma_ring_finds_a_kerb(kind_at, open, junction, plan_at, x, y, r, dy, dx + 1);
    }
}

/// The cab is parked at a kerb: the cell [`Sim::park_near`] puts it in is
/// open road on a street, outside any junction, within [`PARK_RINGS`] of
/// where it was asked, and the cab there is at rest.
pub proof fn lemma_the_cab_parks_at_a_kerb<K: Fn(i32, i32) -> Kind, O: Fn(i32, i32) -> bool, J: Fn(i32, i32) -> bool, P: Fn(i32, i32) -> (Strip, Strip)>(
    kind_at: K, open: O, junction: J, plan_at: P, x: i32, y: i32, taxi: Car,
)
    requires
        -32000 <= x <= 32000,
        -32000 <= y <= 32000,
    ensures
        ring_search(kind_at, open, junction, plan_at, x as int, y as int, 0, 0, 0) matches Some((px, py)) ==> {
            &&& read(kind_at, px, py) == Kind::Road
            &&& read(open, px, py)
            &&& !read(junction, px, py)
            &&& read(plan_at, px, py).0.street || read(plan_at, px, py).1.street
            &&& -PARK_RINGS <= px - x <= PARK_RINGS && -PARK_RINGS <= py - y <= PARK_RINGS
            &&& parked_at(taxi, read(plan_at, px, py), px, py).vx == 0
            &&& parked_at(taxi, read(plan_at, px, py), px, py).vy == 0
            &&& parked_at(taxi, read(plan_at, px, py), px, py).spin == 0
        },
{
    lemma_ring_finds_a_kerb(kind_at, open, junction, plan_at, x as int, y as int, 0, 0, 0);
    lemma_ring_near(kind_at, open, junction, plan_at, x as int, y as int, 0, 0, 0);
}

/// The lane of a cell lies within a few hundred cells of it.
proof fn lemma_lane_of_near(row: Strip, col: Strip, x: int, y: int, rx: int, ry: int)
    ensures
        vstd::math::abs(lane_of(row, col, x, y, rx, ry).0 - x * 65536) <= 0x0200_0000,
        vstd::math::abs(lane_of(row, col, x, y, rx, ry).1 - y * 65536) <= 0x0200_0000,
{
}

impl Sim {
    /// Put the cab on the nearest road to a cell, facing along it: the
    /// first cell, ring by ring out from `(x, y)`, that is open road on an
    /// ordinary street outside any junction, with the cab at rest in the
    /// lane of that side of the road.  With none within the rings, the cab
    /// stays where it is.  `kind_at`, `open`, `junction` and `plan_at` read
    /// the city: what each cell is, whether a car can be in it, whether it
    /// is inside a junction, and the street plan's row and column through
    /// it.
    pub fn park_near<K: Fn(i32, i32) -> Kind, O: Fn(i32, i32) -> bool, J: Fn(i32, i32) -> bool, P: Fn(i32, i32) -> (Strip, Strip)>(
        &mut self,
        kind_at: &K,
        open: &O,
        junction: &J,
        plan_at: &P,
        x: i32,
        y: i32,
    )
        requires
            reads(*kind_at),
            reads(*open),
            reads(*junction),
            reads(*plan_at),
            -32000 <= x <= 32000,
            -32000 <= y <= 32000,
        ensures
            match ring_search(*kind_at, *open, *junction, *plan_at, x as int, y as int, 0, 0, 0) {
                None => *final(self) == *old(self),
                Some((px, py)) => *final(self) == (Sim { taxi: parked_at(old(self).taxi, read(*plan_at, px, py), px, py), ..*old(self) }),
            },
    {
        let mut r: i32 = 0;
        let mut found: Option<(i32, i32)> = None;
        while r < PARK_RINGS && found.is_none()
            invariant
                0 <= r <= PARK_RINGS,
                -32000 <= x <= 32000,
                -32000 <= y <= 32000,
                reads(*kind_at),
                reads(*open),
                reads(*junction),
                reads(*plan_at),
                found is None ==> ring_search(*kind_at, *open, *junction, *plan_at, x as int, y as int, r as int, -r as int, -r as int)
                    == ring_search(*kind_at, *open, *junction, *plan_at, x as int, y as int, 0, 0, 0),
                found is Some ==> found == ring_search(*kind_at, *open, *junction, *plan_at, x as int, y as int, 0, 0, 0),
                found matches Some((fx, fy)) ==> -32100 <= fx <= 32100 && -32100 <= fy <= 32100,
            decreases PARK_RINGS - r,
        {
            let mut dy: i32 = -r;
            while dy <= r && found.is_none()
                invariant
                    0 <= r < PARK_RINGS,
                    -r <= dy <= r + 1,
                    -32000 <= x <= 32000,
                    -32000 <= y <= 32000,
                    reads(*kind_at),
                    reads(*open),
                    reads(*junction),
                    reads(*plan_at),
                    found is None ==> ring_search(*kind_at, *open, *junction, *plan_at, x as int, y as int, r as int, dy as int, -r as int)
                        == ring_search(*kind_at, *open, *junction, *plan_at, x as int, y as int, 0, 0, 0),
                    found is Some ==> found == ring_search(*kind_at, *open, *junction, *plan_at, x as int, y as int, 0, 0, 0),
                    found matches Some((fx, fy)) ==> -32100 <= fx <= 32100 && -32100 <= fy <= 32100,
                decreases r + 1 - dy,
            {
                let mut dx: i32 = -r;
                while dx <= r && found.is_none()
                    invariant
                        0 <= r < PARK_RINGS,
                        -r <= dy <= r,
                        -r <= dx <= r + 1,
                        -32000 <= x <= 32000,
                        -32000 <= y <= 32000,
                        reads(*kind_at),
                        reads(*open),
                        reads(*junction),
                        reads(*plan_at),
                        found is None ==> ring_search(*kind_at, *open, *junction, *plan_at, x as int, y as int, r as int, dy as int, dx as int)
                            == ring_search(*kind_at, *open, *junction, *plan_at, x as int, y as int, 0, 0, 0),
                        found is Some ==> found == ring_search(*kind_at, *open, *junction, *plan_at, x as int, y as int, 0, 0, 0),
                        found matches Some((fx, fy)) ==> -32100 <= fx <= 32100 && -32100 <= fy <= 32100,
                    decreases r + 1 - dx,
                {
                    let ghost here = ring_search(*kind_at, *open, *junction, *plan_at, x as int, y as int, r as int, dy as int, dx as int);
                    let ax = if dx < 0 { -dx } else { dx };
                    let ay = if dy < 0 { -dy } else { dy };
                    let ring = if ax >= ay { ax } else { ay };
                    assert(ring == crate::walk::ring_of(dx as int, dy as int));
                    if ring == r {
                        let (px, py) = (x + dx, y + dy);
                        let k = kind_at(px, py);
                        let o = open(px, py);
                        let j = junction(px, py);
                        let (row, col) = plan_at(px, py);
                        proof {
                            lemma_read(*kind_at, px, py, k);
                            lemma_read(*open, px, py, o);
                            lemma_read(*junction, px, py, j);
                            lemma_read(*plan_at, px, py, (row, col));
                        }
                        if k == Kind::Road && o && !j && (col.street || row.street) {
                            found = Some((px, py));
                        }
                    }
                    dx = dx + 1;
                    proof {
                        if found is None {
                            assert(here == ring_search(*kind_at, *open, *junction, *plan_at, x as int, y as int, r as int, dy as int, dx as int));
                        }
                    }
                }
                proof {
                    if found is None {
                        assert(dx == r + 1);
                        assert(ring_search(*kind_at, *open, *junction, *plan_at, x as int, y as int, r as int, dy as int, dx as int)
                            == ring_search(*kind_at, *open, *junction, *plan_at, x as int, y as int, r as int, dy + 1, -r as int));
                    }
                }
                dy = dy + 1;
            }
            proof {
                if found is None {
                    assert(dy == r + 1);
                    assert(ring_search(*kind_at, *open, *junction, *plan_at, x as int, y as int, r as int, dy as int, -r as int)
                        == ring_search(*kind_at, *open, *junction, *plan_at, x as int, y as int, r + 1, -(r + 1), -(r + 1)));
                }
            }
            r = r + 1;
        }
        proof {
            if found is None {
                assert(r == PARK_RINGS);
                assert(ring_search(*kind_at, *open, *junction, *plan_at, x as int, y as int, r as int, -r as int, -r as int) is None);
            }
        }
        if let Some((px, py)) = found {
            let (row, col) = plan_at(px, py);
            proof {
                lemma_read(*plan_at, px, py, (row, col));
            }
            self.taxi.vx = 0;
            self.taxi.vy = 0;
            self.taxi.spin = 0;
            match crate::road::flow(&row, &col, px, py) {
                Some(dir) => {
                    let (lx, ly) = crate::road::lane(&row, &col, px, py, dir);
                    self.taxi.x = lx;
                    self.taxi.y = ly;
                    self.taxi.yaw = crate::road::heading(dir.0, dir.1);
                },
                None => {
                    self.taxi.x = fixed::from_int(px) + HALF;
                    self.taxi.y = fixed::from_int(py) + HALF;
                    self.taxi.yaw = if col.street { trig::QUARTER } else { 0 };
                },
            }
        }
    }
}

} // verus!

verus! {

/// Seconds on the clock a coin is worth.
pub const COIN_TIME: i32 = 2;

/// Ticks of boost a coin is worth.
pub const COIN_BOOST: u32 = 180;

/// Seconds on the clock a pick-up or a drop-off is worth.
pub const PICKUP_TIME: i32 = 12;

/// Whether the cab at `(x, y)` takes a coin: one not yet taken, within a
/// cell of it on both axes.
pub open spec fn caught(c: Coin, x: Fx, y: Fx) -> bool {
    !c.taken && within(c.x as int, c.y as int, x as int, y as int, ONE as int)
}

/// How many of `coins` the cab at `(x, y)` takes.
pub open spec fn coins_caught(coins: Seq<Coin>, x: Fx, y: Fx) -> nat
    decreases coins.len(),
{
    if coins.len() == 0 {
        0
    } else {
        coins_caught(coins.drop_last(), x, y) + if caught(coins.last(), x, y) { 1nat } else { 0nat }
    }
}

/// The coins after the cab at `(x, y)` has taken what it can reach.
pub open spec fn coins_after(coins: Seq<Coin>, x: Fx, y: Fx) -> Seq<Coin> {
    coins.map_values(|c: Coin| if caught(c, x, y) { Coin { taken: true, ..c } } else { c })
}

/// Whether the fare's coins and ends are close enough to the cab for the
/// distances to be worked out in 32 bits, and what it can earn fits the
/// clock and the purse.
pub open spec fn fare_fits(s: Sim) -> bool {
    &&& crate::drive::short(s.taxi.vx, s.taxi.vy)
    &&& s.fare matches Some(f) ==> {
        &&& near_enough(marker_of(f), s.taxi.x, s.taxi.y)
        &&& near_enough(stop_of(f), s.taxi.x, s.taxi.y)
        &&& forall|i: int| 0 <= i < f.coins.len() ==> near_enough(((#[trigger] f.coins@[i]).x, f.coins@[i].y), s.taxi.x, s.taxi.y)
        &&& s.ticks_left + f.coins.len() * 120 + 720 <= i32::MAX
        &&& s.money + f.coins.len() + f.value <= i32::MAX
        &&& f.value <= i32::MAX
    }
}

/// Whether the cab has pulled up for the fare: at its stop, and slow enough.
pub open spec fn pulled_up(f: Fare, taxi: Car) -> bool {
    &&& within(marker_of(f).0 as int, marker_of(f).1 as int, taxi.x as int, taxi.y as int, REACH as int)
        || within(stop_of(f).0 as int, stop_of(f).1 as int, taxi.x as int, taxi.y as int, KERB_REACH as int)
    &&& crate::drive::octagonal_len(taxi.vx, taxi.vy) <= STOP_SPEED
}

/// One tick of the fare, with a fare on: the coins within reach are taken,
/// each worth two seconds, one unit of money and a boost; then, pulled up
/// at the stop, the passenger gets in, or gets out and pays, and either is
/// worth twelve seconds.  The state after, the events in order, and whether
/// the fare is done and another must be hailed.
pub open spec fn settled(s: Sim, f: Fare) -> (Sim, Seq<Event>, bool) {
    let n = coins_caught(f.coins@, s.taxi.x, s.taxi.y);
    let coins = coins_after(f.coins@, s.taxi.x, s.taxi.y);
    let ticks = s.ticks_left + n * 120;
    let money = s.money + n;
    let boost = if n > 0 && s.taxi.boost < COIN_BOOST { COIN_BOOST } else { s.taxi.boost };
    let taxi = Car { boost, ..s.taxi };
    let taken = Seq::new(n, |i: int| Event::Coin);
    if !pulled_up(f, s.taxi) {
        (Sim { ticks_left: ticks as i32, money: money as i32, taxi, ..s }, taken, false)
    } else if f.aboard {
        (Sim { ticks_left: (ticks + 720) as i32, money: (money + f.value) as i32, taxi, fare: None, ..s },
            taken.push(Event::DroppedOff), true)
    } else {
        (Sim { ticks_left: (ticks + 720) as i32, money: money as i32, taxi, ..s },
            taken.push(Event::PickedUp), false)
    }
}

impl Sim {
    /// Settle the fare for a tick, reporting what happened after what `out`
    /// already holds.  The coins the cab is over are taken; pulled up at
    /// the stop, slowly enough, it picks the passenger up or drops them off
    /// and is paid.  Returns whether there is no fare on now, so that
    /// another must be hailed: with none on at the start nothing changes.
    fn settle_fare(&mut self, out: &mut Vec<Event>) -> (hail: bool)
        requires
            fare_fits(*old(self)),
        ensures
            match old(self).fare {
                None => hail && *final(self) == *old(self) && final(out)@ == old(out)@,
                Some(f) => {
                    let (s, ev, h) = settled(*old(self), f);
                    &&& hail == h
                    &&& final(out)@ == old(out)@ + ev
                    &&& (h ==> *final(self) == s)
                    &&& (!h ==> *final(self) == (Sim { fare: final(self).fare, ..s }))
                    &&& (!h ==> (final(self).fare matches Some(g) && g.coins@ == coins_after(f.coins@, old(self).taxi.x, old(self).taxi.y)
                        && g == (Fare { coins: g.coins, aboard: f.aboard || pulled_up(f, old(self).taxi), ..f })))
                },
            },
    {
        let mut taken: Option<Fare> = None;
        std::mem::swap(&mut taken, &mut self.fare);
        let mut fare = match taken {
            None => return true,
            Some(f) => f,
        };
        let ghost f0 = fare;
        let ghost s0 = *self;
        assert(*old(self) == (Sim { fare: Some(f0), ..s0 }));
        assert(s0.ticks_left + f0.coins.len() * 120 + 720 <= i32::MAX);
        assert(s0.money + f0.coins.len() + f0.value <= i32::MAX);
        let (tx, ty) = (self.taxi.x, self.taxi.y);
        let mut n: u32 = 0;
        let mut i: usize = 0;
        while i < fare.coins.len()
            invariant
                0 <= i <= fare.coins.len(),
                fare.coins.len() == f0.coins.len(),
                fare == (Fare { coins: fare.coins, ..f0 }),
                tx == s0.taxi.x,
                ty == s0.taxi.y,
                s0.ticks_left + f0.coins.len() * 120 + 720 <= i32::MAX,
                s0.money + f0.coins.len() + f0.value <= i32::MAX,
                f0.value <= i32::MAX,
                crate::drive::short(s0.taxi.vx, s0.taxi.vy),
                near_enough(marker_of(f0), tx, ty),
                near_enough(stop_of(f0), tx, ty),
                forall|k: int| 0 <= k < f0.coins.len() ==> near_enough(((#[trigger] f0.coins@[k]).x, f0.coins@[k].y), tx, ty),
                n == coins_caught(f0.coins@.take(i as int), tx, ty),
                n <= i,
                forall|k: int| 0 <= k < i ==> fare.coins@[k] == coins_after(f0.coins@, tx, ty)[k],
                forall|k: int| i <= k < fare.coins.len() ==> fare.coins@[k] == f0.coins@[k],
                *self == (Sim { ticks_left: self.ticks_left, money: self.money, taxi: self.taxi, ..s0 }),
                self.ticks_left == s0.ticks_left + n * 120,
                self.money == s0.money + n,
                self.taxi == (Car { boost: self.taxi.boost, ..s0.taxi }),
                self.taxi.boost == (if n > 0 && s0.taxi.boost < COIN_BOOST { COIN_BOOST } else { s0.taxi.boost }),
                out@ == old(out)@ + Seq::new(n as nat, |j: int| Event::Coin),
            decreases fare.coins.len() - i,
        {
            let c = fare.coins[i];
            assert(s0.ticks_left + f0.coins.len() * 120 + 720 <= i32::MAX);
            assert(s0.money + f0.coins.len() + f0.value <= i32::MAX);
            assert(f0.coins@.take(i + 1).drop_last() == f0.coins@.take(i as int));
            assert(near_enough((f0.coins@[i as int].x, f0.coins@[i as int].y), tx, ty));
            if !c.taken && fixed::abs(c.x - tx) < ONE && fixed::abs(c.y - ty) < ONE {
                assert(n + 1 <= f0.coins.len());
                fare.coins.set(i, Coin { taken: true, ..c });
                self.ticks_left = self.ticks_left + COIN_TIME * crate::drive::HZ;
                self.money = self.money + 1;
                if self.taxi.boost < COIN_BOOST {
                    self.taxi.boost = COIN_BOOST;
                }
                out.push(Event::Coin);
                n = n + 1;
                assert(out@ == old(out)@ + Seq::new(n as nat, |j: int| Event::Coin));
            }
            i = i + 1;
        }
        assert(f0.coins@.take(i as int) == f0.coins@);
        assert(fare.coins@ == coins_after(f0.coins@, tx, ty));
        let speed = self.taxi.speed();
        if !fare.at_stop(tx, ty) || speed > STOP_SPEED {
            self.fare = Some(fare);
            return false;
        }
        if fare.aboard {
            self.money = self.money + fare.value as i32;
            self.ticks_left = self.ticks_left + PICKUP_TIME * crate::drive::HZ;
            out.push(Event::DroppedOff);
            true
        } else {
            fare.aboard = true;
            self.ticks_left = self.ticks_left + PICKUP_TIME * crate::drive::HZ;
            out.push(Event::PickedUp);
            self.fare = Some(fare);
            false
        }
    }
}


/// A coin pays once: once the cab has taken what it can reach, staying
/// where it is takes nothing more.
pub proof fn lemma_a_coin_pays_once(coins: Seq<Coin>, x: Fx, y: Fx)
    ensures
        coins_caught(coins_after(coins, x, y), x, y) == 0,
    decreases coins.len(),
{
    if coins.len() > 0 {
        let after = coins_after(coins, x, y);
        assert(after.drop_last() =~= coins_after(coins.drop_last(), x, y));
        lemma_a_coin_pays_once(coins.drop_last(), x, y);
        assert(!caught(after.last(), x, y));
    }
}

/// A cab takes no more coins than the fare has.
proof fn lemma_caught_at_most(coins: Seq<Coin>, x: Fx, y: Fx)
    ensures
        coins_caught(coins, x, y) <= coins.len(),
    decreases coins.len(),
{
    if coins.len() > 0 {
        lemma_caught_at_most(coins.drop_last(), x, y);
    }
}

/// The fare is the clock: settling a fare never takes time off the clock
/// or money out of the purse, and every coin it reports is two seconds on
/// the clock and one unit of money.
pub proof fn lemma_a_fare_only_adds_time(s: Sim, f: Fare)
    requires
        s.fare == Some(f),
        fare_fits(s),
    ensures
        ({
            let (t, ev, _) = settled(s, f);
            let n = coins_caught(f.coins@, s.taxi.x, s.taxi.y);
            &&& s.ticks_left + 120 * n <= t.ticks_left
            &&& s.money + n <= t.money
            &&& n <= ev.len() <= n + 1
            &&& forall|i: int| 0 <= i < n ==> ev[i] == Event::Coin
        }),
{
    lemma_caught_at_most(f.coins@, s.taxi.x, s.taxi.y);
}

} // verus!

verus! {

/// Which piece of furniture a sidewalk cell gets from its hash, if any:
/// lamp posts and trees twice as often as the rest, and a signal only at a
/// corner.
pub open spec fn stamp_for(h: u32, corner: bool) -> Option<Stamp> {
    let m = h % 24;
    if m == 0 || m == 1 {
        Some(Stamp::LampPost)
    } else if m == 2 {
        Some(Stamp::Hydrant)
    } else if m == 3 {
        Some(Stamp::Mailbox)
    } else if m == 4 || m == 5 {
        Some(Stamp::Tree)
    } else if m == 6 {
        Some(Stamp::Meter)
    } else if m == 7 {
        Some(Stamp::Bollard)
    } else if m == 8 && corner {
        Some(Stamp::Signal)
    } else {
        None
    }
}

/// The width, height and hue of a piece of furniture.
pub open spec fn dressing_of(s: Stamp) -> (Fx, Fx, u8) {
    match s {
        Stamp::LampPost => (26214, 442368, palette::H_WHITE),
        Stamp::Tree => (42598, 131072, palette::H_GREEN),
        Stamp::Signal => (21845, 131072, palette::H_WHITE),
        Stamp::Mailbox => (26214, 39321, palette::H_BLUE),
        Stamp::Hydrant => (16384, 26214, palette::H_RED),
        Stamp::Meter => (13107, 52428, palette::H_WHITE),
        _ => (13107, 26214, palette::H_YELLOW),
    }
}

/// How far from the kerb a piece of furniture stands, in cells: street
/// lighting at the kerb, planting in the verge behind it, the rest on the
/// paving.
pub open spec fn across_of(s: Stamp) -> Fx {
    if s == Stamp::LampPost || s == Stamp::Signal || s == Stamp::Hydrant || s == Stamp::Bollard {
        10922
    } else if s == Stamp::Tree {
        26214
    } else {
        45875
    }
}

/// Whether the cell `(dx, dy)` from `(x, y)` is road.
pub open spec fn road_by<K: Fn(i32, i32) -> Kind>(kind_at: K, x: i32, y: i32, dx: int, dy: int) -> bool {
    read(kind_at, (x + dx) as i32, (y + dy) as i32) == Kind::Road
}

/// Whether a cell has road beside it on both axes: a corner.
pub open spec fn on_corner_of<K: Fn(i32, i32) -> Kind>(kind_at: K, x: i32, y: i32) -> bool {
    (road_by(kind_at, x, y, -1, 0) || road_by(kind_at, x, y, 1, 0))
        && (road_by(kind_at, x, y, 0, -1) || road_by(kind_at, x, y, 0, 1))
}

/// The offset from a cell's centre that puts a prop `across` from the
/// first kerb found (west, east, north, south), and whether that kerb runs
/// along x; no offset where no road adjoins.
pub open spec fn kerb_offset_of<K: Fn(i32, i32) -> Kind>(kind_at: K, x: i32, y: i32, across: Fx) -> (Fx, Fx, bool) {
    let d = (across - HALF) as i32;
    if road_by(kind_at, x, y, -1, 0) {
        (d, 0, false)
    } else if road_by(kind_at, x, y, 1, 0) {
        (-d as i32, 0, false)
    } else if road_by(kind_at, x, y, 0, -1) {
        (0, d, true)
    } else if road_by(kind_at, x, y, 0, 1) {
        (0, -d as i32, true)
    } else {
        (0, 0, true)
    }
}

/// The salt of the furniture hash.
pub const FURNITURE_SALT: u32 = 0x000F_0111;

/// The furniture a cell gets: only a sidewalk, and only where its hash
/// picks a piece; placed across from the kerb by its band and nudged along
/// the kerb by a stable amount that keeps it inside the cell.
pub open spec fn prop_at<K: Fn(i32, i32) -> Kind>(kind_at: K, x: i32, y: i32) -> Option<Prop> {
    let h = crate::rng::hash3_of(x as u32, y as u32, FURNITURE_SALT);
    if read(kind_at, x, y) != Kind::Sidewalk {
        None
    } else {
        match stamp_for(h, on_corner_of(kind_at, x, y)) {
            None => None,
            Some(st) => {
                let (w, ht, hue) = dressing_of(st);
                let (ox, oy, along_x) = kerb_offset_of(kind_at, x, y, across_of(st));
                let p = HALF - w / 2 - 4096;
                let play = if p > 0 { p as i32 } else { 0 };
                let wobble = fx_mul(((((h >> 8u32) % 5) as int - 2) * 32768) as i32, play);
                let (jx, jy) = if along_x { ((wobble + ox) as i32, oy) } else { (ox, (wobble + oy) as i32) };
                Some(Prop {
                    board: Billboard {
                        x: (x * 65536 + HALF + jx) as i32,
                        y: (y * 65536 + HALF + jy) as i32,
                        base: 0,
                        w,
                        h: ht,
                        stamp: st,
                        hue,
                        phase: 0,
                        lean: 0,
                        view: end_on_aspect(),
                    },
                    vx: 0,
                    vy: 0,
                    standing: true,
                })
            },
        }
    }
}

/// The furniture of the first `n` cells of row `y`, west to east.
pub open spec fn furniture_row<K: Fn(i32, i32) -> Kind>(kind_at: K, y: i32, n: int) -> Seq<Prop>
    decreases n,
{
    if n <= 0 {
        Seq::empty()
    } else {
        furniture_row(kind_at, y, n - 1) + match prop_at(kind_at, (n - 1) as i32, y) {
            Some(p) => seq![p],
            None => Seq::empty(),
        }
    }
}

/// The furniture of the first `rows` rows of a `size`-square map, north to
/// south.
pub open spec fn furniture_of<K: Fn(i32, i32) -> Kind>(kind_at: K, size: i32, rows: int) -> Seq<Prop>
    decreases rows,
{
    if rows <= 0 {
        Seq::empty()
    } else {
        furniture_of(kind_at, size, rows - 1) + furniture_row(kind_at, (rows - 1) as i32, size as int)
    }
}

/// The width, height and hue of a piece of furniture.
fn dressing(s: Stamp) -> (r: (Fx, Fx, u8))
    ensures
        r == dressing_of(s),
{
    match s {
        Stamp::LampPost => (26214, 442368, palette::H_WHITE),
        Stamp::Tree => (42598, 131072, palette::H_GREEN),
        Stamp::Signal => (21845, 131072, palette::H_WHITE),
        Stamp::Mailbox => (26214, 39321, palette::H_BLUE),
        Stamp::Hydrant => (16384, 26214, palette::H_RED),
        Stamp::Meter => (13107, 52428, palette::H_WHITE),
        _ => (13107, 26214, palette::H_YELLOW),
    }
}

/// Whether a sidewalk cell is at a corner, which is where signals go.
fn on_corner<K: Fn(i32, i32) -> Kind>(kind_at: &K, x: i32, y: i32) -> (b: bool)
    requires
        reads(*kind_at),
        -4096 <= x <= 4096,
        -4096 <= y <= 4096,
    ensures
        b == on_corner_of(*kind_at, x, y),
{
    let kw = kind_at(x - 1, y);
    let ke = kind_at(x + 1, y);
    let kn = kind_at(x, y - 1);
    let ks = kind_at(x, y + 1);
    proof {
        lemma_read(*kind_at, (x - 1) as i32, y, kw);
        lemma_read(*kind_at, (x + 1) as i32, y, ke);
        lemma_read(*kind_at, x, (y - 1) as i32, kn);
        lemma_read(*kind_at, x, (y + 1) as i32, ks);
    }
    (kw == Kind::Road || ke == Kind::Road) && (kn == Kind::Road || ks == Kind::Road)
}

/// The offset from a pavement cell's centre that puts a prop `across`
/// cells from the kerb, and which axis the kerb runs along.
fn kerb_offset<K: Fn(i32, i32) -> Kind>(kind_at: &K, x: i32, y: i32, across: Fx) -> (r: (Fx, Fx, bool))
    requires
        reads(*kind_at),
        -4096 <= x <= 4096,
        -4096 <= y <= 4096,
        0 <= across <= ONE,
    ensures
        r == kerb_offset_of(*kind_at, x, y, across),
{
    let d = across - HALF;
    let kw = kind_at(x - 1, y);
    proof { lemma_read(*kind_at, (x - 1) as i32, y, kw); }
    if kw == Kind::Road {
        return (d, 0, false);
    }
    let ke = kind_at(x + 1, y);
    proof { lemma_read(*kind_at, (x + 1) as i32, y, ke); }
    if ke == Kind::Road {
        return (-d, 0, false);
    }
    let kn = kind_at(x, y - 1);
    proof { lemma_read(*kind_at, x, (y - 1) as i32, kn); }
    if kn == Kind::Road {
        return (0, d, true);
    }
    let ks = kind_at(x, y + 1);
    proof { lemma_read(*kind_at, x, (y + 1) as i32, ks); }
    if ks == Kind::Road {
        (0, -d, true)
    } else {
        (0, 0, true)
    }
}

/// How far from the kerb a piece of furniture stands.
fn across(s: Stamp) -> (a: Fx)
    ensures
        a == across_of(s),
{
    if s.kerbside() {
        10922
    } else if s.planted() {
        26214
    } else {
        45875
    }
}

/// The furniture for one cell.
fn furniture_at<K: Fn(i32, i32) -> Kind>(kind_at: &K, x: i32, y: i32) -> (r: Option<Prop>)
    requires
        reads(*kind_at),
        0 <= x < 4096,
        0 <= y < 4096,
    ensures
        r == prop_at(*kind_at, x, y),
{
    let k = kind_at(x, y);
    proof { lemma_read(*kind_at, x, y, k); }
    if k != Kind::Sidewalk {
        return None;
    }
    let h = crate::rng::hash3(x as u32, y as u32, FURNITURE_SALT);
    let m = h % 24;
    let stamp = if m == 0 || m == 1 {
        Stamp::LampPost
    } else if m == 2 {
        Stamp::Hydrant
    } else if m == 3 {
        Stamp::Mailbox
    } else if m == 4 || m == 5 {
        Stamp::Tree
    } else if m == 6 {
        Stamp::Meter
    } else if m == 7 {
        Stamp::Bollard
    } else if m == 8 && on_corner(kind_at, x, y) {
        Stamp::Signal
    } else {
        return None;
    };
    let (w, ht, hue) = dressing(stamp);
    let (ox, oy, along_x) = kerb_offset(kind_at, x, y, across(stamp));
    let p = HALF - w / 2 - 4096;
    let play = if p > 0 { p } else { 0 };
    let k5 = ((h >> 8u32) % 5) as i32 - 2;
    let wobble = fixed::mul(k5 * 32768, play);
    proof {
        assert(-65536 <= ((k5 * 32768) as int * play as int) / 65536 <= 65536) by (nonlinear_arith)
            requires
                -2 <= k5 <= 2,
                0 <= play <= 32768;
    }
    let (jx, jy) = if along_x { (wobble + ox, oy) } else { (ox, wobble + oy) };
    Some(Prop {
        board: Billboard::upright(stamp, fixed::from_int(x) + HALF + jx, fixed::from_int(y) + HALF + jy, w, ht, hue),
        vx: 0,
        vy: 0,
        standing: true,
    })
}

impl Sim {
    /// Put furniture on every sidewalk of a `size`-square map that wants
    /// some, row by row from the north and west to east along each row.
    /// What goes where is fixed by the cell, not by the running generator,
    /// so the same city always has the same lamp posts.  Nothing else
    /// changes.
    pub fn furnish<K: Fn(i32, i32) -> Kind>(&mut self, kind_at: &K, size: i32)
        requires
            reads(*kind_at),
            0 <= size <= 4096,
        ensures
            final(self).props@ == old(self).props@ + furniture_of(*kind_at, size, size as int),
            *final(self) == (Sim { props: final(self).props, ..*old(self) }),
    {
        let ghost s0 = *self;
        let mut y: i32 = 0;
        while y < size
            invariant
                0 <= y <= size <= 4096,
                reads(*kind_at),
                self.props@ == s0.props@ + furniture_of(*kind_at, size, y as int),
                *self == (Sim { props: self.props, ..s0 }),
            decreases size - y,
        {
            let mut x: i32 = 0;
            while x < size
                invariant
                    0 <= x <= size <= 4096,
                    0 <= y < size,
                    reads(*kind_at),
                    self.props@ == s0.props@ + furniture_of(*kind_at, size, y as int) + furniture_row(*kind_at, y, x as int),
                    *self == (Sim { props: self.props, ..s0 }),
                decreases size - x,
            {
                let ghost before = self.props@;
                match furniture_at(kind_at, x, y) {
                    Some(p) => {
                        self.props.push(p);
                    },
                    None => {},
                }
                proof {
                    assert(furniture_row(*kind_at, y, x + 1) == furniture_row(*kind_at, y, x as int) + match prop_at(*kind_at, x, y) {
                        Some(p) => seq![p],
                        None => Seq::<Prop>::empty(),
                    });
                    assert(self.props@ == s0.props@ + furniture_of(*kind_at, size, y as int) + furniture_row(*kind_at, y, x + 1));
                }
                x = x + 1;
            }
            proof {
                assert(furniture_of(*kind_at, size, y + 1) == furniture_of(*kind_at, size, y as int) + furniture_row(*kind_at, y, size as int));
                assert(self.props@ == s0.props@ + furniture_of(*kind_at, size, y + 1));
            }
            y = y + 1;
        }
    }
}

/// How far a prop stands from the kerb it was set against: the first of
/// the west, east, north and south neighbours that is road.
pub open spec fn kerb_gap<K: Fn(i32, i32) -> Kind>(kind_at: K, x: i32, y: i32, p: Prop) -> int {
    if road_by(kind_at, x, y, -1, 0) {
        p.board.x - x * 65536
    } else if road_by(kind_at, x, y, 1, 0) {
        x * 65536 + 65536 - p.board.x
    } else if road_by(kind_at, x, y, 0, -1) {
        p.board.y - y * 65536
    } else {
        y * 65536 + 65536 - p.board.y
    }
}

/// What one cell's furniture is: on a sidewalk, inside the cell, a tree's
/// crown inside it too, and set its band's distance from the kerb.
proof fn lemma_prop_in_cell<K: Fn(i32, i32) -> Kind>(kind_at: K, x: i32, y: i32, p: Prop)
    requires
        prop_at(kind_at, x, y) == Some(p),
        0 <= x < 4096,
        0 <= y < 4096,
    ensures
        read(kind_at, x, y) == Kind::Sidewalk,
        x * 65536 < p.board.x < x * 65536 + 65536,
        y * 65536 < p.board.y < y * 65536 + 65536,
        p.board.stamp == Stamp::Tree ==> {
            &&& x * 65536 < p.board.x - p.board.w / 2
            &&& p.board.x + p.board.w / 2 < x * 65536 + 65536
            &&& y * 65536 < p.board.y - p.board.w / 2
            &&& p.board.y + p.board.w / 2 < y * 65536 + 65536
        },
        (road_by(kind_at, x, y, -1, 0) || road_by(kind_at, x, y, 1, 0) || road_by(kind_at, x, y, 0, -1)
            || road_by(kind_at, x, y, 0, 1)) ==> kerb_gap(kind_at, x, y, p) == across_of(p.board.stamp),
{
    let h = crate::rng::hash3_of(x as u32, y as u32, FURNITURE_SALT);
    let st = stamp_for(h, on_corner_of(kind_at, x, y))->Some_0;
    let (w, ht, hue) = dressing_of(st);
    let q = HALF - w / 2 - 4096;
    let play: int = if q > 0 { q } else { 0 };
    let k5: int = ((h >> 8u32) % 5) as int - 2;
    assert(0 <= (h >> 8u32) % 5 < 5);
    assert(-play <= (k5 * 32768 * play) / 65536 <= play) by (nonlinear_arith)
        requires
            -2 <= k5 <= 2,
            0 <= play <= 32768;
    assert(((k5 * 32768) as i32) as int * (play as i32) as int == k5 * 32768 * play);
}

/// Every piece of furniture comes from a cell of the map.
proof fn lemma_furniture_row_cells<K: Fn(i32, i32) -> Kind>(kind_at: K, y: i32, n: int, i: int)
    requires
        0 <= i < furniture_row(kind_at, y, n).len(),
        n <= 4096,
    ensures
        exists|x: i32| 0 <= x < n && prop_at(kind_at, x, y) == Some(#[trigger] furniture_row(kind_at, y, n)[i]),
    decreases n,
{
    if n > 0 {
        let prev = furniture_row(kind_at, y, n - 1);
        if i < prev.len() {
            lemma_furniture_row_cells(kind_at, y, n - 1, i);
            let x = choose|x: i32| 0 <= x < n - 1 && prop_at(kind_at, x, y) == Some(#[trigger] furniture_row(kind_at, y, n - 1)[i]);
            assert(furniture_row(kind_at, y, n)[i] == prev[i]);
            assert(0 <= x < n && prop_at(kind_at, x, y) == Some(furniture_row(kind_at, y, n)[i]));
        } else {
            let x = (n - 1) as i32;
            assert(prop_at(kind_at, x, y) is Some);
            assert(prop_at(kind_at, x, y) == Some(furniture_row(kind_at, y, n)[i]));
            assert(0 <= x < n);
        }
    }
}

/// Every piece of furniture comes from a cell of the map.
proof fn lemma_furniture_cells<K: Fn(i32, i32) -> Kind>(kind_at: K, size: i32, rows: int, i: int)
    requires
        0 <= i < furniture_of(kind_at, size, rows).len(),
        rows <= 4096,
        0 <= size <= 4096,
    ensures
        exists|x: i32, y: i32| 0 <= x < size && 0 <= y < rows && prop_at(kind_at, x, y) == Some(#[trigger] furniture_of(kind_at, size, rows)[i]),
    decreases rows,
{
    if rows > 0 {
        let prev = furniture_of(kind_at, size, rows - 1);
        if i < prev.len() {
            lemma_furniture_cells(kind_at, size, rows - 1, i);
            assert(furniture_of(kind_at, size, rows)[i] == prev[i]);
            let (x, y) = choose|x: i32, y: i32| 0 <= x < size && 0 <= y < rows - 1 && prop_at(kind_at, x, y) == Some(#[trigger] furniture_of(kind_at, size, rows - 1)[i]);
            assert(0 <= x < size && 0 <= y < rows && prop_at(kind_at, x, y) == Some(furniture_of(kind_at, size, rows)[i]));
        } else {
            let y = (rows - 1) as i32;
            lemma_furniture_row_cells(kind_at, y, size as int, i - prev.len());
            assert(furniture_of(kind_at, size, rows)[i] == furniture_row(kind_at, y, size as int)[i - prev.len()]);
            let x = choose|x: i32| 0 <= x < size && prop_at(kind_at, x, y) == Some(#[trigger] furniture_row(kind_at, y, size as int)[i - prev.len()]);
            assert(0 <= x < size && 0 <= y < rows && prop_at(kind_at, x, y) == Some(furniture_of(kind_at, size, rows)[i]));
        }
    }
}

/// Props only stand on sidewalks: every piece of furniture a map is given
/// stands inside a sidewalk cell of it.
pub proof fn lemma_furniture_stands_on_sidewalks<K: Fn(i32, i32) -> Kind>(kind_at: K, size: i32, i: int)
    requires
        0 <= size <= 4096,
        0 <= i < furniture_of(kind_at, size, size as int).len(),
    ensures
        ({
            let p = furniture_of(kind_at, size, size as int)[i];
            &&& 0 <= p.board.x / 65536 < size
            &&& 0 <= p.board.y / 65536 < size
            &&& read(kind_at, (p.board.x / 65536) as i32, (p.board.y / 65536) as i32) == Kind::Sidewalk
        }),
{
    lemma_furniture_cells(kind_at, size, size as int, i);
    let p = furniture_of(kind_at, size, size as int)[i];
    let (x, y) = choose|x: i32, y: i32| 0 <= x < size && 0 <= y < size && prop_at(kind_at, x, y) == Some(#[trigger] furniture_of(kind_at, size, size as int)[i]);
    lemma_prop_in_cell(kind_at, x, y, p);
    assert(p.board.x / 65536 == x);
    assert(p.board.y / 65536 == y);
}

/// Nothing planted overhangs the road: a tree's crown, a width across,
/// stays inside the sidewalk cell it stands on, on both axes, so none of
/// its edges is over a road cell.
pub proof fn lemma_nothing_planted_overhangs_the_road<K: Fn(i32, i32) -> Kind>(kind_at: K, size: i32, i: int)
    requires
        0 <= size <= 4096,
        0 <= i < furniture_of(kind_at, size, size as int).len(),
        furniture_of(kind_at, size, size as int)[i].board.stamp == Stamp::Tree,
    ensures
        ({
            let b = furniture_of(kind_at, size, size as int)[i].board;
            let half = b.w / 2;
            &&& read(kind_at, ((b.x - half) / 65536) as i32, (b.y / 65536) as i32) != Kind::Road
            &&& read(kind_at, ((b.x + half) / 65536) as i32, (b.y / 65536) as i32) != Kind::Road
            &&& read(kind_at, (b.x / 65536) as i32, ((b.y - half) / 65536) as i32) != Kind::Road
            &&& read(kind_at, (b.x / 65536) as i32, ((b.y + half) / 65536) as i32) != Kind::Road
        }),
{
    lemma_furniture_cells(kind_at, size, size as int, i);
    let p = furniture_of(kind_at, size, size as int)[i];
    let (x, y) = choose|x: i32, y: i32| 0 <= x < size && 0 <= y < size && prop_at(kind_at, x, y) == Some(#[trigger] furniture_of(kind_at, size, size as int)[i]);
    lemma_prop_in_cell(kind_at, x, y, p);
    let b = p.board;
    let half = b.w / 2;
    assert((b.x - half) / 65536 == x);
    assert((b.x + half) / 65536 == x);
    assert((b.y - half) / 65536 == y);
    assert((b.y + half) / 65536 == y);
    assert(b.x / 65536 == x);
    assert(b.y / 65536 == y);
}

/// Street lighting stands nearer the road than the trees do: every piece
/// of furniture beside a road is set its band's distance from the kerb it
/// is placed against, and the lighting's band is nearer the kerb than the
/// planting's.
pub proof fn lemma_lighting_stands_nearer_the_road_than_trees<K: Fn(i32, i32) -> Kind>(kind_at: K, size: i32, i: int)
    requires
        0 <= size <= 4096,
        0 <= i < furniture_of(kind_at, size, size as int).len(),
    ensures
        ({
            let p = furniture_of(kind_at, size, size as int)[i];
            let (x, y) = ((p.board.x / 65536) as i32, (p.board.y / 65536) as i32);
            (road_by(kind_at, x, y, -1, 0) || road_by(kind_at, x, y, 1, 0) || road_by(kind_at, x, y, 0, -1)
                || road_by(kind_at, x, y, 0, 1)) ==> kerb_gap(kind_at, x, y, p) == across_of(p.board.stamp)
        }),
        across_of(Stamp::LampPost) < across_of(Stamp::Tree),
        across_of(Stamp::Signal) < across_of(Stamp::Tree),
{
    lemma_furniture_cells(kind_at, size, size as int, i);
    let p = furniture_of(kind_at, size, size as int)[i];
    let (x, y) = choose|x: i32, y: i32| 0 <= x < size && 0 <= y < size && prop_at(kind_at, x, y) == Some(#[trigger] furniture_of(kind_at, size, size as int)[i]);
    lemma_prop_in_cell(kind_at, x, y, p);
    assert(p.board.x / 65536 == x);
    assert(p.board.y / 65536 == y);
}

/// The nominal spacing of the street grid, road to road, in cells.
pub const BLOCK_PITCH: i32 = 13;

/// How far from the cab, along the grid, traffic and people are kept: four
/// blocks, past which they are recycled.
pub const RECYCLE: i32 = 52;

/// The nearest a new car is put down to the cab: three blocks, out of
/// sight round a corner.
pub const SPAWN_NEAR: i32 = 39;

/// The nearest a fare is hailed: a block away.
pub const HAIL_NEAR: i32 = 13;

/// The furthest a fare is hailed.
pub const HAIL_FAR: i32 = 26;

/// The shortest fare worth the name: a block.
pub const FARE_MIN: i32 = 13;

/// How many tries at a dart before giving up on a road cell.
pub const ROAD_DARTS: i32 = 200;

/// How many road cells are tried for one with a lane.
pub const LANE_TRIES: i32 = 24;

/// One dart thrown from the cab's cell `(tx, ty)`: a distance in
/// `min..=max` and a bearing, from the generator in state `st`; the cell it
/// lands on and the generator's state after.
pub open spec fn dart_of(tx: i32, ty: i32, min: i32, max: i32, st: u32) -> (i32, i32, u32) {
    let s1 = xorshift(st);
    let r: int = if min <= max { min + scale_below(s1, (max - min + 1) as u32) } else { min as int };
    let s2 = xorshift(s1);
    let a = scale_below(s2, 65536) as u16;
    let x = tx + fx_floor(fx_mul(cos_of(a), (r * 65536) as i32));
    let y = ty + fx_floor(fx_mul(sin_of(a), (r * 65536) as i32));
    (x as i32, y as i32, s2)
}

/// Whether a cell is inside the map's margin: not on its outer ring.
pub open spec fn inside(size: i32, x: i32, y: i32) -> bool {
    1 <= x && 1 <= y && x < size - 1 && y < size - 1
}

/// Up to `tries` darts from `(tx, ty)` for a road cell inside the map: the
/// first that lands on one, and the generator's state after.
pub open spec fn road_search<K: Fn(i32, i32) -> Kind>(kind_at: K, size: i32, tx: i32, ty: i32, min: i32, max: i32, st: u32, tries: int) -> (Option<(i32, i32)>, u32)
    decreases tries,
{
    if tries <= 0 {
        (None, st)
    } else {
        let (x, y, s2) = dart_of(tx, ty, min, max, st);
        if inside(size, x, y) && read(kind_at, x, y) == Kind::Road {
            (Some((x, y)), s2)
        } else {
            road_search(kind_at, size, tx, ty, min, max, s2, tries - 1)
        }
    }
}

/// The cab's cell.
pub open spec fn cab_cell(s: Sim) -> (i32, i32) {
    ((s.taxi.x / 65536) as i32, (s.taxi.y / 65536) as i32)
}

/// Whether a road cell is somewhere a car can be put down in a lane: out
/// of any junction, drivable, and with a side of the road to be on.
pub open spec fn lane_at<O: Fn(i32, i32) -> bool, J: Fn(i32, i32) -> bool, P: Fn(i32, i32) -> (Strip, Strip)>(
    drivable: O, junction: J, plan_at: P, x: i32, y: i32,
) -> Option<(i32, i32)> {
    if read(junction, x, y) || !read(drivable, x, y) {
        None
    } else {
        flow_of(read(plan_at, x, y).0, read(plan_at, x, y).1, x as int, y as int)
    }
}

/// Up to `tries` road cells near the cab for one with a lane: the cell and
/// the way its side of the road goes, and the generator's state after;
/// `None` as soon as a search for a road cell comes back empty.
pub open spec fn lane_search<K: Fn(i32, i32) -> Kind, O: Fn(i32, i32) -> bool, J: Fn(i32, i32) -> bool, P: Fn(i32, i32) -> (Strip, Strip)>(
    kind_at: K, drivable: O, junction: J, plan_at: P, size: i32, tx: i32, ty: i32, min: i32, max: i32, st: u32, tries: int,
) -> (Option<((i32, i32), (i32, i32))>, u32)
    decreases tries,
{
    if tries <= 0 {
        (None, st)
    } else {
        let (found, s2) = road_search(kind_at, size, tx, ty, min, max, st, ROAD_DARTS as int);
        match found {
            None => (None, s2),
            Some((x, y)) => match lane_at(drivable, junction, plan_at, x, y) {
                Some(dir) => (Some(((x, y), dir)), s2),
                None => lane_search(kind_at, drivable, junction, plan_at, size, tx, ty, min, max, s2, tries - 1),
            },
        }
    }
}

/// Whether the things a search near the cab reads are answered the same
/// way each time, and the map fits the 32-bit plan.
pub open spec fn city_reads<K: Fn(i32, i32) -> Kind, O: Fn(i32, i32) -> bool, J: Fn(i32, i32) -> bool, P: Fn(i32, i32) -> (Strip, Strip)>(
    kind_at: K, drivable: O, junction: J, plan_at: P, size: i32,
) -> bool {
    &&& reads(kind_at)
    &&& reads(drivable)
    &&& reads(junction)
    &&& reads(plan_at)
    &&& 0 <= size <= 4096
}

/// The colours the traffic is painted in.
pub open spec fn traffic_hue(i: u32) -> u8 {
    if i == 0 {
        palette::H_WHITE
    } else if i == 1 {
        palette::H_RED
    } else if i == 2 {
        palette::H_BLUE
    } else if i == 3 {
        palette::H_GREEN
    } else if i == 4 {
        palette::H_ORANGE
    } else {
        palette::H_PURPLE
    }
}

/// A new car for the traffic, from the generator in state `st`: its paint,
/// whether it is a bus (one in eight), its cruising speed (1.8 to 3.1
/// cells a second), its place across its half of the road (the middle for
/// a bus), and where it is put down - in the lane of a road cell three to
/// four blocks from the cab, facing and moving the way that side goes, or
/// on top of the cab, at rest, where no lane turned up.  The car, its
/// cruise and bias, and the generator's state after.
pub open spec fn spawn_of<K: Fn(i32, i32) -> Kind, O: Fn(i32, i32) -> bool, J: Fn(i32, i32) -> bool, P: Fn(i32, i32) -> (Strip, Strip)>(
    kind_at: K, drivable: O, junction: J, plan_at: P, size: i32, taxi: Car, st: u32,
) -> (Car, Fx, Fx, u32) {
    let s1 = xorshift(st);
    let hue = traffic_hue(scale_below(s1, 6));
    let s2 = xorshift(s1);
    let bus = scale_below(s2, 8) < 1;
    let kind = if bus { CarKind::Bus } else { CarKind::Traffic };
    let s3 = xorshift(s2);
    let cruise = div_of(from_int_of(18 + scale_below(s3, 15)) as int, from_int_of(10) as int);
    let s4 = if bus { s3 } else { xorshift(s3) };
    let bias = if bus { 0 } else { div_of(from_int_of(-8 + scale_below(s4, 18)) as int, from_int_of(10) as int) };
    let (tx, ty) = ((taxi.x / 65536) as i32, (taxi.y / 65536) as i32);
    let (found, s5) = lane_search(kind_at, drivable, junction, plan_at, size, tx, ty, SPAWN_NEAR, RECYCLE, s4, LANE_TRIES as int);
    match found {
        None => (Car { x: taxi.x, y: taxi.y, vx: 0, vy: 0, yaw: taxi.yaw, spin: 0, damage: 0, hue, kind, pinned: 0, stepped: 0, wound: 0, boost: 0 },
            cruise, bias, s5),
        Some(((x, y), dir)) => {
            let yaw = heading_of(dir.0, dir.1);
            let (row, col) = read(plan_at, x, y);
            let l = lane_biased_of(row, col, x as int, y as int, dir.0 as int, dir.1 as int, bias as int);
            (Car { x: l.0 as i32, y: l.1 as i32, vx: fx_mul(cos_of(yaw), cruise), vy: fx_mul(sin_of(yaw), cruise), yaw, spin: 0,
                damage: 0, hue, kind, pinned: 0, stepped: 0, wound: 0, boost: 0 }, cruise, bias, s5)
        },
    }
}

impl Sim {
    /// One dart from the cab's cell.
    fn dart(&mut self, tx: i32, ty: i32, min: i32, max: i32) -> (r: (i32, i32))
        requires
            0 <= min <= max <= 1000,
            -32768 <= tx <= 32767,
            -32768 <= ty <= 32767,
        ensures
            ({
                let d = dart_of(tx, ty, min, max, old(self).rng.state());
                &&& r == (d.0, d.1)
                &&& final(self).rng.state() == d.2
            }),
            *final(self) == (Sim { rng: final(self).rng, ..*old(self) }),
    {
        let r = self.rng.range(min, max);
        let a = self.rng.below(65536) as Ang;
        let rf = fixed::from_int(r);
        let c = trig::cos(a);
        let sn = trig::sin(a);
        proof {
            trig::lemma_table_bounds(a);
            assert(-65536 * 65536000 <= c as int * rf as int <= 65536 * 65536000) by (nonlinear_arith)
                requires -65536 <= c <= 65536, 0 <= rf <= 65536000;
            assert(-65536 * 65536000 <= sn as int * rf as int <= 65536 * 65536000) by (nonlinear_arith)
                requires -65536 <= sn <= 65536, 0 <= rf <= 65536000;
        }
        let dx = fixed::floor(fixed::mul(c, rf));
        let dy = fixed::floor(fixed::mul(sn, rf));
        (tx + dx, ty + dy)
    }
}

/// A tenth of a cell count between -8 and 32 is a fraction of a cell
/// within four cells either way.
proof fn lemma_tenths(n: int)
    requires
        -8 <= n <= 32,
    ensures
        -65536 <= div_of(from_int_of(n) as int, from_int_of(10) as int) <= 4 * 65536,
{
    assert(from_int_of(n) == n * 65536);
    assert(from_int_of(10) == 655360);
    let x = n * 65536 * 65536;
    let ax = vstd::math::abs(x) as int;
    assert(ax <= 32 * 4294967296);
    assert(ax / 655360 <= 262144) by (nonlinear_arith)
        requires 0 <= ax <= 32 * 4294967296;
    assert(n < 0 ==> ax <= 8 * 4294967296);
    assert(ax <= 8 * 4294967296 ==> ax / 655360 <= 65536) by (nonlinear_arith)
        requires 0 <= ax;
}

/// A road cell a search finds is inside the map.
proof fn lemma_road_search_inside<K: Fn(i32, i32) -> Kind>(kind_at: K, size: i32, tx: i32, ty: i32, min: i32, max: i32, st: u32, tries: int)
    ensures
        road_search(kind_at, size, tx, ty, min, max, st, tries).0 matches Some(c) ==> inside(size, c.0, c.1),
    decreases tries,
{
    if tries > 0 {
        let (x, y, s2) = dart_of(tx, ty, min, max, st);
        lemma_road_search_inside(kind_at, size, tx, ty, min, max, s2, tries - 1);
    }
}

/// A lane a search finds is on a road cell inside the map.
proof fn lemma_lane_search_inside<K: Fn(i32, i32) -> Kind, O: Fn(i32, i32) -> bool, J: Fn(i32, i32) -> bool, P: Fn(i32, i32) -> (Strip, Strip)>(
    kind_at: K, drivable: O, junction: J, plan_at: P, size: i32, tx: i32, ty: i32, min: i32, max: i32, st: u32, tries: int,
)
    ensures
        lane_search(kind_at, drivable, junction, plan_at, size, tx, ty, min, max, st, tries).0 matches Some(c) ==> inside(size, c.0.0, c.0.1)
            && -1 <= c.1.0 <= 1 && -1 <= c.1.1 <= 1,
    decreases tries,
{
    if tries > 0 {
        lemma_road_search_inside(kind_at, size, tx, ty, min, max, st, ROAD_DARTS as int);
        let (found, s2) = road_search(kind_at, size, tx, ty, min, max, st, ROAD_DARTS as int);
        lemma_lane_search_inside(kind_at, drivable, junction, plan_at, size, tx, ty, min, max, s2, tries - 1);
    }
}

impl Sim {
    /// A road cell near the cab but not on top of it: up to
    /// [`ROAD_DARTS`] darts `min..=max` cells out, the first that lands on
    /// road inside the map.
    fn road_near<K: Fn(i32, i32) -> Kind>(&mut self, kind_at: &K, size: i32, min: i32, max: i32) -> (r: Option<(i32, i32)>)
        requires
            reads(*kind_at),
            0 <= min <= max <= 1000,
            0 <= size <= 4096,
        ensures
            ({
                let (tx, ty) = cab_cell(*old(self));
                let (found, st) = road_search(*kind_at, size, tx, ty, min, max, old(self).rng.state(), ROAD_DARTS as int);
                &&& r == found
                &&& final(self).rng.state() == st
            }),
            *final(self) == (Sim { rng: final(self).rng, ..*old(self) }),
    {
        let ghost s0 = *self;
        let tx = fixed::floor(self.taxi.x);
        let ty = fixed::floor(self.taxi.y);
        let mut n: i32 = 0;
        let mut found: Option<(i32, i32)> = None;
        while n < ROAD_DARTS && found.is_none()
            invariant
                0 <= n <= ROAD_DARTS,
                0 <= min <= max <= 1000,
                0 <= size <= 4096,
                reads(*kind_at),
                (tx, ty) == cab_cell(s0),
                *self == (Sim { rng: self.rng, ..s0 }),
                found is None ==> road_search(*kind_at, size, tx, ty, min, max, self.rng.state(), (ROAD_DARTS - n) as int)
                    == road_search(*kind_at, size, tx, ty, min, max, s0.rng.state(), ROAD_DARTS as int),
                found is Some ==> (found, self.rng.state())
                    == road_search(*kind_at, size, tx, ty, min, max, s0.rng.state(), ROAD_DARTS as int),
            decreases ROAD_DARTS - n,
        {
            let ghost st = self.rng.state();
            let ghost left = (ROAD_DARTS - n) as int;
            let (x, y) = self.dart(tx, ty, min, max);
            let ghost s2 = self.rng.state();
            assert(road_search(*kind_at, size, tx, ty, min, max, st, left) == (if inside(size, x, y) && read(*kind_at, x, y) == Kind::Road {
                (Some((x, y)), s2)
            } else {
                road_search(*kind_at, size, tx, ty, min, max, s2, left - 1)
            }));
            n = n + 1;
            if 1 <= x && 1 <= y && x < size - 1 && y < size - 1 {
                let k = kind_at(x, y);
                proof { lemma_read(*kind_at, x, y, k); }
                if k == Kind::Road {
                    found = Some((x, y));
                }
            }
        }
        found
    }

    /// A carriageway cell near the cab that has a side of the road to be
    /// on, and the way the traffic on that side goes: up to
    /// [`LANE_TRIES`] road cells, giving up as soon as none turns up.
    fn lane_near<K: Fn(i32, i32) -> Kind, O: Fn(i32, i32) -> bool, J: Fn(i32, i32) -> bool, P: Fn(i32, i32) -> (Strip, Strip)>(
        &mut self, kind_at: &K, drivable: &O, junction: &J, plan_at: &P, size: i32, min: i32, max: i32,
    ) -> (r: Option<((i32, i32), (i32, i32))>)
        requires
            city_reads(*kind_at, *drivable, *junction, *plan_at, size),
            0 <= min <= max <= 1000,
        ensures
            ({
                let (tx, ty) = cab_cell(*old(self));
                let (found, st) = lane_search(*kind_at, *drivable, *junction, *plan_at, size, tx, ty, min, max, old(self).rng.state(), LANE_TRIES as int);
                &&& r == found
                &&& final(self).rng.state() == st
            }),
            *final(self) == (Sim { rng: final(self).rng, ..*old(self) }),
    {
        let ghost s0 = *self;
        let ghost (tx, ty) = cab_cell(s0);
        let mut n: i32 = 0;
        let mut result: Option<((i32, i32), (i32, i32))> = None;
        let mut done = false;
        while n < LANE_TRIES && !done
            invariant
                0 <= n <= LANE_TRIES,
                0 <= min <= max <= 1000,
                city_reads(*kind_at, *drivable, *junction, *plan_at, size),
                (tx, ty) == cab_cell(s0),
                *self == (Sim { rng: self.rng, ..s0 }),
                !done ==> result is None && lane_search(*kind_at, *drivable, *junction, *plan_at, size, tx, ty, min, max, self.rng.state(), (LANE_TRIES - n) as int)
                    == lane_search(*kind_at, *drivable, *junction, *plan_at, size, tx, ty, min, max, s0.rng.state(), LANE_TRIES as int),
                done ==> (result, self.rng.state())
                    == lane_search(*kind_at, *drivable, *junction, *plan_at, size, tx, ty, min, max, s0.rng.state(), LANE_TRIES as int),
            decreases LANE_TRIES - n,
        {
            let ghost st = self.rng.state();
            let ghost left = (LANE_TRIES - n) as int;
            let found = self.road_near(kind_at, size, min, max);
            proof {
                lemma_road_search_inside(*kind_at, size, tx, ty, min, max, st, ROAD_DARTS as int);
            }
            n = n + 1;
            match found {
                None => {
                    done = true;
                },
                Some((x, y)) => {
                    let j = junction(x, y);
                    let d = drivable(x, y);
                    proof {
                        lemma_read(*junction, x, y, j);
                        lemma_read(*drivable, x, y, d);
                    }
                    if !j && d {
                        let (row, col) = plan_at(x, y);
                        proof { lemma_read(*plan_at, x, y, (row, col)); }
                        match crate::road::flow(&row, &col, x, y) {
                            Some(dir) => {
                                result = Some(((x, y), dir));
                                done = true;
                            },
                            None => {},
                        }
                    }
                },
            }
        }
        result
    }

    /// A new car for the traffic pool: see [`spawn_of`].
    fn spawn_car<K: Fn(i32, i32) -> Kind, O: Fn(i32, i32) -> bool, J: Fn(i32, i32) -> bool, P: Fn(i32, i32) -> (Strip, Strip)>(
        &mut self, kind_at: &K, drivable: &O, junction: &J, plan_at: &P, size: i32,
    ) -> (r: (Car, Fx, Fx))
        requires
            city_reads(*kind_at, *drivable, *junction, *plan_at, size),
        ensures
            ({
                let sp = spawn_of(*kind_at, *drivable, *junction, *plan_at, size, old(self).taxi, old(self).rng.state());
                &&& r == (sp.0, sp.1, sp.2)
                &&& final(self).rng.state() == sp.3
            }),
            *final(self) == (Sim { rng: final(self).rng, ..*old(self) }),
    {
        let h = self.rng.below(6);
        let hue = if h == 0 {
            palette::H_WHITE
        } else if h == 1 {
            palette::H_RED
        } else if h == 2 {
            palette::H_BLUE
        } else if h == 3 {
            palette::H_GREEN
        } else if h == 4 {
            palette::H_ORANGE
        } else {
            palette::H_PURPLE
        };
        let bus = self.rng.chance(1, 8);
        let kind = if bus { CarKind::Bus } else { CarKind::Traffic };
        let cruise = fixed::ratio(self.rng.range(18, 32), 10);
        let bias = if bus {
            0
        } else {
            let bn = self.rng.range(-8, 9);
            proof {
                lemma_tenths(bn as int);
            }
            fixed::ratio(bn, 10)
        };
        let ghost st = self.rng.state();
        proof {
            lemma_lane_search_inside(*kind_at, *drivable, *junction, *plan_at, size, cab_cell(*self).0, cab_cell(*self).1,
                SPAWN_NEAR, RECYCLE, st, LANE_TRIES as int);
        }
        match self.lane_near(kind_at, drivable, junction, plan_at, size, SPAWN_NEAR, RECYCLE) {
            None => {
                let c = Car::new(kind, self.taxi.x, self.taxi.y, self.taxi.yaw, hue);
                (c, cruise, bias)
            },
            Some(((x, y), dir)) => {
                let yaw = crate::road::heading(dir.0, dir.1);
                let (row, col) = plan_at(x, y);
                proof { lemma_read(*plan_at, x, y, (row, col)); }
                let (lx, ly) = crate::road::lane_biased(&row, &col, x, y, dir, bias);
                let mut c = Car::new(kind, lx, ly, yaw, hue);
                c.vx = fixed::mul(trig::cos(yaw), cruise);
                c.vy = fixed::mul(trig::sin(yaw), cruise);
                (c, cruise, bias)
            },
        }
    }
}

} // verus!

verus! {

/// Whether a cab can pull up at a cell: drivable, out of any junction, and
/// on a street rather than an alley.
pub open spec fn stop_ok<O: Fn(i32, i32) -> bool, J: Fn(i32, i32) -> bool, P: Fn(i32, i32) -> (Strip, Strip)>(
    drivable: O, junction: J, plan_at: P, x: i32, y: i32,
) -> bool {
    &&& read(drivable, x, y)
    &&& !read(junction, x, y)
    &&& (read(plan_at, x, y).1.street || read(plan_at, x, y).0.street)
}

/// The first cell a cab can pull up at, one or two rings out from
/// `(x, y)`, row by row within a ring and west to east within a row, from
/// ring `r`, row `dy` and column `dx` on.
pub open spec fn beside_search<O: Fn(i32, i32) -> bool, J: Fn(i32, i32) -> bool, P: Fn(i32, i32) -> (Strip, Strip)>(
    drivable: O, junction: J, plan_at: P, x: int, y: int, r: int, dy: int, dx: int,
) -> Option<(i32, i32)>
    decreases 3 - r, r + 1 - dy, r + 1 - dx,
{
    if r > 2 || r < 1 || dy < -r || dx < -r {
        None
    } else if dy > r {
        beside_search(drivable, junction, plan_at, x, y, r + 1, -(r + 1), -(r + 1))
    } else if dx > r {
        beside_search(drivable, junction, plan_at, x, y, r, dy + 1, -r)
    } else if crate::walk::ring_of(dx, dy) == r && stop_ok(drivable, junction, plan_at, (x + dx) as i32, (y + dy) as i32) {
        Some(((x + dx) as i32, (y + dy) as i32))
    } else {
        beside_search(drivable, junction, plan_at, x, y, r, dy, dx + 1)
    }
}

/// The kerb a cab pulls up at to reach somebody standing at `(x, y)`.
pub open spec fn kerb_beside_of<O: Fn(i32, i32) -> bool, J: Fn(i32, i32) -> bool, P: Fn(i32, i32) -> (Strip, Strip)>(
    drivable: O, junction: J, plan_at: P, x: i32, y: i32,
) -> Option<(i32, i32)> {
    beside_search(drivable, junction, plan_at, x as int, y as int, 1, -1, -1)
}

/// The kerb a cab pulls up at to reach somebody standing at `(x, y)`: the
/// first street cell, one ring out and then two, that a cab can stop in.
fn kerb_beside<O: Fn(i32, i32) -> bool, J: Fn(i32, i32) -> bool, P: Fn(i32, i32) -> (Strip, Strip)>(
    drivable: &O, junction: &J, plan_at: &P, x: i32, y: i32,
) -> (r: Option<(i32, i32)>)
    requires
        reads(*drivable),
        reads(*junction),
        reads(*plan_at),
        -32000 <= x <= 32000,
        -32000 <= y <= 32000,
    ensures
        r == kerb_beside_of(*drivable, *junction, *plan_at, x, y),
{
    let mut r: i32 = 1;
    let mut found: Option<(i32, i32)> = None;
    while r <= 2 && found.is_none()
        invariant
            1 <= r <= 3,
            -32000 <= x <= 32000,
            -32000 <= y <= 32000,
            reads(*drivable),
            reads(*junction),
            reads(*plan_at),
            found is None ==> beside_search(*drivable, *junction, *plan_at, x as int, y as int, r as int, -r as int, -r as int)
                == kerb_beside_of(*drivable, *junction, *plan_at, x, y),
            found is Some ==> found == kerb_beside_of(*drivable, *junction, *plan_at, x, y),
        decreases 3 - r,
    {
        let mut dy: i32 = -r;
        while dy <= r && found.is_none()
            invariant
                1 <= r <= 2,
                -r <= dy <= r + 1,
                -32000 <= x <= 32000,
                -32000 <= y <= 32000,
                reads(*drivable),
                reads(*junction),
                reads(*plan_at),
                found is None ==> beside_search(*drivable, *junction, *plan_at, x as int, y as int, r as int, dy as int, -r as int)
                    == kerb_beside_of(*drivable, *junction, *plan_at, x, y),
                found is Some ==> found == kerb_beside_of(*drivable, *junction, *plan_at, x, y),
            decreases r + 1 - dy,
        {
            let mut dx: i32 = -r;
            while dx <= r && found.is_none()
                invariant
                    1 <= r <= 2,
                    -r <= dy <= r,
                    -r <= dx <= r + 1,
                    -32000 <= x <= 32000,
                    -32000 <= y <= 32000,
                    reads(*drivable),
                    reads(*junction),
                    reads(*plan_at),
                    found is None ==> beside_search(*drivable, *junction, *plan_at, x as int, y as int, r as int, dy as int, dx as int)
                        == kerb_beside_of(*drivable, *junction, *plan_at, x, y),
                    found is Some ==> found == kerb_beside_of(*drivable, *junction, *plan_at, x, y),
                decreases r + 1 - dx,
            {
                let ghost here = beside_search(*drivable, *junction, *plan_at, x as int, y as int, r as int, dy as int, dx as int);
                let ax = if dx < 0 { -dx } else { dx };
                let ay = if dy < 0 { -dy } else { dy };
                let ring = if ax >= ay { ax } else { ay };
                assert(ring == crate::walk::ring_of(dx as int, dy as int));
                if ring == r {
                    let (px, py) = (x + dx, y + dy);
                    let d = drivable(px, py);
                    let j = junction(px, py);
                    let (row, col) = plan_at(px, py);
                    proof {
                        lemma_read(*drivable, px, py, d);
                        lemma_read(*junction, px, py, j);
                        lemma_read(*plan_at, px, py, (row, col));
                    }
                    if d && !j && (col.street || row.street) {
                        found = Some((px, py));
                    }
                }
                dx = dx + 1;
                proof {
                    if found is None {
                        assert(here == beside_search(*drivable, *junction, *plan_at, x as int, y as int, r as int, dy as int, dx as int));
                    }
                }
            }
            proof {
                if found is None {
                    assert(beside_search(*drivable, *junction, *plan_at, x as int, y as int, r as int, dy as int, dx as int)
                        == beside_search(*drivable, *junction, *plan_at, x as int, y as int, r as int, dy + 1, -r as int));
                }
            }
            dy = dy + 1;
        }
        proof {
            if found is None {
                assert(beside_search(*drivable, *junction, *plan_at, x as int, y as int, r as int, dy as int, -r as int)
                    == beside_search(*drivable, *junction, *plan_at, x as int, y as int, r + 1, -(r + 1), -(r + 1)));
            }
        }
        r = r + 1;
    }
    found
}

/// What [`WalkMap::nearest`] answers: the open cell nearest `(x, y)`, ring
/// by ring out to `limit` and row by row within the ring, if there is one.
pub open spec fn nearest_is(m: WalkMap, x: i32, y: i32, limit: i32, r: Option<(i32, i32)>) -> bool {
    &&& r is None ==> forall|p: int, q: int|
        crate::walk::ring_of(p - x, q - y) < (if limit > 1 { limit as int } else { 1 }) ==> !#[trigger] m.open_at(p, q)
    &&& r matches Some(c) ==> {
        let n = crate::walk::ring_of(c.0 - x, c.1 - y);
        &&& m.open_at(c.0 as int, c.1 as int)
        &&& n < (if limit > 1 { limit as int } else { 1 })
        &&& forall|p: int, q: int| crate::walk::ring_of(p - x, q - y) < n ==> !#[trigger] m.open_at(p, q)
        &&& forall|p: int, q: int| crate::walk::ring_of(p - x, q - y) == n && (q < c.1 || (q == c.1 && p < c.0))
            ==> !#[trigger] m.open_at(p, q)
    }
}

/// The answer [`WalkMap::nearest`] gives.
pub open spec fn nearest_of(m: WalkMap, x: i32, y: i32, limit: i32) -> Option<(i32, i32)> {
    choose|r: Option<(i32, i32)>| nearest_is(m, x, y, limit, r)
}

/// There is one nearest open cell: the search's answer is fixed by the map.
pub proof fn lemma_nearest_is_unique(m: WalkMap, x: i32, y: i32, limit: i32, r1: Option<(i32, i32)>, r2: Option<(i32, i32)>)
    requires
        nearest_is(m, x, y, limit, r1),
        nearest_is(m, x, y, limit, r2),
    ensures
        r1 == r2,
{
    match (r1, r2) {
        (Some(c1), Some(c2)) => {
            assert(m.open_at(c1.0 as int, c1.1 as int));
            assert(m.open_at(c2.0 as int, c2.1 as int));
        },
        (Some(c1), None) => {
            assert(m.open_at(c1.0 as int, c1.1 as int));
        },
        (None, Some(c2)) => {
            assert(m.open_at(c2.0 as int, c2.1 as int));
        },
        _ => {},
    }
}

/// One dart for somewhere to stand: where it lands, snapped to the nearest
/// place on foot within six rings; kept only if that is at least `min`
/// cells from the cab along the grid, pavement rather than road, with a
/// kerb beside it.  The place and its kerb.
pub open spec fn stand_at<K: Fn(i32, i32) -> Kind, O: Fn(i32, i32) -> bool, J: Fn(i32, i32) -> bool, P: Fn(i32, i32) -> (Strip, Strip)>(
    kind_at: K, walk: WalkMap, drivable: O, junction: J, plan_at: P, size: i32, tx: i32, ty: i32, min: i32, x: i32, y: i32,
) -> Option<((i32, i32), (i32, i32))> {
    if !inside(size, x, y) {
        None
    } else {
        match nearest_of(walk, x, y, 6) {
            None => None,
            Some((px, py)) => {
                if crate::walk::ring_of(px - x, py - y) >= 6 || vstd::math::abs(px - tx) + vstd::math::abs(py - ty) < min {
                    None
                } else if walk.foot(px as int, py as int) != crate::walk::Foot::Path || read(kind_at, px, py) == Kind::Road {
                    None
                } else {
                    match kerb_beside_of(drivable, junction, plan_at, px, py) {
                        None => None,
                        Some(stop) => Some(((px, py), stop)),
                    }
                }
            },
        }
    }
}

/// How many darts are thrown for somewhere a passenger can stand.
pub const KERB_DARTS: i32 = 400;

/// Up to `tries` darts for somewhere a passenger can stand: the first that
/// finds one, and the generator's state after.
pub open spec fn kerb_search<K: Fn(i32, i32) -> Kind, O: Fn(i32, i32) -> bool, J: Fn(i32, i32) -> bool, P: Fn(i32, i32) -> (Strip, Strip)>(
    kind_at: K, walk: WalkMap, drivable: O, junction: J, plan_at: P, size: i32, tx: i32, ty: i32, min: i32, max: i32, st: u32, tries: int,
) -> (Option<((i32, i32), (i32, i32))>, u32)
    decreases tries,
{
    if tries <= 0 {
        (None, st)
    } else {
        let (x, y, s2) = dart_of(tx, ty, min, max, st);
        match stand_at(kind_at, walk, drivable, junction, plan_at, size, tx, ty, min, x, y) {
            Some(v) => (Some(v), s2),
            None => kerb_search(kind_at, walk, drivable, junction, plan_at, size, tx, ty, min, max, s2, tries - 1),
        }
    }
}

impl Sim {
    /// Somewhere on foot near the cab where somebody could be standing,
    /// and the kerb a cab pulls up at to reach them: see [`kerb_search`].
    fn kerb_near<K: Fn(i32, i32) -> Kind, O: Fn(i32, i32) -> bool, J: Fn(i32, i32) -> bool, P: Fn(i32, i32) -> (Strip, Strip)>(
        &mut self, kind_at: &K, walk: &WalkMap, drivable: &O, junction: &J, plan_at: &P, size: i32, min: i32, max: i32,
    ) -> (r: Option<((i32, i32), (i32, i32))>)
        requires
            city_reads(*kind_at, *drivable, *junction, *plan_at, size),
            0 <= min <= max <= 1000,
        ensures
            ({
                let (tx, ty) = cab_cell(*old(self));
                let (found, st) = kerb_search(*kind_at, *walk, *drivable, *junction, *plan_at, size, tx, ty, min, max, old(self).rng.state(), KERB_DARTS as int);
                &&& r == found
                &&& final(self).rng.state() == st
            }),
            *final(self) == (Sim { rng: final(self).rng, ..*old(self) }),
    {
        let ghost s0 = *self;
        let tx = fixed::floor(self.taxi.x);
        let ty = fixed::floor(self.taxi.y);
        let mut n: i32 = 0;
        let mut found: Option<((i32, i32), (i32, i32))> = None;
        while n < KERB_DARTS && found.is_none()
            invariant
                0 <= n <= KERB_DARTS,
                0 <= min <= max <= 1000,
                city_reads(*kind_at, *drivable, *junction, *plan_at, size),
                (tx, ty) == cab_cell(s0),
                *self == (Sim { rng: self.rng, ..s0 }),
                found is None ==> kerb_search(*kind_at, *walk, *drivable, *junction, *plan_at, size, tx, ty, min, max, self.rng.state(), (KERB_DARTS - n) as int)
                    == kerb_search(*kind_at, *walk, *drivable, *junction, *plan_at, size, tx, ty, min, max, s0.rng.state(), KERB_DARTS as int),
                found is Some ==> (found, self.rng.state())
                    == kerb_search(*kind_at, *walk, *drivable, *junction, *plan_at, size, tx, ty, min, max, s0.rng.state(), KERB_DARTS as int),
            decreases KERB_DARTS - n,
        {
            let ghost st = self.rng.state();
            let ghost left = (KERB_DARTS - n) as int;
            let (x, y) = self.dart(tx, ty, min, max);
            let ghost s2 = self.rng.state();
            n = n + 1;
            let mut here: Option<((i32, i32), (i32, i32))> = None;
            if 1 <= x && 1 <= y && x < size - 1 && y < size - 1 {
                let near = walk.nearest(x, y, 6);
                proof {
                    assert(nearest_is(*walk, x, y, 6, near));
                    lemma_nearest_is_unique(*walk, x, y, 6, near, nearest_of(*walk, x, y, 6));
                }
                match near {
                    None => {},
                    Some((px, py)) => {
                        let ddx = if px >= tx { px - tx } else { tx - px };
                        let ddy = if py >= ty { py - ty } else { ty - py };
                        if ddx + ddy >= min {
                            let foot = walk.at(px, py);
                            let k = kind_at(px, py);
                            proof { lemma_read(*kind_at, px, py, k); }
                            if foot == crate::walk::Foot::Path && k != Kind::Road {
                                match kerb_beside(drivable, junction, plan_at, px, py) {
                                    None => {},
                                    Some(stop) => {
                                        here = Some(((px, py), stop));
                                    },
                                }
                            }
                        }
                    },
                }
            }
            assert(here == stand_at(*kind_at, *walk, *drivable, *junction, *plan_at, size, tx, ty, min, x, y));
            assert(kerb_search(*kind_at, *walk, *drivable, *junction, *plan_at, size, tx, ty, min, max, st, left) == match here {
                Some(v) => (Some(v), s2),
                None => kerb_search(*kind_at, *walk, *drivable, *junction, *plan_at, size, tx, ty, min, max, s2, left - 1),
            });
            found = here;
        }
        found
    }
}

/// How many cells of route search a trail of coins may cost.
pub const COIN_BUDGET: usize = 40000;

/// The sign of a difference, as a step.
pub open spec fn sgn(v: int) -> i32 {
    if v > 0 { 1i32 } else if v < 0 { -1i32 } else { 0i32 }
}

/// The coin laid at step `i` of a route: in the lane of its cell, for the
/// way the route runs over the two steps either side of it.
#[verifier::opaque]
pub open spec fn coin_at<P: Fn(i32, i32) -> (Strip, Strip)>(plan_at: P, route: Seq<(i32, i32)>, i: int) -> Coin {
    let n = route.len();
    let a = route[if i >= 2 { i - 2 } else { 0 }];
    let b = route[if i + 2 <= n - 1 { i + 2 } else { n - 1 }];
    let (x, y) = route[i];
    let (row, col) = read(plan_at, x, y);
    let l = lane_of(row, col, x as int, y as int, sgn(b.0 - a.0) as int, sgn(b.1 - a.1) as int);
    Coin { x: l.0 as i32, y: l.1 as i32, taken: false }
}

/// Every coin of a trail is laid in the lane of its route cell for the
/// way the route runs there (over the two steps either side of it), not
/// down the middle of the cell: on a street running along x, a trail
/// heading east lies past the crown on the south side, and one heading
/// west on the north side.
pub proof fn lemma_coins_lie_in_the_lane<P: Fn(i32, i32) -> (Strip, Strip)>(plan_at: P, route: Seq<(i32, i32)>, k: int)
    requires
        0 <= k < coins_along(plan_at, route).len(),
    ensures
        ({
            let i = 3 * k;
            let n = route.len();
            let a = route[if i >= 2 { i - 2 } else { 0 }];
            let b = route[if i + 2 <= n - 1 { i + 2 } else { n - 1 }];
            let (x, y) = route[i];
            let (row, col) = read(plan_at, x, y);
            let c = coins_along(plan_at, route)[k];
            let l = lane_of(row, col, x as int, y as int, sgn(b.0 - a.0) as int, sgn(b.1 - a.1) as int);
            &&& c.x == l.0 as i32 && c.y == l.1 as i32 && !c.taken
            &&& (row.street && !col.street && row.width >= 2 && b.0 > a.0) ==> l.1 > crate::road::crown_of(row, y as int, 2)
            &&& (row.street && !col.street && row.width >= 2 && b.0 < a.0) ==> l.1 < crate::road::crown_of(row, y as int, 2)
        }),
{
    reveal(coin_at);
    assert(3 * k < route.len());
}

/// The coins along a route: one every third cell, from the first.
pub open spec fn coins_along<P: Fn(i32, i32) -> (Strip, Strip)>(plan_at: P, route: Seq<(i32, i32)>) -> Seq<Coin> {
    Seq::new(((route.len() + 2) / 3) as nat, |k: int| coin_at(plan_at, route, 3 * k))
}

/// Whether `p` is a shortest walk between two cells.
#[verifier::opaque]
pub open spec fn shortest_walk(drive: WalkMap, p: Seq<(i32, i32)>, from: (i32, i32), to: (i32, i32)) -> bool {
    &&& crate::walk::is_walk(drive, p, from, to)
    &&& forall|w: Seq<(i32, i32)>| #[trigger] crate::walk::is_walk(drive, w, from, to) ==> p.len() <= w.len()
}

/// Whether every cell of a route lies on a map of at most 4096 cells a side.
pub open spec fn cells_on_map(p: Seq<(i32, i32)>) -> bool {
    forall|k: int| 0 <= k < p.len() ==> 0 <= #[trigger] p[k].0 < 4096 && 0 <= p[k].1 < 4096
}

/// A trail of coins between two cells: none where the road network has no
/// route the search found, else the coins along a shortest route.
pub open spec fn coin_trail_is<P: Fn(i32, i32) -> (Strip, Strip)>(drive: WalkMap, plan_at: P, from: (i32, i32), to: (i32, i32), coins: Seq<Coin>) -> bool {
    &&& !(drive.open_at(from.0 as int, from.1 as int) && drive.open_at(to.0 as int, to.1 as int)) ==> coins.len() == 0
    &&& (coins.len() == 0 || exists|p: Seq<(i32, i32)>| #[trigger] shortest_walk(drive, p, from, to) && coins == coins_along(plan_at, p))
}

/// The coin laid at step `i` of a route.
fn coin_for<P: Fn(i32, i32) -> (Strip, Strip)>(plan_at: &P, route: &Vec<(i32, i32)>, i: usize) -> (c: Coin)
    requires
        reads(*plan_at),
        cells_on_map(route@),
        i < route@.len(),
    ensures
        c == coin_at(*plan_at, route@, i as int),
{
    reveal(coin_at);
    let n = route.len();
    let ia = if i >= 2 { i - 2 } else { 0 };
    let ib = if n - 1 - i >= 2 { i + 2 } else { n - 1 };
    let a = route[ia];
    let b = route[ib];
    let (x, y) = route[i];
    assert(0 <= route@[i as int].0 < 4096);
    let sx: i32 = if b.0 > a.0 { 1 } else if b.0 < a.0 { -1 } else { 0 };
    let sy: i32 = if b.1 > a.1 { 1 } else if b.1 < a.1 { -1 } else { 0 };
    let (row, col) = plan_at(x, y);
    proof { lemma_read(*plan_at, x, y, (row, col)); }
    let (cx, cy) = crate::road::lane(&row, &col, x, y, (sx, sy));
    Coin { x: cx, y: cy, taken: false }
}

/// String coins along the road between two cells, down the route a car
/// would take, in the lane: see [`coin_trail_is`].
#[verifier::rlimit(40)]
fn coin_trail<P: Fn(i32, i32) -> (Strip, Strip)>(drive: &WalkMap, plan_at: &P, from: (i32, i32), to: (i32, i32)) -> (r: Vec<Coin>)
    requires
        reads(*plan_at),
        drive.side() <= 4096,
    ensures
        coin_trail_is(*drive, *plan_at, from, to, r@),
{
    let mut coins: Vec<Coin> = Vec::new();
    let route = match drive.route(from, to, COIN_BUDGET) {
        None => return coins,
        Some(p) => p,
    };
    proof {
        reveal(shortest_walk);
        assert forall|j: int| 0 <= j < route@.len() implies 0 <= #[trigger] route@[j].0 < 4096 && 0 <= route@[j].1 < 4096 by {
            assert(drive.open_at(route@[j].0 as int, route@[j].1 as int));
        }
        assert(shortest_walk(*drive, route@, from, to));
    }
    let n = route.len();
    let mut i: usize = 0;
    let mut k: usize = 0;
    while i < n
        invariant
            n == route@.len(),
            n >= 1,
            i == 3 * k,
            i <= n + 2,
            reads(*plan_at),
            cells_on_map(route@),
            shortest_walk(*drive, route@, from, to),
            coins@.len() == k,
            forall|j: int| 0 <= j < coins@.len() ==> coins@[j] == coin_at(*plan_at, route@, 3 * j),
        decreases n + 2 - i,
    {
        let c = coin_for(plan_at, &route, i);
        coins.push(c);
        i = i + 3;
        k = k + 1;
    }
    assert(coins@ == coins_along(*plan_at, route@));
    coins
}

/// A kerb found beside a cell is within two cells of it.
proof fn lemma_beside_near<O: Fn(i32, i32) -> bool, J: Fn(i32, i32) -> bool, P: Fn(i32, i32) -> (Strip, Strip)>(
    drivable: O, junction: J, plan_at: P, x: int, y: int, r: int, dy: int, dx: int,
)
    requires
        -32000 <= x <= 32000,
        -32000 <= y <= 32000,
    ensures
        beside_search(drivable, junction, plan_at, x, y, r, dy, dx) matches Some(c) ==> -2 <= c.0 - x <= 2 && -2 <= c.1 - y <= 2,
    decreases 3 - r, r + 1 - dy, r + 1 - dx,
{
    if r > 2 || r < 1 || dy < -r || dx < -r {
    } else if dy > r {
        lemma_beside_near(drivable, junction, plan_at, x, y, r + 1, -(r + 1), -(r + 1));
    } else if dx > r {
        lemma_beside_near(drivable, junction, plan_at, x, y, r, dy + 1, -r);
    } else if crate::walk::ring_of(dx, dy) == r && stop_ok(drivable, junction, plan_at, (x + dx) as i32, (y + dy) as i32) {
    } else {
        lemma_beside_near(drivable, junction, plan_at, x, y, r, dy, dx + 1);
    }
}

/// Somewhere to stand found near the cab is on the map, give or take the
/// eight cells a snap and a kerb can move it.
proof fn lemma_kerb_search_near<K: Fn(i32, i32) -> Kind, O: Fn(i32, i32) -> bool, J: Fn(i32, i32) -> bool, P: Fn(i32, i32) -> (Strip, Strip)>(
    kind_at: K, walk: WalkMap, drivable: O, junction: J, plan_at: P, size: i32, tx: i32, ty: i32, min: i32, max: i32, st: u32, tries: int,
)
    requires
        0 <= size <= 4096,
    ensures
        kerb_search(kind_at, walk, drivable, junction, plan_at, size, tx, ty, min, max, st, tries).0 matches Some(v) ==> {
            &&& -8 <= v.0.0 <= 4104 && -8 <= v.0.1 <= 4104
            &&& -8 <= v.1.0 <= 4104 && -8 <= v.1.1 <= 4104
        },
    decreases tries,
{
    if tries > 0 {
        let (x, y, s2) = dart_of(tx, ty, min, max, st);
        lemma_kerb_search_near(kind_at, walk, drivable, junction, plan_at, size, tx, ty, min, max, s2, tries - 1);
        if inside(size, x, y) {
            let near = nearest_of(walk, x, y, 6);
            if near is Some {
                let (px, py) = near->Some_0;
                if crate::walk::ring_of(px - x, py - y) < 6 {
                    lemma_beside_near(drivable, junction, plan_at, px as int, py as int, 1, -1, -1);
                }
            }
        }
    }
}

/// Where a passenger is picked up, from the generator in state `st`: a
/// place on foot a block or two from the cab and the kerb beside it, or
/// failing that any road cell four to fourteen cells out, standing for
/// both; with the generator's state after.
pub open spec fn pickup_of<K: Fn(i32, i32) -> Kind, O: Fn(i32, i32) -> bool, J: Fn(i32, i32) -> bool, P: Fn(i32, i32) -> (Strip, Strip)>(
    kind_at: K, walk: WalkMap, drivable: O, junction: J, plan_at: P, size: i32, tx: i32, ty: i32, st: u32,
) -> (Option<((i32, i32), (i32, i32))>, u32) {
    let (k, s1) = kerb_search(kind_at, walk, drivable, junction, plan_at, size, tx, ty, HAIL_NEAR, HAIL_FAR, st, KERB_DARTS as int);
    match k {
        Some(v) => (Some(v), s1),
        None => {
            let (c, s2) = road_search(kind_at, size, tx, ty, 4, 14, s1, ROAD_DARTS as int);
            match c {
                Some(c) => (Some((c, c)), s2),
                None => (None, s2),
            }
        },
    }
}

/// Cells apart along the grid.
pub open spec fn manhattan(a: (i32, i32), b: (i32, i32)) -> int {
    vstd::math::abs(a.0 - b.0) as int + vstd::math::abs(a.1 - b.1) as int
}

/// Up to `tries` more draws for a drop-off two to four blocks from the
/// cab, keeping each as the latest and stopping at the first a block or
/// more from the pick-up `from`, or when a draw finds nowhere.
pub open spec fn drop_search<K: Fn(i32, i32) -> Kind, O: Fn(i32, i32) -> bool, J: Fn(i32, i32) -> bool, P: Fn(i32, i32) -> (Strip, Strip)>(
    kind_at: K, walk: WalkMap, drivable: O, junction: J, plan_at: P, size: i32, tx: i32, ty: i32, from: (i32, i32), st: u32, tries: int,
    last: Option<((i32, i32), (i32, i32))>,
) -> (Option<((i32, i32), (i32, i32))>, u32)
    decreases tries,
{
    if tries <= 0 {
        (last, st)
    } else {
        let (v, s1) = kerb_search(kind_at, walk, drivable, junction, plan_at, size, tx, ty, HAIL_FAR, RECYCLE, st, KERB_DARTS as int);
        match v {
            None => (last, s1),
            Some(v) => if manhattan(v.0, from) >= FARE_MIN {
                (Some(v), s1)
            } else {
                drop_search(kind_at, walk, drivable, junction, plan_at, size, tx, ty, from, s1, tries - 1, Some(v))
            },
        }
    }
}

/// How many draws are made for a drop-off far enough from the pick-up.
pub const DROP_TRIES: i32 = 8;

/// Where a passenger is going: see [`drop_search`], or failing any draw a
/// road cell two to four blocks from the cab standing for both.
pub open spec fn dropoff_of<K: Fn(i32, i32) -> Kind, O: Fn(i32, i32) -> bool, J: Fn(i32, i32) -> bool, P: Fn(i32, i32) -> (Strip, Strip)>(
    kind_at: K, walk: WalkMap, drivable: O, junction: J, plan_at: P, size: i32, tx: i32, ty: i32, from: (i32, i32), st: u32,
) -> (Option<((i32, i32), (i32, i32))>, u32) {
    let (far, s1) = drop_search(kind_at, walk, drivable, junction, plan_at, size, tx, ty, from, st, DROP_TRIES as int, None);
    match far {
        Some(v) => (Some(v), s1),
        None => {
            let (c, s2) = road_search(kind_at, size, tx, ty, HAIL_FAR, RECYCLE, s1, ROAD_DARTS as int);
            match c {
                Some(c) => (Some((c, c)), s2),
                None => (None, s2),
            }
        },
    }
}

/// What a fare is worth: three for every cell between its ends along the
/// grid, and ten for the flag.
pub open spec fn fare_value_of(from: (i32, i32), to: (i32, i32)) -> u32 {
    (manhattan(from, to) * 3 + 10) as u32
}

/// The centre of a cell in world units.
pub open spec fn centre_of(c: (i32, i32)) -> (Fx, Fx) {
    ((c.0 * 65536 + HALF) as i32, (c.1 * 65536 + HALF) as i32)
}

/// The fare hailed with pick-up `from` at kerb `from_stop` and drop-off
/// `to` at kerb `to_stop`, with `coins` along the way.
pub open spec fn fare_of(from: (i32, i32), from_stop: (i32, i32), to: (i32, i32), to_stop: (i32, i32), coins: Vec<Coin>) -> Fare {
    Fare {
        from: centre_of(from),
        to: centre_of(to),
        from_stop: centre_of(from_stop),
        to_stop: centre_of(to_stop),
        aboard: false,
        coins,
        value: fare_value_of(from, to),
    }
}

/// The state after a fare is hailed from state `s`: see [`Sim::hail`].
pub open spec fn hailed<K: Fn(i32, i32) -> Kind, O: Fn(i32, i32) -> bool, J: Fn(i32, i32) -> bool, P: Fn(i32, i32) -> (Strip, Strip)>(
    s: Sim, t: Sim, kind_at: K, walk: WalkMap, drive: WalkMap, drivable: O, junction: J, plan_at: P, size: i32,
) -> bool {
    let (tx, ty) = cab_cell(s);
    let (pick, s1) = pickup_of(kind_at, walk, drivable, junction, plan_at, size, tx, ty, s.rng.state());
    match pick {
        None => t.rng.state() == s1 && t == (Sim { rng: t.rng, ..s }),
        Some((from, from_stop)) => {
            let (drop, s2) = dropoff_of(kind_at, walk, drivable, junction, plan_at, size, tx, ty, from, s1);
            &&& t.rng.state() == s2
            &&& match drop {
                None => t == (Sim { rng: t.rng, ..s }),
                Some((to, to_stop)) => {
                    &&& t.fare matches Some(f) && f == fare_of(from, from_stop, to, to_stop, f.coins)
                        && coin_trail_is(drive, plan_at, from_stop, to_stop, f.coins@)
                    &&& t == (Sim { rng: t.rng, fare: t.fare, ..s })
                },
            }
        },
    }
}

impl Sim {
    /// Take a new fare.  The pick-up is a place on foot a block or two from
    /// the cab with a kerb beside it, or failing any a road cell four to
    /// fourteen cells out; the drop-off is drawn two to four blocks out, up
    /// to eight times until one is a block or more from the pick-up (the
    /// last drawn kept if none is), or failing any a road cell.  Coins are
    /// strung along the road between the two kerbs, and the fare is worth
    /// three for each cell between its ends and ten for the flag.  Where
    /// no end turns up, nothing but the generator changes.
    #[verifier::rlimit(60)]
    #[verifier::spinoff_prover]
    pub fn hail<K: Fn(i32, i32) -> Kind, O: Fn(i32, i32) -> bool, J: Fn(i32, i32) -> bool, P: Fn(i32, i32) -> (Strip, Strip)>(
        &mut self, kind_at: &K, walk: &WalkMap, drive: &WalkMap, drivable: &O, junction: &J, plan_at: &P, size: i32,
    )
        requires
            city_reads(*kind_at, *drivable, *junction, *plan_at, size),
            drive.side() <= 4096,
        ensures
            hailed(*old(self), *final(self), *kind_at, *walk, *drive, *drivable, *junction, *plan_at, size),
    {
        let ghost s0 = *self;
        let ghost (tx, ty) = cab_cell(s0);
        proof {
            lemma_kerb_search_near(*kind_at, *walk, *drivable, *junction, *plan_at, size, tx, ty, HAIL_NEAR, HAIL_FAR, s0.rng.state(), KERB_DARTS as int);
        }
        let ghost st0 = self.rng.state();
        let (from, from_stop) = match self.kerb_near(kind_at, walk, drivable, junction, plan_at, size, HAIL_NEAR, HAIL_FAR) {
            Some(v) => v,
            None => {
                let ghost st1 = self.rng.state();
                proof {
                    lemma_road_search_inside(*kind_at, size, tx, ty, 4, 14, st1, ROAD_DARTS as int);
                }
                match self.road_near(kind_at, size, 4, 14) {
                    Some(c) => (c, c),
                    None => return,
                }
            },
        };
        let ghost s1 = self.rng.state();
        let mut far: Option<((i32, i32), (i32, i32))> = None;
        let mut n: i32 = 0;
        let mut done = false;
        while n < DROP_TRIES && !done
            invariant
                0 <= n <= DROP_TRIES,
                city_reads(*kind_at, *drivable, *junction, *plan_at, size),
                -8 <= from.0 <= 4104 && -8 <= from.1 <= 4104,
                (tx, ty) == cab_cell(s0),
                *self == (Sim { rng: self.rng, ..s0 }),
                far matches Some(v) ==> -8 <= v.0.0 <= 4104 && -8 <= v.0.1 <= 4104 && -8 <= v.1.0 <= 4104 && -8 <= v.1.1 <= 4104,
                !done ==> drop_search(*kind_at, *walk, *drivable, *junction, *plan_at, size, tx, ty, from, self.rng.state(), (DROP_TRIES - n) as int, far)
                    == drop_search(*kind_at, *walk, *drivable, *junction, *plan_at, size, tx, ty, from, s1, DROP_TRIES as int, None),
                done ==> (far, self.rng.state())
                    == drop_search(*kind_at, *walk, *drivable, *junction, *plan_at, size, tx, ty, from, s1, DROP_TRIES as int, None),
            decreases DROP_TRIES - n,
        {
            let ghost st = self.rng.state();
            proof {
                lemma_kerb_search_near(*kind_at, *walk, *drivable, *junction, *plan_at, size, tx, ty, HAIL_FAR, RECYCLE, st, KERB_DARTS as int);
            }
            n = n + 1;
            match self.kerb_near(kind_at, walk, drivable, junction, plan_at, size, HAIL_FAR, RECYCLE) {
                None => {
                    done = true;
                },
                Some(v) => {
                    let ddx = if v.0.0 >= from.0 { v.0.0 - from.0 } else { from.0 - v.0.0 };
                    let ddy = if v.0.1 >= from.1 { v.0.1 - from.1 } else { from.1 - v.0.1 };
                    far = Some(v);
                    if ddx + ddy >= FARE_MIN {
                        done = true;
                    }
                },
            }
        }
        let ghost s2a = self.rng.state();
        let (to, to_stop) = match far {
            Some(v) => v,
            None => {
                proof {
                    lemma_road_search_inside(*kind_at, size, tx, ty, HAIL_FAR, RECYCLE, s2a, ROAD_DARTS as int);
                }
                match self.road_near(kind_at, size, HAIL_FAR, RECYCLE) {
                    Some(c) => (c, c),
                    None => return,
                }
            },
        };
        let coins = coin_trail(drive, plan_at, from_stop, to_stop);
        let ddx = if from.0 >= to.0 { from.0 - to.0 } else { to.0 - from.0 };
        let ddy = if from.1 >= to.1 { from.1 - to.1 } else { to.1 - from.1 };
        let dist = ddx + ddy;
        self.fare = Some(Fare {
            from: crate::road::centre(from.0, from.1),
            to: crate::road::centre(to.0, to.1),
            from_stop: crate::road::centre(from_stop.0, from_stop.1),
            to_stop: crate::road::centre(to_stop.0, to_stop.1),
            aboard: false,
            coins,
            value: (dist as u32) * 3 + 10,
        });
    }
}

impl Sim {
    /// One tick of the fare: with none on, hail one; with one on, settle it
    /// (see [`settled`]), and hail the next as soon as it is delivered.
    pub fn step_fare<K: Fn(i32, i32) -> Kind, O: Fn(i32, i32) -> bool, J: Fn(i32, i32) -> bool, P: Fn(i32, i32) -> (Strip, Strip)>(
        &mut self, kind_at: &K, walk: &WalkMap, drive: &WalkMap, drivable: &O, junction: &J, plan_at: &P, size: i32,
        out: &mut Vec<Event>,
    )
        requires
            city_reads(*kind_at, *drivable, *junction, *plan_at, size),
            drive.side() <= 4096,
            fare_fits(*old(self)),
        ensures
            match old(self).fare {
                None => final(out)@ == old(out)@ && hailed(*old(self), *final(self), *kind_at, *walk, *drive, *drivable, *junction, *plan_at, size),
                Some(f) => {
                    let (s, ev, h) = settled(*old(self), f);
                    &&& final(out)@ == old(out)@ + ev
                    &&& (h ==> hailed(s, *final(self), *kind_at, *walk, *drive, *drivable, *junction, *plan_at, size))
                    &&& (!h ==> *final(self) == (Sim { fare: final(self).fare, ..s }))
                    &&& (!h ==> (final(self).fare matches Some(g) && g.coins@ == coins_after(f.coins@, old(self).taxi.x, old(self).taxi.y)
                        && g == (Fare { coins: g.coins, aboard: f.aboard || pulled_up(f, old(self).taxi), ..f })))
                },
            },
            turn_frame(*old(self), *final(self)),
    {
        if self.settle_fare(out) {
            self.hail(kind_at, walk, drive, drivable, junction, plan_at, size);
        }
    }
}

/// Whether a car and its controls are within the range a tick of the
/// physics is worked out in.
fn fits_step(car: &Car, c: &Controls, hz: i32) -> (b: bool)
    ensures
        b == crate::drive::step_fits(*car, *c, hz),
{
    -ONE <= c.throttle && c.throttle <= ONE && -ONE <= c.steer && c.steer <= ONE
        && -0x0100_0000 <= car.vx && car.vx <= 0x0100_0000 && -0x0100_0000 <= car.vy && car.vy <= 0x0100_0000
        && -0x1000_0000 <= car.spin && car.spin <= 0x1000_0000
        && -0x4000_0000 <= car.x && car.x <= 0x4000_0000 && -0x4000_0000 <= car.y && car.y <= 0x4000_0000
        && hz < 32768
}

/// Whether a car is within the range a collision is worked out in.
fn fits_collide(c: &Car) -> (b: bool)
    ensures
        b == crate::drive::collide_fits(*c),
{
    -0x0fff_ffff <= c.x && c.x <= 0x0fff_ffff && -0x0fff_ffff <= c.y && c.y <= 0x0fff_ffff
        && -0x0020_0000 <= c.vx && c.vx <= 0x0020_0000 && -0x0020_0000 <= c.vy && c.vy <= 0x0020_0000
        && -0x4000_0000 <= c.spin && c.spin <= 0x4000_0000
}

/// Whether the world-unit difference of two coordinates fits 32 bits.
fn diff_fits(a: Fx, x: Fx) -> (b: bool)
    ensures
        b == (i32::MIN < a - x <= i32::MAX),
{
    let d = a as i64 - x as i64;
    -2147483648i64 < d && d <= 2147483647i64
}

impl Sim {
    /// Whether the street furniture can be knocked about this tick in 32
    /// bits: see [`Sim::step_props`].
    fn props_ok(&self) -> (b: bool)
        ensures
            b == ({
                &&& short(self.taxi.vx, self.taxi.vy)
                &&& -0x3000_0000 <= self.taxi.x <= 0x3000_0000
                &&& -0x3000_0000 <= self.taxi.y <= 0x3000_0000
                &&& props_fit(self.props@)
                &&& self.combo <= 4096
                &&& -0x4000_0000 <= self.money <= 0x4000_0000
            }),
    {
        if !(-0x2000_0000 < self.taxi.vx && self.taxi.vx < 0x2000_0000 && -0x2000_0000 < self.taxi.vy && self.taxi.vy < 0x2000_0000
            && -0x3000_0000 <= self.taxi.x && self.taxi.x <= 0x3000_0000 && -0x3000_0000 <= self.taxi.y && self.taxi.y <= 0x3000_0000
            && self.combo <= 4096 && -0x4000_0000 <= self.money && self.money <= 0x4000_0000 && self.props.len() <= 4096) {
            return false;
        }
        let mut i: usize = 0;
        while i < self.props.len()
            invariant
                0 <= i <= self.props@.len() <= 4096,
                forall|k: int| 0 <= k < i ==> {
                    let p = #[trigger] self.props@[k];
                    &&& -0x3000_0000 <= p.board.x <= 0x3000_0000
                    &&& -0x3000_0000 <= p.board.y <= 0x3000_0000
                    &&& -0x1000_0000 <= p.vx <= 0x1000_0000
                    &&& -0x1000_0000 <= p.vy <= 0x1000_0000
                    &&& 0 <= p.board.w <= 0x0100_0000
                },
            decreases self.props@.len() - i,
        {
            let p = self.props[i];
            if !(-0x3000_0000 <= p.board.x && p.board.x <= 0x3000_0000 && -0x3000_0000 <= p.board.y && p.board.y <= 0x3000_0000
                && -0x1000_0000 <= p.vx && p.vx <= 0x1000_0000 && -0x1000_0000 <= p.vy && p.vy <= 0x1000_0000
                && 0 <= p.board.w && p.board.w <= 0x0100_0000) {
                return false;
            }
            i = i + 1;
        }
        true
    }

    /// Whether the people can be walked this tick: see [`Sim::step_peds`].
    fn peds_ok(&self) -> (b: bool)
        ensures
            b == (self.peds@.len() <= 0x1000_0000 && forall|i: int| 0 <= i < self.peds@.len() ==> ped_placed(#[trigger] self.peds@[i])),
    {
        if self.peds.len() > 0x1000_0000 {
            return false;
        }
        let mut i: usize = 0;
        while i < self.peds.len()
            invariant
                0 <= i <= self.peds@.len() <= 0x1000_0000,
                forall|k: int| 0 <= k < i ==> ped_placed(#[trigger] self.peds@[k]),
            decreases self.peds@.len() - i,
        {
            let p = self.peds[i];
            if !(-0x1000_0000 <= p.x && p.x <= 0x1000_0000 && -0x1000_0000 <= p.y && p.y <= 0x1000_0000
                && -0x1000 <= p.goal.0 && p.goal.0 <= 0x1000 && -0x1000 <= p.goal.1 && p.goal.1 <= 0x1000) {
                assert(!ped_placed(self.peds@[i as int]));
                return false;
            }
            i = i + 1;
        }
        true
    }

    /// Whether the fare can be settled this tick in 32 bits: see
    /// [`fare_fits`].
    fn fare_ok(&self) -> (b: bool)
        ensures
            b == fare_fits(*self),
    {
        if !(-0x2000_0000 < self.taxi.vx && self.taxi.vx < 0x2000_0000 && -0x2000_0000 < self.taxi.vy && self.taxi.vy < 0x2000_0000) {
            return false;
        }
        match &self.fare {
            None => true,
            Some(f) => {
                let (x, y) = (self.taxi.x, self.taxi.y);
                let (mx, my) = f.marker();
                let (sx, sy) = f.stop();
                if !(diff_fits(mx, x) && diff_fits(my, y) && diff_fits(sx, x) && diff_fits(sy, y)) {
                    return false;
                }
                if f.coins.len() > 0x8000_0000 || f.value > 0x7fff_ffff {
                    return false;
                }
                if self.ticks_left as i64 + f.coins.len() as i64 * 120 + 720 > 0x7fff_ffff
                    || self.money as i64 + f.coins.len() as i64 + f.value as i64 > 0x7fff_ffff {
                    return false;
                }
                let mut i: usize = 0;
                while i < f.coins.len()
                    invariant
                        0 <= i <= f.coins@.len(),
                        self.fare == Some(*f),
                        (x, y) == (self.taxi.x, self.taxi.y),
                        forall|k: int| 0 <= k < i ==> near_enough(((#[trigger] f.coins@[k]).x, f.coins@[k].y), x, y),
                    decreases f.coins@.len() - i,
                {
                    let c = f.coins[i];
                    if !(diff_fits(c.x, x) && diff_fits(c.y, y)) {
                        assert(!near_enough((f.coins@[i as int].x, f.coins@[i as int].y), x, y));
                        assert(self.fare == Some(*f));
                        assert(!fare_fits(*self));
                        return false;
                    }
                    i = i + 1;
                }
                true
            },
        }
    }
}

/// Whether the traffic's per-car lists run alongside the cars.
pub open spec fn pool(s: Sim) -> bool {
    &&& s.traffic_ctl@.len() == s.traffic@.len()
    &&& s.traffic_cruise@.len() == s.traffic@.len()
    &&& s.traffic_bias@.len() == s.traffic@.len()
    &&& s.traffic_backing@.len() == s.traffic@.len()
}

/// Ticks a shunted car spends backing away: a quarter of a minute.
pub const BACKING: u32 = 900;

/// Whether `out` is `before` with only [`Event::Rammed`] after it.
pub open spec fn rammed_after(before: Seq<Event>, out: Seq<Event>) -> bool {
    &&& before.len() <= out.len()
    &&& out.subrange(0, before.len() as int) == before
    &&& forall|k: int| before.len() <= k < out.len() ==> out[k] == Event::Rammed
}

/// The traffic's part of a tick, in what it changes: the cars and their
/// lists, the cab (when it is hit), the run and the money (when it hits
/// hard), and the generator (when a car is recycled).
pub open spec fn traffic_frame(s: Sim, t: Sim) -> bool {
    &&& t == (Sim { traffic: t.traffic, traffic_ctl: t.traffic_ctl, traffic_cruise: t.traffic_cruise, traffic_bias: t.traffic_bias,
        traffic_backing: t.traffic_backing, taxi: t.taxi, money: t.money, combo: t.combo, rng: t.rng, ..s })
    &&& pool(t)
    &&& t.traffic@.len() == s.traffic@.len()
    &&& s.money <= t.money
    &&& s.combo <= t.combo
}

/// The traffic's part of two ticks is the traffic's part of one.
proof fn lemma_traffic_frame_trans(a: Sim, b: Sim, c: Sim)
    requires
        traffic_frame(a, b),
        traffic_frame(b, c),
    ensures
        traffic_frame(a, c),
{
}

/// Rams after rams are rams.
proof fn lemma_rammed_trans(a: Seq<Event>, b: Seq<Event>, c: Seq<Event>)
    requires
        rammed_after(a, b),
        rammed_after(b, c),
    ensures
        rammed_after(a, c),
{
    assert forall|k: int| 0 <= k < a.len() implies c[k] == a[k] by {
        assert(c.subrange(0, b.len() as int)[k] == b[k]);
        assert(b.subrange(0, a.len() as int)[k] == a[k]);
    }
    assert(c.subrange(0, a.len() as int) =~= a);
    assert forall|k: int| a.len() <= k < c.len() implies c[k] == Event::Rammed by {
        if k < b.len() {
            assert(c[k] == b[k]);
        }
    }
}

/// Whether `t` is what car `i`'s turn in the traffic makes of `s`: a car
/// more than four blocks and twelve cells from the cab along the grid is
/// replaced by a new one (see [`spawn_of`]) and nothing else changes; any
/// other car is driven and collided with the cab, leaving the generator
/// and every other car as they were.
pub open spec fn turn_is<K: Fn(i32, i32) -> Kind, D: Fn(i32, i32) -> bool, J: Fn(i32, i32) -> bool, P: Fn(i32, i32) -> (Strip, Strip)>(
    kind_at: K, drivable: D, junction: J, plan_at: P, size: i32, s: Sim, t: Sim, i: int,
) -> bool {
    let c = s.traffic@[i];
    let sp = spawn_of(kind_at, drivable, junction, plan_at, size, s.taxi, s.rng.state());
    &&& traffic_frame(s, t)
    &&& if vstd::math::abs(c.x - s.taxi.x) + vstd::math::abs(c.y - s.taxi.y) > 64 * 65536 {
        &&& t.traffic@ == s.traffic@.update(i, sp.0)
        &&& t.traffic_cruise@ == s.traffic_cruise@.update(i, sp.1)
        &&& t.traffic_bias@ == s.traffic_bias@.update(i, sp.2)
        &&& t.traffic_backing@ == s.traffic_backing@.update(i, 0)
        &&& t.rng.state() == sp.3
        &&& t.taxi == s.taxi
    } else {
        &&& t.rng == s.rng
        &&& forall|j: int| 0 <= j < s.traffic@.len() && j != i ==> t.traffic@[j] == s.traffic@[j]
    }
}

/// Whether the pairs pass of the traffic leaves alone what it should: only
/// the cars and their backing change.
pub open spec fn pairs_frame(s: Sim, t: Sim) -> bool {
    &&& t == (Sim { traffic: t.traffic, traffic_backing: t.traffic_backing, ..s })
    &&& t.traffic@.len() == s.traffic@.len()
    &&& t.traffic_backing@.len() == s.traffic_backing@.len()
}

impl Sim {
    /// Whether car `i` can be steered this tick: see
    /// [`Sim::traffic_controls`].
    fn controls_ok(&self, i: usize) -> (b: bool)
        requires
            i < self.traffic@.len(),
        ensures
            b == (traffic_placed(*self) && steerable(*self, i as int)),
    {
        if !(-0x1000_0000 <= self.taxi.x && self.taxi.x <= 0x1000_0000 && -0x1000_0000 <= self.taxi.y && self.taxi.y <= 0x1000_0000
            && -0x2000_0000 < self.taxi.vx && self.taxi.vx < 0x2000_0000 && -0x2000_0000 < self.taxi.vy && self.taxi.vy < 0x2000_0000
            && self.traffic_cruise.len() == self.traffic.len() && self.traffic_bias.len() == self.traffic.len()
            && self.traffic_backing.len() == self.traffic.len()) {
            return false;
        }
        let c = self.traffic[i];
        if !(-0x0100_0000 <= c.vx && c.vx <= 0x0100_0000 && -0x0100_0000 <= c.vy && c.vy <= 0x0100_0000
            && -ONE <= self.traffic_bias[i] && self.traffic_bias[i] <= ONE
            && 0 <= self.traffic_cruise[i] && self.traffic_cruise[i] <= 0x4000_0000) {
            return false;
        }
        let mut j: usize = 0;
        while j < self.traffic.len()
            invariant
                0 <= j <= self.traffic@.len(),
                forall|k: int| 0 <= k < j ==> placed(#[trigger] self.traffic@[k].x, self.traffic@[k].y)
                    && short(self.traffic@[k].vx, self.traffic@[k].vy),
            decreases self.traffic@.len() - j,
        {
            let o = self.traffic[j];
            if !(-0x1000_0000 <= o.x && o.x <= 0x1000_0000 && -0x1000_0000 <= o.y && o.y <= 0x1000_0000
                && -0x2000_0000 < o.vx && o.vx < 0x2000_0000 && -0x2000_0000 < o.vy && o.vy < 0x2000_0000) {
                assert(!(placed(self.traffic@[j as int].x, self.traffic@[j as int].y) && short(self.traffic@[j as int].vx, self.traffic@[j as int].vy)));
                return false;
            }
            assert(placed(self.traffic@[j as int].x, self.traffic@[j as int].y) && short(self.traffic@[j as int].vx, self.traffic@[j as int].vy));
            j = j + 1;
        }
        true
    }

    /// Recycle car `i` of the traffic: a new car in its place.
    fn recycle_car<K: Fn(i32, i32) -> Kind, O: Fn(i32, i32) -> bool, J: Fn(i32, i32) -> bool, P: Fn(i32, i32) -> (Strip, Strip)>(
        &mut self, kind_at: &K, open: &O, junction: &J, plan_at: &P, size: i32, i: usize,
    )
        requires
            city_reads(*kind_at, *open, *junction, *plan_at, size),
            pool(*old(self)),
            i < old(self).traffic@.len(),
        ensures
            traffic_frame(*old(self), *final(self)),
            ({
                let sp = spawn_of(*kind_at, *open, *junction, *plan_at, size, old(self).taxi, old(self).rng.state());
                &&& final(self).traffic@ == old(self).traffic@.update(i as int, sp.0)
                &&& final(self).traffic_cruise@ == old(self).traffic_cruise@.update(i as int, sp.1)
                &&& final(self).traffic_bias@ == old(self).traffic_bias@.update(i as int, sp.2)
                &&& final(self).traffic_backing@ == old(self).traffic_backing@.update(i as int, 0)
                &&& final(self).rng.state() == sp.3
                &&& *final(self) == (Sim { traffic: final(self).traffic, traffic_cruise: final(self).traffic_cruise,
                    traffic_bias: final(self).traffic_bias, traffic_backing: final(self).traffic_backing, rng: final(self).rng, ..*old(self) })
            }),
    {
        let (car, cruise, bias) = self.spawn_car(kind_at, open, junction, plan_at, size);
        self.traffic.set(i, car);
        self.traffic_cruise.set(i, cruise);
        self.traffic_bias.set(i, bias);
        self.traffic_backing.set(i, 0);
    }

    /// Collide car `i` of the traffic with the cab: a shunt sets it backing
    /// away, and a hard one adds to the run, pays double the run and is
    /// reported.
    fn hit_cab<O: Fn(i32, i32) -> bool>(&mut self, open: &O, i: usize, out: &mut Vec<Event>)
        requires
            forall|x: i32, y: i32| open.requires((x, y)),
            pool(*old(self)),
            i < old(self).traffic@.len(),
        ensures
            traffic_frame(*old(self), *final(self)),
            rammed_after(old(out)@, final(out)@),
            final(self).rng == old(self).rng,
            forall|j: int| 0 <= j < old(self).traffic@.len() && j != i ==> final(self).traffic@[j] == old(self).traffic@[j],
            ({
                let (a, b) = (old(self).taxi, old(self).traffic@[i as int]);
                let (fa, fb) = (final(self).taxi, final(self).traffic@[i as int]);
                if crate::drive::collide_fits(a) && crate::drive::collide_fits(b) && crate::drive::touching(a, b) {
                    &&& fa.spin == a.spin - 260
                    &&& fb.spin == b.spin + 260
                    &&& crate::drive::momentum_kept(a, b, fa, fb)
                    &&& final(self).traffic_backing@[i as int] == BACKING
                } else {
                    fa == a && fb == b && final(out)@ == old(out)@
                }
            }),
    {
        assert(old(out)@.subrange(0, old(out)@.len() as int) =~= old(out)@);
        let mut a = self.taxi;
        let mut b = self.traffic[i];
        if fits_collide(&a) && fits_collide(&b) {
            match crate::drive::collide(&mut a, &mut b, open) {
                Some(sev) => {
                    self.taxi = a;
                    self.traffic.set(i, b);
                    self.traffic_backing.set(i, BACKING);
                    if sev > ONE && self.combo < 0x3fff_ffff && (self.money as i64) + 2 * (self.combo as i64 + 1) <= 0x7fff_ffff {
                        self.combo = self.combo + 1;
                        self.money = self.money + 2 * (self.combo as i32);
                        out.push(Event::Rammed);
                        assert(out@.subrange(0, old(out)@.len() as int) =~= old(out)@);
                    }
                },
                None => {},
            }
        }
    }

    /// Car `i`'s turn in the traffic's tick: see [`Sim::step_traffic`].
    fn traffic_turn<K: Fn(i32, i32) -> Kind, O: Fn(i32, i32) -> bool, D: Fn(i32, i32) -> bool, J: Fn(i32, i32) -> bool, P: Fn(i32, i32) -> (Strip, Strip)>(
        &mut self, kind_at: &K, open: &O, drivable: &D, junction: &J, plan_at: &P, size: i32, hz: i32, i: usize, out: &mut Vec<Event>,
    )
        requires
            city_reads(*kind_at, *drivable, *junction, *plan_at, size),
            forall|x: i32, y: i32| open.requires((x, y)),
            pool(*old(self)),
            i < old(self).traffic@.len(),
        ensures
            traffic_frame(*old(self), *final(self)),
            rammed_after(old(out)@, final(out)@),
            turn_is(*kind_at, *drivable, *junction, *plan_at, size, *old(self), *final(self), i as int),
            ({
                let c = old(self).traffic@[i as int];
                let t = old(self).taxi;
                vstd::math::abs(c.x - t.x) + vstd::math::abs(c.y - t.y) > 64 * 65536 ==> final(out)@ == old(out)@
            }),
    {
        assert(old(out)@.subrange(0, old(out)@.len() as int) =~= old(out)@);
        let c = self.traffic[i];
        let ex = c.x as i64 - self.taxi.x as i64;
        let ey = c.y as i64 - self.taxi.y as i64;
        let far = (if ex < 0 { -ex } else { ex }) + (if ey < 0 { -ey } else { ey });
        if far > 64 * 65536 {
            self.recycle_car(kind_at, drivable, junction, plan_at, size, i);
        } else if self.controls_ok(i) {
            let ghost s0 = *self;
            let ctl = self.traffic_controls(plan_at, i, hz);
            self.traffic_ctl.set(i, ctl);
            let mut car = self.traffic[i];
            if fits_step(&car, &ctl, hz) {
                car.step(&ctl, open, hz);
                self.traffic.set(i, car);
            }
            let ghost s1 = *self;
            assert(traffic_frame(s0, s1));
            self.hit_cab(open, i, out);
            proof {
                lemma_traffic_frame_trans(s0, s1, *self);
            }
        }
    }

    /// Drive the traffic for a tick, and let it bump into the cab and into
    /// itself.  Each car that has fallen more than four blocks and twelve
    /// cells behind the cab along the grid is recycled in place, the pool
    /// staying the same size; every other car is given its controls and
    /// driven, then collided with the cab - a hard hit adding to the run,
    /// paying double the run and reporting [`Event::Rammed`] - and, once
    /// all have moved, each pair of cars is collided, both backing away
    /// from a shunt.  A car, or a pair, outside the range its arithmetic is
    /// worked out in sits the step out.
    fn step_traffic<K: Fn(i32, i32) -> Kind, O: Fn(i32, i32) -> bool, D: Fn(i32, i32) -> bool, J: Fn(i32, i32) -> bool, P: Fn(i32, i32) -> (Strip, Strip)>(
        &mut self, kind_at: &K, open: &O, drivable: &D, junction: &J, plan_at: &P, size: i32, hz: i32, out: &mut Vec<Event>,
    )
        requires
            city_reads(*kind_at, *drivable, *junction, *plan_at, size),
            forall|x: i32, y: i32| open.requires((x, y)),
            pool(*old(self)),
        ensures
            traffic_frame(*old(self), *final(self)),
            rammed_after(old(out)@, final(out)@),
            exists|turns: Seq<Sim>| {
                &&& turns.len() == old(self).traffic@.len() + 1
                &&& turns[0] == *old(self)
                &&& forall|k: int| 0 <= k < old(self).traffic@.len() ==> #[trigger] turn_is(*kind_at, *drivable, *junction, *plan_at, size, turns[k], turns[k + 1], k)
                &&& pairs_frame(turns[old(self).traffic@.len() as int], *final(self))
            },
    {
        let ghost s0 = *self;
        let ghost out0 = out@;
        assert(out0.subrange(0, out0.len() as int) =~= out0);
        let n = self.traffic.len();
        let ghost mut turns: Seq<Sim> = seq![s0];
        let mut i: usize = 0;
        while i < n
            invariant
                0 <= i <= n,
                n == s0.traffic@.len(),
                city_reads(*kind_at, *drivable, *junction, *plan_at, size),
                forall|x: i32, y: i32| open.requires((x, y)),
                traffic_frame(s0, *self),
                rammed_after(out0, out@),
                turns.len() == i + 1,
                turns[0] == s0,
                turns[i as int] == *self,
                forall|k: int| 0 <= k < i ==> #[trigger] turn_is(*kind_at, *drivable, *junction, *plan_at, size, turns[k], turns[k + 1], k),
            decreases n - i,
        {
            let ghost mid = *self;
            let ghost mid_out = out@;
            self.traffic_turn(kind_at, open, drivable, junction, plan_at, size, hz, i, out);
            proof {
                lemma_traffic_frame_trans(s0, mid, *self);
                lemma_rammed_trans(out0, mid_out, out@);
                assert(turn_is(*kind_at, *drivable, *junction, *plan_at, size, mid, *self, i as int));
                turns = turns.push(*self);
            }
            i = i + 1;
        }
        let ghost after = *self;
        let mut i: usize = 0;
        while i < n
            invariant
                0 <= i <= n,
                n == s0.traffic@.len(),
                traffic_frame(s0, *self),
                rammed_after(out0, out@),
                city_reads(*kind_at, *drivable, *junction, *plan_at, size),
                forall|x: i32, y: i32| open.requires((x, y)),
                pairs_frame(after, *self),
            decreases n - i,
        {
            let mut j: usize = i + 1;
            while j < n
                invariant
                    0 <= i < n,
                    i + 1 <= j <= n,
                    n == s0.traffic@.len(),
                    traffic_frame(s0, *self),
                    rammed_after(out0, out@),
                    city_reads(*kind_at, *drivable, *junction, *plan_at, size),
                    forall|x: i32, y: i32| open.requires((x, y)),
                    pairs_frame(after, *self),
                decreases n - j,
            {
                let mut a = self.traffic[i];
                let mut b = self.traffic[j];
                if fits_collide(&a) && fits_collide(&b) {
                    if crate::drive::collide(&mut a, &mut b, open).is_some() {
                        self.traffic.set(i, a);
                        self.traffic.set(j, b);
                        self.traffic_backing.set(i, BACKING);
                        self.traffic_backing.set(j, BACKING);
                    }
                }
                j = j + 1;
            }
            i = i + 1;
        }
        assert(turns[n as int] == after);
    }
}

/// Ticks between charges for petrol: one a second.
pub const FUEL_TICKS: u32 = 60;

/// The shift's clock and purse at the end of a tick.
pub open spec fn spent_after(spent: u32, tick: u32) -> u32 {
    if tick % FUEL_TICKS == 0 {
        if spent + 1 > u32::MAX { u32::MAX } else { (spent + 1) as u32 }
    } else {
        spent
    }
}

/// Whether nothing reported is the clock running out.
pub open spec fn in_time(ev: Seq<Event>) -> bool {
    forall|k: int| 0 <= k < ev.len() ==> ev[k] != Event::TimeUp
}

/// What a turn of the city's parts leaves alone: the clock's tick, the
/// brakes, the end of the shift, the petrol, and the traffic pool.
pub open spec fn turn_frame(s: Sim, t: Sim) -> bool {
    &&& t.tick == s.tick
    &&& t.braking == s.braking
    &&& t.over == s.over
    &&& t.spent == s.spent
    &&& (pool(s) ==> pool(t))
    &&& t.traffic@.len() == s.traffic@.len()
}

impl Sim {
    /// The traffic, the furniture, the people and the fare take their
    /// turns, each one only when it is within the range its arithmetic is
    /// worked out in.
    #[verifier::rlimit(60)]
    #[verifier::spinoff_prover]
    fn turns<K: Fn(i32, i32) -> Kind, O: Fn(i32, i32) -> bool, D: Fn(i32, i32) -> bool, J: Fn(i32, i32) -> bool, P: Fn(i32, i32) -> (Strip, Strip)>(
        &mut self, kind_at: &K, walk: &WalkMap, drive: &WalkMap, open: &O, drivable: &D, junction: &J, plan_at: &P, size: i32,
        hz: i32, out: &mut Vec<Event>,
    )
        requires
            city_reads(*kind_at, *drivable, *junction, *plan_at, size),
            forall|x: i32, y: i32| open.requires((x, y)),
            drive.side() <= 4096,
            pool(*old(self)),
        ensures
            turn_frame(*old(self), *final(self)),
            pool(*final(self)),
            in_time(old(out)@) ==> in_time(final(out)@),
    {
        let ghost o0 = out@;
        self.step_traffic(kind_at, open, drivable, junction, plan_at, size, hz, out);
        proof {
            if in_time(o0) {
                assert forall|k: int| 0 <= k < out@.len() implies out@[k] != Event::TimeUp by {
                    if k < o0.len() {
                        assert(out@.subrange(0, o0.len() as int)[k] == o0[k]);
                    }
                }
            }
        }
        let ghost t1 = *self;
        let ghost o1 = out@;
        if hz < 32768 && self.props_ok() {
            self.step_props(hz, out);
        }
        proof {
            if in_time(o1) {
                assert forall|k: int| 0 <= k < out@.len() implies out@[k] != Event::TimeUp by {
                    if k < o1.len() {
                        assert(out@[k] == o1[k]);
                    }
                }
            }
        }
        let ghost o2 = out@;
        assert(turn_frame(t1, *self));
        let ghost t2 = *self;
        if hz < 32768 && self.peds_ok() {
            self.step_peds(walk, hz);
        }
        assert(turn_frame(t2, *self));
        let ghost t3 = *self;
        if self.fare_ok() {
            self.step_fare(kind_at, walk, drive, drivable, junction, plan_at, size, out);
        }
        proof {
            if in_time(o2) {
                assert forall|k: int| 0 <= k < out@.len() implies out@[k] != Event::TimeUp by {
                    if k < o2.len() {
                        assert(out@[k] == o2[k]);
                    }
                }
            }
        }
    }
}

impl Sim {
    /// Advance the whole city one tick, and report what happened in `out`,
    /// which is cleared first.  A shift that is over stands still.  Else
    /// the tick counts on; the brake lights follow the brake; the cab is
    /// driven, a knock of more than three points of damage reported as
    /// [`Event::Crunched`] and ending the run; then the traffic (see
    /// [`Sim::step_traffic`]), the furniture, the people and the fare take
    /// their turns; petrol is charged once a second; and the clock runs
    /// down by a tick, [`Event::TimeUp`] reported on the tick it reaches
    /// zero.  The clock runs on past zero.  A part of the city outside the
    /// range its arithmetic is worked out in sits its turn out.
    pub fn step<K: Fn(i32, i32) -> Kind, O: Fn(i32, i32) -> bool, D: Fn(i32, i32) -> bool, J: Fn(i32, i32) -> bool, P: Fn(i32, i32) -> (Strip, Strip)>(
        &mut self, kind_at: &K, walk: &WalkMap, drive: &WalkMap, open: &O, drivable: &D, junction: &J, plan_at: &P, size: i32,
        c: &Controls, hz: i32, out: &mut Vec<Event>,
    )
        requires
            city_reads(*kind_at, *drivable, *junction, *plan_at, size),
            forall|x: i32, y: i32| open.requires((x, y)),
            drive.side() <= 4096,
            pool(*old(self)),
            crate::drive::step_fits(old(self).taxi, *c, hz),
        ensures
            old(self).over ==> *final(self) == *old(self) && final(out)@.len() == 0,
            !old(self).over ==> {
                &&& final(self).tick == old(self).tick.wrapping_add(1)
                &&& final(self).braking == (c.throttle < 0)
                &&& !final(self).over
                &&& final(self).spent == spent_after(old(self).spent, final(self).tick)
                &&& pool(*final(self))
                &&& final(self).traffic@.len() == old(self).traffic@.len()
                &&& (final(self).ticks_left == 0 <==> !in_time(final(out)@))
                &&& final(self).ticks_left == 0 ==> final(out)@.len() > 0 && final(out)@.last() == Event::TimeUp
            },
    {
        out.clear();
        if self.over {
            return;
        }
        self.tick = self.tick.wrapping_add(1);
        let before = self.taxi.damage;
        self.braking = c.throttle < 0;
        self.taxi.step(c, open, hz);
        if self.taxi.damage > before.saturating_add(3) {
            out.push(Event::Crunched);
            self.combo = 0;
        }
        assert(in_time(out@));
        self.turns(kind_at, walk, drive, open, drivable, junction, plan_at, size, hz, out);
        if self.tick % FUEL_TICKS == 0 {
            if self.money > i32::MIN {
                self.money = self.money - 1;
            }
            self.spent = self.spent.saturating_add(1);
        }
        let was = self.ticks_left;
        let ghost o3 = out@;
        if was > i32::MIN {
            self.ticks_left = was - 1;
            if was > 0 && self.ticks_left <= 0 {
                out.push(Event::TimeUp);
                assert(out@[out@.len() - 1] == Event::TimeUp);
            }
        }
        proof {
            if self.ticks_left != 0 {
                assert(out@ == o3);
            }
        }
    }
}

/// The colours people wear.
pub open spec fn ped_hue(i: u32) -> u8 {
    if i == 0 { palette::H_PINK } else if i == 1 { palette::H_CYAN } else if i == 2 { palette::H_WHITE } else { palette::H_ORANGE }
}

/// How many tries are made for somewhere to put a person down.
pub const PED_TRIES: i32 = 200;

/// Up to `tries` draws within four blocks of the cab's cell for a place on
/// the walking network to put a person down, walking one of the four ways
/// towards an errand, in step and dressed from the generator; the person
/// and the generator's state after.
pub open spec fn ped_search(walk: WalkMap, tx: i32, ty: i32, st: u32, tries: int) -> (Option<Ped>, u32)
    decreases tries,
{
    if tries <= 0 {
        (None, st)
    } else {
        let s1 = xorshift(st);
        let x = tx - RECYCLE + scale_below(s1, 105);
        let s2 = xorshift(s1);
        let y = ty - RECYCLE + scale_below(s2, 105);
        if walk.foot(x, y) != crate::walk::Foot::Path {
            ped_search(walk, tx, ty, s2, tries - 1)
        } else {
            let (goal, s3) = goal_search(walk, (x as i32, y as i32), s2, 0);
            let s4 = xorshift(s3);
            let s5 = xorshift(s4);
            let s6 = xorshift(s5);
            (Some(Ped {
                x: (x * 65536 + HALF) as i32,
                y: (y * 65536 + HALF) as i32,
                dir: (scale_below(s4, 4) * 16384) as u16,
                goal,
                phase: scale_below(s5, 2) as u8,
                hue: ped_hue(scale_below(s6, 4)),
            }), s6)
        }
    }
}

/// A person put down near the cab: see [`ped_search`]; failing any draw,
/// standing still on the nearest place on foot within thirty rings of
/// the cab, or on the cab's cell.
pub open spec fn ped_of(walk: WalkMap, tx: i32, ty: i32, st: u32) -> (Ped, u32) {
    let (p, s1) = ped_search(walk, tx, ty, st, PED_TRIES as int);
    match p {
        Some(p) => (p, s1),
        None => {
            let here = match nearest_of(walk, tx, ty, 30) { Some(c) => c, None => (tx, ty) };
            (Ped { x: (here.0 * 65536 + HALF) as i32, y: (here.1 * 65536 + HALF) as i32, dir: 0, goal: here, phase: 0, hue: palette::H_WHITE }, s1)
        },
    }
}

impl Sim {
    /// A person for the crowd near the cab: see [`ped_of`].
    fn spawn_ped(&mut self, walk: &WalkMap) -> (p: Ped)
        requires
            placed(old(self).taxi.x, old(self).taxi.y),
        ensures
            ({
                let (tx, ty) = cab_cell(*old(self));
                let (q, st) = ped_of(*walk, tx, ty, old(self).rng.state());
                &&& p == q
                &&& final(self).rng.state() == st
            }),
            *final(self) == (Sim { rng: final(self).rng, ..*old(self) }),
    {
        let ghost s0 = *self;
        let tx = fixed::floor(self.taxi.x);
        let ty = fixed::floor(self.taxi.y);
        let mut n: i32 = 0;
        let mut found: Option<Ped> = None;
        while n < PED_TRIES && found.is_none()
            invariant
                0 <= n <= PED_TRIES,
                (tx, ty) == cab_cell(s0),
                -4096 <= tx <= 4096,
                -4096 <= ty <= 4096,
                *self == (Sim { rng: self.rng, ..s0 }),
                found is None ==> ped_search(*walk, tx, ty, self.rng.state(), (PED_TRIES - n) as int)
                    == ped_search(*walk, tx, ty, s0.rng.state(), PED_TRIES as int),
                found is Some ==> (found, self.rng.state()) == ped_search(*walk, tx, ty, s0.rng.state(), PED_TRIES as int),
            decreases PED_TRIES - n,
        {
            let ghost st = self.rng.state();
            let ghost left = (PED_TRIES - n) as int;
            let x = tx + self.rng.range(-RECYCLE, RECYCLE);
            let y = ty + self.rng.range(-RECYCLE, RECYCLE);
            n = n + 1;
            if walk.at(x, y) == crate::walk::Foot::Path {
                let goal = self.walk_goal(walk, (x, y));
                let d = self.rng.below(4);
                let phase = self.rng.below(2) as u8;
                let h = self.rng.below(4);
                let hue = if h == 0 { palette::H_PINK } else if h == 1 { palette::H_CYAN } else if h == 2 { palette::H_WHITE } else { palette::H_ORANGE };
                found = Some(Ped {
                    x: fixed::from_int(x) + HALF,
                    y: fixed::from_int(y) + HALF,
                    dir: (d as Ang) * trig::QUARTER,
                    goal,
                    phase,
                    hue,
                });
            }
        }
        match found {
            Some(p) => p,
            None => {
                let near = walk.nearest(tx, ty, 30);
                proof {
                    assert(nearest_is(*walk, tx, ty, 30, near));
                    lemma_nearest_is_unique(*walk, tx, ty, 30, near, nearest_of(*walk, tx, ty, 30));
                }
                let here = match near { Some(c) => c, None => (tx, ty) };
                proof {
                    if near is Some {
                        assert(walk.open_at(here.0 as int, here.1 as int));
                    }
                }
                Ped { x: fixed::from_int(here.0) + HALF, y: fixed::from_int(here.1) + HALF, dir: 0, goal: here, phase: 0, hue: palette::H_WHITE }
            },
        }
    }
}

/// How many cars the traffic pool holds.
pub const TRAFFIC: usize = 64;

/// How many people the crowd holds.
pub const PEDS: usize = 48;

/// Seconds on the clock at the start of a shift.
pub const START_TIME: i32 = 60;

/// What is added to the seed for the shift's generator.
pub const SHIFT_SALT: u32 = 0x0000_5EED;

impl Sim {
    /// Start a shift in a city of `size` cells a side.  The cab starts
    /// where the walker spawns near the middle of the map, at rest, and is
    /// parked at the nearest kerb; every sidewalk that wants furniture gets
    /// it; the traffic pool is filled, then the crowd; and the first fare
    /// is hailed.  The clock starts at a minute, the purse empty.
    pub fn new<K: Fn(i32, i32) -> Kind, O: Fn(i32, i32) -> bool, D: Fn(i32, i32) -> bool, J: Fn(i32, i32) -> bool,
        P: Fn(i32, i32) -> (Strip, Strip), G: Fn(i32, i32) -> Fx>(
        kind_at: &K, walk: &WalkMap, drive: &WalkMap, open: &O, drivable: &D, junction: &J, plan_at: &P, ground: &G, size: i32, seed: u32,
    ) -> (s: Sim)
        requires
            city_reads(*kind_at, *drivable, *junction, *plan_at, size),
            reads(*open),
            drive.side() <= 4096,
            forall|a: i32, b: i32| ground.requires((a, b)),
            forall|a: i32, b: i32, h: Fx| #[trigger] ground.ensures((a, b), h) ==> -0x4000_0000 <= h <= 0x4000_0000,
        ensures
            s.props@ == furniture_of(*kind_at, size, size as int),
            s.traffic@.len() == TRAFFIC,
            pool(s),
            s.peds@.len() == PEDS,
            exists|before: Sim| #![trigger hailed(before, s, *kind_at, *walk, *drive, *drivable, *junction, *plan_at, size)]
                before.fare is None && before.peds@.len() == PEDS && before.traffic@.len() == TRAFFIC
                && hailed(before, s, *kind_at, *walk, *drive, *drivable, *junction, *plan_at, size),
            s.ticks_left == START_TIME * 60,
            s.money == 0 && s.spent == 0 && s.combo == 0 && s.tick == 0,
            !s.over && !s.braking,
            s.taxi.kind == CarKind::Taxi && s.taxi.hue == palette::H_YELLOW,
            s.taxi.vx == 0 && s.taxi.vy == 0 && s.taxi.spin == 0,
    {
        let mid = size / 2;
        let start = Camera::spawn(open, walk, ground, mid, mid);
        proof {
            let (found, fallback, ok, h) = choose|found: Option<(i32, i32)>, fallback: Option<(i32, i32)>, ok: bool, h: Fx|
                #[trigger] crate::camera::spawned(open, *walk, ground, mid, mid, found, fallback, ok, h, start);
            crate::camera::lemma_spawned_near(open, *walk, ground, mid, mid, found, fallback, ok, h, start);
        }
        let mut sim = Sim {
            taxi: Car::new(CarKind::Taxi, start.x, start.y, 0, palette::H_YELLOW),
            traffic: Vec::new(),
            traffic_ctl: vec![Controls::default(); TRAFFIC],
            traffic_cruise: vec![0; TRAFFIC],
            traffic_bias: vec![0; TRAFFIC],
            traffic_backing: vec![0; TRAFFIC],
            braking: false,
            props: Vec::new(),
            peds: Vec::new(),
            fare: None,
            money: 0,
            spent: 0,
            combo: 0,
            ticks_left: START_TIME * crate::drive::HZ,
            tick: 0,
            over: false,
            rng: Rng::new(seed.wrapping_add(SHIFT_SALT)),
            order: Vec::new(),
            boards: Vec::new(),
        };
        sim.furnish(kind_at, size);
        let (cx, cy) = (fixed::floor(start.x), fixed::floor(start.y));
        proof {
            lemma_ring_near(*kind_at, *open, *junction, *plan_at, cx as int, cy as int, 0, 0, 0);
            match ring_search(*kind_at, *open, *junction, *plan_at, cx as int, cy as int, 0, 0, 0) {
                Some((px, py)) => {
                    let (row, col) = read(*plan_at, px, py);
                    match flow_of(row, col, px as int, py as int) {
                        Some(dir) => lemma_lane_of_near(row, col, px as int, py as int, dir.0 as int, dir.1 as int),
                        None => {},
                    }
                },
                None => {},
            }
        }
        sim.park_near(kind_at, open, junction, plan_at, cx, cy);
        assert(placed(sim.taxi.x, sim.taxi.y));
        let ghost s1 = sim;
        let mut i: usize = 0;
        while i < TRAFFIC
            invariant
                0 <= i <= TRAFFIC,
                city_reads(*kind_at, *drivable, *junction, *plan_at, size),
                sim.traffic@.len() == i,
                sim.traffic_ctl@.len() == TRAFFIC,
                sim.traffic_cruise@.len() == TRAFFIC,
                sim.traffic_bias@.len() == TRAFFIC,
                sim.traffic_backing@.len() == TRAFFIC,
                placed(sim.taxi.x, sim.taxi.y),
                sim == (Sim { traffic: sim.traffic, traffic_cruise: sim.traffic_cruise, traffic_bias: sim.traffic_bias, rng: sim.rng, ..s1 }),
            decreases TRAFFIC - i,
        {
            let (c, cruise, bias) = sim.spawn_car(kind_at, drivable, junction, plan_at, size);
            sim.traffic.push(c);
            sim.traffic_cruise.set(i, cruise);
            sim.traffic_bias.set(i, bias);
            i = i + 1;
        }
        let ghost s2 = sim;
        let mut k: usize = 0;
        while k < PEDS
            invariant
                0 <= k <= PEDS,
                sim.peds@.len() == k,
                placed(sim.taxi.x, sim.taxi.y),
                sim == (Sim { peds: sim.peds, rng: sim.rng, ..s2 }),
            decreases PEDS - k,
        {
            let p = sim.spawn_ped(walk);
            sim.peds.push(p);
            k = k + 1;
        }
        let ghost before = sim;
        sim.hail(kind_at, walk, drive, drivable, junction, plan_at, size);
        assert(hailed(before, sim, *kind_at, *walk, *drive, *drivable, *junction, *plan_at, size));
        sim
    }
}

/// A kerb found beside a cell is one a cab can pull up at.
proof fn lemma_beside_stops<O: Fn(i32, i32) -> bool, J: Fn(i32, i32) -> bool, P: Fn(i32, i32) -> (Strip, Strip)>(
    drivable: O, junction: J, plan_at: P, x: int, y: int, r: int, dy: int, dx: int,
)
    ensures
        beside_search(drivable, junction, plan_at, x, y, r, dy, dx) matches Some(c) ==> stop_ok(drivable, junction, plan_at, c.0, c.1),
    decreases 3 - r, r + 1 - dy, r + 1 - dx,
{
    if r > 2 || r < 1 || dy < -r || dx < -r {
    } else if dy > r {
        lemma_beside_stops(drivable, junction, plan_at, x, y, r + 1, -(r + 1), -(r + 1));
    } else if dx > r {
        lemma_beside_stops(drivable, junction, plan_at, x, y, r, dy + 1, -r);
    } else if crate::walk::ring_of(dx, dy) == r && stop_ok(drivable, junction, plan_at, (x + dx) as i32, (y + dy) as i32) {
    } else {
        lemma_beside_stops(drivable, junction, plan_at, x, y, r, dy, dx + 1);
    }
}

/// A passenger is put down beside the road and not on it: somewhere a
/// search for a place to stand finds is on the walking network, off the
/// carriageway, at least `min` cells from the cab along the grid, and its
/// kerb is a street cell a cab can pull up at, out of any junction.
pub proof fn lemma_passengers_stand_beside_the_road<K: Fn(i32, i32) -> Kind, O: Fn(i32, i32) -> bool, J: Fn(i32, i32) -> bool, P: Fn(i32, i32) -> (Strip, Strip)>(
    kind_at: K, walk: WalkMap, drivable: O, junction: J, plan_at: P, size: i32, tx: i32, ty: i32, min: i32, max: i32, st: u32, tries: int,
)
    ensures
        kerb_search(kind_at, walk, drivable, junction, plan_at, size, tx, ty, min, max, st, tries).0 matches Some(v) ==> {
            &&& walk.foot(v.0.0 as int, v.0.1 as int) == crate::walk::Foot::Path
            &&& read(kind_at, v.0.0, v.0.1) != Kind::Road
            &&& manhattan(v.0, (tx, ty)) >= min
            &&& stop_ok(drivable, junction, plan_at, v.1.0, v.1.1)
        },
    decreases tries,
{
    if tries > 0 {
        let (x, y, s2) = dart_of(tx, ty, min, max, st);
        lemma_passengers_stand_beside_the_road(kind_at, walk, drivable, junction, plan_at, size, tx, ty, min, max, s2, tries - 1);
        if inside(size, x, y) {
            let near = nearest_of(walk, x, y, 6);
            if near is Some {
                let (px, py) = near->Some_0;
                lemma_beside_stops(drivable, junction, plan_at, px as int, py as int, 1, -1, -1);
            }
        }
    }
}

} // verus!
