//! The driving autopilot: a taxi that takes the fare by itself.
//!
//! It plans, and then it steers.  A breadth-first route over the
//! carriageway is found once per fare; the steering is then a function of
//! the plan and the car's state: find where on the route the car is, read
//! which way the road runs there, and turn the error into a wheel angle.
//!
//! Traffic keeps right, so on the road the cab follows the middle of the
//! right-hand lane, and regulates both its angle to the lane and its
//! offset from it.  Off the end of the route it aims at the marker itself.
//!
//! Arriving is a separate behaviour from driving: the fare is handed over
//! inside [`STOP_RADIUS`] of the marker and under [`STOP_SPEED`], so near
//! the marker the cab aims straight at it and brakes on a ramp that
//! reaches walking pace before it gets there, and inside the circle it
//! stops and stays stopped.
use vstd::prelude::*;
use crate::drive::{Car, Controls, octagonal_len, short};
use crate::fixed::{self, Fx, HALF, ONE, clamp_of, fx_div, fx_mul, lerp_of, mul_wide, trunc_div};
use crate::road::{self, Strip, lane_of, street_axis_of};
use crate::sim::{STOP_RADIUS, STOP_SPEED, atan2_approx, atan2_of};
use crate::trig::{self, Ang, cos_of, sin_of};
use crate::walk::{WalkMap, is_walk};

verus! {

/// How many cells of searching a route may cost before it is given up on.
pub const ROUTE_BUDGET: usize = 40_000;

/// How many route cells either side of a point are used to work out which
/// way the road runs there.
pub const BASELINE: usize = 3;

/// Bearing error, in angle units, at which the wheel is on full lock when
/// the thing aimed at is far away.
pub const FULL_LOCK: i32 = 9_000;

/// Range, in cells, beyond which the full proportional band is used.
pub const LOCK_RANGE: i32 = 8;

/// Cross-track gain: lock per cell off the lane line, at a standstill.
pub const CROSS: Fx = 32768;

/// The most lock the cross-track term alone may ask for: two fifths.
pub const CROSS_MAX: Fx = 26214;

/// Bearing error beyond which the throttle comes off.
pub const LIFT: i32 = 7_000;

/// Bearing error beyond which the car brakes rather than merely lifting.
pub const HARD: i32 = 16_000;

/// Bearing error beyond which the wheel latches to one side: about a
/// hundred and thirty degrees, where the sign of the error carries almost
/// no information.
pub const COMMIT: i32 = 24_000;

/// Bearing error at which a latched turn is released.
pub const RELEASE: i32 = 6_000;

/// The fastest the autopilot will go on a straight, in units per second:
/// four and a half.
pub const CRUISE_MAX: Fx = 294912;

/// Forward speed below which reverse is what the throttle means: a quarter.
pub const ROLLING: Fx = 16384;

/// How far out the cab stops following the route and aims at the marker,
/// in cells: seven.
pub const APPROACH: Fx = 458752;

/// How far out the cab is down to walking pace: two and a half cells.
pub const CRAWL: Fx = 163840;

/// Speed to be doing at the edge of the circle: three quarters.
pub const CREEP: Fx = 49152;

/// How far the car may stray from its route before the route is taken to
/// be stale: three cells.
pub const OFF_ROUTE: Fx = 196608;

/// The value of [`full_lock_at`]: the band grows with range, from one cell
/// to [`LOCK_RANGE`].
pub open spec fn full_lock_at_of(range: Fx) -> int {
    let r = clamp_of(range as int / 65536, 1, LOCK_RANGE as int);
    FULL_LOCK * r / LOCK_RANGE as int
}

/// The bearing error that means full lock, at a given range to the target:
/// wide when the aim point is far away and narrow when it is close, so
/// that the turn radius never exceeds the distance.
pub fn full_lock_at(range: Fx) -> (r: i32)
    ensures
        r == full_lock_at_of(range),
        1125 <= r <= FULL_LOCK,
{
    let f = fixed::floor(range);
    let r = if f < 1 { 1 } else if f > LOCK_RANGE { LOCK_RANGE } else { f };
    FULL_LOCK * r / LOCK_RANGE
}

/// The value of [`corner_speed`].
pub open spec fn corner_speed_of(err: int) -> int {
    let e = vstd::math::abs(err) as int;
    if e > HARD { 98304 } else if e > LIFT { CRUISE_MAX as int / 2 } else { CRUISE_MAX as int }
}

/// The fastest it is sensible to be going with the wheel this far over:
/// a crawl of one and a half that still has authority to come round,
/// half cruise, or cruise.
pub fn corner_speed(err: i32) -> (s: Fx)
    requires
        err != i32::MIN,
    ensures
        s == corner_speed_of(err as int),
{
    let e = if err < 0 { -err } else { err };
    if e > HARD {
        98304
    } else if e > LIFT {
        CRUISE_MAX / 2
    } else {
        CRUISE_MAX
    }
}

/// The value of [`approach_speed`]: a straight ramp from [`CREEP`] at
/// [`CRAWL`] to [`CRUISE_MAX`] at [`APPROACH`].
pub open spec fn approach_speed_of(to_goal: Fx) -> int {
    let t = clamp_of(fixed::fx_div((to_goal - CRAWL) as i32, (APPROACH - CRAWL) as i32) as int, 0, ONE as int);
    lerp_of(CREEP as int, CRUISE_MAX as int, t)
}

/// The fastest it is sensible to be going this far from the circle.
pub fn approach_speed(to_goal: Fx) -> (s: Fx)
    requires
        to_goal >= i32::MIN + CRAWL,
    ensures
        s == approach_speed_of(to_goal),
        CREEP <= s <= CRUISE_MAX,
{
    let t = fixed::clamp(fixed::div(to_goal - CRAWL, APPROACH - CRAWL), 0, ONE);
    proof {
        fixed::lemma_lerp_between(CREEP as int, CRUISE_MAX as int, t as int);
    }
    fixed::lerp(CREEP, CRUISE_MAX, t)
}

/// The value of [`pace`].
pub open spec fn pace_of(vf: Fx, speed: Fx, want: Fx) -> int {
    if speed > want + HALF {
        if vf > ROLLING { -65536 } else { 0 }
    } else if vf < want - 16384 {
        65536
    } else {
        0
    }
}

/// Throttle to hold a wanted speed: held back on the total speed, pushed
/// on the forward one, with a dead band between, and never reverse to
/// slow a car that is not rolling forwards.
pub fn pace(vf: Fx, speed: Fx, want: Fx) -> (t: Fx)
    requires
        0 <= want <= CRUISE_MAX,
    ensures
        t == pace_of(vf, speed, want),
{
    if speed > want + HALF {
        if vf > ROLLING {
            -ONE
        } else {
            0
        }
    } else if vf < want - 16384 {
        ONE
    } else {
        0
    }
}

/// The value of [`dist`]: the larger axis plus three eighths of the
/// smaller, in fixed point.
pub open spec fn dist_of(ax: Fx, ay: Fx, bx: Fx, by: Fx) -> int {
    let dx = vstd::math::abs(ax - bx) as int;
    let dy = vstd::math::abs(ay - by) as int;
    let (hi, lo) = if dx > dy { (dx, dy) } else { (dy, dx) };
    hi + mul_wide(lo, 24576)
}

/// Whether two points are near enough for their distance to be worked out
/// in 32 bits.
pub open spec fn near_enough(ax: Fx, ay: Fx, bx: Fx, by: Fx) -> bool {
    &&& -0x4000_0000 < ax - bx < 0x4000_0000
    &&& -0x4000_0000 < ay - by < 0x4000_0000
}

/// Straight-line distance between two points, by the octagonal
/// approximation: within about six per cent, and no square root.
pub fn dist(ax: Fx, ay: Fx, bx: Fx, by: Fx) -> (d: Fx)
    requires
        near_enough(ax, ay, bx, by),
    ensures
        d == dist_of(ax, ay, bx, by),
        d >= 0,
{
    let (dx, dy) = (fixed::abs(ax - bx), fixed::abs(ay - by));
    let (hi, lo) = if dx > dy { (dx, dy) } else { (dy, dx) };
    proof {
        assert(fixed::from_int_of(3) == 196608 && fixed::from_int_of(8) == 524288);
        assert(trunc_div(196608int * 65536, 524288int) == 24576) by {
            assert((196608int * 65536) / 524288int == 24576) by (nonlinear_arith);
        }
        fixed::lemma_mul_bound(lo, 24576, 0x4000_0000, 24576);
        assert(0 <= (lo as int) * 24576) by (nonlinear_arith) requires 0 <= lo;
    }
    hi + fixed::mul(lo, fixed::ratio(3, 8))
}

/// The value of [`bearing_error`].
pub open spec fn bearing_error_of(taxi: Car, tx: Fx, ty: Fx) -> int {
    let want = atan2_of((ty - taxi.y) as i32, (tx - taxi.x) as i32);
    trig::signed_of(((want + 65536 - taxi.yaw) % 65536) as u16)
}

/// How far the car is pointing away from a target, in angle units:
/// positive when the target is to its right.
pub fn bearing_error(taxi: &Car, tx: Fx, ty: Fx) -> (e: i32)
    requires
        near_enough(taxi.x, taxi.y, tx, ty),
    ensures
        e == bearing_error_of(*taxi, tx, ty),
        -32768 <= e <= 32767,
{
    let want = atan2_approx(ty - taxi.y, tx - taxi.x);
    let d = want.wrapping_sub(taxi.yaw);
    proof {
        trig::lemma_signed(d);
    }
    d as i16 as i32
}

/// The value of [`forward`].
pub open spec fn forward_of(taxi: Car) -> int {
    fx_mul(taxi.vx, cos_of(taxi.yaw)) + fx_mul(taxi.vy, sin_of(taxi.yaw))
}

/// Signed speed along the car's own nose: what tells a car rolling
/// backwards from one rolling forwards.
pub fn forward(taxi: &Car) -> (v: Fx)
    requires
        short(taxi.vx, taxi.vy),
    ensures
        v == forward_of(*taxi),
{
    proof {
        trig::lemma_table_bounds(taxi.yaw);
        fixed::lemma_mul_bound(taxi.vx, cos_of(taxi.yaw), 0x2000_0000, 65536);
        fixed::lemma_mul_bound(taxi.vy, sin_of(taxi.yaw), 0x2000_0000, 65536);
    }
    fixed::mul(taxi.vx, trig::cos(taxi.yaw)) + fixed::mul(taxi.vy, trig::sin(taxi.yaw))
}

/// The driving autopilot.
///
/// It owns the plan, not the car: it reads the car and returns
/// [`Controls`], as a person at the wheel would.
pub struct Cabbie {
    /// The planned route, as carriageway cells, or empty if there is none.
    pub route: Vec<(i32, i32)>,
    /// How far along `route` the car has got.
    pub at: usize,
    /// The marker the current route was planned to, so that a new fare is
    /// noticed.
    pub planned_for: Option<(Fx, Fx)>,
    /// Ticks the car has spent going nowhere.
    pub stalled: u32,
    /// Ticks left to spend reversing out of trouble.
    pub backing: u32,
    /// Which way the wheel is latched while the car is turned right round:
    /// -1, 0 or 1.
    pub committed: i32,
    /// Which way the wheel goes on the next attempt to back out of a wedge:
    /// -1 or 1.
    pub wriggle: i32,
}

/// Whether a route is one the cabbie can follow in 32 bits: on a map of
/// at most 4096 cells a side, each cell beside the one before.
pub open spec fn followable(route: Seq<(i32, i32)>) -> bool {
    &&& forall|k: int| 0 <= k < route.len() ==> 0 <= #[trigger] route[k].0 < 4096 && 0 <= route[k].1 < 4096
    &&& forall|k: int| 0 <= k < route.len() - 1 ==> crate::walk::adjacent(#[trigger] route[k], route[k + 1])
}

/// Whether a car is where the cabbie's arithmetic can follow it: near the
/// map, and not going absurdly fast.
pub open spec fn trackable(taxi: Car) -> bool {
    &&& -0x1000_0000 <= taxi.x <= 0x2000_0000
    &&& -0x1000_0000 <= taxi.y <= 0x2000_0000
    &&& short(taxi.vx, taxi.vy)
}

impl Cabbie {
    /// Whether the cabbie's state is one it can have got itself into: the
    /// latch and the wriggle are directions, and the route can be followed.
    pub open spec fn wf(self) -> bool {
        &&& -1 <= self.committed <= 1
        &&& (self.wriggle == 1 || self.wriggle == -1)
        &&& followable(self.route@)
        &&& self.at < usize::MAX
        &&& self.stalled < u32::MAX
    }

    /// A cabbie with no plan.  It picks one up on its first tick.
    pub fn new() -> (c: Cabbie)
        ensures
            c.route@.len() == 0,
            c.at == 0,
            c.planned_for is None,
            c.stalled == 0,
            c.backing == 0,
            c.committed == 0,
            c.wriggle == 1,
            c.wf(),
    {
        Cabbie { route: Vec::new(), at: 0, planned_for: None, stalled: 0, backing: 0, committed: 0, wriggle: 1 }
    }

    /// The route currently being followed.
    pub fn route(&self) -> (r: &[(i32, i32)])
        ensures
            r@ == self.route@,
    {
        self.route.as_slice()
    }

    /// How far along the route the car has got, as a cell index.
    pub fn progress(&self) -> (at: usize)
        ensures
            at == self.at,
    {
        self.at
    }
}

impl Default for Cabbie {
    /// A cabbie with no plan.
    fn default() -> (c: Cabbie)
        ensures
            c.route@.len() == 0,
            c.at == 0,
            c.planned_for is None,
            c.stalled == 0,
            c.backing == 0,
            c.committed == 0,
            c.wriggle == 1,
    {
        Cabbie::new()
    }
}

/// The value of [`Cabbie::steer_for`] for a latch in state `committed`:
/// the wheel angle, and the latch after.  Beyond [`COMMIT`] the wheel
/// latches to the side the error first showed and stays there; under
/// [`RELEASE`] the latch lets go; while latched the lock eases off as the
/// nose comes round; otherwise the wheel is proportional to the error over
/// the band for this range.
pub open spec fn steer_of(committed: int, err: int, range: Fx) -> (int, int) {
    let e = vstd::math::abs(err) as int;
    if e >= COMMIT {
        let c = if committed == 0 { if err >= 0 { 1int } else { -1int } } else { committed };
        (c * 65536, c)
    } else {
        let c = if e < RELEASE { 0 } else { committed };
        if c != 0 {
            (mul_wide(c * 65536, fixed::div_of(e * 65536, COMMIT * 65536) as int) as i32 as int, c)
        } else {
            (clamp_of(fixed::div_of(err * 65536, full_lock_at_of(range) * 65536) as int, -65536, 65536), c)
        }
    }
}

/// The value of [`Cabbie::hold_lane`]: past [`COMMIT`] a turn for the
/// latch; otherwise the angle to the lane over [`FULL_LOCK`], less a pull
/// towards the lane line that falls off with speed and is capped at
/// [`CROSS_MAX`], all within full lock.
pub open spec fn hold_lane_of(committed: int, psi: int, right_of_lane: Fx, speed: Fx) -> (int, int) {
    if vstd::math::abs(psi) >= COMMIT {
        steer_of(committed, psi, CRUISE_MAX)
    } else {
        let angle = fixed::div_of(psi * 65536, FULL_LOCK * 65536) as int;
        let pull = clamp_of(fixed::div_of(mul_wide(CROSS as int, right_of_lane as int) as i32 as int, speed + 65536) as int, -CROSS_MAX as int, CROSS_MAX as int);
        (clamp_of(angle - pull, -65536, 65536), 0)
    }
}

/// Holding a lane turns the car back to it: on the lane line, an error
/// short of a latched turn gives a wheel the same way as the error (the
/// lane's heading less the car's), so a nose right of the lane gets a left
/// wheel and a nose left of it a right one; pointing along the lane, the
/// wheel goes towards the line, never away from it.
pub proof fn lemma_holding_a_lane_turns_back_to_it(committed: int, psi: int, right_of_lane: Fx, speed: Fx)
    requires
        -COMMIT < psi < COMMIT,
        0 <= speed <= i32::MAX - ONE,
    ensures
        right_of_lane == 0 && psi > 0 ==> hold_lane_of(committed, psi, right_of_lane, speed).0 > 0,
        right_of_lane == 0 && psi < 0 ==> hold_lane_of(committed, psi, right_of_lane, speed).0 < 0,
        right_of_lane == 0 && psi == 0 ==> hold_lane_of(committed, psi, right_of_lane, speed).0 == 0,
        psi == 0 && right_of_lane >= 0 ==> hold_lane_of(committed, psi, right_of_lane, speed).0 <= 0,
        psi == 0 && right_of_lane <= 0 ==> hold_lane_of(committed, psi, right_of_lane, speed).0 >= 0,
{
    let num = vstd::math::abs(psi * 65536 * 65536) as int;
    let q = num / 589824000;
    assert(psi != 0 ==> num >= 4294967296) by (nonlinear_arith)
        requires num == vstd::math::abs(psi * 65536 * 65536) as int;
    assert(num <= 24000 * 4294967296) by (nonlinear_arith)
        requires num == vstd::math::abs(psi * 65536 * 65536) as int, -24000 < psi < 24000;
    assert(psi != 0 ==> q >= 7);
    assert(q <= 65536 * 4);
    assert(fixed::trunc_div(psi * 65536 * 65536, FULL_LOCK * 65536) == if psi >= 0 { q } else { -q });
    let m = mul_wide(CROSS as int, right_of_lane as int);
    assert(m == (32768 * right_of_lane) / 65536);
    assert(right_of_lane >= 0 ==> m >= 0) by (nonlinear_arith)
        requires m == (32768 * right_of_lane) / 65536;
    assert(right_of_lane <= 0 ==> m <= 0) by (nonlinear_arith)
        requires m == (32768 * right_of_lane) / 65536;
    assert(-0x4000_0000 <= m <= 0x4000_0000) by (nonlinear_arith)
        requires m == (32768 * right_of_lane) / 65536, i32::MIN <= right_of_lane <= i32::MAX;
    let d = speed + 65536;
    let pq = vstd::math::abs(m * 65536) as int / vstd::math::abs(d) as int;
    assert(pq >= 0);
    assert(pq <= vstd::math::abs(m) as int) by (nonlinear_arith)
        requires pq == vstd::math::abs(m * 65536) as int / vstd::math::abs(d) as int, d >= 65536;
    assert((m as i32) as int == m);
    assert(fixed::trunc_div(m * 65536, d) == if m * 65536 < 0 { -pq } else { pq });
    assert(fixed::div_of(m, d) == fixed::trunc_div(m * 65536, d));
    assert(psi == 0 ==> fixed::div_of(psi * 65536, FULL_LOCK * 65536) == 0);
    assert(m >= 0 ==> m * 65536 >= 0) by (nonlinear_arith);
    assert(m <= 0 ==> m * 65536 <= 0) by (nonlinear_arith);
    assert(m == 0 ==> m * 65536 == 0);
}

/// Unlatched, the wheel turns the way of the error: a target to the right
/// gets a right wheel, one to the left a left wheel, and one dead ahead a
/// straight wheel; a latch, once taken, holds its own side.
pub proof fn lemma_steering_turns_towards_the_error(err: int, range: Fx)
    requires
        -32768 <= err <= 32767,
    ensures
        err > 0 ==> steer_of(0, err, range).0 > 0,
        err < 0 ==> steer_of(0, err, range).0 < 0,
        err == 0 ==> steer_of(0, err, range).0 == 0,
{
    let r = clamp_of(range as int / 65536, 1, LOCK_RANGE as int);
    let band = full_lock_at_of(range);
    assert(1125 <= band <= 9000) by (nonlinear_arith)
        requires band == FULL_LOCK * r / LOCK_RANGE as int, 1 <= r <= LOCK_RANGE, FULL_LOCK == 9000, LOCK_RANGE == 8;
    let num = vstd::math::abs(err * 65536 * 65536) as int;
    let den = band * 65536;
    let q = num / den;
    assert(err != 0 ==> num >= 4294967296) by (nonlinear_arith)
        requires num == vstd::math::abs(err * 65536 * 65536) as int;
    assert(err != 0 ==> q >= 7) by (nonlinear_arith)
        requires q == num / den, den == band * 65536, 1125 <= band <= 9000, err != 0 ==> num >= 4294967296;
    assert(num <= 32768 * 4294967296) by (nonlinear_arith)
        requires num == vstd::math::abs(err * 65536 * 65536) as int, -32768 <= err <= 32767;
    assert(den >= 73728000);
    assert(q * den <= num && q >= 0) by (nonlinear_arith)
        requires q == num / den, den > 0, num >= 0;
    assert(q * 73728000 <= num) by (nonlinear_arith)
        requires den >= 73728000, q >= 0, q * den <= num;
    assert(q <= 2_000_000) by (nonlinear_arith)
        requires q * 73728000 <= num, num <= 140737488355328, q >= 0;
    assert(fixed::trunc_div(err * 65536 * 65536, den) == if err * 65536 * 65536 < 0 { -q } else { q });
    assert(err > 0 ==> err * 65536 * 65536 > 0) by (nonlinear_arith);
    assert(err < 0 ==> err * 65536 * 65536 < 0) by (nonlinear_arith);
    assert(fixed::div_of(err * 65536, den) == fixed::trunc_div(err * 65536 * 65536, den));
}

/// Whether `(err, steer)` is a lane-holding aim that turns the car back to
/// its lane: while there is a lane and the marker is far, the error is the
/// lane's heading less the car's and, short of a latched turn, the wheel
/// goes the way of the error when on the lane line, and towards the line
/// when pointing along the lane.
pub open spec fn lane_aim_ok(u: Cabbie, row: Strip, col: Strip, taxi: Car, goal: (Fx, Fx), err: int, steer: int) -> bool {
    let t = track_of(u, row, col, taxi);
    let to_goal = dist_of(taxi.x, taxi.y, goal.0, goal.1);
    &&& (t is Some && to_goal >= APPROACH && -COMMIT < err < COMMIT) ==> {
        &&& err == trig::signed_of(((t->0.heading + 65536 - taxi.yaw) % 65536) as u16)
        &&& t->0.right_of_lane == 0 ==> (err > 0 ==> steer > 0) && (err < 0 ==> steer < 0) && (err == 0 ==> steer == 0)
        &&& err == 0 && t->0.right_of_lane >= 0 ==> steer <= 0
        &&& err == 0 && t->0.right_of_lane <= 0 ==> steer >= 0
    }
    &&& (!(t is Some && to_goal >= APPROACH) || err <= -COMMIT || COMMIT <= err) && u.committed == 0 && -32768 <= err <= 32767
        ==> (err > 0 ==> steer > 0) && (err < 0 ==> steer < 0) && (err == 0 ==> steer == 0)
}

/// The autopilot's aim turns the car back to its lane.
pub proof fn lemma_aim_turns_back(u: Cabbie, row: Strip, col: Strip, taxi: Car, goal: (Fx, Fx))
    requires
        octagonal_len(taxi.vx, taxi.vy) <= i32::MAX - ONE,
    ensures
        lane_aim_ok(u, row, col, taxi, goal, aim_of(u, row, col, taxi, goal).0, aim_of(u, row, col, taxi, goal).1),
{
    let t = track_of(u, row, col, taxi);
    let to_goal = dist_of(taxi.x, taxi.y, goal.0, goal.1);
    if t is Some && to_goal >= APPROACH {
        let err = trig::signed_of(((t->0.heading + 65536 - taxi.yaw) % 65536) as u16);
        if -COMMIT < err < COMMIT {
            lemma_holding_a_lane_turns_back_to_it(u.committed as int, err, t->0.right_of_lane, octagonal_len(taxi.vx, taxi.vy) as i32);
        } else if -32768 <= err <= 32767 {
            lemma_steering_turns_towards_the_error(err, CRUISE_MAX);
        }
    } else {
        let err = bearing_error_of(taxi, goal.0, goal.1);
        if -32768 <= err <= 32767 {
            lemma_steering_turns_towards_the_error(err, to_goal as i32);
        }
    }
}

impl Cabbie {
    /// Bearing error to wheel angle: proportional in the ordinary case,
    /// latched when the car is turned most of the way round, where the
    /// sign of the error is unreliable.
    pub fn steer_for(&mut self, err: i32, range: Fx) -> (s: Fx)
        requires
            -32768 <= err <= 32767,
            -1 <= old(self).committed <= 1,
        ensures
            (s as int, final(self).committed as int) == steer_of(old(self).committed as int, err as int, range),
            *final(self) == (Cabbie { committed: final(self).committed, ..*old(self) }),
            -1 <= final(self).committed <= 1,
            -ONE <= s <= ONE,
    {
        let e = if err < 0 { -err } else { err };
        if e >= COMMIT {
            if self.committed == 0 {
                self.committed = if err >= 0 { 1 } else { -1 };
            }
            return fixed::from_int(self.committed);
        }
        if e < RELEASE {
            self.committed = 0;
        }
        if self.committed != 0 {
            let c = fixed::from_int(self.committed);
            let t = fixed::ratio(e, COMMIT);
            proof {
                assert(0 <= t <= 65536) by {
                    assert(fixed::from_int_of(e as int) == e * 65536);
                    assert(fixed::from_int_of(COMMIT as int) == 24000 * 65536);
                    assert(0 <= (e * 65536 * 65536) / (24000int * 65536) <= 65536) by (nonlinear_arith)
                        requires 0 <= e < 24000;
                }
                fixed::lemma_mul_bound(c, t, 65536, 65536);
                assert(c == 65536 || c == -65536);
                assert((65536 * t) / 65536 == t) by (nonlinear_arith);
                assert((-65536 * t) / 65536 == -t) by (nonlinear_arith);
            }
            return fixed::mul(c, t);
        }
        let band = full_lock_at(range);
        fixed::clamp(fixed::ratio(err, band), -ONE, ONE)
    }

    /// Steer to sit on the lane line and point along it: the angle term
    /// turns the car parallel to the road, the cross-track term walks it
    /// sideways onto the line.
    pub fn hold_lane(&mut self, psi: i32, right_of_lane: Fx, speed: Fx) -> (s: Fx)
        requires
            -32768 <= psi <= 32767,
            -1 <= old(self).committed <= 1,
            0 <= speed <= i32::MAX - ONE,
        ensures
            (s as int, final(self).committed as int) == hold_lane_of(old(self).committed as int, psi as int, right_of_lane, speed),
            *final(self) == (Cabbie { committed: final(self).committed, ..*old(self) }),
            -1 <= final(self).committed <= 1,
            -ONE <= s <= ONE,
    {
        let a = if psi < 0 { -psi } else { psi };
        if a >= COMMIT {
            return self.steer_for(psi, CRUISE_MAX);
        }
        self.committed = 0;
        let angle = fixed::ratio(psi, FULL_LOCK);
        proof {
            assert(fixed::from_int_of(psi as int) == psi * 65536);
            assert(fixed::from_int_of(FULL_LOCK as int) == 9000 * 65536);
            let n = vstd::math::abs(psi * 65536 * 65536) as int;
            assert(n / (9000int * 65536) <= 0x40000) by (nonlinear_arith)
                requires n == vstd::math::abs(psi * 65536 * 65536) as int, -24000 < psi < 24000;
            fixed::lemma_mul_bound(CROSS, right_of_lane, 32768, 0x8000_0000);
        }
        let pull = fixed::clamp(fixed::div(fixed::mul(CROSS, right_of_lane), speed + ONE), -CROSS_MAX, CROSS_MAX);
        fixed::clamp(angle - pull, -ONE, ONE)
    }
}

/// The middle of a cell, in world units.
pub open spec fn centre_of(c: (i32, i32)) -> (int, int) {
    (c.0 * 65536 + HALF, c.1 * 65536 + HALF)
}

/// The value of [`Cabbie::heading_at`]: the route's direction over
/// [`BASELINE`] cells either side of cell `i`, clipped to the route.
pub open spec fn heading_at_of(route: Seq<(i32, i32)>, i: int) -> (int, int) {
    let a = route[if i >= BASELINE { i - BASELINE } else { 0 }];
    let b = route[if i + BASELINE < route.len() - 1 { i + BASELINE } else { route.len() - 1 }];
    (b.0 - a.0, b.1 - a.1)
}

/// Whether the car has gone past route cell `k`: it is on the far side of
/// it from cell `k + 1`.
pub open spec fn passed(route: Seq<(i32, i32)>, k: int, taxi: Car) -> bool {
    let w = centre_of(route[k]);
    let n = centre_of(route[k + 1]);
    fx_mul((taxi.x - w.0) as i32, (n.0 - w.0) as i32) + fx_mul((taxi.y - w.1) as i32, (n.1 - w.1) as i32) > 0
}

/// The value of [`Cabbie::advance`]: the cursor stepped past every cell
/// the car has already gone by, one at a time and only forwards.
pub open spec fn advance_of(route: Seq<(i32, i32)>, at: int, taxi: Car) -> int
    decreases route.len() - at,
{
    if at + 1 >= route.len() || !passed(route, at, taxi) {
        at
    } else {
        advance_of(route, at + 1, taxi)
    }
}

/// Whether `c2` is `c` after [`Cabbie::unstick`]: a car that has gone
/// nowhere for half a second starts backing out for a second, with the
/// wheel the other way from last time, and a finished attempt throws the
/// route away.
pub open spec fn unstuck(c: Cabbie, taxi: Car, hz: int, c2: Cabbie) -> bool {
    let h = if hz < 1 { 1 } else { hz };
    if c.backing > 0 {
        if c.backing == 1 {
            &&& c2 == (Cabbie { backing: 0, route: c2.route, planned_for: None, ..c })
            &&& c2.route@.len() == 0
        } else {
            c2 == (Cabbie { backing: (c.backing - 1) as u32, ..c })
        }
    } else {
        let stalled = if octagonal_len(taxi.vx, taxi.vy) < HALF { c.stalled + 1 } else { 0 };
        if stalled > h / 2 {
            c2 == (Cabbie { stalled: 0, backing: h as u32, wriggle: -c.wriggle as i32, ..c })
        } else {
            c2 == (Cabbie { stalled: stalled as u32, ..c })
        }
    }
}

/// What the road asks of the car where it is: which way the lane runs, and
/// how far to the right of the middle of the lane the car is.
#[derive(Clone, Copy, Debug, PartialEq, Eq, Structural)]
pub struct Track {
    pub heading: Ang,
    pub right_of_lane: Fx,
}

/// The value of [`Cabbie::track`], for the street plan's row and column
/// through the car's cell: nothing off the end of the route, where the
/// road has no single axis, or where there is no telling which way along
/// it the car is going.  Otherwise the lane for the way the car is moving
/// (or the route is going, if the car is nearly still) and the car's
/// offset to the right of it.
pub open spec fn track_of(c: Cabbie, row: Strip, col: Strip, taxi: Car) -> Option<Track> {
    let route = c.route@;
    if c.at + 1 >= route.len() || street_axis_of(row, col) is None {
        None
    } else {
        let (rx, ry) = heading_at_of(route, c.at as int);
        let along_x = street_axis_of(row, col)->0;
        let v = if along_x { taxi.vx } else { taxi.vy };
        let dir: int = if vstd::math::abs(v as int) > ONE { if v > 0 { 1 } else { -1 } } else if along_x { rx } else { ry };
        if dir == 0 {
            None
        } else {
            let (cx, cy) = (taxi.x as int / 65536, taxi.y as int / 65536);
            let l = if along_x { lane_of(row, col, cx, cy, dir, 0) } else { lane_of(row, col, cx, cy, 0, dir) };
            let off = if along_x { taxi.y - l.1 } else { taxi.x - l.0 };
            let right = if along_x == (dir > 0) { off } else { -off };
            let heading: Ang = if along_x { if dir > 0 { 0 } else { 32768 } } else { if dir > 0 { 16384 } else { 49152 } };
            Some(Track { heading, right_of_lane: right as i32 })
        }
    }
}

/// Whether `r` is a route the walking network's search can give back from
/// `from` to `to` on the carriageway map `roads`, or the empty route for
/// none: the shortest walk between them, and none at all where either end
/// is not carriageway.
pub open spec fn routed(roads: WalkMap, from: (i32, i32), to: (i32, i32), r: Seq<(i32, i32)>) -> bool {
    &&& !(roads.open_at(from.0 as int, from.1 as int) && roads.open_at(to.0 as int, to.1 as int)) ==> r.len() == 0
    &&& roads.open_at(from.0 as int, from.1 as int) && from == to ==> r == seq![from]
    &&& r.len() > 0 ==> is_walk(roads, r, from, to)
    &&& r.len() > 0 ==> forall|w: Seq<(i32, i32)>| #[trigger] is_walk(roads, w, from, to) ==> r.len() <= w.len()
    &&& r.len() == 0 && ROUTE_BUDGET >= roads.side() * roads.side() ==> forall|w: Seq<(i32, i32)>| !#[trigger] is_walk(roads, w, from, to)
}

/// The cell a point is in.
pub open spec fn cell_at(x: Fx, y: Fx) -> (i32, i32) {
    ((x as int / 65536) as i32, (y as int / 65536) as i32)
}

/// Whether the plan of `c` is stale for a car at `taxi` going to `goal`:
/// made for another marker, or the car is past its end or more than
/// [`OFF_ROUTE`] from the cell it is at.
pub open spec fn stale(c: Cabbie, taxi: Car, goal: (Fx, Fx)) -> bool {
    ||| c.planned_for != Some(goal)
    ||| c.at >= c.route@.len()
    ||| dist_of(taxi.x, taxi.y, centre_of(c.route@[c.at as int]).0 as i32, centre_of(c.route@[c.at as int]).1 as i32) > OFF_ROUTE
}

/// Whether `c2` is `c` after [`Cabbie::replan_if_needed`]: unchanged if
/// the plan is not stale, else a new route from the car's cell to the
/// marker's, followed from its start.
pub open spec fn replanned(roads: WalkMap, c: Cabbie, taxi: Car, goal: (Fx, Fx), c2: Cabbie) -> bool {
    if !stale(c, taxi, goal) {
        c2 == c
    } else {
        &&& c2 == (Cabbie { route: c2.route, at: 0, planned_for: Some(goal), ..c })
        &&& routed(roads, cell_at(taxi.x, taxi.y), cell_at(goal.0, goal.1), c2.route@)
    }
}

/// The cursor only moves forwards, and only as far as the last cell.
pub proof fn lemma_advance_bounds(route: Seq<(i32, i32)>, at: int, taxi: Car)
    ensures
        at <= advance_of(route, at, taxi),
        at + 1 < route.len() ==> advance_of(route, at, taxi) < route.len(),
        at + 1 >= route.len() ==> advance_of(route, at, taxi) == at,
    decreases route.len() - at,
{
    if at + 1 < route.len() && passed(route, at, taxi) {
        lemma_advance_bounds(route, at + 1, taxi);
    }
}

impl Cabbie {
    /// Which way the route is going at cell `i`, over [`BASELINE`] cells
    /// either side, so that the staircase a search makes across a wide
    /// avenue averages out to the direction the street runs.
    pub fn heading_at(&self, i: usize) -> (d: (i32, i32))
        requires
            i < self.route@.len(),
            followable(self.route@),
        ensures
            d.0 == heading_at_of(self.route@, i as int).0,
            d.1 == heading_at_of(self.route@, i as int).1,
    {
        let n = self.route.len();
        let lo = if i >= BASELINE { i - BASELINE } else { 0 };
        let hi = if n - 1 - i > BASELINE { i + BASELINE } else { n - 1 };
        let a = self.route[lo];
        let b = self.route[hi];
        proof {
            assert(0 <= a.0 < 4096 && 0 <= a.1 < 4096);
            assert(0 <= b.0 < 4096 && 0 <= b.1 < 4096);
        }
        (b.0 - a.0, b.1 - a.1)
    }

    /// Step the cursor past every waypoint the car has already gone by,
    /// measured along the route's own direction: it only ever moves
    /// forwards, one cell at a time.
    pub fn advance(&mut self, taxi: &Car)
        requires
            old(self).wf(),
            trackable(*taxi),
        ensures
            *final(self) == (Cabbie { at: advance_of(old(self).route@, old(self).at as int, *taxi) as usize, ..*old(self) }),
            final(self).wf(),
    {
        let ghost at0 = self.at as int;
        proof {
            lemma_advance_bounds(self.route@, at0, *taxi);
        }
        while self.at + 1 < self.route.len()
            invariant
                self.wf(),
                trackable(*taxi),
                *self == (Cabbie { at: self.at, ..*old(self) }),
                at0 <= self.at,
                at0 == old(self).at,
                advance_of(self.route@, self.at as int, *taxi) == advance_of(self.route@, at0, *taxi),
            decreases self.route@.len() - self.at,
        {
            let k = self.at;
            let (c0, c1) = (self.route[k], self.route[k + 1]);
            proof {
                assert(0 <= c0.0 < 4096 && 0 <= c0.1 < 4096);
                assert(0 <= c1.0 < 4096 && 0 <= c1.1 < 4096);
                assert(crate::walk::adjacent(self.route@[k as int], self.route@[k + 1]));
            }
            let (wx, wy) = road::centre(c0.0, c0.1);
            let (nx, ny) = road::centre(c1.0, c1.1);
            let (dx, dy) = (nx - wx, ny - wy);
            let (px, py) = (taxi.x - wx, taxi.y - wy);
            proof {
                assert(dx == 0 || dx == 65536 || dx == -65536);
                assert(dy == 0 || dy == 65536 || dy == -65536);
                fixed::lemma_mul_bound(px, dx, 0x2000_0000, 65536);
                fixed::lemma_mul_bound(py, dy, 0x2000_0000, 65536);
            }
            if fixed::mul(px, dx) + fixed::mul(py, dy) <= 0 {
                return;
            }
            self.at = self.at + 1;
        }
    }

    /// Notice a car that is not going anywhere and back it out: half a
    /// second at under half a cell a second starts a second of reversing
    /// with the wheel over, alternating sides, and the end of an attempt
    /// throws the route away.
    pub fn unstick(&mut self, taxi: &Car, hz: i32)
        requires
            old(self).wf(),
            trackable(*taxi),
        ensures
            unstuck(*old(self), *taxi, hz as int, *final(self)),
            final(self).wf(),
    {
        let h: u32 = if hz < 1 { 1 } else { hz as u32 };
        if self.backing > 0 {
            self.backing = self.backing - 1;
            if self.backing == 0 {
                self.route.clear();
                self.planned_for = None;
            }
            return;
        }
        if taxi.speed() < HALF {
            self.stalled = self.stalled + 1;
        } else {
            self.stalled = 0;
        }
        if self.stalled > h / 2 {
            self.stalled = 0;
            self.backing = h;
            self.wriggle = -self.wriggle;
        }
    }
}

/// The controls to sit still with: a touch of brake.
pub open spec fn idle() -> Controls {
    Controls { throttle: -16384i32, steer: 0, handbrake: false }
}

/// Whether a car at `taxi` is inside the circle round `goal` that a fare
/// is handed over in.
pub open spec fn in_circle(taxi: Car, goal: (Fx, Fx)) -> bool {
    vstd::math::abs(goal.0 - taxi.x) < STOP_RADIUS && vstd::math::abs(goal.1 - taxi.y) < STOP_RADIUS
}

/// Whether `(c2, ctl)` is what the cabbie `u` does on the road: steer to
/// hold the lane while there is a lane and the marker is at least
/// [`APPROACH`] away, else at the marker itself; go at the slower of the
/// corner's speed and the approach ramp's; and slide the tightest corners
/// at speed.
pub open spec fn steered(u: Cabbie, row: Strip, col: Strip, taxi: Car, goal: (Fx, Fx), c2: Cabbie, ctl: Controls) -> bool {
    let vf = forward_of(taxi);
    let to_goal = dist_of(taxi.x, taxi.y, goal.0, goal.1);
    let speed = octagonal_len(taxi.vx, taxi.vy);
    let (err, steer, latch) = aim_of(u, row, col, taxi, goal);
    let cs = corner_speed_of(err);
    let ap = approach_speed_of(to_goal as i32);
    let want = if cs < ap { cs } else { ap };
    &&& c2 == (Cabbie { committed: latch as i32, ..u })
    &&& ctl == (Controls {
        throttle: pace_of(vf as i32, speed as i32, want as i32) as i32,
        steer: steer as i32,
        handbrake: vstd::math::abs(err) > HARD && vf > CRUISE_MAX,
    })
}

/// The bearing error the cabbie `u` steers by, the wheel angle, and the
/// latch after: against the lane while there is a lane and the marker is
/// at least [`APPROACH`] away, else against the bearing to the marker.
pub open spec fn aim_of(u: Cabbie, row: Strip, col: Strip, taxi: Car, goal: (Fx, Fx)) -> (int, int, int) {
    let to_goal = dist_of(taxi.x, taxi.y, goal.0, goal.1);
    let speed = octagonal_len(taxi.vx, taxi.vy);
    let t = track_of(u, row, col, taxi);
    if t is Some && to_goal >= APPROACH {
        let err = trig::signed_of(((t->0.heading + 65536 - taxi.yaw) % 65536) as u16);
        let (steer, latch) = hold_lane_of(u.committed as int, err, t->0.right_of_lane, speed as i32);
        (err, steer, latch)
    } else {
        let err = bearing_error_of(taxi, goal.0, goal.1);
        let (steer, latch) = steer_of(u.committed as int, err, to_goal as i32);
        (err, steer, latch)
    }
}

/// Whether `(c2, ctl)` is what the rest of [`Cabbie::drive`] makes of `c`,
/// its plan settled and its cursor moved up, for a car at `taxi` going to
/// `goal` at `hz`, the street plan's row and column through the car's cell
/// being `row` and `col`.
///
/// Inside the circle: brake if rolling, wheel straight, handbrake if still
/// over the handover speed, and the latch released.  Backing out of a
/// wedge: full reverse with the wheel over.  Otherwise steer to hold the
/// lane while there is a lane and the marker is at least [`APPROACH`]
/// away, else at the marker itself; go at the slower of the corner's speed
/// and the approach ramp's; and slide the tightest corners at speed.
#[verifier::opaque]
pub open spec fn drive_rest(c: Cabbie, row: Strip, col: Strip, taxi: Car, goal: (Fx, Fx), hz: int, c2: Cabbie, ctl: Controls) -> bool {
    let vf = forward_of(taxi);
    let to_goal = dist_of(taxi.x, taxi.y, goal.0, goal.1);
    let speed = octagonal_len(taxi.vx, taxi.vy);
    if in_circle(taxi, goal) {
        &&& c2 == (Cabbie { committed: 0, ..c })
        &&& ctl == (Controls { throttle: if vf > ROLLING { -65536i32 } else { 0i32 }, steer: 0, handbrake: speed > STOP_SPEED })
    } else {
        exists|u: Cabbie| #[trigger] unstuck(c, taxi, hz, u) && {
            if u.backing > 0 {
                &&& c2 == u
                &&& ctl == (Controls { throttle: -65536i32, steer: (u.wriggle * 65536) as i32, handbrake: false })
            } else {
                steered(u, row, col, taxi, goal, c2, ctl)
            }
        }
    }
}

/// Whether `(c2, ctl)` is what [`Cabbie::drive`] makes of `c` this tick.
/// With nothing to drive to, it drops the plan and sits still.  Otherwise
/// it plans again if the plan is stale (into `planned`), moves its cursor
/// up the route, and does the rest.
pub open spec fn drove(roads: WalkMap, c: Cabbie, row: Strip, col: Strip, taxi: Car, target: Option<(Fx, Fx)>, hz: int, c2: Cabbie, ctl: Controls) -> bool {
    match target {
        None => {
            &&& c2 == (Cabbie { route: c2.route, planned_for: None, ..c })
            &&& c2.route@.len() == 0
            &&& ctl == idle()
        },
        Some(goal) => exists|planned: Cabbie| #[trigger] replanned(roads, c, taxi, goal, planned) && drive_rest(
            Cabbie { at: advance_of(planned.route@, planned.at as int, taxi) as usize, ..planned },
            row, col, taxi, goal, hz, c2, ctl,
        ),
    }
}

/// Whether a marker is where the cabbie's arithmetic can follow it.
pub open spec fn reachable(goal: (Fx, Fx)) -> bool {
    &&& -0x1000_0000 <= goal.0 <= 0x2000_0000
    &&& -0x1000_0000 <= goal.1 <= 0x2000_0000
}

impl Cabbie {
    /// Where the road wants the car to be, at its place on the route, given
    /// the street plan's row and column through the car's cell.
    pub fn track(&self, row: &Strip, col: &Strip, taxi: &Car) -> (t: Option<Track>)
        requires
            self.wf(),
            trackable(*taxi),
        ensures
            t == track_of(*self, *row, *col, *taxi),
    {
        if self.at + 1 >= self.route.len() {
            return None;
        }
        let (rx, ry) = self.heading_at(self.at);
        let along_x = match road::street_axis(row, col) {
            Some(a) => a,
            None => return None,
        };
        let (cx, cy) = (fixed::floor(taxi.x), fixed::floor(taxi.y));
        let v = if along_x { taxi.vx } else { taxi.vy };
        let av = if v < 0 { -v } else { v };
        let dir: i32 = if av > ONE {
            if v > 0 { 1 } else { -1 }
        } else if along_x {
            rx
        } else {
            ry
        };
        if dir == 0 {
            return None;
        }
        proof {
            assert(-4096 < rx < 4096 && -4096 < ry < 4096) by {
                let a = self.route@[if self.at >= BASELINE { self.at - BASELINE } else { 0 }];
                let b = self.route@[if self.at + BASELINE < self.route@.len() - 1 { self.at + BASELINE } else { self.route@.len() - 1 }];
                assert(0 <= a.0 < 4096 && 0 <= a.1 < 4096);
                assert(0 <= b.0 < 4096 && 0 <= b.1 < 4096);
            }
        }
        let (lx, ly) = road::lane(row, col, cx, cy, if along_x { (dir, 0) } else { (0, dir) });
        proof {
            let l = if along_x { lane_of(*row, *col, cx as int, cy as int, dir as int, 0) } else { lane_of(*row, *col, cx as int, cy as int, 0, dir as int) };
            assert(-0x1000_0000 - 0x0200_0000 <= l.0 <= 0x2000_0000 + 0x0200_0000);
            assert(-0x1000_0000 - 0x0200_0000 <= l.1 <= 0x2000_0000 + 0x0200_0000);
        }
        let off = if along_x { taxi.y - ly } else { taxi.x - lx };
        let right_of_lane = if along_x == (dir > 0) { off } else { -off };
        let heading: Ang = if along_x {
            if dir > 0 { 0 } else { trig::HALF }
        } else {
            if dir > 0 { trig::QUARTER } else { trig::HALF + trig::QUARTER }
        };
        Some(Track { heading, right_of_lane })
    }

    /// Plan again if there is no plan, if the fare changed, or if the car
    /// is no longer anywhere near the plan it has: a breadth-first route
    /// over the carriageway map `roads` from the car's cell to the
    /// marker's.
    pub fn replan_if_needed(&mut self, roads: &WalkMap, taxi: &Car, goal: (Fx, Fx))
        requires
            old(self).wf(),
            trackable(*taxi),
            reachable(goal),
            roads.side() <= 4096,
        ensures
            replanned(*roads, *old(self), *taxi, goal, *final(self)),
            final(self).wf(),
    {
        let changed = match self.planned_for {
            Some(p) => p.0 != goal.0 || p.1 != goal.1,
            None => true,
        };
        let strayed = if self.at < self.route.len() {
            let (cx, cy) = self.route[self.at];
            proof {
                assert(0 <= cx < 4096 && 0 <= cy < 4096);
            }
            let (wx, wy) = road::centre(cx, cy);
            dist(taxi.x, taxi.y, wx, wy) > OFF_ROUTE
        } else {
            true
        };
        if !changed && !strayed {
            return;
        }
        let from = (fixed::floor(taxi.x), fixed::floor(taxi.y));
        let to = (fixed::floor(goal.0), fixed::floor(goal.1));
        let found = roads.route(from, to, ROUTE_BUDGET);
        self.route = match found {
            Some(r) => r,
            None => Vec::new(),
        };
        self.at = 0;
        self.planned_for = Some(goal);
        proof {
            assert forall|k: int| 0 <= k < self.route@.len() implies 0 <= #[trigger] self.route@[k].0 < 4096 && 0 <= self.route@[k].1 < 4096 by {
                assert(roads.open_at(self.route@[k].0 as int, self.route@[k].1 as int));
            }
        }
    }

    /// What the driver does this tick, with the carriageway map `roads`
    /// to plan on, the street plan's row and column through the car's cell,
    /// the car, and the marker to drive to if there is a fare.
    pub fn drive(&mut self, roads: &WalkMap, row: &Strip, col: &Strip, taxi: &Car, target: Option<(Fx, Fx)>, hz: i32) -> (ctl: Controls)
        requires
            old(self).wf(),
            trackable(*taxi),
            target matches Some(g) ==> reachable(g),
            roads.side() <= 4096,
            octagonal_len(taxi.vx, taxi.vy) <= i32::MAX - ONE,
        ensures
            drove(*roads, *old(self), *row, *col, *taxi, target, hz as int, *final(self), ctl),
            final(self).wf(),
    {
        let goal = match target {
            None => {
                self.route.clear();
                self.planned_for = None;
                return Controls { throttle: -ONE / 4, steer: 0, handbrake: false };
            },
            Some(g) => g,
        };
        self.replan_if_needed(roads, taxi, goal);
        let ghost planned = *self;
        self.advance(taxi);
        let ghost advanced = *self;
        let vf = forward(taxi);
        let to_goal = dist(taxi.x, taxi.y, goal.0, goal.1);
        let speed = taxi.speed();
        if fixed::abs(goal.0 - taxi.x) < STOP_RADIUS && fixed::abs(goal.1 - taxi.y) < STOP_RADIUS {
            self.committed = 0;
            let ctl = Controls {
                throttle: if vf > ROLLING { -ONE } else { 0 },
                steer: 0,
                handbrake: speed > STOP_SPEED,
            };
            proof {
                assert(drive_rest(advanced, *row, *col, *taxi, goal, hz as int, *self, ctl)) by {
                    reveal(drive_rest);
                }
                assert(replanned(*roads, *old(self), *taxi, goal, planned));
            }
            return ctl;
        }
        self.unstick(taxi, hz);
        let ghost u = *self;
        if self.backing > 0 {
            let ctl = Controls { throttle: -ONE, steer: fixed::from_int(self.wriggle), handbrake: false };
            proof {
                assert(unstuck(advanced, *taxi, hz as int, u));
                assert(drive_rest(advanced, *row, *col, *taxi, goal, hz as int, *self, ctl)) by {
                    reveal(drive_rest);
                }
                assert(replanned(*roads, *old(self), *taxi, goal, planned));
            }
            return ctl;
        }
        let ctl = self.steer_on(row, col, taxi, goal);
        proof {
            assert(unstuck(advanced, *taxi, hz as int, u));
            assert(drive_rest(advanced, *row, *col, *taxi, goal, hz as int, *self, ctl)) by {
                reveal(drive_rest);
            }
            assert(replanned(*roads, *old(self), *taxi, goal, planned));
        }
        ctl
    }

    /// The bearing error to steer by, and the wheel angle for it.
    #[verifier::rlimit(60)]
    #[verifier::spinoff_prover]
    fn aim(&mut self, row: &Strip, col: &Strip, taxi: &Car, goal: (Fx, Fx), to_goal: Fx, speed: Fx) -> (r: (i32, Fx))
        requires
            old(self).wf(),
            trackable(*taxi),
            reachable(goal),
            to_goal == dist_of(taxi.x, taxi.y, goal.0, goal.1),
            speed == octagonal_len(taxi.vx, taxi.vy),
            0 <= speed <= i32::MAX - ONE,
        ensures
            (r.0 as int, r.1 as int, final(self).committed as int) == aim_of(*old(self), *row, *col, *taxi, goal),
            *final(self) == (Cabbie { committed: final(self).committed, ..*old(self) }),
            final(self).wf(),
            -32768 <= r.0 <= 32767,
            lane_aim_ok(*old(self), *row, *col, *taxi, goal, r.0 as int, r.1 as int),
    {
        proof {
            lemma_aim_turns_back(*old(self), *row, *col, *taxi, goal);
        }
        let t = self.track(row, col, taxi);
        match t {
            Some(tr) => {
                if to_goal >= APPROACH {
                    let d = tr.heading.wrapping_sub(taxi.yaw);
                    proof {
                        trig::lemma_signed(d);
                    }
                    let psi = d as i16 as i32;
                    (psi, self.hold_lane(psi, tr.right_of_lane, speed))
                } else {
                    let e = bearing_error(taxi, goal.0, goal.1);
                    (e, self.steer_for(e, to_goal))
                }
            },
            None => {
                let e = bearing_error(taxi, goal.0, goal.1);
                (e, self.steer_for(e, to_goal))
            },
        }
    }

    /// On the road: steer and pace for the lane or the marker.
    fn steer_on(&mut self, row: &Strip, col: &Strip, taxi: &Car, goal: (Fx, Fx)) -> (ctl: Controls)
        requires
            old(self).wf(),
            trackable(*taxi),
            reachable(goal),
            octagonal_len(taxi.vx, taxi.vy) <= i32::MAX - ONE,
        ensures
            steered(*old(self), *row, *col, *taxi, goal, *final(self), ctl),
            final(self).wf(),
    {
        let vf = forward(taxi);
        let to_goal = dist(taxi.x, taxi.y, goal.0, goal.1);
        let speed = taxi.speed();
        let (err, steer) = self.aim(row, col, taxi, goal, to_goal, speed);
        let cs = corner_speed(err);
        let ap = approach_speed(to_goal);
        let want = if cs < ap { cs } else { ap };
        let aerr = if err < 0 { -err } else { err };
        Controls {
            throttle: pace(vf, speed, want),
            steer,
            handbrake: aerr > HARD && vf > CRUISE_MAX,
        }
    }
}

/// The wheel never goes past full lock: whatever the latch and the error,
/// the angle [`Cabbie::steer_for`] asks for is within one each way, and so
/// is the one [`Cabbie::hold_lane`] asks for.
pub proof fn lemma_the_wheel_stays_within_full_lock(committed: int, err: int, range: Fx, right_of_lane: Fx, speed: Fx)
    requires
        -1 <= committed <= 1,
        -32768 <= err <= 32767,
        0 <= speed,
    ensures
        -ONE <= steer_of(committed, err, range).0 <= ONE,
        -1 <= steer_of(committed, err, range).1 <= 1,
        -ONE <= hold_lane_of(committed, err, right_of_lane, speed).0 <= ONE,
        -1 <= hold_lane_of(committed, err, right_of_lane, speed).1 <= 1,
{
    let e = vstd::math::abs(err) as int;
    if e < COMMIT {
        let c = if e < RELEASE { 0 } else { committed };
        if c != 0 {
            let t = fixed::div_of(e * 65536, COMMIT * 65536) as int;
            assert(0 <= (e * 65536 * 65536) / (24000int * 65536) <= 65536) by (nonlinear_arith)
                requires 0 <= e < 24000;
            assert(t == (e * 65536 * 65536) / (24000int * 65536));
            assert((65536 * t) / 65536 == t) by (nonlinear_arith);
            assert((-65536 * t) / 65536 == -t) by (nonlinear_arith);
        }
    }
    if vstd::math::abs(err) >= COMMIT {
        assert(steer_of(committed, err, CRUISE_MAX).0 == (if committed == 0 { if err >= 0 { 1int } else { -1int } } else { committed }) * 65536);
    }
}

/// Inside the circle the cab stops and stays stopped: whatever else, a
/// tick with the car inside [`STOP_RADIUS`] of the marker has the wheel
/// straight, no throttle, and the latch released.
pub proof fn lemma_in_the_circle_it_stops(roads: WalkMap, c: Cabbie, row: Strip, col: Strip, taxi: Car, goal: (Fx, Fx), hz: int, c2: Cabbie, ctl: Controls)
    requires
        drove(roads, c, row, col, taxi, Some(goal), hz, c2, ctl),
        in_circle(taxi, goal),
    ensures
        ctl.steer == 0,
        ctl.throttle <= 0,
        c2.committed == 0,
{
    reveal(drive_rest);
}

/// The cab never reverses to slow down: [`pace`] only asks for a negative
/// throttle, which on a car that is not rolling forwards means reverse,
/// when the car is rolling forwards faster than [`ROLLING`].
pub proof fn lemma_it_never_reverses_to_slow_down(vf: Fx, speed: Fx, want: Fx)
    ensures
        pace_of(vf, speed, want) < 0 ==> vf > ROLLING,
        pace_of(vf, speed, want) > 0 ==> vf < want,
{
}

/// Whatever the cab does in a tick, the wheel is within full lock.
pub proof fn lemma_the_cab_never_steers_past_full_lock(roads: WalkMap, c: Cabbie, row: Strip, col: Strip, taxi: Car, target: Option<(Fx, Fx)>, hz: int, c2: Cabbie, ctl: Controls)
    requires
        c.wf(),
        trackable(taxi),
        drove(roads, c, row, col, taxi, target, hz, c2, ctl),
    ensures
        -ONE <= ctl.steer <= ONE,
{
    reveal(drive_rest);
    if let Some(goal) = target {
        let planned = choose|planned: Cabbie| #[trigger] replanned(roads, c, taxi, goal, planned) && drive_rest(
            Cabbie { at: advance_of(planned.route@, planned.at as int, taxi) as usize, ..planned },
            row, col, taxi, goal, hz, c2, ctl,
        );
        let a = Cabbie { at: advance_of(planned.route@, planned.at as int, taxi) as usize, ..planned };
        if !in_circle(taxi, goal) {
            let u = choose|u: Cabbie| #[trigger] unstuck(a, taxi, hz, u) && (if u.backing > 0 {
                &&& c2 == u
                &&& ctl == (Controls { throttle: -65536i32, steer: (u.wriggle * 65536) as i32, handbrake: false })
            } else {
                steered(u, row, col, taxi, goal, c2, ctl)
            });
            if u.backing == 0 {
                let to_goal = dist_of(taxi.x, taxi.y, goal.0, goal.1);
                let speed = octagonal_len(taxi.vx, taxi.vy);
                let t = track_of(u, row, col, taxi);
                if t is Some && to_goal >= APPROACH {
                    let err = trig::signed_of(((t->0.heading + 65536 - taxi.yaw) % 65536) as u16);
                    lemma_the_wheel_stays_within_full_lock(u.committed as int, err, CRUISE_MAX, t->0.right_of_lane, speed as i32);
                } else {
                    let err = bearing_error_of(taxi, goal.0, goal.1);
                    lemma_the_wheel_stays_within_full_lock(u.committed as int, err, to_goal as i32, 0, 0);
                }
            }
        }
    }
}

} // verus!
