//! Arcade car physics.
//!
//! Not a simulation: no tyres, no weight transfer, no suspension.  The car
//! wants to go forwards like a boat - velocity is split into a component
//! along the nose and one across it, and the sideways one bleeds away every
//! tick, which is the whole handling model.  Turning the wheel turns the
//! heading, not the velocity, so momentum carries on for a few ticks and
//! the gap is the drift.  Grip is let go only near the top of the speed
//! range, the wheel's authority falls away as `1 / speed` past a reference
//! speed, and walls are rigid: a wall stops the car, costs it paint, and
//! turns it to run along itself.
//!
//! The world enters only as a question - is this cell open? - which the
//! caller answers.
use vstd::prelude::*;
use crate::fixed::{self, Fx, ONE, HALF, fx_mul, fx_div, fx_floor, clamp_of, lerp_of, from_int_of};
use crate::trig::{self, Ang, sin_of, cos_of};

verus! {

/// Ticks per second the physics is written for.  The step function takes
/// the real rate and scales.
pub const HZ: i32 = 60;

/// Engine force, in units per second per second: ten.
pub const ACCEL: Fx = 655360;
/// The speed at which the engine has nothing left to give: eight and three
/// quarters units per second.
pub const ENGINE_CEILING: Fx = 573440;
/// The speed by which the engine is pulling with everything it has: three.
pub const LAUNCH: Fx = 196608;
/// What fraction of its force the engine has at a standstill: a third.
pub const LAUNCH_BITE: Fx = 21845;
/// Braking, stronger than the engine: forty-four.
pub const BRAKE: Fx = 2883584;
/// Reverse, weak: nine.
pub const REVERSE: Fx = 589824;
/// Rolling drag, as a per-second fraction of speed retained: `0.88`.
pub const DRAG: Fx = 57671;
/// Air drag, per second per unit of speed squared: `0.19`.
pub const DRAG_AIR: Fx = 12451;
/// The base top speed: seven units per second.
pub const VMAX: Fx = 458752;
/// Fraction of the sideways slide kept per tick at low speed: `0.72`.
pub const GRIP_LOW_SPEED: Fx = 47185;
/// ...and flat out: `0.95`.
pub const GRIP_HIGH_SPEED: Fx = 62259;
/// ...and with the handbrake on, at any speed: `0.995`.
pub const GRIP_HANDBRAKE: Fx = 65208;
/// How late in the speed range grip is let go: the power of the speed
/// fraction that blends the two grips.
pub const GRIP_CURVE: u32 = 3;
/// Angle units of yaw per second at full lock and the reference speed.
pub const TURN_RATE: i32 = 24_000;
/// How far down the throttle has to be to count as held: three quarters.
pub const PIN_DOWN: Fx = 49152;
/// Ticks of held throttle per step of wind-up, at [`HZ`].
pub const PIN_STEP: u32 = 60;
/// Steps of wind-up.
pub const PIN_STEPS: u32 = 3;
/// The top speed's multiple at full wind-up: three.
pub const PIN_MAX: Fx = 196608;
/// The multiple with a coin in the tank: four.
pub const PIN_BOOST: Fx = 262144;
/// The shove each wind-up step gives, in units per second: two thirds.
pub const SURGE: Fx = 43690;
/// How far over the wheel has to be to count as held: three quarters.
pub const WIND_LOCK: Fx = 49152;
/// Ticks of held lock before the wheel winds on, at [`HZ`].
pub const WIND_AFTER: u32 = 60;
/// Ticks the wind-on takes, at [`HZ`].
pub const WIND_OVER: u32 = 60;
/// How much more the wheel gives when wound on: a quarter.
pub const WIND_MAX: Fx = 16384;
/// The speed at which the wheel has its full authority: one and a half.
pub const TURN_REF: Fx = 98304;
/// What of the speed into a wall comes back out of it: `-0.05`.
pub const WALL_BOUNCE: Fx = -3276;
/// How fast a wall turns the car to run along it, in angle units a second.
pub const WALL_ALIGN: i32 = 13_000;
/// Paint lost per unit of speed into a wall.
pub const WALL_DAMAGE: i32 = 9;
/// How close two cars' noses may come, as a fraction of their reach.
pub const CONTACT: Fx = 49152;
/// The gap a collision leaves between two cars: an eighth.
pub const BOUNCE: Fx = 8192;

/// The driver's inputs for one tick.
#[derive(Clone, Copy, Debug)]
pub struct Controls {
    /// -1 full reverse or brake, +1 full throttle.
    pub throttle: Fx,
    /// -1 full left, +1 full right.
    pub steer: Fx,
    /// Handbrake held.
    pub handbrake: bool,
}

impl Default for Controls {
    /// Nothing pressed.
    fn default() -> (c: Controls)
        ensures
            c == (Controls { throttle: 0, steer: 0, handbrake: false }),
    {
        Controls { throttle: 0, steer: 0, handbrake: false }
    }
}

/// What sort of vehicle, which decides its mass and its size.
#[derive(Clone, Copy, Debug, PartialEq, Eq, Structural)]
pub enum CarKind {
    /// The player's cab.
    Taxi,
    /// Everybody else.
    Traffic,
    /// A bus.
    Bus,
}

/// The mass of a kind of vehicle.
pub open spec fn mass_of(k: CarKind) -> i32 {
    match k {
        CarKind::Taxi => 10,
        CarKind::Traffic => 9,
        CarKind::Bus => 40,
    }
}

/// The mass a kind of vehicle hits with: the cab and the bus hit three
/// times harder than they weigh.
pub open spec fn impact_mass_of(k: CarKind) -> i32 {
    match k {
        CarKind::Taxi => 30,
        CarKind::Bus => 120,
        CarKind::Traffic => 9,
    }
}

/// Half the length of a kind of vehicle, nose to middle.
pub open spec fn half_len_of(k: CarKind) -> Fx {
    match k {
        CarKind::Bus => 73728,
        CarKind::Taxi => 65536,
        CarKind::Traffic => 52428,
    }
}

/// Length, width and height of a kind of vehicle.
pub open spec fn hull_of(k: CarKind) -> (Fx, Fx, Fx) {
    match k {
        CarKind::Bus => (147456, 65536, 88473),
        CarKind::Taxi => (131072, 78643, 58982),
        CarKind::Traffic => (104857, 65536, 85196),
    }
}

impl CarKind {
    /// Mass, in arbitrary units.
    pub fn mass(self) -> (m: i32)
        ensures
            m == mass_of(self),
    {
        match self {
            CarKind::Taxi => 10,
            CarKind::Traffic => 9,
            CarKind::Bus => 40,
        }
    }

    /// The mass it hits with: the cab and the bus shove three times their
    /// weight, so a taxi scatters traffic and barely moves a bus.
    pub fn impact_mass(self) -> (m: i32)
        ensures
            m == impact_mass_of(self),
    {
        match self {
            CarKind::Taxi => self.mass() * 3,
            CarKind::Bus => self.mass() * 3,
            CarKind::Traffic => self.mass(),
        }
    }

    /// Half the length, nose to middle.
    pub fn half_len(self) -> (h: Fx)
        ensures
            h == half_len_of(self),
    {
        match self {
            CarKind::Bus => 73728,
            CarKind::Taxi => 65536,
            CarKind::Traffic => 52428,
        }
    }

    /// Length, width and height of the card it is drawn on.
    pub fn hull(self) -> (h: (Fx, Fx, Fx))
        ensures
            h == hull_of(self),
    {
        match self {
            CarKind::Bus => (147456, 65536, 88473),
            CarKind::Taxi => (131072, 78643, 58982),
            CarKind::Traffic => (104857, 65536, 85196),
        }
    }

    /// Width and height of the card it is drawn on.
    pub fn body(self) -> (b: (Fx, Fx))
        ensures
            b == (hull_of(self).1, hull_of(self).2),
    {
        let (_, w, h) = self.hull();
        (w, h)
    }
}

/// One vehicle.
#[derive(Clone, Copy, Debug)]
pub struct Car {
    /// Position.
    pub x: Fx,
    /// Position.
    pub y: Fx,
    /// Velocity, in units per second.
    pub vx: Fx,
    /// Velocity, in units per second.
    pub vy: Fx,
    /// Where the nose points.
    pub yaw: Ang,
    /// Yaw rate, in angle units per tick.
    pub spin: i32,
    /// Paint lost, saturating.
    pub damage: u8,
    /// Body colour.
    pub hue: u8,
    /// What sort of vehicle.
    pub kind: CarKind,
    /// The wind-up step the car has reached.
    pub stepped: u32,
    /// Ticks the throttle has been held down.
    pub pinned: u32,
    /// Ticks the wheel has been held at lock.
    pub wound: u32,
    /// Ticks of coin boost left.
    pub boost: u32,
}

/// The octagonal norm of a vector, with integer three-eighths: within six
/// per cent of its length.
pub open spec fn octagonal_len(x: Fx, y: Fx) -> int {
    let (a, b) = (vstd::math::abs(x as int) as int, vstd::math::abs(y as int) as int);
    let (hi, lo) = if a > b { (a, b) } else { (b, a) };
    hi + lo * 3 / 8
}

/// Whether a vector is short enough for its octagonal norm to be worked
/// out in 32 bits: within a quarter of the number range.
pub open spec fn short(x: Fx, y: Fx) -> bool {
    &&& -0x2000_0000 < x < 0x2000_0000
    &&& -0x2000_0000 < y < 0x2000_0000
}

/// The value of [`Car::turn_rate`].
pub open spec fn turn_rate_of(spin: i32, hz: i32) -> Fx {
    let h = if hz > 1 { hz } else { 1 };
    let per_s = clamp_of(spin * h, -32_767, 32_767);
    fx_div(from_int_of(per_s), from_int_of(TURN_RATE as int))
}

/// The value of [`Car::forward`].
pub open spec fn forward_of(c: Car) -> int {
    fx_mul(c.vx, cos_of(c.yaw)) + fx_mul(c.vy, sin_of(c.yaw))
}

/// The value of [`Car::slip`].
pub open spec fn slip_of(c: Car) -> Fx {
    let s = octagonal_len(c.vx, c.vy);
    if s < 32768 {
        0
    } else {
        let (fx, fy) = (cos_of(c.yaw), sin_of(c.yaw));
        let lat = vstd::math::abs(fx_mul(c.vx, (-fy) as i32) + fx_mul(c.vy, fx)) as int;
        let q = fx_div(lat as i32, s as i32);
        if q < ONE { q } else { ONE }
    }
}

impl Car {
    /// A car at rest.
    pub fn new(kind: CarKind, x: Fx, y: Fx, yaw: Ang, hue: u8) -> (c: Car)
        ensures
            c == (Car { x, y, vx: 0, vy: 0, yaw, spin: 0, damage: 0, hue, kind, pinned: 0, stepped: 0, wound: 0, boost: 0 }),
    {
        Car { x, y, vx: 0, vy: 0, yaw, spin: 0, damage: 0, hue, kind, pinned: 0, stepped: 0, wound: 0, boost: 0 }
    }

    /// Speed, by the octagonal norm.
    pub fn speed(&self) -> (s: Fx)
        requires
            short(self.vx, self.vy),
        ensures
            s == octagonal_len(self.vx, self.vy),
    {
        let (a, b) = (fixed::abs(self.vx), fixed::abs(self.vy));
        let (hi, lo) = if a > b { (a, b) } else { (b, a) };
        hi + (lo * 3 / 8)
    }

    /// Yaw rate as a fraction of the full rate, for the renderer.
    pub fn turn_rate(&self, hz: i32) -> (r: Fx)
        ensures
            r == turn_rate_of(self.spin, hz),
    {
        let h = if hz > 1 { hz } else { 1 };
        proof {
            assert(-0x8000_0000 * 0x7fff_ffff <= self.spin as int * h as int <= 0x7fff_ffff * 0x7fff_ffff) by (nonlinear_arith)
                requires
                    -0x8000_0000 <= self.spin <= 0x7fff_ffff,
                    1 <= h <= 0x7fff_ffff,
            ;
        }
        let p = self.spin as i64 * h as i64;
        let per_s = (if p < -32_767 { -32_767 } else if p > 32_767 { 32_767 } else { p }) as i32;
        fixed::div(fixed::from_int(per_s), fixed::from_int(TURN_RATE))
    }

    /// Speed along the nose, signed: positive going forwards.
    pub fn forward(&self) -> (f: Fx)
        requires
            short(self.vx, self.vy),
        ensures
            f == forward_of(*self),
    {
        proof {
            trig::lemma_table_bounds(self.yaw);
            fixed::lemma_mul_bound(self.vx, cos_of(self.yaw), 0x2000_0000, 65536);
            fixed::lemma_mul_bound(self.vy, sin_of(self.yaw), 0x2000_0000, 65536);
        }
        let (fx, fy) = (trig::cos(self.yaw), trig::sin(self.yaw));
        fixed::mul(self.vx, fx) + fixed::mul(self.vy, fy)
    }

    /// How much of the car's motion is sideways, from 0 to 1.  Nothing
    /// below walking pace, where the direction of travel is noise.
    pub fn slip(&self) -> (s: Fx)
        requires
            short(self.vx, self.vy),
        ensures
            s == slip_of(*self),
    {
        let s = self.speed();
        if s < 32768 {
            return 0;
        }
        proof {
            trig::lemma_table_bounds(self.yaw);
            fixed::lemma_mul_bound(self.vx, (-sin_of(self.yaw)) as i32, 0x2000_0000, 65536);
            fixed::lemma_mul_bound(self.vy, cos_of(self.yaw), 0x2000_0000, 65536);
        }
        let (fx, fy) = (trig::cos(self.yaw), trig::sin(self.yaw));
        let lat = fixed::abs(fixed::mul(self.vx, -fy) + fixed::mul(self.vy, fx));
        let q = fixed::div(lat, s);
        if q < ONE { q } else { ONE }
    }
}

/// Whether a car and its controls are in the range [`Car::step`] is
/// written for: inputs from full reverse to full throttle and full left
/// to full right, a speed of at most two hundred and fifty cells a second,
/// a yaw rate well short of the number range, a position within a quarter
/// of the number range, and a tick rate a fixed-point number can hold.
pub open spec fn step_fits(car: Car, c: Controls, hz: i32) -> bool {
    &&& -ONE <= c.throttle <= ONE
    &&& -ONE <= c.steer <= ONE
    &&& -0x0100_0000 <= car.vx <= 0x0100_0000
    &&& -0x0100_0000 <= car.vy <= 0x0100_0000
    &&& -0x1000_0000 <= car.spin <= 0x1000_0000
    &&& -0x4000_0000 <= car.x <= 0x4000_0000
    &&& -0x4000_0000 <= car.y <= 0x4000_0000
    &&& hz < 32768
}

/// The tick rate the physics runs at: never below one.
pub open spec fn tick_rate(hz: i32) -> int {
    if hz > 1 { hz as int } else { 1 }
}

/// A tick at `h` ticks a second, as a fraction of a second.
pub open spec fn tick_of(h: int) -> Fx {
    fx_div(ONE, from_int_of(h))
}

/// The wind-up after one tick at `h` ticks a second: boost ticks left,
/// ticks of held throttle, the step reached, whether that step is new
/// (which shoves the car), and the multiple of the top speed.
pub open spec fn wind_up_of(car: Car, c: Controls, h: int) -> (u32, u32, u32, bool, Fx) {
    let boosting = car.boost > 0 && c.throttle > 0;
    let step0: int = PIN_STEP as int * h / HZ as int;
    let step: int = if step0 > 1 { step0 } else { 1 };
    let pinned: int = if c.throttle > PIN_DOWN {
        let p: int = if car.pinned < u32::MAX { car.pinned + 1 } else { u32::MAX as int };
        if p < step * PIN_STEPS { p } else { step * PIN_STEPS }
    } else if car.pinned >= 2 {
        car.pinned - 2
    } else {
        0
    };
    let step_now: int = if pinned / step < PIN_STEPS { pinned / step } else { PIN_STEPS as int };
    let wound_up: int = ONE + fx_mul(fx_div(from_int_of(step_now), from_int_of(PIN_STEPS as int)), (PIN_MAX - ONE) as i32);
    (
        if boosting { (car.boost - 1) as u32 } else { car.boost },
        pinned as u32,
        step_now as u32,
        step_now > car.stepped,
        if boosting { PIN_BOOST } else { wound_up as i32 },
    )
}

/// The wind-up after one tick.
fn wind_up(car: &Car, c: &Controls, h: i32) -> (w: (u32, u32, u32, bool, Fx))
    requires
        1 <= h < 32768,
    ensures
        w == wind_up_of(*car, *c, h as int),
        ONE <= w.4 <= PIN_BOOST,
{
    let boosting = car.boost > 0 && c.throttle > 0;
    let boost = if boosting { car.boost - 1 } else { car.boost };
    let s0 = PIN_STEP * (h as u32) / (HZ as u32);
    let step = if s0 > 1 { s0 } else { 1 };
    let pinned = if c.throttle > PIN_DOWN {
        let p = if car.pinned < u32::MAX { car.pinned + 1 } else { u32::MAX };
        if p < step * PIN_STEPS { p } else { step * PIN_STEPS }
    } else if car.pinned >= 2 {
        car.pinned - 2
    } else {
        0
    };
    let q = pinned / step;
    let step_now = if q < PIN_STEPS { q } else { PIN_STEPS };
    let n = fixed::from_int(step_now as i32);
    let third = fixed::div(n, fixed::from_int(PIN_STEPS as i32));
    proof {
        fixed::lemma_div_bound(n, 196608, 196608, 196608);
        fixed::lemma_mul_bound(third, 131072, 65536, 131072);
        fixed::lemma_div_nonneg(n, 196608);
        fixed::lemma_mul_nonneg(third as int, 131072);
    }
    let wound_up = ONE + fixed::mul(third, PIN_MAX - ONE);
    (boost, pinned, step_now, step_now > car.stepped, if boosting { PIN_BOOST } else { wound_up })
}

/// The force of the engine, brake or reverse gear along the nose, in
/// units per second per second, at a speed `vf` along it.
pub open spec fn force_of(vf: int, t: Fx, mult: Fx) -> int {
    let accel = fx_mul(ACCEL, fx_mul(mult, mult));
    let ceiling = fx_mul(ENGINE_CEILING, mult);
    let ahead: i32 = if vf > 0 { vf as i32 } else { 0 };
    if t > 0 {
        let l0: int = ONE - fx_div(ahead, ceiling);
        let left: i32 = if l0 > 0 { l0 as i32 } else { 0 };
        let b0 = fx_div(ahead, LAUNCH);
        let bite: int = LAUNCH_BITE + fx_mul((ONE - LAUNCH_BITE) as i32, if b0 < ONE { b0 } else { ONE });
        fx_mul(fx_mul(fx_mul(t, accel), left), bite as i32) as int
    } else if vf > 16384 {
        fx_mul(t, BRAKE) as int
    } else {
        fx_mul(t, REVERSE) as int
    }
}

/// The speed along the nose after a tick of `inv` seconds of engine,
/// brakes, rolling drag and air drag, held inside the backstop: half the
/// base top speed in reverse, the wound-up top speed forwards.
pub open spec fn drive_speed_of(vf0: int, t: Fx, inv: Fx, mult: Fx) -> int {
    let v1: i32 = (vf0 + fx_mul(force_of(vf0, t, mult) as i32, inv)) as i32;
    let v2: i32 = (v1 - fx_mul(fx_mul(v1, (ONE - DRAG) as i32), inv)) as i32;
    let air: int = ONE + fx_mul(fx_mul(DRAG_AIR, vstd::math::abs(v2 as int) as i32), inv);
    let v3 = fx_div(v2, air as i32);
    clamp_of(v3 as int, -fx_mul(VMAX, HALF) as int, fx_mul(VMAX, mult) as int)
}

/// The engine's force along the nose.
fn force(vf: Fx, t: Fx, mult: Fx) -> (f: Fx)
    requires
        -0x0400_0000 <= vf <= 0x0400_0000,
        -ONE <= t <= ONE,
        ONE <= mult <= PIN_BOOST,
    ensures
        f == force_of(vf as int, t, mult),
        -0x00B0_0000 <= f <= 0x00B0_0000,
{
    proof {
        fixed::lemma_mul_bound(mult, mult, 262144, 262144);
        fixed::lemma_mul_nonneg(mult as int, mult as int);
    }
    let m2 = fixed::mul(mult, mult);
    proof {
        fixed::lemma_mul_bound(ACCEL, m2, 655360, 0x10_0000);
        fixed::lemma_mul_nonneg(ACCEL as int, m2 as int);
        fixed::lemma_mul_bound(ENGINE_CEILING, mult, 573440, 262144);
        assert(573440 * 65536 <= ENGINE_CEILING as int * mult as int) by (nonlinear_arith)
            requires
                65536 <= mult,
        ;
    }
    let accel = fixed::mul(ACCEL, m2);
    let ceiling = fixed::mul(ENGINE_CEILING, mult);
    let ahead = if vf > 0 { vf } else { 0 };
    if t > 0 {
        proof {
            fixed::lemma_div_bound(ahead, ceiling, 0x0400_0000, 573440);
            fixed::lemma_div_nonneg(ahead, ceiling);
            fixed::lemma_div_bound(ahead, LAUNCH, 0x0400_0000, 196608);
            fixed::lemma_div_nonneg(ahead, LAUNCH);
        }
        let l0 = ONE - fixed::div(ahead, ceiling);
        let left = if l0 > 0 { l0 } else { 0 };
        let b0 = fixed::div(ahead, LAUNCH);
        let b1 = if b0 < ONE { b0 } else { ONE };
        proof {
            fixed::lemma_mul_fraction(43691i32, b1);
            fixed::lemma_mul_fraction(accel, t);
        }
        let bite = LAUNCH_BITE + fixed::mul(ONE - LAUNCH_BITE, b1);
        let pull = fixed::mul(t, accel);
        proof {
            assert(fixed::mul_wide(t as int, accel as int) == fixed::mul_wide(accel as int, t as int)) by (nonlinear_arith);
            fixed::lemma_mul_fraction(pull, left);
            fixed::lemma_mul_fraction(fixed::fx_mul(pull, left), bite);
        }
        fixed::mul(fixed::mul(pull, left), bite)
    } else if vf > 16384 {
        proof {
            fixed::lemma_mul_bound(t, BRAKE, 65536, 2883584);
        }
        fixed::mul(t, BRAKE)
    } else {
        proof {
            fixed::lemma_mul_bound(t, REVERSE, 65536, 589824);
        }
        fixed::mul(t, REVERSE)
    }
}

/// The speed along the nose after a tick of engine, brakes and drag.
fn drive_speed(vf0: Fx, t: Fx, inv: Fx, mult: Fx) -> (v: Fx)
    requires
        -0x0300_0000 <= vf0 <= 0x0300_0000,
        -ONE <= t <= ONE,
        0 < inv <= ONE,
        ONE <= mult <= PIN_BOOST,
    ensures
        v == drive_speed_of(vf0 as int, t, inv, mult),
        -229376 <= v <= 0x001C_0000,
{
    let f = force(vf0, t, mult);
    proof {
        fixed::lemma_mul_bound(f, inv, 0x00B0_0000, 65536);
    }
    let v1 = vf0 + fixed::mul(f, inv);
    proof {
        fixed::lemma_mul_bound(v1, 7865i32, 0x0400_0000, 7865);
        fixed::lemma_mul_bound(fixed::fx_mul(v1, 7865i32), inv, 0x0080_0000, 65536);
    }
    let v2 = v1 - fixed::mul(fixed::mul(v1, ONE - DRAG), inv);
    let a2 = fixed::abs(v2);
    proof {
        fixed::lemma_mul_bound(DRAG_AIR, a2, 12451, 0x0500_0000);
        fixed::lemma_mul_nonneg(DRAG_AIR as int, a2 as int);
        fixed::lemma_mul_bound(fixed::fx_mul(DRAG_AIR, a2), inv, 0x0100_0000, 65536);
        fixed::lemma_mul_nonneg(fixed::fx_mul(DRAG_AIR, a2) as int, inv as int);
    }
    let air = ONE + fixed::mul(fixed::mul(DRAG_AIR, a2), inv);
    proof {
        fixed::lemma_div_bound(v2, air, 0x0500_0000, 65536);
        fixed::lemma_mul_bound(VMAX, mult, 458752, 262144);
        fixed::lemma_mul_nonneg(VMAX as int, mult as int);
    }
    let v3 = fixed::div(v2, air);
    let lo = -fixed::mul(VMAX, HALF);
    let hi = fixed::mul(VMAX, mult);
    assert(lo == -229376);
    if v3 < lo { lo } else if v3 > hi { hi } else { v3 }
}

/// `frac` raised to the power `n`, a product at a time, in fixed point.
pub open spec fn grip_power(frac: Fx, n: nat) -> Fx
    decreases n,
{
    if n <= 1 {
        frac
    } else {
        fx_mul(grip_power(frac, (n - 1) as nat), frac)
    }
}

/// What of the sideways slide survives a tick at `HZ`: the parked figure
/// through most of the speed range, the flat-out one only near the top,
/// and nearly all of it with the handbrake on.
pub open spec fn keep_of(vf: int, handbrake: bool) -> Fx {
    let q = fx_div(vstd::math::abs(vf) as i32, VMAX);
    let frac = if q < ONE { q } else { ONE };
    if handbrake {
        GRIP_HANDBRAKE
    } else {
        lerp_of(GRIP_LOW_SPEED as int, GRIP_HIGH_SPEED as int, grip_power(frac, GRIP_CURVE as nat) as int) as i32
    }
}

/// The sideways speed after a tick at `h` ticks a second: the grip is
/// quoted per tick at `HZ`, so the bleed is scaled to the real rate and
/// never removes more than all of it.
pub open spec fn slide_of(vl0: Fx, vf: int, handbrake: bool, h: int) -> Fx {
    let keep = keep_of(vf, handbrake);
    let per_tick = fx_div(from_int_of(HZ as int), from_int_of(h));
    let b0 = fx_mul((ONE - keep) as i32, per_tick);
    let bleed = if b0 < ONE { b0 } else { ONE };
    fx_mul(vl0, (ONE - bleed) as i32)
}

/// The sideways speed after a tick.
fn slide(vl0: Fx, vf: Fx, handbrake: bool, h: i32) -> (v: Fx)
    requires
        -0x0400_0000 <= vf <= 0x0400_0000,
        1 <= h < 32768,
    ensures
        v == slide_of(vl0, vf as int, handbrake, h as int),
        vl0 >= 0 ==> 0 <= v <= vl0,
        vl0 < 0 ==> vl0 - 1 <= v <= 0,
{
    let a = fixed::abs(vf);
    proof {
        fixed::lemma_div_bound(a, VMAX, 0x0400_0000, 458752);
        fixed::lemma_div_nonneg(a, VMAX);
    }
    let q = fixed::div(a, VMAX);
    let frac = if q < ONE { q } else { ONE };
    let mut f = frac;
    let mut i: u32 = 1;
    while i < GRIP_CURVE
        invariant
            1 <= i <= GRIP_CURVE,
            0 <= frac <= ONE,
            f == grip_power(frac, i as nat),
            0 <= f <= ONE,
        decreases GRIP_CURVE - i,
    {
        proof {
            fixed::lemma_mul_fraction(f, frac);
        }
        f = fixed::mul(f, frac);
        i = i + 1;
    }
    let keep = if handbrake {
        GRIP_HANDBRAKE
    } else {
        proof {
            fixed::lemma_lerp_between(GRIP_LOW_SPEED as int, GRIP_HIGH_SPEED as int, f as int);
        }
        fixed::lerp(GRIP_LOW_SPEED, GRIP_HIGH_SPEED, f)
    };
    let hz_fx = fixed::from_int(HZ);
    let h_fx = fixed::from_int(h);
    proof {
        fixed::lemma_div_bound(hz_fx, h_fx, 3932160int, 65536);
        fixed::lemma_div_nonneg(hz_fx, h_fx);
    }
    let per_tick = fixed::div(hz_fx, h_fx);
    let lose = ONE - keep;
    proof {
        fixed::lemma_mul_bound(lose, per_tick, 20000, 3932160int);
        fixed::lemma_mul_nonneg(lose as int, per_tick as int);
    }
    let b0 = fixed::mul(lose, per_tick);
    let bleed = if b0 < ONE { b0 } else { ONE };
    let kept = ONE - bleed;
    proof {
        fixed::lemma_mul_fraction(vl0, kept);
    }
    fixed::mul(vl0, kept)
}

/// The ticks the wheel has been held over after a tick at `h` ticks a
/// second, and the wind-on they give: a multiple of the lock from one to
/// a quarter again, rising over the second after the first.
pub open spec fn wound_of(car: Car, c: Controls, h: int) -> (u32, Fx) {
    let after: int = WIND_AFTER as int * h / HZ as int;
    let o0: int = WIND_OVER as int * h / HZ as int;
    let over: int = if o0 > 1 { o0 } else { 1 };
    let wound: int = if vstd::math::abs(c.steer as int) > WIND_LOCK {
        let w: int = if car.wound < u32::MAX { car.wound + 1 } else { u32::MAX as int };
        if w < after + over { w } else { after + over }
    } else if car.wound >= 2 {
        car.wound - 2
    } else {
        0
    };
    let extra: int = if wound >= after { wound - after } else { 0 };
    let frac = clamp_of(fx_div(from_int_of(extra as i32 as int), from_int_of(over)) as int, 0, ONE as int);
    (wound as u32, (ONE + fx_mul(frac as i32, WIND_MAX)) as i32)
}

/// The wheel's wind-on after a tick.
fn wound_on(car: &Car, c: &Controls, h: i32) -> (w: (u32, Fx))
    requires
        1 <= h < 32768,
        -ONE <= c.steer <= ONE,
    ensures
        w == wound_of(*car, *c, h as int),
        ONE <= w.1 <= ONE + WIND_MAX,
{
    let after = WIND_AFTER * (h as u32) / (HZ as u32);
    let o0 = WIND_OVER * (h as u32) / (HZ as u32);
    let over = if o0 > 1 { o0 } else { 1 };
    let wound = if fixed::abs(c.steer) > WIND_LOCK {
        let w = if car.wound < u32::MAX { car.wound + 1 } else { u32::MAX };
        if w < after + over { w } else { after + over }
    } else if car.wound >= 2 {
        car.wound - 2
    } else {
        0
    };
    let extra = if wound >= after { wound - after } else { 0 };
    let n = fixed::from_int(extra as i32);
    let d = fixed::from_int(over as i32);
    let q = fixed::div(n, d);
    let frac = if q < 0 { 0 } else if q > ONE { ONE } else { q };
    proof {
        fixed::lemma_mul_fraction(WIND_MAX, frac);
        assert(fixed::mul_wide(frac as int, WIND_MAX as int) == fixed::mul_wide(WIND_MAX as int, frac as int)) by (nonlinear_arith);
    }
    (wound, ONE + fixed::mul(frac, WIND_MAX))
}

/// The yaw rate after a tick at `h` ticks a second, for a speed `vf`
/// along the nose: the wheel's authority rises to full at the reference
/// speed and falls as `1 / speed` past it, reverses in reverse, and is
/// blended a quarter at a time into the old rate.
pub open spec fn spin_of(spin: i32, steer: Fx, h: int, vf: int, wind: Fx) -> int {
    let sp: int = vstd::math::abs(vf) as int;
    let auth: Fx = if sp <= TURN_REF { fx_div(sp as i32, TURN_REF) } else { fx_div(TURN_REF, sp as i32) };
    let dir: Fx = if vf < 0 { -65536i32 } else { 65536i32 };
    let rate: Fx = fx_mul(fx_mul(fx_mul(steer, auth), dir), wind);
    let turn: int = fixed::trunc_div((rate as int * TURN_RATE as int) / 65536, h);
    fixed::trunc_div(spin as int * 3 + turn, 4)
}

/// The yaw rate after a tick.
fn next_spin(spin: i32, steer: Fx, h: i32, vf: Fx, wind: Fx) -> (s: i32)
    requires
        -0x1000_0000 <= spin <= 0x1000_0000,
        -ONE <= steer <= ONE,
        1 <= h < 32768,
        -0x0400_0000 <= vf <= 0x0400_0000,
        ONE <= wind <= ONE + WIND_MAX,
    ensures
        s == spin_of(spin, steer, h as int, vf as int, wind),
        -0x1000_0000 <= s <= 0x1000_0000,
{
    let sp = fixed::abs(vf);
    let auth = if sp <= TURN_REF {
        proof {
            fixed::lemma_div_bound(sp, TURN_REF, 98304, 98304);
        }
        fixed::div(sp, TURN_REF)
    } else {
        proof {
            fixed::lemma_div_bound(TURN_REF, sp, 98304, 98304);
        }
        fixed::div(TURN_REF, sp)
    };
    let dir: Fx = if vf < 0 { -ONE } else { ONE };
    proof {
        fixed::lemma_mul_bound(steer, auth, 65536, 65536);
        fixed::lemma_mul_bound(fixed::fx_mul(steer, auth), dir, 65537, 65536);
        fixed::lemma_mul_bound(fixed::fx_mul(fixed::fx_mul(steer, auth), dir), wind, 65538, 81920);
    }
    let rate = fixed::mul(fixed::mul(fixed::mul(steer, auth), dir), wind);
    let p: i64 = rate as i64 * TURN_RATE as i64;
    proof {
        fixed::lemma_shr16_i64(p);
    }
    let turn: i64 = (p >> 16u64) / h as i64;
    assert(-32768 <= turn <= 32768);
    (spin * 3 + turn as i32) / 4
}

/// An angle advanced by a signed number of angle units, wrapping.
pub open spec fn turn_by(a: Ang, by: int) -> Ang {
    ((a as int + by % 65536) % 65536) as u16
}

/// An angle advanced by a signed number of angle units, wrapping.
fn turn(a: Ang, by: i32) -> (r: Ang)
    ensures
        r == turn_by(a, by as int),
{
    let s = fixed::frac(by);
    let t = a as i32 + s;
    let w = if t >= 65536 { t - 65536 } else { t };
    w as u16
}

/// A tick at `h` ticks a second, as a fraction of a second.
fn tick(h: i32) -> (inv: Fx)
    requires
        1 <= h < 32768,
    ensures
        inv == tick_of(h as int),
        0 < inv <= ONE,
{
    let d = fixed::from_int(h);
    proof {
        fixed::lemma_div_bound(ONE, d, 65536, 65536);
        fixed::lemma_div_nonneg(ONE, d);
        assert(1 <= (65536int * 65536) / (d as int)) by (nonlinear_arith)
            requires
                d == h * 65536,
                1 <= h < 32768,
        ;
    }
    fixed::div(ONE, d)
}

/// The car after one tick at `h` ticks a second, before it has moved: the
/// engine and the brakes act along the nose, the slide across it bleeds
/// away, the two are put back together *before* the heading turns (which
/// is the drift), and then the wheel turns the heading.
pub open spec fn advance_of(car: Car, c: Controls, h: int) -> Car {
    let (fx, fy) = (cos_of(car.yaw), sin_of(car.yaw));
    let rx: i32 = (-fy) as i32;
    let vf0: int = fx_mul(car.vx, fx) + fx_mul(car.vy, fy);
    let vl0: int = fx_mul(car.vx, rx) + fx_mul(car.vy, fx);
    let w = wind_up_of(car, c, h);
    let vf1: int = if w.3 { vf0 + fx_mul(SURGE, if vf0 < 0 { -65536i32 } else { 65536i32 }) } else { vf0 };
    let vf: int = drive_speed_of(vf1, c.throttle, tick_of(h), w.4);
    let vl: Fx = slide_of(vl0 as i32, vf, c.handbrake, h);
    let (wound, wind) = wound_of(car, c, h);
    let spin: int = spin_of(car.spin, c.steer, h, vf, wind);
    Car {
        vx: (fx_mul(fx, vf as i32) + fx_mul(rx, vl)) as i32,
        vy: (fx_mul(fy, vf as i32) + fx_mul(fx, vl)) as i32,
        spin: spin as i32,
        yaw: turn_by(car.yaw, spin),
        boost: w.0,
        pinned: w.1,
        stepped: w.2,
        wound: wound,
        ..car
    }
}

impl Car {
    /// One tick of driving, everything but the move itself.
    fn advance(&mut self, c: &Controls, h: i32, inv: Fx)
        requires
            step_fits(*old(self), *c, h),
            1 <= h,
            inv == tick_of(h as int),
            0 < inv <= ONE,
        ensures
            *final(self) == advance_of(*old(self), *c, h as int),
            -0x0240_0000 <= final(self).vx <= 0x0240_0000,
            -0x0240_0000 <= final(self).vy <= 0x0240_0000,
    {
        let fx = trig::cos(self.yaw);
        let fy = trig::sin(self.yaw);
        proof {
            trig::lemma_table_bounds(self.yaw);
            fixed::lemma_mul_bound(self.vx, fx, 0x0100_0000, 65536);
            fixed::lemma_mul_bound(self.vy, fy, 0x0100_0000, 65536);
        }
        let rx = -fy;
        proof {
            fixed::lemma_mul_bound(self.vx, rx, 0x0100_0000, 65536);
            fixed::lemma_mul_bound(self.vy, fx, 0x0100_0000, 65536);
        }
        let vf0 = fixed::mul(self.vx, fx) + fixed::mul(self.vy, fy);
        let vl0 = fixed::mul(self.vx, rx) + fixed::mul(self.vy, fx);
        let (boost, pinned, stepped, surged, mult) = wind_up(self, c, h);
        let vf1 = if surged {
            proof {
                fixed::lemma_mul_bound(SURGE, if vf0 < 0 { -65536i32 } else { 65536i32 }, 43690, 65536);
            }
            vf0 + fixed::mul(SURGE, fixed::from_int(if vf0 < 0 { -1 } else { 1 }))
        } else {
            vf0
        };
        let vf = drive_speed(vf1, c.throttle, inv, mult);
        let vl = slide(vl0, vf, c.handbrake, h);
        let (wound, wind) = wound_on(self, c, h);
        let spin = next_spin(self.spin, c.steer, h, vf, wind);
        proof {
            fixed::lemma_mul_bound(fx, vf, 65536, 0x001C_0000);
            fixed::lemma_mul_bound(fy, vf, 65536, 0x001C_0000);
            fixed::lemma_mul_bound(rx, vl, 65536, 0x0220_0000);
            fixed::lemma_mul_bound(fx, vl, 65536, 0x0220_0000);
        }
        self.vx = fixed::mul(fx, vf) + fixed::mul(rx, vl);
        self.vy = fixed::mul(fy, vf) + fixed::mul(fx, vl);
        self.spin = spin;
        self.yaw = turn(self.yaw, spin);
        self.boost = boost;
        self.pinned = pinned;
        self.stepped = stepped;
        self.wound = wound;
    }
}

/// A difference of angles as a signed number of angle units, in
/// `-HALF..HALF`.
pub open spec fn wrap_half(d: int) -> int {
    (d + 32768) % 65536 - 32768
}

/// The car after hitting a wall on one axis: it keeps none of its speed
/// into the wall and all of its speed along it, loses paint in proportion
/// to the speed it hit at (forty at most, and never past the last of it),
/// and is turned towards the nearer of the two headings along the wall,
/// by at most what the wall can turn it in a tick of `inv` seconds.
pub open spec fn hit_of(car: Car, on_x: bool, inv: Fx) -> Car {
    let v: i32 = if on_x { car.vx } else { car.vy };
    let sev: int = fx_floor(vstd::math::abs(v as int) as i32) * WALL_DAMAGE;
    let dent: int = clamp_of(sev, 0, 40);
    let damage: int = if car.damage + dent > 255 { 255 } else { car.damage + dent };
    let along: int = if on_x { 16384 } else { 0 };
    let off0: int = wrap_half(along - car.yaw);
    let off: int = if off0 > 16384 { off0 - 32768 } else if off0 < -16384 { off0 + 32768 } else { off0 };
    let most: int = fx_floor(fx_mul(from_int_of(WALL_ALIGN as int), inv));
    Car {
        damage: damage as u8,
        vx: if on_x { fx_mul(car.vx, WALL_BOUNCE) } else { car.vx },
        vy: if on_x { car.vy } else { fx_mul(car.vy, WALL_BOUNCE) },
        yaw: turn_by(car.yaw, clamp_of(off, -most, most)),
        ..car
    }
}

/// Whether `ok` is what probing the open ground at a car's centre `(x, y)`
/// and at its leading end, `lead` along the heading `(fx, fy)`, can give:
/// true when both cells are open, false when the centre is not, or the
/// centre is and the end is not.
pub open spec fn probed<F: Fn(i32, i32) -> bool>(open: F, x: Fx, y: Fx, fx: Fx, fy: Fx, lead: Fx, ok: bool) -> bool {
    let centre = (fx_floor(x) as i32, fx_floor(y) as i32);
    let tip = (((x + fx_mul(fx, lead)) / 65536) as i32, ((y + fx_mul(fy, lead)) / 65536) as i32);
    if ok {
        open.ensures(centre, true) && open.ensures(tip, true)
    } else {
        open.ensures(centre, false) || (open.ensures(centre, true) && open.ensures(tip, false))
    }
}

/// Which end of the car leads: the nose going forwards, the tail in
/// reverse, as a signed distance along the heading.
pub open spec fn lead_of(a: Car) -> Fx {
    if fx_mul(a.vx, cos_of(a.yaw)) + fx_mul(a.vy, sin_of(a.yaw)) < 0 {
        (-half_len_of(a.kind)) as i32
    } else {
        half_len_of(a.kind)
    }
}

/// Whether `next` is where the car `a` can end up after moving for a tick
/// of `inv` seconds, when the probes ahead of its move along x and then
/// along y came back `ox` and `oy`: each axis is moved if its probe found
/// open ground and is a wall impact otherwise.
pub open spec fn moved_of<F: Fn(i32, i32) -> bool>(a: Car, open: F, inv: Fx, ox: bool, oy: bool, next: Car) -> bool {
    let (fx, fy) = (cos_of(a.yaw), sin_of(a.yaw));
    let lead = lead_of(a);
    let dx = fx_mul(a.vx, inv);
    let dy = fx_mul(a.vy, inv);
    let b = if ox { Car { x: (a.x + dx) as i32, ..a } } else { hit_of(a, true, inv) };
    &&& probed(open, (a.x + dx) as i32, a.y, fx, fy, lead, ox)
    &&& probed(open, b.x, (b.y + dy) as i32, fx, fy, lead, oy)
    &&& next == if oy { Car { y: (b.y + dy) as i32, ..b } } else { hit_of(b, false, inv) }
}

/// Whether `next` is where [`Car::step`] can take `car` in one tick at
/// `hz` ticks a second, when its two probes of the ground came back `ox`
/// and `oy`.
pub open spec fn step_of<F: Fn(i32, i32) -> bool>(car: Car, c: Controls, hz: i32, open: F, ox: bool, oy: bool, next: Car) -> bool {
    let h = tick_rate(hz);
    moved_of(advance_of(car, c, h), open, tick_of(h), ox, oy, next)
}

/// Probe the ground at a centre and at the leading end.
fn probe<F: Fn(i32, i32) -> bool>(open: &F, x: Fx, y: Fx, fx: Fx, fy: Fx, lead: Fx) -> (ok: bool)
    requires
        forall|i: i32, j: i32| open.requires((i, j)),
        -ONE <= fx <= ONE,
        -ONE <= fy <= ONE,
        -73728 <= lead <= 73728,
        -0x7000_0000 <= x <= 0x7000_0000,
        -0x7000_0000 <= y <= 0x7000_0000,
    ensures
        probed(*open, x, y, fx, fy, lead, ok),
{
    let c = open(fixed::floor(x), fixed::floor(y));
    if !c {
        return false;
    }
    proof {
        fixed::lemma_mul_bound(fx, lead, 65536, 73728);
        fixed::lemma_mul_bound(fy, lead, 65536, 73728);
    }
    let tx = x + fixed::mul(fx, lead);
    let ty = y + fixed::mul(fy, lead);
    open(fixed::floor(tx), fixed::floor(ty))
}

impl Car {
    /// Take a wall impact on one axis.  The city is a grid, so the wall
    /// that stopped an axis runs along the other one.
    fn hit(&mut self, on_x: bool, inv: Fx)
        requires
            -0x0400_0000 <= old(self).vx <= 0x0400_0000,
            -0x0400_0000 <= old(self).vy <= 0x0400_0000,
            0 < inv <= ONE,
        ensures
            *final(self) == hit_of(*old(self), on_x, inv),
    {
        let v = if on_x { self.vx } else { self.vy };
        let sev = fixed::floor(fixed::abs(v)) * WALL_DAMAGE;
        let dent = if sev < 0 { 0 } else if sev > 40 { 40 } else { sev };
        let sum = self.damage as i32 + dent;
        self.damage = if sum > 255 { 255 } else { sum as u8 };
        if on_x {
            self.vx = fixed::mul(self.vx, WALL_BOUNCE);
        } else {
            self.vy = fixed::mul(self.vy, WALL_BOUNCE);
        }
        let along: i32 = if on_x { 16384 } else { 0 };
        let d = along - self.yaw as i32;
        let u = if d < 0 { d + 65536 } else { d };
        let off0 = if u >= 32768 { u - 65536 } else { u };
        let off = if off0 > 16384 { off0 - 32768 } else if off0 < -16384 { off0 + 32768 } else { off0 };
        proof {
            fixed::lemma_mul_fraction(851968000i32, inv);
        }
        let most = fixed::floor(fixed::mul(fixed::from_int(WALL_ALIGN), inv));
        let r = if off < -most { -most } else if off > most { most } else { off };
        self.yaw = turn(self.yaw, r);
    }

    /// Move for a tick of `inv` seconds, each axis separately, and take a
    /// wall impact on an axis whose move would leave the car's centre or
    /// its leading end off the open ground.  Clipping a corner scrubs
    /// speed off one axis and lets the other carry on.
    fn integrate<F: Fn(i32, i32) -> bool>(&mut self, open: &F, inv: Fx) -> (o: (bool, bool))
        requires
            forall|i: i32, j: i32| open.requires((i, j)),
            -0x0240_0000 <= old(self).vx <= 0x0240_0000,
            -0x0240_0000 <= old(self).vy <= 0x0240_0000,
            -0x4000_0000 <= old(self).x <= 0x4000_0000,
            -0x4000_0000 <= old(self).y <= 0x4000_0000,
            0 < inv <= ONE,
        ensures
            moved_of(*old(self), *open, inv, o.0, o.1, *final(self)),
    {
        let ghost a = *self;
        let nose = self.kind.half_len();
        let fx = trig::cos(self.yaw);
        let fy = trig::sin(self.yaw);
        proof {
            trig::lemma_table_bounds(self.yaw);
            fixed::lemma_mul_bound(self.vx, inv, 0x0240_0000, 65536);
            fixed::lemma_mul_bound(self.vy, inv, 0x0240_0000, 65536);
            fixed::lemma_mul_bound(self.vx, fx, 0x0240_0000, 65536);
            fixed::lemma_mul_bound(self.vy, fy, 0x0240_0000, 65536);
        }
        let dx = fixed::mul(self.vx, inv);
        let dy = fixed::mul(self.vy, inv);
        let vf = fixed::mul(self.vx, fx) + fixed::mul(self.vy, fy);
        let lead = if vf < 0 { -nose } else { nose };
        assert(lead == lead_of(a));
        let ox = probe(open, self.x + dx, self.y, fx, fy, lead);
        if ox {
            self.x = self.x + dx;
        } else {
            self.hit(true, inv);
        }
        let ghost b = *self;
        let oy = probe(open, self.x, self.y + dy, fx, fy, lead);
        if oy {
            self.y = self.y + dy;
        } else {
            self.hit(false, inv);
        }
        (ox, oy)
    }

    /// Advance one tick at `hz` ticks a second, on ground that `open`
    /// says whether a cell of is open.
    pub fn step<F: Fn(i32, i32) -> bool>(&mut self, c: &Controls, open: &F, hz: i32)
        requires
            step_fits(*old(self), *c, hz),
            forall|i: i32, j: i32| open.requires((i, j)),
        ensures
            exists|ox: bool, oy: bool| step_of(*old(self), *c, hz, *open, ox, oy, *final(self)),
    {
        let ghost car = *self;
        let h = if hz > 1 { hz } else { 1 };
        let inv = tick(h);
        self.advance(c, h, inv);
        let (ox, oy) = self.integrate(open, inv);
        assert(step_of(car, *c, hz, *open, ox, oy, *self));
    }
}

/// The car after an impulse `(ix, iy)` and a kick of `spin`, spent as
/// though it weighed `mass` (and at least one).
pub open spec fn shove_as_of(c: Car, ix: Fx, iy: Fx, spin: i32, mass: i32) -> Car {
    let m = from_int_of(if mass > 1 { mass as int } else { 1 });
    Car {
        vx: (c.vx + fx_div(ix, m)) as i32,
        vy: (c.vy + fx_div(iy, m)) as i32,
        spin: (c.spin + spin) as i32,
        ..c
    }
}

/// Whether an impulse can be spent on a car without its velocity or its
/// yaw rate leaving the number range.
pub open spec fn shove_fits(c: Car, ix: Fx, iy: Fx, spin: i32, mass: i32) -> bool {
    let m = from_int_of(if mass > 1 { mass as int } else { 1 });
    &&& i32::MIN <= c.vx + fx_div(ix, m) <= i32::MAX
    &&& i32::MIN <= c.vy + fx_div(iy, m) <= i32::MAX
    &&& i32::MIN <= c.spin + spin <= i32::MAX
}

impl Car {
    /// Take an impulse - from another car, or from something flattened -
    /// spent against the car's own mass.
    pub fn shove(&mut self, ix: Fx, iy: Fx, spin: i32)
        requires
            shove_fits(*old(self), ix, iy, spin, mass_of(old(self).kind)),
        ensures
            *final(self) == shove_as_of(*old(self), ix, iy, spin, mass_of(old(self).kind)),
    {
        let m = self.kind.mass();
        self.shove_as(ix, iy, spin, m);
    }

    /// Take an impulse as though this car weighed `mass`: the collision
    /// works the impulse out from the mass a car hits with and has to
    /// spend it against the same number, or the pair gains energy.
    pub fn shove_as(&mut self, ix: Fx, iy: Fx, spin: i32, mass: i32)
        requires
            shove_fits(*old(self), ix, iy, spin, mass),
        ensures
            *final(self) == shove_as_of(*old(self), ix, iy, spin, mass),
    {
        let m = fixed::from_int(if mass > 1 { mass } else { 1 });
        self.vx = self.vx + fixed::div(ix, m);
        self.vy = self.vy + fixed::div(iy, m);
        self.spin = self.spin + spin;
    }
}

/// The value of [`normalise`]: a unit vector along `(x, y)` and its
/// length, both by the octagonal norm; `(ONE, 0)` and nothing for the
/// zero vector.
pub open spec fn normalise_of(x: Fx, y: Fx) -> (Fx, Fx, Fx) {
    let len = octagonal_len(x, y);
    if len == 0 {
        (ONE, 0, 0)
    } else {
        (fx_div(x, len as i32), fx_div(y, len as i32), len as i32)
    }
}

/// A unit vector in the direction of `(x, y)`, and its length, measured
/// with the same ruler as [`Car::speed`] so that neither needs a square
/// root.
pub fn normalise(x: Fx, y: Fx) -> (r: (Fx, Fx, Fx))
    requires
        short(x, y),
    ensures
        r == normalise_of(x, y),
        -ONE <= r.0 <= ONE,
        -ONE <= r.1 <= ONE,
        0 <= r.2,
{
    let a = fixed::abs(x);
    let b = fixed::abs(y);
    let (hi, lo) = if a > b { (a, b) } else { (b, a) };
    let len = hi + (lo * 3 / 8);
    if len == 0 {
        (ONE, 0, 0)
    } else {
        proof {
            assert(a as int * 65536 / (len as int) <= 65536) by (nonlinear_arith)
                requires
                    0 <= a <= len,
                    0 < len,
            ;
            assert(b as int * 65536 / (len as int) <= 65536) by (nonlinear_arith)
                requires
                    0 <= b <= len,
                    0 < len,
            ;
            fixed::lemma_div_bound(x, len, a as int, len as int);
            fixed::lemma_div_bound(y, len, b as int, len as int);
        }
        (fixed::div(x, len), fixed::div(y, len), len)
    }
}

/// A car moved by `(dx, dy)` if the probe of the cell it would land in
/// came back `ok`, and left where it was otherwise.
pub open spec fn nudge_to(c: Car, dx: int, dy: int, ok: bool) -> Car {
    if ok { Car { x: (c.x + dx) as i32, y: (c.y + dy) as i32, ..c } } else { c }
}

/// Whether `ok` is what asking `open` about the cell a car would land in
/// after a move of `(dx, dy)` can give.
pub open spec fn open_says<F: Fn(i32, i32) -> bool>(open: F, c: Car, dx: int, dy: int, ok: bool) -> bool {
    open.ensures((((c.x + dx) / 65536) as i32, ((c.y + dy) / 65536) as i32), ok)
}

/// Move a car by a delta if that leaves it somewhere it could have driven.
fn nudge<F: Fn(i32, i32) -> bool>(c: &mut Car, dx: Fx, dy: Fx, open: &F) -> (ok: bool)
    requires
        forall|i: i32, j: i32| open.requires((i, j)),
        i32::MIN <= old(c).x + dx <= i32::MAX,
        i32::MIN <= old(c).y + dy <= i32::MAX,
    ensures
        open_says(*open, *old(c), dx as int, dy as int, ok),
        *final(c) == nudge_to(*old(c), dx as int, dy as int, ok),
{
    let nx = c.x + dx;
    let ny = c.y + dy;
    if open(fixed::floor(nx), fixed::floor(ny)) {
        c.x = nx;
        c.y = ny;
        true
    } else {
        false
    }
}

/// Whether two cars are in the range [`collide`] is written for: within
/// four thousand cells of the origin, moving at most thirty-two cells a
/// second (past the top speed with a coin in it), and turning well short
/// of the number range.
pub open spec fn collide_fits(c: Car) -> bool {
    &&& -0x0fff_ffff <= c.x <= 0x0fff_ffff
    &&& -0x0fff_ffff <= c.y <= 0x0fff_ffff
    &&& -0x0020_0000 <= c.vx <= 0x0020_0000
    &&& -0x0020_0000 <= c.vy <= 0x0020_0000
    &&& -0x4000_0000 <= c.spin <= 0x4000_0000
}

/// How close two cars' centres may come before they touch: three quarters
/// of the sum of their half-lengths.
pub open spec fn reach_of(a: Car, b: Car) -> Fx {
    fx_mul((half_len_of(a.kind) + half_len_of(b.kind)) as i32, CONTACT)
}

/// The unit vector from `a` to `b` and the distance between them.
pub open spec fn contact_of(a: Car, b: Car) -> (Fx, Fx, Fx) {
    normalise_of((b.x - a.x) as i32, (b.y - a.y) as i32)
}

/// How fast `b` is moving away from `a` along the line between them:
/// negative when they are closing.
pub open spec fn closing_of(a: Car, b: Car) -> int {
    let (nx, ny, dist) = contact_of(a, b);
    fx_mul((b.vx - a.vx) as i32, nx) + fx_mul((b.vy - a.vy) as i32, ny)
}

/// Whether two cars collide: within reach of each other, and not already
/// separating.
pub open spec fn touching(a: Car, b: Car) -> bool {
    contact_of(a, b).2 <= reach_of(a, b) && closing_of(a, b) <= 0
}

/// The reduced mass of two bodies, `ma * mb / (ma + mb)`, in fixed point.
pub open spec fn reduced_of(ka: int, kb: int) -> Fx {
    let ma = from_int_of(ka);
    let mb = from_int_of(kb);
    fx_div(fx_mul(ma, mb), (ma + mb) as i32)
}

/// The reduced mass of any two of the masses cars hit with is at most
/// half of the heaviest.
proof fn lemma_reduced_mass(a: CarKind, b: CarKind)
    ensures
        0 <= reduced_of(impact_mass_of(a) as int, impact_mass_of(b) as int) <= 3932160,
{
    match (a, b) {
        (CarKind::Taxi, CarKind::Taxi) => {
            assert(from_int_of(30) == 1966080 && from_int_of(30) == 1966080);
            assert(fx_mul(1966080, 1966080) == 58982400);
            assert((58982400int * 65536) / 3932160int == 983040) by (nonlinear_arith);
            assert(fx_div(58982400, 3932160) == 983040);
        },
        (CarKind::Taxi, CarKind::Traffic) => {
            assert(from_int_of(30) == 1966080 && from_int_of(9) == 589824);
            assert(fx_mul(1966080, 589824) == 17694720);
            assert((17694720int * 65536) / 2555904int == 453710) by (nonlinear_arith);
            assert(fx_div(17694720, 2555904) == 453710);
        },
        (CarKind::Taxi, CarKind::Bus) => {
            assert(from_int_of(30) == 1966080 && from_int_of(120) == 7864320);
            assert(fx_mul(1966080, 7864320) == 235929600);
            assert((235929600int * 65536) / 9830400int == 1572864) by (nonlinear_arith);
            assert(fx_div(235929600, 9830400) == 1572864);
        },
        (CarKind::Traffic, CarKind::Taxi) => {
            assert(from_int_of(9) == 589824 && from_int_of(30) == 1966080);
            assert(fx_mul(589824, 1966080) == 17694720);
            assert((17694720int * 65536) / 2555904int == 453710) by (nonlinear_arith);
            assert(fx_div(17694720, 2555904) == 453710);
        },
        (CarKind::Traffic, CarKind::Traffic) => {
            assert(from_int_of(9) == 589824 && from_int_of(9) == 589824);
            assert(fx_mul(589824, 589824) == 5308416);
            assert((5308416int * 65536) / 1179648int == 294912) by (nonlinear_arith);
            assert(fx_div(5308416, 1179648) == 294912);
        },
        (CarKind::Traffic, CarKind::Bus) => {
            assert(from_int_of(9) == 589824 && from_int_of(120) == 7864320);
            assert(fx_mul(589824, 7864320) == 70778880);
            assert((70778880int * 65536) / 8454144int == 548673) by (nonlinear_arith);
            assert(fx_div(70778880, 8454144) == 548673);
        },
        (CarKind::Bus, CarKind::Taxi) => {
            assert(from_int_of(120) == 7864320 && from_int_of(30) == 1966080);
            assert(fx_mul(7864320, 1966080) == 235929600);
            assert((235929600int * 65536) / 9830400int == 1572864) by (nonlinear_arith);
            assert(fx_div(235929600, 9830400) == 1572864);
        },
        (CarKind::Bus, CarKind::Traffic) => {
            assert(from_int_of(120) == 7864320 && from_int_of(9) == 589824);
            assert(fx_mul(7864320, 589824) == 70778880);
            assert((70778880int * 65536) / 8454144int == 548673) by (nonlinear_arith);
            assert(fx_div(70778880, 8454144) == 548673);
        },
        (CarKind::Bus, CarKind::Bus) => {
            assert(from_int_of(120) == 7864320 && from_int_of(120) == 7864320);
            assert(fx_mul(7864320, 7864320) == 943718400);
            assert((943718400int * 65536) / 15728640int == 3932160) by (nonlinear_arith);
            assert(fx_div(943718400, 15728640) == 3932160);
        },
    }
}

/// The impulse `b` takes when `a` and `b` collide (and `a` takes its
/// opposite): the textbook exchange along the contact normal for masses
/// of what each hits with, and a restitution of seven tenths.
pub open spec fn impulse_of(a: Car, b: Car) -> (Fx, Fx) {
    let (nx, ny, dist) = contact_of(a, b);
    let reduced = reduced_of(impact_mass_of(a.kind) as int, impact_mass_of(b.kind) as int);
    let j = fx_mul(fx_mul(closing_of(a, b) as i32, -111411i32), reduced);
    (fx_mul(j, nx), fx_mul(j, ny))
}

/// A car with `dent` more paint lost, never past the last of it.
pub open spec fn dented(c: Car, dent: int) -> Car {
    Car { damage: (if c.damage + dent > 255 { 255 } else { c.damage + dent }) as u8, ..c }
}

/// The two cars after the impulse, the kick and the dents of a collision,
/// before they are pushed apart.
pub open spec fn shoved_of(a: Car, b: Car) -> (Car, Car) {
    let (ix, iy) = impulse_of(a, b);
    let dent = clamp_of(vstd::math::abs(closing_of(a, b)) as int / 65536, 0, 12);
    (
        dented(shove_as_of(a, (-ix) as i32, (-iy) as i32, -260i32, impact_mass_of(a.kind)), dent),
        dented(shove_as_of(b, ix, iy, 260, impact_mass_of(b.kind)), dent),
    )
}

/// How far a collision pushes the cars apart, along the contact normal:
/// the whole of the overlap and a little more for the one that gives way,
/// and half of it (and a hair) each when neither is the cab.
pub open spec fn push_of(a: Car, b: Car) -> (Fx, Fx, Fx, Fx) {
    let (nx, ny, dist) = contact_of(a, b);
    let g: int = reach_of(a, b) - dist;
    let gap: int = if g > 0 { g } else { 0 };
    (
        fx_mul(nx, (gap + BOUNCE) as i32),
        fx_mul(ny, (gap + BOUNCE) as i32),
        fx_mul(nx, (gap / 2 + 1) as i32),
        fx_mul(ny, (gap / 2 + 1) as i32),
    )
}

/// Whether `(fa, fb)` is how the shoved cars `a` and `b` can be pushed
/// apart, when the probes of where they would land came back `o`.  The
/// cab ploughs: the other car is pushed the whole way, and the cab gives
/// ground only if that car has nowhere to go.  Two of a kind take half
/// each, and whichever half will not fit is taken by the other.
pub open spec fn separated<F: Fn(i32, i32) -> bool>(a: Car, b: Car, open: F, push: (Fx, Fx, Fx, Fx), o: (bool, bool, bool, bool), fa: Car, fb: Car) -> bool {
    let (fx, fy, hx, hy) = push;
    let ta = a.kind == CarKind::Taxi;
    let tb = b.kind == CarKind::Taxi;
    if ta && !tb {
        &&& open_says(open, b, fx as int, fy as int, o.0)
        &&& fb == nudge_to(b, fx as int, fy as int, o.0)
        &&& !o.0 ==> open_says(open, a, -fx, -fy, o.1)
        &&& fa == if o.0 { a } else { nudge_to(a, -fx, -fy, o.1) }
    } else if tb && !ta {
        &&& open_says(open, a, -fx, -fy, o.0)
        &&& fa == nudge_to(a, -fx, -fy, o.0)
        &&& !o.0 ==> open_says(open, b, fx as int, fy as int, o.1)
        &&& fb == if o.0 { b } else { nudge_to(b, fx as int, fy as int, o.1) }
    } else {
        let a1 = nudge_to(a, -hx, -hy, o.0);
        let b1 = nudge_to(b, hx as int, hy as int, o.1);
        &&& open_says(open, a, -hx, -hy, o.0)
        &&& open_says(open, b, hx as int, hy as int, o.1)
        &&& !o.0 ==> open_says(open, b1, hx as int, hy as int, o.2)
        &&& !o.1 ==> open_says(open, a1, -hx, -hy, o.3)
        &&& fb == if o.0 { b1 } else { nudge_to(b1, hx as int, hy as int, o.2) }
        &&& fa == if o.1 { a1 } else { nudge_to(a1, -hx, -hy, o.3) }
    }
}

/// Whether a collision between `a` and `b`, leaving them `fa` and `fb`,
/// kept their momentum to within the rounding of the exchange: along each
/// axis the changes of velocity, weighted by the masses they hit with, add
/// up to less than the two masses together.
pub open spec fn momentum_kept(a: Car, b: Car, fa: Car, fb: Car) -> bool {
    let ka = impact_mass_of(a.kind) as int;
    let kb = impact_mass_of(b.kind) as int;
    &&& vstd::math::abs(ka * (fa.vx - a.vx) + kb * (fb.vx - b.vx)) < ka + kb
    &&& vstd::math::abs(ka * (fa.vy - a.vy) + kb * (fb.vy - b.vy)) < ka + kb
}

/// Spending an impulse `x` against a mass `k` and weighing the change of
/// velocity by that mass again gives back `x`, short by less than `k`.
proof fn lemma_spent_against_mass(x: int, k: int)
    requires
        1 <= k <= 120,
        -0x8000_0000 <= x <= 0x8000_0000,
    ensures
        -k < k * fixed::trunc_div(x * 65536, k * 65536) - x < k,
{
    let ax = vstd::math::abs(x) as int;
    assert((ax * 65536) / (k * 65536) == ax / k) by (nonlinear_arith)
        requires
            ax >= 0,
            k >= 1,
    ;
    assert(vstd::math::abs(x * 65536) as int == ax * 65536);
    assert(vstd::math::abs(k * 65536) as int == k * 65536);
    assert(0 <= ax - k * (ax / k) < k) by (nonlinear_arith)
        requires
            ax >= 0,
            k >= 1,
    ;
    let q = ax / k;
    if x >= 0 {
        assert(fixed::trunc_div(x * 65536, k * 65536) == q);
    } else {
        assert(fixed::trunc_div(x * 65536, k * 65536) == -q);
        assert(k * (-q) == -(k * q)) by (nonlinear_arith);
    }
}

/// Equal and opposite impulses, each spent against the mass its car hits
/// with, keep the pair's momentum to within the rounding of the spending.
proof fn lemma_shoves_keep_momentum(a: Car, b: Car, ix: Fx, iy: Fx)
    requires
        -0x4000_0000 <= ix <= 0x4000_0000,
        -0x4000_0000 <= iy <= 0x4000_0000,
        shove_fits(a, (-ix) as i32, (-iy) as i32, -260i32, impact_mass_of(a.kind)),
        shove_fits(b, ix, iy, 260, impact_mass_of(b.kind)),
    ensures
        forall|da: int, db: int|
            #![trigger dented(shove_as_of(a, (-ix) as i32, (-iy) as i32, -260i32, impact_mass_of(a.kind)), da), dented(shove_as_of(b, ix, iy, 260, impact_mass_of(b.kind)), db)]
            momentum_kept(a, b,
                dented(shove_as_of(a, (-ix) as i32, (-iy) as i32, -260i32, impact_mass_of(a.kind)), da),
                dented(shove_as_of(b, ix, iy, 260, impact_mass_of(b.kind)), db)),
{
    let ka = impact_mass_of(a.kind) as int;
    let kb = impact_mass_of(b.kind) as int;
    assert(from_int_of(ka) == ka * 65536 && from_int_of(kb) == kb * 65536);
    lemma_spent_against_mass(-ix, ka);
    lemma_spent_against_mass(ix as int, kb);
    lemma_spent_against_mass(-iy, ka);
    lemma_spent_against_mass(iy as int, kb);
}

/// Exchange momentum between two touching cars and dent them both.
fn exchange(a: &mut Car, b: &mut Car, nx: Fx, ny: Fx, closing: Fx)
    requires
        collide_fits(*old(a)),
        collide_fits(*old(b)),
        (nx, ny) == (contact_of(*old(a), *old(b)).0, contact_of(*old(a), *old(b)).1),
        -ONE <= nx <= ONE,
        -ONE <= ny <= ONE,
        closing == closing_of(*old(a), *old(b)),
        -0x0080_0004 <= closing <= 0,
    ensures
        (*final(a), *final(b)) == shoved_of(*old(a), *old(b)),
        momentum_kept(*old(a), *old(b), *final(a), *final(b)),
        -0x1000_0000 <= final(a).x <= 0x1000_0000,
        -0x1000_0000 <= final(a).y <= 0x1000_0000,
        -0x1000_0000 <= final(b).x <= 0x1000_0000,
        -0x1000_0000 <= final(b).y <= 0x1000_0000,
{
    let ka = a.kind.impact_mass();
    let kb = b.kind.impact_mass();
    let ma = fixed::from_int(ka);
    let mb = fixed::from_int(kb);
    let both = ma + mb;
    proof {
        fixed::lemma_mul_bound(ma, mb, 7864320, 7864320);
        lemma_reduced_mass(a.kind, b.kind);
    }
    let reduced = fixed::div(fixed::mul(ma, mb), both);
    let bounce = fixed::ratio(-17, 10);
    proof {
        assert(fixed::from_int_of(-17) == -1114112 && fixed::from_int_of(10) == 655360);
        assert((1114112int * 65536) / 655360int == 111411) by (nonlinear_arith);
        assert(fixed::trunc_div(-1114112 * 65536, 655360) == -111411);
        fixed::lemma_mul_bound(closing, bounce, 0x0080_0004, 111411);
        fixed::lemma_mul_bound(fixed::fx_mul(closing, bounce), reduced, 0x0100_0000, 3932160);
    }
    let j = fixed::mul(fixed::mul(closing, bounce), reduced);
    proof {
        fixed::lemma_mul_bound(j, nx, 1006632961, 65536);
        fixed::lemma_mul_bound(j, ny, 1006632961, 65536);
    }
    let ix = fixed::mul(j, nx);
    let iy = fixed::mul(j, ny);
    proof {
        fixed::lemma_div_bound((-ix) as i32, ma, 1006632962, 589824);
        fixed::lemma_div_bound((-iy) as i32, ma, 1006632962, 589824);
        fixed::lemma_div_bound(ix, mb, 1006632962, 589824);
        fixed::lemma_div_bound(iy, mb, 1006632962, 589824);
    }
    proof {
        lemma_shoves_keep_momentum(*a, *b, ix, iy);
    }
    a.shove_as(-ix, -iy, -260, ka);
    b.shove_as(ix, iy, 260, kb);
    let sev = fixed::abs(closing);
    let f = fixed::floor(sev);
    let dent = if f < 0 { 0 } else if f > 12 { 12 } else { f };
    let da = a.damage as i32 + dent;
    a.damage = if da > 255 { 255 } else { da as u8 };
    let db = b.damage as i32 + dent;
    b.damage = if db > 255 { 255 } else { db as u8 };
}

/// Push two cars apart: the push `(fx, fy)` for the one that gives way,
/// or the halves `(hx, hy)` each, landing only on open ground.
fn separate<F: Fn(i32, i32) -> bool>(a: &mut Car, b: &mut Car, open: &F, push: (Fx, Fx, Fx, Fx)) -> (o: Ghost<(bool, bool, bool, bool)>)
    requires
        forall|i: i32, j: i32| open.requires((i, j)),
        -0x1000_0000 <= old(a).x <= 0x1000_0000,
        -0x1000_0000 <= old(a).y <= 0x1000_0000,
        -0x1000_0000 <= old(b).x <= 0x1000_0000,
        -0x1000_0000 <= old(b).y <= 0x1000_0000,
        -200000 <= push.0 <= 200000,
        -200000 <= push.1 <= 200000,
        -200000 <= push.2 <= 200000,
        -200000 <= push.3 <= 200000,
    ensures
        separated(*old(a), *old(b), *open, push, o@, *final(a), *final(b)),
{
    let (fx, fy, hx, hy) = push;
    let ghost mut o: (bool, bool, bool, bool) = (false, false, false, false);
    let ta = a.kind == CarKind::Taxi;
    let tb = b.kind == CarKind::Taxi;
    if ta && !tb {
        let moved = nudge(b, fx, fy, open);
        proof { o.0 = moved; }
        if !moved {
            let back = nudge(a, -fx, -fy, open);
            proof { o.1 = back; }
        }
    } else if tb && !ta {
        let moved = nudge(a, -fx, -fy, open);
        proof { o.0 = moved; }
        if !moved {
            let on = nudge(b, fx, fy, open);
            proof { o.1 = on; }
        }
    } else {
        let a_ok = nudge(a, -hx, -hy, open);
        let b_ok = nudge(b, hx, hy, open);
        proof { o.0 = a_ok; o.1 = b_ok; }
        if !a_ok {
            let again = nudge(b, hx, hy, open);
            proof { o.2 = again; }
        }
        if !b_ok {
            let again = nudge(a, -hx, -hy, open);
            proof { o.3 = again; }
        }
    }
    Ghost(o)
}

/// Resolve a collision between two cars on ground that `open` says
/// whether a cell of is open.
///
/// Momentum is exchanged along the line between their centres, scaled by
/// mass; each car is dented by the closing speed; and they are pushed
/// apart, each push landing only on open ground.  Cars out of reach of
/// each other, or already separating, are left alone.  Returns how hard
/// they met.
pub fn collide<F: Fn(i32, i32) -> bool>(a: &mut Car, b: &mut Car, open: &F) -> (r: Option<Fx>)
    requires
        collide_fits(*old(a)),
        collide_fits(*old(b)),
        forall|i: i32, j: i32| open.requires((i, j)),
    ensures
        r == (if touching(*old(a), *old(b)) {
            Some(vstd::math::abs(closing_of(*old(a), *old(b))) as i32)
        } else {
            None::<Fx>
        }),
        !touching(*old(a), *old(b)) ==> *final(a) == *old(a) && *final(b) == *old(b),
        touching(*old(a), *old(b)) ==> exists|o: (bool, bool, bool, bool)|
            separated(shoved_of(*old(a), *old(b)).0, shoved_of(*old(a), *old(b)).1, *open,
                push_of(*old(a), *old(b)), o, *final(a), *final(b)),
        touching(*old(a), *old(b)) ==> final(a).spin == old(a).spin - 260 && final(b).spin == old(b).spin + 260,
        touching(*old(a), *old(b)) ==> momentum_kept(*old(a), *old(b), *final(a), *final(b)),
{
    let ghost a0 = *a;
    let ghost b0 = *b;
    let dx = b.x - a.x;
    let dy = b.y - a.y;
    let sum = a.kind.half_len() + b.kind.half_len();
    proof {
        fixed::lemma_mul_bound(sum, CONTACT, 147456, 49152);
    }
    let reach = fixed::mul(sum, CONTACT);
    let (nx, ny, dist) = normalise(dx, dy);
    if dist > reach {
        return None;
    }
    let rvx = b.vx - a.vx;
    let rvy = b.vy - a.vy;
    proof {
        fixed::lemma_mul_bound(rvx, nx, 0x0040_0000, 65536);
        fixed::lemma_mul_bound(rvy, ny, 0x0040_0000, 65536);
    }
    let closing = fixed::mul(rvx, nx) + fixed::mul(rvy, ny);
    if closing > 0 {
        return None;
    }
    exchange(a, b, nx, ny, closing);
    let sev = fixed::abs(closing);
    let g = reach - dist;
    let gap = if g > 0 { g } else { 0 };
    let full = gap + BOUNCE;
    let part = gap / 2 + 1;
    proof {
        fixed::lemma_mul_bound(nx, full, 65536, 150000);
        fixed::lemma_mul_bound(ny, full, 65536, 150000);
        fixed::lemma_mul_bound(nx, part, 65536, 150000);
        fixed::lemma_mul_bound(ny, part, 65536, 150000);
    }
    let push = (fixed::mul(nx, full), fixed::mul(ny, full), fixed::mul(nx, part), fixed::mul(ny, part));
    let ghost (sa, sb) = (*a, *b);
    let o = separate(a, b, open, push);
    assert(a.vx == sa.vx && a.vy == sa.vy && a.spin == sa.spin);
    assert(b.vx == sb.vx && b.vy == sb.vy && b.spin == sb.spin);
    assert(separated(shoved_of(a0, b0).0, shoved_of(a0, b0).1, *open, push_of(a0, b0), o@, *a, *b));
    Some(sev)
}

/// The wheel turns the heading, not the velocity: within a tick, where
/// the car goes does not depend on the wheel at all, only on the pedals.
pub proof fn lemma_the_wheel_does_not_turn_the_velocity(car: Car, c1: Controls, c2: Controls, h: int)
    requires
        c1.throttle == c2.throttle,
        c1.handbrake == c2.handbrake,
    ensures
        advance_of(car, c1, h).vx == advance_of(car, c2, h).vx,
        advance_of(car, c1, h).vy == advance_of(car, c2, h).vy,
{
}

/// Whether car `j + 1` of a run is what a tick makes of car `j`.
#[verifier::opaque]
pub open spec fn ticked<F: Fn(i32, i32) -> bool>(cars: Seq<Car>, c: Controls, hz: i32, open: F, ox: Seq<bool>, oy: Seq<bool>, j: int) -> bool {
    step_of(cars[j], c, hz, open, ox[j], oy[j], cars[j + 1])
}

/// Whether a run starts parked: standing still, unwound, off the pedals,
/// and fit to step.
pub open spec fn parked_start(car: Car, c: Controls, hz: i32) -> bool {
    &&& step_fits(car, c, hz)
    &&& car.vx == 0 && car.vy == 0 && car.spin == 0 && car.pinned == 0
    &&& c.throttle == 0
}

/// Every car along a parked run is still parked where the run started.
proof fn lemma_parked_run<F: Fn(i32, i32) -> bool>(
    cars: Seq<Car>, c: Controls, hz: i32, open: F, ox: Seq<bool>, oy: Seq<bool>, k: int,
)
    requires
        0 <= k < cars.len(),
        ox.len() >= cars.len() - 1,
        oy.len() >= cars.len() - 1,
        parked_start(cars[0], c, hz),
        forall|j: int| 0 <= j < cars.len() - 1 ==> #[trigger] ticked(cars, c, hz, open, ox, oy, j),
    ensures
        parked_start(cars[k], c, hz),
        cars[k].x == cars[0].x && cars[k].y == cars[0].y,
        (forall|j: int| 0 <= j < k ==> #[trigger] ox[j] && oy[j]) ==> cars[k].yaw == cars[0].yaw,
    decreases k,
{
    if k > 0 {
        lemma_parked_run(cars, c, hz, open, ox, oy, k - 1);
        assert(ticked(cars, c, hz, open, ox, oy, k - 1));
        reveal(ticked);
        lemma_a_parked_car_cannot_be_steered(cars[k - 1], c, hz, open, ox[k - 1], oy[k - 1], cars[k]);
        if forall|j: int| 0 <= j < k ==> #[trigger] ox[j] && oy[j] {
            assert(ox[k - 1] && oy[k - 1]);
            assert(forall|j: int| 0 <= j < k - 1 ==> #[trigger] ox[j] && oy[j]);
        }
    }
}

/// A parked car cannot be steered however many ticks it is given: along
/// any run of ticks off the pedals, from standing still with nothing wound
/// up, it stays where it is, at a standstill, and while the ground it
/// stands on stays open its heading never moves.
pub proof fn lemma_a_parked_car_stays_parked<F: Fn(i32, i32) -> bool>(
    cars: Seq<Car>, c: Controls, hz: i32, open: F, ox: Seq<bool>, oy: Seq<bool>, k: int,
)
    requires
        0 <= k < cars.len(),
        ox.len() >= cars.len() - 1,
        oy.len() >= cars.len() - 1,
        parked_start(cars[0], c, hz),
        forall|j: int| 0 <= j < cars.len() - 1 ==> #[trigger] ticked(cars, c, hz, open, ox, oy, j),
    ensures
        cars[k].x == cars[0].x && cars[k].y == cars[0].y,
        cars[k].vx == 0 && cars[k].vy == 0 && cars[k].spin == 0,
        (forall|j: int| 0 <= j < k ==> #[trigger] ox[j] && oy[j]) ==> cars[k].yaw == cars[0].yaw,
{
    lemma_parked_run(cars, c, hz, open, ox, oy, k);
}

/// A parked car cannot be steered: standing still, off the pedals and
/// with nothing wound up, it stays where it is, at a standstill, however
/// the wheel is held; and on open ground its heading does not move.
pub proof fn lemma_a_parked_car_cannot_be_steered<F: Fn(i32, i32) -> bool>(car: Car, c: Controls, hz: i32, open: F, ox: bool, oy: bool, next: Car)
    requires
        step_fits(car, c, hz),
        car.vx == 0 && car.vy == 0 && car.spin == 0 && car.pinned == 0,
        c.throttle == 0,
        step_of(car, c, hz, open, ox, oy, next),
    ensures
        next.x == car.x && next.y == car.y,
        next.vx == 0 && next.vy == 0 && next.spin == 0,
        next.pinned == 0,
        step_fits(next, c, hz),
        ox && oy ==> next.yaw == car.yaw,
{
    let h = tick_rate(hz);
    let inv = tick_of(h);
    let a = advance_of(car, c, h);
    assert(fx_mul(0, cos_of(car.yaw)) == 0 && fx_mul(0, sin_of(car.yaw)) == 0);
    assert(fx_mul(0, (-sin_of(car.yaw)) as i32) == 0);
    assert(force_of(0, 0, wind_up_of(car, c, h).4) == 0);
    assert(0 * (inv as int) == 0) by (nonlinear_arith);
    assert(fx_mul(0, inv) == 0);
    assert(0 * (((ONE - DRAG) as i32) as int) == 0) by (nonlinear_arith);
    assert(fx_mul(0, (ONE - DRAG) as i32) == 0);
    assert(fx_mul(DRAG_AIR, 0) == 0);
    assert(fx_div(0, ONE) == 0);
    assert(drive_speed_of(0, 0, inv, wind_up_of(car, c, h).4) == 0);
    assert(fx_div(0, TURN_REF) == 0);
    assert(fx_mul(c.steer, 0) == 0);
    assert(fx_mul(0, 65536) == 0);
    let wind = wound_of(car, c, h).1;
    assert(0 * (wind as int) == 0) by (nonlinear_arith);
    assert(fx_mul(0, wind) == 0);
    assert(spin_of(0, c.steer, h, 0, wind) == 0);
    let vl = slide_of(0, 0, c.handbrake, h);
    assert(vl == 0);
    let (fx, fy) = (cos_of(car.yaw), sin_of(car.yaw));
    let rx: i32 = (-fy) as i32;
    assert((fx as int) * 0 == 0 && (fy as int) * 0 == 0 && (rx as int) * 0 == 0) by (nonlinear_arith);
    assert(fx_mul(fx, 0) == 0 && fx_mul(fy, 0) == 0 && fx_mul(rx, 0) == 0);
    assert(a.vx == 0 && a.vy == 0 && a.spin == 0);
    assert(a.yaw == car.yaw);
    assert(fx_mul(0, WALL_BOUNCE) == 0);
}

/// What a tick of driving keeps: paint is only ever lost, the wind-up
/// stays within three seconds of held throttle and the wheel's within two
/// seconds of held lock, the step reached is the seconds held (three at
/// most), a coin is spent one tick at a time and only on the throttle, and
/// the car stays the kind and colour it was.
pub proof fn lemma_a_tick_keeps_the_car_in_range<F: Fn(i32, i32) -> bool>(car: Car, c: Controls, hz: i32, open: F, ox: bool, oy: bool, next: Car)
    requires
        step_fits(car, c, hz),
        1 <= hz,
        car.pinned <= 3 * hz,
        car.wound <= 2 * hz,
        step_of(car, c, hz, open, ox, oy, next),
    ensures
        next.damage >= car.damage,
        next.pinned <= 3 * hz,
        next.stepped == if (next.pinned as int) / (hz as int) < 3 { (next.pinned as int) / (hz as int) } else { 3 },
        next.wound <= 2 * hz,
        next.boost == if car.boost > 0 && c.throttle > 0 { car.boost - 1 } else { car.boost as int },
        next.kind == car.kind,
        next.hue == car.hue,
{
    let h = tick_rate(hz);
    let inv = tick_of(h);
    let a = advance_of(car, c, h);
    assert(h == hz);
    assert(PIN_STEP as int * h / HZ as int == h);
    assert(WIND_AFTER as int * h / HZ as int == h);
    assert(WIND_OVER as int * h / HZ as int == h);
    let w = wind_up_of(car, c, h);
    assert(a.pinned == w.1 && a.stepped == w.2 && a.boost == w.0);
    assert(a.wound == wound_of(car, c, h).0);
    assert(a.damage == car.damage && a.kind == car.kind && a.hue == car.hue);
    let b = if ox { Car { x: (a.x + fx_mul(a.vx, inv)) as i32, ..a } } else { hit_of(a, true, inv) };
    assert(b.damage >= a.damage && b.pinned == a.pinned && b.stepped == a.stepped);
    assert(b.wound == a.wound && b.boost == a.boost && b.kind == a.kind && b.hue == a.hue);
}

/// The wheel works the other way round in reverse: from a steady
/// heading, the wheel to the right turns a car right going forwards and
/// left going backwards.
pub proof fn lemma_the_wheel_works_backwards_in_reverse(steer: Fx, h: int, vf: int, wind: Fx)
    requires
        0 <= steer <= ONE,
        1 <= h,
        -0x0400_0000 <= vf <= 0x0400_0000,
        ONE <= wind <= ONE + WIND_MAX,
    ensures
        vf >= 0 ==> spin_of(0, steer, h, vf, wind) >= 0,
        vf < 0 ==> spin_of(0, steer, h, vf, wind) <= 0,
{
    let sp: int = vstd::math::abs(vf) as int;
    let auth: Fx = if sp <= TURN_REF { fx_div(sp as i32, TURN_REF) } else { fx_div(TURN_REF, sp as i32) };
    if sp <= TURN_REF {
        fixed::lemma_div_bound(sp as i32, TURN_REF, 98304, 98304);
        fixed::lemma_div_nonneg(sp as i32, TURN_REF);
    } else {
        fixed::lemma_div_bound(TURN_REF, sp as i32, 98304, 98304);
        fixed::lemma_div_nonneg(TURN_REF, sp as i32);
    }
    let p1 = fx_mul(steer, auth);
    fixed::lemma_mul_bound(steer, auth, 65536, 65536);
    fixed::lemma_mul_nonneg(steer as int, auth as int);
    let dir: Fx = if vf < 0 { -65536i32 } else { 65536i32 };
    fixed::lemma_mul_bound(p1, dir, 65537, 65536);
    let p2 = fx_mul(p1, dir);
    if vf < 0 {
        fixed::lemma_mul_nonpos(dir as int, p1 as int);
        assert(fixed::mul_wide(p1 as int, dir as int) == fixed::mul_wide(dir as int, p1 as int)) by (nonlinear_arith);
        fixed::lemma_mul_nonpos(p2 as int, wind as int);
    } else {
        fixed::lemma_mul_nonneg(p1 as int, dir as int);
        fixed::lemma_mul_nonneg(p2 as int, wind as int);
    }
    fixed::lemma_mul_bound(p2, wind, 65538, 81920);
    let rate = fx_mul(p2, wind);
    if vf < 0 {
        assert(rate as int * TURN_RATE as int <= 0) by (nonlinear_arith)
            requires
                rate <= 0,
        ;
        assert((rate as int * TURN_RATE as int) / 65536 <= 0);
    } else {
        assert(rate as int * TURN_RATE as int >= 0) by (nonlinear_arith)
            requires
                rate >= 0,
        ;
        assert((rate as int * TURN_RATE as int) / 65536 >= 0);
    }
}

/// Letting go of the throttle unwinds the wind-up two ticks at a time,
/// so it is something you commit to rather than something you keep.
pub proof fn lemma_letting_go_unwinds_the_throttle(car: Car, c: Controls, h: int)
    requires
        c.throttle <= PIN_DOWN,
    ensures
        wind_up_of(car, c, h).1 == if car.pinned >= 2 { car.pinned - 2 } else { 0 },
{
}

/// Straightening the wheel unwinds the lock two ticks at a time.
pub proof fn lemma_straightening_up_unwinds_the_lock(car: Car, c: Controls, h: int)
    requires
        -WIND_LOCK <= c.steer <= WIND_LOCK,
    ensures
        wound_of(car, c, h).0 == if car.wound >= 2 { car.wound - 2 } else { 0 },
{
}

/// The speed along the nose never leaves the backstop: half the base top
/// speed in reverse, and the top speed the wind-up (or a coin) has
/// reached going forwards.
pub proof fn lemma_the_backstop_holds(vf0: int, t: Fx, inv: Fx, mult: Fx)
    requires
        ONE <= mult <= PIN_BOOST,
    ensures
        -fx_mul(VMAX, HALF) <= drive_speed_of(vf0, t, inv, mult) <= fx_mul(VMAX, mult),
{
    fixed::lemma_mul_bound(VMAX, mult, 458752, 262144);
    fixed::lemma_mul_nonneg(VMAX as int, mult as int);
    assert(fx_mul(VMAX, HALF) == 229376);
}

/// A wall takes the speed driven into it and leaves the speed along it:
/// hitting a wall across the x axis keeps all of the car's y velocity,
/// keeps no more than a twentieth of its x velocity (and turns it back),
/// costs at most forty of paint, and turns the car by no more than the
/// wall can in a tick.
pub proof fn lemma_a_wall_keeps_the_speed_along_it(car: Car, inv: Fx)
    requires
        -0x0400_0000 <= car.vx <= 0x0400_0000,
        0 < inv <= ONE,
    ensures
        hit_of(car, true, inv).vy == car.vy,
        car.vx >= 0 ==> -(car.vx / 20) - 1 <= hit_of(car, true, inv).vx <= 0,
        car.vx < 0 ==> 0 <= hit_of(car, true, inv).vx <= -car.vx / 20 + 1,
        car.damage <= hit_of(car, true, inv).damage <= car.damage + 40,
        hit_of(car, true, inv).x == car.x && hit_of(car, true, inv).y == car.y,
{
    let p = car.vx as int * WALL_BOUNCE as int;
    if car.vx >= 0 {
        assert(-(car.vx as int * 65536 / 20) - 65536 <= p <= 0) by (nonlinear_arith)
            requires
                p == car.vx as int * -3276,
                0 <= car.vx,
        ;
    } else {
        assert(0 <= p <= (-car.vx as int) * 65536 / 20 + 65536) by (nonlinear_arith)
            requires
                p == car.vx as int * -3276,
                car.vx < 0,
        ;
    }
}

/// A car never ends up inside a building: on ground that `ground` says
/// is open or not, a car whose centre stands on open ground still does
/// after a tick, whatever it drove into.
pub proof fn lemma_it_never_ends_up_inside_a_building<F: Fn(i32, i32) -> bool>(car: Car, c: Controls, hz: i32, open: F, ground: spec_fn(i32, i32) -> bool, ox: bool, oy: bool, next: Car)
    requires
        forall|i: i32, j: i32, b: bool| #[trigger] open.ensures((i, j), b) ==> b == ground(i, j),
        ground(fx_floor(car.x) as i32, fx_floor(car.y) as i32),
        step_of(car, c, hz, open, ox, oy, next),
    ensures
        ground(fx_floor(next.x) as i32, fx_floor(next.y) as i32),
{
}

} // verus!
