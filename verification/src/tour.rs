//! The autopilot: a camera that walks the streets and looks around.
//!
//! It reads the city instead of following a script: it walks until
//! something is in the way, turns at the junction, and stops to look up at
//! whatever is tallest nearby.
//!
//! Heading and gaze are separate.  `heading` is where the feet are going;
//! the camera's yaw is `heading + gaze`, and gaze wanders, so the walker can
//! turn its head to watch a tower go past without veering into it.
//!
//! It is deterministic: same streets and same seed, same walk, every time.
use vstd::prelude::*;
use crate::camera::{self, Camera, slid};
use crate::fixed::{self, Fx, HALF, fx_mul, mul_wide};
use crate::rng::{Rng, scale_below, xorshift};
use crate::sim::{atan2_approx, atan2_of};
use crate::trig::{self, Ang, cos_of, sin_of};
use crate::walk::{WalkMap, ring_of, searchable};

verus! {

/// What the walker reads of one cell of the city.
#[derive(Clone, Copy, Debug, PartialEq, Eq, Structural)]
pub struct Spot {
    /// Part of the street corridor: carriageway that is not an alley, or
    /// pavement.  A park or a plaza is walkable and is not a street.
    pub street: bool,
    /// Open ground, somewhere a person may stand.
    pub open: bool,
    /// Carriageway.
    pub road: bool,
    /// Where an avenue meets a cross street.
    pub junction: bool,
    /// The height of the ground, in world units.
    pub ground: Fx,
    /// The height of the building standing here, nothing for none.
    pub height: u8,
}

/// What is read off the map: nothing to stand on, at sea level.
pub open spec fn off_map() -> Spot {
    Spot { street: false, open: false, road: false, junction: false, ground: 0, height: 0 }
}

/// The heights the ground may have, so that an eye above it still fits.
pub open spec fn ground_fits(s: Spot) -> bool {
    -0x4000_0000 <= s.ground <= 0x4000_0000
}

/// The city as the walker sees it: a square of cells, each a [`Spot`].
pub struct Streets {
    size: usize,
    spots: Vec<Spot>,
}

impl Streets {
    /// The map is square, its side small enough that world coordinates on
    /// it and a few cells around it fit in 32 bits, and every cell's ground
    /// leaves room for an eye above it.
    #[verifier::type_invariant]
    spec fn shaped(self) -> bool {
        &&& self.size < 16384
        &&& self.spots@.len() == self.size * self.size
        &&& forall|i: int| 0 <= i < self.spots@.len() ==> ground_fits(#[trigger] self.spots@[i])
    }

    /// The length of a side, in cells.
    pub closed spec fn side(self) -> int {
        self.size as int
    }

    /// The spot at index `i`, row by row.
    pub closed spec fn spot_at(self, i: int) -> Spot {
        self.spots@[i]
    }

    /// What is at `(x, y)`: [`off_map`] outside the square.
    pub open spec fn spot(self, x: int, y: int) -> Spot {
        if 0 <= x < self.side() && 0 <= y < self.side() {
            self.spot_at(y * self.side() + x)
        } else {
            off_map()
        }
    }

    /// Whether the walker may be at `(x, y)`: on the street corridor, and
    /// on open ground.
    pub open spec fn walkable(self, x: int, y: int) -> bool {
        self.spot(x, y).street && self.spot(x, y).open
    }

    /// The side is under 16384 cells and every ground height fits.
    proof fn lemma_shaped(self)
        requires
            self.shaped(),
        ensures
            0 <= self.side() < 16384,
            forall|x: int, y: int| #[trigger] ground_fits(self.spot(x, y)),
    {
        assert forall|x: int, y: int| #[trigger] ground_fits(self.spot(x, y)) by {
            if 0 <= x < self.side() && 0 <= y < self.side() {
                assert(y * self.side() + x < self.side() * self.side()) by (nonlinear_arith)
                    requires 0 <= x < self.side(), 0 <= y < self.side();
                assert(0 <= y * self.side() + x) by (nonlinear_arith)
                    requires 0 <= x, 0 <= y, 0 <= self.side();
            }
        }
    }

    /// Build the map, a square of `size` cells a side, from what each cell
    /// holds.
    pub fn build(size: usize, spot_at: impl Fn(i32, i32) -> Spot) -> (m: Streets)
        requires
            size < 16384,
            forall|x: i32, y: i32| spot_at.requires((x, y)),
            forall|x: i32, y: i32, s: Spot| #[trigger] spot_at.ensures((x, y), s) ==> ground_fits(s),
        ensures
            m.side() == size,
            forall|x: i32, y: i32|
                0 <= x < size && 0 <= y < size ==> spot_at.ensures((x, y), #[trigger] m.spot(x as int, y as int)),
    {
        let mut spots: Vec<Spot> = Vec::new();
        let mut y: usize = 0;
        while y < size
            invariant
                size < 16384,
                forall|x: i32, y: i32| spot_at.requires((x, y)),
                forall|x: i32, y: i32, s: Spot| #[trigger] spot_at.ensures((x, y), s) ==> ground_fits(s),
                y <= size,
                spots@.len() == y * size,
                forall|i: int| 0 <= i < spots@.len() ==> ground_fits(#[trigger] spots@[i]),
                forall|xx: int, yy: int|
                    0 <= xx < size && 0 <= yy < y ==> spot_at.ensures((xx as i32, yy as i32), #[trigger] spots@[yy * size + xx]),
            decreases size - y,
        {
            let mut x: usize = 0;
            while x < size
                invariant
                    size < 16384,
                    forall|x: i32, y: i32| spot_at.requires((x, y)),
                    forall|x: i32, y: i32, s: Spot| #[trigger] spot_at.ensures((x, y), s) ==> ground_fits(s),
                    y < size,
                    x <= size,
                    spots@.len() == y * size + x,
                    forall|i: int| 0 <= i < spots@.len() ==> ground_fits(#[trigger] spots@[i]),
                    forall|xx: int, yy: int|
                        0 <= xx < size && 0 <= yy < y ==> spot_at.ensures((xx as i32, yy as i32), #[trigger] spots@[yy * size + xx]),
                    forall|xx: int| 0 <= xx < x ==> spot_at.ensures((xx as i32, y as i32), #[trigger] spots@[y * size + xx]),
                decreases size - x,
            {
                let s = spot_at(x as i32, y as i32);
                let ghost before = spots@;
                spots.push(s);
                proof {
                    assert forall|xx: int, yy: int|
                        0 <= xx < size && 0 <= yy < y implies spot_at.ensures((xx as i32, yy as i32), #[trigger] spots@[yy * size + xx]) by {
                        assert(yy * size + xx < y * size) by (nonlinear_arith)
                            requires
                                0 <= xx < size,
                                0 <= yy < y,
                        ;
                        assert(spots@[yy * size + xx] == before[yy * size + xx]);
                    }
                    assert forall|xx: int| 0 <= xx < x + 1 implies spot_at.ensures((xx as i32, y as i32), #[trigger] spots@[y * size + xx]) by {
                        if xx < x {
                            assert(spots@[y * size + xx] == before[y * size + xx]);
                        }
                    }
                }
                x = x + 1;
            }
            proof {
                assert((y + 1) * size == y * size + size) by (nonlinear_arith);
            }
            y = y + 1;
        }
        Streets { size, spots }
    }

    /// What is at this cell.
    pub fn at(&self, x: i32, y: i32) -> (s: Spot)
        ensures
            s == self.spot(x as int, y as int),
            ground_fits(s),
    {
        proof {
            use_type_invariant(self);
            self.lemma_shaped();
        }
        if x < 0 || y < 0 || x as usize >= self.size || y as usize >= self.size {
            return Spot { street: false, open: false, road: false, junction: false, ground: 0, height: 0 };
        }
        proof {
            assert(y as int * self.size + x < self.size * self.size) by (nonlinear_arith)
                requires
                    0 <= x < self.size,
                    0 <= y < self.size,
            ;
            assert(self.size * self.size < 0x1000_0000) by (nonlinear_arith)
                requires
                    self.size < 16384,
            ;
        }
        self.spots[y as usize * self.size + x as usize]
    }

    /// The length of a side, in cells.
    pub fn size(&self) -> (n: usize)
        ensures
            n == self.side(),
            n < 16384,
    {
        proof {
            use_type_invariant(self);
        }
        self.size
    }
}

/// What the walker is doing at the moment.
#[derive(Clone, Copy, Debug, PartialEq, Eq, Structural)]
pub enum Doing {
    /// Walking, with the head drifting slowly from side to side.
    Strolling,
    /// Stopped, or nearly, looking up at something tall.
    Admiring,
    /// Turning at a junction.
    Turning,
    /// Standing still, looking down the street.
    Waiting,
}

/// How far ahead the walker looks before deciding the way is blocked:
/// three and a half cells.
pub const PROBE: Fx = 229376;

/// How far it steps between probe samples: a quarter of a cell.
pub const PROBE_STEP: Fx = 16384;

/// Walking speed, in cell units per second: two and a quarter.
pub const PACE: Fx = 147456;

/// How hard the walker is pulled towards the middle of the street, in cell
/// units per second at full lopsidedness: one and a half.
pub const CENTRING: Fx = 98304;

/// How far to one side of the crown of the road the walker settles, in
/// quarter-cell probe steps.
pub const LANE_BIAS: i32 = 4;

/// The nearest a building may be for the walker to stop and look up at
/// it, in cells.
pub const MIN_ADMIRE: i32 = 4;

/// The most the camera will tilt up or down, in screen rows.
pub const MAX_TILT: i32 = 8;

/// How fast the head turns towards where it wants to look, as a fraction
/// of the remaining angle per tick at [`REFERENCE_HZ`].
pub const HEAD_TRACK: i32 = 6;

/// The tick rate the smoothing fractions are quoted at.
pub const REFERENCE_HZ: i32 = 30;

/// The autopilot.
pub struct Tour {
    /// The camera it is driving.  Read this; render from it.
    pub cam: Camera,
    /// Where the feet are going.
    pub heading: Ang,
    /// Where the feet are going next: the walker turns towards this.
    pub heading_target: Ang,
    /// Offset from the heading that the head is turned by.
    pub gaze: i32,
    /// Where the head is turning to.
    pub gaze_target: i32,
    /// Where the pitch is heading, in screen rows.
    pub pitch_target: i32,
    /// What it is doing.
    pub doing: Doing,
    /// Ticks left in the current behaviour.
    pub dwell: u32,
    /// Ticks since the tour started.
    pub tick: u32,
    /// Where its choices come from.
    pub rng: Rng,
}

/// Whether a camera is where the walker's arithmetic can follow it: within
/// a quarter of the number range of the origin.
pub open spec fn in_reach(cam: Camera) -> bool {
    &&& -0x4000_0000 <= cam.x <= 0x4000_0000
    &&& -0x4000_0000 <= cam.y <= 0x4000_0000
}

/// The cell a probe `t` along `ang` from the camera lands in.
pub open spec fn probe_cell(cam: Camera, ang: Ang, t: int) -> (int, int) {
    (
        (cam.x + fx_mul(cos_of(ang), t as i32)) / 65536,
        (cam.y + fx_mul(sin_of(ang), t as i32)) / 65536,
    )
}

/// Whether the `k`th probe step along `ang` is on the street corridor.
pub open spec fn street_ahead(s: Streets, cam: Camera, ang: Ang, k: int) -> bool {
    let c = probe_cell(cam, ang, k * PROBE_STEP);
    s.spot(c.0, c.1).street
}

/// The value of [`Tour::clear`]: every probe step out to `dist` is on the
/// street corridor.
pub open spec fn clear_of(s: Streets, cam: Camera, ang: Ang, dist: int) -> bool {
    forall|k: int| 1 <= k && k * PROBE_STEP <= dist ==> #[trigger] street_ahead(s, cam, ang, k)
}

/// How many probe steps past the `n`th are clear, up to thirty-two in all.
pub open spec fn clear_run(s: Streets, cam: Camera, ang: Ang, n: int) -> int
    decreases 32 - n,
{
    if n >= 32 || !street_ahead(s, cam, ang, n + 1) {
        n
    } else {
        clear_run(s, cam, ang, n + 1)
    }
}

/// The value of [`Tour::clearance`]: how many quarter-cell steps along
/// `ang` are clear before the first that is not, up to eight cells.
pub open spec fn clearance_of(s: Streets, cam: Camera, ang: Ang) -> int {
    clear_run(s, cam, ang, 0)
}

/// The clearance is between nothing and eight cells, and every step it
/// counts is on the street corridor.
pub proof fn lemma_clearance_counts_clear_steps(s: Streets, cam: Camera, ang: Ang, n: int)
    requires
        0 <= n <= 32,
    ensures
        n <= clear_run(s, cam, ang, n) <= 32,
        forall|k: int| n < k <= clear_run(s, cam, ang, n) ==> #[trigger] street_ahead(s, cam, ang, k),
        clear_run(s, cam, ang, n) < 32 ==> !street_ahead(s, cam, ang, clear_run(s, cam, ang, n) + 1),
    decreases 32 - n,
{
    if n < 32 && street_ahead(s, cam, ang, n + 1) {
        lemma_clearance_counts_clear_steps(s, cam, ang, n + 1);
    }
}

impl Tour {
    /// Where the probe `t` along the unit vector `(dx, dy)` lands.
    fn probe(&self, dx: Fx, dy: Fx, t: Fx) -> (c: (i32, i32))
        requires
            in_reach(self.cam),
            -65536 <= dx <= 65536,
            -65536 <= dy <= 65536,
            0 <= t <= 0x0100_0000,
        ensures
            c.0 == (self.cam.x + fx_mul(dx, t)) / 65536,
            c.1 == (self.cam.y + fx_mul(dy, t)) / 65536,
    {
        proof {
            fixed::lemma_mul_bound(dx, t, 65536, 0x0100_0000);
            fixed::lemma_mul_bound(dy, t, 65536, 0x0100_0000);
        }
        let x = self.cam.x + fixed::mul(dx, t);
        let y = self.cam.y + fixed::mul(dy, t);
        (fixed::floor(x), fixed::floor(y))
    }

    /// Whether the way is clear along `ang` for `dist`: every quarter-cell
    /// step out to it is on the street corridor.
    pub fn clear(&self, streets: &Streets, ang: Ang, dist: Fx) -> (r: bool)
        requires
            in_reach(self.cam),
            dist <= 0x0100_0000,
        ensures
            r == clear_of(*streets, self.cam, ang, dist as int),
    {
        let (dx, dy) = (trig::cos(ang), trig::sin(ang));
        proof {
            trig::lemma_table_bounds(ang);
        }
        let mut t = PROBE_STEP;
        let ghost mut k: int = 1;
        while t <= dist
            invariant
                in_reach(self.cam),
                dist <= 0x0100_0000,
                -65536 <= dx <= 65536,
                -65536 <= dy <= 65536,
                dx == cos_of(ang),
                dy == sin_of(ang),
                t == k * PROBE_STEP,
                1 <= k,
                forall|j: int| 1 <= j < k ==> #[trigger] street_ahead(*streets, self.cam, ang, j),
            decreases dist + PROBE_STEP - t,
        {
            let c = self.probe(dx, dy, t);
            if !streets.at(c.0, c.1).street {
                assert(!street_ahead(*streets, self.cam, ang, k));
                return false;
            }
            t = t + PROBE_STEP;
            proof {
                k = k + 1;
            }
        }
        proof {
            assert forall|j: int| 1 <= j && j * PROBE_STEP <= dist implies #[trigger] street_ahead(*streets, self.cam, ang, j) by {
                if j >= k {
                    assert(j * PROBE_STEP >= k * PROBE_STEP) by (nonlinear_arith)
                        requires j >= k, PROBE_STEP > 0;
                }
            }
        }
        true
    }

    /// How far the way is clear along `ang`, in quarter-cell steps, up to
    /// eight cells.
    pub fn clearance(&self, streets: &Streets, ang: Ang) -> (n: i32)
        requires
            in_reach(self.cam),
        ensures
            n == clearance_of(*streets, self.cam, ang),
            0 <= n <= 32,
    {
        let (dx, dy) = (trig::cos(ang), trig::sin(ang));
        proof {
            trig::lemma_table_bounds(ang);
            lemma_clearance_counts_clear_steps(*streets, self.cam, ang, 0);
        }
        let mut n: i32 = 0;
        while n < 32
            invariant
                in_reach(self.cam),
                -65536 <= dx <= 65536,
                -65536 <= dy <= 65536,
                dx == cos_of(ang),
                dy == sin_of(ang),
                0 <= n <= 32,
                clear_run(*streets, self.cam, ang, n as int) == clearance_of(*streets, self.cam, ang),
            decreases 32 - n,
        {
            let t = PROBE_STEP * (n + 1);
            let c = self.probe(dx, dy, t);
            if !streets.at(c.0, c.1).street {
                return n;
            }
            n = n + 1;
        }
        n
    }
}

/// `from` turned by `q` quarter turns.
pub open spec fn turned(from: Ang, q: int) -> Ang {
    ((from + q * 16384) % 65536) as Ang
}

/// The quarter turns [`Tour::best_heading`] tries, in order of preference:
/// straight on, right, left, back.
pub open spec fn quarter_at(i: int) -> int {
    if i == 0 { 0 } else if i == 1 { 1 } else if i == 2 { 3 } else { 2 }
}

/// The `i`th heading [`Tour::best_heading`] tries, and its score: four per
/// clear step, less one for each option before it.
pub open spec fn option_at(s: Streets, cam: Camera, from: Ang, i: int) -> (Ang, int) {
    let a = turned(from, quarter_at(i));
    (a, clearance_of(s, cam, a) * 4 - i)
}

/// The best of the first `n` options, the earlier winning a tie.
pub open spec fn best_upto(s: Streets, cam: Camera, from: Ang, n: nat) -> (Ang, int)
    decreases n,
{
    if n == 0 {
        (from, i32::MIN as int)
    } else {
        let b = best_upto(s, cam, from, (n - 1) as nat);
        let o = option_at(s, cam, from, n - 1);
        if o.1 > b.1 { o } else { b }
    }
}

/// The value of [`Tour::best_heading`].
pub open spec fn best_heading_of(s: Streets, cam: Camera, from: Ang) -> Ang {
    best_upto(s, cam, from, 4).0
}

/// A heading turned a quarter to the left, and to the right.
pub open spec fn left_of(h: Ang) -> Ang {
    ((h + 65536 - 16384) % 65536) as Ang
}

/// A heading turned a quarter to the right.
pub open spec fn right_of(h: Ang) -> Ang {
    ((h + 16384) % 65536) as Ang
}

/// The value of [`Tour::pick_turn`] for a generator in state `st`, and the
/// state it leaves: left or right if either has six clear steps, a coin
/// between them if both do, else straight on.
pub open spec fn pick_turn_of(s: Streets, cam: Camera, heading: Ang, st: u32) -> (Ang, u32) {
    let (l, r) = (left_of(heading), right_of(heading));
    let (lc, rc) = (clearance_of(s, cam, l), clearance_of(s, cam, r));
    if lc >= 6 && rc >= 6 {
        (if scale_below(xorshift(st), 2) < 1 { l } else { r }, xorshift(st))
    } else if lc >= 6 {
        (l, st)
    } else if rc >= 6 {
        (r, st)
    } else {
        (heading, st)
    }
}

/// The cell a camera stands in.
pub open spec fn cell_of(cam: Camera) -> (int, int) {
    (cam.x as int / 65536, cam.y as int / 65536)
}

/// The value of [`Tour::junction`]: the cell underfoot is carriageway
/// where an avenue meets a cross street.
pub open spec fn junction_of(s: Streets, cam: Camera) -> bool {
    let c = cell_of(cam);
    s.spot(c.0, c.1).road && s.spot(c.0, c.1).junction
}

/// What the `i`th cell of the scan round `(cx, cy)` offers to look at, if
/// anything: a building at least twelve high and at least [`MIN_ADMIRE`]
/// rings away, scored tall and close over tall and far, with the bearing
/// to it and the pitch that takes its top in.
pub open spec fn admire_at(s: Streets, cx: int, cy: int, i: int) -> Option<(int, Ang, int)> {
    let dy = i / 21 - 10;
    let dx = i % 21 - 10;
    let h = s.spot(cx + dx, cy + dy).height as int;
    let dist = ring_of(dx, dy);
    if h < 12 || dist < MIN_ADMIRE {
        None
    } else {
        Some((
            h * 8 / dist,
            atan2_of(fixed::from_int_of(dy), fixed::from_int_of(dx)),
            fixed::clamp_of(h * 3 / (dist + 2), 2, MAX_TILT as int),
        ))
    }
}

/// The best-scoring of the first `n` cells of the scan, the earlier
/// winning a tie.
pub open spec fn scan_best(s: Streets, cx: int, cy: int, n: nat) -> Option<(int, Ang, int)>
    decreases n,
{
    if n == 0 {
        None
    } else {
        let b = scan_best(s, cx, cy, (n - 1) as nat);
        match admire_at(s, cx, cy, n - 1) {
            None => b,
            Some(c) => if b is None || c.0 > (b->0).0 { Some(c) } else { b },
        }
    }
}

/// The value of [`Tour::tallest_nearby`]: the best of the twenty-one by
/// twenty-one cells round the camera, as a bearing and a pitch.
pub open spec fn tallest_nearby_of(s: Streets, cam: Camera) -> Option<(Ang, i32)> {
    let c = cell_of(cam);
    match scan_best(s, c.0, c.1, 441) {
        None => None,
        Some(b) => Some((b.1, b.2 as i32)),
    }
}

impl Tour {
    /// The clearest of the four cardinal directions relative to `from`,
    /// preferring straight on, then a turn, and only reversing at a dead
    /// end.
    pub fn best_heading(&self, streets: &Streets, from: Ang) -> (a: Ang)
        requires
            in_reach(self.cam),
        ensures
            a == best_heading_of(*streets, self.cam, from),
    {
        let quarters: [u16; 4] = [0, 1, 3, 2];
        let mut best = from;
        let mut best_score = i32::MIN;
        let mut i: usize = 0;
        while i < 4
            invariant
                in_reach(self.cam),
                quarters@ == seq![0u16, 1, 3, 2],
                i <= 4,
                (best, best_score as int) == best_upto(*streets, self.cam, from, i as nat),
            decreases 4 - i,
        {
            let q = quarters[i];
            let ang = from.wrapping_add(q.wrapping_mul(trig::QUARTER));
            let score = self.clearance(streets, ang) * 4 - i as i32;
            proof {
                assert(q as int == quarter_at(i as int));
                assert(ang == turned(from, quarter_at(i as int)));
            }
            if score > best_score {
                best_score = score;
                best = ang;
            }
            i = i + 1;
        }
        best
    }

    /// A turn at a junction: left or right if either is clear, else
    /// straight on.
    pub fn pick_turn(&mut self, streets: &Streets) -> (a: Ang)
        requires
            in_reach(old(self).cam),
        ensures
            (a, final(self).rng.state()) == pick_turn_of(*streets, old(self).cam, old(self).heading, old(self).rng.state()),
            *final(self) == (Tour { rng: final(self).rng, ..*old(self) }),
    {
        let left = self.heading.wrapping_sub(trig::QUARTER);
        let right = self.heading.wrapping_add(trig::QUARTER);
        assert(left == left_of(self.heading) && right == right_of(self.heading));
        let (lc, rc) = (self.clearance(streets, left), self.clearance(streets, right));
        if lc >= 6 && rc >= 6 {
            if self.rng.chance(1, 2) {
                left
            } else {
                right
            }
        } else if lc >= 6 {
            left
        } else if rc >= 6 {
            right
        } else {
            self.heading
        }
    }

    /// Whether the cell underfoot is where an avenue meets a cross street.
    pub fn junction(&self, streets: &Streets) -> (b: bool)
        ensures
            b == junction_of(*streets, self.cam),
    {
        let here = streets.at(fixed::floor(self.cam.x), fixed::floor(self.cam.y));
        if !here.road {
            return false;
        }
        here.junction
    }

    /// The tallest building within a few blocks, as a bearing and the pitch
    /// needed to take its top in.  Nothing under four cells away: that is
    /// something you are about to walk into, not something you look up at.
    pub fn tallest_nearby(&self, streets: &Streets) -> (r: Option<(Ang, i32)>)
        ensures
            r == tallest_nearby_of(*streets, self.cam),
            r matches Some(p) ==> 2 <= p.1 <= MAX_TILT,
    {
        let cx = fixed::floor(self.cam.x);
        let cy = fixed::floor(self.cam.y);
        let mut best: Option<(i32, Ang, i32)> = None;
        let mut dy: i32 = -10;
        while dy <= 10
            invariant
                cx == cell_of(self.cam).0,
                cy == cell_of(self.cam).1,
                -10 <= dy <= 11,
                -0x8000 <= cx < 0x8000,
                -0x8000 <= cy < 0x8000,
                best matches Some(b) ==> scan_best(*streets, cx as int, cy as int, ((dy + 10) * 21) as nat) == Some((b.0 as int, b.1, b.2 as int)),
                best is None ==> scan_best(*streets, cx as int, cy as int, ((dy + 10) * 21) as nat) is None,
                best matches Some(b) ==> 2 <= b.2 <= MAX_TILT,
            decreases 11 - dy,
        {
            let mut dx: i32 = -10;
            while dx <= 10
                invariant
                    cx == cell_of(self.cam).0,
                    cy == cell_of(self.cam).1,
                    -10 <= dy <= 10,
                    -10 <= dx <= 11,
                    -0x8000 <= cx < 0x8000,
                    -0x8000 <= cy < 0x8000,
                    best matches Some(b) ==> scan_best(*streets, cx as int, cy as int, ((dy + 10) * 21 + dx + 10) as nat) == Some((b.0 as int, b.1, b.2 as int)),
                    best is None ==> scan_best(*streets, cx as int, cy as int, ((dy + 10) * 21 + dx + 10) as nat) is None,
                    best matches Some(b) ==> 2 <= b.2 <= MAX_TILT,
                decreases 11 - dx,
            {
                let ghost i: int = (dy + 10) * 21 + dx + 10;
                assert(i / 21 - 10 == dy && i % 21 - 10 == dx);
                let h = streets.at(cx + dx, cy + dy).height as i32;
                let ax = if dx < 0 { -dx } else { dx };
                let ay = if dy < 0 { -dy } else { dy };
                let dist = if ax >= ay { ax } else { ay };
                assert(dist == ring_of(dx as int, dy as int));
                if h >= 12 && dist >= MIN_ADMIRE {
                    let score = h * 8 / dist;
                    let better = match best {
                        None => true,
                        Some(b) => score > b.0,
                    };
                    if better {
                        let ang = atan2_approx(fixed::from_int(dy), fixed::from_int(dx));
                        let p = (h * 3) / (dist + 2);
                        let pitch = if p < 2 { 2 } else if p > MAX_TILT { MAX_TILT } else { p };
                        best = Some((score, ang, pitch));
                    }
                }
                dx = dx + 1;
            }
            dy = dy + 1;
        }
        match best {
            None => None,
            Some(b) => Some((b.1, b.2)),
        }
    }
}

/// The difference `a - b` between two headings, the shorter way round.
pub open spec fn angle_between(a: Ang, b: Ang) -> int {
    trig::signed_of(((a + 65536 - b) % 65536) as u16)
}

/// Whether `t2` is what [`Tour::decide`] can leave of `t` at `hz` ticks a
/// second, on these streets.  One roll below a hundred decides: at a
/// junction, under 45 turns; under 62, look up at the tallest thing near,
/// if there is one; under 70, wait; otherwise stroll, with the head
/// drifting and a slight tilt.  How long each lasts, and where the head
/// and the eyes go, are further draws.
#[verifier::opaque]
pub open spec fn chosen(s: Streets, t: Tour, hz: int, t2: Tour) -> bool {
    let x1 = xorshift(t.rng.state());
    let x2 = xorshift(x1);
    let roll = scale_below(x1, 100);
    let h = hz as u32;
    if junction_of(s, t.cam) && roll < 45 {
        let (turn, st) = pick_turn_of(s, t.cam, t.heading, x1);
        &&& t2 == (Tour {
            doing: Doing::Turning,
            dwell: (h * 3 / 4) as u32,
            heading_target: turn,
            gaze_target: 0,
            pitch_target: 0,
            rng: t2.rng,
            ..t
        })
        &&& t2.rng.state() == st
    } else if roll < 62 && tallest_nearby_of(s, t.cam) is Some {
        let (ang, pitch) = tallest_nearby_of(s, t.cam)->0;
        &&& t2 == (Tour {
            doing: Doing::Admiring,
            dwell: (h * 2 + scale_below(x2, h)) as u32,
            gaze_target: fixed::clamp_of(angle_between(ang, t.heading), -9000, 9000) as i32,
            pitch_target: pitch,
            rng: t2.rng,
            ..t
        })
        &&& t2.rng.state() == x2
    } else if roll < 70 {
        &&& t2 == (Tour {
            doing: Doing::Waiting,
            dwell: (h + scale_below(x2, h)) as u32,
            gaze_target: 0,
            pitch_target: 0,
            rng: t2.rng,
            ..t
        })
        &&& t2.rng.state() == x2
    } else {
        let x3 = xorshift(x2);
        let x4 = xorshift(x3);
        &&& t2 == (Tour {
            doing: Doing::Strolling,
            dwell: (h + scale_below(x2, (2 * h) as u32)) as u32,
            gaze_target: (-5200 + scale_below(x3, 10401)) as i32,
            pitch_target: (-2 + scale_below(x4, 6)) as i32,
            rng: t2.rng,
            ..t
        })
        &&& t2.rng.state() == x4
    }
}

impl Tour {
    /// Pick the next thing to do.
    pub fn decide(&mut self, streets: &Streets, hz: i32)
        requires
            in_reach(old(self).cam),
            1 <= hz < 32768,
        ensures
            chosen(*streets, *old(self), hz as int, *final(self)),
            -9000 <= final(self).gaze_target <= 9000,
            -2 <= final(self).pitch_target <= MAX_TILT,
            hz >= 2 ==> final(self).dwell >= 1,
            final(self).cam == old(self).cam,
            final(self).heading == old(self).heading,
            final(self).gaze == old(self).gaze,
            final(self).tick == old(self).tick,
    {
        let ghost t = *self;
        reveal(chosen);
        let h = hz as u32;
        let at_junction = self.junction(streets);
        let roll = self.rng.below(100);
        if at_junction && roll < 45 {
            self.doing = Doing::Turning;
            self.dwell = (h * 3) / 4;
            self.heading_target = self.pick_turn(streets);
            self.gaze_target = 0;
            self.pitch_target = 0;
            return;
        }
        if roll < 62 {
            if let Some((ang, pitch)) = self.tallest_nearby(streets) {
                self.doing = Doing::Admiring;
                let extra = self.rng.below(h);
                self.dwell = h * 2 + extra;
                let d = ang.wrapping_sub(self.heading);
                proof {
                    trig::lemma_signed(d);
                }
                let g = d as i16 as i32;
                self.gaze_target = if g < -9000 { -9000 } else if g > 9000 { 9000 } else { g };
                self.pitch_target = pitch;
                return;
            }
        }
        if roll < 70 {
            self.doing = Doing::Waiting;
            let extra = self.rng.below(h);
            self.dwell = h + extra;
            self.gaze_target = 0;
            self.pitch_target = 0;
            return;
        }
        self.doing = Doing::Strolling;
        let extra = self.rng.below(h * 2);
        self.dwell = h + extra;
        self.gaze_target = self.rng.range(-5200, 5200);
        self.pitch_target = self.rng.range(-2, 3);
    }
}

/// How many ticks a smoothing fraction quoted at [`REFERENCE_HZ`] takes at
/// `hz`: the divisor scaled by the tick rate, and never below one.
pub open spec fn rate_of(divisor: int, hz: int) -> int {
    let r = divisor * hz / REFERENCE_HZ as int;
    if r < 1 { 1 } else { r }
}

/// The sign of a number: -1, 0 or 1.
pub open spec fn signum(v: int) -> int {
    if v < 0 { -1 } else if v > 0 { 1 } else { 0 }
}

/// `v` moved `1/r` of the way to `target`, rounding towards `v`.
pub open spec fn approach_of(v: int, target: int, r: int) -> int {
    v + fixed::trunc_div(target - v, r)
}

/// The pitch moved towards its target: `1/r` of the way, or a row at a
/// time once it is closer than `r` rows.
pub open spec fn tilt_of(p: int, target: int, r: int) -> int {
    let dp = target - p;
    if dp == 0 {
        p
    } else if vstd::math::abs(dp) < r {
        p + signum(dp)
    } else {
        p + fixed::trunc_div(dp, r)
    }
}

/// The heading turned `1/r` of the shorter way towards `target`.
pub open spec fn turn_of(h: Ang, target: Ang, r: int) -> Ang {
    ((h + fixed::trunc_div(angle_between(target, h), r)) % 65536) as Ang
}

/// The tour after one tick of turning the feet towards the target
/// heading, the head towards where it wants to look and the eyes towards
/// their pitch: each an exponential approach, scaled by the tick rate.
pub open spec fn eased(t: Tour, hz: int) -> Tour {
    let heading = turn_of(t.heading, t.heading_target, rate_of(8, hz));
    let gaze = approach_of(t.gaze as int, t.gaze_target as int, rate_of(HEAD_TRACK as int, hz));
    let pitch = tilt_of(t.cam.pitch as int, t.pitch_target as int, rate_of(4, hz));
    Tour {
        heading,
        gaze: gaze as i32,
        cam: Camera { yaw: ((heading + gaze) % 65536) as Ang, pitch: pitch as i32, ..t.cam },
        ..t
    }
}

/// A tick's rate for a smoothing fraction.
fn rate(divisor: i32, hz: i32) -> (r: i32)
    requires
        1 <= divisor <= 8,
        1 <= hz < 32768,
    ensures
        r == rate_of(divisor as int, hz as int),
        r >= 1,
{
    proof {
        assert(divisor * hz <= 8 * 32768) by (nonlinear_arith) requires 1 <= divisor <= 8, 1 <= hz < 32768;
        assert(divisor * hz >= 1) by (nonlinear_arith) requires 1 <= divisor <= 8, 1 <= hz < 32768;
    }
    let r = divisor * hz / REFERENCE_HZ;
    if r < 1 { 1 } else { r }
}

/// `v` moved `1/r` of the way to `target`: it stays between the two.
fn approach(v: i32, target: i32, r: i32) -> (n: i32)
    requires
        -0x2000_0000 <= v <= 0x2000_0000,
        -0x2000_0000 <= target <= 0x2000_0000,
        r >= 1,
    ensures
        n == approach_of(v as int, target as int, r as int),
        (v <= n <= target) || (target <= n <= v),
{
    let d = target - v;
    proof {
        let g = d as int;
        let ri = r as int;
        assert(0 <= g ==> 0 <= g / ri <= g) by (nonlinear_arith) requires ri >= 1;
        assert(g < 0 ==> 0 <= (-g) / ri <= -g) by (nonlinear_arith) requires ri >= 1;
    }
    v + d / r
}

/// The pitch a tick nearer its target: it stays between the two.
fn tilt(p: i32, target: i32, r: i32) -> (n: i32)
    requires
        -0x2000_0000 <= p <= 0x2000_0000,
        -0x2000_0000 <= target <= 0x2000_0000,
        r >= 1,
    ensures
        n == tilt_of(p as int, target as int, r as int),
        (p <= n <= target) || (target <= n <= p),
{
    let dp = target - p;
    if dp == 0 {
        return p;
    }
    let adp = if dp < 0 { -dp } else { dp };
    if adp < r {
        p + if dp < 0 { -1 } else { 1 }
    } else {
        proof {
            let g = dp as int;
            let ri = r as int;
            assert(0 <= g ==> 0 <= g / ri <= g) by (nonlinear_arith) requires ri >= 1;
            assert(g < 0 ==> 0 <= (-g) / ri <= -g) by (nonlinear_arith) requires ri >= 1;
        }
        p + dp / r
    }
}

/// The heading turned `1/r` of the shorter way towards `target`.
fn turn_towards(h: Ang, target: Ang, r: i32) -> (n: Ang)
    requires
        r >= 1,
    ensures
        n == turn_of(h, target, r as int),
{
    let d = target.wrapping_sub(h);
    proof {
        trig::lemma_signed(d);
    }
    let dh = d as i16 as i32;
    let q = dh / r;
    let n = h.wrapping_add(q as Ang);
    proof {
        trig::lemma_turn(h, q);
    }
    n
}

/// The value of [`Tour::lateral`]: the pull towards the open side, in
/// cell units per second, from how much clearer the right shoulder is than
/// the left, plus the lane bias, out of eight.
pub open spec fn lateral_of(s: Streets, t: Tour) -> int {
    let bias = clearance_of(s, t.cam, right_of(t.heading)) - clearance_of(s, t.cam, left_of(t.heading)) + LANE_BIAS;
    fixed::clamp_of(bias, -8, 8) * 12288
}

/// Walking speed for what the walker is doing: a quarter pace admiring,
/// half turning, nothing waiting.
pub open spec fn speed_of(d: Doing) -> Fx {
    match d {
        Doing::Admiring => 36864,
        Doing::Waiting => 0,
        Doing::Turning => 73728,
        Doing::Strolling => PACE,
    }
}

/// Where a camera ends up sliding by `(mx, my)` over these streets: each
/// axis, x first, moves if the cell its probe lands in is walkable.
pub open spec fn slide_on(s: Streets, cam: Camera, mx: Fx, my: Fx) -> Camera {
    let bx = s.walkable(camera::probe_of(cam.x, mx) as int, cam.y as int / 65536);
    let x1: int = if bx { cam.x + mx } else { cam.x as int };
    let by = s.walkable(x1 / 65536, camera::probe_of(cam.y, my) as int);
    let y1: int = if by { cam.y + my } else { cam.y as int };
    Camera { x: x1 as i32, y: y1 as i32, ..cam }
}

/// A camera with its eye at head height above the ground it stands on.
pub open spec fn stood(s: Streets, cam: Camera) -> Camera {
    let c = cell_of(cam);
    Camera { z: (s.spot(c.0, c.1).ground + camera::EYE) as i32, ..cam }
}

/// The move one tick makes: along the heading at the walking speed, and
/// across it by the pull `lateral`, both per second.
pub open spec fn step_move(t: Tour, lateral: int, hz: int) -> (Fx, Fx) {
    let d = fixed::fx_div(speed_of(t.doing), (hz * 65536) as i32);
    let side = fixed::fx_div(lateral as i32, (hz * 65536) as i32);
    let (fx, fy) = (cos_of(t.heading), sin_of(t.heading));
    (
        (fx_mul(fx, d) + fx_mul((-fy) as i32, side)) as i32,
        (fx_mul(fy, d) + fx_mul(fx, side)) as i32,
    )
}

/// The tour after one tick's walk: slid over the streets and stood up.
pub open spec fn moved(s: Streets, t: Tour, lateral: int, hz: int) -> Tour {
    let (mx, my) = step_move(t, lateral, hz);
    Tour { cam: stood(s, slide_on(s, t.cam, mx, my)), ..t }
}

/// The tour after looking ahead: if the way along the heading is not clear
/// for [`PROBE`], aim at the best heading, and start turning if it was not
/// already.
pub open spec fn checked(s: Streets, t: Tour, hz: int) -> Tour {
    if clear_of(s, t.cam, t.heading, PROBE as int) {
        t
    } else if t.doing != Doing::Turning {
        Tour {
            heading_target: best_heading_of(s, t.cam, t.heading),
            doing: Doing::Turning,
            dwell: (hz * 3 / 4) as u32,
            gaze_target: 0,
            pitch_target: 0,
            ..t
        }
    } else {
        Tour { heading_target: best_heading_of(s, t.cam, t.heading), ..t }
    }
}

/// The rest of a tick once the behaviour is settled: ease, walk, look.
#[verifier::opaque]
pub open spec fn walked(s: Streets, t: Tour, hz: int) -> Tour {
    let e = eased(t, hz);
    checked(s, moved(s, e, lateral_of(s, e), hz), hz)
}

/// Whether the numbers a tour carries leave room for a tick's arithmetic.
pub open spec fn steppable(t: Tour) -> bool {
    &&& in_reach(t.cam)
    &&& -0x2000_0000 <= t.gaze <= 0x2000_0000
    &&& -0x2000_0000 <= t.gaze_target <= 0x2000_0000
    &&& -0x2000_0000 <= t.cam.pitch <= 0x2000_0000
    &&& -0x2000_0000 <= t.pitch_target <= 0x2000_0000
}

/// Whether `t2` is what [`Tour::step`] makes of `t` at `hz`, when the
/// behaviour settled at the start of the tick was `mid`: a new choice if
/// the last one had run its course, the tick counted, then eased, walked
/// and looked ahead.
pub open spec fn step_via(s: Streets, t: Tour, hz: int, mid: Tour, t2: Tour) -> bool {
    let hz1 = if hz < 1 { 1 } else { hz };
    let t0 = Tour { tick: ((t.tick + 1) % 0x1_0000_0000) as u32, ..t };
    &&& t.dwell == 0 ==> chosen(s, t0, hz1, mid)
    &&& t.dwell != 0 ==> mid == t0
    &&& t2 == walked(s, Tour { dwell: (mid.dwell - 1) as u32, ..mid }, hz1)
}

/// A slide of under two cells from a camera within reach stays within
/// reach: an axis only moves towards a walkable cell, and every walkable
/// cell is on the map.
proof fn lemma_slide_stays_in_reach(s: Streets, cam: Camera, mx: Fx, my: Fx)
    requires
        s.side() < 16384,
        in_reach(cam),
        -0x20000 <= mx <= 0x20000,
        -0x20000 <= my <= 0x20000,
    ensures
        in_reach(slide_on(s, cam, mx, my)),
{
}

impl Tour {
    /// Turn the feet towards the target heading, and the head and the eyes
    /// towards where they want to be.
    fn ease(&mut self, hz: i32)
        requires
            1 <= hz < 32768,
            steppable(*old(self)),
        ensures
            *final(self) == eased(*old(self), hz as int),
            steppable(*final(self)),
    {
        let heading = turn_towards(self.heading, self.heading_target, rate(8, hz));
        self.heading = heading;
        let gaze = approach(self.gaze, self.gaze_target, rate(HEAD_TRACK, hz));
        self.gaze = gaze;
        let yaw = heading.wrapping_add(gaze as Ang);
        proof {
            trig::lemma_turn(heading, gaze);
        }
        self.cam.yaw = yaw;
        self.cam.pitch = tilt(self.cam.pitch, self.pitch_target, rate(4, hz));
    }

    /// How hard the walker is pulled sideways, towards the open side of
    /// the street.
    fn lateral(&self, streets: &Streets) -> (l: Fx)
        requires
            in_reach(self.cam),
        ensures
            l == lateral_of(*streets, *self),
            -98304 <= l <= 98304,
    {
        let left = self.heading.wrapping_sub(trig::QUARTER);
        let right = self.heading.wrapping_add(trig::QUARTER);
        assert(left == left_of(self.heading) && right == right_of(self.heading));
        let bias = self.clearance(streets, right) - self.clearance(streets, left) + LANE_BIAS;
        let b = if bias < -8 { -8 } else if bias > 8 { 8 } else { bias };
        let l = fixed::mul(fixed::ratio(b, 8), CENTRING);
        proof {
            let bi = b as int;
            assert(fixed::from_int_of(bi) == bi * 65536);
            assert(fixed::from_int_of(8) == 524288);
            assert(fixed::trunc_div(bi * 65536 * 65536, 524288) == bi * 8192) by (nonlinear_arith)
                requires -8 <= bi <= 8;
            assert((bi * 8192 * 98304) / 65536 == bi * 12288) by (nonlinear_arith)
                requires -8 <= bi <= 8;
        }
        l
    }

    /// Walk one tick along the heading, pulled sideways by `lateral`,
    /// sliding along whatever is not walkable, and stand on the ground
    /// there.
    fn walk_on(&mut self, streets: &Streets, lateral: Fx, hz: i32)
        requires
            2 <= hz < 32768,
            in_reach(old(self).cam),
            -98304 <= lateral <= 98304,
        ensures
            *final(self) == moved(*streets, *old(self), lateral as int, hz as int),
            in_reach(final(self).cam),
    {
        let speed: Fx = match self.doing {
            Doing::Admiring => fixed::mul(PACE, fixed::ratio(1, 4)),
            Doing::Waiting => 0,
            Doing::Turning => fixed::mul(PACE, fixed::ratio(1, 2)),
            Doing::Strolling => PACE,
        };
        proof {
            assert(fixed::from_int_of(1) == 65536 && fixed::from_int_of(4) == 262144 && fixed::from_int_of(2) == 131072);
            assert(fixed::trunc_div(4294967296int, 262144int) == 16384) by {
                assert(4294967296int / 262144int == 16384) by (nonlinear_arith);
            }
            assert(fixed::trunc_div(4294967296int, 131072int) == 32768) by {
                assert(4294967296int / 131072int == 32768) by (nonlinear_arith);
            }
            assert((147456int * 16384) / 65536 == 36864) by (nonlinear_arith);
            assert((147456int * 32768) / 65536 == 73728) by (nonlinear_arith);
            assert(speed == speed_of(self.doing));
        }
        let per = fixed::from_int(hz);
        proof {
            fixed::lemma_div_bound(speed, per, 147456, 131072);
            fixed::lemma_div_bound(lateral, per, 98304, 131072);
        }
        let d = fixed::div(speed, per);
        let side = fixed::div(lateral, per);
        let (fx, fy) = (trig::cos(self.heading), trig::sin(self.heading));
        proof {
            trig::lemma_table_bounds(self.heading);
        }
        let nfy = -fy;
        proof {
            fixed::lemma_mul_bound(fx, d, 65536, 73728);
            fixed::lemma_mul_bound(nfy, side, 65536, 49152);
            fixed::lemma_mul_bound(fy, d, 65536, 73728);
            fixed::lemma_mul_bound(fx, side, 65536, 49152);
        }
        let mx = fixed::mul(fx, d) + fixed::mul(nfy, side);
        let my = fixed::mul(fy, d) + fixed::mul(fx, side);
        assert((mx, my) == step_move(*self, lateral as int, hz as int));
        let ghost was = self.cam;
        let walkable = |x: i32, y: i32| -> (r: bool)
            ensures
                r == streets.walkable(x as int, y as int),
            {
                let sp = streets.at(x, y);
                sp.street && sp.open
            };
        self.cam.slide_where(mx, my, walkable);
        proof {
            let (bx, by) = choose|bx: bool, by: bool| slid(was, mx, my, walkable, bx, by, self.cam);
            assert(slid(was, mx, my, walkable, bx, by, self.cam));
            assert(self.cam == slide_on(*streets, was, mx, my));
            use_type_invariant(streets);
            lemma_slide_stays_in_reach(*streets, was, mx, my);
        }
        let ground = |x: i32, y: i32| -> (g: Fx)
            ensures
                g == streets.spot(x as int, y as int).ground,
                -0x4000_0000 <= g <= 0x4000_0000,
            {
                streets.at(x, y).ground
            };
        let ghost slid_to = self.cam;
        self.cam.stand(ground);
        proof {
            let h = choose|h: Fx| #[trigger] ground.ensures(((slid_to.x as int / 65536) as i32, (slid_to.y as int / 65536) as i32), h)
                && self.cam == (Camera { z: (h + camera::EYE) as i32, ..slid_to });
            assert(self.cam == stood(*streets, slid_to));
        }
    }

    /// Look ahead: if the way along the heading is blocked, aim for the
    /// best way out and turn, whatever else was going on.
    fn look_ahead(&mut self, streets: &Streets, hz: i32)
        requires
            2 <= hz < 32768,
            in_reach(old(self).cam),
        ensures
            *final(self) == checked(*streets, *old(self), hz as int),
    {
        if !self.clear(streets, self.heading, PROBE) {
            self.heading_target = self.best_heading(streets, self.heading);
            if self.doing != Doing::Turning {
                self.doing = Doing::Turning;
                self.dwell = (hz as u32 * 3) / 4;
                self.gaze_target = 0;
                self.pitch_target = 0;
            }
        }
    }

    /// Advance one tick at `hz` ticks per second.
    pub fn step(&mut self, streets: &Streets, hz: i32)
        requires
            2 <= hz < 32768,
            steppable(*old(self)),
        ensures
            steppable(*final(self)),
            exists|mid: Tour| #[trigger] step_via(*streets, *old(self), hz as int, mid, *final(self)),
    {
        let ghost t = *self;
        self.tick = self.tick.wrapping_add(1);
        if self.dwell == 0 {
            self.decide(streets, hz);
        }
        let ghost mid = *self;
        self.dwell = self.dwell - 1;
        let ghost x = *self;
        assert(x == (Tour { dwell: (mid.dwell - 1) as u32, ..mid }));
        self.ease(hz);
        let ghost e = *self;
        let lateral = self.lateral(streets);
        self.walk_on(streets, lateral, hz);
        let ghost m = *self;
        self.look_ahead(streets, hz);
        proof {
            assert(*self == walked(*streets, x, hz as int)) by {
                reveal(walked);
            }
            assert(step_via(*streets, t, hz as int, mid, *self));
        }
    }
}

/// What a search round a cell is looking for.
#[derive(Clone, Copy, Debug, PartialEq, Eq, Structural)]
pub enum Want {
    /// Carriageway.
    Road,
    /// Somewhere the walker may be: street corridor and open.
    Walkable,
}

/// Whether the cell `(p, q)` is what `want` looks for.
pub open spec fn wanted(s: Streets, want: Want, p: int, q: int) -> bool {
    match want {
        Want::Road => s.spot(p, q).road,
        Want::Walkable => s.walkable(p, q),
    }
}

/// Whether `r` is the nearest cell round `(x, y)` that `want` looks for,
/// ring by ring out to `limit` rings (at least the cell itself), and along
/// each ring row by row; `None` when there is none.
pub open spec fn is_nearest(s: Streets, x: i32, y: i32, limit: i32, want: Want, r: Option<(i32, i32)>) -> bool {
    let lim = if limit > 1 { limit as int } else { 1 };
    match r {
        None => forall|p: int, q: int| ring_of(p - x, q - y) < lim ==> !#[trigger] wanted(s, want, p, q),
        Some(c) => {
            let n = ring_of(c.0 - x, c.1 - y);
            &&& wanted(s, want, c.0 as int, c.1 as int)
            &&& n < lim
            &&& forall|p: int, q: int| ring_of(p - x, q - y) < n ==> !#[trigger] wanted(s, want, p, q)
            &&& forall|p: int, q: int| ring_of(p - x, q - y) == n && (q < c.1 || (q == c.1 && p < c.0))
                ==> !#[trigger] wanted(s, want, p, q)
        },
    }
}

impl Streets {
    /// Whether this cell is what `want` looks for.
    pub fn wants(&self, want: Want, x: i32, y: i32) -> (b: bool)
        ensures
            b == wanted(*self, want, x as int, y as int),
    {
        let sp = self.at(x, y);
        match want {
            Want::Road => sp.road,
            Want::Walkable => sp.street && sp.open,
        }
    }

    /// The nearest cell round `(x, y)` that `want` looks for, ring by ring
    /// out to `limit` rings, and along each ring row by row: the cell
    /// itself if it will do, `None` if nothing will.
    pub fn nearest(&self, x: i32, y: i32, limit: i32, want: Want) -> (r: Option<(i32, i32)>)
        requires
            searchable(x, y, limit),
        ensures
            is_nearest(*self, x, y, limit, want, r),
    {
        if self.wants(want, x, y) {
            return Some((x, y));
        }
        assert forall|p: int, q: int| ring_of(p - x, q - y) < 1 implies !#[trigger] wanted(*self, want, p, q) by {
            assert(p == x && q == y);
        }
        let mut r: i32 = 1;
        while r < limit
            invariant
                searchable(x, y, limit),
                1 <= r,
                r <= limit || r == 1,
                forall|p: int, q: int| ring_of(p - x, q - y) < r ==> !#[trigger] wanted(*self, want, p, q),
            decreases limit - r,
        {
            let mut dy: i32 = -r;
            while dy <= r
                invariant
                    searchable(x, y, limit),
                    1 <= r < limit,
                    -r <= dy <= r + 1,
                    forall|p: int, q: int| ring_of(p - x, q - y) < r ==> !#[trigger] wanted(*self, want, p, q),
                    forall|p: int, q: int| ring_of(p - x, q - y) == r && q < y + dy ==> !#[trigger] wanted(*self, want, p, q),
                decreases r + 1 - dy,
            {
                let mut dx: i32 = -r;
                while dx <= r
                    invariant
                        searchable(x, y, limit),
                        1 <= r < limit,
                        -r <= dy <= r,
                        -r <= dx <= r + 1,
                        forall|p: int, q: int| ring_of(p - x, q - y) < r ==> !#[trigger] wanted(*self, want, p, q),
                        forall|p: int, q: int| ring_of(p - x, q - y) == r && q < y + dy ==> !#[trigger] wanted(*self, want, p, q),
                        forall|p: int| ring_of(p - x, dy as int) == r && p < x + dx ==> !#[trigger] wanted(*self, want, p, y + dy),
                    decreases r + 1 - dx,
                {
                    let ax = if dx < 0 { -dx } else { dx };
                    let ay = if dy < 0 { -dy } else { dy };
                    if ax == r || ay == r {
                        if self.wants(want, x + dx, y + dy) {
                            return Some((x + dx, y + dy));
                        }
                    }
                    dx = dx + 1;
                }
                dy = dy + 1;
            }
            r = r + 1;
        }
        None
    }
}

/// Whether `cam` is a camera [`Camera::spawn`] can put down round
/// `(x, y)`: in the middle of a cell within [`camera::SPAWN_RINGS`] of it,
/// facing east, level, with the default lens.
pub open spec fn spawned_near(cam: Camera, x: int, y: int) -> bool {
    let c = cell_of(cam);
    &&& ring_of(c.0 - x, c.1 - y) < camera::SPAWN_RINGS
    &&& cam.x == c.0 * 65536 + HALF
    &&& cam.y == c.1 * 65536 + HALF
    &&& cam.yaw == 0
    &&& cam.pitch == 0
    &&& cam.fov == 43690
}

/// A camera moved to the middle of the cell `c`, standing on its ground.
pub open spec fn moved_to(s: Streets, cam: Camera, c: (i32, i32)) -> Camera {
    stood(s, Camera { x: (c.0 * 65536 + HALF) as i32, y: (c.1 * 65536 + HALF) as i32, ..cam })
}

/// Whether `cam` is where a tour starts when [`Camera::spawn`] put it
/// down at `c0`: out into the nearest carriageway within 48 rings, `road`;
/// then, if that is not on the street corridor, out to the nearest cell
/// that is and is open within 40 rings, `out`, standing on the ground.
pub open spec fn start_from(s: Streets, c0: Camera, road: Option<(i32, i32)>, out: Option<(i32, i32)>, cam: Camera) -> bool {
    let k0 = cell_of(c0);
    let c1 = match road { Some(c) => moved_to(s, c0, c), None => c0 };
    let k1 = cell_of(c1);
    &&& is_nearest(s, k0.0 as i32, k0.1 as i32, 48, Want::Road, road)
    &&& if s.spot(k1.0, k1.1).street {
        cam == c1
    } else {
        &&& is_nearest(s, k1.0 as i32, k1.1 as i32, 40, Want::Walkable, out)
        &&& cam == match out { Some(c) => moved_to(s, c1, c), None => stood(s, c1) }
    }
}

/// Whether `t` is a tour of these streets just begun with this seed: from
/// wherever the camera was put down, facing the clearest way, strolling.
pub open spec fn started(s: Streets, seed: u32, c0: Camera, road: Option<(i32, i32)>, out: Option<(i32, i32)>, t: Tour) -> bool {
    let cam = Camera { yaw: 0, ..t.cam };
    let h = best_heading_of(s, cam, 0);
    &&& spawned_near(c0, s.side() / 2, s.side() / 2)
    &&& start_from(s, c0, road, out, cam)
    &&& t == (Tour {
        cam: Camera { yaw: h, ..t.cam },
        heading: h,
        heading_target: h,
        gaze: 0,
        gaze_target: 0,
        pitch_target: 0,
        doing: Doing::Strolling,
        dwell: 1,
        tick: 0,
        rng: t.rng,
    })
    &&& t.rng.state() == if seed ^ 0x7005_0000u32 == 0 { crate::rng::ZERO_SEED } else { seed ^ 0x7005_0000u32 }
}

impl Tour {
    /// Start a tour of the streets from wherever [`Camera::spawn`] puts you
    /// in the middle of the map, on the walking network `walk`: out into
    /// the carriageway, and onto a street corridor if that was not one,
    /// facing whichever way the street actually runs.
    #[verifier::rlimit(40)]
    pub fn new(streets: &Streets, walk: &WalkMap, seed: u32) -> (t: Tour)
        ensures
            exists|c0: Camera, road: Option<(i32, i32)>, out: Option<(i32, i32)>|
                #[trigger] started(*streets, seed, c0, road, out, t),
            steppable(t),
    {
        proof {
            use_type_invariant(streets);
            streets.lemma_shaped();
        }
        let size = streets.size() as i32;
        let open = |x: i32, y: i32| -> (r: bool)
            ensures
                r == streets.spot(x as int, y as int).open,
            {
                streets.at(x, y).open
            };
        let ground = |x: i32, y: i32| -> (g: Fx)
            ensures
                g == streets.spot(x as int, y as int).ground,
                -0x4000_0000 <= g <= 0x4000_0000,
            {
                streets.at(x, y).ground
            };
        let half: i32 = size / 2;
        let mut cam = Camera::spawn(open, walk, ground, half, half);
        let ghost c0 = cam;
        proof {
            let (found, fallback, ok, h) = choose|found: Option<(i32, i32)>, fallback: Option<(i32, i32)>, ok: bool, h: Fx|
                #[trigger] camera::spawned(open, *walk, ground, half, half, found, fallback, ok, h, cam);
            assert(camera::spawned(open, *walk, ground, half, half, found, fallback, ok, h, cam));
            if found is Some {
                assert(ring_of((found->0).0 - half, (found->0).1 - half) < camera::SPAWN_RINGS);
            }
            if fallback is Some {
                assert(camera::searched(half as int, half as int, found, (fallback->0).0 as int, (fallback->0).1 as int));
            }
            assert(spawned_near(c0, half as int, half as int));
        }
        let road = streets.nearest(fixed::floor(cam.x), fixed::floor(cam.y), 48, Want::Road);
        if let Some((rx, ry)) = road {
            cam.x = fixed::from_int(rx) + HALF;
            cam.y = fixed::from_int(ry) + HALF;
            let ghost was = cam;
            cam.stand(ground);
            proof {
                let h = choose|h: Fx| #[trigger] ground.ensures(((was.x as int / 65536) as i32, (was.y as int / 65536) as i32), h)
                    && cam == (Camera { z: (h + camera::EYE) as i32, ..was });
                assert(cam == moved_to(*streets, c0, (rx, ry)));
            }
        }
        let ghost c1 = cam;
        let mut out: Option<(i32, i32)> = None;
        if !streets.at(fixed::floor(cam.x), fixed::floor(cam.y)).street {
            out = streets.nearest(fixed::floor(cam.x), fixed::floor(cam.y), 40, Want::Walkable);
            if let Some((x, y)) = out {
                cam.x = fixed::from_int(x) + HALF;
                cam.y = fixed::from_int(y) + HALF;
            }
            let ghost was = cam;
            cam.stand(ground);
            proof {
                let h = choose|h: Fx| #[trigger] ground.ensures(((was.x as int / 65536) as i32, (was.y as int / 65536) as i32), h)
                    && cam == (Camera { z: (h + camera::EYE) as i32, ..was });
                assert(cam == stood(*streets, was));
                if out is Some {
                    assert(cam == moved_to(*streets, c1, out->0));
                } else {
                    assert(cam == stood(*streets, c1));
                }
            }
        }
        let ghost c2 = cam;
        proof {
            assert(start_from(*streets, c0, road, out, c2));
            assert(in_reach(c2));
        }
        let mut t = Tour {
            cam,
            heading: 0,
            heading_target: 0,
            gaze: 0,
            gaze_target: 0,
            pitch_target: 0,
            doing: Doing::Strolling,
            dwell: 1,
            tick: 0,
            rng: Rng::new(seed ^ 0x7005_0000),
        };
        let h = t.best_heading(streets, 0);
        assert(h == best_heading_of(*streets, c2, 0));
        t.heading = h;
        t.heading_target = h;
        t.cam.yaw = h;
        proof {
            assert(Camera { yaw: 0, ..t.cam } == c2);
            assert(spawned_near(c0, streets.side() / 2, streets.side() / 2));
            assert(started(*streets, seed, c0, road, out, t));
        }
        t
    }
}

/// A slide of under a cell less the probe's reach, from walkable ground,
/// ends on walkable ground: each axis either stays in its cell or lands in
/// the cell its probe found walkable.
pub proof fn lemma_a_short_slide_stays_on_walkable_ground(s: Streets, cam: Camera, mx: Fx, my: Fx)
    requires
        in_reach(cam),
        -(65536 - camera::RADIUS) < mx < 65536 - camera::RADIUS,
        -(65536 - camera::RADIUS) < my < 65536 - camera::RADIUS,
        s.walkable(cell_of(cam).0, cell_of(cam).1),
    ensures
        s.walkable(cell_of(slide_on(s, cam, mx, my)).0, cell_of(slide_on(s, cam, mx, my)).1),
{
    let bx = s.walkable(camera::probe_of(cam.x, mx) as int, cam.y as int / 65536);
    let x1: int = if bx { cam.x + mx } else { cam.x as int };
    assert(s.walkable(x1 / 65536, cam.y as int / 65536));
    let by = s.walkable(x1 / 65536, camera::probe_of(cam.y, my) as int);
    let y1: int = if by { cam.y + my } else { cam.y as int };
    assert(s.walkable(x1 / 65536, y1 / 65536));
}

/// Every pitch the tallest-building scan suggests is between two rows and
/// [`MAX_TILT`].
proof fn lemma_scan_pitch(s: Streets, cx: int, cy: int, n: nat)
    ensures
        scan_best(s, cx, cy, n) matches Some(b) ==> 2 <= b.2 <= MAX_TILT,
    decreases n,
{
    if n > 0 {
        lemma_scan_pitch(s, cx, cy, (n - 1) as nat);
    }
}

/// A draw below `n` is below `n`.
proof fn lemma_scale_below(x: u32, n: u32)
    requires
        n > 0,
    ensures
        0 <= scale_below(x, n) < n,
{
    assert((x as int * n as int) / 0x1_0000_0000 < n) by (nonlinear_arith)
        requires
            x < 0x1_0000_0000,
            n > 0,
    ;
    assert(0 <= (x as int * n as int) / 0x1_0000_0000) by (nonlinear_arith)
        requires
            0 <= x,
            n > 0,
    ;
}

/// The walker never walks into a building: at five ticks a second or more,
/// where each tick's move is under a cell less the camera's probe reach, a
/// step from walkable ground ends on walkable ground.
pub proof fn lemma_it_never_walks_into_a_building(s: Streets, t: Tour, hz: int, mid: Tour, t2: Tour)
    requires
        steppable(t),
        5 <= hz < 32768,
        s.walkable(cell_of(t.cam).0, cell_of(t.cam).1),
        step_via(s, t, hz, mid, t2),
    ensures
        s.walkable(cell_of(t2.cam).0, cell_of(t2.cam).1),
{
    reveal(walked);
    reveal(chosen);
    assert(mid.cam == t.cam);
    let x = Tour { dwell: (mid.dwell - 1) as u32, ..mid };
    let e = eased(x, hz);
    let lat = lateral_of(s, e);
    assert(-98304 <= lat <= 98304);
    let speed = speed_of(e.doing);
    let per = (hz * 65536) as i32;
    fixed::lemma_div_bound(speed, per, 147456, 327680);
    fixed::lemma_div_bound(lat as i32, per, 98304, 327680);
    let d = fixed::fx_div(speed, per);
    let side = fixed::fx_div(lat as i32, per);
    trig::lemma_table_bounds(e.heading);
    let (fx, fy) = (cos_of(e.heading), sin_of(e.heading));
    fixed::lemma_mul_bound(fx, d, 65536, 29491);
    fixed::lemma_mul_bound((-fy) as i32, side, 65536, 19660);
    fixed::lemma_mul_bound(fy, d, 65536, 29491);
    fixed::lemma_mul_bound(fx, side, 65536, 19660);
    let (mx, my) = step_move(e, lat, hz);
    lemma_a_short_slide_stays_on_walkable_ground(s, e.cam, mx, my);
}

/// The walker never tilts the ground off the screen: from a pitch and a
/// pitch target within [`MAX_TILT`] rows, a step leaves both within it.
pub proof fn lemma_it_never_tilts_the_ground_off_the_screen(s: Streets, t: Tour, hz: int, mid: Tour, t2: Tour)
    requires
        steppable(t),
        2 <= hz < 32768,
        -MAX_TILT <= t.cam.pitch <= MAX_TILT,
        -MAX_TILT <= t.pitch_target <= MAX_TILT,
        step_via(s, t, hz, mid, t2),
    ensures
        -MAX_TILT <= t2.cam.pitch <= MAX_TILT,
        -MAX_TILT <= t2.pitch_target <= MAX_TILT,
{
    reveal(walked);
    reveal(chosen);
    let c = cell_of(t.cam);
    lemma_scan_pitch(s, c.0, c.1, 441);
    let x1 = xorshift(t.rng.state());
    let x4 = xorshift(xorshift(xorshift(x1)));
    lemma_scale_below(x4, 6);
    assert(-MAX_TILT <= mid.pitch_target <= MAX_TILT);
    assert(mid.cam == t.cam);
    let x = Tour { dwell: (mid.dwell - 1) as u32, ..mid };
    let r = rate_of(4, hz);
    let p = x.cam.pitch as int;
    let g = x.pitch_target - p;
    assert(0 <= g ==> 0 <= g / r <= g) by (nonlinear_arith) requires r >= 1;
    assert(g < 0 ==> 0 <= (-g) / r <= -g) by (nonlinear_arith) requires r >= 1;
    let e = eased(x, hz);
    assert(-MAX_TILT <= e.cam.pitch <= MAX_TILT);
}

/// Each step is deterministic: the same tour on the same streets at the
/// same rate steps to the same tour, however the step is arrived at.
pub proof fn lemma_a_step_is_reproducible(s: Streets, t: Tour, hz: int, m1: Tour, t1: Tour, m2: Tour, t2: Tour)
    requires
        step_via(s, t, hz, m1, t1),
        step_via(s, t, hz, m2, t2),
    ensures
        t1 == t2,
{
    reveal(chosen);
    crate::rng::lemma_same_state_same_generator(m1.rng, m2.rng);
    assert(m1 == m2);
}

} // verus!
