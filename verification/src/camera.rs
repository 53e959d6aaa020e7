//! Where you are standing and which way you are looking.
//!
//! The camera is a first-person one: eye height a bit under two units,
//! feet on the ground, and it cannot walk through what its caller says it
//! may not stand on.
use vstd::prelude::*;
use crate::fixed::{self, Fx, HALF, mul_wide};
use crate::trig::{self, Ang, cos_of, sin_of};
use crate::walk::{Foot, WalkMap, ring_of};

verus! {

/// Eye height above the pavement, in world units: three tenths.
pub const EYE: Fx = 19660;

/// How close you may get to a wall: a fifth of a cell.
pub const RADIUS: Fx = 13107;

/// One unit of walking speed, per second: four and a half cells.
pub const WALK_SPEED: Fx = 294912;

/// Turning speed, in angle units per second.
pub const TURN_SPEED: i32 = 24_000;

/// The camera.
#[derive(Clone, Copy, Debug)]
pub struct Camera {
    /// Position, in cell units.
    pub x: Fx,
    /// Position, in cell units.
    pub y: Fx,
    /// Eye height above the ground.
    pub z: Fx,
    /// Heading.
    pub yaw: Ang,
    /// Vertical look, in screen rows added to the horizon.
    pub pitch: i32,
    /// Half-width of the camera plane.  Larger is a wider lens.
    pub fov: Fx,
}

impl Default for Camera {
    /// Standing at cell (8, 8) facing east, level, with a lens of about
    /// sixty-seven degrees (a plane half-width of two thirds).
    fn default() -> (c: Camera)
        ensures
            c.x == 8 * 65536 && c.y == 8 * 65536,
            c.z == EYE,
            c.yaw == 0,
            c.pitch == 0,
            c.fov == 43690,
    {
        Camera { x: 8 * 65536, y: 8 * 65536, z: EYE, yaw: 0, pitch: 0, fov: 43690 }
    }
}

/// `v` carrying the sign of `sign`, and zero for a zero sign: the collision
/// probe is pushed in the direction of travel.
pub open spec fn copysign_of(v: int, sign: int) -> int {
    if sign < 0 { -v } else if sign > 0 { v } else { 0 }
}

/// `v` carrying the sign of `sign`, and zero for a zero sign.
fn copysign(v: Fx, sign: Fx) -> (r: Fx)
    requires
        v != i32::MIN,
    ensures
        r == copysign_of(v as int, sign as int),
{
    if sign < 0 {
        -v
    } else if sign > 0 {
        v
    } else {
        0
    }
}

/// Where [`Camera::slide_where`] probes ahead of a move along one axis.
pub open spec fn probe_of(p: Fx, m: Fx) -> i32 {
    ((p + m + copysign_of(RADIUS as int, m as int)) / 65536) as i32
}

/// Whether a move of `(mx, my)` from where `cam` stands, and its probe a
/// radius ahead, can be worked out in 32 bits.
pub open spec fn slide_fits(cam: Camera, mx: Fx, my: Fx) -> bool {
    &&& i32::MIN <= cam.x + mx + copysign_of(RADIUS as int, mx as int) <= i32::MAX
    &&& i32::MIN <= cam.x + mx <= i32::MAX
    &&& i32::MIN <= cam.y + my + copysign_of(RADIUS as int, my as int) <= i32::MAX
    &&& i32::MIN <= cam.y + my <= i32::MAX
}

/// Whether `next` is where sliding `cam` by `(mx, my)` can leave it, when
/// the probes ahead of the move along x and then along y came back `bx`
/// and `by`: each axis moves if its probe was allowed, and nothing else
/// about the camera changes.
pub open spec fn slid<F: Fn(i32, i32) -> bool>(cam: Camera, mx: Fx, my: Fx, allowed: F, bx: bool, by: bool, next: Camera) -> bool {
    let x1: int = if bx { cam.x + mx } else { cam.x as int };
    let y1: int = if by { cam.y + my } else { cam.y as int };
    &&& allowed.ensures((probe_of(cam.x, mx), (cam.y as int / 65536) as i32), bx)
    &&& allowed.ensures(((x1 / 65536) as i32, probe_of(cam.y, my)), by)
    &&& next == (Camera { x: x1 as i32, y: y1 as i32, ..cam })
}

/// The world-space move of walking `forward` along the view and `strafe`
/// across it.
pub open spec fn walk_delta(cam: Camera, forward: Fx, strafe: Fx) -> (Fx, Fx) {
    let (dx, dy) = (cos_of(cam.yaw), sin_of(cam.yaw));
    let (px, py) = ((-dy) as i32, dx);
    (
        (mul_wide(dx as int, forward as int) as i32 + mul_wide(px as int, strafe as int) as i32) as i32,
        (mul_wide(dy as int, forward as int) as i32 + mul_wide(py as int, strafe as int) as i32) as i32,
    )
}

impl Camera {
    /// Unit vector along the view direction.
    pub fn dir(&self) -> (d: (Fx, Fx))
        ensures
            d == (cos_of(self.yaw), sin_of(self.yaw)),
    {
        (trig::cos(self.yaw), trig::sin(self.yaw))
    }

    /// The camera plane: perpendicular to the direction, scaled by the
    /// field of view.  A ray is `dir + plane * t` for `t` in `-1..=1`.
    pub fn plane(&self) -> (p: (Fx, Fx))
        ensures
            p == (mul_wide(-sin_of(self.yaw), self.fov as int) as i32, mul_wide(cos_of(self.yaw) as int, self.fov as int) as i32),
    {
        let (dx, dy) = self.dir();
        proof {
            trig::lemma_table_bounds(self.yaw);
        }
        (fixed::mul(-dy, self.fov), fixed::mul(dx, self.fov))
    }

    /// Turn.  Positive is clockwise, seen from above; the heading wraps.
    pub fn turn(&mut self, by: i32)
        ensures
            *final(self) == (Camera { yaw: ((old(self).yaw + (by as u16)) % 65536) as u16, ..*old(self) }),
    {
        self.yaw = self.yaw.wrapping_add(by as Ang);
    }

    /// Look up or down, clamped so the horizon stays within `limit` rows.
    pub fn look(&mut self, rows: i32, limit: i32)
        requires
            limit >= 0,
            i32::MIN <= old(self).pitch + rows <= i32::MAX,
        ensures
            *final(self) == (Camera {
                pitch: crate::fixed::clamp_of(old(self).pitch + rows, -limit as int, limit as int) as i32,
                ..*old(self)
            }),
    {
        let p = self.pitch + rows;
        self.pitch = if p < -limit { -limit } else if p > limit { limit } else { p };
    }

    /// Move by a world-space delta, but only onto ground `allowed` accepts.
    ///
    /// The two axes are resolved separately, x first, so that running into
    /// a wall at an angle slides along it.  Each is probed a radius ahead of
    /// the move, in the direction of travel.
    pub fn slide_where(&mut self, mx: Fx, my: Fx, allowed: impl Fn(i32, i32) -> bool)
        requires
            forall|a: i32, b: i32| allowed.requires((a, b)),
            slide_fits(*old(self), mx, my),
        ensures
            exists|bx: bool, by: bool| slid(*old(self), mx, my, allowed, bx, by, *final(self)),
    {
        let nx = self.x + mx;
        let px = fixed::floor(nx + copysign(RADIUS, mx));
        let py = fixed::floor(self.y);
        let ghost x0 = self.x;
        let ghost y0 = self.y;
        let bx = allowed(px, py);
        assert(px == probe_of(x0, mx) && py == (y0 as int / 65536) as i32);
        if bx {
            self.x = nx;
        }
        assert(allowed.ensures((probe_of(x0, mx), (y0 as int / 65536) as i32), bx));
        let ny = self.y + my;
        let qx = fixed::floor(self.x);
        let qy = fixed::floor(ny + copysign(RADIUS, my));
        let by = allowed(qx, qy);
        assert(qy == probe_of(y0, my) && qx == (self.x as int / 65536) as i32);
        if by {
            self.y = ny;
        }
        assert(allowed.ensures(((self.x as int / 65536) as i32, probe_of(y0, my)), by));
        assert(slid(Camera { x: x0, y: y0, ..*self }, mx, my, allowed, bx, by, *self));
    }
}

impl Camera {
    /// Put the eye at head height above whatever the ground is doing
    /// here, as `ground` reports it for the cell underfoot.
    pub fn stand(&mut self, ground: impl Fn(i32, i32) -> Fx)
        requires
            forall|a: i32, b: i32| ground.requires((a, b)),
            forall|a: i32, b: i32, h: Fx| #[trigger] ground.ensures((a, b), h) ==> -0x4000_0000 <= h <= 0x4000_0000,
        ensures
            exists|h: Fx|
                #[trigger] ground.ensures(((old(self).x as int / 65536) as i32, (old(self).y as int / 65536) as i32), h)
                    && *final(self) == (Camera { z: (h + EYE) as i32, ..*old(self) }),
    {
        let ghost was = *self;
        let h = ground(fixed::floor(self.x), fixed::floor(self.y));
        self.z = h + EYE;
        assert(ground.ensures(((was.x as int / 65536) as i32, (was.y as int / 65536) as i32), h));
        assert(*self == (Camera { z: (h + EYE) as i32, ..was }));
    }

    /// Move by a world-space delta, sliding along walls: onto ground that
    /// `open` says is open.
    pub fn slide(&mut self, open: impl Fn(i32, i32) -> bool, mx: Fx, my: Fx)
        requires
            forall|a: i32, b: i32| open.requires((a, b)),
            slide_fits(*old(self), mx, my),
        ensures
            exists|bx: bool, by: bool| slid(*old(self), mx, my, open, bx, by, *final(self)),
    {
        self.slide_where(mx, my, open);
    }

    /// Walk `forward` along the view and `strafe` across it, sliding along
    /// walls rather than stopping dead at them.
    pub fn walk(&mut self, open: impl Fn(i32, i32) -> bool, forward: Fx, strafe: Fx)
        requires
            forall|a: i32, b: i32| open.requires((a, b)),
            -0x0100_0000 <= forward <= 0x0100_0000,
            -0x0100_0000 <= strafe <= 0x0100_0000,
            -0x4000_0000 <= old(self).x <= 0x4000_0000,
            -0x4000_0000 <= old(self).y <= 0x4000_0000,
        ensures
            exists|bx: bool, by: bool|
                slid(*old(self), walk_delta(*old(self), forward, strafe).0, walk_delta(*old(self), forward, strafe).1, open, bx, by, *final(self)),
    {
        let (dx, dy) = self.dir();
        proof {
            trig::lemma_table_bounds(self.yaw);
            fixed::lemma_mul_bound(dx, forward, 65536, 0x0100_0000);
            fixed::lemma_mul_bound(dy, forward, 65536, 0x0100_0000);
        }
        let (px, py) = (-dy, dx);
        proof {
            fixed::lemma_mul_bound(px, strafe, 65536, 0x0100_0000);
            fixed::lemma_mul_bound(py, strafe, 65536, 0x0100_0000);
        }
        let mx = fixed::mul(dx, forward) + fixed::mul(px, strafe);
        let my = fixed::mul(dy, forward) + fixed::mul(py, strafe);
        let ghost was = *self;
        assert((mx, my) == walk_delta(was, forward, strafe));
        self.slide(open, mx, my);
        proof {
            let (bx, by) = choose|bx: bool, by: bool| slid(was, mx, my, open, bx, by, *self);
            assert(slid(was, walk_delta(was, forward, strafe).0, walk_delta(was, forward, strafe).1, open, bx, by, *self));
        }
    }
}

/// The camera cannot walk through what its caller says it may not stand
/// on: on ground that `ok` says may be stood on or not, a slide of under a
/// cell less the probe's reach from allowed ground ends on allowed ground.
pub proof fn lemma_a_short_slide_keeps_to_allowed_ground<F: Fn(i32, i32) -> bool>(cam: Camera, mx: Fx, my: Fx, allowed: F, ok: spec_fn(int, int) -> bool, bx: bool, by: bool, next: Camera)
    requires
        forall|i: i32, j: i32, b: bool| #[trigger] allowed.ensures((i, j), b) ==> b == ok(i as int, j as int),
        slid(cam, mx, my, allowed, bx, by, next),
        slide_fits(cam, mx, my),
        -(65536 - RADIUS) < mx < 65536 - RADIUS,
        -(65536 - RADIUS) < my < 65536 - RADIUS,
        ok(cam.x as int / 65536, cam.y as int / 65536),
    ensures
        ok(next.x as int / 65536, next.y as int / 65536),
{
    let x1: int = if bx { cam.x + mx } else { cam.x as int };
    assert(bx == ok(probe_of(cam.x, mx) as int, cam.y as int / 65536));
    assert(ok(x1 / 65536, cam.y as int / 65536));
    assert(by == ok(x1 / 65536, probe_of(cam.y, my) as int));
}

/// How many rings out from where it is asked [`Camera::spawn`] looks for
/// somewhere to stand.
pub const SPAWN_RINGS: i32 = 48;

/// Whether `(p, q)` comes before `c` in a search ring by ring around
/// `(x, y)`, and along each ring row by row.
pub open spec fn searched_before(x: int, y: int, p: int, q: int, c: (i32, i32)) -> bool {
    let n = ring_of(c.0 - x, c.1 - y);
    let m = ring_of(p - x, q - y);
    m < n || (m == n && (q < c.1 || (q == c.1 && p < c.0)))
}

/// Whether the spawn search around `(x, y)` that came back with `found`
/// looked at `(p, q)` before it stopped: every cell before `found`, or
/// every cell within [`SPAWN_RINGS`] when nothing was found.
pub open spec fn searched(x: int, y: int, found: Option<(i32, i32)>, p: int, q: int) -> bool {
    match found {
        Some(c) => searched_before(x, y, p, q, c),
        None => ring_of(p - x, q - y) < SPAWN_RINGS,
    }
}

/// Whether a cell is a place to stand: `open` answered that it is open,
/// and the walking network has it as pavement.
pub open spec fn pavement<F: Fn(i32, i32) -> bool>(open: F, walk: WalkMap, p: int, q: int) -> bool {
    open.ensures((p as i32, q as i32), true) && walk.foot(p, q) == Foot::Path
}

/// Whether `found` and `fallback` are what the spawn search around
/// `(x, y)` can come back with: `found` is the first cell, ring by ring
/// and row by row within [`SPAWN_RINGS`], that is open and pavement, and
/// `fallback` the first open cell before it (or before the end); every
/// cell searched before them was answered closed or is not pavement.
pub open spec fn spawn_searched<F: Fn(i32, i32) -> bool>(open: F, walk: WalkMap, x: int, y: int, found: Option<(i32, i32)>, fallback: Option<(i32, i32)>) -> bool {
    &&& found matches Some(c) ==> ring_of(c.0 - x, c.1 - y) < SPAWN_RINGS && pavement(open, walk, c.0 as int, c.1 as int)
    &&& forall|p: int, q: int| #[trigger] searched(x, y, found, p, q) ==> open.ensures((p as i32, q as i32), false) || walk.foot(p, q) != Foot::Path
    &&& fallback is None ==> forall|p: int, q: int| #[trigger] searched(x, y, found, p, q) ==> open.ensures((p as i32, q as i32), false)
    &&& fallback matches Some(f) ==> {
        &&& searched(x, y, found, f.0 as int, f.1 as int)
        &&& open.ensures(f, true)
        &&& forall|p: int, q: int| #[trigger] searched_before(x, y, p, q, f) ==> open.ensures((p as i32, q as i32), false)
    }
}

/// Look for somewhere to stand around `(x, y)`.
fn spawn_search<F: Fn(i32, i32) -> bool>(open: &F, walk: &WalkMap, x: i32, y: i32) -> (r: (Option<(i32, i32)>, Option<(i32, i32)>))
    requires
        forall|a: i32, b: i32| open.requires((a, b)),
        -0x7000_0000 <= x <= 0x7000_0000,
        -0x7000_0000 <= y <= 0x7000_0000,
    ensures
        spawn_searched(*open, *walk, x as int, y as int, r.0, r.1),
{
    let mut fallback: Option<(i32, i32)> = None;
    let mut r: i32 = 0;
    while r < SPAWN_RINGS
        invariant
            forall|a: i32, b: i32| open.requires((a, b)),
            -0x7000_0000 <= x <= 0x7000_0000,
            -0x7000_0000 <= y <= 0x7000_0000,
            0 <= r <= SPAWN_RINGS,
            forall|p: int, q: int| ring_of(p - x, q - y) < r ==> open.ensures((p as i32, q as i32), false) || #[trigger] walk.foot(p, q) != Foot::Path,
            fallback is None ==> forall|p: int, q: int| ring_of(p - x, q - y) < r ==> #[trigger] open.ensures((p as i32, q as i32), false),
            fallback matches Some(f) ==> {
                &&& ring_of(f.0 - x, f.1 - y) < r
                &&& open.ensures(f, true)
                &&& forall|p: int, q: int| #[trigger] searched_before(x as int, y as int, p, q, f) ==> open.ensures((p as i32, q as i32), false)
            },
        decreases SPAWN_RINGS - r,
    {
        let mut dy: i32 = -r;
        while dy <= r
            invariant
                forall|a: i32, b: i32| open.requires((a, b)),
                -0x7000_0000 <= x <= 0x7000_0000,
                -0x7000_0000 <= y <= 0x7000_0000,
                0 <= r < SPAWN_RINGS,
                -r <= dy <= r + 1,
                forall|p: int, q: int|
                    (ring_of(p - x, q - y) < r || (ring_of(p - x, q - y) == r && q < y + dy))
                        ==> open.ensures((p as i32, q as i32), false) || #[trigger] walk.foot(p, q) != Foot::Path,
                fallback is None ==> forall|p: int, q: int|
                    (ring_of(p - x, q - y) < r || (ring_of(p - x, q - y) == r && q < y + dy))
                        ==> #[trigger] open.ensures((p as i32, q as i32), false),
                fallback matches Some(f) ==> {
                    &&& (ring_of(f.0 - x, f.1 - y) < r || (ring_of(f.0 - x, f.1 - y) == r && f.1 < y + dy))
                    &&& open.ensures(f, true)
                    &&& forall|p: int, q: int| #[trigger] searched_before(x as int, y as int, p, q, f) ==> open.ensures((p as i32, q as i32), false)
                },
            decreases r + 1 - dy,
        {
            let mut dx: i32 = -r;
            while dx <= r
                invariant
                    forall|a: i32, b: i32| open.requires((a, b)),
                    -0x7000_0000 <= x <= 0x7000_0000,
                    -0x7000_0000 <= y <= 0x7000_0000,
                    0 <= r < SPAWN_RINGS,
                    -r <= dy <= r,
                    -r <= dx <= r + 1,
                    forall|p: int, q: int|
                        (ring_of(p - x, q - y) < r || (ring_of(p - x, q - y) == r && (q < y + dy || (q == y + dy && p < x + dx))))
                            ==> open.ensures((p as i32, q as i32), false) || #[trigger] walk.foot(p, q) != Foot::Path,
                    fallback is None ==> forall|p: int, q: int|
                        (ring_of(p - x, q - y) < r || (ring_of(p - x, q - y) == r && (q < y + dy || (q == y + dy && p < x + dx))))
                            ==> #[trigger] open.ensures((p as i32, q as i32), false),
                    fallback matches Some(f) ==> {
                        &&& (ring_of(f.0 - x, f.1 - y) < r || (ring_of(f.0 - x, f.1 - y) == r && (f.1 < y + dy || (f.1 == y + dy && f.0 < x + dx))))
                        &&& open.ensures(f, true)
                        &&& forall|p: int, q: int| #[trigger] searched_before(x as int, y as int, p, q, f) ==> open.ensures((p as i32, q as i32), false)
                    },
                decreases r + 1 - dx,
            {
                let ax = if dx < 0 { -dx } else { dx };
                let ay = if dy < 0 { -dy } else { dy };
                if ax == r || ay == r {
                    let px = x + dx;
                    let py = y + dy;
                    let here = open(px, py);
                    if here {
                        if walk.at(px, py) == Foot::Path {
                            return (Some((px, py)), fallback);
                        }
                        if fallback.is_none() {
                            fallback = Some((px, py));
                        }
                    }
                }
                dx = dx + 1;
            }
            dy = dy + 1;
        }
        r = r + 1;
    }
    (None, fallback)
}

/// Whether `cam` is what [`Camera::spawn`] can put down around `(x, y)`,
/// when the search came back with `found` and `fallback`, the check that
/// the chosen cell is open came back `ok`, and the ground there stood at
/// `h`: the pavement found, or else the cell asked for, unless that is
/// not open and there is a fallback; in the middle of the cell, at eye
/// height above the ground, facing east, level, with the default lens.
pub open spec fn spawned<F: Fn(i32, i32) -> bool, G: Fn(i32, i32) -> Fx>(open: F, walk: WalkMap, ground: G, x: i32, y: i32, found: Option<(i32, i32)>, fallback: Option<(i32, i32)>, ok: bool, h: Fx, cam: Camera) -> bool {
    let best0 = match found { Some(c) => c, None => (x, y) };
    let c = if !ok && fallback is Some { fallback->0 } else { best0 };
    &&& spawn_searched(open, walk, x as int, y as int, found, fallback)
    &&& open.ensures(best0, ok)
    &&& ground.ensures(c, h)
    &&& cam == (Camera { x: (c.0 * 65536 + HALF) as i32, y: (c.1 * 65536 + HALF) as i32, z: (h + EYE) as i32, yaw: 0, pitch: 0, fov: 43690 })
}

/// A camera put down around `(x, y)` stands within [`SPAWN_RINGS`] cells
/// of it on both axes.
pub proof fn lemma_spawned_near<F: Fn(i32, i32) -> bool, G: Fn(i32, i32) -> Fx>(
    open: F, walk: WalkMap, ground: G, x: i32, y: i32, found: Option<(i32, i32)>, fallback: Option<(i32, i32)>, ok: bool, h: Fx, cam: Camera,
)
    requires
        spawned(open, walk, ground, x, y, found, fallback, ok, h, cam),
        -30000 <= x <= 30000,
        -30000 <= y <= 30000,
    ensures
        (x - SPAWN_RINGS) * 65536 <= cam.x <= (x + SPAWN_RINGS) * 65536 + 65536,
        (y - SPAWN_RINGS) * 65536 <= cam.y <= (y + SPAWN_RINGS) * 65536 + 65536,
{
    let best0 = match found { Some(c) => c, None => (x, y) };
    let c = if !ok && fallback is Some { fallback->0 } else { best0 };
    if !ok && fallback is Some {
        let f = fallback->0;
        assert(searched(x as int, y as int, found, f.0 as int, f.1 as int));
        if found is Some {
            let g = found->0;
            assert(ring_of(g.0 - x, g.1 - y) < SPAWN_RINGS);
        }
        assert(ring_of(f.0 - x, f.1 - y) < SPAWN_RINGS);
    } else if found is Some {
        let g = found->0;
        assert(ring_of(g.0 - x, g.1 - y) < SPAWN_RINGS);
    }
    assert(-SPAWN_RINGS < c.0 - x < SPAWN_RINGS);
    assert(-SPAWN_RINGS < c.1 - y < SPAWN_RINGS);
}

impl Camera {
    /// A camera put down on the nearest pavement to `(x, y)`, ring by ring
    /// out to [`SPAWN_RINGS`]: where a person may stand, on the walking
    /// network `walk`, and open by `open`.  Failing that, the cell asked
    /// for if it is open, or the first open cell the search passed; the eye
    /// at head height above `ground` there.
    pub fn spawn(open: impl Fn(i32, i32) -> bool, walk: &WalkMap, ground: impl Fn(i32, i32) -> Fx, x: i32, y: i32) -> (cam: Camera)
        requires
            forall|a: i32, b: i32| open.requires((a, b)),
            forall|a: i32, b: i32| ground.requires((a, b)),
            forall|a: i32, b: i32, h: Fx| #[trigger] ground.ensures((a, b), h) ==> -0x4000_0000 <= h <= 0x4000_0000,
            -32768 + SPAWN_RINGS <= x < 32768 - SPAWN_RINGS,
            -32768 + SPAWN_RINGS <= y < 32768 - SPAWN_RINGS,
        ensures
            exists|found: Option<(i32, i32)>, fallback: Option<(i32, i32)>, ok: bool, h: Fx|
                #[trigger] spawned(open, *walk, ground, x, y, found, fallback, ok, h, cam),
    {
        let (found, fallback) = spawn_search(&open, walk, x, y);
        let best0 = match found {
            Some(c) => c,
            None => (x, y),
        };
        let ok = open(best0.0, best0.1);
        let best = if !ok && fallback.is_some() { fallback.unwrap() } else { best0 };
        proof {
            if found is Some {
                assert(ring_of(best0.0 - x, best0.1 - y) < SPAWN_RINGS);
            }
            if fallback is Some {
                assert(ring_of((fallback->0).0 - x, (fallback->0).1 - y) < SPAWN_RINGS);
            }
        }
        let mut cam = Camera::default();
        cam.x = fixed::from_int(best.0) + HALF;
        cam.y = fixed::from_int(best.1) + HALF;
        let ghost was = cam;
        cam.stand(ground);
        proof {
            let h = choose|h: Fx| #[trigger] ground.ensures(((was.x as int / 65536) as i32, (was.y as int / 65536) as i32), h)
                && cam == (Camera { z: (h + EYE) as i32, ..was });
            assert(was.x as int / 65536 == best.0);
            assert(was.y as int / 65536 == best.1);
            assert(spawned(open, *walk, ground, x, y, found, fallback, ok, h, cam));
        }
        cam
    }
}

/// The cell a spawned camera stands on.
pub open spec fn spawn_cell(cam: Camera) -> (i32, i32) {
    ((cam.x as int / 65536) as i32, (cam.y as int / 65536) as i32)
}

/// Spawning never lands inside a building: on ground that `ground_open`
/// says is open or not, the camera stands on open ground unless nothing
/// within [`SPAWN_RINGS`] of where it was asked is open.
pub proof fn lemma_spawn_never_lands_inside_a_building<F: Fn(i32, i32) -> bool, G: Fn(i32, i32) -> Fx>(open: F, walk: WalkMap, ground: G, ground_open: spec_fn(int, int) -> bool, x: i32, y: i32, found: Option<(i32, i32)>, fallback: Option<(i32, i32)>, ok: bool, h: Fx, cam: Camera)
    requires
        forall|i: i32, j: i32, b: bool| #[trigger] open.ensures((i, j), b) ==> b == ground_open(i as int, j as int),
        spawned(open, walk, ground, x, y, found, fallback, ok, h, cam),
        -32768 + SPAWN_RINGS <= x < 32768 - SPAWN_RINGS,
        -32768 + SPAWN_RINGS <= y < 32768 - SPAWN_RINGS,
    ensures
        ground_open(spawn_cell(cam).0 as int, spawn_cell(cam).1 as int)
            || forall|p: int, q: int| ring_of(p - x, q - y) < SPAWN_RINGS ==> !#[trigger] ground_open(p, q),
{
    let best0 = match found { Some(c) => c, None => (x, y) };
    let c = if !ok && fallback is Some { fallback->0 } else { best0 };
    if found is Some {
        assert(ring_of(best0.0 - x, best0.1 - y) < SPAWN_RINGS);
    }
    if fallback is Some {
        assert(ring_of((fallback->0).0 - x, (fallback->0).1 - y) < SPAWN_RINGS);
    }
    assert(spawn_cell(cam) == c);
    if !ground_open(c.0 as int, c.1 as int) {
        assert(!ok && fallback is None);
        assert forall|p: int, q: int| ring_of(p - x, q - y) < SPAWN_RINGS implies !#[trigger] ground_open(p, q) by {
            assert(searched(x as int, y as int, found, p, q));
            assert(open.ensures((p as i32, q as i32), false));
            assert((p as i32) as int == p && (q as i32) as int == q);
        }
    }
}

/// Spawning puts you where a person may stand: on ground that `ground_open`
/// says is open or not, if any cell within [`SPAWN_RINGS`] is open and
/// pavement, the camera stands on open pavement.
pub proof fn lemma_spawn_puts_you_on_the_pavement<F: Fn(i32, i32) -> bool, G: Fn(i32, i32) -> Fx>(open: F, walk: WalkMap, ground: G, ground_open: spec_fn(int, int) -> bool, x: i32, y: i32, found: Option<(i32, i32)>, fallback: Option<(i32, i32)>, ok: bool, h: Fx, cam: Camera, p: int, q: int)
    requires
        forall|i: i32, j: i32, b: bool| #[trigger] open.ensures((i, j), b) ==> b == ground_open(i as int, j as int),
        spawned(open, walk, ground, x, y, found, fallback, ok, h, cam),
        -32768 + SPAWN_RINGS <= x < 32768 - SPAWN_RINGS,
        -32768 + SPAWN_RINGS <= y < 32768 - SPAWN_RINGS,
        ring_of(p - x, q - y) < SPAWN_RINGS,
        ground_open(p, q),
        walk.foot(p, q) == Foot::Path,
    ensures
        ground_open(spawn_cell(cam).0 as int, spawn_cell(cam).1 as int),
        walk.foot(spawn_cell(cam).0 as int, spawn_cell(cam).1 as int) == Foot::Path,
{
    if found is None {
        assert(searched(x as int, y as int, found, p, q));
        assert((p as i32) as int == p && (q as i32) as int == q);
        assert(open.ensures((p as i32, q as i32), false) || walk.foot(p, q) != Foot::Path);
        assert(false);
    }
    let c = found->0;
    assert(ring_of(c.0 - x, c.1 - y) < SPAWN_RINGS);
    assert(pavement(open, walk, c.0 as int, c.1 as int));
    assert(ok);
    assert(spawn_cell(cam) == c);
}

} // verus!
