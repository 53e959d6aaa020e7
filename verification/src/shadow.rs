//! Cast shadows, without casting a single shadow ray.
//!
//! A height field lit by a directional source needs no shadow rays: walk
//! the grid once in the direction the light travels, carrying a running
//! horizon.  The horizon descends by the light's slope each step, what
//! arrives at a cell is recorded *before* the cell's own top is folded in
//! (so no building shadows itself), and then the cell may block what lies
//! downstream.  The map stores the height of the shadow line, not a bit,
//! so a wall can be dark below the line and lit above it.
use vstd::prelude::*;
use crate::elevation::Elevation;
use crate::fixed::{self, Fx, div_of, from_int_of, lerp_of};
use crate::trig::{self, Ang, cos_of, sin_of};

verus! {

/// Where the light comes from, as a compass bearing.
pub const DEFAULT_AZ: Ang = 39_000;

/// How high the light is, as a slope: rise over horizontal run, about
/// twenty degrees (`0.38` in Q16.16).
pub const DEFAULT_SLOPE: Fx = 24903;

/// Height stored per cell, in thirty-seconds of a cell.
pub type Eighths = u16;

/// The highest roofline a map can have: the highest ground plus the
/// tallest building, in Q16.16 cells.
pub open spec fn max_top() -> int {
    255int * 65536 / 32 + 255 * 65536
}

/// The shadow line over a square grid.
#[derive(Clone)]
pub struct ShadowMap {
    size: usize,
    /// Height of the shadow line arriving at each cell, in steps.
    line: Vec<Eighths>,
}

/// The direction and step of one sweep, fixed by the light.
pub struct Sweep {
    /// Side of the grid.
    pub n: int,
    /// Whether the light travels fastest along x.
    pub x_major: bool,
    /// The first major coordinate swept: the upstream edge.
    pub first: int,
    /// `1` or `-1`: which way the sweep moves.
    pub step: int,
    /// How far along the minor axis the light moves per major step.
    pub minor_per_step: int,
    /// How far the light descends per major step.
    pub drop: int,
}

/// The major-axis component of the light's travel.
pub open spec fn major_of(az: Ang) -> int {
    let (dx, dy) = (-cos_of(az), -sin_of(az));
    if vstd::math::abs(dx as int) >= vstd::math::abs(dy as int) { dx as int } else { dy as int }
}

/// The minor-axis component of the light's travel.
pub open spec fn minor_of(az: Ang) -> int {
    let (dx, dy) = (-cos_of(az), -sin_of(az));
    if vstd::math::abs(dx as int) >= vstd::math::abs(dy as int) { dy as int } else { dx as int }
}

/// The sweep [`ShadowMap::cast`] makes over a grid of side `n`.
pub open spec fn sweep_of(n: int, az: Ang, slope: Fx) -> Sweep {
    let (dx, dy) = (-cos_of(az), -sin_of(az));
    let x_major = vstd::math::abs(dx as int) >= vstd::math::abs(dy as int);
    let mag = vstd::math::abs(major_of(az)) as int;
    let step = if major_of(az) < 0 { -1int } else { 1int };
    Sweep {
        n,
        x_major,
        first: if step > 0 { 0 } else { n - 1 },
        step,
        minor_per_step: div_of(minor_of(az), mag) as int,
        drop: div_of(slope as int, mag) as int,
    }
}

/// The cell at slice `k`, position `m` along it.
pub open spec fn cell_of(s: Sweep, k: int, m: int) -> (int, int) {
    let major = if s.step > 0 { s.first + k } else { s.first - k };
    if s.x_major { (major, m) } else { (m, major) }
}

/// A column buffer read with the edges held rather than wrapped.
pub open spec fn sample_of<T>(col: Seq<T>, i: int) -> T {
    if i < 0 {
        col[0]
    } else if i >= col.len() {
        col[col.len() - 1]
    } else {
        col[i]
    }
}

/// What arrives at position `m` of a slice from the horizon `prev` of the
/// slice before it: the two neighbours the ray came from, interpolated,
/// less the light's descent, and never below the ground.
pub open spec fn arriving_of(s: Sweep, prev: Seq<int>, m: int) -> int {
    let src = (from_int_of(m) - s.minor_per_step) as int;
    let i = src / 65536;
    let f = src % 65536;
    let v = lerp_of(sample_of(prev, i), sample_of(prev, i + 1), f) - s.drop;
    if v > 0 { v } else { 0 }
}

/// The roofline of a cell, in Q16.16 cells.
pub open spec fn top_of(e: Elevation, c: (int, int)) -> int {
    e.ground_at(c.0, c.1) * 65536 / 32 + e.building_at(c.0, c.1) * 65536
}

/// What arrives at position `m` of slice `k`.
pub open spec fn arrival(e: Elevation, s: Sweep, k: nat, m: int) -> int
    decreases k, 0int,
{
    if k == 0 {
        0
    } else {
        arriving_of(s, horizon(e, s, (k - 1) as nat), m)
    }
}

/// The horizon after slice `k` has been folded in: what arrived, or the
/// slice's own roofline where that is higher.
pub open spec fn horizon(e: Elevation, s: Sweep, k: nat) -> Seq<int>
    decreases k, 1int,
{
    Seq::new(
        s.n as nat,
        |m: int|
            {
                let a = arrival(e, s, k, m);
                let t = top_of(e, cell_of(s, k as int, m));
                if a >= t { a } else { t }
            },
    )
}

/// A height in cells as stored steps: rounded down, held to `0..=65535`.
pub open spec fn steps_of(v: int) -> Eighths {
    let e = (v * 32) / 65536;
    if e < 0 { 0 } else if e > 65535 { 65535 } else { e as u16 }
}

impl ShadowMap {
    /// The stored line holds one entry per cell.
    pub closed spec fn wf(&self) -> bool {
        &&& self.size * self.size <= usize::MAX
        &&& self.line@.len() == self.size * self.size
    }

    /// Side of the grid.
    pub closed spec fn side(&self) -> nat {
        self.size as nat
    }

    /// The stored height of the shadow line at a cell, in steps; zero off
    /// the map.
    pub closed spec fn line_steps(&self, x: int, y: int) -> Eighths {
        if 0 <= x < self.size && 0 <= y < self.size {
            self.line@[y * self.size + x]
        } else {
            0
        }
    }

    /// A map with no shadows anywhere.
    pub fn none(size: usize) -> (s: ShadowMap)
        requires
            size * size <= usize::MAX,
        ensures
            s.wf(),
            s.side() == size,
            forall|x: int, y: int| s.line_steps(x, y) == 0,
    {
        let s = ShadowMap { size, line: vec![0u16; size * size] };
        assert forall|x: int, y: int| s.line_steps(x, y) == 0 by {
            if 0 <= x < size && 0 <= y < size {
                lemma_index(size as int, x, y);
            }
        }
        s
    }

    /// Side of the grid.
    pub fn size(&self) -> (n: usize)
        ensures
            n == self.side(),
    {
        self.size
    }

    /// Height of the shadow line at a cell, in cells.  Off the map is lit.
    pub fn line_at(&self, x: i32, y: i32) -> (h: Fx)
        requires
            self.wf(),
        ensures
            h == fixed::trunc_div(from_int_of(self.line_steps(x as int, y as int) as int) as int, 32),
            self.line_steps(x as int, y as int) < 32768 ==> h == self.line_steps(x as int, y as int) * 2048,
    {
        if x < 0 || y < 0 || x as usize >= self.size || y as usize >= self.size {
            return 0;
        }
        proof {
            lemma_index(self.size as int, x as int, y as int);
        }
        fixed::from_int(self.line[y as usize * self.size + x as usize] as i32)
            / crate::elevation::GROUND_STEP
    }

    /// Whether a point at height `z` on a cell has the light on it.
    pub fn lit(&self, x: i32, y: i32, z: Fx) -> (r: bool)
        requires
            self.wf(),
        ensures
            r == (z >= fixed::trunc_div(from_int_of(self.line_steps(x as int, y as int) as int) as int, 32)),
    {
        z >= self.line_at(x, y)
    }
}

/// Every horizon value lies between the ground and the highest roofline.
proof fn lemma_horizon_bounds(e: Elevation, s: Sweep, k: nat)
    requires
        s.n > 0,
        s.drop >= 0,
    ensures
        horizon(e, s, k).len() == s.n,
        forall|m: int| 0 <= m < s.n ==> 0 <= #[trigger] horizon(e, s, k)[m] <= max_top(),
        forall|m: int| 0 <= #[trigger] arrival(e, s, k, m) <= max_top(),
    decreases k,
{
    assert forall|m: int| 0 <= #[trigger] arrival(e, s, k, m) <= max_top() by {
        if k > 0 {
            lemma_horizon_bounds(e, s, (k - 1) as nat);
            let prev = horizon(e, s, (k - 1) as nat);
            let src = (from_int_of(m) - s.minor_per_step) as int;
            let i = src / 65536;
            let f = src % 65536;
            let a = sample_of(prev, i);
            let b = sample_of(prev, i + 1);
            assert(0 <= a <= max_top() && 0 <= b <= max_top());
            lemma_lerp_between(a, b, f);
        }
    }
    assert forall|m: int| 0 <= m < s.n implies 0 <= #[trigger] horizon(e, s, k)[m] <= max_top() by {
        let c = cell_of(s, k as int, m);
        let a = arrival(e, s, k, m);
        assert(0 <= a <= max_top());
        assert(0 <= e.ground_at(c.0, c.1) <= 255);
        assert(0 <= e.building_at(c.0, c.1) <= 255);
        assert(0 <= top_of(e, c) <= max_top());
    }
}

/// Interpolating between two heights lands between them.
proof fn lemma_lerp_between(a: int, b: int, f: int)
    requires
        0 <= f < 65536,
        0 <= a <= max_top(),
        0 <= b <= max_top(),
    ensures
        (if a <= b { a } else { b }) <= lerp_of(a, b, f) <= (if a >= b { a } else { b }),
{
    let d = b - a;
    let q = (d * f) / 65536;
    if d >= 0 {
        assert(0 <= q <= d) by (nonlinear_arith)
            requires
                q == (d * f) / 65536,
                0 <= f < 65536,
                d >= 0,
        ;
    } else {
        assert(d <= q <= 0) by (nonlinear_arith)
            requires
                q == (d * f) / 65536,
                0 <= f < 65536,
                d < 0,
        ;
    }
    assert(lerp_of(a, b, f) == a + q) by {
        assert(-2147483648 <= q <= 2147483647);
    }
}

impl ShadowMap {
    /// Sweep the grid for one light direction.
    ///
    /// `az` is the bearing *towards* the light; `slope` is how fast the
    /// light ray descends per cell of horizontal travel, from level up to
    /// a slope of sixteen thousand.  The shadow line at each cell is what
    /// arrives there from upstream - see [`arrival`] - stored in steps.
    pub fn cast(elev: &Elevation, az: Ang, slope: Fx) -> (s: ShadowMap)
        requires
            elev.wf(),
            elev.side() <= 32767,
            0 <= slope <= 0x3fff_ffff,
        ensures
            s.wf(),
            s.side() == elev.side(),
            forall|k: int, m: int|
                0 <= k < elev.side() && 0 <= m < elev.side() ==> #[trigger] s.line_steps(
                    cell_of(sweep_of(elev.side() as int, az, slope), k, m).0,
                    cell_of(sweep_of(elev.side() as int, az, slope), k, m).1,
                ) == steps_of(arrival(*elev, sweep_of(elev.side() as int, az, slope), k as nat, m)),
    {
        let n = elev.size();
        proof {
            elev.lemma_wf_fits();
        }
        let ghost sw = sweep_of(n as int, az, slope);
        let mut line: Vec<Eighths> = vec![0u16; n * n];
        proof {
            trig::lemma_table_bounds(az);
            trig::lemma_major_component(az);
        }
        let (dx, dy) = (-trig::cos(az), -trig::sin(az));
        let x_major = fixed::abs(dx) >= fixed::abs(dy);
        let (d_major, d_minor) = if x_major { (dx, dy) } else { (dy, dx) };
        let mag = fixed::abs(d_major);
        let minor_per_step = fixed::div(d_minor, mag);
        let drop_per_step = fixed::div(slope, mag);
        proof {
            assert(mag >= 46341);
            assert(mag as int == vstd::math::abs(major_of(az)));
            let md = vstd::math::abs(d_minor as int) as int;
            assert(md <= mag);
            assert(md * 65536 / (mag as int) <= 65536) by (nonlinear_arith)
                requires
                    0 <= md <= mag,
                    mag > 0,
            ;
            assert((slope as int) * 65536 / (mag as int) <= 0x5a82_7999) by (nonlinear_arith)
                requires
                    0 <= slope <= 0x3fff_ffff,
                    mag >= 46341,
            ;
            assert(-65536 <= minor_per_step <= 65536);
            assert(0 <= drop_per_step <= 0x5a82_7999);
        }
        let step: i32 = if d_major < 0 { -1 } else { 1 };
        let mut prev: Vec<Fx> = vec![0i32; n];
        let mut next: Vec<Fx> = vec![0i32; n];
        let first: i32 = if step > 0 { 0 } else { n as i32 - 1 };
        assert(sw.first == first && sw.step == step && sw.x_major == x_major);
        assert(sw.minor_per_step == minor_per_step && sw.drop == drop_per_step);
        let mut k: i32 = 0;
        while k < n as i32
            invariant
                elev.wf(),
                n == elev.side(),
                n <= 32767,
                sw == sweep_of(n as int, az, slope),
                sw.first == first && sw.step == step && sw.x_major == x_major,
                sw.minor_per_step == minor_per_step && sw.drop == drop_per_step,
                step == 1 || step == -1,
                first == if step > 0 { 0 } else { n - 1 },
                -65536 <= minor_per_step <= 65536,
                0 <= drop_per_step,
                0 <= k <= n,
                line@.len() == n * n,
                n * n <= usize::MAX,
                prev@.len() == n,
                next@.len() == n,
                k > 0 ==> forall|m: int| 0 <= m < n ==> #[trigger] prev@[m] == horizon(*elev, sw, (k - 1) as nat)[m],
                forall|kk: int, m: int| 0 <= kk < k && 0 <= m < n ==> #[trigger] line@[cell_index(n as int, cell_of(sw, kk, m))] == steps_of(arrival(*elev, sw, kk as nat, m)),
            decreases n - k,
        {
            let major = if step > 0 { first + k } else { first - k };
            let mut minor: i32 = 0;
            proof {
                if n > 0 {
                    lemma_horizon_bounds(*elev, sw, k as nat);
                    if k > 0 {
                        lemma_horizon_bounds(*elev, sw, (k - 1) as nat);
                    }
                }
            }
            while minor < n as i32
                invariant
                    elev.wf(),
                    n == elev.side(),
                    n <= 32767,
                    sw == sweep_of(n as int, az, slope),
                    sw.first == first && sw.step == step && sw.x_major == x_major,
                    sw.minor_per_step == minor_per_step && sw.drop == drop_per_step,
                    step == 1 || step == -1,
                    first == if step > 0 { 0 } else { n - 1 },
                    -65536 <= minor_per_step <= 65536,
                    0 <= drop_per_step,
                    0 <= k < n,
                    major == if step > 0 { first + k } else { first - k },
                    0 <= minor <= n,
                    line@.len() == n * n,
                    n * n <= usize::MAX,
                    prev@.len() == n,
                    next@.len() == n,
                    forall|m: int| 0 <= m < n ==> 0 <= #[trigger] horizon(*elev, sw, k as nat)[m] <= max_top(),
                    forall|m: int| 0 <= #[trigger] arrival(*elev, sw, k as nat, m) <= max_top(),
                    k > 0 ==> forall|m: int| 0 <= m < n ==> #[trigger] prev@[m] == horizon(*elev, sw, (k - 1) as nat)[m],
                    forall|m: int| 0 <= m < minor ==> #[trigger] next@[m] == horizon(*elev, sw, k as nat)[m],
                    forall|kk: int, m: int| 0 <= kk < k && 0 <= m < n ==> #[trigger] line@[cell_index(n as int, cell_of(sw, kk, m))] == steps_of(arrival(*elev, sw, kk as nat, m)),
                    forall|m: int| 0 <= m < minor ==> #[trigger] line@[cell_index(n as int, cell_of(sw, k as int, m))] == steps_of(arrival(*elev, sw, k as nat, m)),
                decreases n - minor,
            {
                let arriving = arriving_at(&prev, k, minor, minor_per_step, drop_per_step, Ghost(*elev), Ghost(sw));
                assert(arriving == arrival(*elev, sw, k as nat, minor as int));
                let (x, y) = if x_major { (major as usize, minor as usize) } else { (minor as usize, major as usize) };
                proof {
                    lemma_index(n as int, x as int, y as int);
                }
                let ghost before = line@;
                line.set(y * n + x, to_eighths(arriving));
                let t = elev.top(x as i32, y as i32);
                next.set(minor as usize, if arriving >= t { arriving } else { t });
                proof {
                    assert(cell_index(n as int, cell_of(sw, k as int, minor as int)) == y * n + x);
                    assert forall|kk: int, m: int| 0 <= kk < k && 0 <= m < n implies #[trigger] line@[cell_index(n as int, cell_of(sw, kk, m))] == steps_of(arrival(*elev, sw, kk as nat, m)) by {
                        lemma_cells_distinct(sw, n as int, kk, m, k as int, minor as int);
                        lemma_cell_in_grid(sw, n as int, kk, m);
                        assert(before[cell_index(n as int, cell_of(sw, kk, m))] == steps_of(arrival(*elev, sw, kk as nat, m)));
                    }
                    assert forall|m: int| 0 <= m < minor + 1 implies #[trigger] line@[cell_index(n as int, cell_of(sw, k as int, m))] == steps_of(arrival(*elev, sw, k as nat, m)) by {
                        if m < minor {
                            lemma_cells_distinct(sw, n as int, k as int, m, k as int, minor as int);
                            lemma_cell_in_grid(sw, n as int, k as int, m);
                            assert(before[cell_index(n as int, cell_of(sw, k as int, m))] == steps_of(arrival(*elev, sw, k as nat, m)));
                        }
                    }
                }
                minor = minor + 1;
            }
            std::mem::swap(&mut prev, &mut next);
            k = k + 1;
        }
        let s = ShadowMap { size: n, line };
        proof {
            assert forall|kk: int, m: int|
                0 <= kk < n && 0 <= m < n implies #[trigger] s.line_steps(cell_of(sw, kk, m).0, cell_of(sw, kk, m).1) == steps_of(arrival(*elev, sw, kk as nat, m)) by {
                lemma_cell_in_grid(sw, n as int, kk, m);
            }
        }
        s
    }
}

/// What arrives at position `minor` of slice `k`, read from the horizon
/// of the slice before it.
fn arriving_at(
    prev: &Vec<Fx>,
    k: i32,
    minor: i32,
    minor_per_step: Fx,
    drop_per_step: Fx,
    Ghost(e): Ghost<Elevation>,
    Ghost(sw): Ghost<Sweep>,
) -> (v: Fx)
    requires
        0 <= k,
        0 <= minor < sw.n,
        sw.n <= 32767,
        prev@.len() == sw.n,
        sw.minor_per_step == minor_per_step,
        sw.drop == drop_per_step,
        -65536 <= minor_per_step <= 65536,
        0 <= drop_per_step,
        k > 0 ==> forall|m: int| 0 <= m < sw.n ==> #[trigger] prev@[m] == horizon(e, sw, (k - 1) as nat)[m],
    ensures
        v == arrival(e, sw, k as nat, minor as int),
{
    if k == 0 {
        0
    } else {
        let src = fixed::from_int(minor) - minor_per_step;
        let i = fixed::floor(src);
        let f = fixed::frac(src);
        let a = sample(prev, i);
        let b = sample(prev, i + 1);
        let ghost h = horizon(e, sw, (k - 1) as nat);
        proof {
            lemma_horizon_bounds(e, sw, (k - 1) as nat);
            assert(a == sample_of(h, i as int));
            assert(b == sample_of(h, i + 1));
            lemma_lerp_between(a as int, b as int, f as int);
        }
        let v = fixed::lerp(a, b, f) - drop_per_step;
        if v > 0 { v } else { 0 }
    }
}

/// The row-major index of a cell.
pub open spec fn cell_index(n: int, c: (int, int)) -> int {
    c.1 * n + c.0
}

/// The cells of a sweep lie on the grid.
proof fn lemma_cell_in_grid(s: Sweep, n: int, k: int, m: int)
    requires
        s.step == 1 || s.step == -1,
        s.first == if s.step > 0 { 0 } else { n - 1 },
        0 <= k < n,
        0 <= m < n,
    ensures
        0 <= cell_of(s, k, m).0 < n,
        0 <= cell_of(s, k, m).1 < n,
        0 <= cell_index(n, cell_of(s, k, m)) < n * n,
{
    let c = cell_of(s, k, m);
    lemma_index(n, c.0, c.1);
}

/// Different positions of a sweep are different cells.
proof fn lemma_cells_distinct(s: Sweep, n: int, k: int, m: int, k2: int, m2: int)
    requires
        s.step == 1 || s.step == -1,
        s.first == if s.step > 0 { 0 } else { n - 1 },
        0 <= k < n,
        0 <= m < n,
        0 <= k2 < n,
        0 <= m2 < n,
        !(k == k2 && m == m2),
    ensures
        cell_index(n, cell_of(s, k, m)) != cell_index(n, cell_of(s, k2, m2)),
{
    let c = cell_of(s, k, m);
    let d = cell_of(s, k2, m2);
    lemma_cell_in_grid(s, n, k, m);
    lemma_cell_in_grid(s, n, k2, m2);
    assert(c != d);
    if c.1 == d.1 {
    } else if c.1 < d.1 {
        assert(c.1 * n + c.0 < d.1 * n + d.0) by (nonlinear_arith)
            requires
                c.1 < d.1,
                0 <= c.0 < n,
                0 <= d.0,
        ;
    } else {
        assert(d.1 * n + d.0 < c.1 * n + c.0) by (nonlinear_arith)
            requires
                d.1 < c.1,
                0 <= d.0 < n,
                0 <= c.0,
        ;
    }
}

/// An on-map cell's index is inside the grid.
proof fn lemma_index(size: int, x: int, y: int)
    requires
        0 <= x < size,
        0 <= y < size,
    ensures
        0 <= y * size + x < size * size,
{
    assert(0 <= y * size + x < size * size) by (nonlinear_arith)
        requires
            0 <= x < size,
            0 <= y < size,
    ;
}

/// Read a column buffer with the edges held rather than wrapped.
fn sample(col: &Vec<Fx>, i: i32) -> (v: Fx)
    requires
        col@.len() > 0,
    ensures
        v == sample_of(col@, i as int),
{
    if i < 0 {
        col[0]
    } else if i as usize >= col.len() {
        col[col.len() - 1]
    } else {
        col[i as usize]
    }
}

/// Fixed-point cells to stored steps, saturating.
fn to_eighths(v: Fx) -> (e: Eighths)
    requires
        0 <= v <= max_top(),
    ensures
        e == steps_of(v as int),
{
    let e = fixed::floor(v * crate::elevation::GROUND_STEP);
    if e < 0 {
        0
    } else if e > 65535 {
        65535
    } else {
        e as Eighths
    }
}

/// Arrival at a slice depends only on the rooflines of the slices before
/// it.
proof fn lemma_arrival_upstream(e1: Elevation, e2: Elevation, s: Sweep, k: nat)
    requires
        s.n >= 0,
        forall|j: int, m: int|
            0 <= j < k && 0 <= m < s.n ==> top_of(e1, #[trigger] cell_of(s, j, m)) == top_of(e2, cell_of(s, j, m)),
    ensures
        forall|m: int| #[trigger] arrival(e1, s, k, m) == arrival(e2, s, k, m),
    decreases k,
{
    if k > 0 {
        let j = (k - 1) as nat;
        lemma_arrival_upstream(e1, e2, s, j);
        assert forall|m: int| 0 <= m < s.n implies #[trigger] horizon(e1, s, j)[m] == horizon(e2, s, j)[m] by {
            assert(top_of(e1, cell_of(s, j as int, m)) == top_of(e2, cell_of(s, j as int, m)));
            assert(arrival(e1, s, j, m) == arrival(e2, s, j, m));
        }
        assert(horizon(e1, s, j) =~= horizon(e2, s, j));
    }
}

/// A building never stands in its own shadow: the shadow line arriving at
/// a cell does not depend on that cell's own ground or building, only on
/// what stands upstream of it.
pub proof fn lemma_not_in_own_shadow(e1: Elevation, e2: Elevation, az: Ang, slope: Fx, k: nat, m: int)
    requires
        e1.side() == e2.side(),
        forall|x: int, y: int|
            (x, y) != cell_of(sweep_of(e1.side() as int, az, slope), k as int, m) ==> e1.ground_at(x, y)
                == e2.ground_at(x, y) && e1.building_at(x, y) == e2.building_at(x, y),
    ensures
        arrival(e1, sweep_of(e1.side() as int, az, slope), k, m) == arrival(
            e2,
            sweep_of(e1.side() as int, az, slope),
            k,
            m,
        ),
{
    let sw = sweep_of(e1.side() as int, az, slope);
    assert forall|j: int, m2: int| 0 <= j < k && 0 <= m2 < sw.n implies top_of(e1, #[trigger] cell_of(sw, j, m2))
        == top_of(e2, cell_of(sw, j, m2)) by {
        let c = cell_of(sw, j, m2);
        assert(c != cell_of(sw, k as int, m));
    }
    lemma_arrival_upstream(e1, e2, sw, k);
}

/// Flat, empty ground throws no shadow: where every roofline is zero,
/// nothing arrives at any cell of the grid, whatever the light.
pub proof fn lemma_flat_ground_has_no_shadow(e: Elevation, az: Ang, slope: Fx, k: nat, m: int)
    requires
        0 <= slope <= 0x3fff_ffff,
        k < e.side(),
        forall|x: int, y: int| e.ground_at(x, y) == 0 && e.building_at(x, y) == 0,
    ensures
        arrival(e, sweep_of(e.side() as int, az, slope), k, m) == 0,
    decreases k,
{
    let sw = sweep_of(e.side() as int, az, slope);
    proof_drop_nonnegative(az, slope);
    if k > 0 {
        let prev = horizon(e, sw, (k - 1) as nat);
        assert forall|m2: int| 0 <= m2 < sw.n implies #[trigger] prev[m2] == 0 by {
            lemma_flat_ground_has_no_shadow(e, az, slope, (k - 1) as nat, m2);
        }
        let src = (from_int_of(m) - sw.minor_per_step) as int;
        let i = src / 65536;
        assert(sample_of(prev, i) == 0);
        assert(sample_of(prev, i + 1) == 0);
        assert(lerp_of(0, 0, src % 65536) == 0);
    }
}

/// The light descends, or at least does not climb, from one slice to the
/// next.
proof fn proof_drop_nonnegative(az: Ang, slope: Fx)
    requires
        0 <= slope <= 0x3fff_ffff,
    ensures
        forall|n: int| #[trigger] sweep_of(n, az, slope).drop >= 0,
{
    trig::lemma_major_component(az);
    trig::lemma_table_bounds(az);
    let mag = vstd::math::abs(major_of(az)) as int;
    assert(mag >= 46341);
    let q = (slope as int * 65536) / mag;
    assert(0 <= q <= 0x3fff_ffff * 65536 / 46341) by (nonlinear_arith)
        requires
            0 <= slope <= 0x3fff_ffff,
            mag >= 46341,
            q == (slope as int * 65536) / mag,
    ;
    assert(fixed::trunc_div(slope as int * 65536, mag) == q);
}

} // verus!
