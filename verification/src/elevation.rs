//! The elevation map: how high the ground is, and how high what stands on
//! it is.
//!
//! Two byte arrays over the same square grid.  Ground is stored in
//! thirty-seconds of a cell (a kerb is one or two of them); buildings in
//! whole cells above the ground.  Off the map reads as flat, open sea level.
use vstd::prelude::*;
use crate::fixed::{self, Fx};
use crate::rng::{hash3, hash3_of};

verus! {

/// Steps of ground height per whole cell.  A step is about 18 cm.
pub const GROUND_STEP: i32 = 32;

/// The most relief the generator will produce, in steps.
pub const MAX_RELIEF: u8 = 48;

/// How far a pavement stands above the carriageway beside it, in steps.
pub const KERB: u8 = 2;

/// Side of the noise lattice the terrain is interpolated over, in cells.
pub const TERRAIN_CELL: usize = 48;

/// The elevation map over a square grid.
#[derive(Clone)]
pub struct Elevation {
    size: usize,
    /// Ground level, in steps of `1/GROUND_STEP` of a cell.
    ground: Vec<u8>,
    /// Height of whatever is built here, in whole cells above the ground.
    /// Zero means you can stand on it.
    building: Vec<u8>,
}

/// Whether `(x, y)` is on a map of side `size`.
pub open spec fn on_map(size: int, x: int, y: int) -> bool {
    0 <= x < size && 0 <= y < size
}

/// The height of a lattice corner, in steps.
pub open spec fn corner_of(ix: int, iy: int, seed: u32) -> int {
    hash3_of(ix as u32, iy as u32, seed ^ 0x7E22_A104u32) as int % (MAX_RELIEF as int + 1)
}

/// The generated ground level at a cell: bilinear interpolation of the
/// hashed lattice corners around it, rounded down.
pub open spec fn terrain_of(x: int, y: int, seed: u32) -> u8 {
    let n = TERRAIN_CELL as int;
    let (gx, gy) = (x / n, y / n);
    let (fx, fy) = (x % n, y % n);
    let top = corner_of(gx, gy, seed) * (n - fx) + corner_of(gx + 1, gy, seed) * fx;
    let bot = corner_of(gx, gy + 1, seed) * (n - fx) + corner_of(gx + 1, gy + 1, seed) * fx;
    ((top * (n - fy) + bot * fy) / (n * n)) as u8
}

impl Elevation {
    /// Both layers hold one byte per cell.
    pub closed spec fn wf(&self) -> bool {
        &&& self.size * self.size <= usize::MAX
        &&& self.ground@.len() == self.size * self.size
        &&& self.building@.len() == self.size * self.size
    }

    /// A well-formed map's cell count fits in a `usize`.
    pub proof fn lemma_wf_fits(&self)
        requires
            self.wf(),
        ensures
            self.side() * self.side() <= usize::MAX,
    {
    }

    /// Side of the grid.
    pub closed spec fn side(&self) -> nat {
        self.size as nat
    }

    /// Ground level in steps; zero off the map.
    pub closed spec fn ground_at(&self, x: int, y: int) -> u8 {
        if on_map(self.size as int, x, y) {
            self.ground@[y * self.size + x]
        } else {
            0
        }
    }

    /// Building height in cells; zero off the map.
    pub closed spec fn building_at(&self, x: int, y: int) -> u8 {
        if on_map(self.size as int, x, y) {
            self.building@[y * self.size + x]
        } else {
            0
        }
    }

    /// A flat, empty map.
    pub fn new(size: usize) -> (e: Elevation)
        requires
            size * size <= usize::MAX,
        ensures
            e.wf(),
            e.side() == size,
            forall|x: int, y: int| e.ground_at(x, y) == 0 && e.building_at(x, y) == 0,
    {
        let ground: Vec<u8> = vec![0u8; size * size];
        let building: Vec<u8> = vec![0u8; size * size];
        let e = Elevation { size, ground, building };
        assert forall|x: int, y: int| e.ground_at(x, y) == 0 && e.building_at(x, y) == 0 by {
            if on_map(size as int, x, y) {
                lemma_cell_index(size as int, x, y);
            }
        }
        e
    }

    /// Lay gentle terrain over an empty map.
    pub fn generate(size: usize, seed: u32) -> (e: Elevation)
        requires
            size * size <= usize::MAX,
        ensures
            e.wf(),
            e.side() == size,
            forall|x: int, y: int|
                #![trigger e.ground_at(x, y)]
                on_map(size as int, x, y) ==> e.ground_at(x, y) == terrain_of(x, y, seed),
            forall|x: int, y: int| e.building_at(x, y) == 0,
    {
        let mut e = Elevation::new(size);
        let mut ground = vec![0u8; size * size];
        let mut y: usize = 0;
        while y < size
            invariant
                y <= size,
                size * size <= usize::MAX,
                ground@.len() == size * size,
                forall|i: int, j: int|
                    0 <= i < size && 0 <= j < y ==> #[trigger] ground@[j * size + i] == terrain_of(i, j, seed),
            decreases size - y,
        {
            let mut x: usize = 0;
            while x < size
                invariant
                    x <= size,
                    y < size,
                    size * size <= usize::MAX,
                    ground@.len() == size * size,
                    forall|i: int, j: int|
                        0 <= i < size && 0 <= j < y ==> #[trigger] ground@[j * size + i] == terrain_of(i, j, seed),
                    forall|i: int| 0 <= i < x ==> #[trigger] ground@[y * size + i] == terrain_of(i, y as int, seed),
                decreases size - x,
            {
                proof {
                    lemma_cell_index(size as int, x as int, y as int);
                }
                let ghost before = ground@;
                ground.set(y * size + x, terrain(x, y, seed));
                proof {
                    assert forall|i: int, j: int|
                        0 <= i < size && 0 <= j < y implies #[trigger] ground@[j * size + i] == terrain_of(i, j, seed) by {
                        lemma_cell_index(size as int, i, j);
                        lemma_cell_distinct(size as int, i, j, x as int, y as int);
                        assert(before[j * size + i] == terrain_of(i, j, seed));
                    }
                    assert forall|i: int| 0 <= i < x + 1 implies #[trigger] ground@[y * size + i] == terrain_of(i, y as int, seed) by {
                        lemma_cell_index(size as int, i, y as int);
                        if i < x {
                            lemma_cell_distinct(size as int, i, y as int, x as int, y as int);
                            assert(before[y * size + i] == terrain_of(i, y as int, seed));
                        }
                    }
                }
                x = x + 1;
            }
            y = y + 1;
        }
        let ghost e0 = e;
        e.ground = ground;
        proof {
            assert forall|x: int, y: int| e.building_at(x, y) == 0 by {
                assert(e.building_at(x, y) == e0.building_at(x, y));
            }
            assert forall|x: int, y: int|
                #![trigger e.ground_at(x, y)]
                on_map(size as int, x, y) implies e.ground_at(x, y) == terrain_of(x, y, seed) by {
                lemma_cell_index(size as int, x, y);
            }
        }
        e
    }

    /// Side of the grid.
    pub fn size(&self) -> (n: usize)
        requires
            self.wf(),
        ensures
            n == self.side(),
    {
        self.size
    }

    /// The row-major index of an on-map cell, if it is one.
    fn index(&self, x: i32, y: i32) -> (r: Option<usize>)
        requires
            self.wf(),
        ensures
            on_map(self.side() as int, x as int, y as int) <==> r.is_some(),
            r.is_some() ==> r.unwrap() == y * self.side() + x && r.unwrap() < self.side() * self.side(),
    {
        if x < 0 || y < 0 || x as usize >= self.size || y as usize >= self.size {
            None
        } else {
            proof {
                lemma_cell_index(self.size as int, x as int, y as int);
            }
            Some(y as usize * self.size + x as usize)
        }
    }

    /// Ground level in steps.  Off the map reads as sea level.
    pub fn ground_steps(&self, x: i32, y: i32) -> (g: u8)
        requires
            self.wf(),
        ensures
            g == self.ground_at(x as int, y as int),
    {
        match self.index(x, y) {
            Some(i) => self.ground[i],
            None => 0,
        }
    }

    /// Ground level as a fixed-point height in cells.
    pub fn ground(&self, x: i32, y: i32) -> (h: Fx)
        requires
            self.wf(),
        ensures
            h == self.ground_at(x as int, y as int) * 65536 / 32,
    {
        fixed::from_int(self.ground_steps(x, y) as i32) / GROUND_STEP
    }

    /// Raise the ground here by a number of steps, saturating.
    pub fn raise(&mut self, x: i32, y: i32, steps: u8)
        requires
            old(self).wf(),
        ensures
            final(self).wf(),
            final(self).side() == old(self).side(),
            forall|i: int, j: int| #[trigger] final(self).building_at(i, j) == old(self).building_at(i, j),
            forall|i: int, j: int| #![trigger final(self).ground_at(i, j)]
                final(self).ground_at(i, j) == if i == x && j == y && on_map(old(self).side() as int, i, j) {
                    if old(self).ground_at(i, j) + steps > 255 { 255u8 } else { (old(self).ground_at(i, j) + steps) as u8 }
                } else {
                    old(self).ground_at(i, j)
                },
    {
        if let Some(i) = self.index(x, y) {
            let g = self.ground[i].saturating_add(steps);
            self.set_ground(i, x, y, g);
        }
    }

    /// Write one ground cell by its index.
    fn set_ground(&mut self, i: usize, x: i32, y: i32, g: u8)
        requires
            old(self).wf(),
            on_map(old(self).side() as int, x as int, y as int),
            i == y * old(self).side() + x,
        ensures
            final(self).wf(),
            final(self).side() == old(self).side(),
            forall|a: int, b: int| #[trigger] final(self).building_at(a, b) == old(self).building_at(a, b),
            forall|a: int, b: int| #![trigger final(self).ground_at(a, b)]
                final(self).ground_at(a, b) == if a == x && b == y { g } else { old(self).ground_at(a, b) },
    {
        proof {
            lemma_cell_index(self.size as int, x as int, y as int);
        }
        let mut ground: Vec<u8> = Vec::new();
        std::mem::swap(&mut ground, &mut self.ground);
        ground.set(i, g);
        self.ground = ground;
        proof {
            assert forall|a: int, b: int| #![trigger self.ground_at(a, b)]
                self.ground_at(a, b) == if a == x && b == y { g } else { old(self).ground_at(a, b) } by {
                if on_map(self.size as int, a, b) {
                    lemma_cell_index(self.size as int, a, b);
                    if !(a == x && b == y) {
                        lemma_cell_distinct(self.size as int, a, b, x as int, y as int);
                    }
                }
            }
        }
    }

    /// Height of the building here, in whole cells above the ground.
    pub fn building(&self, x: i32, y: i32) -> (b: u8)
        requires
            self.wf(),
        ensures
            b == self.building_at(x as int, y as int),
    {
        match self.index(x, y) {
            Some(i) => self.building[i],
            None => 0,
        }
    }

    /// The roofline here: ground plus building, in cells.
    pub fn top(&self, x: i32, y: i32) -> (t: Fx)
        requires
            self.wf(),
        ensures
            t == self.ground_at(x as int, y as int) * 65536 / 32 + self.building_at(x as int, y as int) * 65536,
    {
        self.ground(x, y) + fixed::from_int(self.building(x, y) as i32)
    }

    /// Whether a thing on the ground can be here.
    pub fn open(&self, x: i32, y: i32) -> (r: bool)
        requires
            self.wf(),
        ensures
            r == (self.building_at(x as int, y as int) == 0),
    {
        self.building(x, y) == 0
    }

    /// Set the ground here outright, in steps.
    pub fn flatten(&mut self, x: i32, y: i32, steps: u8)
        requires
            old(self).wf(),
        ensures
            final(self).wf(),
            final(self).side() == old(self).side(),
            forall|i: int, j: int| #[trigger] final(self).building_at(i, j) == old(self).building_at(i, j),
            forall|i: int, j: int| #![trigger final(self).ground_at(i, j)]
                final(self).ground_at(i, j) == if i == x && j == y && on_map(old(self).side() as int, i, j) {
                    steps
                } else {
                    old(self).ground_at(i, j)
                },
    {
        if let Some(i) = self.index(x, y) {
            self.set_ground(i, x, y, steps);
        }
    }

    /// Raise a building.
    pub fn build(&mut self, x: i32, y: i32, height: u8)
        requires
            old(self).wf(),
        ensures
            final(self).wf(),
            final(self).side() == old(self).side(),
            forall|i: int, j: int| #[trigger] final(self).ground_at(i, j) == old(self).ground_at(i, j),
            forall|i: int, j: int| #![trigger final(self).building_at(i, j)]
                final(self).building_at(i, j) == if i == x && j == y && on_map(old(self).side() as int, i, j) {
                    height
                } else {
                    old(self).building_at(i, j)
                },
    {
        if let Some(i) = self.index(x, y) {
            proof {
                lemma_cell_index(self.size as int, x as int, y as int);
            }
            let mut building: Vec<u8> = Vec::new();
            std::mem::swap(&mut building, &mut self.building);
            building.set(i, height);
            self.building = building;
            proof {
                assert forall|a: int, b: int| #![trigger self.building_at(a, b)]
                    self.building_at(a, b) == if a == x && b == y && on_map(old(self).side() as int, a, b) { height } else { old(self).building_at(a, b) } by {
                    if on_map(self.size as int, a, b) {
                        lemma_cell_index(self.size as int, a, b);
                        if !(a == x && b == y) {
                            lemma_cell_distinct(self.size as int, a, b, x as int, y as int);
                        }
                    }
                }
            }
        }
    }
}

/// The ground summed along row `y` over columns `x0..x`, off-map as zero.
pub open spec fn row_sum(e: Elevation, y: int, x0: int, x: int) -> int
    decreases x - x0,
{
    if x <= x0 {
        0
    } else {
        row_sum(e, y, x0, x - 1) + e.ground_at(x - 1, y)
    }
}

/// How many cells of row `y` over columns `x0..x` are on the map.
pub open spec fn row_count(e: Elevation, y: int, x0: int, x: int) -> int
    decreases x - x0,
{
    if x <= x0 {
        0
    } else {
        row_count(e, y, x0, x - 1) + if on_map(e.side() as int, x - 1, y) { 1int } else { 0 }
    }
}

/// The ground summed over columns `x0..=x1` of rows `y0..y`.
pub open spec fn rect_sum(e: Elevation, x0: int, x1: int, y0: int, y: int) -> int
    decreases y - y0,
{
    if y <= y0 {
        0
    } else {
        rect_sum(e, x0, x1, y0, y - 1) + row_sum(e, y - 1, x0, x1 + 1)
    }
}

/// How many cells over columns `x0..=x1` of rows `y0..y` are on the map.
pub open spec fn rect_count(e: Elevation, x0: int, x1: int, y0: int, y: int) -> int
    decreases y - y0,
{
    if y <= y0 {
        0
    } else {
        rect_count(e, x0, x1, y0, y - 1) + row_count(e, y - 1, x0, x1 + 1)
    }
}

/// The level [`Elevation::level`] cuts a footprint to: the average ground
/// over the on-map part of it, rounded down, or zero if none of it is on
/// the map.
pub open spec fn pad_of(e: Elevation, x0: int, y0: int, x1: int, y1: int) -> u8 {
    let n = rect_count(e, x0, x1, y0, y1 + 1);
    if n == 0 {
        0
    } else {
        (rect_sum(e, x0, x1, y0, y1 + 1) / n) as u8
    }
}

proof fn lemma_row_bounds(e: Elevation, y: int, x0: int, x: int)
    ensures
        0 <= row_sum(e, y, x0, x) <= 255 * row_count(e, y, x0, x),
        0 <= row_count(e, y, x0, x),
    decreases x - x0,
{
    if x > x0 {
        lemma_row_bounds(e, y, x0, x - 1);
        if !on_map(e.side() as int, x - 1, y) {
            assert(e.ground_at(x - 1, y) == 0);
        }
    }
}

proof fn lemma_rect_bounds(e: Elevation, x0: int, x1: int, y0: int, y: int)
    ensures
        0 <= rect_sum(e, x0, x1, y0, y) <= 255 * rect_count(e, x0, x1, y0, y),
        0 <= rect_count(e, x0, x1, y0, y),
    decreases y - y0,
{
    if y > y0 {
        lemma_rect_bounds(e, x0, x1, y0, y - 1);
        lemma_row_bounds(e, y - 1, x0, x1 + 1);
    }
}

/// Ground between `lo` and `hi` along a row sums to between `lo` and `hi`
/// times the number of on-map cells.
proof fn lemma_row_between(e: Elevation, y: int, x0: int, x: int, lo: int, hi: int)
    requires
        0 <= lo,
        forall|i: int| x0 <= i < x && on_map(e.side() as int, i, y) ==> lo <= #[trigger] e.ground_at(i, y) <= hi,
    ensures
        lo * row_count(e, y, x0, x) <= row_sum(e, y, x0, x) <= hi * row_count(e, y, x0, x),
    decreases x - x0,
{
    if x > x0 {
        lemma_row_between(e, y, x0, x - 1, lo, hi);
        let c = row_count(e, y, x0, x - 1);
        let t = row_sum(e, y, x0, x - 1);
        if on_map(e.side() as int, x - 1, y) {
            let g = e.ground_at(x - 1, y);
            assert(lo * (c + 1) <= t + g <= hi * (c + 1)) by (nonlinear_arith)
                requires lo * c <= t <= hi * c, lo <= g <= hi;
        } else {
            assert(e.ground_at(x - 1, y) == 0);
        }
    }
}

/// Ground between `lo` and `hi` over a footprint sums to between `lo` and
/// `hi` times the number of on-map cells.
proof fn lemma_rect_between(e: Elevation, x0: int, x1: int, y0: int, y: int, lo: int, hi: int)
    requires
        0 <= lo,
        forall|i: int, j: int| x0 <= i <= x1 && y0 <= j < y && on_map(e.side() as int, i, j) ==> lo <= #[trigger] e.ground_at(i, j) <= hi,
    ensures
        lo * rect_count(e, x0, x1, y0, y) <= rect_sum(e, x0, x1, y0, y) <= hi * rect_count(e, x0, x1, y0, y),
    decreases y - y0,
{
    if y > y0 {
        lemma_rect_between(e, x0, x1, y0, y - 1, lo, hi);
        lemma_row_between(e, y - 1, x0, x1 + 1, lo, hi);
        let (c, t) = (rect_count(e, x0, x1, y0, y - 1), rect_sum(e, x0, x1, y0, y - 1));
        let (rc, rt) = (row_count(e, y - 1, x0, x1 + 1), row_sum(e, y - 1, x0, x1 + 1));
        assert(lo * (c + rc) <= t + rt <= hi * (c + rc)) by (nonlinear_arith)
            requires lo * c <= t <= hi * c, lo * rc <= rt <= hi * rc;
    }
}

/// A pad is its footprint's own average: ground that lies between `lo`
/// and `hi` over the on-map part of a footprint is levelled to a pad
/// between them too, so ground already flat at `h` is levelled to `h`.
pub proof fn lemma_a_pad_is_its_footprints_average(e: Elevation, x0: int, y0: int, x1: int, y1: int, lo: int, hi: int)
    requires
        0 <= lo <= hi <= 255,
        rect_count(e, x0, x1, y0, y1 + 1) > 0,
        forall|i: int, j: int| x0 <= i <= x1 && y0 <= j <= y1 && on_map(e.side() as int, i, j) ==> lo <= #[trigger] e.ground_at(i, j) <= hi,
    ensures
        lo <= pad_of(e, x0, y0, x1, y1) <= hi,
{
    lemma_rect_between(e, x0, x1, y0, y1 + 1, lo, hi);
    let n = rect_count(e, x0, x1, y0, y1 + 1);
    let t = rect_sum(e, x0, x1, y0, y1 + 1);
    assert(lo <= t / n <= hi) by (nonlinear_arith)
        requires lo * n <= t <= hi * n, n > 0;
}

impl Elevation {
    /// Flatten a footprint to one ground level, and return it: every
    /// on-map cell of `x0..=x1` by `y0..=y1` is set to the average ground
    /// level over them.
    pub fn level(&mut self, x0: usize, y0: usize, x1: usize, y1: usize) -> (pad: u8)
        requires
            old(self).wf(),
            x1 <= i32::MAX,
            y1 <= i32::MAX,
            rect_sum(*old(self), x0 as int, x1 as int, y0 as int, y1 + 1) <= u32::MAX,
            rect_count(*old(self), x0 as int, x1 as int, y0 as int, y1 + 1) <= u32::MAX,
        ensures
            final(self).wf(),
            final(self).side() == old(self).side(),
            pad == pad_of(*old(self), x0 as int, y0 as int, x1 as int, y1 as int),
            forall|i: int, j: int| #[trigger] final(self).building_at(i, j) == old(self).building_at(i, j),
            forall|i: int, j: int| #![trigger final(self).ground_at(i, j)]
                final(self).ground_at(i, j) == if on_map(old(self).side() as int, i, j) && x0 <= i <= x1 && y0 <= j <= y1 {
                    pad
                } else {
                    old(self).ground_at(i, j)
                },
    {
        let ghost e0 = *self;
        let mut sum = 0u32;
        let mut n = 0u32;
        let mut y = y0;
        while y <= y1
            invariant
                e0 == *self,
                self.wf(),
                y1 <= i32::MAX,
                x1 <= i32::MAX,
                y0 <= y,
                y == y0 || y <= y1 + 1,
                sum == rect_sum(e0, x0 as int, x1 as int, y0 as int, y as int),
                n == rect_count(e0, x0 as int, x1 as int, y0 as int, y as int),
                rect_sum(e0, x0 as int, x1 as int, y0 as int, y1 + 1) <= u32::MAX,
                rect_count(e0, x0 as int, x1 as int, y0 as int, y1 + 1) <= u32::MAX,
            decreases y1 + 1 - y,
        {
            let mut x = x0;
            while x <= x1
                invariant
                    e0 == *self,
                    self.wf(),
                    y1 <= i32::MAX,
                    x1 <= i32::MAX,
                    y0 <= y <= y1,
                    x0 <= x,
                    x == x0 || x <= x1 + 1,
                    sum == rect_sum(e0, x0 as int, x1 as int, y0 as int, y as int) + row_sum(e0, y as int, x0 as int, x as int),
                    n == rect_count(e0, x0 as int, x1 as int, y0 as int, y as int) + row_count(e0, y as int, x0 as int, x as int),
                    rect_sum(e0, x0 as int, x1 as int, y0 as int, y1 + 1) <= u32::MAX,
                    rect_count(e0, x0 as int, x1 as int, y0 as int, y1 + 1) <= u32::MAX,
                decreases x1 + 1 - x,
            {
                proof {
                    lemma_rect_sum_mono(e0, x0 as int, x1 as int, y0 as int, y as int, x as int, y1 + 1);
                }
                if let Some(i) = self.index(x as i32, y as i32) {
                    sum = sum + self.ground[i] as u32;
                    n = n + 1;
                }
                x = x + 1;
            }
            y = y + 1;
        }
        proof {
            lemma_rect_bounds(e0, x0 as int, x1 as int, y0 as int, y1 + 1);
            if n > 0 {
                assert(sum as int / n as int <= 255) by (nonlinear_arith)
                    requires
                        sum <= 255 * n,
                        n > 0,
                ;
            }
        }
        let pad: u8 = if n == 0 { 0 } else { (sum / n) as u8 };
        let mut y = y0;
        while y <= y1
            invariant
                self.wf(),
                self.side() == e0.side(),
                y1 <= i32::MAX,
                x1 <= i32::MAX,
                y0 <= y,
                y == y0 || y <= y1 + 1,
                forall|i: int, j: int| #[trigger] self.building_at(i, j) == e0.building_at(i, j),
                forall|i: int, j: int| #![trigger self.ground_at(i, j)]
                    self.ground_at(i, j) == if on_map(e0.side() as int, i, j) && x0 <= i <= x1 && y0 <= j < y { pad } else { e0.ground_at(i, j) },
            decreases y1 + 1 - y,
        {
            let mut x = x0;
            while x <= x1
                invariant
                    self.wf(),
                    self.side() == e0.side(),
                    y1 <= i32::MAX,
                    x1 <= i32::MAX,
                    y0 <= y <= y1,
                    x0 <= x,
                    x == x0 || x <= x1 + 1,
                    forall|i: int, j: int| #[trigger] self.building_at(i, j) == e0.building_at(i, j),
                    forall|i: int, j: int| #![trigger self.ground_at(i, j)]
                        self.ground_at(i, j) == if on_map(e0.side() as int, i, j) && x0 <= i <= x1 && (y0 <= j < y || (j == y && i < x)) { pad } else { e0.ground_at(i, j) },
                decreases x1 + 1 - x,
            {
                if let Some(i) = self.index(x as i32, y as i32) {
                    self.set_ground(i, x as i32, y as i32, pad);
                }
                x = x + 1;
            }
            y = y + 1;
        }
        pad
    }
}

/// A partial sum of a footprint is no more than the whole.
proof fn lemma_rect_sum_mono(e: Elevation, x0: int, x1: int, y0: int, y: int, x: int, yend: int)
    requires
        y0 <= y < yend,
        x0 <= x <= x1,
    ensures
        rect_sum(e, x0, x1, y0, y) + row_sum(e, y, x0, x + 1) <= rect_sum(e, x0, x1, y0, yend),
        rect_count(e, x0, x1, y0, y) + row_count(e, y, x0, x + 1) <= rect_count(e, x0, x1, y0, yend),
    decreases yend - y,
{
    lemma_row_prefix(e, y, x0, x + 1, x1 + 1);
    if yend == y + 1 {
    } else {
        lemma_rect_sum_mono(e, x0, x1, y0, y, x, yend - 1);
        lemma_row_bounds(e, yend - 1, x0, x1 + 1);
    }
}

/// A prefix of a row sums to no more than the row.
proof fn lemma_row_prefix(e: Elevation, y: int, x0: int, x: int, xend: int)
    requires
        x0 <= x <= xend,
    ensures
        row_sum(e, y, x0, x) <= row_sum(e, y, x0, xend),
        row_count(e, y, x0, x) <= row_count(e, y, x0, xend),
    decreases xend - x,
{
    if x < xend {
        lemma_row_prefix(e, y, x0, x, xend - 1);
        lemma_row_bounds(e, y, x0, xend);
        lemma_row_bounds(e, y, x0, xend - 1);
    }
}

/// An on-map cell's index is inside the grid.
proof fn lemma_cell_index(size: int, x: int, y: int)
    requires
        on_map(size, x, y),
    ensures
        0 <= y * size + x < size * size,
{
    assert(0 <= y * size + x < size * size) by (nonlinear_arith)
        requires
            0 <= x < size,
            0 <= y < size,
    ;
}

/// Two different on-map cells have different indices.
proof fn lemma_cell_distinct(size: int, x: int, y: int, a: int, b: int)
    requires
        on_map(size, x, y),
        on_map(size, a, b),
        !(x == a && y == b),
    ensures
        y * size + x != b * size + a,
{
    if y == b {
    } else if y < b {
        assert(y * size + x < b * size + a) by (nonlinear_arith)
            requires
                y < b,
                0 <= x < size,
                0 <= a,
        ;
    } else {
        assert(b * size + a < y * size + x) by (nonlinear_arith)
            requires
                b < y,
                0 <= a < size,
                0 <= x,
        ;
    }
}

/// Ground level at a point, in steps.
pub fn terrain(x: usize, y: usize, seed: u32) -> (g: u8)
    ensures
        g == terrain_of(x as int, y as int, seed),
        g <= MAX_RELIEF,
{
    let n: u32 = TERRAIN_CELL as u32;
    let (gx, gy) = (x / TERRAIN_CELL, y / TERRAIN_CELL);
    let (fx, fy) = ((x % TERRAIN_CELL) as u32, (y % TERRAIN_CELL) as u32);
    let c00 = corner(gx, gy, seed);
    let c10 = corner(gx + 1, gy, seed);
    let c01 = corner(gx, gy + 1, seed);
    let c11 = corner(gx + 1, gy + 1, seed);
    proof {
        assert(c00 * (n - fx) + c10 * fx <= 48 * 48) by (nonlinear_arith)
            requires
                c00 <= 48,
                c10 <= 48,
                fx < 48,
                n == 48,
        ;
        assert(c01 * (n - fx) + c11 * fx <= 48 * 48) by (nonlinear_arith)
            requires
                c01 <= 48,
                c11 <= 48,
                fx < 48,
                n == 48,
        ;
    }
    let top = c00 * (n - fx) + c10 * fx;
    let bot = c01 * (n - fx) + c11 * fx;
    proof {
        assert(top * (n - fy) + bot * fy <= 48 * 48 * 48) by (nonlinear_arith)
            requires
                top <= 48 * 48,
                bot <= 48 * 48,
                fy < 48,
                n == 48,
        ;
    }
    let g = (top * (n - fy) + bot * fy) / (n * n);
    proof {
        let ni = TERRAIN_CELL as int;
        assert(gx == x as int / ni && gy == y as int / ni);
        assert(fx == x as int % ni && fy == y as int % ni);
        let t = corner_of(gx as int, gy as int, seed) * (ni - fx) + corner_of(gx + 1, gy as int, seed) * fx;
        let u = corner_of(gx as int, gy + 1, seed) * (ni - fx) + corner_of(gx + 1, gy + 1, seed) * fx;
        assert(top == t);
        assert(bot == u);
        assert(g == (t * (ni - fy) + u * fy) / (ni * ni));
        assert(g <= 48) by (nonlinear_arith)
            requires
                g == (top * (n - fy) + bot * fy) / (n * n),
                top <= 48 * 48,
                bot <= 48 * 48,
                fy < 48,
                n == 48,
        ;
    }
    g as u8
}

/// The height of one lattice corner, in steps.
fn corner(ix: usize, iy: usize, seed: u32) -> (c: u32)
    ensures
        c == corner_of(ix as int, iy as int, seed),
        c <= MAX_RELIEF,
{
    hash3(ix as u32, iy as u32, seed ^ 0x7E22_A104u32) % (MAX_RELIEF as u32 + 1)
}

/// The numerator [`terrain_of`] divides: the lattice corners weighted by
/// how near the cell is to each.
pub open spec fn terrain_weight(x: int, y: int, seed: u32) -> int {
    let n = TERRAIN_CELL as int;
    let (gx, gy) = (x / n, y / n);
    let (fx, fy) = (x % n, y % n);
    let top = corner_of(gx, gy, seed) * (n - fx) + corner_of(gx + 1, gy, seed) * fx;
    let bot = corner_of(gx, gy + 1, seed) * (n - fx) + corner_of(gx + 1, gy + 1, seed) * fx;
    top * (n - fy) + bot * fy
}

/// One step of a bilinear blend of heights no greater than the lattice
/// pitch moves the weight by at most the pitch squared.
proof fn lemma_blend_step(a0: int, a1: int, b0: int, b1: int, f: int)
    requires
        0 <= a0 <= 48,
        0 <= a1 <= 48,
        0 <= b0 <= 48,
        0 <= b1 <= 48,
        0 <= f < 48,
    ensures
        -48 * 48 <= (a1 - a0) * (48 - f) + (b1 - b0) * f <= 48 * 48,
{
    assert(-48 * (48 - f) <= (a1 - a0) * (48 - f) <= 48 * (48 - f)) by (nonlinear_arith)
        requires
            -48 <= a1 - a0 <= 48,
            0 < 48 - f,
    ;
    assert(-48 * f <= (b1 - b0) * f <= 48 * f) by (nonlinear_arith)
        requires
            -48 <= b1 - b0 <= 48,
            0 <= f,
    ;
}

/// Two weights at most one pitch squared apart round to levels at most one
/// step apart.
proof fn lemma_close_levels(a: int, b: int)
    requires
        0 <= a,
        0 <= b,
        -48 * 48 <= a - b <= 48 * 48,
    ensures
        -1 <= a / 2304int - b / 2304int <= 1,
{
}

/// A generated ground level lies in `0..=MAX_RELIEF`, and is its weight
/// divided by the lattice pitch squared.
proof fn lemma_terrain_level(x: int, y: int, seed: u32)
    ensures
        0 <= terrain_weight(x, y, seed) <= 48 * 48 * 48,
        terrain_of(x, y, seed) as int == terrain_weight(x, y, seed) / 2304int,
{
    let n = TERRAIN_CELL as int;
    let (gx, gy) = (x / n, y / n);
    let (fx, fy) = (x % n, y % n);
    let (c00, c10) = (corner_of(gx, gy, seed), corner_of(gx + 1, gy, seed));
    let (c01, c11) = (corner_of(gx, gy + 1, seed), corner_of(gx + 1, gy + 1, seed));
    let top = c00 * (n - fx) + c10 * fx;
    let bot = c01 * (n - fx) + c11 * fx;
    assert(0 <= top <= 48 * 48 && 0 <= bot <= 48 * 48) by (nonlinear_arith)
        requires
            0 <= c00 <= 48,
            0 <= c10 <= 48,
            0 <= c01 <= 48,
            0 <= c11 <= 48,
            0 <= fx < 48,
            n == 48,
            top == c00 * (n - fx) + c10 * fx,
            bot == c01 * (n - fx) + c11 * fx,
    ;
    assert(0 <= top * (n - fy) + bot * fy <= 48 * 48 * 48) by (nonlinear_arith)
        requires
            0 <= top <= 48 * 48,
            0 <= bot <= 48 * 48,
            0 <= fy < 48,
            n == 48,
    ;
}

/// Generated ground never rises above the relief limit: every level lies in
/// `0..=MAX_RELIEF`.
pub proof fn lemma_ground_within_relief(x: int, y: int, seed: u32)
    ensures
        terrain_of(x, y, seed) <= MAX_RELIEF,
{
    lemma_terrain_level(x, y, seed);
    assert(terrain_weight(x, y, seed) / 2304int <= 48) by (nonlinear_arith)
        requires
            0 <= terrain_weight(x, y, seed) <= 48 * 48 * 48,
    ;
}

/// The grade is gentle: two cells side by side, along either axis, stand
/// at most one step apart.  (Diagonal neighbours are not covered: a blend
/// climbing along both axes at once can rise by two.)
pub proof fn lemma_grade_is_gentle(x: int, y: int, seed: u32)
    ensures
        -1 <= terrain_of(x, y, seed) - terrain_of(x - 1, y, seed) <= 1,
        -1 <= terrain_of(x, y, seed) - terrain_of(x, y - 1, seed) <= 1,
{
    let n = TERRAIN_CELL as int;
    lemma_terrain_level(x, y, seed);
    lemma_terrain_level(x - 1, y, seed);
    lemma_terrain_level(x, y - 1, seed);
    let (gx, gy) = (x / n, y / n);
    let (fx, fy) = (x % n, y % n);
    let c00 = corner_of(gx, gy, seed);
    let c10 = corner_of(gx + 1, gy, seed);
    let c01 = corner_of(gx, gy + 1, seed);
    let c11 = corner_of(gx + 1, gy + 1, seed);
    let w = terrain_weight(x, y, seed);
    assert(w == (c00 * (n - fx) + c10 * fx) * (n - fy) + (c01 * (n - fx) + c11 * fx) * fy);
    // One cell back along x: the same lattice square, or the far edge of
    // the one before.
    let wx = terrain_weight(x - 1, y, seed);
    if fx > 0 {
        assert((x - 1) / n == gx && (x - 1) % n == fx - 1);
        assert(wx == (c00 * (n - (fx - 1)) + c10 * (fx - 1)) * (n - fy) + (c01 * (n - (fx - 1)) + c11 * (fx - 1)) * fy);
        let (t, t1) = (c00 * (n - fx) + c10 * fx, c00 * (n - (fx - 1)) + c10 * (fx - 1));
        let (b, b1) = (c01 * (n - fx) + c11 * fx, c01 * (n - (fx - 1)) + c11 * (fx - 1));
        assert(t - t1 == c10 - c00) by (nonlinear_arith)
            requires
                t == c00 * (n - fx) + c10 * fx,
                t1 == c00 * (n - (fx - 1)) + c10 * (fx - 1),
        ;
        assert(b - b1 == c11 - c01) by (nonlinear_arith)
            requires
                b == c01 * (n - fx) + c11 * fx,
                b1 == c01 * (n - (fx - 1)) + c11 * (fx - 1),
        ;
        assert(w - wx == (t - t1) * (n - fy) + (b - b1) * fy) by (nonlinear_arith)
            requires
                w == t * (n - fy) + b * fy,
                wx == t1 * (n - fy) + b1 * fy,
        ;
        lemma_blend_step(c00, c10, c01, c11, fy);
    } else {
        let d00 = corner_of(gx - 1, gy, seed);
        let d01 = corner_of(gx - 1, gy + 1, seed);
        assert((x - 1) / n == gx - 1 && (x - 1) % n == n - 1);
        assert(wx == (d00 * 1 + c00 * (n - 1)) * (n - fy) + (d01 * 1 + c01 * (n - 1)) * fy);
        assert(w - wx == (c00 - d00) * (n - fy) + (c01 - d01) * fy) by (nonlinear_arith)
            requires
                fx == 0,
                n == 48,
                w == (c00 * (n - fx) + c10 * fx) * (n - fy) + (c01 * (n - fx) + c11 * fx) * fy,
                wx == (d00 * 1 + c00 * (n - 1)) * (n - fy) + (d01 * 1 + c01 * (n - 1)) * fy,
        ;
        lemma_blend_step(d00, c00, d01, c01, fy);
    }
    lemma_close_levels(w, wx);
    // One cell back along y, likewise.
    let wy = terrain_weight(x, y - 1, seed);
    if fy > 0 {
        assert((y - 1) / n == gy && (y - 1) % n == fy - 1);
        assert(wy == (c00 * (n - fx) + c10 * fx) * (n - (fy - 1)) + (c01 * (n - fx) + c11 * fx) * (fy - 1));
        assert(w - wy == (c01 - c00) * (n - fx) + (c11 - c10) * fx) by (nonlinear_arith)
            requires
                w == (c00 * (n - fx) + c10 * fx) * (n - fy) + (c01 * (n - fx) + c11 * fx) * fy,
                wy == (c00 * (n - fx) + c10 * fx) * (n - (fy - 1)) + (c01 * (n - fx) + c11 * fx) * (fy - 1),
        ;
        lemma_blend_step(c00, c01, c10, c11, fx);
    } else {
        let e00 = corner_of(gx, gy - 1, seed);
        let e10 = corner_of(gx + 1, gy - 1, seed);
        assert((y - 1) / n == gy - 1 && (y - 1) % n == n - 1);
        assert(wy == (e00 * (n - fx) + e10 * fx) * 1 + (c00 * (n - fx) + c10 * fx) * (n - 1));
        assert(w - wy == (c00 - e00) * (n - fx) + (c10 - e10) * fx) by (nonlinear_arith)
            requires
                fy == 0,
                n == 48,
                w == (c00 * (n - fx) + c10 * fx) * (n - fy) + (c01 * (n - fx) + c11 * fx) * fy,
                wy == (e00 * (n - fx) + e10 * fx) * 1 + (c00 * (n - fx) + c10 * fx) * (n - 1),
        ;
        lemma_blend_step(e00, c00, e10, c10, fx);
    }
    lemma_close_levels(w, wy);
}

} // verus!
