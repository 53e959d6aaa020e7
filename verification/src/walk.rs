//! The walking system: where a person on foot may be, and how they get
//! about.
//!
//! The driving network and the walking network are not the same network.
//! A car belongs on the carriageway; a person belongs on the pavement, in
//! the parks and plazas, and on the carriageway only where it is painted
//! for them to cross.  So this is a second map over the same grid, one
//! byte a cell.
//!
//! Two ways about it.  [`WalkMap::step_toward`] is a greedy step that
//! prefers the long axis, accepts a crossing, and turns along the kerb when
//! the direct way is blocked: four lookups, and no promise of arriving.
//! [`WalkMap::route`] is a breadth-first search, for when the answer has to
//! be right.
use vstd::prelude::*;
use std::collections::VecDeque;
use vstd::set_lib::set_int_range;
use crate::trig::{self, Ang};

verus! {

/// What a cell offers somebody on foot.
#[derive(Clone, Copy, Debug, PartialEq, Eq, Structural)]
pub enum Foot {
    /// You may not be here at all.
    Blocked,
    /// Pavement, park or plaza.  Where a pedestrian belongs.
    Path,
    /// Carriageway painted for crossing.  Passable, and not somewhere to
    /// linger.
    Crossing,
}

/// What a byte of the map says a cell offers; anything unknown is blocked.
pub open spec fn decode(c: u8) -> Foot {
    if c == 1 {
        Foot::Path
    } else if c == 2 {
        Foot::Crossing
    } else {
        Foot::Blocked
    }
}

impl Foot {
    /// Whether a person may stand here.
    pub fn passable(self) -> (b: bool)
        ensures
            b == (self != Foot::Blocked),
    {
        match self {
            Foot::Blocked => false,
            _ => true,
        }
    }
}

/// The pedestrian network: a square of cells, one byte each.
pub struct WalkMap {
    size: usize,
    cells: Vec<u8>,
}

/// Whether two cells are side by side.
pub open spec fn adjacent(a: (i32, i32), b: (i32, i32)) -> bool {
    vstd::math::abs(a.0 - b.0) + vstd::math::abs(a.1 - b.1) == 1
}

/// The compass heading of a unit step.
pub open spec fn heading_of(sx: int, sy: int) -> Ang {
    if sx == 1 && sy == 0 {
        0
    } else if sx == 0 && sy == 1 {
        16384
    } else if sx == -1 && sy == 0 {
        32768
    } else {
        49152
    }
}

/// The compass heading of a unit step.
fn heading(sx: i32, sy: i32) -> (a: Ang)
    ensures
        a == heading_of(sx as int, sy as int),
{
    if sx == 1 && sy == 0 {
        0
    } else if sx == 0 && sy == 1 {
        trig::QUARTER
    } else if sx == -1 && sy == 0 {
        trig::HALF
    } else {
        trig::HALF.wrapping_add(trig::QUARTER)
    }
}

impl WalkMap {
    /// The map is square and its side fits a 16-bit coordinate.
    #[verifier::type_invariant]
    spec fn shaped(self) -> bool {
        &&& self.size < 32768
        &&& self.cells@.len() == self.size * self.size
    }

    /// The length of a side, in cells.
    pub closed spec fn side(self) -> int {
        self.size as int
    }

    /// The byte held for the cell at index `i`, row by row.
    pub closed spec fn code_at(self, i: int) -> u8 {
        self.cells@[i]
    }

    /// What the cell `(x, y)` offers on foot: blocked off the map.
    pub open spec fn foot(self, x: int, y: int) -> Foot {
        if 0 <= x < self.side() && 0 <= y < self.side() {
            decode(self.code_at(y * self.side() + x))
        } else {
            Foot::Blocked
        }
    }

    /// Whether a person may stand at `(x, y)`.
    pub open spec fn open_at(self, x: int, y: int) -> bool {
        self.foot(x, y) != Foot::Blocked
    }

    /// Build the walking network, a square of `size` cells a side, from
    /// what each cell offers on foot.
    pub fn build(size: usize, foot_at: impl Fn(i32, i32) -> Foot) -> (m: WalkMap)
        requires
            size < 32768,
            forall|x: i32, y: i32| foot_at.requires((x, y)),
        ensures
            m.side() == size,
            forall|x: i32, y: i32|
                0 <= x < size && 0 <= y < size ==> foot_at.ensures((x, y), #[trigger] m.foot(x as int, y as int)),
    {
        let mut cells: Vec<u8> = Vec::new();
        let mut y: usize = 0;
        while y < size
            invariant
                size < 32768,
                forall|x: i32, y: i32| foot_at.requires((x, y)),
                y <= size,
                cells@.len() == y * size,
                forall|xx: int, yy: int|
                    0 <= xx < size && 0 <= yy < y ==> foot_at.ensures((xx as i32, yy as i32), decode(#[trigger] cells@[yy * size + xx])),
            decreases size - y,
        {
            let mut x: usize = 0;
            while x < size
                invariant
                    size < 32768,
                    forall|x: i32, y: i32| foot_at.requires((x, y)),
                    y < size,
                    x <= size,
                    cells@.len() == y * size + x,
                    forall|xx: int, yy: int|
                        0 <= xx < size && 0 <= yy < y ==> foot_at.ensures((xx as i32, yy as i32), decode(#[trigger] cells@[yy * size + xx])),
                    forall|xx: int| 0 <= xx < x ==> foot_at.ensures((xx as i32, y as i32), decode(#[trigger] cells@[y * size + xx])),
                decreases size - x,
            {
                let f = foot_at(x as i32, y as i32);
                let c: u8 = match f {
                    Foot::Blocked => 0,
                    Foot::Path => 1,
                    Foot::Crossing => 2,
                };
                let ghost before = cells@;
                cells.push(c);
                proof {
                    assert forall|xx: int, yy: int|
                        0 <= xx < size && 0 <= yy < y implies foot_at.ensures((xx as i32, yy as i32), decode(#[trigger] cells@[yy * size + xx])) by {
                        assert(yy * size + xx < y * size) by (nonlinear_arith)
                            requires
                                0 <= xx < size,
                                0 <= yy < y,
                        ;
                        assert(cells@[yy * size + xx] == before[yy * size + xx]);
                    }
                    assert forall|xx: int| 0 <= xx < x + 1 implies foot_at.ensures((xx as i32, y as i32), decode(#[trigger] cells@[y * size + xx])) by {
                        if xx < x {
                            assert(cells@[y * size + xx] == before[y * size + xx]);
                        }
                    }
                }
                x = x + 1;
            }
            proof {
                assert((y + 1) * size == y * size + size) by (nonlinear_arith);
                assert forall|xx: int, yy: int|
                    0 <= xx < size && 0 <= yy < y + 1 implies foot_at.ensures((xx as i32, yy as i32), decode(#[trigger] cells@[yy * size + xx])) by {
                    if yy == y {
                    }
                }
            }
            y = y + 1;
        }
        proof {
            assert(y == size);
        }
        WalkMap { size, cells }
    }

    /// What this cell offers on foot.
    pub fn at(&self, x: i32, y: i32) -> (f: Foot)
        ensures
            f == self.foot(x as int, y as int),
    {
        proof {
            use_type_invariant(self);
        }
        if x < 0 || y < 0 || x as usize >= self.size || y as usize >= self.size {
            return Foot::Blocked;
        }
        proof {
            assert(y as int * self.size + x < self.size * self.size) by (nonlinear_arith)
                requires
                    0 <= x < self.size,
                    0 <= y < self.size,
            ;
            assert(self.size * self.size < 0x4000_0000) by (nonlinear_arith)
                requires
                    self.size < 32768,
            ;
        }
        let i = y as usize * self.size + x as usize;
        match self.cells[i] {
            1 => Foot::Path,
            2 => Foot::Crossing,
            _ => Foot::Blocked,
        }
    }

    /// Whether a person may be here.
    pub fn passable(&self, x: i32, y: i32) -> (b: bool)
        ensures
            b == self.open_at(x as int, y as int),
    {
        self.at(x, y).passable()
    }
}

/// The Chebyshev distance of an offset: how many rings out it is.
pub open spec fn ring_of(dx: int, dy: int) -> int {
    let a = vstd::math::abs(dx) as int;
    let b = vstd::math::abs(dy) as int;
    if a >= b { a } else { b }
}

/// Whether `from` and `to` are places a step between can be worked out
/// for in 32 bits.
pub open spec fn steppable(from: (i32, i32), to: (i32, i32)) -> bool {
    &&& i32::MIN < from.0 < i32::MAX
    &&& i32::MIN < from.1 < i32::MAX
    &&& i32::MIN < to.0 - from.0 <= i32::MAX
    &&& i32::MIN < to.1 - from.1 <= i32::MAX
}

/// The four unit steps a walker tries, most preferred first: along the
/// axis with the most ground to make up, then along the other, then the
/// two ways round.
pub open spec fn preference(dx: int, dy: int) -> Seq<(int, int)> {
    let east: int = if dx >= 0 { 1 } else { -1 };
    let south: int = if dy >= 0 { 1 } else { -1 };
    if vstd::math::abs(dy) > vstd::math::abs(dx) {
        seq![(0, south), (east, 0), (0, -south), (-east, 0)]
    } else {
        seq![(east, 0), (0, south), (0, -south), (-east, 0)]
    }
}

/// The value of [`WalkMap::step_toward`]: the heading of the first of the
/// preferred steps that lands somewhere a person may stand.
pub open spec fn step_toward_of(m: WalkMap, from: (i32, i32), to: (i32, i32)) -> Option<Ang> {
    let (dx, dy) = (to.0 - from.0, to.1 - from.1);
    let o = preference(dx, dy);
    let ok = |k: int| m.open_at(from.0 + o[k].0, from.1 + o[k].1);
    if dx == 0 && dy == 0 {
        None
    } else if ok(0) {
        Some(heading_of(o[0].0, o[0].1))
    } else if ok(1) {
        Some(heading_of(o[1].0, o[1].1))
    } else if ok(2) {
        Some(heading_of(o[2].0, o[2].1))
    } else if ok(3) {
        Some(heading_of(o[3].0, o[3].1))
    } else {
        None
    }
}

/// Whether a search for somewhere to stand around `(x, y)` out to `limit`
/// rings can be worked out in 32 bits.
pub open spec fn searchable(x: i32, y: i32, limit: i32) -> bool {
    let l: int = if limit > 0 { limit as int } else { 0 };
    &&& i32::MIN <= x - l
    &&& x + l <= i32::MAX
    &&& i32::MIN <= y - l
    &&& y + l <= i32::MAX
}

/// A walker closes the larger gap first: where the step along the axis
/// with more ground to make up is open, that is the step taken, towards
/// the goal.  Every step taken is one cell along an axis onto open ground,
/// and at the goal no step is taken.
pub proof fn lemma_a_walker_closes_the_larger_gap(m: WalkMap, from: (i32, i32), to: (i32, i32))
    ensures
        ({
            let (dx, dy) = (to.0 - from.0, to.1 - from.1);
            let sx: int = if dx > 0 { 1 } else { -1 };
            let sy: int = if dy > 0 { 1 } else { -1 };
            &&& (vstd::math::abs(dx) > vstd::math::abs(dy) && m.open_at(from.0 + sx, from.1 as int))
                ==> step_toward_of(m, from, to) == Some(heading_of(sx, 0))
            &&& (vstd::math::abs(dy) > vstd::math::abs(dx) && m.open_at(from.0 as int, from.1 + sy))
                ==> step_toward_of(m, from, to) == Some(heading_of(0, sy))
            &&& step_toward_of(m, from, to) matches Some(h) ==> exists|ux: int, uy: int|
                #![trigger heading_of(ux, uy)]
                vstd::math::abs(ux) + vstd::math::abs(uy) == 1 && h == heading_of(ux, uy) && m.open_at(from.0 + ux, from.1 + uy)
            &&& (dx == 0 && dy == 0) ==> step_toward_of(m, from, to) is None
        }),
{
    let (dx, dy) = (to.0 - from.0, to.1 - from.1);
    let o = preference(dx as int, dy as int);
    if !(dx == 0 && dy == 0) {
        if m.open_at(from.0 + o[0].0, from.1 + o[0].1) {
            assert(heading_of(o[0].0, o[0].1) == heading_of(o[0].0, o[0].1));
        } else if m.open_at(from.0 + o[1].0, from.1 + o[1].1) {
            assert(heading_of(o[1].0, o[1].1) == heading_of(o[1].0, o[1].1));
        } else if m.open_at(from.0 + o[2].0, from.1 + o[2].1) {
            assert(heading_of(o[2].0, o[2].1) == heading_of(o[2].0, o[2].1));
        } else if m.open_at(from.0 + o[3].0, from.1 + o[3].1) {
            assert(heading_of(o[3].0, o[3].1) == heading_of(o[3].0, o[3].1));
        }
    }
}

impl WalkMap {
    /// One step from `from` towards `to`, as a compass heading.
    ///
    /// Greedy, cheap, and not guaranteed to arrive: it has no memory, so a
    /// U-shaped obstacle holds it forever.  `None` at the destination, and
    /// when boxed in.
    pub fn step_toward(&self, from: (i32, i32), to: (i32, i32)) -> (a: Option<Ang>)
        requires
            steppable(from, to),
        ensures
            a == step_toward_of(*self, from, to),
            ({
                let (dx, dy) = (to.0 - from.0, to.1 - from.1);
                let sx: int = if dx > 0 { 1 } else { -1 };
                let sy: int = if dy > 0 { 1 } else { -1 };
                &&& (vstd::math::abs(dx) > vstd::math::abs(dy) && self.open_at(from.0 + sx, from.1 as int))
                    ==> a == Some(heading_of(sx, 0))
                &&& (vstd::math::abs(dy) > vstd::math::abs(dx) && self.open_at(from.0 as int, from.1 + sy))
                    ==> a == Some(heading_of(0, sy))
            }),
    {
        proof {
            lemma_a_walker_closes_the_larger_gap(*self, from, to);
        }
        let dx = to.0 - from.0;
        let dy = to.1 - from.1;
        if dx == 0 && dy == 0 {
            return None;
        }
        let east: i32 = if dx >= 0 { 1 } else { -1 };
        let south: i32 = if dy >= 0 { 1 } else { -1 };
        let ay = if dy < 0 { -dy } else { dy };
        let ax = if dx < 0 { -dx } else { dx };
        let order: [(i32, i32); 4] = if ay > ax {
            [(0, south), (east, 0), (0, -south), (-east, 0)]
        } else {
            [(east, 0), (0, south), (0, -south), (-east, 0)]
        };
        let ghost o = preference(dx as int, dy as int);
        assert(forall|k: int| 0 <= k < 4 ==> order@[k].0 == o[k].0 && order@[k].1 == o[k].1);
        let mut k: usize = 0;
        while k < 4
            invariant
                0 <= k <= 4,
                steppable(from, to),
                dx == to.0 - from.0 && dy == to.1 - from.1,
                !(dx == 0 && dy == 0),
                o == preference(dx as int, dy as int),
                forall|j: int| 0 <= j < 4 ==> order@[j].0 == o[j].0 && order@[j].1 == o[j].1,
                forall|j: int| 0 <= j < k ==> !self.open_at(from.0 + o[j].0, from.1 + o[j].1),
            decreases 4 - k,
        {
            let (sx, sy) = order[k];
            if self.passable(from.0 + sx, from.1 + sy) {
                return Some(heading(sx, sy));
            }
            k = k + 1;
        }
        None
    }

    /// The nearest cell a person may stand on, ring by ring out to `limit`
    /// rings, and along each ring row by row: the cell itself if it is
    /// open, `None` if nothing is.
    pub fn nearest(&self, x: i32, y: i32, limit: i32) -> (r: Option<(i32, i32)>)
        requires
            searchable(x, y, limit),
        ensures
            r is None ==> forall|p: int, q: int|
                ring_of(p - x, q - y) < (if limit > 1 { limit as int } else { 1 }) ==> !#[trigger] self.open_at(p, q),
            r matches Some(c) ==> {
                let n = ring_of(c.0 - x, c.1 - y);
                &&& self.open_at(c.0 as int, c.1 as int)
                &&& n < (if limit > 1 { limit as int } else { 1 })
                &&& forall|p: int, q: int| ring_of(p - x, q - y) < n ==> !#[trigger] self.open_at(p, q)
                &&& forall|p: int, q: int| ring_of(p - x, q - y) == n && (q < c.1 || (q == c.1 && p < c.0))
                    ==> !#[trigger] self.open_at(p, q)
            },
    {
        if self.passable(x, y) {
            return Some((x, y));
        }
        assert forall|p: int, q: int| ring_of(p - x, q - y) < 1 implies !#[trigger] self.open_at(p, q) by {
            assert(p == x && q == y);
        }
        let mut r: i32 = 1;
        while r < limit
            invariant
                searchable(x, y, limit),
                1 <= r,
                r <= limit || r == 1,
                forall|p: int, q: int| ring_of(p - x, q - y) < r ==> !#[trigger] self.open_at(p, q),
            decreases limit - r,
        {
            let mut dy: i32 = -r;
            while dy <= r
                invariant
                    searchable(x, y, limit),
                    1 <= r < limit,
                    -r <= dy <= r + 1,
                    forall|p: int, q: int| ring_of(p - x, q - y) < r ==> !#[trigger] self.open_at(p, q),
                    forall|p: int, q: int| ring_of(p - x, q - y) == r && q < y + dy ==> !#[trigger] self.open_at(p, q),
                decreases r + 1 - dy,
            {
                let mut dx: i32 = -r;
                while dx <= r
                    invariant
                        searchable(x, y, limit),
                        1 <= r < limit,
                        -r <= dy <= r,
                        -r <= dx <= r + 1,
                        forall|p: int, q: int| ring_of(p - x, q - y) < r ==> !#[trigger] self.open_at(p, q),
                        forall|p: int, q: int| ring_of(p - x, q - y) == r && q < y + dy ==> !#[trigger] self.open_at(p, q),
                        forall|p: int| ring_of(p - x, dy as int) == r && p < x + dx ==> !#[trigger] self.open_at(p, y + dy),
                    decreases r + 1 - dx,
                {
                    let ax = if dx < 0 { -dx } else { dx };
                    let ay = if dy < 0 { -dy } else { dy };
                    if ax == r || ay == r {
                        if self.passable(x + dx, y + dy) {
                            return Some((x + dx, y + dy));
                        }
                    }
                    dx = dx + 1;
                }
                dy = dy + 1;
            }
            r = r + 1;
        }
        None
    }
}

/// Whether `p` is a walk on the map from `from` to `to`: open cells all
/// the way, each beside the one before.
pub open spec fn is_walk(m: WalkMap, p: Seq<(i32, i32)>, from: (i32, i32), to: (i32, i32)) -> bool {
    &&& p.len() >= 1
    &&& p[0] == from
    &&& p[p.len() - 1] == to
    &&& forall|k: int| 0 <= k < p.len() ==> m.open_at(#[trigger] p[k].0 as int, p[k].1 as int)
    &&& forall|k: int| 0 <= k < p.len() - 1 ==> adjacent(#[trigger] p[k], p[k + 1])
}

impl WalkMap {
    /// The cell at index `i`, row by row.
    pub closed spec fn cell(self, i: int) -> (i32, i32) {
        ((i % self.side()) as i32, (i / self.side()) as i32)
    }

    /// The index of a cell on the map.
    closed spec fn index(self, x: int, y: int) -> int {
        y * self.side() + x
    }

    /// An index and the cell at it name each other.
    proof fn lemma_index_cell(self, x: int, y: int)
        requires
            0 <= x < self.side(),
            0 <= y < self.side(),
        ensures
            self.cell(self.index(x, y)) == (x as i32, y as i32),
            0 <= self.index(x, y) < self.side() * self.side(),
    {
        vstd::arithmetic::div_mod::lemma_fundamental_div_mod_converse(self.index(x, y), self.side(), y, x);
        assert(y * self.side() + x < self.side() * self.side()) by (nonlinear_arith)
            requires
                0 <= x < self.side(),
                0 <= y < self.side(),
        ;
    }

    /// What a cell of the search knows about how it was reached: its
    /// parent was reached first, one step nearer the start and beside it;
    /// the start is its own parent; and every cell reached is open.
    closed spec fn parent_ok(self, came: Seq<usize>, dist: Seq<int>, root: int, i: int) -> bool {
        let n = self.side() * self.side();
        let c = came[i] as int;
        &&& 0 <= c < n
        &&& came[c] != usize::MAX
        &&& self.open_at(self.cell(i).0 as int, self.cell(i).1 as int)
        &&& (i == root) == (c == i)
        &&& i != root ==> dist[c] + 1 == dist[i] && adjacent(self.cell(i), self.cell(c))
        &&& dist[i] >= 0
    }

    /// The tree the search grows: every cell reached knows how.
    closed spec fn tree_ok(self, came: Seq<usize>, dist: Seq<int>, root: int) -> bool {
        let n = self.side() * self.side();
        &&& came.len() == n
        &&& dist.len() == n
        &&& 0 <= root < n
        &&& came[root] == root
        &&& dist[root] == 0
        &&& forall|i: int| 0 <= i < n && came[i] != usize::MAX ==> #[trigger] self.parent_ok(came, dist, root, i)
    }

    /// The invariant of the breadth-first search: `came` marks the cells
    /// reached and how, `vis` is the set of them, and it is as big as the
    /// cells taken off the queue and the cells still on it together.
    closed spec fn searching(self, came: Seq<usize>, queue: Seq<(i32, i32)>, vis: Set<int>, dist: Seq<int>, root: int, seen: int) -> bool {
        let n = self.side() * self.side();
        &&& self.size < 32768
        &&& self.cells@.len() == n
        &&& self.tree_ok(came, dist, root)
        &&& forall|i: int| 0 <= i < n ==> (came[i] != usize::MAX <==> #[trigger] vis.contains(i))
        &&& vis.finite()
        &&& vis.subset_of(set_int_range(0, n))
        &&& vis.len() == seen + queue.len()
        &&& 0 <= seen
        &&& forall|k: int| 0 <= k < queue.len() ==> {
            &&& 0 <= (#[trigger] queue[k]).0 < self.side()
            &&& 0 <= queue[k].1 < self.side()
            &&& came[self.index(queue[k].0 as int, queue[k].1 as int)] != usize::MAX
        }
    }

    /// The cell at index `i` is on the map and its index is `i`.
    proof fn lemma_cell_index(self, i: int)
        requires
            0 <= i < self.side() * self.side(),
            0 < self.side() < 32768,
        ensures
            0 <= self.cell(i).0 < self.side(),
            0 <= self.cell(i).1 < self.side(),
            self.index(self.cell(i).0 as int, self.cell(i).1 as int) == i,
    {
        let s = self.side();
        vstd::arithmetic::div_mod::lemma_fundamental_div_mod(i, s);
        assert(i / s < s) by (nonlinear_arith)
            requires
                0 <= i < s * s,
                0 < s,
        ;
        assert(0 <= i / s) by (nonlinear_arith)
            requires
                0 <= i,
                0 < s,
        ;
        assert(0 <= i % s < s) by (nonlinear_arith)
            requires
                0 < s,
        ;
        assert(s * (i / s) == (i / s) * s) by (nonlinear_arith);
    }

    /// Whether the cell at index `i` has been reached.
    closed spec fn reached(self, came: Seq<usize>, p: (i32, i32)) -> bool {
        came[self.index(p.0 as int, p.1 as int)] != usize::MAX
    }

    /// The distance recorded for the cell at the `k`th place of the queue.
    closed spec fn qd(self, dist: Seq<int>, q: Seq<(i32, i32)>, k: int) -> int {
        dist[self.index(q[k].0 as int, q[k].1 as int)]
    }

    /// Whether every open neighbour of the cell at index `c` is reached.
    closed spec fn expanded(self, came: Seq<usize>, c: int) -> bool {
        forall|e: int|
            0 <= e < self.side() * self.side() && self.open_at(self.cell(e).0 as int, self.cell(e).1 as int)
                && #[trigger] adjacent(self.cell(e), self.cell(c)) ==> came[e] != usize::MAX
    }

    /// Whether the cell at index `c` is somewhere on the queue.
    closed spec fn queued(self, q: Seq<(i32, i32)>, c: int) -> bool {
        exists|k: int| 0 <= k < q.len() && #[trigger] self.index(q[k].0 as int, q[k].1 as int) == c
    }

    /// The layers of the breadth-first search: every reached cell is done
    /// (all its open neighbours reached), on the queue, or `here`, being
    /// expanded at distance `lo`; the queue runs in order of distance and
    /// spans `lo` and `lo + 1`; and no walk from the start to a reached
    /// cell is shorter than the distance recorded for it.
    closed spec fn layered(self, came: Seq<usize>, q: Seq<(i32, i32)>, dist: Seq<int>, done: Set<int>, lo: int, here: int, from: (i32, i32)) -> bool {
        let n = self.side() * self.side();
        &&& forall|c: int| 0 <= c < n && came[c] != usize::MAX ==> #[trigger] done.contains(c) || c == here || self.queued(q, c)
        &&& forall|c: int| #[trigger] done.contains(c) ==> 0 <= c < n && came[c] != usize::MAX && self.expanded(came, c)
        &&& forall|i: int, j: int| 0 <= i <= j < q.len() ==> #[trigger] self.qd(dist, q, i) <= #[trigger] self.qd(dist, q, j)
        &&& forall|k: int| 0 <= k < q.len() ==> lo <= #[trigger] self.qd(dist, q, k) <= lo + 1
        &&& here >= 0 ==> 0 <= here < n && came[here] != usize::MAX && dist[here] == lo
        &&& forall|c: int, w: Seq<(i32, i32)>|
            0 <= c < n && came[c] != usize::MAX && #[trigger] is_walk(self, w, from, self.cell(c)) ==> dist[c] <= w.len() - 1
    }

    /// A walk that starts on a reached cell and ends on an unreached one
    /// leaves the reached cells somewhere: a reached cell followed by an
    /// unreached one.
    proof fn lemma_walk_leaves(self, came: Seq<usize>, w: Seq<(i32, i32)>, k: int) -> (j: int)
        requires
            0 <= k < w.len(),
            self.reached(came, w[k]),
            !self.reached(came, w[w.len() - 1]),
        ensures
            k <= j < w.len() - 1,
            self.reached(came, w[j]),
            !self.reached(came, w[j + 1]),
        decreases w.len() - k,
    {
        if !self.reached(came, w[k + 1]) {
            k
        } else {
            self.lemma_walk_leaves(came, w, k + 1)
        }
    }

    /// No walk from the start reaches an unreached cell in fewer than
    /// `lo + 1` steps: it has to leave the reached cells from one that is
    /// not done, which is at least `lo` from the start.
    proof fn lemma_far(self, came: Seq<usize>, q: Seq<(i32, i32)>, vis: Set<int>, dist: Seq<int>, root: int, seen: int, done: Set<int>, lo: int, here: int, from: (i32, i32), u: int, w: Seq<(i32, i32)>)
        requires
            self.searching(came, q, vis, dist, root, seen),
            self.layered(came, q, dist, done, lo, here, from),
            self.cell(root) == from,
            0 <= u < self.side() * self.side(),
            came[u] == usize::MAX,
            is_walk(self, w, from, self.cell(u)),
        ensures
            w.len() - 1 >= lo + 1,
    {
        let n = self.side() * self.side();
        assert(0 < self.side()) by (nonlinear_arith)
            requires
                0 <= root < n,
                n == self.side() * self.side(),
        ;
        assert(n < 0x4000_0000) by (nonlinear_arith)
            requires
                n == self.side() * self.side(),
                0 <= self.side() < 32768,
        ;
        self.lemma_cell_index(root);
        self.lemma_cell_index(u);
        assert(w[0] == from);
        assert(self.reached(came, w[0]));
        assert(!self.reached(came, w[w.len() - 1]));
        let j = self.lemma_walk_leaves(came, w, 0);
        assert(self.open_at(w[j].0 as int, w[j].1 as int));
        assert(self.open_at(w[j + 1].0 as int, w[j + 1].1 as int));
        assert(adjacent(w[j], w[j + 1]));
        self.lemma_index_cell(w[j].0 as int, w[j].1 as int);
        self.lemma_index_cell(w[j + 1].0 as int, w[j + 1].1 as int);
        let c = self.index(w[j].0 as int, w[j].1 as int);
        let e = self.index(w[j + 1].0 as int, w[j + 1].1 as int);
        assert(self.cell(c) == w[j]);
        assert(self.cell(e) == w[j + 1]);
        if done.contains(c) {
            assert(self.expanded(came, c));
            assert(adjacent(self.cell(e), self.cell(c)));
            assert(false);
        }
        assert(dist[c] >= lo) by {
            if c != here {
                assert(self.queued(q, c));
                let k = choose|k: int| 0 <= k < q.len() && #[trigger] self.index(q[k].0 as int, q[k].1 as int) == c;
                assert(lo <= self.qd(dist, q, k));
            }
        }
        let wp = w.subrange(0, j + 1);
        assert(is_walk(self, wp, from, self.cell(c))) by {
            assert(wp[0] == from);
            assert(wp[wp.len() - 1] == w[j]);
            assert forall|k: int| 0 <= k < wp.len() implies self.open_at(#[trigger] wp[k].0 as int, wp[k].1 as int) by {
                assert(wp[k] == w[k]);
            }
            assert forall|k: int| 0 <= k < wp.len() - 1 implies adjacent(#[trigger] wp[k], wp[k + 1]) by {
                assert(wp[k] == w[k] && wp[k + 1] == w[k + 1]);
            }
        }
        assert(dist[c] <= wp.len() - 1);
    }

    /// Once every reached cell is done, nothing unreached can be walked
    /// to from the start: a walk would have to leave the reached cells from
    /// a done one, whose open neighbours are all reached.
    proof fn lemma_no_way_out(self, came: Seq<usize>, vis: Set<int>, dist: Seq<int>, root: int, seen: int, done: Set<int>, lo: int, from: (i32, i32), to: (i32, i32), w: Seq<(i32, i32)>)
        requires
            self.searching(came, Seq::empty(), vis, dist, root, seen),
            self.layered(came, Seq::empty(), dist, done, lo, -1, from),
            self.cell(root) == from,
            self.open_at(to.0 as int, to.1 as int),
            !self.reached(came, to),
        ensures
            !is_walk(self, w, from, to),
    {
        if is_walk(self, w, from, to) {
            let n = self.side() * self.side();
            assert(0 < self.side() < 32768) by (nonlinear_arith)
                requires
                    0 <= root < n,
                    n == self.side() * self.side(),
                    self.size < 32768,
                    self.side() == self.size,
            ;
            assert(n < 0x4000_0000) by (nonlinear_arith)
                requires
                    n == self.side() * self.side(),
                    0 <= self.side() < 32768,
            ;
            self.lemma_cell_index(root);
            assert(w[0] == from);
            assert(self.reached(came, w[0]));
            let j = self.lemma_walk_leaves(came, w, 0);
            assert(self.open_at(w[j].0 as int, w[j].1 as int));
            assert(self.open_at(w[j + 1].0 as int, w[j + 1].1 as int));
            assert(adjacent(w[j], w[j + 1]));
            self.lemma_index_cell(w[j].0 as int, w[j].1 as int);
            self.lemma_index_cell(w[j + 1].0 as int, w[j + 1].1 as int);
            let c = self.index(w[j].0 as int, w[j].1 as int);
            let e = self.index(w[j + 1].0 as int, w[j + 1].1 as int);
            assert(done.contains(c) || c == -1 || self.queued(Seq::empty(), c));
            assert(self.expanded(came, c));
            assert(adjacent(self.cell(e), self.cell(c)));
        }
    }

    /// At the start only the start is reached, and it is on the queue at
    /// distance nought.
    proof fn lemma_start_layered(self, came: Seq<usize>, q: Seq<(i32, i32)>, dist: Seq<int>, root: int, from: (i32, i32))
        requires
            self.tree_ok(came, dist, root),
            self.size < 32768,
            forall|j: int| 0 <= j < self.side() * self.side() && j != root ==> came[j] == usize::MAX,
            q == seq![from],
            self.cell(root) == from,
        ensures
            self.layered(came, q, dist, Set::empty(), 0, -1, from),
    {
        let n = self.side() * self.side();
        assert(0 < self.side() < 32768) by (nonlinear_arith)
            requires
                0 <= root < n,
                n == self.side() * self.side(),
                self.size < 32768,
                self.side() == self.size,
        ;
        self.lemma_cell_index(root);
        assert(self.index(q[0].0 as int, q[0].1 as int) == root);
        assert forall|c: int| 0 <= c < n && came[c] != usize::MAX implies #[trigger] Set::<int>::empty().contains(c) || c == -1 || self.queued(q, c) by {
            assert(c == root);
        }
    }

    /// Taking the head off the queue starts its expansion: it becomes the
    /// cell being expanded, at its own distance, and the rest of the queue
    /// is within a level of it.
    proof fn lemma_pop_layered(self, came: Seq<usize>, q: Seq<(i32, i32)>, vis: Set<int>, dist: Seq<int>, root: int, seen: int, done: Set<int>, lo: int, from: (i32, i32))
        requires
            self.searching(came, q, vis, dist, root, seen),
            self.layered(came, q, dist, done, lo, -1, from),
            q.len() > 0,
        ensures
            self.layered(came, q.subrange(1, q.len() as int), dist, done, self.qd(dist, q, 0),
                self.index(q[0].0 as int, q[0].1 as int), from),
    {
        let n = self.side() * self.side();
        let r = q.subrange(1, q.len() as int);
        let h = self.index(q[0].0 as int, q[0].1 as int);
        let lo2 = self.qd(dist, q, 0);
        self.lemma_index_cell(q[0].0 as int, q[0].1 as int);
        assert forall|k: int| 0 <= k < r.len() implies #[trigger] self.qd(dist, r, k) == self.qd(dist, q, k + 1) by {
            assert(r[k] == q[k + 1]);
        }
        assert forall|c: int| 0 <= c < n && came[c] != usize::MAX implies #[trigger] done.contains(c) || c == h || self.queued(r, c) by {
            if !done.contains(c) {
                assert(self.queued(q, c));
                let k = choose|k: int| 0 <= k < q.len() && #[trigger] self.index(q[k].0 as int, q[k].1 as int) == c;
                if k > 0 {
                    assert(r[k - 1] == q[k]);
                    assert(self.index(r[k - 1].0 as int, r[k - 1].1 as int) == c);
                }
            }
        }
        assert forall|a: int, b: int| 0 <= a <= b < r.len() implies #[trigger] self.qd(dist, r, a) <= #[trigger] self.qd(dist, r, b) by {
            assert(self.qd(dist, q, a + 1) <= self.qd(dist, q, b + 1));
        }
        assert forall|k: int| 0 <= k < r.len() implies lo2 <= #[trigger] self.qd(dist, r, k) <= lo2 + 1 by {
            assert(self.qd(dist, q, 0) <= self.qd(dist, q, k + 1));
            assert(self.qd(dist, q, k + 1) <= lo + 1);
            assert(lo <= self.qd(dist, q, 0));
        }
    }

    /// Marking an unreached open neighbour of the cell being expanded keeps
    /// the layers: it goes on the end of the queue one level out, and no
    /// walk reaches it in fewer steps.
    proof fn lemma_mark_layered(self, came: Seq<usize>, q: Seq<(i32, i32)>, vis: Set<int>, dist: Seq<int>, root: int, seen: int, done: Set<int>, lo: int, here: int, from: (i32, i32), nx: i32, ny: i32)
        requires
            self.searching(came, q, vis, dist, root, seen),
            self.layered(came, q, dist, done, lo, here, from),
            self.cell(root) == from,
            0 <= here < self.side() * self.side(),
            0 <= nx < self.side(),
            0 <= ny < self.side(),
            came[self.index(nx as int, ny as int)] == usize::MAX,
            self.open_at(nx as int, ny as int),
            adjacent((nx, ny), self.cell(here)),
        ensures
            ({
                let ni = self.index(nx as int, ny as int);
                let came2 = came.update(ni, here as usize);
                let dist2 = dist.update(ni, dist[here] + 1);
                &&& self.layered(came2, q.push((nx, ny)), dist2, done, lo, here, from)
                &&& dist2[ni] == lo + 1
            }),
    {
        let n = self.side() * self.side();
        assert(n < 0x4000_0000) by (nonlinear_arith)
            requires
                n == self.side() * self.side(),
                0 <= self.side() < 32768,
        ;
        let ni = self.index(nx as int, ny as int);
        self.lemma_index_cell(nx as int, ny as int);
        let came2 = came.update(ni, here as usize);
        let dist2 = dist.update(ni, dist[here] + 1);
        let q2 = q.push((nx, ny));
        assert(ni != here);
        assert forall|c: int| 0 <= c < n && came2[c] != usize::MAX implies #[trigger] done.contains(c) || c == here || self.queued(q2, c) by {
            if c == ni {
                assert(self.index(q2[q.len() as int].0 as int, q2[q.len() as int].1 as int) == c);
            } else if !done.contains(c) && c != here {
                assert(came[c] != usize::MAX);
                assert(self.queued(q, c));
                let k = choose|k: int| 0 <= k < q.len() && #[trigger] self.index(q[k].0 as int, q[k].1 as int) == c;
                assert(q2[k] == q[k]);
                assert(self.index(q2[k].0 as int, q2[k].1 as int) == c);
            }
        }
        assert forall|c: int| #[trigger] done.contains(c) implies 0 <= c < n && came2[c] != usize::MAX && self.expanded(came2, c) by {
            assert(self.expanded(came, c));
            assert forall|e: int|
                0 <= e < n && self.open_at(self.cell(e).0 as int, self.cell(e).1 as int)
                    && #[trigger] adjacent(self.cell(e), self.cell(c)) implies came2[e] != usize::MAX by {
                if e != ni {
                    assert(came[e] != usize::MAX);
                }
            }
        }
        assert forall|k: int| 0 <= k < q2.len() implies #[trigger] self.qd(dist2, q2, k) == if k < q.len() { self.qd(dist, q, k) } else { lo + 1 } by {
            if k < q.len() {
                assert(q2[k] == q[k]);
                self.lemma_index_cell(q[k].0 as int, q[k].1 as int);
                assert(self.index(q[k].0 as int, q[k].1 as int) != ni);
            }
        }
        assert forall|a: int, b: int| 0 <= a <= b < q2.len() implies #[trigger] self.qd(dist2, q2, a) <= #[trigger] self.qd(dist2, q2, b) by {
            if b < q.len() {
                assert(self.qd(dist, q, a) <= self.qd(dist, q, b));
            } else if a < q.len() {
                assert(self.qd(dist, q, a) <= lo + 1);
            }
        }
        assert forall|k: int| 0 <= k < q2.len() implies lo <= #[trigger] self.qd(dist2, q2, k) <= lo + 1 by {
            if k < q.len() {
                assert(lo <= self.qd(dist, q, k) <= lo + 1);
            }
        }
        assert forall|c: int, w: Seq<(i32, i32)>|
            0 <= c < n && came2[c] != usize::MAX && #[trigger] is_walk(self, w, from, self.cell(c)) implies dist2[c] <= w.len() - 1 by {
            if c == ni {
                self.lemma_far(came, q, vis, dist, root, seen, done, lo, here, from, ni, w);
            } else {
                assert(came[c] != usize::MAX);
            }
        }
    }

    /// A cell whose four neighbours are all reached or closed is done.
    proof fn lemma_finish_layered(self, came: Seq<usize>, q: Seq<(i32, i32)>, vis: Set<int>, dist: Seq<int>, root: int, seen: int, done: Set<int>, lo: int, here: int, from: (i32, i32), x: i32, y: i32)
        requires
            self.searching(came, q, vis, dist, root, seen),
            self.layered(came, q, dist, done, lo, here, from),
            0 <= here < self.side() * self.side(),
            self.cell(here) == (x, y),
            0 <= x < self.side(),
            0 <= y < self.side(),
            !self.open_at(x + 1, y as int) || self.reached(came, ((x + 1) as i32, y)),
            !self.open_at(x - 1, y as int) || self.reached(came, ((x - 1) as i32, y)),
            !self.open_at(x as int, y + 1) || self.reached(came, (x, (y + 1) as i32)),
            !self.open_at(x as int, y - 1) || self.reached(came, (x, (y - 1) as i32)),
        ensures
            self.layered(came, q, dist, done.insert(here), lo, -1, from),
    {
        let n = self.side() * self.side();
        assert forall|e: int|
            0 <= e < n && self.open_at(self.cell(e).0 as int, self.cell(e).1 as int)
                && #[trigger] adjacent(self.cell(e), self.cell(here)) implies came[e] != usize::MAX by {
            self.lemma_cell_index(e);
        }
        assert(self.expanded(came, here));
        let done2 = done.insert(here);
        assert forall|c: int| 0 <= c < n && came[c] != usize::MAX implies #[trigger] done2.contains(c) || c == -1 || self.queued(q, c) by {
            if c != here {
                assert(done.contains(c) || c == here || self.queued(q, c));
            }
        }
    }

    /// Taking the head off the queue keeps the search's invariant, with
    /// one more cell seen, and the head is a reached cell on the map.
    proof fn lemma_pop(self, came: Seq<usize>, q: Seq<(i32, i32)>, vis: Set<int>, dist: Seq<int>, root: int, seen: int)
        requires
            self.searching(came, q, vis, dist, root, seen),
            q.len() > 0,
        ensures
            self.searching(came, q.subrange(1, q.len() as int), vis, dist, root, seen + 1),
            0 <= q[0].0 < self.side(),
            0 <= q[0].1 < self.side(),
            came[self.index(q[0].0 as int, q[0].1 as int)] != usize::MAX,
    {
        let r = q.subrange(1, q.len() as int);
        assert forall|k: int| 0 <= k < r.len() implies {
            &&& 0 <= (#[trigger] r[k]).0 < self.side()
            &&& 0 <= r[k].1 < self.side()
            &&& came[self.index(r[k].0 as int, r[k].1 as int)] != usize::MAX
        } by {
            assert(r[k] == q[k + 1]);
        }
        assert(q[0] == q[0]);
    }

    /// Marking an unreached open cell beside a reached one as reached from
    /// it, one step further out, and queueing it, keeps the search's
    /// invariant.
    proof fn lemma_mark(self, came: Seq<usize>, q: Seq<(i32, i32)>, vis: Set<int>, dist: Seq<int>, root: int, seen: int, here: int, nx: i32, ny: i32)
        requires
            self.searching(came, q, vis, dist, root, seen),
            0 <= here < self.side() * self.side(),
            came[here] != usize::MAX,
            0 <= nx < self.side(),
            0 <= ny < self.side(),
            came[self.index(nx as int, ny as int)] == usize::MAX,
            self.open_at(nx as int, ny as int),
            adjacent((nx, ny), self.cell(here)),
        ensures
            ({
                let ni = self.index(nx as int, ny as int);
                let came2 = came.update(ni, here as usize);
                let dist2 = dist.update(ni, dist[here] + 1);
                &&& self.tree_ok(came2, dist2, root)
                &&& self.searching(came2, q.push((nx, ny)), vis.insert(ni), dist2, root, seen)
            }),
    {
        let n = self.side() * self.side();
        assert(n < 0x4000_0000) by (nonlinear_arith)
            requires
                n == self.side() * self.side(),
                0 <= self.side() < 32768,
        ;
        let ni = self.index(nx as int, ny as int);
        self.lemma_index_cell(nx as int, ny as int);
        assert((here as usize) as int == here);
        let came2 = came.update(ni, here as usize);
        let dist2 = dist.update(ni, dist[here] + 1);
        let vis2 = vis.insert(ni);
        let q2 = q.push((nx, ny));
        assert(self.parent_ok(came, dist, root, here));
        assert(!vis.contains(ni));
        assert forall|i: int| 0 <= i < n && came2[i] != usize::MAX implies #[trigger] self.parent_ok(came2, dist2, root, i) by {
            if i != ni {
                assert(came[i] != usize::MAX);
                assert(self.parent_ok(came, dist, root, i));
                let c = came[i] as int;
                assert(c != ni);
            }
        }
        assert forall|i: int| 0 <= i < n implies (came2[i] != usize::MAX <==> #[trigger] vis2.contains(i)) by {
            if i != ni {
                assert(came2[i] == came[i]);
            }
        }
        vstd::set_lib::lemma_int_range(0, n);
        assert forall|k: int| 0 <= k < q2.len() implies {
            &&& 0 <= (#[trigger] q2[k]).0 < self.side()
            &&& 0 <= q2[k].1 < self.side()
            &&& came2[self.index(q2[k].0 as int, q2[k].1 as int)] != usize::MAX
        } by {
            if k < q.len() {
                assert(q2[k] == q[k]);
                self.lemma_index_cell(q[k].0 as int, q[k].1 as int);
            } else {
                assert(q2[k] == (nx, ny));
            }
        }
    }

    /// The walk back from a reached cell to the start, following the
    /// parents, turned round to run from the start.
    fn walk_back(&self, came: &Vec<usize>, from: (i32, i32), to: (i32, i32), end: usize, Ghost(dist): Ghost<Seq<int>>, Ghost(root): Ghost<int>) -> (p: Vec<(i32, i32)>)
        requires
            self.tree_ok(came@, dist, root),
            self.size < 32768,
            self.cell(root) == from,
            0 <= end < self.side() * self.side(),
            came@[end as int] != usize::MAX,
            self.cell(end as int) == to,
        ensures
            is_walk(*self, p@, from, to),
            p@.len() == dist[end as int] + 1,
    {
        let ghost n = self.side() * self.side();
        let mut back: Vec<(i32, i32)> = Vec::new();
        back.push(to);
        let mut cur = end;
        assert(self.parent_ok(came@, dist, root, end as int));
        while came[cur] != cur
            invariant
                self.tree_ok(came@, dist, root),
                self.size < 32768,
                0 <= cur < n,
                n == self.side() * self.side(),
                came@[cur as int] != usize::MAX,
                back@.len() >= 1,
                back@.len() == dist[end as int] - dist[cur as int] + 1,
                back@[0] == to,
                back@[back@.len() - 1] == self.cell(cur as int),
                forall|k: int| 0 <= k < back@.len() ==> self.open_at(#[trigger] back@[k].0 as int, back@[k].1 as int),
                forall|k: int| 0 <= k < back@.len() - 1 ==> adjacent(#[trigger] back@[k], back@[k + 1]),
            decreases dist[cur as int],
        {
            assert(self.parent_ok(came@, dist, root, cur as int));
            let c = came[cur];
            assert(self.parent_ok(came@, dist, root, c as int));
            let ghost last = back@.len() - 1;
            let cx = (c % self.size) as i32;
            let cy = (c / self.size) as i32;
            back.push((cx, cy));
            assert(adjacent(back@[last], back@[last + 1]));
            cur = c;
        }
        assert(self.parent_ok(came@, dist, root, cur as int));
        assert(cur as int == root);
        assert(self.parent_ok(came@, dist, root, end as int));
        let len = back.len();
        let mut out: Vec<(i32, i32)> = Vec::new();
        let mut k: usize = 0;
        while k < len
            invariant
                len == back@.len(),
                len >= 1,
                0 <= k <= len,
                back@[0] == to,
                back@[len - 1] == from,
                forall|i: int| 0 <= i < len ==> self.open_at(#[trigger] back@[i].0 as int, back@[i].1 as int),
                forall|i: int| 0 <= i < len - 1 ==> adjacent(#[trigger] back@[i], back@[i + 1]),
                out@.len() == k,
                forall|i: int| 0 <= i < k ==> #[trigger] out@[i] == back@[len - 1 - i],
            decreases len - k,
        {
            out.push(back[len - 1 - k]);
            k = k + 1;
        }
        assert forall|i: int| 0 <= i < out@.len() - 1 implies adjacent(#[trigger] out@[i], out@[i + 1]) by {
            assert(out@[i] == back@[len - 1 - i]);
            assert(out@[i + 1] == back@[len - 1 - (i + 1)]);
            assert(adjacent(back@[len - 1 - (i + 1)], back@[len - 1 - (i + 1) + 1]));
        }
        assert forall|i: int| 0 <= i < out@.len() implies self.open_at(#[trigger] out@[i].0 as int, out@[i].1 as int) by {
            assert(out@[i] == back@[len - 1 - i]);
        }
        out
    }

    /// A route between two cells, as a list of cells each beside the
    /// last, or `None` if there is none within `budget` cells of
    /// searching.  Breadth-first, for when the answer has to be right.
    pub fn route(&self, from: (i32, i32), to: (i32, i32), budget: usize) -> (r: Option<Vec<(i32, i32)>>)
        ensures
            !(self.open_at(from.0 as int, from.1 as int) && self.open_at(to.0 as int, to.1 as int)) ==> r is None,
            self.open_at(from.0 as int, from.1 as int) && from == to ==> (r matches Some(p) && p@ == seq![from]),
            r matches Some(p) ==> is_walk(*self, p@, from, to),
            r matches Some(p) ==> forall|w: Seq<(i32, i32)>| #[trigger] is_walk(*self, w, from, to) ==> p@.len() <= w.len(),
            r is None && budget >= self.side() * self.side() ==> forall|w: Seq<(i32, i32)>| !#[trigger] is_walk(*self, w, from, to),
    {
        proof {
            use_type_invariant(self);
        }
        if !self.passable(from.0, from.1) || !self.passable(to.0, to.1) {
            return None;
        }
        if from.0 == to.0 && from.1 == to.1 {
            return Some(vec![from]);
        }
        assert(from != to);
        let size = self.size;
        let ghost n = self.side() * self.side();
        proof {
            assert(n < 0x4000_0000) by (nonlinear_arith)
                requires
                    n == self.side() * self.side(),
                    self.side() < 32768,
            ;
            self.lemma_index_cell(from.0 as int, from.1 as int);
            self.lemma_index_cell(to.0 as int, to.1 as int);
        }
        let cells = size * size;
        let root = from.1 as usize * size + from.0 as usize;
        let mut came: Vec<usize> = Vec::new();
        let mut i: usize = 0;
        while i < cells
            invariant
                i <= cells,
                came@.len() == i,
                forall|j: int| 0 <= j < i ==> came@[j] == usize::MAX,
            decreases cells - i,
        {
            came.push(usize::MAX);
            i = i + 1;
        }
        came.set(root, root);
        let mut queue: VecDeque<(i32, i32)> = VecDeque::new();
        queue.push_back(from);
        let mut seen: usize = 0;
        let ghost mut vis: Set<int> = set![root as int];
        let ghost mut dist: Seq<int> = Seq::new(n as nat, |j: int| 0int);
        let ghost mut done: Set<int> = Set::empty();
        let ghost mut lo: int = 0;
        proof {
            assert(vis =~= set![root as int]);
            assert(vis.subset_of(set_int_range(0, n)));
            assert forall|j: int| 0 <= j < n implies (came@[j] != usize::MAX <==> #[trigger] vis.contains(j)) by {
                if j != root {
                    assert(came@[j] == usize::MAX);
                }
            }
            assert forall|j: int| 0 <= j < n && came@[j] != usize::MAX implies #[trigger] self.parent_ok(came@, dist, root as int, j) by {
                assert(j == root);
            }
            self.lemma_start_layered(came@, queue@, dist, root as int, from);
            assert(self.index(to.0 as int, to.1 as int) != root);
        }
        while queue.len() > 0
            invariant
                self.searching(came@, queue@, vis, dist, root as int, seen as int),
                n == self.side() * self.side(),
                n < 0x4000_0000,
                size == self.side(),
                cells == n,
                self.cell(root as int) == from,
                self.open_at(to.0 as int, to.1 as int),
                from != to,
                self.layered(came@, queue@, dist, done, lo, -1, from),
                !self.reached(came@, to),
            decreases n - seen,
        {
            proof {
                vstd::set_lib::lemma_int_range(0, n);
                vstd::set_lib::lemma_len_subset(vis, set_int_range(0, n));
                self.lemma_pop(came@, queue@, vis, dist, root as int, seen as int);
                self.lemma_pop_layered(came@, queue@, vis, dist, root as int, seen as int, done, lo, from);
            }
            let ghost head = queue@[0];
            let ghost lo2 = self.qd(dist, queue@, 0);
            let (x, y) = queue.pop_front().unwrap();
            proof {
                lo = lo2;
            }
            seen = seen + 1;
            if seen > budget {
                return None;
            }
            proof {
                self.lemma_index_cell(x as int, y as int);
            }
            let here = y as usize * size + x as usize;
            let steps: [(i32, i32); 4] = [(1, 0), (-1, 0), (0, 1), (0, -1)];
            let mut d: usize = 0;
            while d < 4
                invariant
                    self.searching(came@, queue@, vis, dist, root as int, seen as int),
                    n == self.side() * self.side(),
                    n < 0x4000_0000,
                    size == self.side(),
                    cells == n,
                    self.cell(root as int) == from,
                    self.open_at(to.0 as int, to.1 as int),
                    from != to,
                    0 <= x < size,
                    0 <= y < size,
                    here as int == self.index(x as int, y as int),
                    0 <= here < n,
                    self.cell(here as int) == (x, y),
                    came@[here as int] != usize::MAX,
                    steps@ == seq![(1i32, 0i32), (-1i32, 0i32), (0i32, 1i32), (0i32, -1i32)],
                    d <= 4,
                    self.layered(came@, queue@, dist, done, lo, here as int, from),
                    d > 0 ==> self.open_at(x + 1, y as int) ==> self.reached(came@, ((x + 1) as i32, y)),
                    d > 1 ==> self.open_at(x - 1, y as int) ==> self.reached(came@, ((x - 1) as i32, y)),
                    d > 2 ==> self.open_at(x as int, y + 1) ==> self.reached(came@, (x, (y + 1) as i32)),
                    d > 3 ==> self.open_at(x as int, y - 1) ==> self.reached(came@, (x, (y - 1) as i32)),
                    !self.reached(came@, to),
                decreases 4 - d,
            {
                let (dx, dy) = steps[d];
                let nx = x + dx;
                let ny = y + dy;
                let ghost before = came@;
                if self.passable(nx, ny) {
                    proof {
                        self.lemma_index_cell(nx as int, ny as int);
                    }
                    let ni = ny as usize * size + nx as usize;
                    if came[ni] == usize::MAX {
                        proof {
                            self.lemma_mark(came@, queue@, vis, dist, root as int, seen as int, here as int, nx, ny);
                            self.lemma_mark_layered(came@, queue@, vis, dist, root as int, seen as int, done, lo, here as int, from, nx, ny);
                        }
                        came.set(ni, here);
                        proof {
                            dist = dist.update(ni as int, dist[here as int] + 1);
                            vis = vis.insert(ni as int);
                        }
                        if nx == to.0 && ny == to.1 {
                            let path = self.walk_back(&came, from, to, ni, Ghost(dist), Ghost(root as int));
                            proof {
                                assert forall|w: Seq<(i32, i32)>| #[trigger] is_walk(*self, w, from, to) implies path@.len() <= w.len() by {
                                    assert(is_walk(*self, w, from, self.cell(ni as int)));
                                }
                            }
                            return Some(path);
                        }
                        proof {
                            self.lemma_index_cell(to.0 as int, to.1 as int);
                            assert(self.index(to.0 as int, to.1 as int) != ni as int);
                        }
                        queue.push_back((nx, ny));
                    }
                }
                proof {
                    assert(forall|j: int| 0 <= j < n && before[j] != usize::MAX ==> #[trigger] came@[j] != usize::MAX);
                    if self.open_at(nx as int, ny as int) {
                        self.lemma_index_cell(nx as int, ny as int);
                        assert(self.reached(came@, (nx, ny)));
                    }
                    if self.open_at(x + 1, y as int) {
                        self.lemma_index_cell(x + 1, y as int);
                    }
                    if self.open_at(x - 1, y as int) {
                        self.lemma_index_cell(x - 1, y as int);
                    }
                    if self.open_at(x as int, y + 1) {
                        self.lemma_index_cell(x as int, y + 1);
                    }
                    if self.open_at(x as int, y - 1) {
                        self.lemma_index_cell(x as int, y - 1);
                    }
                }
                d = d + 1;
            }
            proof {
                self.lemma_finish_layered(came@, queue@, vis, dist, root as int, seen as int, done, lo, here as int, from, x, y);
                done = done.insert(here as int);
            }
        }
        proof {
            assert(queue@ =~= Seq::<(i32, i32)>::empty());
            assert forall|w: Seq<(i32, i32)>| !#[trigger] is_walk(*self, w, from, to) by {
                self.lemma_no_way_out(came@, vis, dist, root as int, seen as int, done, lo, from, to, w);
            }
        }
        None
    }
}

/// The unit step a compass heading of [`heading_of`] stands for.
pub open spec fn unit_of(a: Ang) -> (int, int) {
    if a == 0 {
        (1, 0)
    } else if a == 16384 {
        (0, 1)
    } else if a == 32768 {
        (-1, 0)
    } else {
        (0, -1)
    }
}

/// Stepping never leaves the network: whatever step the greedy walker
/// takes lands somewhere a person may stand.
pub proof fn lemma_stepping_never_leaves_the_network(m: WalkMap, from: (i32, i32), to: (i32, i32))
    ensures
        step_toward_of(m, from, to) matches Some(a) ==> m.open_at(from.0 + unit_of(a).0, from.1 + unit_of(a).1),
{
}

} // verus!
