//! The rules of the road: which half of the carriageway a car belongs on,
//! and which way that half goes.
//!
//! Traffic here drives on the right.  Two questions, and they are
//! different questions:
//!
//! - [`lane`]: *given* a direction of travel, where on the road should a
//!   car be?
//! - [`flow`]: *given* a place on the road, which way does the traffic on
//!   this side of it go?
//!
//! They are inverses of each other, and that is proved below.
//!
//! Both read the street plan under the cell: the [`Strip`] of its row and
//! the [`Strip`] of its column.
use vstd::prelude::*;
use crate::fixed::{self, Fx, HALF, ONE};
use crate::trig::{self, Ang};

verus! {

/// One row or one column of the street plan, as seen from a cell on it:
/// whether it is a street, how wide its carriageway is, and how far in
/// from the low-coordinate kerb the cell sits.
#[derive(Clone, Copy, Debug, PartialEq, Eq, Structural)]
pub struct Strip {
    pub street: bool,
    pub width: u8,
    pub across: u8,
}

/// The most lanes of a single carriageway the traffic will spread across.
pub const LANES_MAX: i32 = 3;

/// Whether a cell is far enough inside the map for its lane and flow to be
/// worked out in 32-bit world units.
pub open spec fn on_plan(x: int, y: int) -> bool {
    -32512 <= x < 32512 && -32512 <= y < 32512
}

/// The value of [`street_axis`]: east-west where only the row is a street,
/// north-south where only the column is, and no answer at a junction or
/// off the streets.
pub open spec fn street_axis_of(row: Strip, col: Strip) -> Option<bool> {
    if row.street && !col.street {
        Some(true)
    } else if !row.street && col.street {
        Some(false)
    } else {
        None
    }
}

/// Which axis the street under a cell runs along: `true` for east-west.
///
/// `None` where there is no single answer: a junction, where both axes are
/// streets, or a cell that is on neither.
pub fn street_axis(row: &Strip, col: &Strip) -> (r: Option<bool>)
    ensures
        r == street_axis_of(*row, *col),
{
    if row.street && !col.street {
        Some(true)
    } else if !row.street && col.street {
        Some(false)
    } else {
        None
    }
}

/// The low-coordinate kerb of the carriageway a cell at coordinate `c`
/// (across the road) is on, in world units.
pub open spec fn kerb_of(cell: Strip, c: int) -> int {
    (c - cell.across) * 65536
}

/// The crown of that carriageway, taking it as at least `min_w` wide.
pub open spec fn crown_of(cell: Strip, c: int, min_w: int) -> int {
    let w = if (cell.width as int) < min_w { min_w } else { cell.width as int };
    kerb_of(cell, c) + (w * 65536) / 2
}

/// The axis [`lane`] reads: the road's where it has one, else the route's
/// larger component.
pub open spec fn lane_axis(row: Strip, col: Strip, rx: int, ry: int) -> bool {
    match street_axis_of(row, col) {
        Some(a) => a,
        None => vstd::math::abs(rx) > vstd::math::abs(ry),
    }
}

/// The value of [`lane`]: one lane past the crown on the right-hand side
/// of travel, or the middle of the cell where there is no lane to be in.
pub open spec fn lane_of(row: Strip, col: Strip, x: int, y: int, rx: int, ry: int) -> (int, int) {
    let along_x = lane_axis(row, col, rx, ry);
    let cell = if along_x { row } else { col };
    let dir = if along_x { rx } else { ry };
    if !cell.street || dir == 0 {
        (x * 65536 + HALF, y * 65536 + HALF)
    } else {
        let w = (if (cell.width as int) < 2 { 2 } else { cell.width as int }) * 65536;
        let mid = crown_of(cell, if along_x { y } else { x }, 2);
        let off = if w / 4 < 65536 { w / 4 } else { 65536 };
        if along_x {
            (x * 65536 + HALF, if dir > 0 { mid + off } else { mid - off })
        } else {
            (if dir > 0 { mid - off } else { mid + off }, y * 65536 + HALF)
        }
    }
}

/// The middle of the right-hand lane, at a cell, for a car travelling
/// `(rx, ry)`.
///
/// Measured from the carriageway rather than from the route: the centre
/// of the road, and hence of each half of it, comes from where the kerbs
/// are.  Which axis to read is decided by the road, and only by the route
/// where the road cannot say.  One cell past the crown, or a quarter of
/// the width where that is less.
pub fn lane(row: &Strip, col: &Strip, x: i32, y: i32, dir: (i32, i32)) -> (r: (Fx, Fx))
    requires
        on_plan(x as int, y as int),
        dir.0 != i32::MIN,
        dir.1 != i32::MIN,
    ensures
        r.0 == lane_of(*row, *col, x as int, y as int, dir.0 as int, dir.1 as int).0,
        r.1 == lane_of(*row, *col, x as int, y as int, dir.0 as int, dir.1 as int).1,
{
    let (rx, ry) = dir;
    let ax = if rx < 0 { -rx } else { rx };
    let ay = if ry < 0 { -ry } else { ry };
    let along_x = match street_axis(row, col) {
        Some(a) => a,
        None => ax > ay,
    };
    let cell = if along_x { *row } else { *col };
    let d = if along_x { rx } else { ry };
    if !cell.street || d == 0 {
        return centre(x, y);
    }
    let wc: u8 = if cell.width < 2 { 2 } else { cell.width };
    let w = fixed::from_int(wc as i32);
    let c = if along_x { y } else { x };
    let kerb = fixed::from_int(c - cell.across as i32);
    let mid = kerb + w / 2;
    let off = if ONE < w / 4 { ONE } else { w / 4 };
    if along_x {
        let l = if d > 0 { mid + off } else { mid - off };
        (fixed::from_int(x) + HALF, l)
    } else {
        let l = if d > 0 { mid - off } else { mid + off };
        (l, fixed::from_int(y) + HALF)
    }
}

/// How far out from the crown [`lane_biased`] puts a car, in world units,
/// for a bias and a carriageway `width` cells wide: the middle of one of
/// up to [`LANES_MAX`] whole lanes, chosen by the bias.
pub open spec fn lane_out_of(width: int, bias: int) -> int {
    let lanes = if width / 2 < 1 { 1 } else if width / 2 > LANES_MAX { LANES_MAX as int } else { width / 2 };
    let t = fixed::clamp_of(bias + 65536, 0, 131072int) / 2;
    HALF + fixed::mul_wide(t, (lanes - 1) * 65536)
}

/// The value of [`lane_biased`].
pub open spec fn lane_biased_of(row: Strip, col: Strip, x: int, y: int, rx: int, ry: int, bias: int) -> (int, int) {
    let l = lane_of(row, col, x, y, rx, ry);
    match street_axis_of(row, col) {
        None => l,
        Some(along_x) => {
            let cell = if along_x { row } else { col };
            let out = lane_out_of(cell.width as int, bias);
            let mid = kerb_of(cell, if along_x { y } else { x }) + (cell.width as int * 65536) / 2;
            if along_x {
                (l.0, if rx > 0 { mid + out } else { mid - out })
            } else {
                (if ry > 0 { mid - out } else { mid + out }, l.1)
            }
        },
    }
}

/// A place in the same half of the road as [`lane`], chosen by `bias`.
///
/// `bias` runs from -1 (the lane against the crown) through 0 to +1 (the
/// outermost lane used).  The half is divided into whole one-cell lanes,
/// at most [`LANES_MAX`], and the car is put in the middle of one.
pub fn lane_biased(row: &Strip, col: &Strip, x: i32, y: i32, dir: (i32, i32), bias: Fx) -> (r: (Fx, Fx))
    requires
        on_plan(x as int, y as int),
        dir.0 != i32::MIN,
        dir.1 != i32::MIN,
        bias <= i32::MAX - ONE,
    ensures
        r.0 == lane_biased_of(*row, *col, x as int, y as int, dir.0 as int, dir.1 as int, bias as int).0,
        r.1 == lane_biased_of(*row, *col, x as int, y as int, dir.0 as int, dir.1 as int, bias as int).1,
{
    let (lx, ly) = lane(row, col, x, y, dir);
    let along_x = match street_axis(row, col) {
        Some(a) => a,
        None => return (lx, ly),
    };
    let cell = if along_x { *row } else { *col };
    let half_w: i32 = cell.width as i32 / 2;
    let lanes: i32 = if half_w < 1 { 1 } else if half_w > LANES_MAX { LANES_MAX } else { half_w };
    let t = fixed::clamp(bias + ONE, 0, 2 * ONE) / 2;
    let pick = fixed::mul(t, fixed::from_int(lanes - 1));
    proof {
        assert(0 <= t <= 65536);
        assert(0 <= (t as int) * ((lanes - 1) * 65536) <= 65536 * 131072) by (nonlinear_arith)
            requires 0 <= t <= 65536, 0 <= lanes - 1 <= 2;
    }
    let out = HALF + pick;
    let c = if along_x { y } else { x };
    let kerb = fixed::from_int(c - cell.across as i32);
    let mid = kerb + fixed::from_int(cell.width as i32) / 2;
    if along_x {
        (lx, if dir.0 > 0 { mid + out } else { mid - out })
    } else {
        (if dir.1 > 0 { mid - out } else { mid + out }, ly)
    }
}

/// The value of [`flow`]: the one direction of travel that belongs on the
/// side of the crown the cell is on, south of it eastbound and west of it
/// southbound; nothing off the streets, at a junction, on a carriageway
/// too narrow to have two halves, or on the crown itself.
pub open spec fn flow_of(row: Strip, col: Strip, x: int, y: int) -> Option<(i32, i32)> {
    match street_axis_of(row, col) {
        None => None,
        Some(along_x) => {
            let cell = if along_x { row } else { col };
            let c = if along_x { y } else { x };
            let mid = crown_of(cell, c, 0);
            let here = c * 65536 + HALF;
            if cell.width < 2 || here == mid {
                None
            } else if along_x {
                Some(if here > mid { (1i32, 0i32) } else { (-1i32, 0i32) })
            } else {
                Some(if here < mid { (0i32, 1i32) } else { (0i32, -1i32) })
            }
        },
    }
}

/// Which way the traffic on this half of the carriageway is going.
///
/// The inverse of [`lane`]: it reads which side of the crown the cell is on
/// and returns the one direction of travel that belongs there.  `None`
/// where the question has no answer: not a street, a junction, a
/// carriageway too narrow to have two halves, or the middle cell of an
/// odd-width road, which straddles the crown.
pub fn flow(row: &Strip, col: &Strip, x: i32, y: i32) -> (r: Option<(i32, i32)>)
    requires
        on_plan(x as int, y as int),
    ensures
        r == flow_of(*row, *col, x as int, y as int),
{
    let along_x = match street_axis(row, col) {
        Some(a) => a,
        None => return None,
    };
    let cell = if along_x { *row } else { *col };
    if cell.width < 2 {
        return None;
    }
    let w = fixed::from_int(cell.width as i32);
    let c = if along_x { y } else { x };
    let kerb = fixed::from_int(c - cell.across as i32);
    let mid = kerb + w / 2;
    let here = fixed::from_int(c) + HALF;
    if here == mid {
        return None;
    }
    if along_x {
        Some(if here > mid { (1, 0) } else { (-1, 0) })
    } else {
        Some(if here < mid { (0, 1) } else { (0, -1) })
    }
}

/// Which way the flow at a cell runs along its street, as one number: the
/// sum of the two components of the direction.
pub open spec fn stream_of(d: (i32, i32)) -> int {
    d.0 + d.1
}

/// [`flow`] and [`lane`] are inverses: wherever a cell has a flow, the lane
/// that direction of travel asks for is on the same side of the crown as
/// the cell itself, so a car put down by [`flow`] is never steered across
/// the road by [`lane`].
pub proof fn lemma_the_flow_of_a_lane_is_the_lane_the_flow_asks_for(row: Strip, col: Strip, x: i32, y: i32)
    requires
        on_plan(x as int, y as int),
        flow_of(row, col, x as int, y as int) is Some,
    ensures
        ({
            let d = flow_of(row, col, x as int, y as int)->0;
            let along_x = street_axis_of(row, col)->0;
            let cell = if along_x { row } else { col };
            let c = if along_x { y as int } else { x as int };
            let mid = crown_of(cell, c, 0);
            let l = lane_of(row, col, x as int, y as int, d.0 as int, d.1 as int);
            let want = if along_x { l.1 } else { l.0 };
            (c * 65536 + HALF - mid > 0) == (want - mid > 0)
        }),
{
}

/// [`lane_biased`] keeps to the same half of the road as [`lane`]: on a
/// street at least two cells wide, for travel along it, both are on the
/// same side of the crown, and neither is on it.
pub proof fn lemma_a_biased_lane_is_in_the_same_half(row: Strip, col: Strip, x: i32, y: i32, rx: i32, ry: i32, bias: Fx)
    requires
        on_plan(x as int, y as int),
        street_axis_of(row, col) is Some,
        (if street_axis_of(row, col)->0 { row } else { col }).width >= 2,
        (if street_axis_of(row, col)->0 { rx } else { ry }) != 0,
    ensures
        ({
            let along_x = street_axis_of(row, col)->0;
            let cell = if along_x { row } else { col };
            let mid = crown_of(cell, if along_x { y as int } else { x as int }, 0);
            let l = lane_of(row, col, x as int, y as int, rx as int, ry as int);
            let b = lane_biased_of(row, col, x as int, y as int, rx as int, ry as int, bias as int);
            let (lw, bw) = if along_x { (l.1, b.1) } else { (l.0, b.0) };
            &&& lw != mid
            &&& bw != mid
            &&& (lw > mid) == (bw > mid)
        }),
{
    let along_x = street_axis_of(row, col)->0;
    let cell = if along_x { row } else { col };
    let t = fixed::clamp_of(bias + 65536, 0, 131072int) / 2;
    let w = cell.width as int;
    let lanes: int = if w / 2 < 1 { 1 } else if w / 2 > LANES_MAX { LANES_MAX as int } else { w / 2 };
    assert(0 <= t * ((lanes - 1) * 65536)) by (nonlinear_arith)
        requires 0 <= t, 0 <= lanes - 1;
    assert(lane_out_of(cell.width as int, bias as int) >= HALF);
}

/// The two kerbside lanes of a street go opposite ways: the cell against
/// the low kerb of a carriageway at least two cells wide, and the cell
/// against its far kerb, both have a flow, and the flows are opposite.
pub proof fn lemma_the_two_sides_of_a_street_are_two_streams(
    row1: Strip, col1: Strip, x1: i32, y1: i32,
    row2: Strip, col2: Strip, x2: i32, y2: i32,
    along_x: bool,
)
    requires
        on_plan(x1 as int, y1 as int),
        on_plan(x2 as int, y2 as int),
        street_axis_of(row1, col1) == Some(along_x),
        street_axis_of(row2, col2) == Some(along_x),
        ({
            let (a, b) = if along_x { (row1, row2) } else { (col1, col2) };
            let (c1, c2) = if along_x { (y1 as int, y2 as int) } else { (x1 as int, x2 as int) };
            &&& a.width == b.width
            &&& a.width >= 2
            &&& a.across == 0
            &&& b.across == a.width - 1
            &&& c2 == c1 + a.width - 1
        }),
    ensures
        flow_of(row1, col1, x1 as int, y1 as int) is Some,
        flow_of(row2, col2, x2 as int, y2 as int) is Some,
        stream_of(flow_of(row1, col1, x1 as int, y1 as int)->0)
            == -stream_of(flow_of(row2, col2, x2 as int, y2 as int)->0),
{
}

/// The value of [`heading`]: east for any eastward travel, west for any
/// westward, and otherwise south going south and north going north or
/// nowhere.
pub open spec fn heading_of(dx: i32, dy: i32) -> Ang {
    if dx > 0 {
        0
    } else if dx < 0 {
        32768
    } else if dy > 0 {
        16384
    } else {
        49152
    }
}

/// The heading a car travelling `(dx, dy)` along a street points at.
pub fn heading(dx: i32, dy: i32) -> (a: Ang)
    ensures
        a == heading_of(dx, dy),
{
    if dx > 0 {
        0
    } else if dx < 0 {
        trig::HALF
    } else if dy > 0 {
        trig::QUARTER
    } else {
        trig::QUARTER.wrapping_add(trig::HALF)
    }
}

/// The centre of a cell, in world units.
pub fn centre(x: i32, y: i32) -> (c: (Fx, Fx))
    requires
        -32768 <= x < 32768,
        -32768 <= y < 32768,
    ensures
        c.0 == x * 65536 + HALF,
        c.1 == y * 65536 + HALF,
{
    (fixed::from_int(x) + HALF, fixed::from_int(y) + HALF)
}

} // verus!
