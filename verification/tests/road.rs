use lib::fixed::{self, HALF};
use lib::road::{centre, heading};
use lib::trig::{HALF as HALF_TURN, QUARTER};

#[test]
fn a_car_points_the_way_it_travels() {
    assert_eq!(heading(1, 0), 0);
    assert_eq!(heading(3, -2), 0, "any eastward travel points east");
    assert_eq!(heading(-1, 5), HALF_TURN);
    assert_eq!(heading(0, 1), QUARTER);
    assert_eq!(heading(0, -1), QUARTER + HALF_TURN);
    assert_eq!(heading(0, 0), QUARTER + HALF_TURN, "standing still reads as north");
}

#[test]
fn the_centre_of_a_cell_is_half_a_cell_in() {
    assert_eq!(centre(3, -2), (fixed::from_int(3) + HALF, fixed::from_int(-2) + HALF));
    assert_eq!(centre(0, 0), (HALF, HALF));
}

use lib::fixed::{from_int, ONE};
use lib::road::{flow, lane, lane_biased, street_axis, Strip};

/// A street plan on a twenty-cell pitch: each block of twenty starts with a
/// carriageway of one of five widths, and the rest of it is not a street.
fn strip(i: i32) -> Strip {
    let widths = [2u8, 3, 4, 7, 14];
    let w = widths[i.div_euclid(20).rem_euclid(5) as usize];
    let a = i.rem_euclid(20);
    if a < w as i32 {
        Strip { street: true, width: w, across: a as u8 }
    } else {
        Strip { street: false, width: 0, across: 0 }
    }
}

fn nothing() -> Strip {
    Strip { street: false, width: 0, across: 0 }
}

#[test]
fn the_flow_of_a_lane_is_the_lane_the_flow_asks_for() {
    let mut checked = 0;
    for y in 0..200 {
        for x in 0..200 {
            let (row, col) = (strip(y), strip(x));
            let Some(dir) = flow(&row, &col, x, y) else { continue };
            let (lx, ly) = lane(&row, &col, x, y, dir);
            let along_x = street_axis(&row, &col).unwrap();
            let (here, want) = if along_x { (from_int(y), ly) } else { (from_int(x), lx) };
            let cell = if along_x { row } else { col };
            let kerb = from_int(if along_x { y } else { x } - cell.across as i32);
            let mid = kerb + from_int(cell.width as i32) / 2;
            let side_of_cell = here + HALF - mid;
            let side_of_lane = want - mid;
            assert!(
                (side_of_cell > 0) == (side_of_lane > 0),
                "cell {x},{y} flows {dir:?} but its lane is across the crown"
            );
            checked += 1;
        }
    }
    assert!(checked > 1000, "only {checked} cells had a side");
}

#[test]
fn the_two_sides_of_a_street_are_two_streams() {
    let mut pairs = 0;
    for y in 1..199 {
        for x in 1..199 {
            let (row, col) = (strip(y), strip(x));
            let Some(along_x) = street_axis(&row, &col) else { continue };
            let cell = if along_x { row } else { col };
            if cell.width < 2 {
                continue;
            }
            let here = if along_x { y } else { x };
            let kerb = here - cell.across as i32;
            let far = kerb + cell.width as i32 - 1;
            let at = |i: i32| {
                if along_x {
                    flow(&strip(i), &col, x, i)
                } else {
                    flow(&row, &strip(i), i, y)
                }
            };
            if let (Some(a), Some(b)) = (at(kerb), at(far)) {
                assert_eq!(a.0 + a.1, -(b.0 + b.1), "both kerbs of the street at {x},{y} carry traffic the same way");
                pairs += 1;
            }
        }
    }
    assert!(pairs > 100, "only {pairs} pairs of opposing lanes found");
}

#[test]
fn the_axis_comes_from_the_plan() {
    let street = Strip { street: true, width: 4, across: 1 };
    assert_eq!(street_axis(&street, &nothing()), Some(true));
    assert_eq!(street_axis(&nothing(), &street), Some(false));
    assert_eq!(street_axis(&street, &street), None, "a junction has no single axis");
    assert_eq!(street_axis(&nothing(), &nothing()), None);
}

#[test]
fn the_lane_is_one_cell_past_the_crown_on_the_right() {
    // A four-cell street running east-west, the cell one in from the kerb
    // at y = 11: the kerb is at y = 10 and the crown at y = 12.
    let row = Strip { street: true, width: 4, across: 1 };
    let col = nothing();
    assert_eq!(lane(&row, &col, 5, 11, (1, 0)), (from_int(5) + HALF, from_int(13)));
    assert_eq!(lane(&row, &col, 5, 11, (-1, 0)), (from_int(5) + HALF, from_int(11)));
    // The same street running north-south: southbound keeps west.
    assert_eq!(lane(&col, &row, 11, 5, (0, 1)), (from_int(11), from_int(5) + HALF));
    assert_eq!(lane(&col, &row, 11, 5, (0, -1)), (from_int(13), from_int(5) + HALF));
    // A two-cell street: a quarter of the width, not a whole cell.
    let narrow = Strip { street: true, width: 2, across: 0 };
    assert_eq!(lane(&narrow, &col, 0, 7, (1, 0)), (HALF, from_int(8) + HALF));
}

#[test]
fn off_the_street_or_standing_still_the_lane_is_the_middle_of_the_cell() {
    let row = Strip { street: true, width: 4, across: 1 };
    assert_eq!(lane(&row, &nothing(), 5, 11, (0, 0)), centre(5, 11));
    assert_eq!(lane(&row, &nothing(), 5, 11, (0, 3)), centre(5, 11), "no progress along the street");
    assert_eq!(lane(&nothing(), &nothing(), 5, 11, (1, 0)), centre(5, 11));
    // At a junction the route decides the axis.
    assert_eq!(lane(&row, &row, 5, 11, (3, 1)), (from_int(5) + HALF, from_int(13)));
}

#[test]
fn the_flow_is_by_the_side_of_the_crown() {
    let row = Strip { street: true, width: 4, across: 0 };
    assert_eq!(flow(&row, &nothing(), 3, 10), Some((-1, 0)), "north of the crown is westbound");
    let row = Strip { street: true, width: 4, across: 3 };
    assert_eq!(flow(&row, &nothing(), 3, 13), Some((1, 0)), "south of the crown is eastbound");
    let col = Strip { street: true, width: 4, across: 0 };
    assert_eq!(flow(&nothing(), &col, 10, 3), Some((0, 1)), "west of the crown is southbound");
    let col = Strip { street: true, width: 4, across: 3 };
    assert_eq!(flow(&nothing(), &col, 13, 3), Some((0, -1)));
}

#[test]
fn some_cells_have_no_flow() {
    let odd = Strip { street: true, width: 3, across: 1 };
    assert_eq!(flow(&odd, &nothing(), 0, 8), None, "the middle of an odd road is on the crown");
    let one = Strip { street: true, width: 1, across: 0 };
    assert_eq!(flow(&one, &nothing(), 0, 8), None, "a one-cell lane has no halves");
    let row = Strip { street: true, width: 4, across: 0 };
    assert_eq!(flow(&row, &row, 4, 4), None, "a junction");
    assert_eq!(flow(&nothing(), &nothing(), 4, 4), None);
}

#[test]
fn a_biased_lane_picks_a_whole_lane_of_its_half() {
    // Fourteen cells: three lanes a side at most, measured out from the
    // crown at y = 7 for a kerb at y = 0.
    let row = Strip { street: true, width: 14, across: 9 };
    let col = nothing();
    let at = |bias| lane_biased(&row, &col, 2, 9, (1, 0), bias).1;
    assert_eq!(at(-ONE), from_int(7) + HALF, "the lane against the crown");
    assert_eq!(at(0), from_int(8) + HALF);
    assert_eq!(at(ONE), from_int(9) + HALF, "the outermost lane used");
    assert_eq!(at(5 * ONE), from_int(9) + HALF, "the bias is clamped");
    // Westbound mirrors it about the crown.
    assert_eq!(lane_biased(&row, &col, 2, 9, (-1, 0), ONE).1, from_int(4) + HALF);
    // A two-cell street has one lane a side, whatever the bias.
    let narrow = Strip { street: true, width: 2, across: 1 };
    assert_eq!(lane_biased(&narrow, &col, 2, 9, (1, 0), ONE).1, from_int(9) + HALF);
    // Off the street it is just the lane.
    assert_eq!(lane_biased(&row, &row, 2, 9, (1, 0), ONE), lane(&row, &row, 2, 9, (1, 0)));
}
