use lib::cabbie::{
    approach_speed, bearing_error, corner_speed, dist, forward, full_lock_at, pace, Cabbie, APPROACH, CRAWL,
    CREEP, CRUISE_MAX, FULL_LOCK, ROLLING,
};
use lib::drive::{Car, CarKind};
use lib::fixed::{self, Fx, HALF, ONE};
use lib::road::Strip;
use lib::trig::QUARTER;
use lib::walk::{Foot, WalkMap};

/// A carriageway map: a single east-west road along y = 5..=6 and a
/// north-south one along x = 20..=21, on a map 40 cells a side.
fn roads() -> WalkMap {
    WalkMap::build(40, |x: i32, y: i32| if (5..=6).contains(&y) || (20..=21).contains(&x) { Foot::Path } else { Foot::Blocked })
}

fn at(x: Fx, y: Fx, yaw: u16) -> Car {
    Car::new(CarKind::Taxi, x, y, yaw, 0)
}

fn cell(x: i32, y: i32) -> (Fx, Fx) {
    (fixed::from_int(x) + HALF, fixed::from_int(y) + HALF)
}

/// The plan through a cell on the far side of the east-west road: one in
/// from the kerb at y = 5.
fn east_west() -> (Strip, Strip) {
    (Strip { street: true, width: 2, across: 1 }, Strip { street: false, width: 0, across: 0 })
}

#[test]
fn the_lock_band_narrows_as_the_target_nears() {
    assert_eq!(full_lock_at(0), FULL_LOCK / 8, "never narrower than one cell's worth");
    assert_eq!(full_lock_at(fixed::from_int(4)), FULL_LOCK / 2);
    assert_eq!(full_lock_at(fixed::from_int(20)), FULL_LOCK);
    assert_eq!(full_lock_at(-ONE), FULL_LOCK / 8);
}

#[test]
fn the_wheel_further_over_means_slower() {
    assert_eq!(corner_speed(0), CRUISE_MAX);
    assert_eq!(corner_speed(-7_000), CRUISE_MAX);
    assert_eq!(corner_speed(8_000), CRUISE_MAX / 2);
    assert_eq!(corner_speed(-20_000), fixed::ratio(3, 2));
}

#[test]
fn the_approach_ramps_down_to_a_creep() {
    assert_eq!(approach_speed(0), CREEP);
    assert_eq!(approach_speed(CRAWL), CREEP);
    assert_eq!(approach_speed(APPROACH), CRUISE_MAX);
    assert_eq!(approach_speed(fixed::from_int(30)), CRUISE_MAX);
    let mid = approach_speed((CRAWL + APPROACH) / 2);
    assert!(CREEP < mid && mid < CRUISE_MAX);
}

#[test]
fn pace_brakes_coasts_or_goes() {
    let want = fixed::from_int(3);
    assert_eq!(pace(fixed::from_int(5), fixed::from_int(5), want), -ONE, "too fast and rolling: brake");
    assert_eq!(pace(0, fixed::from_int(5), want), 0, "too fast but sliding, not rolling: no reverse");
    assert_eq!(pace(fixed::from_int(1), fixed::from_int(1), want), ONE, "too slow: go");
    assert_eq!(pace(want, want, want), 0, "holding speed: coast");
    assert_eq!(pace(ROLLING, fixed::from_int(9), want), 0, "at the rolling threshold it will not reverse");
}

#[test]
fn distance_is_octagonal() {
    // Three by four cells: four plus three eighths of three.
    assert_eq!(dist(0, 0, fixed::from_int(3), fixed::from_int(4)), fixed::from_int(4) + fixed::ratio(9, 8));
    assert_eq!(dist(ONE, ONE, ONE, ONE), 0);
}

#[test]
fn the_bearing_error_is_positive_to_the_right() {
    let c = at(0, 0, 0);
    assert_eq!(bearing_error(&c, fixed::from_int(5), 0), 0, "dead ahead");
    let south = bearing_error(&c, 0, fixed::from_int(5));
    assert!((south - QUARTER as i32).abs() < 200, "a quarter turn to the right, not {south}");
    let north = bearing_error(&c, 0, -fixed::from_int(5));
    assert!((north + QUARTER as i32).abs() < 200, "a quarter turn to the left, not {north}");
}

#[test]
fn forward_speed_is_signed() {
    let mut c = at(0, 0, 0);
    c.vx = fixed::from_int(2);
    assert_eq!(forward(&c), fixed::from_int(2));
    c.vx = -fixed::from_int(2);
    assert_eq!(forward(&c), -fixed::from_int(2), "rolling backwards");
}

#[test]
fn a_new_cabbie_has_no_plan() {
    let c = Cabbie::new();
    assert!(c.route().is_empty());
    assert_eq!(c.progress(), 0);
    let d = Cabbie::default();
    assert!(d.route().is_empty() && d.progress() == 0);
}

#[test]
fn the_wheel_latches_when_turned_right_round() {
    let mut c = Cabbie::new();
    assert_eq!(c.steer_for(30_000, fixed::from_int(5)), ONE, "latched right");
    assert_eq!(c.steer_for(-30_000, fixed::from_int(5)), ONE, "the latch holds through a sign flip");
    let easing = c.steer_for(12_000, fixed::from_int(5));
    assert!(0 < easing && easing < ONE, "easing off as the nose comes round: {easing}");
    let free = c.steer_for(-1_000, fixed::from_int(20));
    assert_eq!(free, fixed::ratio(-1_000, FULL_LOCK), "released, and proportional again");
    assert_eq!(c.committed, 0);
}

#[test]
fn holding_the_lane_pulls_towards_the_line() {
    let mut c = Cabbie::new();
    assert_eq!(c.hold_lane(0, 0, 0), 0, "on the line and along it");
    assert!(c.hold_lane(0, ONE, fixed::from_int(2)) < 0, "right of the line: steer left");
    assert!(c.hold_lane(0, -ONE, fixed::from_int(2)) > 0, "left of the line: steer right");
    let slow = c.hold_lane(0, ONE, 0);
    let fast = c.hold_lane(0, ONE, fixed::from_int(8));
    assert!(slow < fast && fast < 0, "the pull falls off with speed");
    assert_eq!(c.hold_lane(0, fixed::from_int(100), 0), -fixed::ratio(2, 5), "and is capped");
}

#[test]
fn a_route_is_planned_and_followed() {
    let map = roads();
    let mut c = Cabbie::new();
    let taxi = at(cell(2, 5).0, cell(2, 5).1, 0);
    let goal = cell(20, 30);
    c.replan_if_needed(&map, &taxi, goal);
    let r = c.route().to_vec();
    assert_eq!(r.first(), Some(&(2, 5)));
    assert_eq!(r.last(), Some(&(20, 30)));
    assert_eq!(r.len(), 18 + 25 + 1, "the shortest way round");
    // Nothing has changed: no new plan.
    c.at = 3;
    let moved_on = at(cell(5, 5).0, cell(5, 5).1, 0);
    c.replan_if_needed(&map, &moved_on, goal);
    assert_eq!(c.progress(), 3);
    // A new fare is a new plan.
    c.replan_if_needed(&map, &moved_on, cell(2, 6));
    assert_eq!(c.progress(), 0);
    assert_eq!(c.route().last(), Some(&(2, 6)));
}

#[test]
fn the_cursor_moves_past_what_the_car_has_passed() {
    let map = roads();
    let mut c = Cabbie::new();
    c.replan_if_needed(&map, &at(cell(2, 5).0, cell(2, 5).1, 0), cell(15, 5));
    let car = at(fixed::from_int(7) + fixed::ratio(3, 4), cell(7, 5).1, 0);
    c.advance(&car);
    assert_eq!(c.progress(), 6, "past the middle of cell 7, the cursor is on cell 8");
    let behind = at(cell(3, 5).0, cell(3, 5).1, 0);
    c.advance(&behind);
    assert_eq!(c.progress(), 6, "and never moves back");
    assert_eq!(c.heading_at(6), (6, 0), "the road runs east");
}

#[test]
fn a_wedged_car_backs_out() {
    let mut c = Cabbie::new();
    let stuck = at(0, 0, 0);
    for _ in 0..15 {
        c.unstick(&stuck, 30);
    }
    assert_eq!(c.backing, 0);
    c.unstick(&stuck, 30);
    assert_eq!(c.backing, 30, "half a second stalled starts a second of reversing");
    assert_eq!(c.wriggle, -1, "with the wheel the other way");
    for _ in 0..30 {
        c.unstick(&stuck, 30);
    }
    assert_eq!(c.backing, 0);
    assert!(c.route().is_empty(), "and the plan is thrown away");
}

#[test]
fn the_track_is_the_lane_for_the_way_the_car_is_going() {
    let map = roads();
    let mut c = Cabbie::new();
    c.replan_if_needed(&map, &at(cell(2, 5).0, cell(2, 5).1, 0), cell(15, 5));
    let (row, col) = east_west();
    let car = at(cell(4, 5).0, fixed::from_int(6) + HALF, 0);
    let t = c.track(&row, &col, &car).expect("a lane along the street");
    assert_eq!(t.heading, 0);
    // Eastbound on a two-cell street, the lane is half a cell past the
    // crown at y = 6: the car at 6.5 is on it.
    assert_eq!(t.right_of_lane, 0);
    // At a junction there is no single lane.
    assert!(c.track(&row, &row, &car).is_none());
}

#[test]
fn driving_with_no_fare_sits_still() {
    let map = roads();
    let (row, col) = east_west();
    let mut c = Cabbie::new();
    c.replan_if_needed(&map, &at(cell(2, 5).0, cell(2, 5).1, 0), cell(15, 5));
    let ctl = c.drive(&map, &row, &col, &at(cell(2, 5).0, cell(2, 5).1, 0), None, 30);
    assert_eq!((ctl.throttle, ctl.steer, ctl.handbrake), (-ONE / 4, 0, false));
    assert!(c.route().is_empty());
}

#[test]
fn in_the_circle_it_stops() {
    let map = roads();
    let (row, col) = east_west();
    let mut c = Cabbie::new();
    let mut car = at(cell(10, 5).0, cell(10, 5).1, 0);
    car.vx = fixed::from_int(1);
    let ctl = c.drive(&map, &row, &col, &car, Some(cell(10, 5)), 30);
    assert_eq!(ctl.steer, 0);
    assert_eq!(ctl.throttle, -ONE, "rolling: brake");
    assert!(!ctl.handbrake);
}

#[test]
fn far_from_the_marker_it_drives_at_it() {
    let map = roads();
    let (row, col) = east_west();
    let mut c = Cabbie::new();
    let car = at(cell(2, 6).0, cell(2, 6).1, 0);
    let ctl = c.drive(&map, &row, &col, &car, Some(cell(15, 6)), 30);
    assert_eq!(ctl.throttle, ONE, "at rest and nowhere near: go");
    assert!(ctl.steer.abs() <= ONE);
    assert_eq!(c.route().last(), Some(&(15, 6)));
}
