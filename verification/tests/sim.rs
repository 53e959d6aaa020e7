use lib::fixed::{self, HALF, ONE};
use lib::sim::{atan2_approx, crossing, follow, pace, Coin, Event, Fare, Prop, Sim, CLEAR, COIN_BOOST, CRUISE_THROTTLE, KERB_REACH, LOOK, REACH};
use lib::drive::Controls;
use lib::drive::{Car, CarKind, HZ};
use lib::sprite::{Billboard, Stamp};
use lib::camera::Camera;
use lib::atmos::Atmos;
use lib::frame::Frame;
use lib::palette;
use lib::raycast::projection;
use lib::trig::HALF as HALF_TURN;
use lib::trig::{self, Ang, QUARTER};

/// Degrees to a turn-wrapping angle.
fn from_degrees(d: f64) -> Ang {
    ((d / 360.0 * 65536.0).round() as i64 & 0xffff) as Ang
}

fn fare() -> Fare {
    Fare {
        from: (fixed::from_int(10), fixed::from_int(20)),
        to: (fixed::from_int(50), fixed::from_int(60)),
        from_stop: (fixed::from_int(11), fixed::from_int(20)),
        to_stop: (fixed::from_int(51), fixed::from_int(60)),
        aboard: false,
        coins: vec![Coin { x: 0, y: 0, taken: false }],
        value: 7,
    }
}

#[test]
fn atan2_agrees_with_the_sine_table() {
    for deg in (0..360).step_by(7) {
        let a = from_degrees(deg as f64);
        let got = atan2_approx(trig::sin(a), trig::cos(a));
        let err = (got.wrapping_sub(a)) as i16 as i32;
        assert!(err.abs() < 700, "{deg} degrees came back {err} units out");
    }
}

#[test]
fn the_compass_is_exact_on_the_axes_and_the_diagonal() {
    let t = fixed::from_int(3);
    assert_eq!(atan2_approx(0, t), 0);
    assert_eq!(atan2_approx(t, 0), QUARTER);
    assert_eq!(atan2_approx(0, -t), 2 * QUARTER);
    assert_eq!(atan2_approx(-t, 0), 3 * QUARTER);
    assert_eq!(atan2_approx(t, t), QUARTER / 2);
    assert_eq!(atan2_approx(0, 0), 0);
}

#[test]
fn the_compass_mirrors_in_the_x_axis() {
    let (y, x) = (fixed::from_int(2), fixed::from_int(5));
    let up = atan2_approx(y, x);
    let down = atan2_approx(-y, x);
    assert_eq!(down, 0u16.wrapping_sub(up));
    assert!(up > 0 && up < QUARTER / 2, "a shallow bearing read as {up}");
}

#[test]
fn the_marker_and_the_stop_follow_the_passenger() {
    let mut f = fare();
    assert_eq!(f.marker(), f.from);
    assert_eq!(f.stop(), f.from_stop);
    f.aboard = true;
    assert_eq!(f.marker(), f.to);
    assert_eq!(f.stop(), f.to_stop);
}

#[test]
fn a_car_at_either_the_person_or_the_kerb_is_at_the_stop() {
    let f = fare();
    // Beside the person.
    assert!(f.at_stop(fixed::from_int(10) + HALF, fixed::from_int(20)));
    // Beside the kerb stop, out of reach of the person.
    assert!(f.at_stop(fixed::from_int(12), fixed::from_int(20) + HALF));
    // Just out of reach of both.
    assert!(!f.at_stop(fixed::from_int(11) + KERB_REACH, fixed::from_int(20)));
    assert!(!f.at_stop(fixed::from_int(10), fixed::from_int(20) + REACH));
    // Somewhere else entirely.
    assert!(!f.at_stop(fixed::from_int(30), fixed::from_int(40)));
    assert_eq!(REACH, fixed::ratio(5, 4));
    assert_eq!(KERB_REACH, fixed::ratio(3, 4) + HALF);
    assert!(ONE < REACH);
}

#[test]
fn events_compare_by_kind() {
    assert_eq!(Event::Coin, Event::Coin);
    assert_ne!(Event::Rammed, Event::Crunched);
}

#[test]
fn following_speed_rises_with_the_gap() {
    assert_eq!(follow(0), 0, "no gap, no speed");
    assert_eq!(follow(-fixed::ONE), 0);
    assert_eq!(follow(LOOK), 209712, "eight times the cruising throttle at the look-ahead");
    assert_eq!(follow(LOOK * 3), 209712, "and no more beyond it");
    let half = follow(LOOK / 2);
    assert_eq!(half, 104856);
    let mut last = 0;
    for g in (0..400_000).step_by(7919) {
        let v = follow(g);
        assert!(v >= last, "a longer gap at {g} is slower");
        last = v;
    }
}

#[test]
fn crossing_headings_are_near_perpendicular() {
    assert!(crossing(0, QUARTER));
    assert!(crossing(QUARTER, 0), "and mutual");
    assert!(crossing(0, QUARTER + HALF_TURN));
    assert!(!crossing(0, 0), "the same road");
    assert!(!crossing(0, HALF_TURN), "oncoming");
    assert!(crossing(1000, QUARTER + 4000));
    assert!(!crossing(0, QUARTER + 9000), "over an eighth off perpendicular");
}

#[test]
fn traffic_pace_has_a_dead_band_and_never_reverses() {
    let want = fixed::from_int(3);
    assert_eq!(pace(fixed::from_int(5), want), -fixed::ONE, "too fast: brake");
    assert_eq!(pace(fixed::from_int(1), want), CRUISE_THROTTLE, "too slow: go");
    assert_eq!(pace(want, want), 0, "holding: coast");
    assert_eq!(pace(0, 0), 0, "stopped and wanting to stop: nothing");
    assert_eq!(pace(fixed::ratio(1, 5), 0), 0, "slower than rolling: never reverse");
}

/// A shift with one lamp post, the cab parked a block away and a fare on.
fn shift() -> Sim {
    let post = Billboard::upright(Stamp::LampPost, fixed::from_int(12), fixed::from_int(12), ONE / 4, fixed::from_int(2), 3);
    Sim {
        taxi: Car::new(CarKind::Taxi, fixed::from_int(30), fixed::from_int(30), 0, 7),
        traffic: Vec::new(),
        props: vec![Prop { board: post, vx: 0, vy: 0, standing: true }],
        peds: Vec::new(),
        fare: Some(fare()),
        money: 0,
        spent: 0,
        combo: 0,
        ticks_left: 60 * HZ,
        tick: 0,
        over: false,
        braking: false,
        traffic_ctl: Vec::new(),
        traffic_cruise: Vec::new(),
        traffic_bias: Vec::new(),
        traffic_backing: Vec::new(),
        rng: lib::rng::Rng::new(7),
        boards: Vec::new(),
        order: Vec::new(),
    }
}

#[test]
fn a_shift_reads_its_clock_in_whole_seconds() {
    let mut sim = shift();
    assert_eq!(sim.seconds_left(), 60);
    sim.ticks_left = 59;
    assert_eq!(sim.seconds_left(), 0);
    sim.ticks_left = -1;
    assert_eq!(sim.seconds_left(), -1, "the first tick of overtime reads minus one");
    sim.ticks_left = -60;
    assert_eq!(sim.seconds_left(), -1);
    sim.ticks_left = -61;
    assert_eq!(sim.seconds_left(), -2);
}

#[test]
fn driving_into_a_lamp_post_flattens_it_and_does_not_slow_the_car() {
    let mut sim = shift();
    let mut ev = Vec::new();
    let p = sim.props[0].board;
    sim.taxi.x = p.x;
    sim.taxi.y = p.y;
    sim.taxi.vx = fixed::from_int(4);
    let before = sim.taxi.speed();
    sim.step_props(HZ, &mut ev);
    assert!(ev.contains(&Event::Flattened), "the post survived");
    assert!(!sim.props[0].standing);
    assert_eq!(sim.taxi.speed(), before, "the post slowed the car down");
    assert!(sim.combo >= 1);
    assert_eq!(sim.money, 1, "the first thing hit is worth the run of one");
    assert_eq!(sim.props[0].vx, fixed::mul(fixed::from_int(4), fixed::ratio(3, 5)), "it takes three fifths of the cab's speed");
}

#[test]
fn a_flattened_prop_stays_flattened() {
    let mut sim = shift();
    let mut ev = Vec::new();
    sim.props[0].standing = false;
    sim.taxi.x = sim.props[0].board.x;
    sim.taxi.y = sim.props[0].board.y;
    sim.taxi.vx = fixed::from_int(5);
    for _ in 0..100 {
        sim.step_props(HZ, &mut ev);
        sim.tick += 1;
    }
    assert!(!sim.props[0].standing);
    assert_eq!(sim.props[0].board.lean, 8, "it should have come to rest flat");
    assert!(ev.is_empty(), "nothing was flattened twice");
}

#[test]
fn a_slow_car_does_not_flatten_anything() {
    let mut sim = shift();
    let mut ev = Vec::new();
    sim.taxi.x = sim.props[0].board.x;
    sim.taxi.y = sim.props[0].board.y;
    sim.taxi.vx = fixed::ratio(1, 4);
    sim.step_props(HZ, &mut ev);
    assert!(sim.props[0].standing, "it fell over at walking pace");
}

#[test]
fn the_compass_points_the_right_way() {
    let mut sim = shift();
    sim.taxi.x = fixed::from_int(20);
    sim.taxi.y = fixed::from_int(20);
    sim.taxi.yaw = 0;
    let f = sim.fare.as_mut().unwrap();
    f.aboard = false;
    f.from = (fixed::from_int(30), fixed::from_int(20));
    let b = sim.target_bearing().unwrap();
    assert!(b.abs() < 2000, "dead ahead read as {b}");
    let f = sim.fare.as_mut().unwrap();
    f.from = (fixed::from_int(20), fixed::from_int(30));
    let b = sim.target_bearing().unwrap();
    assert!((b - QUARTER as i32).abs() < 2500, "90 degrees right read as {b}");
    assert_eq!(sim.target(), Some((fixed::from_int(20), fixed::from_int(30))));
    assert_eq!(sim.drive_target(), Some((fixed::from_int(11), fixed::from_int(20))));
    sim.fare = None;
    assert_eq!(sim.target_bearing(), None);
}

/// A camera two cells behind the cab, looking along it.
fn chase(sim: &Sim) -> Camera {
    let mut cam = Camera::default();
    cam.yaw = sim.taxi.yaw;
    cam.x = sim.taxi.x - fixed::from_int(2);
    cam.y = sim.taxi.y;
    cam.z = fixed::ratio(4, 5);
    cam
}

fn lamps(sim: &mut Sim, cam: &Camera) -> usize {
    let atmos = Atmos::default();
    let mut f = Frame::new(160, 60);
    let depth = vec![lib::fixed::FX_MAX; 160];
    let p = projection(|_x: i32, _y: i32| 0, cam, &f);
    sim.draw(&mut f, &depth, cam, &atmos, &p);
    f.cels.iter().filter(|c| palette::hue_of(c.color) == palette::H_RED && palette::luma_of(c.color) >= 6).count()
}

#[test]
fn the_cab_is_drawn_so_there_is_something_to_follow() {
    let mut sim = shift();
    let cam = chase(&sim);
    lamps(&mut sim, &cam);
    assert!(sim.boards.iter().any(|b| b.stamp == Stamp::Taxi), "the cab was not among the billboards");
    assert!(sim.boards.iter().any(|b| b.stamp == Stamp::Pickup), "the fare's marker was not drawn");
}

#[test]
fn the_cab_lights_up_when_it_brakes() {
    let mut sim = shift();
    let cam = chase(&sim);
    sim.braking = false;
    let rolling = lamps(&mut sim, &cam);
    sim.braking = true;
    let braking = lamps(&mut sim, &cam);
    assert!(braking > rolling, "the brake lights did not come on: {braking} lit cells against {rolling}");
}

#[test]
fn only_what_is_near_the_camera_is_collected() {
    let mut sim = shift();
    let cam = chase(&sim);
    sim.props[0].board.x = fixed::from_int(5000);
    lamps(&mut sim, &cam);
    assert!(sim.boards.iter().all(|b| b.stamp != Stamp::LampPost), "a post five thousand cells away was drawn");
    let atmos = Atmos::default();
    let mut f = Frame::new(40, 20);
    let p = projection(|_x: i32, _y: i32| 0, &cam, &f);
    sim.props[0].board.x = fixed::from_int(31);
    sim.draw(&mut f, &vec![lib::fixed::FX_MAX; 40], &cam, &atmos, &p);
    assert!(sim.boards.iter().any(|b| b.stamp == Stamp::LampPost));
    assert_eq!(sim.order.len(), sim.boards.len());
}

/// A shift with one car of the traffic at (10, 10) heading east at its
/// cruise, and the cab parked far away.
fn street() -> Sim {
    let mut sim = shift();
    sim.taxi.x = fixed::from_int(100);
    sim.taxi.y = fixed::from_int(100);
    sim.traffic = vec![Car::new(CarKind::Traffic, fixed::from_int(10), fixed::from_int(10), 0, 4)];
    sim.traffic_ctl = vec![Controls::default()];
    sim.traffic_cruise = vec![fixed::from_int(3)];
    sim.traffic_bias = vec![0];
    sim.traffic_backing = vec![0];
    sim
}

#[test]
fn a_car_with_a_clear_road_keeps_its_cruise() {
    let sim = street();
    assert_eq!(sim.give_way(0), fixed::from_int(3));
    assert!(!sim.crowded(0, CLEAR));
}

#[test]
fn traffic_gives_way_to_the_cab_crossing_from_the_right() {
    let mut sim = street();
    // Two cells up the road and two to the right, heading north across
    // the car's nose, and moving.
    sim.taxi.x = fixed::from_int(12);
    sim.taxi.y = fixed::from_int(12);
    sim.taxi.yaw = 3 * QUARTER;
    sim.taxi.vy = -fixed::from_int(2);
    assert_eq!(sim.give_way(0), 0, "it did not stop for the cab");
    // Parked there, the cab is no reason to wait.
    sim.taxi.vy = 0;
    assert_eq!(sim.give_way(0), fixed::from_int(3));
}

#[test]
fn a_car_close_behind_another_slows_and_is_crowded() {
    let mut sim = street();
    sim.traffic.push(Car::new(CarKind::Traffic, fixed::from_int(12), fixed::from_int(10), 0, 5));
    sim.traffic_ctl.push(Controls::default());
    sim.traffic_cruise.push(fixed::from_int(3));
    sim.traffic_bias.push(0);
    sim.traffic_backing.push(0);
    let gap = fixed::from_int(2) - 2 * 52428;
    assert_eq!(sim.give_way(0), follow(gap), "it does not follow the car in front");
    assert!(sim.give_way(0) < fixed::from_int(3));
    assert!(sim.crowded(0, CLEAR));
    assert!(!sim.crowded(1, CLEAR), "the car in front has nothing in front of it");
}

/// A walking network of one street, row 5, from column 2 to column 17.
fn one_street() -> lib::walk::WalkMap {
    lib::walk::WalkMap::build(20, |x: i32, y: i32| {
        if y == 5 && (2..18).contains(&x) { lib::walk::Foot::Path } else { lib::walk::Foot::Blocked }
    })
}

#[test]
fn people_keep_to_the_walking_network() {
    let walk = one_street();
    let mut sim = shift();
    sim.peds = vec![lib::sim::Ped { x: fixed::from_int(3) + HALF, y: fixed::from_int(5) + HALF, dir: 0, goal: (16, 5), phase: 0, hue: 1 }];
    for _ in 0..2000 {
        sim.step_peds(&walk, HZ);
        sim.tick += 1;
        let (x, y) = (fixed::floor(sim.peds[0].x), fixed::floor(sim.peds[0].y));
        assert!(walk.passable(x, y), "somebody walked off the network to ({x}, {y})");
    }
    assert!(fixed::floor(sim.peds[0].x) > 3, "nobody went anywhere");
}

#[test]
fn a_new_errand_is_on_the_network() {
    let walk = one_street();
    let mut sim = shift();
    for _ in 0..50 {
        let g = sim.walk_goal(&walk, (9, 5));
        assert!(walk.passable(g.0, g.1) || g == (9, 5));
        assert!((g.0 - 9).abs() <= 18 && (g.1 - 5).abs() <= 18);
    }
}

/// An east-west street four cells wide, rows 10 to 13, crossing nothing.
fn avenue(_x: i32, y: i32) -> (lib::road::Strip, lib::road::Strip) {
    let none = lib::road::Strip { street: false, width: 0, across: 0 };
    if (10..14).contains(&y) {
        (lib::road::Strip { street: true, width: 4, across: (y - 10) as u8 }, none)
    } else {
        (none, none)
    }
}

#[test]
fn a_car_on_the_wrong_side_steers_for_its_own() {
    let mut sim = street();
    // Heading east in the westbound half: it steers right, towards its own.
    sim.traffic[0] = Car::new(CarKind::Traffic, fixed::from_int(20) + HALF, fixed::from_int(11) + HALF, 0, 4);
    let c = sim.traffic_controls(&avenue, 0, HZ);
    assert!(c.steer > 0, "a car on the wrong side did not steer for its own: {}", c.steer);
    // Already in the middle of its own lane, pointing along it: no wheel.
    sim.traffic[0] = Car::new(CarKind::Traffic, fixed::from_int(20) + HALF, fixed::from_int(12) + HALF, 0, 4);
    let c = sim.traffic_controls(&avenue, 0, HZ);
    assert_eq!(c.steer, 0);
    assert!(c.throttle > 0, "a car at rest on a clear road did not pull away");
}

#[test]
fn a_shunted_car_backs_away_until_it_is_clear() {
    let mut sim = street();
    sim.traffic_backing[0] = 5;
    sim.taxi.x = fixed::from_int(11);
    sim.taxi.y = fixed::from_int(10);
    let c = sim.traffic_controls(&avenue, 0, HZ);
    assert_eq!((c.throttle, c.steer), (-ONE, HALF), "full reverse, half a lock");
    assert_eq!(sim.traffic_backing[0], 4);
    sim.taxi.x = fixed::from_int(100);
    let c = sim.traffic_controls(&avenue, 0, HZ);
    assert!(c.throttle >= 0, "clear road, and it is still reversing");
    assert_eq!(sim.traffic_backing[0], 0);
}

fn avenue_kind(_x: i32, y: i32) -> lib::raycast::Kind {
    if (10..14).contains(&y) {
        lib::raycast::Kind::Road
    } else {
        lib::raycast::Kind::Sidewalk
    }
}

#[test]
fn a_cab_parks_at_the_nearest_kerb_in_its_own_lane() {
    let mut sim = street();
    sim.taxi.vx = 5;
    sim.taxi.spin = 7;
    sim.park_near(&avenue_kind, &|_x: i32, _y: i32| true, &|_x: i32, _y: i32| false, &avenue, 20, 5);
    // Ring five reaches the avenue; its first row that is road is y = 10,
    // and the first cell along that row is x = 15.
    assert_eq!(sim.taxi.x >> 16, 15);
    assert!((10..12).contains(&(sim.taxi.y >> 16)), "parked off its half of the road: {}", sim.taxi.y >> 16);
    assert_eq!(sim.taxi.yaw, HALF_TURN, "the north half of an avenue runs west");
    assert_eq!((sim.taxi.vx, sim.taxi.vy, sim.taxi.spin), (0, 0, 0));
}

#[test]
fn a_cab_with_no_kerb_in_reach_stays_put() {
    let mut sim = street();
    let before = (sim.taxi.x, sim.taxi.y, sim.taxi.yaw, sim.taxi.vx);
    sim.park_near(&avenue_kind, &|_x: i32, _y: i32| true, &|_x: i32, _y: i32| false, &avenue, 20, 60);
    assert_eq!((sim.taxi.x, sim.taxi.y, sim.taxi.yaw, sim.taxi.vx), before);
}

