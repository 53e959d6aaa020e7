use lib::drive::{CarKind, Controls, HZ};
use lib::fixed::{self, ONE};
use lib::raycast::Kind;
use lib::road::Strip;
use lib::sim::{Event, Sim, COIN_BOOST, FARE_MIN, HAIL_NEAR, PEDS, RECYCLE, START_TIME, TRAFFIC};
use lib::sprite::Stamp;
use lib::walk::{Foot, WalkMap};

/// A grid city: four-lane streets every thirteen cells, a pavement either
/// side, and buildings in the blocks.
const N: i32 = 160;

fn on_map(x: i32, y: i32) -> bool {
    (0..N).contains(&x) && (0..N).contains(&y)
}

fn kind(x: i32, y: i32) -> Kind {
    if !on_map(x, y) {
        Kind::Building
    } else if x % 13 < 4 || y % 13 < 4 {
        Kind::Road
    } else if x % 13 == 4 || x % 13 == 12 || y % 13 == 4 || y % 13 == 12 {
        Kind::Sidewalk
    } else {
        Kind::Building
    }
}

fn plan(x: i32, y: i32) -> (Strip, Strip) {
    let none = Strip { street: false, width: 0, across: 0 };
    let row = if on_map(x, y) && y % 13 < 4 { Strip { street: true, width: 4, across: (y % 13) as u8 } } else { none };
    let col = if on_map(x, y) && x % 13 < 4 { Strip { street: true, width: 4, across: (x % 13) as u8 } } else { none };
    (row, col)
}

fn junction(x: i32, y: i32) -> bool {
    on_map(x, y) && x % 13 < 4 && y % 13 < 4
}

fn drivable(x: i32, y: i32) -> bool {
    kind(x, y) == Kind::Road
}

fn open(x: i32, y: i32) -> bool {
    kind(x, y) != Kind::Building
}

fn walk() -> WalkMap {
    WalkMap::build(N as usize, |x: i32, y: i32| if kind(x, y) == Kind::Sidewalk { Foot::Path } else { Foot::Blocked })
}

fn drive() -> WalkMap {
    WalkMap::build(N as usize, |x: i32, y: i32| if kind(x, y) == Kind::Road { Foot::Path } else { Foot::Blocked })
}

fn ground(_x: i32, _y: i32) -> i32 {
    0
}

fn new_shift(seed: u32) -> (WalkMap, WalkMap, Sim) {
    let (w, d) = (walk(), drive());
    let sim = Sim::new(&kind, &w, &d, &open, &drivable, &junction, &plan, &ground, N, seed);
    (w, d, sim)
}

fn tick(sim: &mut Sim, w: &WalkMap, d: &WalkMap, c: &Controls, ev: &mut Vec<Event>) {
    sim.step(&kind, w, d, &open, &drivable, &junction, &plan, N, c, HZ, ev);
}

fn cell(v: i32) -> i32 {
    fixed::floor(v)
}

#[test]
fn a_shift_starts_with_furniture_traffic_people_and_a_fare() {
    let (_w, _d, sim) = new_shift(404);
    assert!(sim.props.len() > 100, "only {} props", sim.props.len());
    assert_eq!(sim.traffic.len(), TRAFFIC);
    assert_eq!(sim.peds.len(), PEDS);
    assert!(sim.fare.is_some(), "nobody hailed the cab");
    assert_eq!(sim.seconds_left(), START_TIME);
    assert_eq!(sim.taxi.kind, CarKind::Taxi);
}

#[test]
fn the_taxi_starts_on_a_road() {
    let (_w, _d, sim) = new_shift(404);
    assert!(open(cell(sim.taxi.x), cell(sim.taxi.y)));
    assert_eq!(kind(cell(sim.taxi.x), cell(sim.taxi.y)), Kind::Road);
}

#[test]
fn props_only_stand_on_sidewalks() {
    let (_w, _d, sim) = new_shift(404);
    for p in &sim.props {
        let k = kind(cell(p.board.x), cell(p.board.y));
        assert_eq!(k, Kind::Sidewalk, "a {:?} is standing in the {:?}", p.board.stamp, k);
    }
}

#[test]
fn nothing_planted_overhangs_the_road() {
    let (_w, _d, sim) = new_shift(404);
    for p in &sim.props {
        let b = &p.board;
        if !b.stamp.planted() {
            continue;
        }
        let half = b.w / 2;
        for (dx, dy) in [(-half, 0), (half, 0), (0, -half), (0, half)] {
            assert_ne!(kind(cell(b.x + dx), cell(b.y + dy)), Kind::Road, "a tree reaches over the carriageway");
        }
    }
}

#[test]
fn street_lighting_stands_nearer_the_road_than_the_trees_do() {
    let (_w, _d, sim) = new_shift(404);
    let mean_from_kerb = |want: fn(Stamp) -> bool| -> f32 {
        let (mut total, mut n) = (0.0f32, 0.0f32);
        for p in &sim.props {
            if !want(p.board.stamp) {
                continue;
            }
            let (gx, gy) = (cell(p.board.x), cell(p.board.y));
            let (fx, fy) = (p.board.x - gx * ONE, p.board.y - gy * ONE);
            let mut d = ONE;
            for (dx, dy, edge) in [(-1, 0, fx), (1, 0, ONE - fx), (0, -1, fy), (0, 1, ONE - fy)] {
                if kind(gx + dx, gy + dy) == Kind::Road {
                    d = d.min(edge);
                }
            }
            total += d as f32 / ONE as f32;
            n += 1.0;
        }
        total / n.max(1.0)
    };
    let lamps = mean_from_kerb(|s| s == Stamp::LampPost);
    let trees = mean_from_kerb(|s| s.planted());
    assert!(lamps < trees, "lighting sits {lamps:.2} cells from the kerb and planting {trees:.2}");
}

#[test]
fn the_clock_runs_down_and_the_shift_ends() {
    let (w, d, mut sim) = new_shift(404);
    let mut ev = Vec::new();
    sim.ticks_left = 3;
    let mut called = 0;
    for _ in 0..HZ * 3 {
        tick(&mut sim, &w, &d, &Controls::default(), &mut ev);
        called += ev.iter().filter(|e| matches!(e, Event::TimeUp)).count();
    }
    assert_eq!(called, 1, "the clock called time {called} times");
    assert!(!sim.over, "running out of time froze the shift");
    assert!(sim.seconds_left() < 0, "the clock stopped at zero");
    assert!(sim.money < 0, "the meter stopped at nothing");
}

#[test]
fn a_long_shift_never_panics_and_never_leaves_the_map() {
    let (w, d, mut sim) = new_shift(88);
    let mut ev = Vec::new();
    sim.ticks_left = i32::MAX / 2;
    let mut steer = ONE;
    for i in 0..12_000 {
        if i % 53 == 0 {
            steer = -steer;
        }
        tick(&mut sim, &w, &d, &Controls { throttle: ONE, steer, handbrake: i % 300 < 25 }, &mut ev);
        assert!(open(cell(sim.taxi.x), cell(sim.taxi.y)));
    }
    assert!(!sim.over);
}

#[test]
fn traffic_stays_near_the_player() {
    let (w, d, mut sim) = new_shift(9);
    let mut ev = Vec::new();
    for _ in 0..3000 {
        tick(&mut sim, &w, &d, &Controls { throttle: ONE, ..Default::default() }, &mut ev);
    }
    let stragglers = sim
        .traffic
        .iter()
        .filter(|c| (c.x - sim.taxi.x).abs() + (c.y - sim.taxi.y).abs() > fixed::from_int(RECYCLE + 16))
        .count();
    assert_eq!(stragglers, 0, "{stragglers} cars were left behind");
}

#[test]
fn the_next_fare_is_at_least_a_block_away() {
    for seed in [1u32, 7, 99, 4242] {
        let (w, d, mut sim) = new_shift(seed);
        let (mut near_cab, mut short_fare) = (0, 0);
        for _ in 0..60 {
            sim.hail(&kind, &w, &d, &drivable, &junction, &plan, N);
            let fare = sim.fare.as_ref().expect("no fare");
            let cab = (cell(sim.taxi.x), cell(sim.taxi.y));
            let at = (cell(fare.from.0), cell(fare.from.1));
            let to = (cell(fare.to.0), cell(fare.to.1));
            if (at.0 - cab.0).abs() + (at.1 - cab.1).abs() < HAIL_NEAR {
                near_cab += 1;
            }
            if (to.0 - at.0).abs() + (to.1 - at.1).abs() < FARE_MIN {
                short_fare += 1;
            }
        }
        assert_eq!(near_cab, 0, "seed {seed}: {near_cab} fares within a block of the cab");
        assert!(short_fare < 4, "seed {seed}: {short_fare} of 60 fares were shorter than a block");
    }
}

#[test]
fn the_coin_trail_follows_the_road() {
    for seed in [1u32, 7, 99] {
        let (w, d, mut sim) = new_shift(seed);
        for _ in 0..12 {
            sim.hail(&kind, &w, &d, &drivable, &junction, &plan, N);
            let fare = sim.fare.as_ref().expect("no fare");
            assert!(!fare.coins.is_empty(), "seed {seed}: a fare with no coins");
            for c in &fare.coins {
                assert!(drivable(cell(c.x), cell(c.y)), "seed {seed}: a coin off the road");
            }
        }
    }
}

#[test]
fn a_fare_is_worth_three_a_cell_and_ten_for_the_flag() {
    let (w, d, mut sim) = new_shift(5);
    sim.hail(&kind, &w, &d, &drivable, &junction, &plan, N);
    let f = sim.fare.as_ref().unwrap();
    let (a, b) = ((cell(f.from.0), cell(f.from.1)), (cell(f.to.0), cell(f.to.1)));
    assert_eq!(f.value as i32, 3 * ((a.0 - b.0).abs() + (a.1 - b.1).abs()) + 10);
    assert!(!f.aboard);
}

#[test]
fn stopping_at_the_marker_picks_the_fare_up_and_adds_time() {
    let (w, d, mut sim) = new_shift(404);
    let mut ev = Vec::new();
    let from = sim.fare.as_ref().unwrap().from;
    sim.taxi.x = from.0;
    sim.taxi.y = from.1;
    sim.taxi.vx = 0;
    sim.taxi.vy = 0;
    let clock = sim.ticks_left;
    sim.step_fare(&kind, &w, &d, &drivable, &junction, &plan, N, &mut ev);
    assert!(ev.contains(&Event::PickedUp), "the passenger did not get in");
    assert!(sim.fare.as_ref().unwrap().aboard);
    assert!(sim.ticks_left > clock, "picking up did not buy any time");
}

#[test]
fn arriving_too_fast_does_not_pick_anyone_up() {
    let (w, d, mut sim) = new_shift(404);
    let mut ev = Vec::new();
    let from = sim.fare.as_ref().unwrap().from;
    sim.taxi.x = from.0;
    sim.taxi.y = from.1;
    sim.taxi.vx = fixed::from_int(6);
    sim.step_fare(&kind, &w, &d, &drivable, &junction, &plan, N, &mut ev);
    assert!(ev.is_empty(), "picked up a passenger at 90 mph");
}

#[test]
fn delivering_a_fare_pays_and_finds_another() {
    let (w, d, mut sim) = new_shift(404);
    let mut ev = Vec::new();
    let (to, value) = (sim.fare.as_ref().unwrap().to, sim.fare.as_ref().unwrap().value);
    sim.fare.as_mut().unwrap().aboard = true;
    sim.taxi.x = to.0;
    sim.taxi.y = to.1;
    sim.taxi.vx = 0;
    sim.taxi.vy = 0;
    sim.step_fare(&kind, &w, &d, &drivable, &junction, &plan, N, &mut ev);
    assert!(ev.contains(&Event::DroppedOff));
    assert!(sim.money >= value as i32, "the fare was not paid");
    assert!(sim.fare.is_some(), "no new fare after a drop-off");
}

#[test]
fn coins_are_on_the_road_and_can_be_collected() {
    let (w, d, mut sim) = new_shift(404);
    let mut ev = Vec::new();
    let coins = sim.fare.as_ref().unwrap().coins.clone();
    assert!(!coins.is_empty(), "no coins on the route");
    for c in &coins {
        assert_eq!(kind(cell(c.x), cell(c.y)), Kind::Road);
    }
    sim.taxi.x = coins[0].x;
    sim.taxi.y = coins[0].y;
    let clock = sim.ticks_left;
    sim.step_fare(&kind, &w, &d, &drivable, &junction, &plan, N, &mut ev);
    assert!(ev.contains(&Event::Coin));
    assert!(sim.ticks_left > clock, "a coin bought no time");
}

#[test]
fn a_coin_can_only_be_collected_once() {
    let (w, d, mut sim) = new_shift(404);
    let mut ev = Vec::new();
    let c0 = sim.fare.as_ref().unwrap().coins[0];
    sim.taxi.x = c0.x;
    sim.taxi.y = c0.y;
    sim.taxi.vx = fixed::from_int(6);
    let clock = sim.ticks_left;
    sim.step_fare(&kind, &w, &d, &drivable, &junction, &plan, N, &mut ev);
    assert_eq!(sim.ticks_left, clock + 2 * HZ, "a coin is two seconds");
    assert_eq!(sim.taxi.boost, COIN_BOOST);
    let clock = sim.ticks_left;
    sim.step_fare(&kind, &w, &d, &drivable, &junction, &plan, N, &mut ev);
    assert_eq!(sim.ticks_left, clock, "the same coin paid twice");
}

#[test]
fn with_no_fare_on_a_tick_of_the_fare_hails_one() {
    let (w, d, mut sim) = new_shift(404);
    sim.fare = None;
    let mut ev = vec![Event::Rammed];
    sim.step_fare(&kind, &w, &d, &drivable, &junction, &plan, N, &mut ev);
    assert_eq!(ev, vec![Event::Rammed]);
    assert!(sim.fare.is_some());
}

#[test]
fn a_shift_that_is_over_stands_still() {
    let (w, d, mut sim) = new_shift(404);
    sim.over = true;
    let mut ev = vec![Event::Coin];
    let (x, t) = (sim.taxi.x, sim.tick);
    tick(&mut sim, &w, &d, &Controls { throttle: ONE, ..Default::default() }, &mut ev);
    assert!(ev.is_empty());
    assert_eq!((sim.taxi.x, sim.tick), (x, t));
}

#[test]
fn petrol_is_charged_once_a_second() {
    let (w, d, mut sim) = new_shift(404);
    let mut ev = Vec::new();
    sim.fare = None;
    for _ in 0..HZ {
        tick(&mut sim, &w, &d, &Controls::default(), &mut ev);
    }
    assert_eq!(sim.spent, 1);
    assert_eq!(sim.tick, HZ as u32);
}

/// Which side of the crown of the road a car is on, for its direction of
/// travel, or `None` where the question has no answer.  Positive is the
/// correct side for driving on the right.
fn side_of_road(c: &lib::drive::Car) -> Option<i32> {
    let (x, y) = (cell(c.x), cell(c.y));
    let (row, col) = plan(x, y);
    let along_x = lib::road::street_axis(&row, &col)?;
    let strip = if along_x { row } else { col };
    if strip.width < 2 {
        return None;
    }
    let v = if along_x { c.vx } else { c.vy };
    if v.abs() < ONE {
        return None;
    }
    let kerb = fixed::from_int(if along_x { y } else { x } - strip.across as i32);
    let mid = kerb + fixed::from_int(strip.width as i32) / 2;
    let off = if along_x { c.y - mid } else { c.x - mid };
    Some(if along_x == (v > 0) { off } else { -off })
}

#[test]
fn traffic_keeps_to_the_right_hand_lane() {
    for seed in [1u32, 7, 99, 4242] {
        let (w, d, mut sim) = new_shift(seed);
        let mut ev = Vec::new();
        let (mut right, mut wrong) = (0u32, 0u32);
        for _ in 0..1200 {
            tick(&mut sim, &w, &d, &Controls::default(), &mut ev);
            for c in &sim.traffic {
                match side_of_road(c) {
                    Some(s) if s > 0 => right += 1,
                    Some(s) if s < 0 => wrong += 1,
                    _ => {}
                }
            }
        }
        assert!(right + wrong > 1000, "seed {seed}: only {} ticks with a side", right + wrong);
        assert!(right > wrong * 9, "seed {seed}: {right} car-ticks on the right, {wrong} on the wrong side");
    }
}

fn dist2(a: &lib::drive::Car, b: &lib::drive::Car) -> i32 {
    let (dx, dy) = ((a.x - b.x).abs(), (a.y - b.y).abs());
    let (hi, lo) = if dx > dy { (dx, dy) } else { (dy, dx) };
    hi + fixed::mul(lo, fixed::ratio(3, 8))
}

#[test]
fn traffic_gives_way_to_traffic() {
    let (w, d, mut sim) = new_shift(11);
    let mut ev = Vec::new();
    let mut overlapping = 0;
    for _ in 0..1800 {
        tick(&mut sim, &w, &d, &Controls::default(), &mut ev);
        for i in 0..sim.traffic.len() {
            for j in i + 1..sim.traffic.len() {
                let (a, b) = (&sim.traffic[i], &sim.traffic[j]);
                let reach = a.kind.half_len() + b.kind.half_len();
                if dist2(a, b) < fixed::mul(reach, fixed::HALF) {
                    overlapping += 1;
                }
            }
        }
    }
    let pairs = sim.traffic.len() * (sim.traffic.len() - 1) / 2;
    let ticks = pairs as u32 * 1_000;
    assert!(overlapping * 1_000 < ticks, "{overlapping} car-ticks spent inside another car, of {ticks}");
}

#[test]
fn a_driver_lifts_off_for_the_car_in_front() {
    let (_w, _d, mut sim) = new_shift(3);
    let lead = sim.traffic[0];
    for k in 2..sim.traffic.len() {
        sim.traffic[k].x = fixed::from_int(N - 2);
        sim.traffic[k].y = fixed::from_int(N - 2);
    }
    let (fx, fy) = (lib::trig::cos(lead.yaw), lib::trig::sin(lead.yaw));
    let back = fixed::from_int(4);
    sim.traffic[0].vx = 0;
    sim.traffic[0].vy = 0;
    sim.traffic[1] = lib::drive::Car::new(CarKind::Traffic, lead.x - fixed::mul(fx, back), lead.y - fixed::mul(fy, back), lead.yaw, lib::palette::H_RED);
    sim.traffic_cruise[1] = fixed::from_int(3);
    let free = sim.give_way(1);
    sim.traffic[0].x = sim.taxi.x;
    sim.traffic[0].y = sim.taxi.y;
    let blocked_by_nothing = sim.give_way(1);
    assert!(free < blocked_by_nothing, "a car four cells behind a parked one wanted {free} against {blocked_by_nothing} on a clear road");
}

#[test]
fn people_are_put_down_beside_the_road_and_not_on_it() {
    for seed in [1u32, 7, 99, 4242] {
        let (w, d, mut sim) = new_shift(seed);
        for _ in 0..40 {
            sim.hail(&kind, &w, &d, &drivable, &junction, &plan, N);
            let fare = sim.fare.as_ref().expect("no fare");
            for (name, (mx, my)) in [("pickup", fare.from), ("dropoff", fare.to)] {
                let (x, y) = (cell(mx), cell(my));
                assert_ne!(kind(x, y), Kind::Road, "seed {seed}: the {name} is in the carriageway at {x},{y}");
                assert_eq!(w.at(x, y), Foot::Path, "seed {seed}: the {name} is not somewhere a person can stand");
            }
            for (name, (sx, sy)) in [("pickup", fare.from_stop), ("dropoff", fare.to_stop)] {
                let (x, y) = (cell(sx), cell(sy));
                assert!(drivable(x, y), "seed {seed}: the {name} kerb at {x},{y} is not road");
            }
            assert!(fare.at_stop(fare.from_stop.0, fare.from_stop.1), "seed {seed}: a cab at the kerb cannot reach the passenger");
        }
    }
}
