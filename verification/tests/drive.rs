use lib::drive::{collide, normalise, Car, CarKind, Controls, HZ, PIN_BOOST, PIN_STEP, PIN_STEPS, VMAX};
use lib::fixed::{self, Fx, HALF, ONE};
use lib::trig::{self, Ang, QUARTER};

fn to_f32(a: Fx) -> f32 {
    a as f32 / ONE as f32
}

/// Degrees to a turn-wrapping angle.
fn from_degrees(d: f64) -> Ang {
    ((d / 360.0 * 65536.0).round() as i64 & 0xffff) as Ang
}

/// A street grid: three-cell avenues every fourteen cells each way, and
/// buildings in between, inside a city two hundred and fifty-two cells
/// across.
fn streets(x: i32, y: i32) -> bool {
    (0..252).contains(&x) && (0..252).contains(&y) && (x % 14 < 3 || y % 14 < 3)
}

/// Nothing but road, everywhere.
fn open_ground(_x: i32, _y: i32) -> bool {
    true
}

/// A taxi in the middle of an avenue, pointing along it.
fn on_the_road() -> Car {
    let col = 1;
    assert!(streets(col, 6), "the test avenue is not clear");
    Car::new(CarKind::Taxi, fixed::from_int(col) + HALF, fixed::from_int(6) + HALF, QUARTER, 7)
}

fn flat_out<F: Fn(i32, i32) -> bool>(car: &mut Car, open: &F, ticks: u32) {
    let c = Controls { throttle: ONE, ..Default::default() };
    for _ in 0..ticks {
        car.step(&c, open, HZ);
    }
}

/// Take a corner at a held speed on open ground, and report the worst
/// slip and how tight the corner was.
fn corner(speed: Fx, handbrake: bool) -> (Fx, f32) {
    let mut car = Car::new(CarKind::Taxi, HALF, HALF, 0, 7);
    let go = Controls { throttle: ONE, ..Default::default() };
    for _ in 0..600 {
        if car.speed() >= speed {
            break;
        }
        car.step(&go, &open_ground, HZ);
    }
    let (x0, y0, yaw0) = (car.x, car.y, car.yaw);
    let mut peak = 0;
    for _ in 0..900 {
        let throttle = if car.speed() < speed { ONE } else { 0 };
        car.step(&Controls { throttle, steer: ONE, handbrake }, &open_ground, HZ);
        peak = peak.max(car.slip());
        if (car.yaw.wrapping_sub(yaw0) as i16 as i32).abs() >= QUARTER as i32 {
            break;
        }
    }
    let (dx, dy) = (to_f32(car.x - x0), to_f32(car.y - y0));
    (peak, (dx * dx + dy * dy).sqrt() / std::f32::consts::SQRT_2)
}

#[test]
fn the_throttle_makes_it_go() {
    let mut car = on_the_road();
    flat_out(&mut car, &streets, 30);
    assert!(car.speed() > ONE, "half a second flat out and it is not moving");
}

#[test]
fn the_engine_has_a_curve_rather_than_a_switch() {
    let mut car = Car::new(CarKind::Taxi, HALF, HALF, 0, 7);
    flat_out(&mut car, &open_ground, PIN_STEP * PIN_STEPS);
    let mut gains = Vec::new();
    let mut last = car.speed();
    for _ in 0..6 {
        flat_out(&mut car, &open_ground, HZ as u32 / 4);
        gains.push(car.speed() - last);
        last = car.speed();
    }
    assert!(gains[0] > gains[5] * 3, "no taper: {:?}", gains.iter().map(|g| to_f32(*g)).collect::<Vec<_>>());
}

#[test]
fn it_settles_at_a_top_speed_it_finds_for_itself() {
    let hold = |boost: u32| {
        let mut car = Car::new(CarKind::Taxi, HALF, HALF, 0, 7);
        car.boost = boost;
        flat_out(&mut car, &open_ground, 2000);
        let settled = car.speed();
        flat_out(&mut car, &open_ground, 200);
        assert!(
            fixed::abs(car.speed() - settled) < fixed::ratio(1, 10),
            "it never settled: {} then {}",
            to_f32(settled),
            to_f32(car.speed())
        );
        settled
    };
    let held = hold(0);
    let coined = hold(100_000);
    assert!(held > VMAX, "holding the throttle bought nothing: {}", to_f32(held));
    assert!(coined > held, "the coin bought nothing: {} against {}", to_f32(coined), to_f32(held));
    assert!(coined < fixed::mul(VMAX, PIN_BOOST) + ONE, "it went past its own backstop: {}", to_f32(coined));
}

#[test]
fn holding_the_throttle_winds_the_speed_up() {
    let mut car = Car::new(CarKind::Taxi, HALF, HALF, 0, 7);
    let mut at = Vec::new();
    for _ in 0..4 {
        flat_out(&mut car, &open_ground, PIN_STEP);
        at.push(car.speed());
    }
    for w in at.windows(2) {
        assert!(w[1] > w[0], "it stopped gaining: {:?}", at.iter().map(|s| to_f32(*s)).collect::<Vec<_>>());
    }
    assert!(at[3] > fixed::mul(VMAX, fixed::ratio(3, 2)), "a full wind-up only reached {}", to_f32(at[3]));
    for _ in 0..HZ * 2 {
        car.step(&Controls::default(), &open_ground, HZ);
    }
    assert_eq!(car.pinned, 0, "the throttle stayed wound up after being let go");
}

#[test]
fn the_brake_stops_it_before_reverse_engages() {
    let mut car = on_the_road();
    flat_out(&mut car, &streets, 60);
    let fast = car.speed();
    let c = Controls { throttle: -ONE, ..Default::default() };
    for _ in 0..10 {
        car.step(&c, &streets, HZ);
    }
    assert!(car.speed() < fast, "the brake did not slow it");
    let (fx, fy) = (trig::cos(car.yaw), trig::sin(car.yaw));
    assert!(fixed::mul(car.vx, fx) + fixed::mul(car.vy, fy) > -ONE, "it went straight into reverse from speed");
}

#[test]
fn the_corner_table() {
    for (kmh, speed) in [(28, ONE), (65, fixed::ratio(3, 1)), (100, fixed::ratio(46, 10)), (150, VMAX)] {
        let (slip, r) = corner(speed, false);
        let (hslip, hr) = corner(speed, true);
        println!(
            "{kmh:3} km/h  radius {:5.1} m  slip {:.2}   handbrake: radius {:5.1} m slip {:.2}",
            r * 6.0,
            to_f32(slip),
            hr * 6.0,
            to_f32(hslip)
        );
        assert!(slip < fixed::ratio(1, 5), "{kmh} km/h drifts on its own");
        assert!(hslip > fixed::ratio(3, 5), "{kmh} km/h will not slide even on the handbrake");
    }
}

#[test]
fn it_tracks_its_nose_even_flat_out() {
    let (loose, _) = corner(VMAX, false);
    let (slid, _) = corner(VMAX, true);
    assert!(loose < fixed::ratio(1, 5), "it drifted on its own: slip {}", to_f32(loose));
    assert!(slid > loose * 4, "the handbrake did nothing: {} against {}", to_f32(slid), to_f32(loose));
}

#[test]
fn it_tracks_its_nose_at_town_speed() {
    let (peak, _) = corner(fixed::from_int(3), false);
    assert!(peak < fixed::ratio(1, 5), "it swims through an ordinary corner: slip {}", to_f32(peak));
    let (fast, _) = corner(VMAX, false);
    assert!(fast > peak, "going faster made no difference to how much it slides");
}

#[test]
fn the_faster_it_goes_the_wider_it_turns() {
    let (_, town) = corner(fixed::from_int(3), false);
    let (_, quick) = corner(fixed::ratio(9, 2), false);
    let (_, flat) = corner(VMAX, false);
    assert!(quick > town * 1.5, "no wider at 100 km/h: {town} then {quick}");
    assert!(flat > quick * 1.5, "no wider flat out: {quick} then {flat}");
}

#[test]
fn a_held_turn_tightens() {
    let mut car = Car::new(CarKind::Taxi, fixed::from_int(8), fixed::from_int(8), 0, 7);
    car.vx = fixed::from_int(3);
    let hold = Controls { throttle: 0, steer: ONE, ..Default::default() };
    let turn = |car: &mut Car, ticks: i32| {
        let was = car.yaw;
        for _ in 0..ticks {
            let want = fixed::from_int(3);
            let vf = fixed::mul(car.vx, trig::cos(car.yaw)) + fixed::mul(car.vy, trig::sin(car.yaw));
            let c = Controls { throttle: if vf < want { ONE } else { 0 }, ..hold };
            car.step(&c, &open_ground, HZ);
        }
        (car.yaw.wrapping_sub(was) as i16 as i32).abs()
    };
    let first = turn(&mut car, HZ);
    let second = turn(&mut car, HZ);
    assert!(
        second > first * 11 / 10,
        "the wheel did not wind on: {first} units in the first second, {second} in the next"
    );
    let straight = Controls { throttle: 0, steer: 0, ..Default::default() };
    for _ in 0..HZ {
        car.step(&straight, &open_ground, HZ);
    }
    assert_eq!(car.wound, 0, "the lock stayed wound on after the wheel came back");
}

#[test]
fn the_handbrake_makes_it_slide_more() {
    for v in [fixed::from_int(3), fixed::ratio(9, 2), VMAX] {
        let (hb, _) = corner(v, true);
        let (no, _) = corner(v, false);
        assert!(
            hb > no + fixed::ratio(1, 4),
            "the handbrake did nothing at {}: {} against {}",
            to_f32(v),
            to_f32(hb),
            to_f32(no)
        );
    }
}

#[test]
fn the_tick_rate_does_not_change_how_it_drives() {
    let drive = |hz: i32| {
        let mut car = Car::new(CarKind::Taxi, HALF, HALF, 0, 7);
        for i in 0..(4 * hz) {
            let steer = if i > hz { ONE } else { 0 };
            car.step(&Controls { throttle: ONE, steer, handbrake: false }, &open_ground, hz);
        }
        (to_f32(car.x), to_f32(car.y), to_f32(car.speed()))
    };
    let (x60, y60, s60) = drive(60);
    let (x30, y30, s30) = drive(30);
    assert!(
        (x60 - x30).abs() < 1.0 && (y60 - y30).abs() < 1.0,
        "30 Hz went somewhere else: {x60},{y60} against {x30},{y30}"
    );
    assert!((s60 - s30).abs() < 0.5, "30 Hz ended at a different speed: {s60} against {s30}");
}

#[test]
fn the_wheel_works_backwards_in_reverse() {
    let right = Controls { throttle: 0, steer: ONE, ..Default::default() };

    let mut fwd = Car::new(CarKind::Taxi, fixed::from_int(8), fixed::from_int(8), 0, 7);
    fwd.vx = fixed::from_int(3);
    let was = fwd.yaw;
    for _ in 0..HZ / 2 {
        fwd.step(&right, &open_ground, HZ);
    }
    let turned = fwd.yaw.wrapping_sub(was) as i16 as i32;
    assert!(turned > 0, "the wheel to the right did not turn it right going forwards");

    let mut back = Car::new(CarKind::Taxi, fixed::from_int(8), fixed::from_int(8), 0, 7);
    back.vx = -fixed::from_int(3);
    let was = back.yaw;
    for _ in 0..HZ / 2 {
        back.step(&right, &open_ground, HZ);
    }
    let turned = back.yaw.wrapping_sub(was) as i16 as i32;
    assert!(turned < 0, "the wheel to the right turned it right in reverse as well");
}

#[test]
fn a_parked_car_cannot_be_steered() {
    let mut car = on_the_road();
    let before = car.yaw;
    let c = Controls { steer: ONE, ..Default::default() };
    for _ in 0..60 {
        car.step(&c, &streets, HZ);
    }
    assert_eq!(car.yaw, before, "it turned on the spot like a tank");
}

#[test]
fn backing_into_a_wall_stops_at_the_wall() {
    let (x, y) = (20i32, 20i32);
    let city = move |i: i32, j: i32| !(i == x - 1 && j == y);
    assert!(!city(x - 1, y), "the test wall is not a wall");
    let mut car = Car::new(CarKind::Taxi, fixed::from_int(x + 2) + HALF, fixed::from_int(y) + HALF, 0, 7);
    let start = car.x;
    for _ in 0..HZ * 2 {
        car.step(&Controls { throttle: -ONE, ..Default::default() }, &city, HZ);
        let (fx, fy) = (trig::cos(car.yaw), trig::sin(car.yaw));
        let half = car.kind.half_len();
        let (bx, by) = (car.x - fixed::mul(fx, half), car.y - fixed::mul(fy, half));
        assert!(
            city(fixed::floor(bx), fixed::floor(by)),
            "the back bumper is inside the building at {},{}",
            to_f32(bx),
            to_f32(by)
        );
    }
    assert!(car.x < start, "it never moved: {}", to_f32(car.x));
}

#[test]
fn it_never_ends_up_inside_a_building() {
    let mut car = on_the_road();
    let mut steer = ONE;
    for i in 0..6000 {
        if i % 37 == 0 {
            steer = -steer;
        }
        car.step(&Controls { throttle: ONE, steer, handbrake: i % 200 < 20 }, &streets, HZ);
        assert!(
            streets(fixed::floor(car.x), fixed::floor(car.y)),
            "drove into a building at tick {i}: {},{}",
            to_f32(car.x),
            to_f32(car.y)
        );
    }
}

#[test]
fn a_wall_turns_the_car_to_run_along_it() {
    let lane = 20i32;
    let city = move |i: i32, j: i32| !((0..40).contains(&j) && (i == lane - 1 || i == lane + 1));
    let head = QUARTER.wrapping_sub(from_degrees(20.0));
    let mut car = Car::new(CarKind::Taxi, fixed::from_int(lane) + HALF, fixed::from_int(4) + HALF, head, 7);
    let speed = fixed::from_int(3);
    car.vx = fixed::mul(trig::cos(head), speed);
    car.vy = fixed::mul(trig::sin(head), speed);
    let hands = Controls { throttle: ONE, ..Default::default() };
    let mut worst_back = 0;
    for _ in 0..HZ * 2 {
        car.step(&hands, &city, HZ);
        worst_back = worst_back.min(car.vy);
    }
    assert!(worst_back >= 0, "the wall sent it back down the alley");
    let off = (car.yaw.wrapping_sub(QUARTER) as i16 as i32).abs();
    assert!(
        off < from_degrees(10.0) as i32,
        "it is still {} degrees off the alley",
        off as f64 * 360.0 / 65536.0
    );
    assert!(car.y > fixed::from_int(12), "it never got up the alley: {}", to_f32(car.y));
}

#[test]
fn hitting_a_wall_costs_paint_and_speed() {
    let mut car = on_the_road();
    let mut dented = false;
    for deg in (0..360).step_by(15) {
        car.yaw = from_degrees(deg as f64);
        car.vx = 0;
        car.vy = 0;
        car.damage = 0;
        flat_out(&mut car, &streets, 120);
        if car.damage > 0 {
            dented = true;
            break;
        }
    }
    assert!(dented, "drove into walls in every direction without a scratch");
}

#[test]
fn a_taxi_scatters_a_parked_car_and_barely_moves_a_bus() {
    let hit = |kind: CarKind| {
        let mut a = Car::new(CarKind::Taxi, 0, 0, 0, 7);
        a.vx = fixed::from_int(6);
        let mut b = Car::new(kind, fixed::ratio(1, 3), 0, 0, 2);
        collide(&mut a, &mut b, &open_ground).expect("no contact");
        b.speed()
    };
    let saloon = hit(CarKind::Traffic);
    let bus = hit(CarKind::Bus);
    assert!(saloon > ONE, "the parked car hardly moved: {}", to_f32(saloon));
    assert!(bus < saloon / 2, "the bus went as far as the saloon");
}

#[test]
fn cars_that_are_separating_are_left_alone() {
    let mut a = Car::new(CarKind::Taxi, 0, 0, 0, 7);
    a.vx = -fixed::from_int(4);
    let mut b = Car::new(CarKind::Traffic, fixed::ratio(1, 3), 0, 0, 2);
    b.vx = fixed::from_int(4);
    assert!(collide(&mut a, &mut b, &open_ground).is_none());
}

#[test]
fn cars_far_apart_do_not_collide() {
    let mut a = Car::new(CarKind::Taxi, 0, 0, 0, 7);
    let mut b = Car::new(CarKind::Traffic, fixed::from_int(3), 0, 0, 2);
    assert!(collide(&mut a, &mut b, &open_ground).is_none());
}

#[test]
fn a_collision_separates_them_so_it_does_not_repeat_forever() {
    let mut a = Car::new(CarKind::Taxi, 0, 0, 0, 7);
    a.vx = fixed::from_int(5);
    let mut b = Car::new(CarKind::Traffic, fixed::ratio(1, 8), 0, 0, 2);
    assert!(collide(&mut a, &mut b, &open_ground).is_some());
    assert!(collide(&mut a, &mut b, &open_ground).is_none(), "the same collision fired twice");
}

// ---- the library's own cases -------------------------------------------

#[test]
fn kinds_weigh_and_measure_what_they_say() {
    assert_eq!((CarKind::Taxi.mass(), CarKind::Traffic.mass(), CarKind::Bus.mass()), (10, 9, 40));
    assert_eq!(
        (CarKind::Taxi.impact_mass(), CarKind::Traffic.impact_mass(), CarKind::Bus.impact_mass()),
        (30, 9, 120)
    );
    assert_eq!(CarKind::Taxi.half_len(), ONE);
    assert_eq!(CarKind::Bus.half_len(), fixed::ratio(9, 8));
    assert_eq!(CarKind::Traffic.half_len(), fixed::ratio(4, 5));
    assert_eq!(CarKind::Taxi.hull(), (fixed::from_int(2), fixed::ratio(6, 5), fixed::ratio(9, 10)));
    assert_eq!(CarKind::Bus.body(), (fixed::from_int(1), fixed::ratio(27, 20)));
}

#[test]
fn the_speed_is_the_octagonal_norm() {
    let mut car = Car::new(CarKind::Taxi, 0, 0, 0, 7);
    car.vx = fixed::from_int(-4);
    car.vy = fixed::from_int(8);
    // 8 + 4 * 3 / 8 = 9.5
    assert_eq!(car.speed(), fixed::ratio(19, 2));
    assert_eq!(normalise(0, 0), (ONE, 0, 0));
    let (nx, ny, len) = normalise(fixed::from_int(8), 0);
    assert_eq!((nx, ny, len), (ONE, 0, fixed::from_int(8)));
}

#[test]
fn forward_and_slip_read_the_velocity_against_the_nose() {
    let mut car = Car::new(CarKind::Taxi, 0, 0, 0, 7);
    car.vx = fixed::from_int(-3);
    assert_eq!(car.forward(), fixed::from_int(-3));
    assert_eq!(car.slip(), 0);
    car.yaw = QUARTER;
    assert_eq!(car.forward(), 0);
    assert_eq!(car.slip(), ONE);
    car.vx = fixed::ratio(1, 4);
    assert_eq!(car.slip(), 0, "below walking pace there is no slip");
}

#[test]
fn the_turn_rate_is_a_fraction_of_full_lock() {
    let mut car = Car::new(CarKind::Taxi, 0, 0, 0, 7);
    car.spin = 400;
    // 400 a tick at sixty ticks is 24000 a second: full lock.
    assert_eq!(car.turn_rate(HZ), ONE);
    car.spin = -200;
    assert_eq!(car.turn_rate(HZ), -HALF);
    // An impact's spin is clamped before it is scaled.
    car.spin = 1_000_000;
    assert_eq!(car.turn_rate(HZ), fixed::div(fixed::from_int(32_767), fixed::from_int(24_000)));
}

#[test]
fn a_shove_is_spent_against_the_mass() {
    let mut car = Car::new(CarKind::Taxi, 0, 0, 0, 7);
    car.shove(fixed::from_int(10), fixed::from_int(-20), 5);
    assert_eq!((car.vx, car.vy, car.spin), (ONE, fixed::from_int(-2), 5));
    let mut bus = Car::new(CarKind::Bus, 0, 0, 0, 7);
    bus.shove_as(fixed::from_int(10), 0, 0, 0);
    assert_eq!(bus.vx, fixed::from_int(10), "a mass below one counts as one");
}

#[test]
fn a_wall_costs_paint_once_per_unit_of_speed() {
    // Heading straight into a wall to the east at four cells a second.
    let wall = |i: i32, _j: i32| i < 10;
    let mut car = Car::new(CarKind::Taxi, fixed::from_int(9) + HALF, fixed::from_int(5) + HALF, 0, 7);
    car.vx = fixed::from_int(4);
    car.step(&Controls::default(), &wall, HZ);
    assert!(car.damage > 0 && car.damage <= 40, "paint lost: {}", car.damage);
    assert!(car.vx.abs() < car.speed() + 1 && car.vx <= 0, "it kept its speed into the wall");
    assert_eq!(car.x, fixed::from_int(9) + HALF, "it went into the wall");
}

#[test]
fn a_coin_is_spent_only_on_the_throttle() {
    let mut car = Car::new(CarKind::Taxi, HALF, HALF, 0, 7);
    car.boost = 10;
    car.step(&Controls::default(), &open_ground, HZ);
    assert_eq!(car.boost, 10, "lifting off spent the coin");
    car.step(&Controls { throttle: ONE, ..Default::default() }, &open_ground, HZ);
    assert_eq!(car.boost, 9);
}

#[test]
fn a_collision_spins_both_cars_and_keeps_the_momentum() {
    let mut a = Car::new(CarKind::Taxi, 0, 0, 0, 7);
    a.vx = fixed::from_int(5);
    let mut b = Car::new(CarKind::Traffic, fixed::ratio(1, 8), 0, 0, 2);
    let (a0, b0) = (a, b);
    assert!(collide(&mut a, &mut b, &open_ground).is_some());
    assert_eq!(a.spin, a0.spin - 260);
    assert_eq!(b.spin, b0.spin + 260);
    let (ka, kb) = (30i64, 9i64);
    let px = ka * (a.vx - a0.vx) as i64 + kb * (b.vx - b0.vx) as i64;
    let py = ka * (a.vy - a0.vy) as i64 + kb * (b.vy - b0.vy) as i64;
    assert!(px.abs() < ka + kb && py.abs() < ka + kb, "momentum changed by ({px}, {py})");
}
