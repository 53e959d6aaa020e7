use lib::fixed::{self, Fx, ONE};
use lib::rng::hash3;
use lib::tour::{Doing, Spot, Streets, Tour, Want, MAX_TILT};
use lib::trig;
use lib::walk::{Foot, WalkMap};

const HZ: i32 = 30;

/// Cells across the test town.
const SIZE: i32 = 128;

/// A grid town: four-cell roads every sixteen cells each way, a ring of
/// pavement round every block, and a building filling the rest of it, its
/// height drawn from the seed so that different seeds make different
/// skylines.
fn spot(seed: u32, x: i32, y: i32) -> Spot {
    let on_map = (0..SIZE).contains(&x) && (0..SIZE).contains(&y);
    let (a, b) = ((x + 8).rem_euclid(16), (y + 8).rem_euclid(16));
    let road = a < 4 || b < 4;
    let building = !road && (5..=14).contains(&a) && (5..=14).contains(&b);
    let (bx, by) = ((x + 8).div_euclid(16), (y + 8).div_euclid(16));
    let height = if building { (6 + hash3(bx as u32, by as u32, seed) % 40) as u8 } else { 0 };
    Spot {
        street: on_map && !building,
        open: on_map && !building,
        road: on_map && road,
        junction: on_map && a < 4 && b < 4,
        ground: x * 128,
        height,
    }
}

fn streets(seed: u32) -> Streets {
    Streets::build(SIZE as usize, move |x: i32, y: i32| spot(seed, x, y))
}

fn walk_map(seed: u32) -> WalkMap {
    WalkMap::build(SIZE as usize, move |x: i32, y: i32| {
        let s = spot(seed, x, y);
        if !s.open {
            Foot::Blocked
        } else if s.road {
            Foot::Crossing
        } else {
            Foot::Path
        }
    })
}

fn start(seed: u32) -> (Streets, Tour) {
    let s = streets(seed);
    let t = Tour::new(&s, &walk_map(seed), seed);
    (s, t)
}

fn walk(seed: u32, ticks: u32) -> (Streets, Tour) {
    let (s, mut t) = start(seed);
    for _ in 0..ticks {
        t.step(&s, HZ);
    }
    (s, t)
}

#[test]
fn it_never_walks_into_a_building() {
    for seed in [1u32, 7, 99, 31337] {
        let (s, mut t) = start(seed);
        for i in 0..9000 {
            t.step(&s, HZ);
            let (x, y) = (fixed::floor(t.cam.x), fixed::floor(t.cam.y));
            assert!(s.at(x, y).open, "seed {seed} walked into a building at tick {i}: {x},{y}");
        }
    }
}

#[test]
fn it_actually_goes_somewhere() {
    let (s, mut t) = start(5);
    let (x0, y0) = (t.cam.x, t.cam.y);
    let mut furthest = 0;
    for _ in 0..3000 {
        t.step(&s, HZ);
        let d = fixed::abs(t.cam.x - x0) + fixed::abs(t.cam.y - y0);
        furthest = furthest.max(fixed::floor(d));
    }
    assert!(furthest > 12, "it only got {furthest} cells from where it started");
}

#[test]
fn it_looks_around_while_it_walks() {
    let (s, mut t) = start(11);
    let mut gazes = std::collections::HashSet::new();
    let mut pitches = std::collections::HashSet::new();
    for _ in 0..2400 {
        t.step(&s, HZ);
        gazes.insert(t.cam.yaw.wrapping_sub(t.heading) as i16 / 512);
        pitches.insert(t.cam.pitch);
    }
    assert!(gazes.len() > 4, "the head never turned ({} positions)", gazes.len());
    assert!(pitches.len() > 2, "it never looked up or down");
}

#[test]
fn it_looks_up_at_something_at_some_point() {
    let (s, mut t) = start(3);
    let mut admired = false;
    let mut high = 0;
    for _ in 0..6000 {
        t.step(&s, HZ);
        admired |= t.doing == Doing::Admiring;
        high = high.max(t.cam.pitch);
    }
    assert!(admired, "it never stopped to look at anything");
    assert!(high >= 2, "it never tilted up (best {high})");
}

#[test]
fn it_keeps_off_the_walls() {
    let (s, mut t) = start(99);
    let mut hugging = 0;
    let total = 3000;
    for _ in 0..total {
        t.step(&s, HZ);
        let left = t.clearance(&s, t.heading.wrapping_sub(trig::QUARTER));
        let right = t.clearance(&s, t.heading.wrapping_add(trig::QUARTER));
        if left.min(right) == 0 {
            hugging += 1;
        }
    }
    assert!(hugging * 4 < total, "spent {hugging} of {total} ticks with a wall against one shoulder");
}

#[test]
fn it_never_tilts_the_ground_off_the_screen() {
    let (s, mut t) = start(3);
    for _ in 0..6000 {
        t.step(&s, HZ);
        assert!(t.cam.pitch.abs() <= MAX_TILT, "tilted to {} rows, past the {MAX_TILT} the front end expects", t.cam.pitch);
    }
}

#[test]
fn the_walk_is_reproducible() {
    let a = walk(42, 900);
    let b = walk(42, 900);
    assert_eq!(a.1.cam.x, b.1.cam.x);
    assert_eq!(a.1.cam.y, b.1.cam.y);
    assert_eq!(a.1.cam.yaw, b.1.cam.yaw);
    assert_eq!(a.1.cam.pitch, b.1.cam.pitch);
}

#[test]
fn different_seeds_take_different_walks() {
    let a = walk(1, 1200);
    let b = walk(2, 1200);
    assert!(a.1.cam.x != b.1.cam.x || a.1.cam.y != b.1.cam.y, "two seeds produced the same walk");
}

#[test]
fn the_frame_rate_does_not_change_how_far_it_gets() {
    let s = streets(6);
    let w = walk_map(6);
    let distance = |hz: i32| {
        let mut t = Tour::new(&s, &w, 6);
        let mut total = 0i64;
        let (mut px, mut py) = (t.cam.x, t.cam.y);
        for _ in 0..(20 * hz) {
            t.step(&s, hz);
            total += (fixed::abs(t.cam.x - px) + fixed::abs(t.cam.y - py)) as i64;
            px = t.cam.x;
            py = t.cam.y;
        }
        total
    };
    let (slow, fast) = (distance(30), distance(60));
    let ratio = fast * 100 / slow.max(1);
    assert!((60..=165).contains(&ratio), "60 Hz covered {ratio}% of the ground 30 Hz did over the same twenty seconds");
}

#[test]
fn it_starts_facing_down_a_street_rather_than_at_a_wall() {
    for seed in [1u32, 2, 3, 4, 5, 6, 7, 8] {
        let (s, t) = start(seed);
        assert!(t.clear(&s, t.heading, ONE), "seed {seed} started facing a wall");
    }
}

// ---- the library's own cases -------------------------------------------

#[test]
fn a_tour_starts_in_the_carriageway_strolling() {
    let (s, t) = start(4);
    let (x, y) = (fixed::floor(t.cam.x), fixed::floor(t.cam.y));
    assert!(s.at(x, y).road, "the tour starts on the pavement at {x},{y}");
    assert_eq!(t.doing, Doing::Strolling);
    assert_eq!(t.tick, 0);
    assert_eq!(t.cam.pitch, 0);
    assert_eq!(t.cam.yaw, t.heading);
    assert_eq!(t.cam.x % ONE, ONE / 2, "not in the middle of its cell");
    assert_eq!(t.cam.z, s.at(x, y).ground + lib::camera::EYE, "not standing on the ground");
}

#[test]
fn the_tick_counts_steps() {
    let (_, t) = walk(9, 37);
    assert_eq!(t.tick, 37);
}

#[test]
fn clearance_counts_quarter_cells_to_the_first_wall() {
    let (s, mut t) = start(4);
    // In a north-south road, beside a block: x = 12 is its pavement and
    // x = 13 the first building cell.
    t.cam.x = fixed::from_int(9) + ONE / 2;
    t.cam.y = fixed::from_int(16) + ONE / 2;
    assert!(!s.at(13, 16).street && s.at(12, 16).street);
    // East: steps land at 9.75, 10.0, ..., the first at 13.0 is step 14.
    assert_eq!(t.clearance(&s, 0), 13);
    assert!(t.clear(&s, 0, fixed::from_int(3)));
    assert!(!t.clear(&s, 0, fixed::from_int(4)));
    // Nothing is clearer than eight cells.
    assert_eq!(t.clearance(&s, trig::QUARTER), 32, "down the road southwards");
}

#[test]
fn the_nearest_search_goes_ring_by_ring() {
    let s = streets(4);
    assert_eq!(s.nearest(9, 9, 48, Want::Road), Some((9, 9)), "a road cell is its own nearest road");
    // From the middle of a block the nearest road is five rings out, first
    // along the top row.
    assert_eq!(s.nearest(16, 16, 48, Want::Road), Some((11, 11)));
    assert_eq!(s.nearest(16, 16, 3, Want::Road), None);
    assert_eq!(s.nearest(16, 16, 48, Want::Walkable), Some((12, 12)));
}

#[test]
fn off_the_map_is_nowhere_to_stand() {
    let s = streets(4);
    let off = s.at(-1, 5);
    assert!(!off.street && !off.open && !off.road);
    assert_eq!(off.ground, 0);
    assert_eq!(s.size(), SIZE as usize);
}

#[test]
fn it_never_walks_into_a_building_at_any_reasonable_rate() {
    for hz in [5, 12, 60, 144] {
        let (s, mut t) = start(77);
        for i in 0..2000 {
            t.step(&s, hz);
            let (x, y) = (fixed::floor(t.cam.x), fixed::floor(t.cam.y));
            assert!(s.at(x, y).street && s.at(x, y).open, "at {hz} Hz it left the street at tick {i}");
        }
    }
}
