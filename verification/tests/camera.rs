use lib::camera::{Camera, EYE};
use lib::fixed::{self, Fx, HALF};
use lib::trig::Ang;
use lib::walk::{Foot, WalkMap};

/// Cells across the test town.
const SIZE: i32 = 96;

/// A grid town: four-cell roads every sixteen cells each way, a ring of
/// pavement round every block, and building inside it, set half a block
/// in so that the edge of the map runs through buildings.
fn building(x: i32, y: i32) -> bool {
    let (a, b) = ((x + 8).rem_euclid(16), (y + 8).rem_euclid(16));
    a >= 5 && a <= 14 && b >= 5 && b <= 14
}

fn pavement(x: i32, y: i32) -> bool {
    let (a, b) = ((x + 8).rem_euclid(16), (y + 8).rem_euclid(16));
    !building(x, y) && a >= 4 && b >= 4
}

/// Whether a cell is somewhere a body can be: on the map and not built on.
fn open(x: i32, y: i32) -> bool {
    (0..SIZE).contains(&x) && (0..SIZE).contains(&y) && !building(x, y)
}

fn walk_map() -> WalkMap {
    WalkMap::build(SIZE as usize, |x: i32, y: i32| if open(x, y) && pavement(x, y) { Foot::Path } else { Foot::Blocked })
}

fn flat(_x: i32, _y: i32) -> Fx {
    0
}

/// Degrees to a turn-wrapping angle.
fn deg(d: f64) -> Ang {
    ((d / 360.0 * 65536.0).round() as i64 & 0xffff) as Ang
}

#[test]
fn a_ray_at_the_centre_of_the_screen_is_the_view_direction() {
    let c = Camera { yaw: deg(37.0), ..Default::default() };
    let (dx, dy) = c.dir();
    let len = fixed::mul(dx, dx) + fixed::mul(dy, dy);
    assert!((len - fixed::ONE).abs() < 64, "the view direction is not a unit vector");
}

#[test]
fn the_plane_is_perpendicular_to_the_direction() {
    for d in [0.0, 17.0, 90.0, 213.5, 359.0] {
        let c = Camera { yaw: deg(d), ..Default::default() };
        let (dx, dy) = c.dir();
        let (px, py) = c.plane();
        let dot = fixed::mul(dx, px) + fixed::mul(dy, py);
        assert!(dot.abs() < 64, "plane is not perpendicular at {d} degrees: {dot}");
    }
}

#[test]
fn turning_wraps_instead_of_overflowing() {
    let mut c = Camera::default();
    for _ in 0..1000 {
        c.turn(30_000);
    }
}

#[test]
fn pitch_is_clamped() {
    let mut c = Camera::default();
    c.look(500, 12);
    assert_eq!(c.pitch, 12);
    c.look(-5000, 12);
    assert_eq!(c.pitch, -12);
}

#[test]
fn spawn_never_lands_inside_a_building() {
    let walk = walk_map();
    for (x, y) in [(0, 0), (48, 48), (95, 95), (30, 61)] {
        let c = Camera::spawn(open, &walk, flat, x, y);
        assert!(open(fixed::floor(c.x), fixed::floor(c.y)), "spawned inside a building near {x},{y}");
    }
}

#[test]
fn spawn_puts_you_where_a_person_may_stand() {
    let walk = walk_map();
    for (x, y) in [(0, 0), (48, 48), (95, 95), (30, 61), (128, 128)] {
        let c = Camera::spawn(open, &walk, flat, x, y);
        let (cx, cy) = (fixed::floor(c.x), fixed::floor(c.y));
        assert_eq!(walk.at(cx, cy), Foot::Path, "spawned at {cx},{cy} near {x},{y}, which is not pavement");
    }
}

#[test]
fn walking_into_a_wall_does_not_go_through_it() {
    let walk = walk_map();
    let mut c = Camera::spawn(open, &walk, flat, 48, 48);
    for _ in 0..4000 {
        c.walk(open, fixed::ratio(1, 8), 0);
        c.turn(1237);
        assert!(
            open(fixed::floor(c.x), fixed::floor(c.y)),
            "walked into a building at {},{}",
            c.x as f32 / 65536.0,
            c.y as f32 / 65536.0
        );
    }
}

// ---- the library's own cases -------------------------------------------

#[test]
fn spawn_stands_in_the_middle_of_the_cell_at_head_height() {
    let walk = walk_map();
    // (12, 12) is the corner of a block's pavement.
    let c = Camera::spawn(open, &walk, |_x: i32, _y: i32| fixed::from_int(2), 12, 12);
    assert_eq!((c.x, c.y), (fixed::from_int(12) + HALF, fixed::from_int(12) + HALF));
    assert_eq!(c.z, fixed::from_int(2) + EYE);
    assert_eq!((c.yaw, c.pitch), (0, 0));
    // Inside a block, the nearest pavement ring by ring and row by row.
    let c = Camera::spawn(open, &walk, flat, 17, 17);
    assert_eq!((fixed::floor(c.x), fixed::floor(c.y)), (12, 12));
}

#[test]
fn with_no_pavement_in_reach_the_first_open_cell_will_do() {
    let empty = WalkMap::build(SIZE as usize, |_x: i32, _y: i32| Foot::Blocked);
    // Inside a building: the first open cell of the search.
    let c = Camera::spawn(open, &empty, flat, 17, 17);
    assert_eq!((fixed::floor(c.x), fixed::floor(c.y)), (12, 12));
    // On open road: where it was asked.
    let c = Camera::spawn(open, &empty, flat, 9, 9);
    assert_eq!((fixed::floor(c.x), fixed::floor(c.y)), (9, 9));
}

#[test]
fn sliding_stops_at_a_wall_and_carries_on_along_it() {
    // Standing on pavement at (13.5, 12.5), heading into the building to
    // the south-east: the move along x stays on the pavement, the move
    // along y is into the block, so only x happens.
    let mut c = Camera::default();
    c.x = fixed::from_int(13) + HALF;
    c.y = fixed::from_int(12) + HALF;
    c.slide(open, fixed::ratio(1, 4), fixed::ratio(3, 4));
    assert_eq!(c.x, fixed::from_int(13) + HALF + fixed::ratio(1, 4));
    assert_eq!(c.y, fixed::from_int(12) + HALF, "it went into the building");
    c.stand(|_x: i32, _y: i32| fixed::from_int(1));
    assert_eq!(c.z, fixed::from_int(1) + EYE);
}
