use lib::trig;
use lib::walk::{Foot, WalkMap};

/// Cells across the test town.
const SIZE: usize = 96;

/// What a cell of the test town is.
#[derive(Clone, Copy, PartialEq, Eq, Debug)]
enum Kind {
    Road,
    Sidewalk,
    Building,
}

/// A grid town: four-cell roads every sixteen cells each way, a ring of
/// pavement round every block, and building inside it.  The grid is set
/// half a block in, so that the edge of the map runs through buildings.
fn kind(x: i32, y: i32) -> Kind {
    let (a, b) = ((x + 8).rem_euclid(16), (y + 8).rem_euclid(16));
    if a < 4 || b < 4 {
        Kind::Road
    } else if a == 4 || a == 15 || b == 4 || b == 15 {
        Kind::Sidewalk
    } else {
        Kind::Building
    }
}

/// Whether a road cell is painted for crossing: the row of carriageway
/// just outside each junction, spanning the road from kerb to kerb.
fn crossing(x: i32, y: i32) -> bool {
    let (a, b) = ((x + 8).rem_euclid(16), (y + 8).rem_euclid(16));
    (a < 4 && (b == 4 || b == 15)) || (b < 4 && (a == 4 || a == 15))
}

fn classify(x: i32, y: i32) -> Foot {
    if x < 0 || y < 0 || x >= SIZE as i32 || y >= SIZE as i32 {
        return Foot::Blocked;
    }
    match kind(x, y) {
        Kind::Building => Foot::Blocked,
        Kind::Sidewalk => Foot::Path,
        Kind::Road => {
            if crossing(x, y) {
                Foot::Crossing
            } else {
                Foot::Blocked
            }
        }
    }
}

fn city() -> WalkMap {
    WalkMap::build(SIZE, classify)
}

#[test]
fn buildings_are_never_walkable() {
    let c = city();
    for y in 0..SIZE as i32 {
        for x in 0..SIZE as i32 {
            if kind(x, y) == Kind::Building {
                assert!(!c.passable(x, y), "you can walk into the building at {x},{y}");
            }
        }
    }
}

#[test]
fn pavement_is_always_walkable() {
    let c = city();
    let mut n = 0;
    for y in 0..SIZE as i32 {
        for x in 0..SIZE as i32 {
            if kind(x, y) == Kind::Sidewalk {
                assert_eq!(c.at(x, y), Foot::Path, "pavement at {x},{y} is not walkable");
                n += 1;
            }
        }
    }
    assert!(n > 500, "only {n} cells of pavement in the whole city");
}

#[test]
fn the_open_carriageway_is_not_walkable() {
    let c = city();
    let mut blocked = 0;
    for y in 0..SIZE as i32 {
        for x in 0..SIZE as i32 {
            if kind(x, y) == Kind::Road && !crossing(x, y) {
                assert!(!c.passable(x, y), "you can stroll down the road at {x},{y}");
                blocked += 1;
            }
        }
    }
    assert!(blocked > 1000, "only {blocked} cells of open road");
}

#[test]
fn junctions_offer_a_crossing() {
    let c = city();
    let crossings = (0..SIZE as i32)
        .flat_map(|y| (0..SIZE as i32).map(move |x| (x, y)))
        .filter(|&(x, y)| c.at(x, y) == Foot::Crossing)
        .count();
    assert!(crossings > 200, "only {crossings} crossing cells in the whole city");
}

#[test]
fn a_crossing_always_has_somewhere_to_arrive() {
    let c = city();
    let mut n = 0;
    for y in 0..SIZE as i32 {
        for x in 0..SIZE as i32 {
            if c.at(x, y) != Foot::Crossing {
                continue;
            }
            n += 1;
            let touches = [(1, 0), (-1, 0), (0, 1), (0, -1)]
                .iter()
                .filter(|(dx, dy)| c.passable(x + dx, y + dy))
                .count();
            assert!(touches >= 2, "a crossing at {x},{y} touches only {touches} passable cells");
        }
    }
    assert!(n > 200, "only {n} crossing cells");
}

#[test]
fn the_pavements_are_actually_connected() {
    let c = city();
    let mid = SIZE as i32 / 2;
    let from = c.nearest(mid - 30, mid - 30, 40).expect("nowhere to start");
    let to = c.nearest(mid + 30, mid + 30, 40).expect("nowhere to finish");
    let path = c
        .route(from, to, SIZE * SIZE)
        .unwrap_or_else(|| panic!("no way on foot from {from:?} to {to:?}"));
    assert!(path.len() > 40, "a suspiciously short route: {} cells", path.len());
    for w in path.windows(2) {
        let d = (w[0].0 - w[1].0).abs() + (w[0].1 - w[1].1).abs();
        assert_eq!(d, 1, "the route jumps from {:?} to {:?}", w[0], w[1]);
        assert!(c.passable(w[1].0, w[1].1));
    }
}

#[test]
fn a_route_to_somewhere_unreachable_gives_up_rather_than_hanging() {
    let c = city();
    let mid = SIZE as i32 / 2;
    let from = c.nearest(mid, mid, 40).unwrap();
    let inside = (0..SIZE as i32)
        .flat_map(|y| (0..SIZE as i32).map(move |x| (x, y)))
        .find(|&(x, y)| kind(x, y) == Kind::Building)
        .unwrap();
    assert!(c.route(from, inside, SIZE * SIZE).is_none());
}

#[test]
fn a_route_to_where_you_already_are_is_one_cell() {
    let c = city();
    let mid = SIZE as i32 / 2;
    let at = c.nearest(mid, mid, 40).unwrap();
    assert_eq!(c.route(at, at, 16), Some(vec![at]));
}

#[test]
fn stepping_never_leaves_the_network() {
    let c = city();
    let mid = SIZE as i32 / 2;
    let start = c.nearest(mid, mid, 40).unwrap();
    let mut at = start;
    for i in 0..3000 {
        let goal = (mid + (i % 61) - 30, mid + (i % 47) - 23);
        let Some(a) = c.step_toward(at, goal) else { continue };
        let (dx, dy) = match a {
            0 => (1, 0),
            x if x == trig::QUARTER => (0, 1),
            x if x == trig::HALF => (-1, 0),
            _ => (0, -1),
        };
        at = (at.0 + dx, at.1 + dy);
        assert!(c.passable(at.0, at.1), "walked off the network at {at:?}");
    }
}

#[test]
fn nearest_finds_somewhere_to_stand_or_admits_it_cannot() {
    let c = city();
    let inside = (0..SIZE as i32)
        .flat_map(|y| (0..SIZE as i32).map(move |x| (x, y)))
        .find(|&(x, y)| kind(x, y) == Kind::Building)
        .unwrap();
    let found = c.nearest(inside.0, inside.1, 30).expect("nowhere near a building");
    assert!(c.passable(found.0, found.1));
}

#[test]
fn arriving_returns_no_step() {
    let c = city();
    assert!(c.step_toward((10, 10), (10, 10)).is_none());
}

// ---- the library's own cases -------------------------------------------

#[test]
fn off_the_map_is_blocked() {
    let c = city();
    assert_eq!(c.at(-1, 5), Foot::Blocked);
    assert_eq!(c.at(5, SIZE as i32), Foot::Blocked);
    assert!(Foot::Path.passable() && Foot::Crossing.passable() && !Foot::Blocked.passable());
}

#[test]
fn nearest_searches_ring_by_ring_and_row_by_row() {
    let c = city();
    // (17, 17) is deep inside a block whose building runs from 13 to 22;
    // the pavement ring is five cells out, and the first open cell of that
    // ring in row order is its top-left corner.
    assert!(!c.passable(17, 17));
    assert_eq!(c.nearest(17, 17, 10), Some((12, 12)));
    // Four rings are not enough to reach it.
    assert_eq!(c.nearest(17, 17, 5), None);
    // A limit of nothing still looks at the cell itself.
    assert_eq!(c.nearest(12, 12, 0), Some((12, 12)));
}

#[test]
fn the_walker_prefers_the_long_axis_and_turns_along_the_kerb() {
    let c = city();
    // On the top pavement of a block, heading mostly east: east is open.
    assert_eq!(c.step_toward((14, 12), (28, 13)), Some(0));
    // Heading mostly south from the top pavement runs into the building,
    // so the walker goes east along the kerb instead.
    assert_eq!(c.step_toward((14, 12), (15, 20)), Some(0));
    // Boxed in: a building cell with nothing open round it.
    assert_eq!(c.step_toward((17, 17), (18, 18)), None);
}

#[test]
fn a_route_is_the_shortest_way_round() {
    let c = city();
    // Along one pavement: the route is the straight line.
    let r = c.route((13, 12), (18, 12), 10_000).expect("no route along a pavement");
    assert_eq!(r.len(), 6);
    assert_eq!(r[0], (13, 12));
    assert_eq!(r[5], (18, 12));
    // A budget too small to get there gives up.
    assert!(c.route((13, 12), (18, 12), 2).is_none());
}

#[test]
fn an_island_of_pavement_cannot_be_walked_to() {
    // Two open cells with a wall of building between them.
    let m = WalkMap::build(8, |x: i32, y: i32| if y == 2 && (x == 1 || x == 5) { Foot::Path } else { Foot::Blocked });
    assert!(m.route((1, 2), (5, 2), 64).is_none());
    assert_eq!(m.route((1, 2), (1, 2), 0), Some(vec![(1, 2)]));
    assert_eq!(m.nearest(3, 2, 3), Some((1, 2)), "the nearer of two equals is the earlier in the row");
}

#[test]
fn a_negative_limit_asks_only_about_the_cell_itself() {
    let m = WalkMap::build(8, |x: i32, y: i32| if y == 2 && (x == 1 || x == 5) { Foot::Path } else { Foot::Blocked });
    assert_eq!(m.nearest(1, 2, -3), Some((1, 2)));
    assert_eq!(m.nearest(2, 2, -3), None);
    assert_eq!(m.nearest(2, 2, 2), Some((1, 2)));
}
