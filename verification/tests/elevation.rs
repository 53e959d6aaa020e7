use lib::elevation::{Elevation, MAX_RELIEF};
use lib::fixed;

const N: usize = 96;

#[test]
fn an_empty_map_is_flat_and_open() {
    let e = Elevation::new(N);
    assert_eq!(e.ground(4, 4), 0);
    assert_eq!(e.building(4, 4), 0);
    assert!(e.open(4, 4));
    assert_eq!(e.top(4, 4), 0);
}

#[test]
fn off_the_map_reads_as_flat_and_open() {
    let e = Elevation::generate(N, 3);
    for (x, y) in [(-1, 0), (0, -1), (N as i32, 0), (0, N as i32), (-99, -99)] {
        assert_eq!(e.ground_steps(x, y), 0);
        assert_eq!(e.building(x, y), 0);
        assert!(e.open(x, y));
    }
}

#[test]
fn terrain_stays_inside_its_relief_budget() {
    let e = Elevation::generate(N, 11);
    for y in 0..N as i32 {
        for x in 0..N as i32 {
            assert!(e.ground_steps(x, y) <= MAX_RELIEF, "ground at {x},{y} is {} eighths", e.ground_steps(x, y));
        }
    }
}

#[test]
fn the_grade_is_gentle_everywhere() {
    let e = Elevation::generate(N, 5);
    for y in 1..N as i32 {
        for x in 1..N as i32 {
            let here = e.ground_steps(x, y) as i32;
            for (dx, dy) in [(-1, 0), (0, -1), (-1, -1)] {
                let there = e.ground_steps(x + dx, y + dy) as i32;
                assert!(
                    (here - there).abs() <= 1,
                    "a {} eighth step between {},{} and {},{}",
                    (here - there).abs(),
                    x,
                    y,
                    x + dx,
                    y + dy
                );
            }
        }
    }
}

#[test]
fn terrain_is_not_perfectly_flat_either() {
    let e = Elevation::generate(N, 5);
    let levels: std::collections::HashSet<u8> = (0..N as i32)
        .flat_map(|y| (0..N as i32).map(move |x| (x, y)))
        .map(|(x, y)| e.ground_steps(x, y))
        .collect();
    assert!(levels.len() > 2, "the whole map is at {} levels", levels.len());
}

#[test]
fn building_and_ground_add_up() {
    let mut e = Elevation::generate(N, 7);
    e.build(10, 10, 20);
    let g = e.ground(10, 10);
    assert_eq!(e.top(10, 10), g + fixed::from_int(20));
    assert!(!e.open(10, 10));
}

#[test]
fn levelling_a_footprint_makes_one_pad() {
    let mut e = Elevation::generate(N, 9);
    let pad = e.level(20, 20, 27, 27);
    for y in 20..=27i32 {
        for x in 20..=27i32 {
            assert_eq!(e.ground_steps(x, y), pad, "the pad is not flat at {x},{y}");
        }
    }
}

#[test]
fn generation_is_deterministic() {
    let a = Elevation::generate(N, 42);
    let b = Elevation::generate(N, 42);
    for y in 0..N as i32 {
        for x in 0..N as i32 {
            assert_eq!(a.ground_steps(x, y), b.ground_steps(x, y));
        }
    }
}

#[test]
fn generated_ground_stays_within_the_relief() {
    for seed in [1u32, 2024, 0xA5C1_771E] {
        let e = lib::elevation::Elevation::generate(40, seed);
        for y in 0..40 {
            for x in 0..40 {
                assert!(e.ground_steps(x, y) <= lib::elevation::MAX_RELIEF);
            }
        }
    }
}

#[test]
fn the_grade_is_gentle_along_the_edges_too() {
    let e = Elevation::generate(96, 31);
    for i in 1..96 {
        let d = e.ground_steps(i, 0) as i32 - e.ground_steps(i - 1, 0) as i32;
        assert!(d.abs() <= 1, "row 0 at {i}");
        let d = e.ground_steps(0, i) as i32 - e.ground_steps(0, i - 1) as i32;
        assert!(d.abs() <= 1, "column 0 at {i}");
    }
}
