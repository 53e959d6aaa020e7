use lib::elevation::Elevation;
use lib::fixed::{self, Fx};
use lib::shadow::{ShadowMap, DEFAULT_AZ, DEFAULT_SLOPE};
use lib::trig::{self, Ang};

const N: usize = 64;

/// A flat map with one tower on it.
fn with_tower(x: i32, y: i32, height: u8) -> Elevation {
    let mut e = Elevation::new(N);
    e.build(x, y, height);
    e
}

/// Degrees to a turn-wrapping angle.
fn deg(d: f64) -> Ang {
    ((d / 360.0 * 65536.0).round() as i64 & 0xffff) as Ang
}

#[test]
fn flat_empty_ground_has_no_shadows() {
    let e = Elevation::new(N);
    let s = ShadowMap::cast(&e, DEFAULT_AZ, DEFAULT_SLOPE);
    for y in 0..N as i32 {
        for x in 0..N as i32 {
            assert_eq!(s.line_at(x, y), 0, "a shadow at {x},{y} on empty ground");
        }
    }
}

#[test]
fn a_map_with_no_light_has_no_shadows() {
    let s = ShadowMap::none(N);
    assert!(s.lit(10, 10, 0));
    assert_eq!(s.line_at(10, 10), 0);
}

#[test]
fn a_tower_does_not_stand_in_its_own_shadow() {
    let e = with_tower(32, 32, 40);
    let s = ShadowMap::cast(&e, DEFAULT_AZ, DEFAULT_SLOPE);
    assert!(s.lit(32, 32, 0), "the tower shadows its own footing");
}

#[test]
fn a_tower_throws_its_shadow_away_from_the_light() {
    let e = with_tower(32, 32, 30);
    let s = ShadowMap::cast(&e, 0, DEFAULT_SLOPE);
    assert!(!s.lit(30, 32, 0), "nothing west of the tower is in shadow");
    assert!(s.lit(34, 32, 0), "the ground east of the tower - towards the light - is dark");
}

#[test]
fn the_shadow_is_as_long_as_the_geometry_says() {
    let h = 8i32;
    let e = with_tower(48, 32, h as u8);
    let s = ShadowMap::cast(&e, 0, DEFAULT_SLOPE);
    let expect = fixed::floor(fixed::div(fixed::from_int(h), DEFAULT_SLOPE));
    assert!((18..26).contains(&expect), "the test's own arithmetic is off: {expect}");
    assert!(!s.lit(48 - expect + 3, 32, 0), "the shadow stops short");
    assert!(s.lit(48 - expect - 3, 32, 0), "the shadow runs on past its length");
}

#[test]
fn a_shadow_is_a_height_and_not_a_flag() {
    let mut e = Elevation::new(N);
    e.build(40, 32, 40);
    e.build(30, 32, 40);
    let s = ShadowMap::cast(&e, 0, DEFAULT_SLOPE);
    let line = s.line_at(30, 32);
    assert!(line > 0, "the second tower is not shadowed at all");
    assert!(!s.lit(30, 32, 0), "its footing should be dark");
    assert!(s.lit(30, 32, fixed::from_int(39)), "its top should be lit");
}

#[test]
fn shadows_fall_the_right_way_for_every_bearing() {
    let round = |v: Fx| fixed::floor(v + fixed::HALF);
    for d in (0..360).step_by(15) {
        let az = deg(d as f64);
        let e = with_tower(32, 32, 24);
        let s = ShadowMap::cast(&e, az, DEFAULT_SLOPE);
        let k = 4;
        let (ox, oy) = (round(trig::cos(az) * k), round(trig::sin(az) * k));
        let dark = (32 - ox, 32 - oy);
        let bright = (32 + ox, 32 + oy);
        assert!(!s.lit(dark.0, dark.1, 0), "{d} degrees: {dark:?} is not shadowed");
        assert!(s.lit(bright.0, bright.1, 0), "{d} degrees: {bright:?} is shadowed");
    }
}

#[test]
fn a_low_light_throws_a_longer_shadow_than_a_high_one() {
    let e = with_tower(48, 32, 20);
    let length = |slope: Fx| -> i32 {
        let s = ShadowMap::cast(&e, 0, slope);
        (1..48).find(|d| s.lit(48 - d, 32, 0)).unwrap_or(48)
    };
    let low = length(fixed::ratio(2, 10));
    let high = length(fixed::ratio(8, 10));
    assert!(low > high, "a low light ({low}) threw a shorter shadow than a high one ({high})");
}

#[test]
fn casting_is_deterministic() {
    let e = with_tower(20, 20, 30);
    let a = ShadowMap::cast(&e, DEFAULT_AZ, DEFAULT_SLOPE);
    let b = ShadowMap::cast(&e, DEFAULT_AZ, DEFAULT_SLOPE);
    for y in 0..N as i32 {
        for x in 0..N as i32 {
            assert_eq!(a.line_at(x, y), b.line_at(x, y));
        }
    }
}

#[test]
fn shadows_do_not_run_off_the_edge_of_the_map_and_wrap_round() {
    let e = with_tower(2, 32, 40);
    let s = ShadowMap::cast(&e, 0, DEFAULT_SLOPE);
    for x in (N as i32 - 8)..N as i32 {
        assert!(s.lit(x, 32, 0), "a shadow wrapped round to {x}");
    }
}

/// A grid town on generated terrain: four-cell roads every sixteen cells,
/// a ring of pavement, and a block of buildings: mostly low, one block in
/// six a tower.
fn town() -> Elevation {
    let size = 128usize;
    let mut e = Elevation::generate(size, 2780919582);
    for y in 0..size as i32 {
        for x in 0..size as i32 {
            let (a, b) = ((x + 8).rem_euclid(16), (y + 8).rem_euclid(16));
            if (5..=14).contains(&a) && (5..=14).contains(&b) {
                let (bx, by) = ((x + 8).div_euclid(16), (y + 8).div_euclid(16));
                let r = lib::rng::hash3(bx as u32, by as u32, 2780919582);
                let h = if r % 6 == 0 { 16 + (r >> 8) % 20 } else { 2 + (r >> 8) % 6 };
                e.build(x, y, h as u8);
            }
        }
    }
    e
}

fn shaded_percent(e: &Elevation, slope: Fx) -> u32 {
    let s = ShadowMap::cast(e, DEFAULT_AZ, slope);
    let (mut dark, mut open) = (0u32, 0u32);
    for y in 0..e.size() as i32 {
        for x in 0..e.size() as i32 {
            if e.building(x, y) == 0 {
                open += 1;
                dark += u32::from(!s.lit(x, y, e.ground(x, y)));
            }
        }
    }
    dark * 100 / open.max(1)
}

#[test]
fn raising_the_light_shortens_the_shadows_everywhere() {
    let e = town();
    let low = shaded_percent(&e, fixed::ratio(30, 100));
    let high = shaded_percent(&e, fixed::ratio(100, 100));
    assert!(low > high, "a low light shaded {low}% and a high one {high}%");
}
