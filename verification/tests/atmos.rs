use lib::arch::{Face, NORMALS, ROOF};
use lib::atmos::{draw_distance, Atmos, DAY_HUE, DAY_LEN, DAY_NAME, DAY_TICKS};
use lib::camera::Camera;
use lib::catalog;
use lib::fixed;
use lib::frame::{Cel, Frame};
use lib::palette::{self, rgb_index};
use lib::trig::Ang;

/// A sky twenty rows tall, which is about what a terminal gives.
const SPAN: i32 = 20;

/// Degrees to a turn-wrapping angle.
fn deg(d: f64) -> Ang {
    ((d / 360.0 * 65536.0).round() as i64 & 0xffff) as Ang
}

fn is_star(g: u8) -> bool {
    (catalog::G_STAR..catalog::G_HAZE).contains(&g)
}

#[test]
fn the_sky_visits_every_phase_and_returns() {
    let mut a = Atmos { day: 1200, ..Default::default() };
    let mut seen = vec![false; DAY_LEN];
    let mut order = Vec::new();
    for t in 0..1200u32 {
        a.tick = t;
        let (i, _) = a.phase();
        seen[i] = true;
        if order.last() != Some(&i) {
            order.push(i);
        }
    }
    assert!(seen.iter().all(|&s| s), "some phase never happened: {seen:?}");
    assert_eq!(order, (0..DAY_LEN).collect::<Vec<_>>(), "out of order");
    a.tick = 1200;
    assert_eq!(a.phase().0, 0, "the day did not come round again");
}

#[test]
fn the_sky_is_a_gradient_from_the_horizon_up() {
    for n in 0..DAY_LEN as u32 {
        let a = Atmos { day: 0, sky_offset: Atmos::phase_offset(n, 0), ..Default::default() };
        let (_, low) = a.sky_at(1, SPAN, 0, 0);
        let (_, high) = a.sky_at(SPAN, SPAN, 0, 0);
        assert!(
            low >= high,
            "{}: the zenith at {high} is brighter than the horizon at {low}",
            DAY_NAME[n as usize]
        );
    }
}

#[test]
fn a_new_sky_rises() {
    let each = DAY_TICKS / DAY_LEN as u32;
    let a = Atmos { day: DAY_TICKS, sky_offset: each / 4, ..Default::default() };
    let (low, _) = a.sky_at(1, SPAN, 0, 0);
    let (high, _) = a.sky_at(SPAN, SPAN, 0, 0);
    assert_eq!(low, DAY_HUE[0], "the new sky is not at the horizon");
    assert_eq!(high, DAY_HUE[DAY_LEN - 1], "the old sky has already gone");
    let a = Atmos { day: DAY_TICKS, sky_offset: each * 3 / 4, ..Default::default() };
    assert_eq!(a.sky_at(SPAN, SPAN, 0, 0).0, DAY_HUE[0], "it never finished rising");
}

#[test]
fn the_stars_go_out_at_dawn() {
    let night = Atmos { day: 0, sky_offset: Atmos::phase_offset(0, 0), stars: 8, ..Default::default() };
    let noon = Atmos { sky_offset: Atmos::phase_offset(5, 0), ..night };
    let count = |a: &Atmos| {
        (0..2000)
            .filter(|i| {
                let c = a.sky((i * 31) as Ang, 1 + i % SPAN, SPAN);
                is_star(c.glyph)
            })
            .count()
    };
    let dark = count(&night);
    assert!(dark > 20, "a clear night sky had {dark} stars in it");
    assert_eq!(count(&noon), 0, "there are stars out at noon");
}

#[test]
fn daylight_follows_the_sky() {
    let night = Atmos { day: 0, sky_offset: Atmos::phase_offset(0, 0), ..Default::default() };
    let noon = Atmos { sky_offset: Atmos::phase_offset(5, 0), ..night };
    let dawn = Atmos { sky_offset: Atmos::phase_offset(3, 0), ..night };
    assert_eq!(night.daylight(), 0, "the night is lighting the city");
    assert_eq!(noon.daylight(), 2, "noon is not");
    assert!(dawn.daylight() > night.daylight() && dawn.daylight() < noon.daylight());
}

#[test]
fn day_zero_holds_the_sky_where_it_was_put() {
    let mut a = Atmos { day: 0, sky_offset: Atmos::phase_offset(5, 0), ..Default::default() };
    let was = a.sky_at(4, SPAN, 0, 0);
    for _ in 0..DAY_TICKS * 2 {
        a.step();
    }
    assert_eq!(a.sky_at(4, SPAN, 0, 0), was, "it moved anyway");
    assert_eq!(a.phase_name(), "NOON");
}

#[test]
fn fade_reaches_black_at_the_draw_distance() {
    let a = Atmos { haze: 3, ..Default::default() };
    assert_eq!(a.fade(fixed::from_int(0)), 0);
    assert_eq!(a.fade(fixed::from_int(draw_distance(3))), 8);
    assert_eq!(a.fade(fixed::from_int(10_000)), 8);
}

#[test]
fn fade_is_monotonic() {
    let a = Atmos::default();
    let mut last = 0;
    for d in 0..200 {
        let f = a.fade(fixed::from_int(d));
        assert!(f >= last, "fade went backwards at {d}");
        last = f;
    }
}

#[test]
fn shading_keeps_the_hue_and_loses_the_light() {
    let a = Atmos::default();
    let near = a.shade(palette::H_BLUE, 7, fixed::from_int(1));
    let far = a.shade(palette::H_BLUE, 7, fixed::from_int(60));
    assert_eq!(palette::hue_of(near), palette::H_BLUE);
    assert_eq!(palette::hue_of(far), palette::H_BLUE);
    assert!(palette::luma_of(far) < palette::luma_of(near));
}

#[test]
fn the_moon_is_in_front_of_you_or_it_is_not_drawn() {
    let a = Atmos { moon_az: deg(0.0), ..Default::default() };
    let facing = Camera { yaw: deg(0.0), ..Default::default() };
    let away = Camera { yaw: deg(180.0), ..Default::default() };
    assert!(a.moon_at(&facing, 80, 24, 12).is_some(), "the moon is dead ahead and missing");
    assert!(a.moon_at(&away, 80, 24, 12).is_none(), "the moon is behind you and drawn anyway");
}

#[test]
fn the_moon_tracks_the_camera_the_right_way_round() {
    let a = Atmos { moon_az: deg(0.0), ..Default::default() };
    let left = Camera { yaw: deg(-12.0), ..Default::default() };
    let right = Camera { yaw: deg(12.0), ..Default::default() };
    let (lx, _) = a.moon_at(&left, 80, 24, 12).unwrap();
    let (rx, _) = a.moon_at(&right, 80, 24, 12).unwrap();
    assert!(rx < lx, "turning right must move the moon left, got {rx} vs {lx}");
}

#[test]
fn stars_are_fixed_to_the_world_not_to_the_screen() {
    let a = Atmos::default();
    let ang = deg(41.0);
    assert_eq!(a.sky(ang, 5, SPAN).glyph, a.sky(ang, 5, SPAN).glyph);
}

#[test]
fn a_face_turned_towards_the_moon_is_lit_and_one_turned_away_is_not() {
    let a = Atmos { moon: true, moon_az: deg(0.0), moon_alt: 6, ..Default::default() };
    let t = a.lambert();
    assert!(
        t[Face::East as usize] > t[Face::West as usize],
        "east {} west {} with the moon due east",
        t[Face::East as usize],
        t[Face::West as usize]
    );
    for f in [Face::North, Face::South] {
        assert!(t[f as usize] <= t[Face::East as usize]);
        assert!(t[f as usize] >= t[Face::West as usize]);
    }
}

#[test]
fn moving_the_moon_moves_which_wall_is_lit() {
    let brightest = |d: f64| {
        let a = Atmos { moon: true, moon_az: deg(d), moon_alt: 6, ..Default::default() };
        let t = a.lambert();
        (0..4).max_by_key(|i| t[*i]).unwrap()
    };
    let east = brightest(0.0);
    let south = brightest(90.0);
    let west = brightest(180.0);
    assert_ne!(east, south, "the moon moved a quarter turn and nothing changed");
    assert_ne!(south, west);
    assert_ne!(east, west);
}

#[test]
fn a_moonless_night_has_no_diffuse_term_at_all() {
    let a = Atmos { moon: false, ..Default::default() };
    assert_eq!(a.lambert(), [0; NORMALS]);
}

#[test]
fn the_roof_is_always_lit_when_the_moon_is_up() {
    for d in (0..360).step_by(30) {
        let a = Atmos { moon: true, moon_az: deg(d as f64), moon_alt: 9, ..Default::default() };
        assert!(a.lambert()[ROOF] >= 0, "a roof in shadow at {d} degrees");
    }
}

#[test]
fn the_offsets_stay_inside_the_luminance_ramp() {
    for d in (0..360).step_by(7) {
        for alt in [0, 6, 12, 24] {
            let a = Atmos { moon: true, moon_az: deg(d as f64), moon_alt: alt, ..Default::default() };
            for v in a.lambert() {
                assert!((-2..=1).contains(&v), "offset {v} at {d} degrees, altitude {alt}");
            }
        }
    }
}

#[test]
fn no_rain_means_no_overlay() {
    let mut f = Frame::new(20, 10);
    let a = Atmos { rain: 0, ..Default::default() };
    a.rain_over(&mut f, &Camera::default());
    assert!(f.cels.iter().all(|c| *c == Cel::empty()));
}

#[test]
fn rain_covers_some_of_the_screen_but_not_all_of_it() {
    let mut f = Frame::new(80, 40);
    let a = Atmos { rain: 4, ..Default::default() };
    a.rain_over(&mut f, &Camera::default());
    let wet = f.cels.iter().filter(|c| **c != Cel::empty()).count();
    assert!(wet > 50, "only {wet} cells of rain");
    assert!(wet < f.cels.len() / 2, "{wet} cells - that is a wall of water");
}

#[test]
fn rain_falls_against_the_sky_and_not_over_the_buildings() {
    let mut f = Frame::new(80, 60);
    for y in 0..60 {
        for x in 0..40 {
            f.put(x, y, Cel { glyph: catalog::G_SOLID, color: rgb_index(palette::H_BLUE, 6) });
        }
    }
    let a = Atmos { rain: 8, ..Default::default() };
    a.rain_over(&mut f, &Camera { yaw: 0, ..Default::default() });

    let is_rain = |c: Cel| (catalog::G_RAIN..catalog::G_MOON).contains(&c.glyph);
    let built: usize = (0..60)
        .flat_map(|y| (0..40).map(move |x| (x, y)))
        .filter(|&(x, y)| is_rain(f.get(x, y)))
        .count();
    let sky: usize = (0..60)
        .flat_map(|y| (40..80).map(move |x| (x, y)))
        .filter(|&(x, y)| is_rain(f.get(x, y)))
        .count();

    assert!(sky > 100, "the sky is barely raining ({sky} cells)");
    assert_eq!(built, 0, "{built} cells of rain over the buildings");
}

#[test]
fn rain_falls_downwards() {
    for tick in [0u32, 1, 2, 7, 100] {
        let mut f = Frame::new(24, 24);
        let a = Atmos { rain: 8, tick, ..Default::default() };
        a.rain_over(&mut f, &Camera::default());
        let mut seen = 0;
        for y in 0..24i32 {
            for x in 0..24i32 {
                let g = f.get(x, y).glyph;
                if !(catalog::G_RAIN..catalog::G_RAIN + 8).contains(&g) {
                    continue;
                }
                seen += 1;
                let want = ((y as u32).wrapping_sub(tick * 3) & 7) as u8;
                assert_eq!(g - catalog::G_RAIN, want, "tick {tick}, row {y}: the streak is not walking down the screen");
            }
        }
        assert!(seen > 0, "tick {tick}: no rain to check");
    }
}

#[test]
fn a_faded_out_building_counts_as_sky() {
    let mut f = Frame::new(60, 40);
    for c in f.cels.iter_mut() {
        *c = Cel { glyph: catalog::G_SOLID, color: rgb_index(palette::H_BLUE, 0) };
    }
    let a = Atmos { rain: 8, ..Default::default() };
    a.rain_over(&mut f, &Camera::default());
    let wet = f.cels.iter().filter(|c| (catalog::G_RAIN..catalog::G_MOON).contains(&c.glyph)).count();
    assert!(wet > 100, "only {wet} cells fell on the faded-out wall");
}

#[test]
fn the_default_is_a_drizzle_rather_than_a_downpour() {
    let mut f = Frame::new(100, 40);
    Atmos::default().rain_over(&mut f, &Camera::default());
    let wet = f.cels.iter().filter(|c| **c != Cel::empty()).count();
    assert!(wet * 10 < f.cels.len(), "the default weather wets {wet} of {} cells", f.cels.len());
}

#[test]
fn the_sun_rises_in_the_east_and_sets_in_the_west() {
    let sunrise = Atmos { day: 0, sky_offset: Atmos::phase_offset(3, 0), ..Default::default() };
    let sunset = Atmos { day: 0, sky_offset: Atmos::phase_offset(8, 0), ..Default::default() };
    assert_eq!(sunrise.sun_az(), 0, "mid-sunrise is due east");
    assert_eq!(sunset.sun_az(), 0x8000, "mid-sunset is due west, half a turn later");
    assert_eq!(sunset.phase_name(), "SUNSET");
}

#[test]
fn an_offset_lands_in_its_own_phase() {
    for n in 0..30u32 {
        let mut a = Atmos { day: 0, sky_offset: Atmos::phase_offset(n, 0), ..Default::default() };
        for _ in 0..5 {
            assert_eq!(a.phase().0, (n % 12) as usize);
            a.step();
        }
    }
    let noon = Atmos { day: 0, sky_offset: Atmos::phase_offset(5, 0), ..Default::default() };
    assert_eq!(noon.phase_name(), "NOON");
}

#[test]
fn the_sky_comes_round_again_after_a_day() {
    let mut a = Atmos { day: 1200, ..Default::default() };
    for t in [0u32, 17, 300, 1199] {
        a.tick = t;
        let now = a.phase();
        a.tick = t + 1200;
        assert_eq!(a.phase(), now, "tick {t}");
    }
}
