use lib::catalog;
use lib::fixed::{self, Fx, HALF, ONE};
use lib::palette;
use lib::atmos::Atmos;
use lib::camera::Camera;
use lib::frame::Frame;
use lib::palette::rgb_index as pack;
use lib::shadow::ShadowMap;
use lib::raycast::{
    ground, Kind, Site, projection, column_bearing, edge_distance, lines, lit, pavement, pitch_down, road, scale, zebra, Crossing, Light,
    CELL_ASPECT, EDGE_W, SHADOW_STEP,
};
use lib::road::Strip;

/// The camera plane half-width for a horizontal field of view in degrees,
/// clamped short of the tangent's pole.
fn fov_for_degrees(deg: f64) -> Fx {
    let half = (deg.clamp(20.0, 160.0) / 2.0).to_radians();
    (half.tan() * ONE as f64).round() as Fx
}

/// What row the ground `d` away lands on, for a camera `eye` up with this
/// pitch: the projection's own rule.
fn ground_row(w: i32, h: i32, fov: Fx, eye: Fx, pitch: i32, d: i32) -> i32 {
    let rows = fixed::div(fixed::mul(eye, scale(w, fov)), fixed::from_int(d));
    h / 2 + pitch + fixed::floor(rows)
}

/// Eighty columns through a lens two thirds wide, with cells twice as tall
/// as they are wide: thirty rows per world unit at unit distance.
#[test]
fn scale_is_columns_over_the_lens() {
    assert_eq!(CELL_ASPECT, 2);
    assert_eq!(scale(80, 43690), 1966110);
    assert_eq!(scale(160, 43690), 2 * 1966110);
}

/// Aiming at ground two hundred cells away from one cell up puts the
/// horizon half a frame above the top of the screen.
#[test]
fn pitch_down_puts_the_far_ground_at_the_top() {
    assert_eq!(pitch_down(80, 24, 43690, ONE, 200), -12);
    assert_eq!(pitch_down(80, 24, 43690, 0, 0), -12);
    assert_eq!(pitch_down(80, 24, 43690, 10 * ONE, 1), -(12 + 300));
}

#[test]
fn a_camera_aimed_down_has_the_furthest_ground_at_the_top() {
    let fov = fov_for_degrees(67.0);
    for (w, h) in [(80, 24), (140, 40), (40, 25), (200, 60)] {
        for eye in [fixed::from_int(8), fixed::from_int(30), fixed::from_int(120)] {
            for far in [20, 80, 200] {
                let p = pitch_down(w, h, fov, eye, far);
                let top = ground_row(w, h, fov, eye, p, far);
                assert!((0..=1).contains(&top), "{w}x{h}, eye {eye}, far {far}: the far edge landed on row {top}");
            }
        }
    }
}

#[test]
fn nothing_on_screen_is_beyond_the_draw_distance() {
    let fov = fov_for_degrees(67.0);
    let (w, h, far) = (140, 40, 80);
    let eye = fixed::from_int(30);
    let p = pitch_down(w, h, fov, eye, far);
    let near = ground_row(w, h, fov, eye, p, 27);
    assert!(near >= h - 2 && near <= h, "the near edge landed on row {near}");
    assert!(p <= -(h / 2), "it is not even looking down: pitch {p}");
}

#[test]
fn it_tilts_further_the_higher_it_is_and_the_thicker_the_air() {
    let fov = fov_for_degrees(67.0);
    let at = |eye: i32, far: i32| pitch_down(140, 40, fov, fixed::from_int(eye), far);
    assert!(at(60, 80) < at(30, 80), "no further down from twice the height");
    assert!(at(30, 20) < at(30, 80), "no further down in thick haze");
}

#[test]
fn the_centre_line_moves_with_the_width_of_the_road() {
    for w in [2i32, 3, 4, 5] {
        let width = fixed::from_int(w);
        let painted: Vec<i32> = (0..200)
            .filter(|i| {
                let a = fixed::div(fixed::mul(width, fixed::from_int(*i)), fixed::from_int(200));
                matches!(lines(a, width, HALF), Some((g, _, _)) if g == catalog::ROAD_CENTRE)
            })
            .collect();
        assert!(!painted.is_empty(), "a {w}-cell road has no centre line");
        let mid = painted.iter().sum::<i32>() / painted.len() as i32;
        assert!((mid - 100).abs() < 12, "a {w}-cell road centres its line at {mid}/200");
    }
}

#[test]
fn the_centre_line_is_a_line_and_not_a_stripe() {
    let width = fixed::from_int(3);
    let painted = (0..90)
        .filter(|i| {
            let a = fixed::div(fixed::mul(width, fixed::from_int(*i)), fixed::from_int(90));
            matches!(lines(a, width, HALF), Some((g, _, _)) if g == catalog::ROAD_CENTRE)
        })
        .count();
    assert!(painted > 2, "the centre line is only {painted}/90 wide - it will flicker");
    assert!(painted < 18, "the centre line is {painted}/90 wide - that is a stripe");
}

#[test]
fn a_narrow_street_gets_no_lane_dividers() {
    let width = fixed::from_int(2);
    for i in 0..120 {
        let across = fixed::div(fixed::mul(width, fixed::from_int(i)), fixed::from_int(120));
        if let Some((g, _, _)) = lines(across, width, fixed::ratio(3, 2)) {
            if g == catalog::ROAD_DASH {
                assert!(
                    !(EDGE_W..=width - EDGE_W).contains(&across),
                    "a two-cell street has white paint {} cells from the kerb",
                    across as f32 / ONE as f32
                );
            }
        }
    }
}

#[test]
fn a_wide_road_does_get_lane_dividers() {
    let width = fixed::from_int(4);
    let divider = (0..120).any(|i| {
        let across = fixed::div(fixed::mul(width, fixed::from_int(i)), fixed::from_int(120));
        let inboard = across > EDGE_W * 2 && across < width - EDGE_W * 2;
        inboard && matches!(lines(across, width, HALF), Some((g, _, _)) if g == catalog::ROAD_DASH)
    });
    assert!(divider, "a four-cell boulevard has no lane divider");
}

#[test]
fn lane_dividers_are_actually_dashed() {
    let width = fixed::from_int(4);
    let x = fixed::mul(width, fixed::ratio(1, 4));
    let (mut on, mut off) = (0, 0);
    for i in 0..80 {
        let along = fixed::div(fixed::from_int(i), fixed::from_int(8));
        match lines(x, width, along) {
            Some((g, _, _)) if g == catalog::ROAD_DASH => on += 1,
            _ => off += 1,
        }
    }
    assert!(on > 4 && off > 4, "not a dashed line: {on} painted, {off} bare");
}

// ---- the library's own cases -------------------------------------------

#[test]
fn the_markings_of_a_four_cell_road_in_order() {
    let w = fixed::from_int(4);
    assert_eq!(lines(0, w, 0), Some((catalog::ROAD_DASH, palette::H_WHITE, 3)), "no kerb line");
    assert_eq!(lines(fixed::from_int(2), w, 0), Some((catalog::ROAD_CENTRE, palette::H_YELLOW, 6)));
    assert_eq!(lines(ONE, w, 0), Some((catalog::ROAD_DASH, palette::H_WHITE, 5)), "no divider at a quarter");
    assert_eq!(lines(ONE, w, ONE), None, "the divider is not broken a cell along");
    assert_eq!(lines(fixed::ratio(3, 2), w, 0), None, "paint between the lines");
}

#[test]
fn a_crossing_is_bars_and_gaps() {
    assert_eq!(zebra(0), Some((catalog::ROAD_CROSSING, palette::H_WHITE, 6)));
    assert_eq!(zebra(fixed::ratio(1, 4)), Some((catalog::ROAD_CROSSING, palette::H_WHITE, 6)));
    assert_eq!(zebra(fixed::ratio(3, 10)), None);
    assert_eq!(zebra(fixed::ratio(1, 2)), Some((catalog::ROAD_CROSSING, palette::H_WHITE, 6)));
    let mut runs = 0;
    let mut was = false;
    for i in 0..48 {
        let paint = zebra(fixed::div(fixed::from_int(i), fixed::from_int(24))).is_some();
        if paint && !was {
            runs += 1;
        }
        was = paint;
    }
    assert_eq!(runs, 4, "two cells of crossing are four bars");
}

// ---- the street plan the markings are read from -------------------------

/// A plan on a twenty-four cell pitch: north-south streets four cells wide
/// starting at every multiple of 24, east-west streets three wide starting
/// at every 24 + 12, and a one-cell alley (not a street) at 24 + 20 each
/// way.  Crossings are painted one cell back from each junction.
struct Plan;

impl Plan {
    fn strip(i: i32, start: i32, w: u8) -> Strip {
        let a = (i - start).rem_euclid(24);
        if a < w as i32 {
            Strip { street: true, width: w, across: a as u8 }
        } else if (i - 20).rem_euclid(24) == 0 {
            Strip { street: false, width: 1, across: 0 }
        } else {
            Strip { street: false, width: 0, across: 0 }
        }
    }
    fn col(&self, x: i32) -> Strip {
        Plan::strip(x, 0, 4)
    }
    fn row(&self, y: i32) -> Strip {
        Plan::strip(y, 12, 3)
    }
    fn crossing_at(&self, x: i32, y: i32) -> Option<Crossing> {
        let (c, r) = (self.col(x), self.row(y));
        let rows_near = self.row(y - 1).street || self.row(y + 1).street;
        let cols_near = self.col(x - 1).street || self.col(x + 1).street;
        if c.street && !r.street && rows_near {
            Some(Crossing::OverCols)
        } else if r.street && !c.street && cols_near {
            Some(Crossing::OverRows)
        } else {
            None
        }
    }
    fn road(&self, x: i32, y: i32, fx: Fx, fy: Fx) -> (catalog::GlyphId, u8, u8) {
        road(&self.col(x), &self.row(y), self.crossing_at(x, y), x, y, fx, fy)
    }
}

/// Sample the markings straight across a road, kerb to kerb.
fn cross_section(plan: &Plan, vertical: bool, start: i32, w: u8, fixed_axis: i32, steps: i32) -> Vec<(catalog::GlyphId, u8)> {
    (0..steps)
        .map(|i| {
            let t = fixed::div(fixed::mul(fixed::from_int(w as i32), fixed::from_int(i)), fixed::from_int(steps));
            let cell = start + fixed::floor(t);
            let frac = fixed::frac(t);
            let (g, hue, _) = if vertical {
                plan.road(cell, fixed_axis, frac, HALF)
            } else {
                plan.road(fixed_axis, cell, HALF, frac)
            };
            (g, hue)
        })
        .collect()
}

#[test]
fn every_road_has_a_yellow_centre_line_down_the_middle() {
    let p = Plan;
    // A north-south road starting at x = 24, sampled on a row mid-block; an
    // east-west one starting at y = 36, sampled on a column mid-block.
    let cases = [(true, (24, 4u8), 6), (false, (36, 3u8), 8)];
    for (vertical, (start, w), other) in cases {
        let strip = cross_section(&p, vertical, start, w, other, 60);
        let yellow: Vec<usize> = strip
            .iter()
            .enumerate()
            .filter(|(_, (g, h))| *g == catalog::ROAD_CENTRE && *h == palette::H_YELLOW)
            .map(|(i, _)| i)
            .collect();
        assert!(!yellow.is_empty(), "a {w}-cell road has no yellow centre line");
        let mid = yellow.iter().sum::<usize>() / yellow.len();
        assert!((mid as i32 - 30).abs() < 7, "the centre line sits at {mid}/60 across, which is not the middle");
    }
}

#[test]
fn a_junction_has_crosswalks_on_its_approaches_and_bare_tarmac_inside() {
    let p = Plan;
    let (jx, jy) = (24, 36);
    let (cw, rw) = (p.col(jx).width as i32, p.row(jy).width as i32);
    for i in 0..12 {
        for j in 0..12 {
            let fx = fixed::div(fixed::from_int(i), fixed::from_int(12));
            let fy = fixed::div(fixed::from_int(j), fixed::from_int(12));
            for dx in 0..cw {
                for dy in 0..rw {
                    let g = p.road(jx + dx, jy + dy, fx, fy).0;
                    assert_ne!(g, catalog::ROAD_CENTRE, "a centre line runs through the junction");
                    assert_ne!(g, catalog::ROAD_CROSSING, "a crossing is painted inside the junction");
                }
            }
        }
    }
    let mut stripes = 0;
    for (x, y) in [(jx, jy - 1), (jx, jy + rw), (jx - 1, jy), (jx + cw, jy)] {
        if p.crossing_at(x, y).is_none() {
            continue;
        }
        for i in 0..24 {
            let f = fixed::div(fixed::from_int(i), fixed::from_int(24));
            if p.road(x, y, f, f).0 == catalog::ROAD_CROSSING {
                stripes += 1;
            }
        }
    }
    assert!(stripes > 20, "only {stripes} crosswalk samples on the approaches");
}

#[test]
fn crosswalks_are_striped_rather_than_solid() {
    let p = Plan;
    let (cx, cy) = (24, 35);
    assert_eq!(p.crossing_at(cx, cy), Some(Crossing::OverCols));
    let w = p.col(cx).width as i32;
    let mut runs = 0;
    let mut was_paint = false;
    for i in 0..(w * 24) {
        let a = fixed::div(fixed::from_int(i), fixed::from_int(24));
        let cell = cx + fixed::floor(a);
        let paint = p.road(cell, cy, fixed::frac(a), HALF).0 == catalog::ROAD_CROSSING;
        if paint && !was_paint {
            runs += 1;
        }
        was_paint = paint;
    }
    assert!(runs >= 2, "the crossing has only {runs} bars - it is a solid block");
}

#[test]
fn an_alley_gets_no_paint_at_all() {
    let p = Plan;
    let a = 20;
    assert!(!p.col(a).street && p.col(a).width == 1, "the plan has an alley at 20");
    let clear = 6;
    for i in 0..24 {
        let f = fixed::div(fixed::from_int(i), fixed::from_int(24));
        for (gx, gy) in [(a, clear), (clear + 4, a)] {
            let g = p.road(gx, gy, f, f).0;
            assert!(g != catalog::ROAD_CENTRE && g != catalog::ROAD_CROSSING, "an alley was painted with {g}");
        }
    }
}

/// A cell of pavement with the road along its west side and a wall along
/// its east, its bands sampled across their whole width.
fn pavement_bands() -> Vec<(catalog::GlyphId, u8, u8)> {
    let mut out = Vec::new();
    for (gx, gy) in [(5, 7), (6, 7), (30, -2), (11, 40)] {
        for i in 0..16 {
            for j in 0..16 {
                let (fx, fy) = (fixed::ratio(i, 16), fixed::ratio(j, 16));
                out.push(pavement(1, 2, gx, gy, fx, fy));
            }
        }
    }
    out
}

#[test]
fn the_kerb_is_the_brightest_band_of_the_pavement() {
    let bands = pavement_bands();
    let kerb = bands
        .iter()
        .filter(|&&(g, _, _)| g == catalog::ROAD_KERB)
        .map(|&(_, _, l)| l)
        .min()
        .expect("no kerb band");
    for &(g, _, l) in &bands {
        if g == catalog::ROAD_KERB {
            continue;
        }
        assert!(l < kerb, "a band at luminance {l} is as bright as the kerb at {kerb}");
    }
}

#[test]
fn the_pavement_and_the_grass_are_bright_enough_to_read() {
    for &(g, hue, l) in &pavement_bands() {
        if g == catalog::FLORA_GRASS || g == catalog::FLORA_HEDGE {
            assert!(l >= 4, "grass at luminance {l}");
            assert!(hue == palette::H_GREEN || hue == palette::H_LIGHT_GREEN, "the verge is hue {hue}");
        } else if g == catalog::ROAD_PAVING || g == catalog::ROAD_GRATE {
            assert!(l >= 3, "paving at luminance {l}");
        }
    }
}

#[test]
fn the_pavement_runs_kerb_verge_paving_seam() {
    // Straight across from the road side (west) to the wall (east).
    let at = |fx| pavement(1, 2, 5, 7, fx, HALF).0;
    assert_eq!(at(0), catalog::ROAD_KERB);
    assert_eq!(at(fixed::ratio(1, 8)), catalog::ROAD_KERB);
    assert!(matches!(at(fixed::ratio(1, 4)), catalog::FLORA_GRASS | catalog::FLORA_HEDGE));
    assert!(matches!(at(fixed::ratio(3, 4)), catalog::ROAD_PAVING | catalog::ROAD_GRATE));
    assert_eq!(at(fixed::ratio(15, 16)), catalog::G_CORNICE);
    // A fragment of pavement that meets nothing is all paving.
    assert!(matches!(pavement(0, 0, 5, 7, 0, 0).0, catalog::ROAD_PAVING | catalog::ROAD_GRATE));
}

#[test]
fn the_distance_to_the_nearest_marked_side() {
    let q = fixed::ratio(1, 4);
    assert_eq!(edge_distance(0, q, q), ONE, "no side marked");
    assert_eq!(edge_distance(1, q, HALF), q, "west");
    assert_eq!(edge_distance(2, q, HALF), ONE - q, "east");
    assert_eq!(edge_distance(4, HALF, q), q, "north");
    assert_eq!(edge_distance(8, HALF, q), ONE - q, "south");
    assert_eq!(edge_distance(15, fixed::ratio(1, 8), HALF), fixed::ratio(1, 8), "the nearest of all four");
}

#[test]
fn lighting_is_clamped_to_the_ramp() {
    assert_eq!(lit(4, 1), 5);
    assert_eq!(lit(4, -2), 2);
    assert_eq!(lit(0, -2), 1, "never below one: a window is a light of its own");
    assert_eq!(lit(7, 1), 7);
    assert_eq!(lit(200, 0), 7);
}

#[test]
fn shade_only_counts_when_there_is_a_light() {
    let lamp = Light { lambert: [1, -1, 0, -2, 1], shadows: true };
    assert_eq!(lamp.on(1, false), -1);
    assert_eq!(lamp.on(1, true), SHADOW_STEP);
    let dark = Light { lambert: [0; 5], shadows: false };
    assert_eq!(dark.on(4, true), 0, "no light, no shadow");
    let none = Light::of(&Atmos { moon: false, ..Atmos::default() });
    assert!(!none.shadows);
    assert_eq!(none.lambert, [0; 5]);
}

#[test]
fn a_column_bearing_turns_with_the_screen() {
    assert_eq!(column_bearing(1000, 0, 43690), 1000, "the middle column looks along the yaw");
    // The right edge of a two-thirds lens: 43690 * 10430 >> 16 = 6953.
    assert_eq!(column_bearing(1000, ONE, 43690), 7953);
    assert_eq!(column_bearing(1000, -ONE, 43690), 1000u16.wrapping_sub(6954));
    assert_eq!(column_bearing(65000, ONE, 43690), 65000u16.wrapping_add(6953), "it wraps round north");
}

#[test]
fn the_projection_is_the_frame_the_pitch_and_the_eye() {
    let f = Frame::new(80, 30);
    let cam = Camera { x: fixed::ratio(7, 2), y: fixed::ratio(9, 2), z: fixed::from_int(2), pitch: 3, ..Camera::default() };
    let slope = |x: i32, _y: i32| x * (ONE / 4);
    let p = projection(slope, &cam, &f);
    assert_eq!((p.w, p.h), (80, 30));
    assert_eq!(p.horizon, 18, "half the frame, moved by the pitch");
    assert_eq!(p.proj, scale(80, cam.fov));
    assert_eq!(p.eye, fixed::from_int(2) - 3 * (ONE / 4), "measured from the ground underfoot");
    let buried = Camera { z: 0, ..cam };
    assert_eq!(projection(slope, &buried, &f).eye, 1, "never at or below the ground");
}

fn site(kind: Kind) -> Site {
    let none = Strip { street: false, width: 0, across: 0 };
    Site { kind, col: none, row: none, crossing: None, kerbs: 0, walls: 0, ground: 0 }
}

#[test]
fn the_ground_is_what_the_cell_is() {
    let atmos = Atmos { moon: false, haze: 0, ..Atmos::default() };
    let light = Light::of(&atmos);
    let shadow = ShadowMap::none(8);
    let at = |k: Kind| ground(|_x: i32, _y: i32| site(k), &shadow, &atmos, &light, fixed::ratio(7, 2), fixed::ratio(7, 2), ONE);
    assert_eq!(at(Kind::Building).glyph, catalog::G_SOLID);
    assert_eq!(at(Kind::Plaza), lib::frame::Cel { glyph: catalog::ROAD_PAVING, color: pack(palette::H_WHITE, 4) });
    assert!(matches!(at(Kind::Park).glyph, catalog::FLORA_GRASS | catalog::FLORA_HEDGE));
    assert!(matches!(at(Kind::Sidewalk).glyph, catalog::ROAD_PAVING | catalog::ROAD_GRATE));
    // A north-south street, in the middle of its four cells: the centre line.
    let street = Site { col: Strip { street: true, width: 4, across: 2 }, ..site(Kind::Road) };
    let c = ground(|_x: i32, _y: i32| street, &shadow, &atmos, &light, fixed::from_int(9), fixed::ratio(7, 2), ONE);
    assert_eq!(c.glyph, catalog::ROAD_CENTRE);
}

#[test]
fn rain_puts_puddles_on_the_road_but_not_in_the_park() {
    let wet = Atmos { rain: 4, moon: false, haze: 0, ..Atmos::default() };
    let light = Light::of(&wet);
    let shadow = ShadowMap::none(64);
    let mut puddles = 0;
    let mut park_puddles = 0;
    for gx in 0..40 {
        let (wx, wy) = (fixed::from_int(gx) + HALF, fixed::from_int(3) + HALF);
        if ground(|_x: i32, _y: i32| site(Kind::Plaza), &shadow, &wet, &light, wx, wy, ONE).glyph == catalog::ROAD_PUDDLE {
            puddles += 1;
        }
        if ground(|_x: i32, _y: i32| site(Kind::Park), &shadow, &wet, &light, wx, wy, ONE).glyph == catalog::ROAD_PUDDLE {
            park_puddles += 1;
        }
    }
    assert!(puddles > 3 && puddles < 30, "{puddles} puddles in forty cells");
    assert_eq!(park_puddles, 0);
    let dry = Atmos { rain: 0, ..wet };
    for gx in 0..40 {
        let c = ground(|_x: i32, _y: i32| site(Kind::Plaza), &shadow, &dry, &light, fixed::from_int(gx) + HALF, HALF, ONE);
        assert_ne!(c.glyph, catalog::ROAD_PUDDLE, "a puddle on dry ground");
    }
}

#[test]
fn shade_darkens_the_ground_only_when_there_is_a_light() {
    let mut e = lib::elevation::Elevation::new(64);
    e.build(30, 30, 40);
    let shadow = ShadowMap::cast(&e, lib::shadow::DEFAULT_AZ, lib::shadow::DEFAULT_SLOPE);
    let (x, y) = (0..64)
        .flat_map(|y| (0..64).map(move |x| (x, y)))
        .find(|&(x, y)| e.building(x, y) == 0 && !shadow.lit(x, y, 0))
        .expect("the tower casts a shadow");
    let moonlit = Atmos { haze: 0, ..Atmos::default() };
    let cel = |a: &Atmos| ground(|_x: i32, _y: i32| site(Kind::Plaza), &shadow, a, &Light::of(a), fixed::from_int(x) + HALF, fixed::from_int(y) + HALF, ONE);
    assert_eq!(cel(&moonlit).color, pack(palette::H_WHITE, 2), "paving at four, two steps into the shade");
    let dark = Atmos { moon: false, ..moonlit };
    assert_eq!(cel(&dark).color, pack(palette::H_WHITE, 4), "no light, no shade");
}
