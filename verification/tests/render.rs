use lib::arch::{Arch, Lot};
use lib::atmos::Atmos;
use lib::camera::{Camera, EYE};
use lib::catalog;
use lib::fixed::{self, Fx, FX_MAX, ONE};
use lib::frame::Frame;
use lib::palette;
use lib::raycast::{render, render_to, Kind, Light, Site};
use lib::road::Strip;
use lib::shadow::ShadowMap;

/// The side of the little city the tests render: five blocks of thirteen.
const SIDE: i32 = 65;

/// Whether a cell is in the street grid: the first three of every thirteen
/// along either axis.
fn street(x: i32, y: i32) -> bool {
    x.rem_euclid(13) < 3 || y.rem_euclid(13) < 3
}

fn inside(x: i32, y: i32) -> bool {
    (0..SIDE).contains(&x) && (0..SIDE).contains(&y)
}

/// Buildings of four to thirty-five cells on every block, one height per
/// block.
fn height(x: i32, y: i32) -> u8 {
    if !inside(x, y) || street(x, y) {
        return 0;
    }
    let (bx, by) = (x / 13, y / 13);
    4 + ((bx * 7 + by * 13) % 32) as u8
}

fn flat(_x: i32, _y: i32) -> Fx {
    0
}

fn lot_at(x: i32, y: i32) -> Option<Lot> {
    if height(x, y) == 0 {
        return None;
    }
    let (bx, by) = (x / 13, y / 13);
    let archs = [Arch::Prewar, Arch::Deco, Arch::Slab, Arch::CurtainWall, Arch::Setback, Arch::LowRise];
    Some(Lot {
        x0: (bx * 13 + 3) as u16,
        y0: (by * 13 + 3) as u16,
        x1: (bx * 13 + 12) as u16,
        y1: (by * 13 + 12) as u16,
        height: height(x, y),
        arch: archs[((bx + by * 5) % 6) as usize],
        hue: (2 + (bx + by) % 12) as u8,
        luma: 4,
        lit: 9,
        seed: (bx * 1000 + by) as u32,
    })
}

fn site_at(x: i32, y: i32) -> Site {
    let none = Strip { street: false, width: 0, across: 0 };
    let kind = if height(x, y) > 0 { Kind::Building } else if inside(x, y) { Kind::Road } else { Kind::Plaza };
    Site { kind, col: none, row: none, crossing: None, kerbs: 0, walls: 0, ground: 0 }
}

/// Standing in the middle of a junction, at eye height, facing east.
fn camera() -> Camera {
    Camera { x: 27 * ONE + ONE / 2, y: 27 * ONE + ONE / 2, z: EYE, yaw: 0, pitch: 0, fov: 43690 }
}

fn degrees(d: u32) -> u16 {
    (d * 65536 / 360) as u16
}

fn draw(cam: &Camera, atmos: &Atmos, f: &mut Frame) -> (u32, u32, Fx) {
    let shadow = ShadowMap::none(SIDE as usize);
    render(height, flat, lot_at, site_at, &shadow, cam, atmos, f)
}

#[test]
fn a_frame_gets_drawn_and_is_not_all_one_thing() {
    let mut f = Frame::new(120, 40);
    draw(&camera(), &Atmos::default(), &mut f);
    let mut distinct: Vec<u8> = f.cels.iter().map(|c| c.glyph).collect();
    distinct.sort();
    distinct.dedup();
    assert!(distinct.len() > 8, "only {} distinct glyphs - that is not a city", distinct.len());
    let lit = f.cels.iter().filter(|c| c.color != 0).count();
    assert!(lit > f.cels.len() / 20, "the frame is almost entirely black");
}

#[test]
fn rendering_is_deterministic() {
    let mut a = Frame::new(80, 30);
    let mut b = Frame::new(80, 30);
    let sa = draw(&camera(), &Atmos::default(), &mut a);
    let sb = draw(&camera(), &Atmos::default(), &mut b);
    assert_eq!(a.cels, b.cels, "two renders of one scene differ");
    assert_eq!(sa, sb);
}

#[test]
fn no_panics_at_any_heading_position_or_size() {
    let atmos = Atmos::default();
    for size in [(1, 1), (2, 40), (40, 2), (40, 25), (200, 60)] {
        let mut f = Frame::new(size.0, size.1);
        for deg in (0..360).step_by(11) {
            let mut cam = Camera { x: 20 * ONE + ONE / 2, y: 1 * ONE + ONE / 2, ..camera() };
            cam.yaw = degrees(deg);
            cam.pitch = (deg as i32 % 21) - 10;
            draw(&cam, &atmos, &mut f);
        }
    }
}

#[test]
fn the_camera_never_sees_through_a_wall_it_is_facing() {
    let atmos = Atmos { rain: 0, ..Default::default() };
    let mut f = Frame::new(80, 40);
    let mut cam = Camera { x: 28 * ONE + ONE / 2, y: 33 * ONE + ONE / 2, ..camera() };
    let mut found = false;
    for deg in (0..360).step_by(5) {
        cam.yaw = degrees(deg);
        let st = draw(&cam, &atmos, &mut f);
        if st.2 < 6 * ONE {
            found = true;
            let horizon = 20;
            assert_ne!(
                f.cels[horizon * 80 + 40].glyph,
                catalog::G_BLANK,
                "sky showing through a wall {} units away at {deg} degrees",
                st.2
            );
        }
    }
    assert!(found, "the camera never faced a nearby building");
}

#[test]
fn the_moon_actually_lights_the_buildings() {
    let cam = camera();
    let mut lit_frame = Frame::new(100, 32);
    let mut dark_frame = Frame::new(100, 32);
    let base = Atmos { rain: 0, stars: 0, haze: 2, ..Default::default() };
    draw(&cam, &Atmos { moon: true, ..base }, &mut lit_frame);
    draw(&cam, &Atmos { moon: false, ..base }, &mut dark_frame);
    let differing = (0..lit_frame.cels.len()).filter(|&i| lit_frame.cels[i].color != dark_frame.cels[i].color).count();
    assert!(differing > lit_frame.cels.len() / 20, "only {differing} cells changed when the moon was turned off");
}

#[test]
fn walls_facing_the_moon_are_brighter_than_walls_facing_away() {
    let mut cam = camera();
    let mut f = Frame::new(100, 32);
    let mean_luma = |cam: &Camera, f: &mut Frame, a: &Atmos| -> u32 {
        draw(cam, a, f);
        let lit: Vec<u32> = f
            .cels
            .iter()
            .filter(|c| c.glyph != catalog::G_BLANK && palette::luma_of(c.color) > 0)
            .map(|c| palette::luma_of(c.color) as u32)
            .collect();
        if lit.is_empty() { 0 } else { lit.iter().sum::<u32>() * 100 / lit.len() as u32 }
    };
    let a = Atmos { rain: 0, stars: 0, haze: 2, moon: true, moon_az: 0, moon_alt: 6, ..Default::default() };
    cam.yaw = 0x8000;
    let towards = mean_luma(&cam, &mut f, &a);
    cam.yaw = 0;
    let away = mean_luma(&cam, &mut f, &a);
    assert_ne!(towards, away, "the view is the same brightness in both directions");
}

#[test]
fn distance_darkens() {
    let atmos = Atmos { rain: 0, stars: 0, moon: false, haze: 4, ..Default::default() };
    let mut near = Frame::new(80, 30);
    let mut far = Frame::new(80, 30);
    let cam = camera();
    draw(&cam, &atmos, &mut near);
    let bright = |f: &Frame| -> u32 { f.cels.iter().map(|c| palette::luma_of(c.color) as u32).sum() };
    let hazier = Atmos { haze: 8, ..atmos };
    draw(&cam, &hazier, &mut far);
    assert!(bright(&far) < bright(&near), "more haze did not darken the frame");
}

#[test]
fn a_taller_building_behind_a_shorter_one_is_still_visible() {
    let mut cam = camera();
    let atmos = Atmos::default();
    let mut f = Frame::new(120, 44);
    let mut ok = false;
    for deg in (0..360).step_by(7) {
        cam.yaw = degrees(deg);
        draw(&cam, &atmos, &mut f);
        let mut lumas: Vec<u8> = (0..44).map(|y| palette::luma_of(f.cels[y * 120 + 60].color)).collect();
        lumas.sort();
        lumas.dedup();
        if lumas.len() >= 4 {
            ok = true;
            break;
        }
    }
    assert!(ok, "no column ever showed more than a few depths - occlusion is closing too early");
}

#[test]
fn looking_straight_down_an_avenue_gives_a_long_view() {
    let atmos = Atmos { haze: 0, rain: 0, ..Default::default() };
    let mut f = Frame::new(100, 36);
    let mut cam = Camera { x: 7 * ONE / 8, y: 27 * ONE + ONE / 2, ..camera() };
    let mut deepest = 0u32;
    for deg in (0..360).step_by(3) {
        cam.yaw = degrees(deg);
        let st = draw(&cam, &atmos, &mut f);
        deepest = deepest.max(st.0);
    }
    assert!(deepest > 400, "the deepest view was only {deepest} cells");
}

#[test]
fn the_depth_of_each_column_is_its_nearest_wall() {
    let shadow = ShadowMap::none(SIDE as usize);
    let atmos = Atmos::default();
    let cam = Camera { x: 28 * ONE + ONE / 2, y: 33 * ONE + ONE / 2, ..camera() };
    let mut f = Frame::new(40, 20);
    let mut depth = Vec::new();
    let st = render_to(height, flat, lot_at, site_at, &shadow, &cam, &atmos, &mut f, &mut depth);
    assert_eq!(depth.len(), 40);
    assert_eq!(st.2, depth[20], "the middle column's wall is the one reported");
    // Facing east from x = 28.5 the block starting at x = 29 is half a cell away.
    assert_eq!(depth[20], ONE / 2);
    assert!(depth.iter().all(|&d| d < FX_MAX));
    assert_eq!(st.1, 40, "every column closes against the block in front");
}

#[test]
fn an_empty_frame_casts_nothing() {
    let shadow = ShadowMap::none(SIDE as usize);
    let mut f = Frame::new(0, 10);
    let mut depth = vec![7; 3];
    let st = render_to(height, flat, lot_at, site_at, &shadow, &camera(), &Atmos::default(), &mut f, &mut depth);
    assert_eq!(st, (0, 0, FX_MAX));
    assert!(depth.is_empty());
}

#[test]
fn a_column_draws_in_its_own_column_only() {
    let shadow = ShadowMap::none(SIDE as usize);
    let atmos = Atmos::default();
    let light = Light::of(&atmos);
    let cam = Camera { x: 28 * ONE + ONE / 2, y: 33 * ONE + ONE / 2, ..camera() };
    let mut f = Frame::new(10, 12);
    let before = f.cels.clone();
    let proj = fixed::from_int(10);
    let (steps, closed, nearest) =
        lib::raycast::column(&height, &flat, &lot_at, &shadow, &cam, &atmos, &mut f, 3, ONE, 0, 6, proj, fixed::from_int(50), &light);
    assert_eq!((steps, closed, nearest), (1, 1, ONE / 2), "one step east into the wall, which fills the column");
    for y in 0..12 {
        for x in 0..10 {
            if x != 3 {
                assert_eq!(f.cels[y * 10 + x], before[y * 10 + x]);
            }
        }
    }
    assert!((0..12).all(|y| f.cels[y * 10 + 3] != before[y * 10 + 3]), "the wall fills the whole column");
}
