use lib::camera::Camera;
use lib::catalog;
use lib::fixed::{self, Fx, ONE};
use lib::palette;
use lib::sprite::{aspect, paint_face, silhouette, Body, Stamp, SIGN_BAND};
use lib::trig::{self, Ang};

fn to_f32(a: Fx) -> f32 {
    a as f32 / ONE as f32
}

/// Degrees to a turn-wrapping angle.
fn deg(d: f64) -> Ang {
    ((d / 360.0 * 65536.0).round() as i64 & 0xffff) as Ang
}

#[test]
fn every_stamp_has_eight_rows_of_eight() {
    for s in [
        Stamp::LampPost,
        Stamp::Signal,
        Stamp::Hydrant,
        Stamp::Mailbox,
        Stamp::Tree,
        Stamp::Bollard,
        Stamp::Meter,
        Stamp::Ped,
        Stamp::Coin,
        Stamp::Pickup,
        Stamp::Debris,
    ] {
        let art = s.art();
        assert_eq!(art.len(), 8, "{s:?} has the wrong number of rows");
        for (i, row) in art.iter().enumerate() {
            assert_eq!(row.len(), 8, "{s:?} row {i} is {:?}", row);
            assert!(row.is_ascii(), "{s:?} row {i} is not ASCII");
        }
    }
}

#[test]
fn a_painted_car_has_all_of_its_parts_at_any_size() {
    let sky = (palette::H_BLUE, 5);
    for body_rows in [6, 7, 8, 10, 12, 16, 20, 30, 40] {
        let rows = body_rows * 5 / 4;
        let mut glass = 0;
        let mut lamp = 0;
        let mut wheel = 0;
        let mut band = 0;
        for r in 0..rows {
            let v = fixed::div(fixed::from_int(r) + fixed::HALF, fixed::from_int(rows));
            for c in 0..rows * 2 {
                let u = fixed::div(fixed::from_int(c) + fixed::HALF, fixed::from_int(rows * 2));
                for side in [false, true] {
                    let Some((_, hue, luma)) =
                        paint_face(Body::Taxi, side, u, v, palette::H_YELLOW, 2, sky, 0, rows, rows * 2)
                    else {
                        continue;
                    };
                    if hue == sky.0 {
                        glass += 1;
                    }
                    if hue == palette::H_RED && luma == 7 {
                        lamp += 1;
                    }
                    let bv = fixed::div(v - SIGN_BAND, ONE - SIGN_BAND);
                    if hue == palette::H_BLACK && bv > fixed::ratio(70, 100) {
                        wheel += 1;
                    }
                    if hue == palette::H_BLACK && bv > 0 && bv < fixed::ratio(70, 100) {
                        band += 1;
                    }
                }
            }
        }
        assert!(glass > 0, "{body_rows} rows: no windscreen");
        assert!(lamp > 0, "{body_rows} rows: no brake lights");
        assert!(wheel > 0, "{body_rows} rows: no wheels");
        assert!(band > 0, "{body_rows} rows: no chequer band");
    }
}

#[test]
fn a_car_seen_side_on_has_wheels_in_arches() {
    let sky = (palette::H_BLUE, 5);
    let rows = 24;
    let row = |v: Fx| {
        let mut black = 0;
        let mut body = 0;
        for c in 0..rows * 2 {
            let u = fixed::div(fixed::from_int(c) + fixed::HALF, fixed::from_int(rows * 2));
            match paint_face(Body::Saloon, true, u, v, palette::H_RED, 0, sky, 0, 24, 48) {
                Some((_, palette::H_BLACK, _)) => black += 1,
                Some((_, h, _)) if h == palette::H_RED => body += 1,
                _ => {}
            }
        }
        (black, body)
    };
    let (black, body) = row(fixed::ratio(85, 100));
    assert!(black >= 4, "only {black} cells of wheel across the bottom of the car");
    assert!(body > 0, "the bottom of the car is all wheel - no sill between the arches");
    let (black, _) = row(fixed::ratio(60, 100));
    assert_eq!(black, 0, "black in the middle of the door");
}

#[test]
fn the_windows_reflect_the_sky() {
    for hue in [palette::H_BLUE, palette::H_ORANGE, palette::H_GREEN] {
        let mut found = false;
        for r in 0..16 {
            let v = fixed::div(fixed::from_int(r) + fixed::HALF, fixed::from_int(16));
            let got = paint_face(Body::Saloon, false, fixed::HALF, v, palette::H_RED, 0, (hue, 5), 0, 24, 48);
            if let Some((_, h, _)) = got {
                if h == hue {
                    found = true;
                }
                assert!(
                    h == hue || h == palette::H_RED || h == palette::H_WHITE || h == palette::H_BLACK,
                    "a car painted in {hue} has a {h} panel"
                );
            }
        }
        assert!(found, "no window took the sky's {hue}");
    }
}

#[test]
fn a_car_is_as_long_from_the_side_as_it_is_wide_from_behind() {
    let (len, wid) = (fixed::from_int(2), fixed::ratio(6, 5));
    let (w, side) = silhouette(len, wid, 0, ONE, 0);
    assert_eq!(w, wid, "a car seen down its own length should be its width");
    assert!(!side);
    let (w, side) = silhouette(len, wid, 0, 0, ONE);
    assert_eq!(w, len, "a car seen broadside should be its length");
    assert!(side);
}

#[test]
fn the_silhouette_is_between_the_width_and_the_length() {
    let (len, wid) = (fixed::from_int(2), fixed::ratio(6, 5));
    let slack = fixed::mul(len, fixed::ratio(1, 20));
    for yaw in (0..65_536).step_by(1_021) {
        for view in (0..65_536).step_by(997) {
            let (vx, vy) = (trig::cos(view as Ang), trig::sin(view as Ang));
            let (w, side) = silhouette(len, wid, yaw as Ang, vx, vy);
            assert!(w >= wid - slack && w <= len + wid, "yaw {yaw} view {view} gave {}", to_f32(w));
            if side {
                assert!(w > wid - slack, "yaw {yaw} view {view} claims side-on at {}", to_f32(w));
            }
        }
    }
}

#[test]
fn a_car_is_seen_from_wherever_you_are_standing() {
    let (len, wid) = (fixed::from_int(2), fixed::from_int(1));
    let mut last: Option<Fx> = None;
    let mut worst = 0;
    for d in 0..360 {
        let a = deg(d as f64);
        let (vx, vy) = (-trig::cos(a), -trig::sin(a));
        let asp = aspect(len, wid, 0, vx, vy);
        assert!(asp.end >= 0 && asp.end <= ONE, "{d}: end fraction {}", to_f32(asp.end));
        if let Some(p) = last {
            worst = worst.max(fixed::abs(asp.end - p));
        }
        last = Some(asp.end);
    }
    assert!(worst < ONE / 10, "the view jumped by {} of a card in one degree", to_f32(worst));
}

#[test]
fn the_seam_is_where_the_corner_of_the_car_is() {
    let (len, wid) = (fixed::from_int(2), fixed::from_int(1));
    let at = |d: f64| {
        let a = deg(d);
        aspect(len, wid, 0, -trig::cos(a), -trig::sin(a))
    };
    let front = at(0.0);
    assert!(front.end > ONE - ONE / 20, "ahead is {} end", to_f32(front.end));
    assert!(front.front, "standing in front reports the back");
    let back = at(180.0);
    assert!(back.end > ONE - ONE / 20, "astern is {} end", to_f32(back.end));
    assert!(!back.front, "standing behind reports the front");
    let side = at(90.0);
    assert!(side.end < ONE / 20, "broadside is {} end", to_f32(side.end));
    let q = at(45.0);
    assert!(q.end > ONE / 5 && q.end < ONE * 3 / 5, "three-quarters is {} end", to_f32(q.end));
    let other = at(-45.0);
    assert_ne!(q.end_left, other.end_left, "the boot is on the same side from both quarters");
}

#[test]
fn the_lit_side_of_a_car_follows_the_sun() {
    let cam = Camera { yaw: trig::QUARTER, ..Default::default() };
    let sun = |d: f64| {
        let (sx, sy) = (trig::cos(deg(d)), trig::sin(deg(d)));
        let (dx, dy) = cam.dir();
        fixed::clamp(fixed::mul(sx, -dy) + fixed::mul(sy, dx), -ONE, ONE)
    };
    let dawn = sun(0.0);
    let dusk = sun(180.0);
    assert!(dawn != 0, "the morning sun is edge on to the camera");
    assert!((dawn > 0) != (dusk > 0), "the sun set on the same side it rose: {} then {}", to_f32(dawn), to_f32(dusk));

    let sky = (palette::H_BLUE, 5u8);
    let lit = |key: Fx| -> (i32, i32) {
        let (mut l, mut r) = (0, 0);
        for row in 4..20 {
            let v = fixed::ratio(row, 24);
            for col in 4..44 {
                let u = fixed::ratio(col, 48);
                let Some((g, _, luma)) = paint_face(Body::Saloon, false, u, v, palette::H_RED, 0, sky, key, 24, 48)
                else {
                    continue;
                };
                if g != catalog::G_SOLID {
                    continue;
                }
                if u < fixed::HALF {
                    l += luma as i32
                } else {
                    r += luma as i32
                }
            }
        }
        (l, r)
    };
    let (fl, fr) = lit(fixed::ratio(4, 5));
    let (nl, nr) = lit(-fixed::ratio(4, 5));
    assert!(fr > fl, "the sun on the right did not light the right: {fl} against {fr}");
    assert!(nl > nr, "the sun on the left did not light the left: {nl} against {nr}");
}

#[test]
fn a_car_fades_into_the_sky_at_its_edges() {
    let sky = (palette::H_BLUE, 5u8);
    let at = |u: Fx| paint_face(Body::Saloon, false, u, fixed::ratio(60, 100), palette::H_RED, 0, sky, 0, 24, 48);
    let (mg, mh, _) = at(fixed::HALF).expect("no car in the middle of the card");
    assert_eq!(mh, palette::H_RED, "the middle of the car is not the car's colour");
    assert_eq!(mg, catalog::G_SOLID, "the middle of the car is see-through");
    let mut rim_seen = 0;
    let mut thinnest = 8;
    for i in 0..48 {
        let u = fixed::ratio(i, 48);
        let Some((g, h, _)) = at(u) else { continue };
        if h == sky.0 {
            rim_seen += 1;
            let cover = if g == catalog::G_SOLID { 8 } else { g - catalog::G_DITHER + 1 };
            thinnest = thinnest.min(cover);
        }
    }
    assert!(rim_seen >= 2, "only {rim_seen} cells of rim on a whole card");
    assert!(thinnest < 8, "the rim is solid all the way to the silhouette");
}

#[test]
fn the_cab_has_a_roof_sign_on_a_bracket() {
    let sky = (palette::H_BLUE, 5u8);
    let (rows, cols) = (60, 240);
    let (mut lit, mut ink, mut leg, mut air) = (0, 0, 0, 0);
    for r in 0..rows {
        let v = fixed::div(fixed::from_int(r) + fixed::HALF, fixed::from_int(rows));
        if v >= SIGN_BAND {
            break;
        }
        for c in 0..cols {
            let u = fixed::div(fixed::from_int(c) + fixed::HALF, fixed::from_int(cols));
            match paint_face(Body::Taxi, false, u, v, palette::H_YELLOW, 0, sky, 0, rows, cols) {
                None => air += 1,
                Some((_, h, l)) if h == palette::H_YELLOW && l == 7 => lit += 1,
                Some((_, h, _)) if h == palette::H_BLACK => ink += 1,
                Some((_, h, _)) if h == sky.0 => leg += 1,
                Some(_) => {}
            }
        }
    }
    assert!(lit > 0, "the sign is not lit");
    assert!(ink > 0, "nothing is written on the sign");
    assert!(leg > 0, "the sign has no bracket under it");
    assert!(air > 0, "the sign fills the whole band; there is no sky beside it");
    for r in 0..rows {
        let v = fixed::div(fixed::from_int(r) + fixed::HALF, fixed::from_int(rows));
        if v >= SIGN_BAND {
            break;
        }
        let got = paint_face(Body::Saloon, false, fixed::HALF, v, palette::H_RED, 0, sky, 0, rows, cols);
        assert!(!matches!(got, Some((_, h, 7)) if h == palette::H_YELLOW), "a saloon is wearing a taxi sign");
    }
}

#[test]
fn the_three_bodies_have_three_silhouettes() {
    let sky = (palette::H_BLUE, 5u8);
    let glass_ends = |body: Body| -> Fx {
        let mut last = 0;
        for i in 0..100 {
            let v = fixed::ratio(i, 100);
            if let Some((_, hue, _)) = paint_face(body, true, fixed::HALF, v, palette::H_RED, 0, sky, 0, 24, 48) {
                if hue == sky.0 {
                    last = v;
                }
            }
        }
        last
    };
    let (jeep, saloon, boat) = (glass_ends(Body::Jeep), glass_ends(Body::Saloon), glass_ends(Body::Boat));
    assert!(jeep > saloon, "a jeep is not glassier than a saloon: {} against {}", to_f32(jeep), to_f32(saloon));
    assert!(saloon > boat, "a land yacht is not lower than a saloon: {} against {}", to_f32(saloon), to_f32(boat));
}

use lib::atmos::Atmos;
use lib::frame::{Cel, Frame};
use lib::raycast::{scale, Proj};
use lib::sprite::{draw, draw_all, Billboard};

/// A frame, an open view with no walls, and the projection drawn with.
fn open_view() -> (Camera, Atmos, Frame, Vec<Fx>, Proj) {
    let cam = Camera::default();
    let atmos = Atmos::default();
    let f = Frame::new(80, 24);
    let depth = vec![fixed::from_int(1000); 80];
    let p = Proj { w: 80, h: 24, horizon: 12, proj: scale(80, cam.fov), eye: cam.z };
    (cam, atmos, f, depth, p)
}

/// A person a few cells ahead is drawn, in the middle of the screen and
/// below the horizon; one behind the camera, one past the haze and one
/// behind a nearer wall are not.
#[test]
fn a_billboard_is_drawn_where_it_stands_and_nowhere_else() {
    let (cam, atmos, mut f, depth, p) = open_view();
    let ahead = Billboard::upright(Stamp::Ped, cam.x + fixed::from_int(3), cam.y, fixed::ratio(1, 3), ONE, palette::H_PINK);
    assert!(draw(&mut f, &depth, &cam, &atmos, &p, &ahead));
    let lit: Vec<(i32, i32)> =
        (0..24).flat_map(|y| (0..80).map(move |x| (x, y))).filter(|&(x, y)| f.get(x, y) != Cel::empty()).collect();
    assert!(!lit.is_empty());
    assert!(lit.iter().all(|&(x, _)| (30..50).contains(&x)), "the person is off to one side: {lit:?}");
    assert!(lit.iter().any(|&(_, y)| y >= 12), "the person is floating above the horizon");

    let (cam, atmos, mut f, depth, p) = open_view();
    let behind = Billboard::upright(Stamp::Ped, cam.x - fixed::from_int(3), cam.y, fixed::ratio(1, 3), ONE, palette::H_PINK);
    assert!(!draw(&mut f, &depth, &cam, &atmos, &p, &behind));
    assert!(f.cels.iter().all(|c| *c == Cel::empty()));
    let far = Billboard::upright(Stamp::Ped, cam.x + fixed::from_int(300), cam.y, fixed::ratio(1, 3), ONE, palette::H_PINK);
    assert!(!draw(&mut f, &depth, &cam, &atmos, &p, &far));
    let walled = vec![fixed::from_int(1); 80];
    assert!(!draw(&mut f, &walled, &cam, &atmos, &p, &ahead));
    assert!(f.cels.iter().all(|c| *c == Cel::empty()));
}

/// Several boards are drawn furthest first, and every one is listed once.
#[test]
fn a_crowd_is_drawn_furthest_first() {
    let (cam, atmos, mut f, depth, p) = open_view();
    let mut boards: Vec<Billboard> = (1..6)
        .map(|i| Billboard::upright(Stamp::Hydrant, cam.x + fixed::from_int(i * 2), cam.y + fixed::ratio(i, 4), fixed::ratio(1, 2), ONE, palette::H_RED))
        .collect();
    let mut order = Vec::new();
    draw_all(&mut f, &depth, &cam, &atmos, &p, &mut boards, &mut order);
    assert_eq!(order.len(), 5);
    assert!(order.windows(2).all(|w| w[0].0 >= w[1].0), "not furthest first: {order:?}");
    let mut seen: Vec<usize> = order.iter().map(|&(_, i)| i).collect();
    seen.sort();
    assert_eq!(seen, vec![0, 1, 2, 3, 4]);
    assert_eq!(order[0].1, 4, "the furthest board is not drawn first");
    assert!(f.cels.iter().any(|c| *c != Cel::empty()));
}

#[test]
fn something_right_in_front_of_the_camera_gets_drawn() {
    let (cam, atmos, mut f, depth, p) = open_view();
    let (dx, dy) = cam.dir();
    let b = Billboard::upright(
        Stamp::LampPost,
        cam.x + fixed::mul(dx, fixed::from_int(2)),
        cam.y + fixed::mul(dy, fixed::from_int(2)),
        fixed::ratio(1, 2),
        fixed::from_int(2),
        palette::H_WHITE,
    );
    assert!(draw(&mut f, &depth, &cam, &atmos, &p, &b), "nothing was drawn");
}

#[test]
fn something_behind_the_camera_is_not_drawn() {
    let (cam, atmos, mut f, depth, p) = open_view();
    let (dx, dy) = cam.dir();
    let b = Billboard::upright(
        Stamp::Car,
        cam.x - fixed::mul(dx, fixed::from_int(4)),
        cam.y - fixed::mul(dy, fixed::from_int(4)),
        ONE,
        ONE,
        palette::H_YELLOW,
    );
    assert!(!draw(&mut f, &depth, &cam, &atmos, &p, &b));
}

#[test]
fn something_beyond_the_draw_distance_is_not_drawn() {
    let (cam, atmos, mut f, depth, p) = open_view();
    let (dx, dy) = cam.dir();
    let far = fixed::from_int(lib::atmos::draw_distance(atmos.haze) + 20);
    let b = Billboard::upright(
        Stamp::Car,
        cam.x + fixed::mul(dx, far),
        cam.y + fixed::mul(dy, far),
        ONE,
        ONE,
        palette::H_YELLOW,
    );
    assert!(!draw(&mut f, &depth, &cam, &atmos, &p, &b));
}

#[test]
fn a_sprite_behind_a_wall_is_hidden() {
    let (cam, atmos, mut f, _, p) = open_view();
    // A wall six units away across the whole view.
    let depth = vec![fixed::from_int(6); p.w as usize];
    let mid = depth[p.w as usize / 2];
    let (dx, dy) = cam.dir();
    let d = mid + fixed::from_int(3);
    let b = Billboard::upright(Stamp::Car, cam.x + fixed::mul(dx, d), cam.y + fixed::mul(dy, d), ONE, ONE, palette::H_YELLOW);
    assert!(!draw(&mut f, &depth, &cam, &atmos, &p, &b), "drew a car through a building");
}

#[test]
fn a_sprite_gets_smaller_as_it_gets_further_away() {
    let (cam, atmos, mut f, depth, p) = open_view();
    let (dx, dy) = cam.dir();
    let filled = |d: i32, f: &mut Frame| {
        f.clear();
        let b = Billboard::upright(
            Stamp::Bus,
            cam.x + fixed::mul(dx, fixed::from_int(d)),
            cam.y + fixed::mul(dy, fixed::from_int(d)),
            ONE,
            ONE,
            palette::H_YELLOW,
        );
        draw(f, &depth, &cam, &atmos, &p, &b);
        f.cels.iter().filter(|c| **c != Cel::empty()).count()
    };
    let near = filled(2, &mut f);
    let far = filled(6, &mut f);
    assert!(near > far, "a bus at 2 units ({near}) is no bigger than one at 6 ({far})");
    assert!(far > 0, "the far bus vanished entirely");
}

#[test]
fn a_sprite_off_to_the_side_lands_off_to_the_side() {
    let (mut cam, atmos, mut f, depth, p) = open_view();
    cam.yaw = 0;
    let put = |ang: f64, f: &mut Frame| -> Option<i32> {
        f.clear();
        let a = deg(ang);
        let b = Billboard::upright(
            Stamp::Coin,
            cam.x + fixed::mul(trig::cos(a), fixed::from_int(4)),
            cam.y + fixed::mul(trig::sin(a), fixed::from_int(4)),
            ONE,
            ONE,
            palette::H_YELLOW,
        );
        draw(f, &depth, &cam, &atmos, &p, &b);
        (0..p.w).find(|&x| (0..p.h).any(|y| f.get(x, y) != Cel::empty()))
    };
    let left = put(-15.0, &mut f);
    let right = put(15.0, &mut f);
    if let (Some(l), Some(r)) = (left, right) {
        assert!(l < r, "a sprite to the left ({l}) drew right of one to the right ({r})");
    }
}

#[test]
fn drawing_a_crowd_never_panics() {
    let (cam, atmos, mut f, depth, p) = open_view();
    let mut boards: Vec<Billboard> = (0..200)
        .map(|i| {
            let mut b = Billboard::upright(
                Stamp::Ped,
                cam.x + fixed::ratio(i % 37 - 18, 2),
                cam.y + fixed::ratio(i / 37 - 2, 2),
                fixed::ratio(1, 3),
                ONE,
                palette::H_PINK,
            );
            b.lean = (i % 9) as u8;
            b.phase = (i % 3) as u8;
            b
        })
        .collect();
    let mut order = Vec::new();
    draw_all(&mut f, &depth, &cam, &atmos, &p, &mut boards, &mut order);
    assert_eq!(order.len(), 200);
}
