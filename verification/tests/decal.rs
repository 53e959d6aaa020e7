use lib::atmos::Atmos;
use lib::camera::Camera;
use lib::decal::{norm, ring};
use lib::fixed::{self, Fx, ONE};
use lib::frame::{Cel, Frame};
use lib::raycast::{scale, Proj};

fn view() -> (Camera, Atmos, Frame, Vec<Fx>, Proj) {
    let cam = Camera::default();
    let atmos = Atmos::default();
    let f = Frame::new(80, 24);
    let depth = vec![fixed::from_int(1000); 80];
    let p = Proj { w: 80, h: 24, horizon: 12, proj: scale(80, cam.fov), eye: cam.z };
    (cam, atmos, f, depth, p)
}

/// The octagonal norm: the larger component plus three eighths of the
/// smaller.
#[test]
fn the_norm_is_octagonal() {
    assert_eq!(norm(ONE, 0), ONE);
    assert_eq!(norm(0, -ONE), ONE);
    assert_eq!(norm(8 * ONE, -8 * ONE), 11 * ONE);
}

/// A ring on the road ahead is painted below the horizon, with the road
/// still showing inside it; one behind the camera is not painted at all.
#[test]
fn a_ring_ahead_is_painted_and_one_behind_is_not() {
    let (cam, atmos, mut f, depth, p) = view();
    let drawn = ring(&mut f, &depth, &cam, &atmos, &p, cam.x + fixed::from_int(4), cam.y, ONE, fixed::ratio(1, 4), 77, 7, 6);
    assert!(drawn);
    let painted: Vec<(i32, i32)> =
        (0..24).flat_map(|y| (0..80).map(move |x| (x, y))).filter(|&(x, y)| f.get(x, y).glyph == 77).collect();
    assert!(!painted.is_empty());
    assert!(painted.iter().all(|&(_, y)| y > 12), "paint above the horizon: {painted:?}");
    let rows: Vec<i32> = painted.iter().map(|&(_, y)| y).collect();
    let (top, bottom) = (*rows.iter().min().unwrap(), *rows.iter().max().unwrap());
    let middle = (top + bottom) / 2;
    assert!((0..80).any(|x| f.get(x, middle).glyph != 77), "the ring is a solid disc");

    let (cam, atmos, mut f, depth, p) = view();
    assert!(!ring(&mut f, &depth, &cam, &atmos, &p, cam.x - fixed::from_int(6), cam.y, ONE, fixed::ratio(1, 4), 77, 7, 6));
    assert!(f.cels.iter().all(|c| *c == Cel::empty()));
}

/// A wall nearer than the ring hides it.
#[test]
fn a_ring_behind_a_wall_is_hidden() {
    let (cam, atmos, mut f, _, p) = view();
    let walled = vec![fixed::ratio(1, 2); 80];
    assert!(!ring(&mut f, &walled, &cam, &atmos, &p, cam.x + fixed::from_int(4), cam.y, ONE, fixed::ratio(1, 4), 77, 7, 6));
}
