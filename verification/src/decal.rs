//! Paint on the ground: markings that belong to the simulation rather than
//! to the map.
//!
//! A fare's stopping circle moves every time a passenger is set down, so it
//! is drawn afterwards, over the finished ground, by *inverting* the floor
//! projection: a screen row below the horizon is a known distance away, and
//! a column is a known direction, so the world point under any ground
//! character can be recovered in two multiplies.  Only the rectangle the
//! ring projects forwards onto is inverted, and it is a ring rather than a
//! disc so the road inside it stays visible.
use vstd::prelude::*;
use crate::atmos::{Atmos, draw_distance_of};
use crate::camera::Camera;
use crate::catalog::GlyphId;
use crate::fixed::{self, Fx, ONE, fx_mul, fx_div, fx_floor, from_int_of, trunc_div};
use crate::frame::{Cel, Frame, on_screen};
use crate::raycast::{Proj, CELL_ASPECT};
use crate::palette;
use crate::trig::{self, sin_of, cos_of};

verus! {

/// The value of [`norm`].
pub open spec fn norm_of(dx: Fx, dy: Fx) -> int {
    let (a, b) = (vstd::math::abs(dx as int) as int, vstd::math::abs(dy as int) as int);
    let (hi, lo) = if a > b { (a, b) } else { (b, a) };
    hi + fx_mul(lo as i32, 24576)
}

/// Octagonal distance from the centre: within about six per cent of a
/// circle, and no square root.
pub fn norm(dx: Fx, dy: Fx) -> (r: Fx)
    requires
        -0x5c00_0000 <= dx <= 0x5c00_0000,
        -0x5c00_0000 <= dy <= 0x5c00_0000,
    ensures
        r == norm_of(dx, dy),
{
    let (a, b) = (fixed::abs(dx), fixed::abs(dy));
    let (hi, lo) = if a > b { (a, b) } else { (b, a) };
    proof {
        fixed::lemma_mul_fraction(lo, 24576);
    }
    hi + fixed::mul(lo, 24576)
}

/// Where the ring is in camera space and which rectangle of the screen it
/// can land in.
pub struct RingBox {
    /// Sideways distance of the centre in camera space.
    pub tx: int,
    /// Forward distance of the centre in camera space.
    pub ty: int,
    /// The outer radius.
    pub outer: int,
    /// The first row.
    pub y0: int,
    /// The last row.
    pub y1: int,
    /// The first column.
    pub x0: int,
    /// The last column.
    pub x1: int,
}

/// The screen row ground `d` away is drawn on; the bottom of the screen
/// for anything nearer than a sixteenth.
pub open spec fn row_at(p: Proj, d: int) -> int {
    if d <= 4096 {
        p.h as int
    } else {
        p.horizon + fx_floor(fx_div(fx_mul(p.eye, p.proj), d as i32))
    }
}

/// The rectangle [`ring`] inverts, or `None` where it draws nothing at all.
pub open spec fn ring_box(cam: Camera, p: Proj, haze: u8, cx: Fx, cy: Fx, radius: Fx, thickness: Fx) -> Option<RingBox> {
    let (dx, dy) = (cos_of(cam.yaw), sin_of(cam.yaw));
    let (px, py) = (fx_mul((-dy) as i32, cam.fov), fx_mul(dx, cam.fov));
    let det = (fx_mul(px, dy) - fx_mul(dx, py)) as i32;
    let (rx, ry) = ((cx - cam.x) as i32, (cy - cam.y) as i32);
    let tx = fx_div((fx_mul(dy, rx) - fx_mul(dx, ry)) as i32, det) as int;
    let ty = fx_div((fx_mul(px, ry) - fx_mul(py, rx)) as i32, det) as int;
    let outer = radius + thickness;
    let ya = row_at(p, ty + outer);
    let ya = if ya > p.horizon + 1 { ya } else { p.horizon + 1 };
    let y0 = if ya > 0 { ya } else { 0 };
    let yb = row_at(p, ty - outer);
    let y1 = if yb < p.h - 1 { yb } else { p.h - 1 };
    let (x0, x1) = if ty <= outer {
        (0, p.w - 1)
    } else {
        let centre = fx_mul(from_int_of(trunc_div(p.w as int, 2)), (ONE + fx_div(tx as i32, ty as i32)) as i32);
        let h0 = fx_floor(fx_div(fx_mul(fx_mul(outer as i32, p.proj), from_int_of(CELL_ASPECT as int)), ty as i32));
        let half = if h0 > 1 { h0 } else { 1 };
        let l = fx_floor(centre) - half;
        let r = fx_floor(centre) + half;
        (if l > 0 { l } else { 0 }, if r < p.w - 1 { r } else { p.w - 1 })
    };
    if p.w == 0 || p.h == 0 || p.horizon >= p.h || det == 0 || ty + outer < 8192 || ty - outer > draw_distance_of(haze) * 65536
        || y0 > y1 || x0 > x1 {
        None
    } else {
        Some(RingBox { tx, ty, outer, y0, y1, x0, x1 })
    }
}

/// How far away the ground under screen row `y` is.
pub open spec fn ground_dist(p: Proj, y: int) -> Fx {
    fx_div(fx_mul(p.eye, p.proj), from_int_of(y - p.horizon))
}

/// Whether the ground under screen cell `(x, y)`, `d` away, is on the
/// ring: its octagonal distance from the centre is between the inner and
/// the outer radius.
pub open spec fn on_ring(cam: Camera, p: Proj, cx: Fx, cy: Fx, radius: Fx, thickness: Fx, d: Fx, x: int) -> bool {
    let (dx, dy) = (cos_of(cam.yaw), sin_of(cam.yaw));
    let (px, py) = (fx_mul((-dy) as i32, cam.fov), fx_mul(dx, cam.fov));
    let camx = fx_div(from_int_of(2 * x), from_int_of(p.w as int)) - ONE;
    let wx = cam.x + fx_mul((dx + fx_mul(px, camx as i32)) as i32, d);
    let wy = cam.y + fx_mul((dy + fx_mul(py, camx as i32)) as i32, d);
    let r = norm_of((wx - cx) as i32, (wy - cy) as i32);
    let inner = if radius - thickness > 0 { radius - thickness } else { 0 };
    inner <= r <= radius + thickness
}

/// Whether [`ring`] paints screen cell `(x, y)`: in the rectangle, not
/// behind a wall nearer than the ground there, and on the ring.
pub open spec fn rings_at(
    cam: Camera,
    a: Atmos,
    p: Proj,
    depth: Seq<Fx>,
    cx: Fx,
    cy: Fx,
    radius: Fx,
    thickness: Fx,
    x: int,
    y: int,
) -> bool {
    match ring_box(cam, p, a.haze, cx, cy, radius, thickness) {
        Some(bx) => {
            let d = ground_dist(p, y);
            &&& bx.y0 <= y <= bx.y1
            &&& bx.x0 <= x <= bx.x1
            &&& !(x < depth.len() && depth[x] < d)
            &&& on_ring(cam, p, cx, cy, radius, thickness, d, x)
        },
        None => false,
    }
}

/// Whether [`ring`]'s arithmetic fits in 32 bits: the camera within a
/// quarter of the number range of the origin, the ring within five
/// hundred cells of it, the lens no wider than a field of view is ever
/// clamped to, and a frame, and its horizon, within the sixteen thousand
/// rows and columns a fixed-point coordinate can count twice over.
pub open spec fn ring_fits(cam: Camera, p: Proj, haze: u8, cx: Fx, cy: Fx, radius: Fx, thickness: Fx) -> bool {
    let (dx, dy) = (cos_of(cam.yaw), sin_of(cam.yaw));
    let (px, py) = (fx_mul((-dy) as i32, cam.fov), fx_mul(dx, cam.fov));
    let det = (fx_mul(px, dy) - fx_mul(dx, py)) as i32;
    let (rx, ry) = ((cx - cam.x) as i32, (cy - cam.y) as i32);
    let tx = fx_div((fx_mul(dy, rx) - fx_mul(dx, ry)) as i32, det) as int;
    let ty = fx_div((fx_mul(px, ry) - fx_mul(py, rx)) as i32, det) as int;
    &&& -0x2000_0000 <= cam.x <= 0x2000_0000
    &&& -0x2000_0000 <= cam.y <= 0x2000_0000
    &&& -0x0200_0000 <= cx - cam.x <= 0x0200_0000
    &&& -0x0200_0000 <= cy - cam.y <= 0x0200_0000
    &&& -0x0014_0000 <= cam.fov <= 0x0014_0000
    &&& 0 <= radius <= 0x0100_0000
    &&& 0 <= thickness <= 0x0100_0000
    &&& -0x0100_0000 <= fx_mul(p.eye, p.proj) <= 0x0100_0000
    &&& -0x4000 <= p.horizon
    &&& p.h <= 0x4000
    &&& i32::MIN < p.w <= 0x4000
    &&& (det != 0 && ty > radius + thickness) ==> i32::MIN <= ONE + fx_div(tx as i32, ty as i32) <= i32::MAX
}

/// Paint a ring on the ground, clipped against the buildings.
///
/// `radius` and `thickness` are in world cells.  `depth` is the per-column
/// wall distance the wall pass left behind, so the ring disappears behind
/// a building rather than being painted over it.  Returns whether any of
/// it landed.
pub fn ring(
    f: &mut Frame,
    depth: &[Fx],
    cam: &Camera,
    atmos: &Atmos,
    p: &Proj,
    cx: Fx,
    cy: Fx,
    radius: Fx,
    thickness: Fx,
    glyph: GlyphId,
    hue: u8,
    luma: u8,
) -> (drawn: bool)
    requires
        old(f).wf(),
        ring_fits(*cam, *p, atmos.haze, cx, cy, radius, thickness),
    ensures
        final(f).wf(),
        final(f).w == old(f).w && final(f).h == old(f).h,
        forall|x: int, y: int| #[trigger] final(f).cell(x, y) == if on_screen(old(f).w as int, old(f).h as int, x, y)
            && rings_at(*cam, *atmos, *p, depth@, cx, cy, radius, thickness, x, y) {
            Cel {
                glyph,
                color: palette::pack(hue, if luma >= atmos.fade_of(ground_dist(*p, y)) { (luma - atmos.fade_of(ground_dist(*p, y))) as u8 } else { 0 }),
            }
        } else {
            old(f).cell(x, y)
        },
        drawn == exists|x: int, y: int| rings_at(*cam, *atmos, *p, depth@, cx, cy, radius, thickness, x, y),
{
    let ghost bx = ring_box(*cam, *p, atmos.haze, cx, cy, radius, thickness);
    let ghost f0 = *f;
    if p.w == 0 || p.h == 0 || p.horizon >= p.h {
        return false;
    }
    proof {
        trig::lemma_table_bounds(cam.yaw);
    }
    let (dx, dy) = cam.dir();
    let (px, py) = cam.plane();
    proof {
        fixed::lemma_mul_bound((-dy) as i32, cam.fov, 65536, 0x0014_0000);
        fixed::lemma_mul_bound(dx, cam.fov, 65536, 0x0014_0000);
        fixed::lemma_mul_bound(px, dy, 0x0014_0001, 65536);
        fixed::lemma_mul_bound(dx, py, 65536, 0x0014_0001);
    }
    let det = fixed::mul(px, dy) - fixed::mul(dx, py);
    if det == 0 {
        return false;
    }
    let (rx, ry) = (cx - cam.x, cy - cam.y);
    proof {
        fixed::lemma_mul_bound(dy, rx, 65536, 0x0200_0000);
        fixed::lemma_mul_bound(dx, ry, 65536, 0x0200_0000);
        fixed::lemma_mul_bound(px, ry, 0x0014_0001, 0x0200_0000);
        fixed::lemma_mul_bound(py, rx, 0x0014_0001, 0x0200_0000);
    }
    let tx = fixed::div(fixed::mul(dy, rx) - fixed::mul(dx, ry), det);
    let ty = fixed::div(fixed::mul(px, ry) - fixed::mul(py, rx), det);
    let outer = radius + thickness;
    if ty < 8192 - outer {
        return false;
    }
    if ty > fixed::from_int(crate::atmos::draw_distance(atmos.haze)) + outer {
        return false;
    }
    let ya = row_at_exec(p, ty + outer);
    let ya = if ya > p.horizon + 1 { ya } else { p.horizon + 1 };
    let y0 = if ya > 0 { ya } else { 0 };
    let yb = row_at_exec(p, ty - outer);
    let y1 = if yb < p.h - 1 { yb } else { p.h - 1 };
    if y0 > y1 {
        return false;
    }
    let (x0, x1) = if ty <= outer {
        (0, p.w - 1)
    } else {
        let centre = fixed::mul(fixed::from_int(p.w / 2), ONE + fixed::div(tx, ty));
        let h0 = fixed::floor(fixed::div(fixed::mul(fixed::mul(outer, p.proj), fixed::from_int(CELL_ASPECT)), ty));
        let half = if h0 > 1 { h0 } else { 1 };
        let l = fixed::floor(centre) - half;
        let r = fixed::floor(centre) + half;
        (if l > 0 { l } else { 0 }, if r < p.w - 1 { r } else { p.w - 1 })
    };
    if x0 > x1 {
        return false;
    }
    assert(bx == Some(RingBox { tx: tx as int, ty: ty as int, outer: outer as int, y0: y0 as int, y1: y1 as int, x0: x0 as int, x1: x1 as int }));
    let mut drawn = false;
    let mut y = y0;
    while y <= y1
        invariant
            f.wf(),
            f.w == f0.w && f.h == f0.h,
            ring_fits(*cam, *p, atmos.haze, cx, cy, radius, thickness),
            bx == ring_box(*cam, *p, atmos.haze, cx, cy, radius, thickness),
            bx == Some(RingBox { tx: tx as int, ty: ty as int, outer: outer as int, y0: y0 as int, y1: y1 as int, x0: x0 as int, x1: x1 as int }),
            dx == cos_of(cam.yaw) && dy == sin_of(cam.yaw),
            px == fx_mul((-dy) as i32, cam.fov) && py == fx_mul(dx, cam.fov),
            -0x0014_0001 <= px <= 0x0014_0000,
            -0x0014_0001 <= py <= 0x0014_0000,
            -65536 <= dx <= 65536 && -65536 <= dy <= 65536,
            p.horizon < y0,
            0 <= x0 <= x1 < p.w,
            y1 < p.h,
            p.h - p.horizon <= 0x8000,
            y0 <= y,
            y <= y1 + 1,
            forall|i: int, j: int| #[trigger] f.cell(i, j) == if on_screen(f0.w as int, f0.h as int, i, j)
                && rings_at(*cam, *atmos, *p, depth@, cx, cy, radius, thickness, i, j) && j < y {
                Cel {
                    glyph,
                    color: palette::pack(hue, if luma >= atmos.fade_of(ground_dist(*p, j)) { (luma - atmos.fade_of(ground_dist(*p, j))) as u8 } else { 0 }),
                }
            } else {
                f0.cell(i, j)
            },
            drawn == exists|i: int, j: int| #[trigger] rings_at(*cam, *atmos, *p, depth@, cx, cy, radius, thickness, i, j) && j < y,
        decreases y1 + 1 - y,
    {
        let d = fixed::div(fixed::mul(p.eye, p.proj), fixed::from_int(y - p.horizon));
        proof {
            fixed::lemma_div_bound(fixed::fx_mul(p.eye, p.proj), fixed::from_int_of((y - p.horizon) as int), 0x0100_0000, 65536);
        }
        let mut x = x0;
        while x <= x1
            invariant
                f.wf(),
                f.w == f0.w && f.h == f0.h,
                ring_fits(*cam, *p, atmos.haze, cx, cy, radius, thickness),
                bx == ring_box(*cam, *p, atmos.haze, cx, cy, radius, thickness),
                bx == Some(RingBox { tx: tx as int, ty: ty as int, outer: outer as int, y0: y0 as int, y1: y1 as int, x0: x0 as int, x1: x1 as int }),
                dx == cos_of(cam.yaw) && dy == sin_of(cam.yaw),
                px == fx_mul((-dy) as i32, cam.fov) && py == fx_mul(dx, cam.fov),
                -0x0014_0001 <= px <= 0x0014_0000,
                -0x0014_0001 <= py <= 0x0014_0000,
                -65536 <= dx <= 65536 && -65536 <= dy <= 65536,
                p.horizon < y0,
                0 <= x0 <= x1 < p.w,
                y1 < p.h,
                y0 <= y <= y1,
                d == ground_dist(*p, y as int),
                -0x0100_0000 <= d <= 0x0100_0000,
                x0 <= x <= x1 + 1,
                forall|i: int, j: int| #[trigger] f.cell(i, j) == if on_screen(f0.w as int, f0.h as int, i, j)
                    && rings_at(*cam, *atmos, *p, depth@, cx, cy, radius, thickness, i, j) && (j < y || (j == y && i < x)) {
                    Cel {
                        glyph,
                        color: palette::pack(hue, if luma >= atmos.fade_of(ground_dist(*p, j)) { (luma - atmos.fade_of(ground_dist(*p, j))) as u8 } else { 0 }),
                    }
                } else {
                    f0.cell(i, j)
                },
                drawn == exists|i: int, j: int| #[trigger] rings_at(*cam, *atmos, *p, depth@, cx, cy, radius, thickness, i, j) && (j < y || (j == y && i < x)),
            decreases x1 + 1 - x,
        {
            let ghost here = rings_at(*cam, *atmos, *p, depth@, cx, cy, radius, thickness, x as int, y as int);
            let col = x as usize;
            if !(col < depth.len() && depth[col] < d) && ring_point(cam, p, dx, dy, px, py, cx, cy, radius, thickness, d, x) {
                f.put(x, y, Cel { glyph, color: atmos.shade(hue, luma, d) });
                drawn = true;
                assert(rings_at(*cam, *atmos, *p, depth@, cx, cy, radius, thickness, x as int, y as int));
            } else {
                assert(!here);
            }
            x = x + 1;
        }
        y = y + 1;
    }
    drawn
}

/// The screen row ground `d` away is drawn on: see [`row_at`].
fn row_at_exec(p: &Proj, d: Fx) -> (r: i32)
    requires
        -0x4000_0000 <= p.horizon <= 0x4000_0000,
    ensures
        r == row_at(*p, d as int),
{
    if d <= 4096 {
        return p.h;
    }
    p.horizon + fixed::floor(fixed::div(fixed::mul(p.eye, p.proj), d))
}

/// Whether the ground under column `x`, `d` away, is on the ring: see
/// [`on_ring`].
fn ring_point(
    cam: &Camera,
    p: &Proj,
    dx: Fx,
    dy: Fx,
    px: Fx,
    py: Fx,
    cx: Fx,
    cy: Fx,
    radius: Fx,
    thickness: Fx,
    d: Fx,
    x: i32,
) -> (r: bool)
    requires
        ring_fits(*cam, *p, 0, cx, cy, radius, thickness),
        dx == cos_of(cam.yaw) && dy == sin_of(cam.yaw),
        px == fx_mul((-dy) as i32, cam.fov) && py == fx_mul(dx, cam.fov),
        -0x0014_0001 <= px <= 0x0014_0000,
        -0x0014_0001 <= py <= 0x0014_0000,
        -65536 <= dx <= 65536 && -65536 <= dy <= 65536,
        0 <= x < p.w,
        -0x0100_0000 <= d <= 0x0100_0000,
    ensures
        r == on_ring(*cam, *p, cx, cy, radius, thickness, d, x as int),
{
    proof {
        assert(2 * x < 2 * 0x4000);
        assert(fixed::from_int_of(2 * x as int) == 2 * x * 65536);
        assert(fixed::from_int_of(p.w as int) == p.w * 65536);
        assert(0 <= 2 * x * 65536 <= 2 * (p.w - 1) * 65536);
        assert(2 * p.w * 65536 * 65536 / (p.w * 65536) == 2 * 65536) by (nonlinear_arith)
            requires
                p.w > 0,
        ;
        fixed::lemma_div_bound(fixed::from_int_of(2 * x as int), fixed::from_int_of(p.w as int), 2 * p.w * 65536, p.w * 65536);
    }
    let camx = fixed::div(fixed::from_int(2 * x), fixed::from_int(p.w)) - ONE;
    proof {
        fixed::lemma_mul_bound(px, camx, 0x0014_0001, 65536);
        fixed::lemma_mul_bound(py, camx, 0x0014_0001, 65536);
        fixed::lemma_mul_bound((dx + fixed::fx_mul(px, camx)) as i32, d, 0x0015_0002, 0x0100_0000);
        fixed::lemma_mul_bound((dy + fixed::fx_mul(py, camx)) as i32, d, 0x0015_0002, 0x0100_0000);
    }
    let wx = cam.x + fixed::mul(dx + fixed::mul(px, camx), d);
    let wy = cam.y + fixed::mul(dy + fixed::mul(py, camx), d);
    let r = norm(wx - cx, wy - cy);
    let inner = if radius - thickness > 0 { radius - thickness } else { 0 };
    !(r < inner || r > radius + thickness)
}

} // verus!
