use lib::arch::{facade, Arch, Face, Lod, Lot};
use lib::catalog;
use lib::fixed;

fn lot(arch: Arch, height: u8) -> Lot {
    Lot { x0: 10, y0: 10, x1: 13, y1: 13, height, arch, hue: 6, luma: 6, lit: 10, seed: 0x1234_5678 }
}

#[test]
fn a_wall_answers_the_same_way_every_time() {
    let l = lot(Arch::CurtainWall, 30);
    let z = fixed::ratio(37, 4);
    let u = fixed::ratio(11, 3);
    let a = facade(&l, Face::North, u, z, fixed::from_int(30), Lod::Mid);
    let b = facade(&l, Face::North, u, z, fixed::from_int(30), Lod::Mid);
    assert_eq!(a.glyph, b.glyph);
    assert_eq!(a.luma, b.luma);
}

#[test]
fn the_top_of_a_building_is_a_cornice() {
    let l = lot(Arch::Prewar, 8);
    let h = fixed::from_int(8);
    let s = facade(&l, Face::North, fixed::ONE, h - fixed::ratio(1, 8), h, Lod::Near);
    assert!((catalog::G_CORNICE..catalog::G_FIRE).contains(&s.glyph), "no cornice at the top");
}

#[test]
fn the_ground_floor_is_brighter_than_the_offices() {
    let l = lot(Arch::CurtainWall, 20);
    let h = fixed::from_int(20);
    let shop = facade(&l, Face::North, fixed::ONE, fixed::ratio(1, 3), h, Lod::Near);
    let office = facade(&l, Face::North, fixed::ONE, fixed::from_int(8), h, Lod::Near);
    assert!(shop.luma >= office.luma, "the shopfront is darker than the tenth floor");
}

#[test]
fn a_slab_is_striped_with_piers_and_a_curtain_wall_is_not() {
    let h = fixed::from_int(20);
    let z = fixed::from_int(7);
    let slab = lot(Arch::Slab, 20);
    let glass = lot(Arch::CurtainWall, 20);
    let pier = catalog::G_MULLION + 2;
    let count = |l: &Lot| {
        (0..96)
            .filter(|i| facade(l, Face::North, fixed::ratio(*i, 8), z, h, Lod::Near).glyph == pier)
            .count()
    };
    let (s, g) = (count(&slab), count(&glass));
    assert!(s > g * 2, "a slab ({s}) is barely more striped than a curtain wall ({g})");
    assert!(g > 0, "the curtain wall lost its corners");
}

#[test]
fn only_brick_buildings_carry_a_fire_escape() {
    assert!(Arch::Prewar.has_fire_escape());
    assert!(Arch::LowRise.has_fire_escape());
    assert!(!Arch::CurtainWall.has_fire_escape());
    assert!(!Arch::Slab.has_fire_escape());
    assert!(!Arch::Setback.has_fire_escape());
}

#[test]
fn a_prewar_building_has_ironwork_on_exactly_one_face() {
    let l = lot(Arch::Prewar, 9);
    let h = fixed::from_int(9);
    let faces: Vec<Face> = [Face::North, Face::East, Face::South, Face::West]
        .into_iter()
        .filter(|&f| {
            (0..200).any(|i| {
                let u = fixed::ratio(i, 16);
                let z = fixed::ratio(i % 50 + 8, 8);
                let g = facade(&l, f, u, z, h, Lod::Near).glyph;
                (catalog::G_FIRE..catalog::G_ROOF).contains(&g)
            })
        })
        .collect();
    assert_eq!(faces.len(), 1, "fire escapes on {faces:?}");
}

#[test]
fn the_fire_escape_stays_in_the_same_place_as_you_walk_past() {
    let l = lot(Arch::Prewar, 9);
    let h = fixed::from_int(9);
    let face = [Face::North, Face::East, Face::South, Face::West]
        .into_iter()
        .find(|&f| {
            (0..200).any(|i| {
                let g = facade(&l, f, fixed::ratio(i, 16), fixed::from_int(3), h, Lod::Near).glyph;
                (catalog::G_FIRE..catalog::G_ROOF).contains(&g)
            })
        })
        .expect("no fire escape at all");
    let bays = |lod| -> Vec<i32> {
        (0..200)
            .filter(|i| {
                let g = facade(&l, face, fixed::ratio(*i, 16), fixed::from_int(3), h, lod).glyph;
                (catalog::G_FIRE..catalog::G_ROOF).contains(&g)
            })
            .collect()
    };
    assert_eq!(bays(Lod::Near), bays(Lod::Distant), "the escape moved when the camera did");
    assert!(!bays(Lod::Near).is_empty());
}

#[test]
fn level_of_detail_coarsens_with_distance() {
    assert_eq!(Lod::at(fixed::from_int(1)), Lod::Near);
    assert_eq!(Lod::at(fixed::from_int(5)), Lod::Mid);
    assert_eq!(Lod::at(fixed::from_int(15)), Lod::Far);
    assert_eq!(Lod::at(fixed::from_int(60)), Lod::Distant);
}

/// A spread of lots and sample points all land inside the catalogue and
/// the palette.
#[test]
fn every_sampled_glyph_is_in_the_catalogue() {
    let arches = [Arch::Prewar, Arch::LowRise, Arch::Deco, Arch::Slab, Arch::Setback, Arch::CurtainWall];
    for (n, &arch) in arches.iter().enumerate() {
        for height in [1u8, 4, 9, 20, 40] {
            let l = Lot {
                x0: 3 * n as u16,
                y0: 5,
                x1: 3 * n as u16 + 2 + height as u16 % 3,
                y1: 9,
                height,
                arch,
                hue: (n as u8 * 5) % 16,
                luma: (height % 8),
                lit: height % 16,
                seed: 0x9e37_79b9u32.wrapping_mul(n as u32 + height as u32),
            };
            let h = fixed::from_int(l.height as i32);
            for i in 0..120 {
                let s = facade(
                    &l,
                    Face::of(i % 2 == 0, 1, -1),
                    fixed::ratio(i, 7),
                    fixed::ratio(i * 3, 11),
                    h,
                    Lod::at(fixed::from_int(i % 40)),
                );
                assert!((s.glyph as usize) < catalog::N_GLYPHS);
                assert!(s.luma < 8);
                assert!(s.hue < 16);
            }
        }
    }
}
