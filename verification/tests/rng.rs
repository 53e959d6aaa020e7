use lib::rng::{hash3, Rng};

#[test]
fn never_gets_stuck_at_zero() {
    let mut r = Rng::new(0);
    for _ in 0..64 {
        assert_ne!(r.next_u32(), 0);
    }
}

#[test]
fn same_seed_same_city() {
    let a: Vec<u32> = (0..64).scan(Rng::new(7), |r, _| Some(r.next_u32())).collect();
    let b: Vec<u32> = (0..64).scan(Rng::new(7), |r, _| Some(r.next_u32())).collect();
    assert_eq!(a, b);
}

#[test]
fn below_stays_in_range() {
    let mut r = Rng::new(1);
    for _ in 0..4096 {
        assert!(r.below(7) < 7);
    }
}

#[test]
fn hash_decorrelates_neighbours() {
    let a = hash3(10, 10, 0);
    let b = hash3(10, 11, 0);
    assert_ne!(a >> 24, b >> 24);
}

#[test]
fn the_default_city_has_one_seed() {
    assert_eq!(lib::DEFAULT_SEED, 0xA5C1_771E);
}
