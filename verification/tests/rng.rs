use band_engine::rng::{mix64, Rng64, SPLITMIX_INCREMENT, ZERO_SEED_STATE};

#[test]
fn seeded_rng_is_deterministic() {
    let mut a = Rng64::new(12345);
    let mut b = Rng64::new(12345);
    for _ in 0..64 {
        assert_eq!(a.next_u64(), b.next_u64());
    }
}

#[test]
fn different_seeds_diverge() {
    let mut a = Rng64::new(12345);
    let mut b = Rng64::new(54321);
    assert_ne!(a.next_u64(), b.next_u64());
}

fn reference_mix(mut value: u64) -> u64 {
    value = (value ^ (value >> 30)).wrapping_mul(0xBF58_476D_1CE4_E5B9);
    value = (value ^ (value >> 27)).wrapping_mul(0x94D0_49BB_1331_11EB);
    value ^ (value >> 31)
}

#[test]
fn mix64_is_the_splitmix_finaliser() {
    assert_eq!(mix64(0), 0);
    for value in [1u64, 2, 12345, u64::MAX, 0xDEAD_BEEF] {
        assert_eq!(mix64(value), reference_mix(value));
    }
    assert_ne!(mix64(1), mix64(2));
}

#[test]
fn next_u64_steps_the_state_by_the_increment() {
    let mut rng = Rng64::new(7);
    assert_eq!(rng.next_u64(), mix64(7u64.wrapping_add(SPLITMIX_INCREMENT)));
    assert_eq!(
        rng.next_u64(),
        mix64(7u64.wrapping_add(SPLITMIX_INCREMENT).wrapping_add(SPLITMIX_INCREMENT))
    );
}

#[test]
fn zero_seed_uses_the_substitute_state() {
    let mut zero = Rng64::new(0);
    let mut substitute = Rng64::new(ZERO_SEED_STATE);
    for _ in 0..8 {
        assert_eq!(zero.next_u64(), substitute.next_u64());
    }
}

#[test]
fn salted_streams_differ() {
    let mut a = Rng64::from_seed_and_salt(99, 1);
    let mut b = Rng64::from_seed_and_salt(99, 2);
    assert_ne!(a.next_u64(), b.next_u64());
    let mut c = Rng64::from_seed_and_salt(99, 1);
    let mut d = Rng64::new(mix64(99 ^ 1u64.wrapping_mul(SPLITMIX_INCREMENT)));
    assert_eq!(c.next_u64(), d.next_u64());
}

#[test]
fn ranges_stay_in_bounds_and_match_the_draw() {
    let mut rng = Rng64::new(42);
    let mut copy = Rng64::new(42);
    for _ in 0..200 {
        let draw = copy.next_u64();
        let value = rng.range_u32(80, 150);
        assert!((80..=150).contains(&value));
        assert_eq!(value, 80 + ((draw >> 32) as u32) % 71);
    }
    for _ in 0..200 {
        let draw = copy.next_u64();
        let value = rng.range_usize(3, 5);
        assert_eq!(value, 3 + (draw as usize) % 3);
        let draw = copy.next_u64();
        let index = rng.pick_index(7);
        assert_eq!(index, (draw as usize) % 7);
    }
}

#[test]
fn unit_draws_and_chances() {
    let mut rng = Rng64::new(5);
    let mut copy = Rng64::new(5);
    for _ in 0..100 {
        let draw = copy.next_u64();
        let unit = rng.next_unit();
        assert_eq!(unit, (draw >> 40) as u32);
        assert!(unit < (1 << 24));
    }
    let mut never = Rng64::new(9);
    let mut always = Rng64::new(9);
    for _ in 0..50 {
        assert!(!never.chance_below(0));
        assert!(always.chance_below(1 << 24));
    }
    let mut u32_rng = Rng64::new(11);
    let mut u64_rng = Rng64::new(11);
    assert_eq!(u32_rng.next_u32(), (u64_rng.next_u64() >> 32) as u32);
}

#[test]
fn seed_from_parts_joins_halves() {
    assert_eq!(band_engine::seed_from_parts(0, 0), 0);
    assert_eq!(band_engine::seed_from_parts(1, 2), (1u64 << 32) | 2);
    assert_eq!(band_engine::seed_from_parts(u32::MAX, u32::MAX), u64::MAX);
}
