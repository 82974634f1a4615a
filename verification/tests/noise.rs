use band_engine::noise::{noise_bits, seeded_offset_bits};

fn hashed(seed: u64, sample_index: u64) -> u32 {
    let mut x = seed ^ sample_index.wrapping_mul(0x9E37_79B9_7F4A_7C15);
    x ^= x >> 33;
    x = x.wrapping_mul(0xFF51_AFD7_ED55_8CCD);
    x ^= x >> 33;
    (x >> 40) as u32
}

#[test]
fn noise_bits_are_the_top_of_the_hash() {
    assert_eq!(noise_bits(0, 0), 0);
    for seed in [1u64, 0xCAFE, u64::MAX] {
        for index in [0u64, 1, 2, 1000, u64::MAX] {
            let bits = noise_bits(seed, index);
            assert_eq!(bits, hashed(seed, index));
            assert!(bits < 1 << 24);
        }
    }
}

#[test]
fn seeded_offsets_fold_the_seed_halves() {
    assert_eq!(seeded_offset_bits(0), 0);
    assert_eq!(seeded_offset_bits(0x1234_0000_0000_5678), 0x5678);
    assert_eq!(seeded_offset_bits(0x0000_0001_0000_0001), 0);
    assert_eq!(seeded_offset_bits(0xFFFF), 0xFFFF);
}
