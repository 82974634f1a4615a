use vstd::prelude::*;
use crate::rng::wrap_mul;

verus! {

/// The 24 bits of hash noise for a sample: the sample index scattered by the
/// golden-ratio multiplier, mixed into the seed, folded and multiplied once more,
/// and its top 24 bits kept.
pub open spec fn noise_spec(seed: u64, sample_index: u64) -> u32 {
    let x0 = seed ^ wrap_mul(sample_index, 0x9E37_79B9_7F4A_7C15u64);
    let x1 = x0 ^ (x0 >> 33u64);
    let x2 = wrap_mul(x1, 0xFF51_AFD7_ED55_8CCDu64);
    let x3 = x2 ^ (x2 >> 33u64);
    (x3 >> 40u64) as u32
}

/// The 24 bits of hash noise of a seed at a sample; the synthesiser scales them
/// to a value in `[-1, 1]`.
pub fn noise_bits(seed: u64, sample_index: u64) -> (bits: u32)
    ensures
        bits == noise_spec(seed, sample_index),
        bits < 0x100_0000,
{
    let mut x = seed ^ sample_index.wrapping_mul(0x9E37_79B9_7F4A_7C15);
    x ^= x >> 33;
    x = x.wrapping_mul(0xFF51_AFD7_ED55_8CCD);
    x ^= x >> 33;
    assert((x >> 40u64) < 0x100_0000u64) by (bit_vector);
    (x >> 40) as u32
}

/// The 16 bits of a seed (its two halves folded together) that detune an event;
/// the synthesiser scales them to an offset in `[-1, 1]`.
pub fn seeded_offset_bits(seed: u64) -> (bits: u16)
    ensures
        bits == ((seed ^ (seed >> 32u64)) & 0xffffu64) as u16,
{
    let folded = (seed ^ (seed >> 32)) & 0xffff;
    assert(folded <= 0xffffu64) by (bit_vector)
        requires
            folded == (seed ^ (seed >> 32u64)) & 0xffffu64,
    ;
    folded as u16
}

} // verus!
