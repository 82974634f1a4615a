//! A seeded generator of small looping bands: a percussionist playing Euclidean
//! rhythms and three instrumentalists playing phrases in a mode over a four-bar
//! harmony, with the bookkeeping that places their events in a rendered loop.

use vstd::prelude::*;

pub mod euclid;
pub mod instruments;
pub mod music;
pub mod noise;
pub mod percussion;
pub mod render;
pub mod rng;
pub mod sequence;

verus! {

/// The 64-bit seed whose high half is `seed_hi` and low half `seed_lo`.
pub fn seed_from_parts(seed_hi: u32, seed_lo: u32) -> (seed: u64)
    ensures
        seed as nat == seed_hi as nat * 0x1_0000_0000 + seed_lo as nat,
{
    let seed = ((seed_hi as u64) << 32) | (seed_lo as u64);
    assert(seed == (seed_hi as u64) * 0x1_0000_0000u64 + (seed_lo as u64)) by (bit_vector)
        requires
            seed == ((seed_hi as u64) << 32) | (seed_lo as u64),
    ;
    seed
}

} // verus!
