use vstd::prelude::*;
use crate::rng::{draw_at, lemma_state_after_add, state_after, Rng64};

verus! {

/// The instrument an instrumentalist plays.
#[derive(Clone, Copy, Debug, PartialEq, Eq, Structural)]
pub enum InstrumentBank {
    Harp,
    Bass,
    Pads,
    Synth,
    Clarinet,
}

/// The instruments in their fixed order.
pub open spec fn instrument_bank_at(index: int) -> InstrumentBank {
    if index == 0 {
        InstrumentBank::Harp
    } else if index == 1 {
        InstrumentBank::Bass
    } else if index == 2 {
        InstrumentBank::Pads
    } else if index == 3 {
        InstrumentBank::Synth
    } else {
        InstrumentBank::Clarinet
    }
}

/// The instrument a draw picks.
pub open spec fn picked_instrument(draw: u64) -> InstrumentBank {
    instrument_bank_at((draw as usize) as int % 5)
}

/// The whole-number part of how an instrument plays: its range of MIDI notes,
/// how many slots its notes hold, and its widest melodic leap. (How dense its
/// notes are and how long they ring are rates and times, kept with the audio code.)
#[derive(Clone, Copy, Debug, PartialEq, Eq, Structural)]
pub struct InstrumentProfile {
    pub low_midi: u8,
    pub high_midi: u8,
    pub min_sustain_slots: usize,
    pub max_sustain_slots: usize,
    pub max_leap_semitones: u8,
}

/// The profile of each instrument.
pub open spec fn profile_spec(bank: InstrumentBank) -> InstrumentProfile {
    match bank {
        InstrumentBank::Harp => InstrumentProfile {
            low_midi: 48,
            high_midi: 84,
            min_sustain_slots: 1,
            max_sustain_slots: 2,
            max_leap_semitones: 7,
        },
        InstrumentBank::Bass => InstrumentProfile {
            low_midi: 24,
            high_midi: 48,
            min_sustain_slots: 1,
            max_sustain_slots: 3,
            max_leap_semitones: 7,
        },
        InstrumentBank::Pads => InstrumentProfile {
            low_midi: 36,
            high_midi: 72,
            min_sustain_slots: 3,
            max_sustain_slots: 8,
            max_leap_semitones: 5,
        },
        InstrumentBank::Synth => InstrumentProfile {
            low_midi: 48,
            high_midi: 84,
            min_sustain_slots: 1,
            max_sustain_slots: 3,
            max_leap_semitones: 7,
        },
        InstrumentBank::Clarinet => InstrumentProfile {
            low_midi: 50,
            high_midi: 81,
            min_sustain_slots: 2,
            max_sustain_slots: 4,
            max_leap_semitones: 7,
        },
    }
}

impl InstrumentBank {
    /// Every instrument, in order.
    pub const ALL: [InstrumentBank; 5] = [
        InstrumentBank::Harp,
        InstrumentBank::Bass,
        InstrumentBank::Pads,
        InstrumentBank::Synth,
        InstrumentBank::Clarinet,
    ];

    /// Picks one of the five instruments from one draw.
    pub fn pick(rng: &mut Rng64) -> (bank: Self)
        ensures
            final(rng)@ == state_after(old(rng)@, 1),
            bank == picked_instrument(draw_at(old(rng)@, 0)),
    {
        proof {
            lemma_state_after_add(rng@, 0, 0);
            assert(state_after(rng@, 0) == rng@);
        }
        Self::ALL[rng.pick_index(Self::ALL.len())]
    }

    /// The instrument's range, note lengths and widest leap.
    pub fn profile(self) -> (profile: InstrumentProfile)
        ensures
            profile == profile_spec(self),
    {
        match self {
            InstrumentBank::Harp => InstrumentProfile {
                low_midi: 48,
                high_midi: 84,
                min_sustain_slots: 1,
                max_sustain_slots: 2,
                max_leap_semitones: 7,
            },
            InstrumentBank::Bass => InstrumentProfile {
                low_midi: 24,
                high_midi: 48,
                min_sustain_slots: 1,
                max_sustain_slots: 3,
                max_leap_semitones: 7,
            },
            InstrumentBank::Pads => InstrumentProfile {
                low_midi: 36,
                high_midi: 72,
                min_sustain_slots: 3,
                max_sustain_slots: 8,
                max_leap_semitones: 5,
            },
            InstrumentBank::Synth => InstrumentProfile {
                low_midi: 48,
                high_midi: 84,
                min_sustain_slots: 1,
                max_sustain_slots: 3,
                max_leap_semitones: 7,
            },
            InstrumentBank::Clarinet => InstrumentProfile {
                low_midi: 50,
                high_midi: 81,
                min_sustain_slots: 2,
                max_sustain_slots: 4,
                max_leap_semitones: 7,
            },
        }
    }
}

/// Picks the three instrumentalists' instruments, each independently from one
/// draw, so the same instrument may come up more than once.
pub fn select_instrument_banks(rng: &mut Rng64) -> (banks: [InstrumentBank; 3])
    ensures
        final(rng)@ == state_after(old(rng)@, 3),
        banks@ == seq![
            picked_instrument(draw_at(old(rng)@, 0)),
            picked_instrument(draw_at(old(rng)@, 1)),
            picked_instrument(draw_at(old(rng)@, 2)),
        ],
{
    let ghost start = rng@;
    proof {
        lemma_state_after_add(start, 1, 0);
        lemma_state_after_add(start, 1, 1);
        lemma_state_after_add(start, 2, 0);
        lemma_state_after_add(start, 2, 1);
        lemma_state_after_add(start, 1, 2);
    }
    let first = InstrumentBank::pick(rng);
    let second = InstrumentBank::pick(rng);
    let third = InstrumentBank::pick(rng);
    let banks = [first, second, third];
    assert(banks@ =~= seq![first, second, third]);
    banks
}

} // verus!
