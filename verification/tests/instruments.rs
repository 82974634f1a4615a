use band_engine::instruments::{select_instrument_banks, InstrumentBank};
use band_engine::rng::Rng64;

#[test]
fn independent_instrument_selection_can_duplicate() {
    let mut found_duplicate = false;
    for seed in 1..2048 {
        let mut rng = Rng64::new(seed);
        let banks = select_instrument_banks(&mut rng);
        if banks[0] == banks[1] || banks[0] == banks[2] || banks[1] == banks[2] {
            found_duplicate = true;
            break;
        }
    }
    assert!(found_duplicate);
}

#[test]
fn pads_sustain_longer_than_plucked_harp() {
    let pads = InstrumentBank::Pads.profile();
    let harp = InstrumentBank::Harp.profile();
    assert!(pads.min_sustain_slots > harp.min_sustain_slots);
    assert!(pads.max_sustain_slots > harp.max_sustain_slots);
}

#[test]
fn profiles_hold_the_instrument_ranges() {
    let bass = InstrumentBank::Bass.profile();
    assert_eq!((bass.low_midi, bass.high_midi), (24, 48));
    let clarinet = InstrumentBank::Clarinet.profile();
    assert_eq!((clarinet.low_midi, clarinet.high_midi), (50, 81));
    assert_eq!(InstrumentBank::Pads.profile().max_leap_semitones, 5);
    for bank in InstrumentBank::ALL {
        let profile = bank.profile();
        assert!(profile.low_midi < profile.high_midi);
        assert!(1 <= profile.min_sustain_slots);
        assert!(profile.min_sustain_slots <= profile.max_sustain_slots);
    }
}

#[test]
fn each_instrument_comes_from_its_own_draw() {
    let mut rng = Rng64::new(31);
    let mut copy = Rng64::new(31);
    let banks = select_instrument_banks(&mut rng);
    for bank in banks {
        assert_eq!(bank, InstrumentBank::ALL[(copy.next_u64() as usize) % 5]);
    }
    let mut single = Rng64::new(8);
    let mut single_copy = Rng64::new(8);
    assert_eq!(
        InstrumentBank::pick(&mut single),
        InstrumentBank::ALL[(single_copy.next_u64() as usize) % 5]
    );
}
