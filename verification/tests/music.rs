use band_engine::music::{
    choose_mode, choose_root, generate_harmony, midi_is_chord_tone, midi_is_in_mode,
    mode_degree_for_midi, mode_midis_in_range, pitch_class_for_midi, HarmonicBar, Mode,
    DOMINANT_TURN_THRESHOLD, LOOP_BARS, LOOP_BEATS,
};
use band_engine::rng::Rng64;

#[test]
fn mode_intervals_are_correct() {
    assert_eq!(Mode::Ionian.intervals(), [0, 2, 4, 5, 7, 9, 11]);
    assert_eq!(Mode::Dorian.intervals(), [0, 2, 3, 5, 7, 9, 10]);
    assert_eq!(Mode::Phrygian.intervals(), [0, 1, 3, 5, 7, 8, 10]);
    assert_eq!(Mode::Lydian.intervals(), [0, 2, 4, 6, 7, 9, 11]);
    assert_eq!(Mode::Mixolydian.intervals(), [0, 2, 4, 5, 7, 9, 10]);
    assert_eq!(Mode::Aeolian.intervals(), [0, 2, 3, 5, 7, 8, 10]);
}

#[test]
fn locrian_is_not_an_allowed_mode() {
    assert_eq!(Mode::ALL.len(), 6);
    let names = Mode::ALL.map(|mode| format!("{mode:?}"));
    assert!(!names.iter().any(|name| name == "Locrian"));
}

#[test]
fn degrees_follow_the_mode_intervals() {
    // C Ionian: C is degree 0, E degree 2, B degree 6, C# is outside.
    assert_eq!(mode_degree_for_midi(60, 0, Mode::Ionian), Some(0));
    assert_eq!(mode_degree_for_midi(64, 0, Mode::Ionian), Some(2));
    assert_eq!(mode_degree_for_midi(71, 0, Mode::Ionian), Some(6));
    assert_eq!(mode_degree_for_midi(61, 0, Mode::Ionian), None);
    // A Aeolian: C is the third degree (index 2).
    assert_eq!(mode_degree_for_midi(60, 9, Mode::Aeolian), Some(2));
    // Roots above 11 still match the pitch class congruent to them.
    assert_eq!(mode_degree_for_midi(60, 24, Mode::Ionian), Some(0));
    assert_eq!(mode_degree_for_midi(62, 24, Mode::Ionian), None);
    assert!(midi_is_in_mode(62, 0, Mode::Dorian));
    assert!(!midi_is_in_mode(63, 0, Mode::Lydian));
    assert_eq!(pitch_class_for_midi(69), 9);
}

#[test]
fn mode_notes_in_range_are_sorted_and_complete() {
    let notes = mode_midis_in_range(60, 72, 0, Mode::Ionian);
    assert_eq!(notes, vec![60, 62, 64, 65, 67, 69, 71, 72]);
    assert!(mode_midis_in_range(72, 60, 0, Mode::Ionian).is_empty());
    let all = mode_midis_in_range(0, 255, 2, Mode::Dorian);
    for pair in all.windows(2) {
        assert!(pair[0] < pair[1]);
    }
    for midi in 0..=255u8 {
        assert_eq!(all.contains(&midi), midi_is_in_mode(midi, 2, Mode::Dorian));
    }
}

#[test]
fn chord_tones_are_the_bar_triad() {
    let bar = HarmonicBar { bar: 0, root_degree: 4, chord_degrees: [4, 6, 1] };
    // G major triad degrees in C Ionian: G (4), B (6), D (1).
    assert!(midi_is_chord_tone(67, 0, Mode::Ionian, &bar));
    assert!(midi_is_chord_tone(71, 0, Mode::Ionian, &bar));
    assert!(midi_is_chord_tone(62, 0, Mode::Ionian, &bar));
    assert!(!midi_is_chord_tone(60, 0, Mode::Ionian, &bar));
    assert!(!midi_is_chord_tone(61, 0, Mode::Ionian, &bar));
}

#[test]
fn harmony_starts_on_the_tonic_and_builds_triads() {
    assert_eq!(LOOP_BEATS, 16);
    for seed in 1..200u64 {
        let mut rng = Rng64::new(seed);
        let bars = generate_harmony(&mut rng);
        assert_eq!(bars.len(), LOOP_BARS);
        assert_eq!(bars[0].root_degree, 0);
        for (index, bar) in bars.iter().enumerate() {
            assert_eq!(bar.bar, index);
            assert!([0u8, 4, 2, 5, 3].contains(&bar.root_degree));
            let d = bar.root_degree;
            assert_eq!(bar.chord_degrees, [d % 7, (d + 2) % 7, (d + 4) % 7]);
        }
    }
}

#[test]
fn harmony_draws_match_its_contract() {
    let mut rng = Rng64::new(777);
    let mut copy = Rng64::new(777);
    let bars = generate_harmony(&mut rng);
    let stable = [0u8, 4, 2, 5, 3];
    assert_eq!(bars[1].root_degree, stable[(copy.next_u64() as usize) % 5]);
    assert_eq!(bars[2].root_degree, stable[(copy.next_u64() as usize) % 5]);
    let turn = (copy.next_u64() >> 40) as u32;
    if turn < DOMINANT_TURN_THRESHOLD {
        assert_eq!(bars[3].root_degree, 4);
    } else {
        assert_eq!(bars[3].root_degree, stable[(copy.next_u64() as usize) % 5]);
    }
    assert_eq!(rng.next_u64(), copy.next_u64());
}

#[test]
fn roots_and_modes_come_from_their_draws() {
    let spellings: [&[&str]; 12] = [
        &["C"],
        &["C#", "Db"],
        &["D"],
        &["D#", "Eb"],
        &["E", "Fb"],
        &["F", "E#"],
        &["F#", "Gb"],
        &["G"],
        &["G#", "Ab"],
        &["A"],
        &["A#", "Bb"],
        &["B", "Cb"],
    ];
    for seed in 1..100u64 {
        let mut rng = Rng64::new(seed);
        let mut copy = Rng64::new(seed);
        let root = choose_root(&mut rng);
        let pitch_class = ((copy.next_u64() >> 32) as u32 % 12) as u8;
        assert_eq!(root.pitch_class, pitch_class);
        let names = spellings[pitch_class as usize];
        assert_eq!(root.name, names[(copy.next_u64() as usize) % names.len()]);
        let mode = choose_mode(&mut rng);
        assert_eq!(mode, Mode::ALL[(copy.next_u64() as usize) % 6]);
    }
}
