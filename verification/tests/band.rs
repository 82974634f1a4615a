use band_engine::instruments::InstrumentBank;
use band_engine::music::{
    midi_is_chord_tone, midi_is_in_mode, mode_degree_for_midi, HarmonicBar, Mode,
    INSTRUMENT_SLOTS,
};
use band_engine::percussion::{KeepThresholds, PercussionBank, PercussionVoiceKind};
use band_engine::rng::Rng64;
use band_engine::sequence::{
    band_instruments, BandBuilder, band_members, choose_duration, generate_band_header,
    percussion_rng, phrase_rng, pitch_candidates, resolve_pitch, Band,
    MemberRole, PhraseBuilder, PitchRequest, SlotKind,
};

fn unit_to_f32(unit: u32) -> f32 {
    unit as f32 / 16_777_216.0
}

fn chance_threshold(probability: f32) -> u32 {
    let probability = probability.clamp(0.0, 1.0);
    (probability as f64 * 16_777_216.0).ceil() as u32
}

fn keep(kind: PercussionVoiceKind, draw: u32) -> KeepThresholds {
    let (low, high) = match kind {
        PercussionVoiceKind::Kick | PercussionVoiceKind::CanKick | PercussionVoiceKind::Bayan => {
            (0.82f32, 1.0f32)
        }
        PercussionVoiceKind::Snare | PercussionVoiceKind::CanSnare | PercussionVoiceKind::Dayan => {
            (0.76, 0.95)
        }
        PercussionVoiceKind::Hat | PercussionVoiceKind::Shaker | PercussionVoiceKind::NaTin => {
            (0.72, 0.93)
        }
        PercussionVoiceKind::Tom | PercussionVoiceKind::LogDrum | PercussionVoiceKind::MutedTap => {
            (0.68, 0.9)
        }
        PercussionVoiceKind::Woodblock | PercussionVoiceKind::Clave => (0.7, 0.94),
        PercussionVoiceKind::Scrape | PercussionVoiceKind::AltScrape => (0.62, 0.86),
    };
    let p = low + (high - low) * unit_to_f32(draw);
    KeepThresholds { weak: chance_threshold(p), strong: chance_threshold((p + 0.12).min(1.0)) }
}

fn pick_pitch(request: &PitchRequest) -> Option<usize> {
    let strong_slot = request.slot % 4 == 0 || request.slot % 8 == 0;
    let center = match request.bank {
        InstrumentBank::Bass => 36.0,
        InstrumentBank::Pads => 54.0,
        InstrumentBank::Harp | InstrumentBank::Synth => 66.0,
        InstrumentBank::Clarinet => 62.0,
    };
    let mut weighted = Vec::new();
    let mut total = 0.0f32;
    for &midi in &request.candidates {
        let degree =
            mode_degree_for_midi(midi, request.root_pitch_class, request.mode).unwrap_or(0);
        let chord_tone =
            midi_is_chord_tone(midi, request.root_pitch_class, request.mode, &request.harmonic_bar);
        let mut weight = 1.0f32;
        if chord_tone {
            weight *= if strong_slot { 3.6 } else { 2.0 };
        } else {
            weight *= if strong_slot { 0.32 } else { 1.15 };
        }
        if request.bank == InstrumentBank::Bass {
            let root_degree = request.harmonic_bar.root_degree % 7;
            let fifth_degree = (request.harmonic_bar.root_degree + 4) % 7;
            if degree == root_degree {
                weight *= 3.4;
            } else if degree == fifth_degree {
                weight *= 2.0;
            } else {
                weight *= 0.45;
            }
        }
        if let Some(previous) = request.previous_midi {
            weight *= match previous.abs_diff(midi) {
                0 => 1.45,
                1..=2 => 2.7,
                3..=4 => 1.85,
                5..=7 => 0.8,
                _ => 0.05,
            };
        } else {
            let distance_from_center = (midi as f32 - center).abs();
            weight *= (1.0 / (1.0 + distance_from_center / 12.0)).max(0.2);
        }
        total += weight;
        weighted.push(weight);
    }
    let mut cursor = 0.0 + (total.max(0.001) - 0.0) * unit_to_f32(request.draw);
    for (index, weight) in weighted.into_iter().enumerate() {
        if cursor <= weight {
            return Some(index);
        }
        cursor -= weight;
    }
    None
}

fn generate_band(seed: u64) -> Band {
    let mut builder = BandBuilder::new(seed);
    while let Some(request) = builder.next_voice() {
        builder.add_voice(keep(request.kind, request.shape.probability_draw));
    }
    for part in 0..3 {
        while let Some(request) = builder.advance_phrase(part) {
            let choice = pick_pitch(&request);
            builder.place_phrase(part, choice);
        }
    }
    assert!(builder.is_complete());
    builder.finish()
}

#[test]
fn generated_band_has_required_roles_and_ranges() {
    for seed in 1..96 {
        let band = generate_band(seed);
        assert!((80..=150).contains(&band.tempo_bpm));
        assert_eq!(band.members.len(), 4);
        assert_eq!(band.members[0].role, MemberRole::Percussionist);
        assert_eq!(
            band.members
                .iter()
                .filter(|member| member.role == MemberRole::Instrumentalist)
                .count(),
            3
        );
        assert_eq!(band.instruments.len(), 3);
        for part in &band.instruments {
            assert_eq!(part.slots.len(), INSTRUMENT_SLOTS);
            let profile = part.bank.profile();
            for note in &part.notes {
                assert!(note.start_slot < INSTRUMENT_SLOTS);
                assert!(note.duration_slots >= 1);
                assert!(note.start_slot + note.duration_slots <= INSTRUMENT_SLOTS);
                assert!((profile.low_midi..=profile.high_midi).contains(&note.midi));
                assert!(midi_is_in_mode(note.midi, band.root.pitch_class, band.mode));
            }
        }
    }
}

#[test]
fn melodic_leaps_are_bounded() {
    for seed in 100..180 {
        let band = generate_band(seed);
        for part in &band.instruments {
            let max_leap = part.bank.profile().max_leap_semitones;
            for pair in part.notes.windows(2) {
                assert!(
                    pair[0].midi.abs_diff(pair[1].midi) <= max_leap,
                    "{:?} leap {} -> {} exceeded {}",
                    part.bank,
                    pair[0].midi,
                    pair[1].midi,
                    max_leap
                );
            }
        }
    }
}

#[test]
fn generated_band_is_not_musically_silent() {
    for seed in 1..32 {
        let band = generate_band(seed);
        assert!(band
            .percussion
            .voices
            .iter()
            .any(|voice| !voice.hits.is_empty()));
        assert!(band.instruments.iter().all(|part| !part.notes.is_empty()));
    }
}

#[test]
fn slot_grids_match_the_notes() {
    for seed in 1..60 {
        let band = generate_band(seed);
        for part in &band.instruments {
            let mut covered = vec![false; INSTRUMENT_SLOTS];
            for pair in part.notes.windows(2) {
                assert!(pair[0].start_slot + pair[0].duration_slots <= pair[1].start_slot);
            }
            for note in &part.notes {
                let start = &part.slots[note.start_slot];
                assert_eq!(start.kind, SlotKind::Note);
                assert_eq!(start.midi, Some(note.midi));
                assert_eq!(start.duration_slots, Some(note.duration_slots));
                covered[note.start_slot] = true;
                for tie in note.start_slot + 1..note.start_slot + note.duration_slots {
                    assert_eq!(part.slots[tie].kind, SlotKind::Tie);
                    assert_eq!(part.slots[tie].midi, Some(note.midi));
                    covered[tie] = true;
                }
            }
            for (slot, cell) in part.slots.iter().enumerate() {
                if !covered[slot] {
                    assert_eq!(cell.kind, SlotKind::Rest);
                    assert_eq!(cell.midi, None);
                }
            }
        }
    }
}

#[test]
fn band_members_follow_the_instruments() {
    let banks = [InstrumentBank::Harp, InstrumentBank::Harp, InstrumentBank::Bass];
    let members = band_members(PercussionBank::Tabla, &banks);
    assert_eq!(members.len(), 4);
    assert_eq!(members[0].percussion_bank, Some(PercussionBank::Tabla));
    assert_eq!(members[0].instrument_bank, None);
    for (offset, bank) in banks.iter().enumerate() {
        assert_eq!(members[offset + 1].index, offset + 1);
        assert_eq!(members[offset + 1].role, MemberRole::Instrumentalist);
        assert_eq!(members[offset + 1].instrument_bank, Some(*bank));
    }
}

#[test]
fn band_header_draws_in_order() {
    let band = generate_band(4242);
    assert_eq!(band.seed, 4242);
    assert_eq!(band.loop_beats, 16);
    assert_eq!(band.harmonic_framework.len(), 4);
    assert!(band.root.pitch_class < 12);
    assert_eq!(band.members[0].percussion_bank, Some(band.percussion.bank));
    for (offset, part) in band.instruments.iter().enumerate() {
        assert_eq!(part.member_index, offset + 1);
        assert_eq!(band.members[offset + 1].instrument_bank, Some(part.bank));
    }
}

#[test]
fn durations_respect_the_profiles() {
    for seed in 1..300u64 {
        let mut rng = Rng64::new(seed);
        for bank in InstrumentBank::ALL {
            for remaining in [1usize, 2, 5, 32] {
                let duration = choose_duration(bank, remaining, &mut rng);
                let profile = bank.profile();
                assert!(duration >= 1);
                assert!(duration <= profile.max_sustain_slots.min(remaining).max(1));
            }
        }
    }
    // A bass note with slots to spare draws its length from 1..=3 and nothing more.
    let mut rng = Rng64::new(17);
    let mut copy = Rng64::new(17);
    let duration = choose_duration(InstrumentBank::Bass, 10, &mut rng);
    assert_eq!(duration, 1 + (copy.next_u64() as usize) % 3);
    assert_eq!(rng.next_u64(), copy.next_u64());
}

#[test]
fn candidates_stay_near_the_previous_note() {
    let (candidates, all) = pitch_candidates(InstrumentBank::Pads, Some(60), 0, Mode::Ionian);
    assert_eq!(candidates, vec![55, 57, 59, 60, 62, 64, 65]);
    assert_eq!(all.first(), Some(&36));
    assert_eq!(all.last(), Some(&72));
    let (free, _) = pitch_candidates(InstrumentBank::Bass, None, 7, Mode::Mixolydian);
    assert!(free.iter().all(|midi| (24..=48).contains(midi)));
    // A previous note far outside the range leaves every note a candidate.
    let (far, all_bass) = pitch_candidates(InstrumentBank::Bass, Some(120), 7, Mode::Mixolydian);
    assert_eq!(far, all_bass);
    assert_eq!(resolve_pitch(&candidates, Some(1)), 57);
    assert_eq!(resolve_pitch(&candidates, Some(99)), 60);
    assert_eq!(resolve_pitch(&candidates, None), 60);
}

#[test]
fn a_missing_choice_stays_within_the_leap() {
    // After a low bass note the middle of the whole range lies an octave away;
    // the middle candidate stays within the bass's widest leap.
    let (candidates, all) = pitch_candidates(InstrumentBank::Bass, Some(24), 0, Mode::Ionian);
    assert_eq!(all[all.len() / 2], 36);
    let midi = resolve_pitch(&candidates, None);
    assert!(candidates.contains(&midi));
    assert!(midi.abs_diff(24) <= InstrumentBank::Bass.profile().max_leap_semitones);
}

#[test]
fn a_fallback_note_fills_a_phrase_without_notes() {
    let harmony = vec![HarmonicBar { bar: 0, root_degree: 0, chord_degrees: [0, 2, 4] }];
    // Seek a stream whose 32 start draws all miss for the pads' thinned density.
    let mut found = false;
    for seed in 1..100_000u64 {
        let mut probe = Rng64::new(seed);
        let misses = (0..32).all(|slot| {
            let threshold = if slot % 2 == 1 { 1_140_851 } else { 5_704_254 };
            !probe.chance_below(threshold)
        });
        if !misses {
            continue;
        }
        let mut builder =
            PhraseBuilder::new(2, InstrumentBank::Pads, 0, Mode::Ionian, harmony.clone(), Rng64::new(seed));
        let request = builder.advance().expect("fallback request");
        assert_eq!(request.slot, 0);
        assert_eq!(request.previous_midi, None);
        builder.place(Some(0));
        assert!(builder.advance().is_none());
        let part = builder.finish();
        assert_eq!(part.notes.len(), 1);
        assert_eq!(part.notes[0].start_slot, 0);
        assert_eq!(part.notes[0].duration_slots, 3);
        assert_eq!(part.notes[0].velocity_draw, None);
        assert_eq!(part.notes[0].midi, request.candidates[0]);
        assert_eq!(part.slots[1].kind, SlotKind::Tie);
        assert_eq!(part.slots[3].kind, SlotKind::Rest);
        found = true;
        break;
    }
    assert!(found);
}

// A direct floating-point model of band generation, to check that the library's
// whole-number thresholds and step functions take the same decisions.

struct FloatRng(Rng64);

impl FloatRng {
    fn next_u64(&mut self) -> u64 {
        self.0.next_u64()
    }
    fn next_f32(&mut self) -> f32 {
        ((self.0.next_u32() >> 8) as f32) / 16_777_216.0
    }
    fn chance(&mut self, probability: f32) -> bool {
        self.next_f32() < probability.clamp(0.0, 1.0)
    }
    fn range_usize(&mut self, min: usize, max: usize) -> usize {
        min + (self.next_u64() as usize % (max - min + 1))
    }
    fn range_f32(&mut self, min: f32, max: f32) -> f32 {
        min + (max - min) * self.next_f32()
    }
}

fn model_density(bank: InstrumentBank) -> f32 {
    match bank {
        InstrumentBank::Harp => 0.62,
        InstrumentBank::Bass => 0.28,
        InstrumentBank::Pads => 0.34,
        InstrumentBank::Synth => 0.48,
        InstrumentBank::Clarinet => 0.42,
    }
}

fn model_duration(bank: InstrumentBank, remaining: usize, rng: &mut FloatRng) -> usize {
    let profile = bank.profile();
    let max = profile.max_sustain_slots.min(remaining).max(1);
    let min = profile.min_sustain_slots.min(max);
    let mut duration = rng.range_usize(min, max);
    if bank == InstrumentBank::Harp && rng.chance(0.72) {
        duration = 1;
    }
    if bank == InstrumentBank::Pads && rng.chance(0.35) {
        duration = max;
    }
    duration.max(1)
}

fn model_pitch(
    bank: InstrumentBank,
    previous: Option<u8>,
    root_pitch_class: u8,
    mode: Mode,
    harmonic_bar: &HarmonicBar,
    slot: usize,
    rng: &mut FloatRng,
) -> u8 {
    let profile = bank.profile();
    let all: Vec<u8> = (profile.low_midi..=profile.high_midi)
        .filter(|midi| midi_is_in_mode(*midi, root_pitch_class, mode))
        .collect();
    let bounded = match previous {
        Some(p) => {
            let near: Vec<u8> = all
                .iter()
                .copied()
                .filter(|midi| p.abs_diff(*midi) <= profile.max_leap_semitones)
                .collect();
            if near.is_empty() {
                all.clone()
            } else {
                near
            }
        }
        None => all.clone(),
    };
    let request = PitchRequest {
        bank,
        previous_midi: previous,
        root_pitch_class,
        mode,
        harmonic_bar: *harmonic_bar,
        slot,
        candidates: bounded.clone(),
        draw: (rng.0.next_u32() >> 8),
    };
    match pick_pitch(&request) {
        Some(index) => bounded[index],
        None => bounded[bounded.len() / 2],
    }
}

fn model_velocity(bank: InstrumentBank, rng: &mut FloatRng) -> f32 {
    match bank {
        InstrumentBank::Bass => rng.range_f32(0.62, 0.86),
        InstrumentBank::Pads => rng.range_f32(0.42, 0.66),
        InstrumentBank::Harp => rng.range_f32(0.44, 0.76),
        InstrumentBank::Synth => rng.range_f32(0.46, 0.74),
        InstrumentBank::Clarinet => rng.range_f32(0.5, 0.78),
    }
}

fn drawn_velocity(bank: InstrumentBank, draw: Option<u32>) -> f32 {
    match draw {
        None => 0.62,
        Some(unit) => {
            let u = unit as f32 / 16_777_216.0;
            let (low, high) = match bank {
                InstrumentBank::Bass => (0.62f32, 0.86f32),
                InstrumentBank::Pads => (0.42, 0.66),
                InstrumentBank::Harp => (0.44, 0.76),
                InstrumentBank::Synth => (0.46, 0.74),
                InstrumentBank::Clarinet => (0.5, 0.78),
            };
            low + (high - low) * u
        }
    }
}

/// (start, duration, midi, velocity bits, event seed) of each note.
fn model_phrase(
    member_index: usize,
    bank: InstrumentBank,
    root_pitch_class: u8,
    mode: Mode,
    harmony: &[HarmonicBar],
    rng: &mut FloatRng,
) -> Vec<(usize, usize, u8, u32, u64)> {
    let profile = bank.profile();
    let mut notes = Vec::new();
    let mut previous = None;
    let mut slot = 0;
    while slot < 32 {
        let bar = (slot / 8).min(harmony.len() - 1);
        let slot_in_bar = slot % 8;
        let mut density = model_density(bank);
        density *= match bank {
            InstrumentBank::Pads if slot_in_bar % 2 == 1 => 0.2,
            InstrumentBank::Bass if slot_in_bar % 2 == 1 => 0.65,
            InstrumentBank::Clarinet if slot_in_bar == 7 => 0.25,
            _ => 1.0,
        };
        if rng.chance(density) {
            let duration = model_duration(bank, 32 - slot, rng);
            let midi = model_pitch(bank, previous, root_pitch_class, mode, &harmony[bar], slot, rng);
            let velocity = model_velocity(bank, rng);
            let seed = band_engine::rng::mix64(rng.next_u64() ^ ((member_index as u64) << 40));
            notes.push((slot, duration, midi, velocity.to_bits(), seed));
            previous = Some(midi);
            slot += duration;
            if bank == InstrumentBank::Clarinet && slot < 32 && rng.chance(0.45) {
                slot += 1;
            }
        } else {
            slot += 1;
        }
    }
    if notes.is_empty() {
        let midi = model_pitch(bank, None, root_pitch_class, mode, &harmony[0], 0, rng);
        let seed = band_engine::rng::mix64(rng.next_u64() ^ ((member_index as u64) << 40));
        notes.push((0, profile.min_sustain_slots, midi, 0.62f32.to_bits(), seed));
    }
    notes
}

/// (step, velocity bits, event seed) of each hit, and the probability bits.
fn model_voice(
    kind: PercussionVoiceKind,
    voice_index: usize,
    rng: &mut FloatRng,
) -> (Vec<(usize, u32, u64)>, u32) {
    let (pulse_min, pulse_max) = band_engine::percussion::voice_pulse_bounds(kind);
    let (low, high) = match kind {
        PercussionVoiceKind::Kick | PercussionVoiceKind::CanKick | PercussionVoiceKind::Bayan => {
            (0.82f32, 1.0f32)
        }
        PercussionVoiceKind::Snare | PercussionVoiceKind::CanSnare | PercussionVoiceKind::Dayan => {
            (0.76, 0.95)
        }
        PercussionVoiceKind::Hat | PercussionVoiceKind::Shaker | PercussionVoiceKind::NaTin => {
            (0.72, 0.93)
        }
        PercussionVoiceKind::Tom | PercussionVoiceKind::LogDrum | PercussionVoiceKind::MutedTap => {
            (0.68, 0.9)
        }
        PercussionVoiceKind::Woodblock | PercussionVoiceKind::Clave => (0.7, 0.94),
        PercussionVoiceKind::Scrape | PercussionVoiceKind::AltScrape => (0.62, 0.86),
    };
    let pulses = rng.range_usize(pulse_min, pulse_max);
    let rotation = rng.range_usize(0, 15);
    let probability = rng.range_f32(low, high);
    let base = band_engine::euclid::rotate_pattern(
        &band_engine::euclid::euclidean_pattern(16, pulses),
        rotation,
    );
    let mut hits = Vec::new();
    for bar in 0..4 {
        for step in 0..16 {
            if !base[step] {
                continue;
            }
            let strong = step % 4 == 0;
            let keep = if strong { (probability + 0.12).min(1.0) } else { probability };
            if rng.chance(keep) {
                let accent = if strong { 1.0 } else { rng.range_f32(0.68, 0.92) };
                let lift = if bar == 0 { 1.0 } else { rng.range_f32(0.88, 1.03) };
                let seed = rng.next_u64() ^ ((voice_index as u64) << 32);
                hits.push((bar * 16 + step, (accent * lift).min(1.0f32).to_bits(), seed));
            }
        }
    }
    if hits.is_empty() {
        let seed = rng.next_u64() ^ ((voice_index as u64) << 32);
        hits.push((rotation % 16, 0.9f32.to_bits(), seed));
    }
    (hits, probability.to_bits())
}

fn hit_velocity_bits(velocity: band_engine::percussion::HitVelocity) -> u32 {
    match velocity {
        band_engine::percussion::HitVelocity::Fallback => 0.9f32.to_bits(),
        band_engine::percussion::HitVelocity::Shaped { accent_draw, lift_draw } => {
            let accent = accent_draw.map_or(1.0f32, |u| 0.68 + (0.92 - 0.68) * (u as f32 / 16_777_216.0));
            let lift = lift_draw.map_or(1.0f32, |u| 0.88 + (1.03 - 0.88) * (u as f32 / 16_777_216.0));
            (accent * lift).min(1.0).to_bits()
        }
    }
}

#[test]
fn whole_number_decisions_agree_with_the_float_model() {
    for seed in 1..160u64 {
        let band = generate_band(seed);
        for (index, part) in band.instruments.iter().enumerate() {
            let mut rng = FloatRng(phrase_rng(seed, index));
            let model = model_phrase(
                index + 1,
                part.bank,
                band.root.pitch_class,
                band.mode,
                &band.harmonic_framework,
                &mut rng,
            );
            let got: Vec<(usize, usize, u8, u32, u64)> = part
                .notes
                .iter()
                .map(|note| {
                    (
                        note.start_slot,
                        note.duration_slots,
                        note.midi,
                        drawn_velocity(part.bank, note.velocity_draw).to_bits(),
                        note.event_seed,
                    )
                })
                .collect();
            assert_eq!(got, model, "seed {seed} part {index}");
        }
        let mut rng = FloatRng(percussion_rng(seed));
        for (index, voice) in band.percussion.voices.iter().enumerate() {
            let (model_hits, probability_bits) = model_voice(voice.kind, index, &mut rng);
            let got: Vec<(usize, u32, u64)> = voice
                .hits
                .iter()
                .map(|hit| (hit.step, hit_velocity_bits(hit.velocity), hit.event_seed))
                .collect();
            assert_eq!(got, model_hits, "seed {seed} voice {index}");
            let (low, high) = match voice.kind {
                PercussionVoiceKind::Kick | PercussionVoiceKind::CanKick | PercussionVoiceKind::Bayan => (0.82f32, 1.0f32),
                PercussionVoiceKind::Snare | PercussionVoiceKind::CanSnare | PercussionVoiceKind::Dayan => (0.76, 0.95),
                PercussionVoiceKind::Hat | PercussionVoiceKind::Shaker | PercussionVoiceKind::NaTin => (0.72, 0.93),
                PercussionVoiceKind::Tom | PercussionVoiceKind::LogDrum | PercussionVoiceKind::MutedTap => (0.68, 0.9),
                PercussionVoiceKind::Woodblock | PercussionVoiceKind::Clave => (0.7, 0.94),
                PercussionVoiceKind::Scrape | PercussionVoiceKind::AltScrape => (0.62, 0.86),
            };
            let probability = low + (high - low) * (voice.probability_draw as f32 / 16_777_216.0);
            assert_eq!(probability.to_bits(), probability_bits);
        }
    }
}

#[test]
fn bands_use_their_drawn_header_and_instruments() {
    for seed in [1u64, 7, 4242, 90_000] {
        let band = generate_band(seed);
        let header = generate_band_header(seed);
        let banks = band_instruments(seed);
        assert_eq!(band.tempo_bpm, header.tempo_bpm);
        assert_eq!(band.root.pitch_class, header.root.pitch_class);
        assert_eq!(band.root.name, header.root.name);
        assert_eq!(band.mode, header.mode);
        assert_eq!(band.harmonic_framework, header.harmonic_framework);
        assert_eq!(band.percussion.bank, header.percussion_bank);
        assert_eq!(band.instruments.len(), 3);
        for (index, part) in band.instruments.iter().enumerate() {
            assert_eq!(part.bank, banks[index]);
            assert_eq!(band.members[index + 1].index, index + 1);
        }
    }
}

#[test]
fn note_lengths_keep_the_profiles() {
    for seed in 1..120u64 {
        let band = generate_band(seed);
        for part in &band.instruments {
            let profile = part.bank.profile();
            for note in &part.notes {
                assert!(note.duration_slots <= profile.max_sustain_slots);
                assert!(
                    note.duration_slots >= profile.min_sustain_slots
                        || note.start_slot + note.duration_slots == INSTRUMENT_SLOTS
                );
            }
        }
    }
}

#[test]
fn a_finished_phrase_asks_nothing_more() {
    let mut builder = BandBuilder::new(11);
    while let Some(request) = builder.advance_phrase(1) {
        let choice = pick_pitch(&request);
        builder.place_phrase(1, choice);
    }
    assert!(builder.advance_phrase(1).is_none());
    assert!(!builder.is_complete());
}
