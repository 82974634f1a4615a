use band_engine::euclid::{euclidean_pattern, rotate_pattern};
use band_engine::music::{PERCUSSION_STEPS, PERCUSSION_STEPS_PER_BAR};
use band_engine::percussion::{
    draw_voice_shape, generate_voice, voice_pulse_bounds, HitVelocity, KeepThresholds,
    PercussionBank, PercussionBuilder, PercussionPart, PercussionVoiceKind, VoiceShape,
};
use band_engine::rng::Rng64;

fn unit_to_f32(unit: u32) -> f32 {
    unit as f32 / 16_777_216.0
}

fn chance_threshold(probability: f32) -> u32 {
    let probability = probability.clamp(0.0, 1.0);
    (probability as f64 * 16_777_216.0).ceil() as u32
}

fn probability_bounds(kind: PercussionVoiceKind) -> (f32, f32) {
    match kind {
        PercussionVoiceKind::Kick | PercussionVoiceKind::CanKick | PercussionVoiceKind::Bayan => {
            (0.82, 1.0)
        }
        PercussionVoiceKind::Snare | PercussionVoiceKind::CanSnare | PercussionVoiceKind::Dayan => {
            (0.76, 0.95)
        }
        PercussionVoiceKind::Hat | PercussionVoiceKind::Shaker | PercussionVoiceKind::NaTin => {
            (0.72, 0.93)
        }
        PercussionVoiceKind::Tom | PercussionVoiceKind::LogDrum | PercussionVoiceKind::MutedTap => {
            (0.68, 0.9)
        }
        PercussionVoiceKind::Woodblock | PercussionVoiceKind::Clave => (0.7, 0.94),
        PercussionVoiceKind::Scrape | PercussionVoiceKind::AltScrape => (0.62, 0.86),
    }
}

fn probability(kind: PercussionVoiceKind, draw: u32) -> f32 {
    let (low, high) = probability_bounds(kind);
    low + (high - low) * unit_to_f32(draw)
}

fn keep(kind: PercussionVoiceKind, draw: u32) -> KeepThresholds {
    let p = probability(kind, draw);
    KeepThresholds { weak: chance_threshold(p), strong: chance_threshold((p + 0.12).min(1.0)) }
}

fn generate_percussion(bank: PercussionBank, rng: &mut Rng64) -> PercussionPart {
    let mut builder = PercussionBuilder::new(bank, rng.clone());
    while let Some(request) = builder.next_voice() {
        builder.add_voice(keep(request.kind, request.shape.probability_draw));
    }
    assert!(builder.is_complete());
    builder.finish()
}

#[test]
fn cans_bank_uses_current_four_voice_set() {
    assert_eq!(
        PercussionBank::Cans.voices(),
        [
            PercussionVoiceKind::CanKick,
            PercussionVoiceKind::CanSnare,
            PercussionVoiceKind::Scrape,
            PercussionVoiceKind::AltScrape,
        ]
    );
}

#[test]
fn percussion_banks_have_expected_voices_and_are_not_silent() {
    for bank in [
        PercussionBank::Drums,
        PercussionBank::Woods,
        PercussionBank::Cans,
        PercussionBank::Tabla,
    ] {
        let mut rng = Rng64::new(bank as u64 + 77);
        let part = generate_percussion(bank, &mut rng);
        assert_eq!(part.voices.len(), bank.voices().len());
        assert!(part.voices.iter().any(|voice| !voice.hits.is_empty()));
        assert!(part
            .voices
            .iter()
            .all(|voice| voice.pattern.len() == PERCUSSION_STEPS));
    }
}

#[test]
fn percussion_patterns_are_controlled() {
    let mut rng = Rng64::new(99);
    let part = generate_percussion(PercussionBank::Drums, &mut rng);
    for voice in part.voices {
        assert!(voice.pulses > 0);
        assert!(voice.pulses < PERCUSSION_STEPS_PER_BAR);
        let probability = probability(voice.kind, voice.probability_draw);
        assert!(probability >= 0.6);
        assert!(probability <= 1.0);
    }
}

#[test]
fn voice_shapes_stay_in_bounds() {
    let kinds = [
        PercussionVoiceKind::Kick,
        PercussionVoiceKind::Hat,
        PercussionVoiceKind::Scrape,
        PercussionVoiceKind::Clave,
    ];
    for seed in 1..300u64 {
        let mut rng = Rng64::new(seed);
        for kind in kinds {
            let (low, high) = voice_pulse_bounds(kind);
            let shape = draw_voice_shape(kind, &mut rng);
            assert!(low <= shape.pulses && shape.pulses <= high);
            assert!(shape.rotation < 16);
            assert!(shape.probability_draw < (1 << 24));
        }
    }
    assert_eq!(voice_pulse_bounds(PercussionVoiceKind::Hat), (7, 11));
    assert_eq!(voice_pulse_bounds(PercussionVoiceKind::Snare), (2, 4));
}

#[test]
fn hits_fall_on_the_rotated_rhythm_and_fill_the_pattern() {
    for seed in 1..200u64 {
        let mut rng = Rng64::new(seed);
        for (index, kind) in PercussionBank::Woods.voices().iter().enumerate() {
            let shape = draw_voice_shape(*kind, &mut rng);
            let base = rotate_pattern(&euclidean_pattern(16, shape.pulses), shape.rotation);
            let voice = generate_voice(*kind, index, shape, keep(*kind, shape.probability_draw), &mut rng);
            assert!(!voice.hits.is_empty());
            assert_eq!(voice.pattern.len(), 64);
            for pair in voice.hits.windows(2) {
                assert!(pair[0].step < pair[1].step);
            }
            for hit in &voice.hits {
                assert!(hit.step < 64);
                assert!(voice.pattern[hit.step]);
                if let HitVelocity::Shaped { accent_draw, lift_draw } = hit.velocity {
                    assert!(base[hit.step % 16]);
                    assert_eq!(accent_draw.is_none(), hit.step % 4 == 0);
                    assert_eq!(lift_draw.is_none(), hit.step < 16);
                }
            }
            let on = voice.pattern.iter().filter(|cell| **cell).count();
            assert_eq!(on, voice.hits.len());
        }
    }
}

#[test]
fn a_voice_that_keeps_nothing_gets_one_fallback_hit() {
    let shape = VoiceShape { pulses: 4, rotation: 21, probability_draw: 0 };
    let mut rng = Rng64::new(3);
    let voice = generate_voice(
        PercussionVoiceKind::Tom,
        2,
        shape,
        KeepThresholds { weak: 0, strong: 0 },
        &mut rng,
    );
    assert_eq!(voice.hits.len(), 1);
    assert_eq!(voice.hits[0].step, 21 % 16);
    assert_eq!(voice.hits[0].velocity, HitVelocity::Fallback);
    let mut copy = Rng64::new(3);
    for _ in 0..4 * 4 {
        copy.next_u64();
    }
    assert_eq!(voice.hits[0].event_seed, copy.next_u64() ^ (2u64 << 32));
    let mut expected = vec![false; 64];
    expected[5] = true;
    assert_eq!(voice.pattern, expected);
}

#[test]
fn a_voice_that_keeps_everything_hits_every_pulse() {
    let shape = VoiceShape { pulses: 4, rotation: 0, probability_draw: 0 };
    let mut rng = Rng64::new(3);
    let voice = generate_voice(
        PercussionVoiceKind::Kick,
        0,
        shape,
        KeepThresholds { weak: 1 << 24, strong: 1 << 24 },
        &mut rng,
    );
    let steps: Vec<usize> = voice.hits.iter().map(|hit| hit.step).collect();
    assert_eq!(steps, (0..16).map(|i| i * 4).collect::<Vec<_>>());
}

#[test]
fn kits_are_picked_from_one_draw() {
    let mut rng = Rng64::new(12);
    let mut copy = Rng64::new(12);
    assert_eq!(
        PercussionBank::pick(&mut rng),
        PercussionBank::ALL[(copy.next_u64() as usize) % 4]
    );
}

#[test]
fn percussion_builder_asks_for_each_kit_voice_in_order() {
    let mut builder = PercussionBuilder::new(PercussionBank::Woods, Rng64::new(5));
    let mut kinds = Vec::new();
    while let Some(request) = builder.next_voice() {
        assert_eq!(request.voice_index, kinds.len());
        kinds.push(request.kind);
        builder.add_voice(keep(request.kind, request.shape.probability_draw));
    }
    assert_eq!(kinds, PercussionBank::Woods.voices().to_vec());
    assert!(builder.is_complete());
    assert!(builder.next_voice().is_none());
    let part = builder.finish();
    assert_eq!(part.voices.len(), 4);
    assert!(part.voices.iter().all(|voice| !voice.hits.is_empty()));
}
