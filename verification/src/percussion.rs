use vstd::prelude::*;
use crate::euclid::{
    euclid_spec, euclidean_pattern, hit_count, lemma_euclid_measure, lemma_swap_halves_measure,
    rotate_pattern,
};
use crate::music::{PERCUSSION_STEPS, PERCUSSION_STEPS_PER_BAR};
use crate::rng::{draw_at, lemma_state_after_add, state_after, step_state, unit_of, Rng64};

verus! {

/// The kit a percussionist plays.
#[derive(Clone, Copy, Debug, PartialEq, Eq, Structural)]
pub enum PercussionBank {
    Drums,
    Woods,
    Cans,
    Tabla,
}

/// One voice of a kit.
#[derive(Clone, Copy, Debug, PartialEq, Eq, Structural)]
pub enum PercussionVoiceKind {
    Kick,
    Snare,
    Hat,
    Tom,
    Woodblock,
    Clave,
    LogDrum,
    Shaker,
    CanKick,
    CanSnare,
    Scrape,
    AltScrape,
    Bayan,
    Dayan,
    NaTin,
    MutedTap,
}

/// The kits in their fixed order.
pub open spec fn percussion_bank_at(index: int) -> PercussionBank {
    if index == 0 {
        PercussionBank::Drums
    } else if index == 1 {
        PercussionBank::Woods
    } else if index == 2 {
        PercussionBank::Cans
    } else {
        PercussionBank::Tabla
    }
}

/// The four voices of each kit, in order.
pub open spec fn bank_voices(bank: PercussionBank) -> Seq<PercussionVoiceKind> {
    match bank {
        PercussionBank::Drums => seq![
            PercussionVoiceKind::Kick,
            PercussionVoiceKind::Snare,
            PercussionVoiceKind::Hat,
            PercussionVoiceKind::Tom,
        ],
        PercussionBank::Woods => seq![
            PercussionVoiceKind::Woodblock,
            PercussionVoiceKind::Clave,
            PercussionVoiceKind::LogDrum,
            PercussionVoiceKind::Shaker,
        ],
        PercussionBank::Cans => seq![
            PercussionVoiceKind::CanKick,
            PercussionVoiceKind::CanSnare,
            PercussionVoiceKind::Scrape,
            PercussionVoiceKind::AltScrape,
        ],
        PercussionBank::Tabla => seq![
            PercussionVoiceKind::Bayan,
            PercussionVoiceKind::Dayan,
            PercussionVoiceKind::NaTin,
            PercussionVoiceKind::MutedTap,
        ],
    }
}

/// Each kit has four different voices, no voice belongs to two kits, and the drum
/// kit plays kick, snare, hat and tom, in that order.
pub proof fn lemma_kit_voices(bank: PercussionBank, other: PercussionBank)
    ensures
        bank_voices(bank).len() == 4,
        forall|i: int, j: int|
            0 <= i < j < 4 ==> bank_voices(bank)[i] != bank_voices(bank)[j],
        bank != other ==> forall|i: int, j: int|
            0 <= i < 4 && 0 <= j < 4 ==> bank_voices(bank)[i] != bank_voices(other)[j],
        bank_voices(PercussionBank::Drums)[0] == PercussionVoiceKind::Kick,
        bank_voices(PercussionBank::Drums)[1] == PercussionVoiceKind::Snare,
        bank_voices(PercussionBank::Drums)[2] == PercussionVoiceKind::Hat,
        bank_voices(PercussionBank::Drums)[3] == PercussionVoiceKind::Tom,
{
}

impl PercussionBank {
    /// Every kit, in order.
    pub const ALL: [PercussionBank; 4] = [
        PercussionBank::Drums,
        PercussionBank::Woods,
        PercussionBank::Cans,
        PercussionBank::Tabla,
    ];

    /// Picks one of the four kits from one draw.
    pub fn pick(rng: &mut Rng64) -> (bank: Self)
        ensures
            final(rng)@ == step_state(old(rng)@),
            bank == percussion_bank_at((draw_at(old(rng)@, 0) as usize) as int % 4),
    {
        Self::ALL[rng.pick_index(Self::ALL.len())]
    }

    /// The kit's four voices.
    pub fn voices(self) -> (voices: [PercussionVoiceKind; 4])
        ensures
            voices@ == bank_voices(self),
    {
        let voices = match self {
            PercussionBank::Drums => [
                PercussionVoiceKind::Kick,
                PercussionVoiceKind::Snare,
                PercussionVoiceKind::Hat,
                PercussionVoiceKind::Tom,
            ],
            PercussionBank::Woods => [
                PercussionVoiceKind::Woodblock,
                PercussionVoiceKind::Clave,
                PercussionVoiceKind::LogDrum,
                PercussionVoiceKind::Shaker,
            ],
            PercussionBank::Cans => [
                PercussionVoiceKind::CanKick,
                PercussionVoiceKind::CanSnare,
                PercussionVoiceKind::Scrape,
                PercussionVoiceKind::AltScrape,
            ],
            PercussionBank::Tabla => [
                PercussionVoiceKind::Bayan,
                PercussionVoiceKind::Dayan,
                PercussionVoiceKind::NaTin,
                PercussionVoiceKind::MutedTap,
            ],
        };
        assert(voices@ =~= bank_voices(self));
        voices
    }
}

/// The fewest and most pulses per bar of each voice.
pub open spec fn pulse_bounds_spec(kind: PercussionVoiceKind) -> (usize, usize) {
    match kind {
        PercussionVoiceKind::Kick | PercussionVoiceKind::CanKick | PercussionVoiceKind::Bayan => (
            3,
            5,
        ),
        PercussionVoiceKind::Snare
        | PercussionVoiceKind::CanSnare
        | PercussionVoiceKind::Dayan => (2, 4),
        PercussionVoiceKind::Hat | PercussionVoiceKind::Shaker | PercussionVoiceKind::NaTin => (
            7,
            11,
        ),
        PercussionVoiceKind::Tom
        | PercussionVoiceKind::LogDrum
        | PercussionVoiceKind::MutedTap => (2, 5),
        PercussionVoiceKind::Woodblock | PercussionVoiceKind::Clave => (4, 7),
        PercussionVoiceKind::Scrape | PercussionVoiceKind::AltScrape => (4, 8),
    }
}

/// The fewest and most pulses per bar of a voice. (Its keep probabilities are
/// rates, kept with the audio code.)
pub fn voice_pulse_bounds(kind: PercussionVoiceKind) -> (bounds: (usize, usize))
    ensures
        bounds == pulse_bounds_spec(kind),
        1 < bounds.0 <= bounds.1 < PERCUSSION_STEPS_PER_BAR,
{
    match kind {
        PercussionVoiceKind::Kick | PercussionVoiceKind::CanKick | PercussionVoiceKind::Bayan => (
            3,
            5,
        ),
        PercussionVoiceKind::Snare
        | PercussionVoiceKind::CanSnare
        | PercussionVoiceKind::Dayan => (2, 4),
        PercussionVoiceKind::Hat | PercussionVoiceKind::Shaker | PercussionVoiceKind::NaTin => (
            7,
            11,
        ),
        PercussionVoiceKind::Tom
        | PercussionVoiceKind::LogDrum
        | PercussionVoiceKind::MutedTap => (2, 5),
        PercussionVoiceKind::Woodblock | PercussionVoiceKind::Clave => (4, 7),
        PercussionVoiceKind::Scrape | PercussionVoiceKind::AltScrape => (4, 8),
    }
}

/// How loud a hit is, as the draws it was shaped from: a weak step draws an
/// accent and a bar after the first draws a lift; a missing draw stands for full
/// strength. The fallback hit of a voice that kept no hit has a fixed loudness.
#[derive(Clone, Copy, Debug, PartialEq, Eq, Structural)]
pub enum HitVelocity {
    Fallback,
    Shaped { accent_draw: Option<u32>, lift_draw: Option<u32> },
}

/// One percussion hit at a step of the loop.
#[derive(Clone, Copy, Debug, PartialEq, Eq, Structural)]
pub struct PercussionHit {
    pub step: usize,
    pub velocity: HitVelocity,
    pub event_seed: u64,
}

/// One voice of the percussion part: its Euclidean rhythm, the draw its keep
/// probability comes from, and the hits it kept over the loop.
#[derive(Clone, Debug)]
pub struct PercussionVoice {
    pub kind: PercussionVoiceKind,
    pub pulses: usize,
    pub rotation: usize,
    pub probability_draw: u32,
    pub pattern: Vec<bool>,
    pub hits: Vec<PercussionHit>,
}

/// The percussionist's part: a kit and one voice per kit voice.
#[derive(Clone, Debug)]
pub struct PercussionPart {
    pub bank: PercussionBank,
    pub voices: Vec<PercussionVoice>,
}

/// The random shape of a voice: pulses per bar, rotation of the rhythm and the
/// unit draw its keep probability comes from.
#[derive(Clone, Copy, Debug, PartialEq, Eq, Structural)]
pub struct VoiceShape {
    pub pulses: usize,
    pub rotation: usize,
    pub probability_draw: u32,
}

/// The unit-draw thresholds below which a pulse on a weak step, or on a strong
/// step (every fourth), is kept.
#[derive(Clone, Copy, Debug, PartialEq, Eq, Structural)]
pub struct KeepThresholds {
    pub weak: u32,
    pub strong: u32,
}

/// The shape a voice draws from `state`: its pulses within the voice's bounds, a
/// rotation below 16, and the unit draw of its keep probability, from three draws.
pub open spec fn voice_shape_spec(kind: PercussionVoiceKind, state: u64) -> VoiceShape {
    VoiceShape {
        pulses: (pulse_bounds_spec(kind).0 + (draw_at(state, 0) as usize) % ((pulse_bounds_spec(
            kind,
        ).1 - pulse_bounds_spec(kind).0 + 1) as usize)) as usize,
        rotation: (draw_at(state, 1) as usize) % 16,
        probability_draw: unit_of(draw_at(state, 2)),
    }
}

/// Draws a voice's shape (see `voice_shape_spec`).
pub fn draw_voice_shape(kind: PercussionVoiceKind, rng: &mut Rng64) -> (shape: VoiceShape)
    ensures
        final(rng)@ == state_after(old(rng)@, 3),
        shape == voice_shape_spec(kind, old(rng)@),
        pulse_bounds_spec(kind).0 <= shape.pulses <= pulse_bounds_spec(kind).1,
        shape.rotation < PERCUSSION_STEPS_PER_BAR,
{
    let ghost start = rng@;
    proof {
        lemma_state_after_add(start, 0, 0);
        lemma_state_after_add(start, 0, 1);
        lemma_state_after_add(start, 1, 0);
        lemma_state_after_add(start, 1, 1);
        lemma_state_after_add(start, 2, 0);
        lemma_state_after_add(start, 2, 1);
        assert(state_after(start, 0) == start);
    }
    let (pulse_min, pulse_max) = voice_pulse_bounds(kind);
    let pulses = rng.range_usize(pulse_min, pulse_max);
    let rotation = rng.range_usize(0, PERCUSSION_STEPS_PER_BAR - 1);
    let probability_draw = rng.next_unit();
    VoiceShape { pulses, rotation, probability_draw }
}

/// The bits that tag a voice's event seeds.
pub open spec fn voice_seed_tag(voice_index: usize) -> u64 {
    (voice_index as u64) << 32u64
}

/// A pattern turned right by `rotation` cells.
pub open spec fn rotated_spec(s: Seq<bool>, rotation: nat) -> Seq<bool> {
    let shift = (rotation % s.len()) as int;
    s.subrange(s.len() - shift, s.len() as int) + s.subrange(0, s.len() - shift)
}

/// The one-bar rhythm of a voice shape: the Euclidean rhythm of its pulses over
/// 16 steps, turned right by its rotation.
pub open spec fn voice_base(shape: VoiceShape) -> Seq<bool> {
    rotated_spec(euclid_spec(16, shape.pulses as nat), shape.rotation as nat)
}

/// A voice's one-bar rhythm has 16 steps and as many hits as the shape has
/// pulses (at most 16).
pub proof fn lemma_voice_base_measure(shape: VoiceShape)
    ensures
        voice_base(shape).len() == 16,
        hit_count(voice_base(shape)) == if shape.pulses < 16 {
            shape.pulses as nat
        } else {
            16
        },
{
    lemma_euclid_measure(16, shape.pulses as nat);
    let rhythm = euclid_spec(16, shape.pulses as nat);
    lemma_swap_halves_measure(rhythm, 16 - (shape.rotation % 16) as int);
}

/// What position `p` of the loop (bar `p / 16`, step `p % 16`) gives, and the
/// state after its draws: nothing and no draw off the rhythm; on a pulse, one
/// draw decides whether the hit is kept, and a kept hit draws an accent on a weak
/// step, a lift after the first bar, and its event seed.
pub open spec fn hit_at(p: nat, base: Seq<bool>, keep: KeepThresholds, voice_index: usize, state: u64) -> (Option<PercussionHit>, u64) {
    let step = p % 16;
    let bar = p / 16;
    if !base[step as int] {
        (None, state)
    } else {
        let strong = step % 4 == 0;
        let threshold = if strong {
            keep.strong
        } else {
            keep.weak
        };
        if unit_of(draw_at(state, 0)) >= threshold {
            (None, state_after(state, 1))
        } else {
            let accent_draws: nat = if strong {
                0
            } else {
                1
            };
            let lift_draws: nat = if bar == 0 {
                0
            } else {
                1
            };
            let accent = if strong {
                None
            } else {
                Some(unit_of(draw_at(state, 1)))
            };
            let lift = if bar == 0 {
                None
            } else {
                Some(unit_of(draw_at(state, 1 + accent_draws)))
            };
            let seed = draw_at(state, 1 + accent_draws + lift_draws) ^ voice_seed_tag(voice_index);
            (
                Some(
                    PercussionHit {
                        step: p as usize,
                        velocity: HitVelocity::Shaped { accent_draw: accent, lift_draw: lift },
                        event_seed: seed,
                    },
                ),
                state_after(state, 2 + accent_draws + lift_draws),
            )
        }
    }
}

/// The hits kept from position `p` to the end of the loop, and the state after.
pub open spec fn scan_hits(p: nat, base: Seq<bool>, keep: KeepThresholds, voice_index: usize, state: u64) -> (Seq<PercussionHit>, u64)
    decreases 64 - p,
{
    if p >= 64 {
        (Seq::empty(), state)
    } else {
        let (hit, next) = hit_at(p, base, keep, voice_index, state);
        let (rest, end) = scan_hits(p + 1, base, keep, voice_index, next);
        (
            match hit {
                Some(h) => seq![h] + rest,
                None => rest,
            },
            end,
        )
    }
}

/// The hits a voice keeps over the loop from `state`, and the state after its
/// draws: the scanned hits, or when there are none, one fallback hit at the step of
/// the rotation, which draws its event seed.
pub open spec fn voice_hits_spec(shape: VoiceShape, keep: KeepThresholds, voice_index: usize, state: u64) -> (Seq<PercussionHit>, u64) {
    let (scanned, end) = scan_hits(0, voice_base(shape), keep, voice_index, state);
    if scanned.len() > 0 {
        (scanned, end)
    } else {
        (
            seq![
                PercussionHit {
                    step: (shape.rotation % 16) as usize,
                    velocity: HitVelocity::Fallback,
                    event_seed: draw_at(end, 0) ^ voice_seed_tag(voice_index),
                },
            ],
            step_state(end),
        )
    }
}

/// The 64-step pattern that is on exactly at the hits' steps.
pub open spec fn pattern_of(hits: Seq<PercussionHit>) -> Seq<bool> {
    Seq::new(64, |i: int| exists|j: int| 0 <= j < hits.len() && hits[j].step == i)
}

/// Hits whose steps rise strictly, lie below 64 and fall on pulses of `base`.
pub open spec fn hits_on_rhythm(hits: Seq<PercussionHit>, base: Seq<bool>, from: nat) -> bool {
    &&& forall|j: int| 0 <= j < hits.len() ==> from <= #[trigger] hits[j].step < 64
    &&& forall|j: int| 0 <= j < hits.len() ==> base[(#[trigger] hits[j].step % 16) as int]
    &&& forall|i: int, j: int| 0 <= i < j < hits.len() ==> hits[i].step < hits[j].step
}

proof fn lemma_scan_hits(p: nat, base: Seq<bool>, keep: KeepThresholds, voice_index: usize, state: u64)
    requires
        base.len() == 16,
    ensures
        hits_on_rhythm(scan_hits(p, base, keep, voice_index, state).0, base, p),
    decreases 64 - p,
{
    if p < 64 {
        let (hit, next) = hit_at(p, base, keep, voice_index, state);
        lemma_scan_hits(p + 1, base, keep, voice_index, next);
        let rest = scan_hits(p + 1, base, keep, voice_index, next).0;
        let all = scan_hits(p, base, keep, voice_index, state).0;
        match hit {
            Some(h) => {
                assert(all == seq![h] + rest);
                assert forall|j: int| 0 <= j < all.len() implies p <= #[trigger] all[j].step < 64 && base[(all[j].step % 16) as int] by {
                    if j > 0 {
                        assert(all[j] == rest[j - 1]);
                    }
                }
                assert forall|i: int, j: int| 0 <= i < j < all.len() implies all[i].step < all[j].step by {
                    assert(all[j] == rest[j - 1]);
                    if i > 0 {
                        assert(all[i] == rest[i - 1]);
                    }
                }
            },
            None => {},
        }
    }
}

proof fn lemma_pattern_push(hits: Seq<PercussionHit>, hit: PercussionHit)
    requires
        hit.step < 64,
    ensures
        pattern_of(hits.push(hit)) == pattern_of(hits).update(hit.step as int, true),
{
    let before = pattern_of(hits);
    let after = pattern_of(hits.push(hit));
    assert forall|i: int| 0 <= i < 64 implies after[i] == before.update(hit.step as int, true)[i] by {
        if i == hit.step {
            assert(hits.push(hit)[hits.len() as int].step == i);
        } else {
            if after[i] {
                let j = choose|j: int| 0 <= j < hits.len() + 1 && hits.push(hit)[j].step == i;
                assert(hits[j].step == i);
            }
            if before[i] {
                let j = choose|j: int| 0 <= j < hits.len() && hits[j].step == i;
                assert(hits.push(hit)[j].step == i);
            }
        }
    }
    assert(after =~= before.update(hit.step as int, true));
}

fn silent_pattern() -> (pattern: Vec<bool>)
    ensures
        pattern@ == pattern_of(Seq::empty()),
{
    let mut pattern: Vec<bool> = Vec::new();
    for i in 0..PERCUSSION_STEPS
        invariant
            pattern@ == Seq::new(i as nat, |k: int| false),
    {
        pattern.push(false);
    }
    assert(pattern@ =~= pattern_of(Seq::empty()));
    pattern
}

/// Plays one voice over the loop's four bars: every pulse of its one-bar rhythm
/// (the Euclidean rhythm of its pulses, turned by its rotation) is kept when a
/// unit draw falls below the keep threshold of its step; a voice that keeps no
/// hit gets one fallback hit at the step of its rotation.
pub fn generate_voice(
    kind: PercussionVoiceKind,
    voice_index: usize,
    shape: VoiceShape,
    keep: KeepThresholds,
    rng: &mut Rng64,
) -> (voice: PercussionVoice)
    ensures
        voice.kind == kind,
        voice.pulses == shape.pulses,
        voice.rotation == shape.rotation,
        voice.probability_draw == shape.probability_draw,
        (voice.hits@, final(rng)@) == voice_hits_spec(shape, keep, voice_index, old(rng)@),
        voice.pattern@ == pattern_of(voice.hits@),
        voice.pattern@.len() == PERCUSSION_STEPS,
        voice.hits@.len() > 0,
        forall|j: int| 0 <= j < voice.hits@.len() ==> #[trigger] voice.hits@[j].step < PERCUSSION_STEPS,
        forall|j: int|
            0 <= j < voice.hits@.len() && (#[trigger] voice.hits@[j]).velocity is Shaped
                ==> voice_base(shape)[(voice.hits@[j].step % 16) as int],
        forall|i: int, j: int|
            0 <= i < j < voice.hits@.len() ==> voice.hits@[i].step < voice.hits@[j].step,
{
    let rhythm = euclidean_pattern(PERCUSSION_STEPS_PER_BAR, shape.pulses);
    let base = rotate_pattern(rhythm.as_slice(), shape.rotation);
    assert(base@ == voice_base(shape));
    let mut pattern = silent_pattern();
    let mut hits: Vec<PercussionHit> = Vec::new();
    let tag: u64 = (voice_index as u64) << 32;
    let ghost start = rng@;
    proof {
        lemma_scan_hits(0, base@, keep, voice_index, start);
        assert(hits@ + scan_hits(0, base@, keep, voice_index, start).0 =~= scan_hits(
            0,
            base@,
            keep,
            voice_index,
            start,
        ).0);
    }
    let mut position: usize = 0;
    while position < PERCUSSION_STEPS
        invariant
            position <= 64,
            base@.len() == 16,
            tag == voice_seed_tag(voice_index),
            hits@ + scan_hits(position as nat, base@, keep, voice_index, rng@).0 == scan_hits(
                0,
                base@,
                keep,
                voice_index,
                start,
            ).0,
            scan_hits(position as nat, base@, keep, voice_index, rng@).1 == scan_hits(
                0,
                base@,
                keep,
                voice_index,
                start,
            ).1,
            pattern@ == pattern_of(hits@),
            forall|j: int| 0 <= j < hits@.len() ==> #[trigger] hits@[j].step < position,
        decreases 64 - position,
    {
        let ghost here = rng@;
        let ghost rest = scan_hits((position + 1) as nat, base@, keep, voice_index, hit_at(
            position as nat,
            base@,
            keep,
            voice_index,
            here,
        ).1);
        proof {
            lemma_state_after_add(here, 0, 0);
            lemma_state_after_add(here, 1, 0);
            lemma_state_after_add(here, 2, 0);
            lemma_state_after_add(here, 3, 0);
            lemma_state_after_add(here, 0, 1);
            lemma_state_after_add(here, 1, 1);
            lemma_state_after_add(here, 2, 1);
            lemma_state_after_add(here, 3, 1);
            assert(state_after(here, 0) == here);
        }
        let bar = position / 16;
        let step = position % 16;
        if base[step] {
            let strong = step % 4 == 0;
            let threshold = if strong {
                keep.strong
            } else {
                keep.weak
            };
            if rng.chance_below(threshold) {
                let accent_draw = if strong {
                    None
                } else {
                    Some(rng.next_unit())
                };
                let lift_draw = if bar == 0 {
                    None
                } else {
                    Some(rng.next_unit())
                };
                let event_seed = rng.next_u64() ^ tag;
                let hit = PercussionHit {
                    step: position,
                    velocity: HitVelocity::Shaped { accent_draw, lift_draw },
                    event_seed,
                };
                proof {
                    lemma_pattern_push(hits@, hit);
                    assert(hit_at(position as nat, base@, keep, voice_index, here) == (
                        Some(hit),
                        rng@,
                    ));
                    assert(hits@.push(hit) + rest.0 =~= hits@ + (seq![hit] + rest.0));
                }
                pattern.set(position, true);
                hits.push(hit);
            }
        }
        position += 1;
    }
    if hits.len() == 0 {
        let ghost end = rng@;
        let step = shape.rotation % PERCUSSION_STEPS_PER_BAR;
        let event_seed = rng.next_u64() ^ tag;
        let hit = PercussionHit { step, velocity: HitVelocity::Fallback, event_seed };
        proof {
            lemma_pattern_push(hits@, hit);
            assert(hits@.push(hit) =~= seq![hit]);
        }
        pattern.set(step, true);
        hits.push(hit);
    } else {
        proof {
            assert(hits@ + Seq::<PercussionHit>::empty() =~= hits@);
        }
    }
    PercussionVoice {
        kind,
        pulses: shape.pulses,
        rotation: shape.rotation,
        probability_draw: shape.probability_draw,
        pattern,
        hits,
    }
}

/// A voice that waits for its keep thresholds: its kind, its place in the kit and
/// its drawn shape.
#[derive(Clone, Copy, Debug, PartialEq, Eq, Structural)]
pub struct VoiceRequest {
    pub kind: PercussionVoiceKind,
    pub voice_index: usize,
    pub shape: VoiceShape,
}

/// A played voice: it kept at least one hit, every hit lies in the loop, and its
/// 64-step pattern is on exactly at its hits.
pub open spec fn voice_well_formed(voice: PercussionVoice) -> bool {
    &&& voice.hits@.len() > 0
    &&& voice.pattern@.len() == PERCUSSION_STEPS
    &&& voice.pattern@ == pattern_of(voice.hits@)
    &&& forall|j: int| 0 <= j < voice.hits@.len() ==> #[trigger] voice.hits@[j].step < PERCUSSION_STEPS
}

/// A kit's whole part: one played voice for each of the kit's four voices, in the
/// kit's order.
pub open spec fn kit_part_fits(part: PercussionPart) -> bool {
    &&& part.voices@.len() == 4
    &&& forall|i: int|
        0 <= i < 4 ==> (#[trigger] part.voices@[i]).kind == bank_voices(part.bank)[i]
            && voice_well_formed(part.voices@[i])
}

/// Builds a kit's part voice by voice. `next_voice` draws the shape of the kit's
/// next voice and asks for its keep thresholds; `add_voice` takes them and plays
/// the voice over the loop.
pub struct PercussionBuilder {
    bank: PercussionBank,
    voices: Vec<PercussionVoice>,
    pending: Option<VoiceShape>,
    rng: Rng64,
}

impl PercussionBuilder {
    pub closed spec fn spec_bank(&self) -> PercussionBank {
        self.bank
    }

    pub closed spec fn spec_voices(&self) -> Seq<PercussionVoice> {
        self.voices@
    }

    pub closed spec fn spec_pending(&self) -> Option<VoiceShape> {
        self.pending
    }

    pub closed spec fn spec_rng(&self) -> u64 {
        self.rng@
    }

    /// The builder's invariant.
    pub closed spec fn wf(&self) -> bool {
        &&& self.voices@.len() <= 4
        &&& forall|i: int|
            0 <= i < self.voices@.len() ==> (#[trigger] self.voices@[i]).kind == bank_voices(
                self.bank,
            )[i] && voice_well_formed(self.voices@[i])
        &&& self.pending is Some ==> self.voices@.len() < 4
    }

    /// A builder for the part of `bank`, drawing from `rng`, with no voice played.
    pub fn new(bank: PercussionBank, rng: Rng64) -> (builder: Self)
        ensures
            builder.wf(),
            builder.spec_bank() == bank,
            builder.spec_voices().len() == 0,
            builder.spec_pending() is None,
            builder.spec_rng() == rng@,
    {
        PercussionBuilder { bank, voices: Vec::new(), pending: None, rng }
    }

    /// What one call of `next_voice` does to the builder and asks (see `next_voice`).
    pub open spec fn voice_step(self, after: Self, request: Option<VoiceRequest>) -> bool {
        &&& after.spec_bank() == self.spec_bank()
        &&& after.spec_voices() == self.spec_voices()
        &&& {
            let n = self.spec_voices().len();
            if n < 4 {
                let kind = bank_voices(self.spec_bank())[n as int];
                let shape = voice_shape_spec(kind, self.spec_rng());
                &&& request == Some(VoiceRequest { kind, voice_index: n as usize, shape })
                &&& after.spec_pending() == Some(shape)
                &&& after.spec_rng() == state_after(self.spec_rng(), 3)
            } else {
                &&& request is None
                &&& after.spec_pending() is None
                &&& after.spec_rng() == self.spec_rng()
            }
        }
    }

    /// What one call of `add_voice` with `keep` does to the builder (see `add_voice`).
    pub open spec fn add_step(self, after: Self, keep: KeepThresholds) -> bool {
        &&& after.spec_bank() == self.spec_bank()
        &&& after.spec_pending() is None
        &&& self.spec_pending() is None ==> after.spec_voices() == self.spec_voices()
            && after.spec_rng() == self.spec_rng()
        &&& self.spec_pending() is Some ==> {
            let shape = self.spec_pending().unwrap();
            let n = self.spec_voices().len();
            let voice = after.spec_voices()[n as int];
            &&& after.spec_voices().len() == n + 1
            &&& after.spec_voices().subrange(0, n as int) == self.spec_voices()
            &&& voice.kind == bank_voices(self.spec_bank())[n as int]
            &&& voice.pulses == shape.pulses
            &&& voice.rotation == shape.rotation
            &&& voice.probability_draw == shape.probability_draw
            &&& (voice.hits@, after.spec_rng()) == voice_hits_spec(
                shape,
                keep,
                n as usize,
                self.spec_rng(),
            )
            &&& voice.pattern@ == pattern_of(voice.hits@)
        }
    }

    /// Draws the shape of the kit's next voice (see `voice_shape_spec`) and asks for
    /// its keep thresholds; once the four voices are played nothing is asked.
    pub fn next_voice(&mut self) -> (request: Option<VoiceRequest>)
        requires
            old(self).wf(),
            old(self).spec_pending() is None,
        ensures
            final(self).wf(),
            old(self).voice_step(*final(self), request),
    {
        let n = self.voices.len();
        if n >= 4 {
            return None;
        }
        let kind = self.bank.voices()[n];
        let shape = draw_voice_shape(kind, &mut self.rng);
        self.pending = Some(shape);
        Some(VoiceRequest { kind, voice_index: n, shape })
    }

    /// Plays the waiting voice over the loop with the given keep thresholds (see
    /// `generate_voice`); with no waiting voice nothing changes.
    pub fn add_voice(&mut self, keep: KeepThresholds)
        requires
            old(self).wf(),
        ensures
            final(self).wf(),
            old(self).add_step(*final(self), keep),
    {
        let shape = match self.pending {
            Some(shape) => shape,
            None => {
                return;
            },
        };
        let n = self.voices.len();
        let kind = self.bank.voices()[n];
        let voice = generate_voice(kind, n, shape, keep, &mut self.rng);
        let ghost before = self.voices@;
        self.voices.push(voice);
        self.pending = None;
        proof {
            assert(self.voices@.subrange(0, n as int) =~= before);
        }
    }

    /// Whether the four voices are played.
    pub fn is_complete(&self) -> (complete: bool)
        ensures
            complete == (self.spec_voices().len() == 4 && self.spec_pending() is None),
    {
        self.voices.len() == 4 && self.pending.is_none()
    }

    /// The finished part.
    pub fn finish(self) -> (part: PercussionPart)
        requires
            self.wf(),
            self.spec_voices().len() == 4,
        ensures
            part.bank == self.spec_bank(),
            part.voices@ == self.spec_voices(),
            kit_part_fits(part),
    {
        PercussionPart { bank: self.bank, voices: self.voices }
    }
}

} // verus!
