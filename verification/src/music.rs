use vstd::prelude::*;
use crate::rng::{
    draw_at, lemma_draw_shift, lemma_state_after_add, state_after, step_state, unit_of, Rng64,
};

verus! {

/// Slots of an instrument phrase (eighth notes over the loop).
pub const INSTRUMENT_SLOTS: usize = 32;

/// Percussion steps in one bar (sixteenth notes).
pub const PERCUSSION_STEPS_PER_BAR: usize = 16;

/// Percussion steps over the loop.
pub const PERCUSSION_STEPS: usize = 64;

/// Bars in the loop.
pub const LOOP_BARS: usize = 4;

/// Beats in a bar.
pub const BEATS_PER_BAR: usize = 4;

/// Beats in the loop.
pub const LOOP_BEATS: usize = LOOP_BARS * BEATS_PER_BAR;

/// Unit draws below this value (`ceil(0.45 * 2^24)` for the `f32` nearest 0.45)
/// are the draws under 0.45: the chance that the last bar turns to the fifth degree.
pub const DOMINANT_TURN_THRESHOLD: u32 = 7549747;

/// The church modes a band may play in (Locrian is left out).
#[derive(Clone, Copy, Debug, PartialEq, Eq, Structural)]
pub enum Mode {
    Ionian,
    Dorian,
    Phrygian,
    Lydian,
    Mixolydian,
    Aeolian,
}

/// The modes in their fixed order.
pub open spec fn mode_at(index: int) -> Mode {
    if index == 0 {
        Mode::Ionian
    } else if index == 1 {
        Mode::Dorian
    } else if index == 2 {
        Mode::Phrygian
    } else if index == 3 {
        Mode::Lydian
    } else if index == 4 {
        Mode::Mixolydian
    } else {
        Mode::Aeolian
    }
}

/// The semitone offsets of the seven degrees of a mode above its root.
pub open spec fn mode_intervals(mode: Mode) -> Seq<u8> {
    match mode {
        Mode::Ionian => seq![0u8, 2, 4, 5, 7, 9, 11],
        Mode::Dorian => seq![0u8, 2, 3, 5, 7, 9, 10],
        Mode::Phrygian => seq![0u8, 1, 3, 5, 7, 8, 10],
        Mode::Lydian => seq![0u8, 2, 4, 6, 7, 9, 11],
        Mode::Mixolydian => seq![0u8, 2, 4, 5, 7, 9, 10],
        Mode::Aeolian => seq![0u8, 2, 3, 5, 7, 8, 10],
    }
}

impl Mode {
    /// Every mode, in order.
    pub const ALL: [Mode; 6] = [
        Mode::Ionian,
        Mode::Dorian,
        Mode::Phrygian,
        Mode::Lydian,
        Mode::Mixolydian,
        Mode::Aeolian,
    ];

    /// The semitone offsets of the mode's seven degrees above the root.
    pub fn intervals(self) -> (intervals: [u8; 7])
        ensures
            intervals@ == mode_intervals(self),
    {
        let intervals = match self {
            Mode::Ionian => [0, 2, 4, 5, 7, 9, 11],
            Mode::Dorian => [0, 2, 3, 5, 7, 9, 10],
            Mode::Phrygian => [0, 1, 3, 5, 7, 8, 10],
            Mode::Lydian => [0, 2, 4, 6, 7, 9, 11],
            Mode::Mixolydian => [0, 2, 4, 5, 7, 9, 10],
            Mode::Aeolian => [0, 2, 3, 5, 7, 8, 10],
        };
        assert(intervals@ =~= mode_intervals(self));
        intervals
    }
}

/// The root of a band's key: a pitch class (0 is C) and one of its spellings.
#[derive(Clone, Debug, PartialEq, Eq)]
pub struct RootNote {
    pub pitch_class: u8,
    pub name: String,
}

/// One bar of the loop's harmony: the scale degree of its chord root and the
/// triad built on it.
#[derive(Clone, Copy, Debug, PartialEq, Eq)]
pub struct HarmonicBar {
    pub bar: usize,
    pub root_degree: u8,
    pub chord_degrees: [u8; 3],
}

/// The spellings a root of each pitch class may take.
pub open spec fn root_spellings(pitch_class: u8) -> Seq<Seq<char>> {
    if pitch_class == 0 {
        seq!["C"@]
    } else if pitch_class == 1 {
        seq!["C#"@, "Db"@]
    } else if pitch_class == 2 {
        seq!["D"@]
    } else if pitch_class == 3 {
        seq!["D#"@, "Eb"@]
    } else if pitch_class == 4 {
        seq!["E"@, "Fb"@]
    } else if pitch_class == 5 {
        seq!["F"@, "E#"@]
    } else if pitch_class == 6 {
        seq!["F#"@, "Gb"@]
    } else if pitch_class == 7 {
        seq!["G"@]
    } else if pitch_class == 8 {
        seq!["G#"@, "Ab"@]
    } else if pitch_class == 9 {
        seq!["A"@]
    } else if pitch_class == 10 {
        seq!["A#"@, "Bb"@]
    } else {
        seq!["B"@, "Cb"@]
    }
}

fn spelling_count(pitch_class: u8) -> (count: usize)
    ensures
        count == root_spellings(pitch_class).len(),
{
    if pitch_class == 0 || pitch_class == 2 || pitch_class == 7 || pitch_class == 9 {
        1
    } else {
        2
    }
}

fn spelling(pitch_class: u8, index: usize) -> (name: String)
    requires
        index < root_spellings(pitch_class).len(),
    ensures
        name@ == root_spellings(pitch_class)[index as int],
{
    let text = if pitch_class == 0 {
        "C"
    } else if pitch_class == 1 {
        if index == 0 {
            "C#"
        } else {
            "Db"
        }
    } else if pitch_class == 2 {
        "D"
    } else if pitch_class == 3 {
        if index == 0 {
            "D#"
        } else {
            "Eb"
        }
    } else if pitch_class == 4 {
        if index == 0 {
            "E"
        } else {
            "Fb"
        }
    } else if pitch_class == 5 {
        if index == 0 {
            "F"
        } else {
            "E#"
        }
    } else if pitch_class == 6 {
        if index == 0 {
            "F#"
        } else {
            "Gb"
        }
    } else if pitch_class == 7 {
        "G"
    } else if pitch_class == 8 {
        if index == 0 {
            "G#"
        } else {
            "Ab"
        }
    } else if pitch_class == 9 {
        "A"
    } else if pitch_class == 10 {
        if index == 0 {
            "A#"
        } else {
            "Bb"
        }
    } else if index == 0 {
        "B"
    } else {
        "Cb"
    };
    String::from_str(text)
}

/// Picks a root: a pitch class from the high bits of one draw, then one of its
/// spellings from the next.
pub fn choose_root(rng: &mut Rng64) -> (root: RootNote)
    ensures
        final(rng)@ == state_after(old(rng)@, 2),
        root.pitch_class == ((draw_at(old(rng)@, 0) >> 32u64) as u32 % 12) as u8,
        root.pitch_class < 12,
        root.name@ == root_spellings(root.pitch_class)[(draw_at(old(rng)@, 1) as usize) as int
            % (root_spellings(root.pitch_class).len() as int)],
{
    proof {
        lemma_draw_shift(rng@, 1);
        lemma_draw_shift(rng@, 0);
        crate::rng::lemma_state_after_shift(rng@, 1);
        crate::rng::lemma_state_after_shift(step_state(rng@), 0);
    }
    let pitch_class = rng.range_u32(0, 11) as u8;
    let index = rng.pick_index(spelling_count(pitch_class));
    let name = spelling(pitch_class, index);
    RootNote { pitch_class, name }
}

/// Picks one of the six modes from one draw.
pub fn choose_mode(rng: &mut Rng64) -> (mode: Mode)
    ensures
        final(rng)@ == step_state(old(rng)@),
        mode == mode_at((draw_at(old(rng)@, 0) as usize % 6) as int),
{
    let index = rng.pick_index(6);
    Mode::ALL[index]
}

/// The degrees a bar's chord root may take when chosen at random, in order.
pub open spec fn stable_degree(index: int) -> u8 {
    if index == 0 {
        0
    } else if index == 1 {
        4
    } else if index == 2 {
        2
    } else if index == 3 {
        5
    } else {
        3
    }
}

/// The stable degree a draw picks.
pub open spec fn picked_degree(draw: u64) -> u8 {
    stable_degree((draw as usize) as int % 5)
}

/// `bar` is bar number `index` with its chord rooted on `degree`: the triad of
/// the degree, the third above it and the fifth above it, within the seven degrees.
pub open spec fn is_harmony_bar(bar: HarmonicBar, index: nat, degree: u8) -> bool {
    &&& bar.bar == index
    &&& bar.root_degree == degree
    &&& bar.chord_degrees@ == seq![degree % 7, ((degree + 2) % 7) as u8, ((degree + 4) % 7) as u8]
}

/// The harmony drawn from a generator in `state`: the tonic, two stable degrees
/// from the next two draws, and for the last bar the fifth degree when the third
/// unit draw falls below the dominant threshold, else a stable degree from a fourth
/// draw.
pub open spec fn is_harmony_from(bars: Seq<HarmonicBar>, state: u64) -> bool {
    &&& bars.len() == LOOP_BARS
    &&& is_harmony_bar(bars[0], 0, 0)
    &&& is_harmony_bar(bars[1], 1, picked_degree(draw_at(state, 0)))
    &&& is_harmony_bar(bars[2], 2, picked_degree(draw_at(state, 1)))
    &&& if unit_of(draw_at(state, 2)) < DOMINANT_TURN_THRESHOLD {
        is_harmony_bar(bars[3], 3, 4)
    } else {
        is_harmony_bar(bars[3], 3, picked_degree(draw_at(state, 3)))
    }
}

/// The state after drawing a harmony.
pub open spec fn harmony_end(state: u64) -> u64 {
    if unit_of(draw_at(state, 2)) < DOMINANT_TURN_THRESHOLD {
        state_after(state, 3)
    } else {
        state_after(state, 4)
    }
}

/// The harmony's bars are four triads numbered from 0: the first on the tonic, the
/// second and third on the stable degrees 0, 4, 2, 5, 3 picked by the first two
/// draws (by the draw modulo 5), and the last on the fifth degree when the third
/// unit draw is under 7549747 (a chance of 0.45), else on the stable degree picked
/// by the fourth draw, so that any stable degree may close the loop.
pub proof fn lemma_harmony_degrees(bars: Seq<HarmonicBar>, state: u64)
    requires
        is_harmony_from(bars, state),
    ensures
        bars.len() == 4,
        bars[0].root_degree == 0,
        bars[1].root_degree == seq![0u8, 4, 2, 5, 3][((draw_at(state, 0) as usize) % 5) as int],
        bars[2].root_degree == seq![0u8, 4, 2, 5, 3][((draw_at(state, 1) as usize) % 5) as int],
        ((draw_at(state, 2) >> 40u64) as u32) < 7549747 ==> bars[3].root_degree == 4,
        ((draw_at(state, 2) >> 40u64) as u32) >= 7549747 ==> bars[3].root_degree == seq![
            0u8,
            4,
            2,
            5,
            3,
        ][((draw_at(state, 3) as usize) % 5) as int],
        forall|i: int|
            0 <= i < 4 ==> (#[trigger] bars[i]).bar == i && bars[i].chord_degrees@ == seq![
                bars[i].root_degree % 7,
                ((bars[i].root_degree + 2) % 7) as u8,
                ((bars[i].root_degree + 4) % 7) as u8,
            ],
{
    assert forall|i: int| 0 <= i < 4 implies (#[trigger] bars[i]).bar == i && bars[i].chord_degrees@ == seq![
        bars[i].root_degree % 7,
        ((bars[i].root_degree + 2) % 7) as u8,
        ((bars[i].root_degree + 4) % 7) as u8,
    ] by {
        if i == 0 {
        } else if i == 1 {
        } else if i == 2 {
        } else {
        }
    }
}

fn harmony_bar(index: usize, degree: u8) -> (bar: HarmonicBar)
    requires
        degree < 7,
    ensures
        is_harmony_bar(bar, index as nat, degree),
{
    let bar = HarmonicBar {
        bar: index,
        root_degree: degree,
        chord_degrees: [degree % 7, (degree + 2) % 7, (degree + 4) % 7],
    };
    assert(bar.chord_degrees@ =~= seq![degree % 7, ((degree + 2) % 7) as u8, ((degree + 4) % 7) as u8]);
    bar
}

fn pick_stable_degree(rng: &mut Rng64) -> (degree: u8)
    ensures
        final(rng)@ == step_state(old(rng)@),
        degree == picked_degree(draw_at(old(rng)@, 0)),
        degree < 7,
{
    let stable_degrees = [0u8, 4, 2, 5, 3];
    let index = rng.pick_index(5);
    stable_degrees[index]
}

/// The chord roots of the loop's four bars: the tonic first, then two stable
/// degrees drawn at random, and for the last bar the fifth degree with a chance of
/// 0.45 and else a third stable degree.
pub fn generate_harmony(rng: &mut Rng64) -> (bars: Vec<HarmonicBar>)
    ensures
        is_harmony_from(bars@, old(rng)@),
        final(rng)@ == harmony_end(old(rng)@),
        forall|i: int| 0 <= i < bars@.len() ==> bars@[i].root_degree < 7,
{
    let ghost start = rng@;
    proof {
        lemma_state_after_add(start, 0, 0);
        lemma_state_after_add(start, 0, 1);
        lemma_state_after_add(start, 1, 0);
        lemma_state_after_add(start, 1, 1);
        lemma_state_after_add(start, 2, 0);
        lemma_state_after_add(start, 2, 1);
        lemma_state_after_add(start, 3, 0);
        lemma_state_after_add(start, 3, 1);
        assert(state_after(start, 0) == start);
    }
    let mut bars: Vec<HarmonicBar> = Vec::with_capacity(LOOP_BARS);
    bars.push(harmony_bar(0, 0));
    let first = pick_stable_degree(rng);
    bars.push(harmony_bar(1, first));
    let second = pick_stable_degree(rng);
    bars.push(harmony_bar(2, second));
    let last = if rng.chance_below(DOMINANT_TURN_THRESHOLD) {
        4
    } else {
        pick_stable_degree(rng)
    };
    bars.push(harmony_bar(3, last));
    bars
}

/// The pitch class (0 is C) of a MIDI note.
pub fn pitch_class_for_midi(midi: u8) -> (pitch_class: u8)
    ensures
        pitch_class == midi % 12,
{
    midi % 12
}

/// The semitones from the root up to a note's pitch class, as the remainder
/// (truncated toward zero) of `12 + pitch class - root` by 12. For a root pitch
/// class above 11 this may be negative, and matches no degree unless it is 0.
pub open spec fn relative_semitones(midi: u8, root_pitch_class: u8) -> int {
    let v = 12 + (midi % 12) as int - root_pitch_class as int;
    if v >= 0 {
        v % 12
    } else {
        -((-v) % 12)
    }
}

/// The first degree at or after `i` whose interval is `relative`.
pub open spec fn degree_search(intervals: Seq<u8>, relative: int, i: nat) -> Option<u8>
    decreases intervals.len() - i,
{
    if i >= intervals.len() {
        None
    } else if intervals[i as int] as int == relative {
        Some(i as u8)
    } else {
        degree_search(intervals, relative, i + 1)
    }
}

/// The scale degree (0 to 6) of a note in a mode on a root, if the note is in the mode.
pub open spec fn mode_degree_spec(midi: u8, root_pitch_class: u8, mode: Mode) -> Option<u8> {
    degree_search(mode_intervals(mode), relative_semitones(midi, root_pitch_class), 0)
}

/// Whether a note belongs to a mode on a root.
pub open spec fn in_mode(midi: u8, root_pitch_class: u8, mode: Mode) -> bool {
    mode_degree_spec(midi, root_pitch_class, mode) is Some
}

proof fn lemma_degree_search(intervals: Seq<u8>, relative: int, i: nat)
    requires
        intervals.len() <= 7,
        i <= intervals.len(),
    ensures
        match degree_search(intervals, relative, i) {
            Some(d) => i <= d < intervals.len() && intervals[d as int] == relative && forall|
                j: int,
            | i <= j < d ==> intervals[j] != relative,
            None => forall|j: int| i <= j < intervals.len() ==> intervals[j] != relative,
        },
    decreases intervals.len() - i,
{
    if i < intervals.len() && intervals[i as int] as int != relative {
        lemma_degree_search(intervals, relative, i + 1);
    }
}

/// The scale degree (0 to 6) of a note in a mode on a root, or `None` when the
/// note is outside the mode.
pub fn mode_degree_for_midi(midi: u8, root_pitch_class: u8, mode: Mode) -> (degree: Option<u8>)
    ensures
        degree == mode_degree_spec(midi, root_pitch_class, mode),
        match degree {
            Some(d) => d < 7 && mode_intervals(mode)[d as int] as int == relative_semitones(
                midi,
                root_pitch_class,
            ),
            None => forall|j: int|
                0 <= j < 7 ==> mode_intervals(mode)[j] as int != relative_semitones(
                    midi,
                    root_pitch_class,
                ),
        },
{
    let v: i32 = 12 + pitch_class_for_midi(midi) as i32 - root_pitch_class as i32;
    let relative: i32 = if v >= 0 {
        v % 12
    } else {
        -((-v) % 12)
    };
    let intervals = mode.intervals();
    let ghost rel = relative_semitones(midi, root_pitch_class);
    assert(relative as int == rel);
    proof {
        lemma_degree_search(intervals@, rel, 0);
    }
    let mut index: usize = 0;
    while index < 7
        invariant
            index <= 7,
            intervals@.len() == 7,
            rel == relative_semitones(midi, root_pitch_class),
            intervals@ == mode_intervals(mode),
            relative as int == rel,
            degree_search(intervals@, rel, 0) == degree_search(intervals@, rel, index as nat),
        decreases 7 - index,
    {
        if intervals[index] as i32 == relative {
            assert(degree_search(intervals@, rel, index as nat) == Some(index as u8));
            return Some(index as u8);
        }
        assert(degree_search(intervals@, rel, index as nat) == degree_search(
            intervals@,
            rel,
            (index + 1) as nat,
        ));
        index += 1;
    }
    None
}

/// Whether a note belongs to a mode on a root.
pub fn midi_is_in_mode(midi: u8, root_pitch_class: u8, mode: Mode) -> (member: bool)
    ensures
        member == in_mode(midi, root_pitch_class, mode),
{
    mode_degree_for_midi(midi, root_pitch_class, mode).is_some()
}

/// The notes from `low` up to just below `end` that belong to the mode, in order.
pub open spec fn mode_midis_between(low: int, end: int, root_pitch_class: u8, mode: Mode) -> Seq<u8>
    decreases end - low,
{
    if end <= low {
        Seq::empty()
    } else {
        let below = mode_midis_between(low, end - 1, root_pitch_class, mode);
        if in_mode((end - 1) as u8, root_pitch_class, mode) {
            below.push((end - 1) as u8)
        } else {
            below
        }
    }
}

/// Every note from `low` to `high` (inclusive) that belongs to the mode, in
/// ascending order.
pub fn mode_midis_in_range(low: u8, high: u8, root_pitch_class: u8, mode: Mode) -> (midis: Vec<u8>)
    ensures
        midis@ == mode_midis_between(low as int, high as int + 1, root_pitch_class, mode),
        forall|i: int, j: int| 0 <= i < j < midis@.len() ==> midis@[i] < midis@[j],
        forall|i: int|
            0 <= i < midis@.len() ==> low <= #[trigger] midis@[i] <= high && in_mode(
                midis@[i],
                root_pitch_class,
                mode,
            ),
        forall|m: u8|
            low <= m <= high && #[trigger] in_mode(m, root_pitch_class, mode) ==> midis@.contains(
                m,
            ),
{
    let mut midis: Vec<u8> = Vec::new();
    let mut next: u16 = low as u16;
    while next <= high as u16
        invariant
            low <= next,
            next <= high as u16 + 1 || next == low,
            midis@ == mode_midis_between(low as int, next as int, root_pitch_class, mode),
            forall|i: int, j: int| 0 <= i < j < midis@.len() ==> midis@[i] < midis@[j],
            forall|i: int|
                0 <= i < midis@.len() ==> low <= #[trigger] midis@[i] < next && in_mode(
                    midis@[i],
                    root_pitch_class,
                    mode,
                ),
            forall|m: u8|
                low <= m < next && #[trigger] in_mode(m, root_pitch_class, mode)
                    ==> midis@.contains(m),
        decreases high as u16 + 1 - next,
    {
        let midi = next as u8;
        let ghost before = midis@;
        if midi_is_in_mode(midi, root_pitch_class, mode) {
            midis.push(midi);
            assert(midis@[midis@.len() - 1] == midi);
        }
        assert forall|m: u8|
            low <= m < next + 1 && #[trigger] in_mode(m, root_pitch_class, mode) implies midis@.contains(
                m,
            ) by {
            if m < next {
                assert(before.contains(m));
                let k = choose|k: int| 0 <= k < before.len() && before[k] == m;
                assert(midis@[k] == m);
            } else {
                assert(m == midi);
                assert(midis@[midis@.len() - 1] == m);
            }
        }
        next += 1;
    }
    midis
}

/// Whether a note is one of the three chord tones of a bar, in a mode on a root.
pub fn midi_is_chord_tone(midi: u8, root_pitch_class: u8, mode: Mode, harmonic_bar: &HarmonicBar) -> (chord_tone: bool)
    ensures
        chord_tone == match mode_degree_spec(midi, root_pitch_class, mode) {
            Some(d) => harmonic_bar.chord_degrees@.contains(d),
            None => false,
        },
{
    match mode_degree_for_midi(midi, root_pitch_class, mode) {
        Some(degree) => {
            let chord = harmonic_bar.chord_degrees;
            let found = chord[0] == degree || chord[1] == degree || chord[2] == degree;
            proof {
                if harmonic_bar.chord_degrees@.contains(degree) {
                    let k = choose|k: int| 0 <= k < 3 && harmonic_bar.chord_degrees@[k] == degree;
                    assert(k == 0 || k == 1 || k == 2);
                }
                if found {
                    if chord[0] == degree {
                        assert(harmonic_bar.chord_degrees@[0] == degree);
                    } else if chord[1] == degree {
                        assert(harmonic_bar.chord_degrees@[1] == degree);
                    } else {
                        assert(harmonic_bar.chord_degrees@[2] == degree);
                    }
                }
            }
            found
        },
        None => false,
    }
}

} // verus!
