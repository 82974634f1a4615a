use vstd::prelude::*;
use crate::instruments::{picked_instrument, profile_spec, select_instrument_banks, InstrumentBank};
use crate::music::{
    choose_mode, choose_root, generate_harmony, harmony_end, in_mode, is_harmony_from, mode_at,
    mode_degree_spec, mode_intervals, mode_midis_between, mode_midis_in_range,
    relative_semitones, root_spellings, HarmonicBar, Mode, RootNote, INSTRUMENT_SLOTS,
    LOOP_BEATS,
};
use crate::percussion::{
    kit_part_fits, percussion_bank_at, KeepThresholds, PercussionBank, PercussionBuilder,
    PercussionPart, VoiceRequest,
};
use crate::rng::{
    draw_at, lemma_distinct_salts_distinct_streams, lemma_state_after_add, mix64, mix64_spec,
    seeded_state, state_after, step_state, unit_of, wrap_mul, Rng64, SPLITMIX_INCREMENT,
    ZERO_SEED_STATE,
};

verus! {

/// Unit draws below this value are the draws under 0.72: the chance that a harp
/// note is cut to one slot.
pub const HARP_PLUCK_THRESHOLD: u32 = 12079596;

/// Unit draws below this value are the draws under 0.35: the chance that a pad
/// note holds as long as it may.
pub const PADS_HOLD_THRESHOLD: u32 = 5872026;

/// Unit draws below this value are the draws under 0.45: the chance that the
/// clarinet breathes for one slot after a note.
pub const CLARINET_BREATH_THRESHOLD: u32 = 7549747;

/// The unit-draw threshold below which an instrument starts a note at a slot of
/// a bar: its density, thinned on the off-beats for pads and bass and on the last
/// slot of the bar for the clarinet, as `ceil(p * 2^24)` for the `f32` product `p`.
pub open spec fn note_start_threshold_spec(bank: InstrumentBank, slot_in_bar: nat) -> u32 {
    match bank {
        InstrumentBank::Harp => 10401874,
        InstrumentBank::Bass => if slot_in_bar % 2 == 1 {
            3053454
        } else {
            4697621
        },
        InstrumentBank::Pads => if slot_in_bar % 2 == 1 {
            1140851
        } else {
            5704254
        },
        InstrumentBank::Synth => 8053064,
        InstrumentBank::Clarinet => if slot_in_bar == 7 {
            1761608
        } else {
            7046431
        },
    }
}

/// The unit-draw threshold below which an instrument starts a note at a slot of a bar.
pub fn note_start_threshold(bank: InstrumentBank, slot_in_bar: usize) -> (threshold: u32)
    ensures
        threshold == note_start_threshold_spec(bank, slot_in_bar as nat),
{
    match bank {
        InstrumentBank::Harp => 10401874,
        InstrumentBank::Bass => if slot_in_bar % 2 == 1 {
            3053454
        } else {
            4697621
        },
        InstrumentBank::Pads => if slot_in_bar % 2 == 1 {
            1140851
        } else {
            5704254
        },
        InstrumentBank::Synth => 8053064,
        InstrumentBank::Clarinet => if slot_in_bar == 7 {
            1761608
        } else {
            7046431
        },
    }
}

/// The shortest and longest note an instrument may start with `remaining` slots left.
pub open spec fn duration_bounds(bank: InstrumentBank, remaining: nat) -> (nat, nat) {
    let profile = profile_spec(bank);
    let capped = if (profile.max_sustain_slots as nat) < remaining {
        profile.max_sustain_slots as nat
    } else {
        remaining
    };
    let longest: nat = if capped < 1 {
        1
    } else {
        capped
    };
    let shortest: nat = if (profile.min_sustain_slots as nat) < longest {
        profile.min_sustain_slots as nat
    } else {
        longest
    };
    (shortest, longest)
}

/// The length of a note and the state after its draws: one draw picks a length
/// within the bounds; then a harp cuts it to one slot with a chance of 0.72 and a
/// pad stretches it to the longest with a chance of 0.35, each from one more draw.
pub open spec fn duration_spec(bank: InstrumentBank, remaining: nat, state: u64) -> (usize, u64) {
    let (shortest, longest) = duration_bounds(bank, remaining);
    let drawn = (shortest + (draw_at(state, 0) as usize) as int % ((longest - shortest + 1) as int)) as usize;
    match bank {
        InstrumentBank::Harp => (
            if unit_of(draw_at(state, 1)) < HARP_PLUCK_THRESHOLD {
                1
            } else {
                drawn
            },
            state_after(state, 2),
        ),
        InstrumentBank::Pads => (
            if unit_of(draw_at(state, 1)) < PADS_HOLD_THRESHOLD {
                longest as usize
            } else {
                drawn
            },
            state_after(state, 2),
        ),
        _ => (drawn, state_after(state, 1)),
    }
}

/// The length in slots of an instrument's next note, with `remaining` slots left
/// in the phrase.
pub fn choose_duration(bank: InstrumentBank, remaining: usize, rng: &mut Rng64) -> (duration: usize)
    ensures
        (duration, final(rng)@) == duration_spec(bank, remaining as nat, old(rng)@),
        1 <= duration <= duration_bounds(bank, remaining as nat).1,
        remaining >= 1 ==> duration <= remaining && duration <= profile_spec(bank).max_sustain_slots
            && (duration >= profile_spec(bank).min_sustain_slots || duration == remaining),
{
    let ghost start = rng@;
    proof {
        lemma_state_after_add(start, 0, 0);
        lemma_state_after_add(start, 0, 1);
        lemma_state_after_add(start, 1, 0);
        lemma_state_after_add(start, 1, 1);
        assert(state_after(start, 0) == start);
    }
    let profile = bank.profile();
    let capped = if profile.max_sustain_slots < remaining {
        profile.max_sustain_slots
    } else {
        remaining
    };
    let max = if capped < 1 {
        1
    } else {
        capped
    };
    let min = if profile.min_sustain_slots < max {
        profile.min_sustain_slots
    } else {
        max
    };
    let mut duration = rng.range_usize(min, max);
    if bank == InstrumentBank::Harp && rng.chance_below(HARP_PLUCK_THRESHOLD) {
        duration = 1;
    }
    if bank == InstrumentBank::Pads && rng.chance_below(PADS_HOLD_THRESHOLD) {
        duration = max;
    }
    if duration < 1 {
        1
    } else {
        duration
    }
}

/// The distance in semitones between two notes.
pub open spec fn semitone_distance(a: u8, b: u8) -> int {
    if a >= b {
        a - b
    } else {
        b - a
    }
}

/// The notes of `s`, in order, within `leap` semitones of `previous`.
pub open spec fn keep_within(s: Seq<u8>, previous: u8, leap: u8) -> Seq<u8>
    decreases s.len(),
{
    if s.len() == 0 {
        Seq::empty()
    } else {
        let kept = keep_within(s.drop_last(), previous, leap);
        if semitone_distance(previous, s.last()) <= leap {
            kept.push(s.last())
        } else {
            kept
        }
    }
}

/// Every note of an instrument's range in the mode, from low to high.
pub open spec fn range_midis(bank: InstrumentBank, root_pitch_class: u8, mode: Mode) -> Seq<u8> {
    let profile = profile_spec(bank);
    mode_midis_between(profile.low_midi as int, profile.high_midi as int + 1, root_pitch_class, mode)
}

/// The notes an instrument may play next: those of its range in the mode that lie
/// within its widest leap of the previous note, or all of them when there is no
/// previous note or none lies that near.
pub open spec fn candidates_spec(bank: InstrumentBank, previous: Option<u8>, root_pitch_class: u8, mode: Mode) -> Seq<u8> {
    let all = range_midis(bank, root_pitch_class, mode);
    match previous {
        Some(p) => {
            let near = keep_within(all, p, profile_spec(bank).max_leap_semitones);
            if near.len() == 0 {
                all
            } else {
                near
            }
        },
        None => all,
    }
}

/// The note a pitch choice resolves to: the chosen candidate, or, when the choice
/// names none, the middle candidate.
pub open spec fn resolve_spec(candidates: Seq<u8>, choice: Option<usize>) -> u8 {
    match choice {
        Some(i) => if i < candidates.len() {
            candidates[i as int]
        } else {
            candidates[(candidates.len() / 2) as int]
        },
        None => candidates[(candidates.len() / 2) as int],
    }
}

/// A note fits an instrument in a key: it lies in the instrument's range and in the mode.
pub open spec fn fits_instrument(midi: u8, bank: InstrumentBank, root_pitch_class: u8, mode: Mode) -> bool {
    &&& profile_spec(bank).low_midi <= midi <= profile_spec(bank).high_midi
    &&& in_mode(midi, root_pitch_class, mode)
}

proof fn lemma_mode_midis_between(low: int, end: int, root_pitch_class: u8, mode: Mode)
    requires
        0 <= low,
        end <= 256,
    ensures
        forall|i: int|
            0 <= i < mode_midis_between(low, end, root_pitch_class, mode).len() ==> low
                <= #[trigger] mode_midis_between(low, end, root_pitch_class, mode)[i] < end
                && in_mode(mode_midis_between(low, end, root_pitch_class, mode)[i], root_pitch_class, mode),
        forall|m: u8|
            low <= m < end && #[trigger] in_mode(m, root_pitch_class, mode) ==> mode_midis_between(
                low,
                end,
                root_pitch_class,
                mode,
            ).contains(m),
    decreases end - low,
{
    if end > low {
        lemma_mode_midis_between(low, end - 1, root_pitch_class, mode);
        let below = mode_midis_between(low, end - 1, root_pitch_class, mode);
        let all = mode_midis_between(low, end, root_pitch_class, mode);
        assert forall|m: u8| low <= m < end && #[trigger] in_mode(m, root_pitch_class, mode) implies all.contains(m) by {
            if m < end - 1 {
                let k = choose|k: int| 0 <= k < below.len() && below[k] == m;
                assert(all[k] == m);
            } else {
                assert(all[all.len() - 1] == m);
            }
        }
    }
}

proof fn lemma_keep_within(s: Seq<u8>, previous: u8, leap: u8)
    ensures
        forall|i: int|
            0 <= i < keep_within(s, previous, leap).len() ==> semitone_distance(
                previous,
                #[trigger] keep_within(s, previous, leap)[i],
            ) <= leap && s.contains(keep_within(s, previous, leap)[i]),
        s.contains(previous) ==> keep_within(s, previous, leap).contains(previous),
    decreases s.len(),
{
    if s.len() > 0 {
        lemma_keep_within(s.drop_last(), previous, leap);
        let kept = keep_within(s.drop_last(), previous, leap);
        let all = keep_within(s, previous, leap);
        assert forall|i: int| 0 <= i < all.len() implies semitone_distance(previous, #[trigger] all[i]) <= leap && s.contains(all[i]) by {
            if i < kept.len() {
                assert(all[i] == kept[i]);
                let k = choose|k: int| 0 <= k < s.drop_last().len() && s.drop_last()[k] == kept[i];
                assert(s[k] == all[i]);
            } else {
                assert(all[i] == s.last());
                assert(s[s.len() - 1] == all[i]);
            }
        }
        if s.contains(previous) {
            let k = choose|k: int| 0 <= k < s.len() && s[k] == previous;
            if k < s.len() - 1 {
                assert(s.drop_last()[k] == previous);
                let j = choose|j: int| 0 <= j < kept.len() && kept[j] == previous;
                assert(all[j] == previous);
            } else {
                assert(all[all.len() - 1] == previous);
            }
        }
    }
}

proof fn lemma_root_in_mode(midi: u8, root_pitch_class: u8, mode: Mode)
    requires
        midi % 12 == root_pitch_class % 12,
    ensures
        in_mode(midi, root_pitch_class, mode),
        mode_degree_spec(midi, root_pitch_class, mode) == Some(0u8),
{
    assert(relative_semitones(midi, root_pitch_class) == 0);
    assert(mode_intervals(mode)[0] == 0);
}

/// Every instrument's range holds notes of every mode on every root, and the
/// candidates for a next note all fit the instrument; when the previous note fits
/// too, they all lie within the instrument's widest leap of it.
pub proof fn lemma_candidates(bank: InstrumentBank, previous: Option<u8>, root_pitch_class: u8, mode: Mode)
    ensures
        range_midis(bank, root_pitch_class, mode).len() > 0,
        candidates_spec(bank, previous, root_pitch_class, mode).len() > 0,
        forall|i: int|
            0 <= i < range_midis(bank, root_pitch_class, mode).len() ==> fits_instrument(
                #[trigger] range_midis(bank, root_pitch_class, mode)[i],
                bank,
                root_pitch_class,
                mode,
            ),
        forall|i: int|
            0 <= i < candidates_spec(bank, previous, root_pitch_class, mode).len()
                ==> fits_instrument(
                #[trigger] candidates_spec(bank, previous, root_pitch_class, mode)[i],
                bank,
                root_pitch_class,
                mode,
            ),
        forall|p: u8|
            previous == Some(p) && fits_instrument(p, bank, root_pitch_class, mode) ==> forall|
                i: int,
            |
                0 <= i < candidates_spec(bank, previous, root_pitch_class, mode).len()
                    ==> semitone_distance(
                    p,
                    #[trigger] candidates_spec(bank, previous, root_pitch_class, mode)[i],
                ) <= profile_spec(bank).max_leap_semitones,
{
    let profile = profile_spec(bank);
    let low = profile.low_midi;
    let high = profile.high_midi;
    let all = range_midis(bank, root_pitch_class, mode);
    lemma_mode_midis_between(low as int, high as int + 1, root_pitch_class, mode);
    let pc = root_pitch_class % 12;
    let m = (low + ((pc + 12 - low % 12) % 12)) as u8;
    assert(m % 12 == pc);
    lemma_root_in_mode(m, root_pitch_class, mode);
    assert(all.contains(m));
    match previous {
        Some(p) => {
            lemma_keep_within(all, p, profile.max_leap_semitones);
            let near = keep_within(all, p, profile.max_leap_semitones);
            assert forall|i: int| 0 <= i < near.len() implies fits_instrument(#[trigger] near[i], bank, root_pitch_class, mode) by {
                let k = choose|k: int| 0 <= k < all.len() && all[k] == near[i];
                assert(fits_instrument(all[k], bank, root_pitch_class, mode));
            }
            if fits_instrument(p, bank, root_pitch_class, mode) {
                assert(all.contains(p));
                assert(near.contains(p));
            }
        },
        None => {},
    }
}

/// Copies of the notes of `s`, in order, within `leap` semitones of `previous`,
/// or all of `s` when there is none.
fn near_candidates(all: &Vec<u8>, previous: Option<u8>, leap: u8) -> (candidates: Vec<u8>)
    ensures
        candidates@ == match previous {
            Some(p) => if keep_within(all@, p, leap).len() == 0 {
                all@
            } else {
                keep_within(all@, p, leap)
            },
            None => all@,
        },
{
    let mut near: Vec<u8> = Vec::new();
    let mut copy: Vec<u8> = Vec::new();
    let n = all.len();
    for i in 0..n
        invariant
            n == all@.len(),
            copy@ == all@.subrange(0, i as int),
            previous matches Some(p) ==> near@ == keep_within(all@.subrange(0, i as int), p, leap),
    {
        let midi = all[i];
        copy.push(midi);
        if let Some(p) = previous {
            let distance = if p >= midi {
                p - midi
            } else {
                midi - p
            };
            assert(all@.subrange(0, i + 1).drop_last() =~= all@.subrange(0, i as int));
            if distance <= leap {
                near.push(midi);
            }
        }
        assert(copy@ =~= all@.subrange(0, i + 1));
    }
    assert(all@.subrange(0, n as int) =~= all@);
    match previous {
        Some(_) => if near.len() == 0 {
            copy
        } else {
            near
        },
        None => copy,
    }
}

/// The candidates for an instrument's next note (see `candidates_spec`), and every
/// note of its range in the mode.
pub fn pitch_candidates(bank: InstrumentBank, previous: Option<u8>, root_pitch_class: u8, mode: Mode) -> (result: (Vec<u8>, Vec<u8>))
    ensures
        result.0@ == candidates_spec(bank, previous, root_pitch_class, mode),
        result.1@ == range_midis(bank, root_pitch_class, mode),
        result.0@.len() > 0,
        result.1@.len() > 0,
{
    proof {
        lemma_candidates(bank, previous, root_pitch_class, mode);
    }
    let profile = bank.profile();
    let all = mode_midis_in_range(profile.low_midi, profile.high_midi, root_pitch_class, mode);
    let candidates = near_candidates(&all, previous, profile.max_leap_semitones);
    (candidates, all)
}

/// The note a pitch choice resolves to (see `resolve_spec`).
pub fn resolve_pitch(candidates: &Vec<u8>, choice: Option<usize>) -> (midi: u8)
    requires
        candidates@.len() > 0,
    ensures
        midi == resolve_spec(candidates@, choice),
        candidates@.contains(midi),
{
    let index = match choice {
        Some(i) => if i < candidates.len() {
            i
        } else {
            candidates.len() / 2
        },
        None => candidates.len() / 2,
    };
    candidates[index]
}

/// The role of a band member.
#[derive(Clone, Copy, Debug, PartialEq, Eq, Structural)]
pub enum MemberRole {
    Percussionist,
    Instrumentalist,
}

/// A member of the band and the kit or instrument they play.
#[derive(Clone, Copy, Debug, PartialEq, Eq, Structural)]
pub struct BandMember {
    pub index: usize,
    pub role: MemberRole,
    pub percussion_bank: Option<PercussionBank>,
    pub instrument_bank: Option<InstrumentBank>,
}

/// What a slot of a phrase holds: silence, the start of a note, or the
/// continuation of the note before it.
#[derive(Clone, Copy, Debug, PartialEq, Eq, Structural)]
pub enum SlotKind {
    Rest,
    Note,
    Tie,
}

/// One slot of a phrase.
#[derive(Clone, Copy, Debug, PartialEq, Eq, Structural)]
pub struct SlotCell {
    pub kind: SlotKind,
    pub midi: Option<u8>,
    pub duration_slots: Option<usize>,
}

/// One note of a phrase. Its loudness is the unit draw it was shaped from, or
/// `None` for the fixed loudness of a fallback note.
#[derive(Clone, Copy, Debug, PartialEq, Eq, Structural)]
pub struct NoteEvent {
    pub start_slot: usize,
    pub duration_slots: usize,
    pub midi: u8,
    pub velocity_draw: Option<u32>,
    pub event_seed: u64,
}

/// An instrumentalist's phrase: its slot grid and its notes.
#[derive(Clone, Debug)]
pub struct InstrumentPart {
    pub member_index: usize,
    pub bank: InstrumentBank,
    pub slots: Vec<SlotCell>,
    pub notes: Vec<NoteEvent>,
}

/// A whole generated band and its loop.
#[derive(Clone, Debug)]
pub struct Band {
    pub seed: u64,
    pub tempo_bpm: u32,
    pub root: RootNote,
    pub mode: Mode,
    pub loop_beats: usize,
    pub members: Vec<BandMember>,
    pub harmonic_framework: Vec<HarmonicBar>,
    pub percussion: PercussionPart,
    pub instruments: Vec<InstrumentPart>,
}

/// An empty slot.
pub open spec fn rest_cell() -> SlotCell {
    SlotCell { kind: SlotKind::Rest, midi: None, duration_slots: None }
}

/// The slot where a note starts.
pub open spec fn note_cell(midi: u8, duration: usize) -> SlotCell {
    SlotCell { kind: SlotKind::Note, midi: Some(midi), duration_slots: Some(duration) }
}

/// A slot that a note holds on through.
pub open spec fn tie_cell(midi: u8) -> SlotCell {
    SlotCell { kind: SlotKind::Tie, midi: Some(midi), duration_slots: None }
}

/// A grid with a note written in: its start slot, then ties to its end or the
/// end of the grid.
pub open spec fn write_note(grid: Seq<SlotCell>, note: NoteEvent) -> Seq<SlotCell> {
    Seq::new(
        grid.len(),
        |i: int|
            if i == note.start_slot {
                note_cell(note.midi, note.duration_slots)
            } else if note.start_slot < i < note.start_slot + note.duration_slots {
                tie_cell(note.midi)
            } else {
                grid[i]
            },
    )
}

/// The slot grid of a phrase: its notes written, in order, onto 32 rests.
pub open spec fn phrase_grid(notes: Seq<NoteEvent>) -> Seq<SlotCell>
    decreases notes.len(),
{
    if notes.len() == 0 {
        Seq::new(INSTRUMENT_SLOTS as nat, |i: int| rest_cell())
    } else {
        write_note(phrase_grid(notes.drop_last()), notes.last())
    }
}

/// Notes that each last a slot or more, end by slot `end`, follow one another
/// without overlap, and fit the instrument in the key.
pub open spec fn notes_fit(notes: Seq<NoteEvent>, bank: InstrumentBank, root_pitch_class: u8, mode: Mode, end: nat) -> bool {
    &&& forall|i: int|
        0 <= i < notes.len() ==> 1 <= #[trigger] notes[i].duration_slots && notes[i].start_slot
            + notes[i].duration_slots <= end && fits_instrument(
            notes[i].midi,
            bank,
            root_pitch_class,
            mode,
        )
    &&& forall|i: int, j: int|
        0 <= i < j < notes.len() ==> notes[i].start_slot + notes[i].duration_slots
            <= notes[j].start_slot
}

/// Each note lasts at most the instrument's longest length, and at least its
/// shortest unless it runs to the end of the phrase.
pub open spec fn sustains_fit(notes: Seq<NoteEvent>, bank: InstrumentBank) -> bool {
    forall|i: int|
        0 <= i < notes.len() ==> #[trigger] notes[i].duration_slots <= profile_spec(
            bank,
        ).max_sustain_slots && (notes[i].duration_slots >= profile_spec(bank).min_sustain_slots
            || notes[i].start_slot + notes[i].duration_slots == INSTRUMENT_SLOTS)
}

/// Each note lies within `leap` semitones of the note before it.
pub open spec fn leaps_bounded(notes: Seq<NoteEvent>, leap: u8) -> bool {
    forall|i: int, j: int|
        0 <= i && j == i + 1 && j < notes.len() ==> semitone_distance(
            #[trigger] notes[i].midi,
            #[trigger] notes[j].midi,
        ) <= leap
}

fn write_note_cells(slots: &mut Vec<SlotCell>, note: NoteEvent)
    requires
        old(slots)@.len() == INSTRUMENT_SLOTS,
        note.start_slot < INSTRUMENT_SLOTS,
        note.duration_slots <= INSTRUMENT_SLOTS,
    ensures
        final(slots)@ == write_note(old(slots)@, note),
{
    let ghost before = slots@;
    let start = note.start_slot;
    slots.set(start, SlotCell { kind: SlotKind::Note, midi: Some(note.midi), duration_slots: Some(note.duration_slots) });
    let end = if start + note.duration_slots < INSTRUMENT_SLOTS {
        start + note.duration_slots
    } else {
        INSTRUMENT_SLOTS
    };
    let mut tie = start + 1;
    while tie < end
        invariant
            start < tie <= end || (tie == start + 1 && end <= tie),
            end <= INSTRUMENT_SLOTS,
            end <= start + note.duration_slots,
            start == note.start_slot,
            slots@.len() == INSTRUMENT_SLOTS,
            before.len() == INSTRUMENT_SLOTS,
            forall|i: int|
                0 <= i < INSTRUMENT_SLOTS ==> #[trigger] slots@[i] == if i == start {
                    note_cell(note.midi, note.duration_slots)
                } else if start < i < tie {
                    tie_cell(note.midi)
                } else {
                    before[i]
                },
        decreases end - tie,
    {
        slots.set(tie, SlotCell { kind: SlotKind::Tie, midi: Some(note.midi), duration_slots: None });
        tie += 1;
    }
    assert(slots@ =~= write_note(before, note));
}

/// A note whose pitch is still to be chosen: where it starts, how long it lasts,
/// and whether it is the fallback note of a phrase that started no note.
#[derive(Clone, Copy, Debug, PartialEq, Eq, Structural)]
pub struct PendingNote {
    pub slot: usize,
    pub duration: usize,
    pub fallback: bool,
}

/// What the pitch choice of a note needs: the context of the note, its candidate
/// pitches, and the unit draw that picks among them.
#[derive(Clone, Debug)]
pub struct PitchRequest {
    pub bank: InstrumentBank,
    pub previous_midi: Option<u8>,
    pub root_pitch_class: u8,
    pub mode: Mode,
    pub harmonic_bar: HarmonicBar,
    pub slot: usize,
    pub candidates: Vec<u8>,
    pub draw: u32,
}

/// The first slot at or after `slot` where a note starts (its start draw falls
/// below the slot's threshold), or 32 when none does, and the state after the
/// start draws of the slots up to it.
pub open spec fn skip_scan(bank: InstrumentBank, slot: nat, state: u64) -> (nat, u64)
    decreases 32 - slot,
{
    if slot >= 32 {
        (slot, state)
    } else if unit_of(draw_at(state, 0)) < note_start_threshold_spec(bank, slot % 8) {
        (slot, step_state(state))
    } else {
        skip_scan(bank, slot + 1, step_state(state))
    }
}

/// The bits that tag a member's event seeds.
pub open spec fn member_seed_tag(member_index: usize) -> u64 {
    (member_index as u64) << 40u64
}

/// The harmony bar a slot falls in (the last bar for slots past the harmony).
pub open spec fn bar_of_slot(harmony: Seq<HarmonicBar>, slot: nat) -> HarmonicBar {
    let bar = slot / 8;
    if bar < harmony.len() - 1 {
        harmony[bar as int]
    } else {
        harmony[harmony.len() - 1]
    }
}

/// Builds one instrumentalist's phrase slot by slot. Each call of `advance` scans
/// to the next slot where a note starts and asks for its pitch; `place` takes the
/// choice and writes the note. A phrase that starts no note gets one fallback note
/// at the first slot.
pub struct PhraseBuilder {
    member_index: usize,
    bank: InstrumentBank,
    root_pitch_class: u8,
    mode: Mode,
    harmony: Vec<HarmonicBar>,
    slots: Vec<SlotCell>,
    notes: Vec<NoteEvent>,
    previous_midi: Option<u8>,
    slot: usize,
    pending: Option<PendingNote>,
    finished: bool,
    rng: Rng64,
}

impl PhraseBuilder {
    pub closed spec fn spec_member_index(&self) -> usize {
        self.member_index
    }

    pub closed spec fn spec_bank(&self) -> InstrumentBank {
        self.bank
    }

    pub closed spec fn spec_root_pitch_class(&self) -> u8 {
        self.root_pitch_class
    }

    pub closed spec fn spec_mode(&self) -> Mode {
        self.mode
    }

    pub closed spec fn spec_harmony(&self) -> Seq<HarmonicBar> {
        self.harmony@
    }

    pub closed spec fn spec_slots(&self) -> Seq<SlotCell> {
        self.slots@
    }

    pub closed spec fn spec_notes(&self) -> Seq<NoteEvent> {
        self.notes@
    }

    pub closed spec fn spec_previous(&self) -> Option<u8> {
        self.previous_midi
    }

    /// The slot the scan stands at.
    pub closed spec fn spec_slot(&self) -> nat {
        self.slot as nat
    }

    pub closed spec fn spec_pending(&self) -> Option<PendingNote> {
        self.pending
    }

    pub closed spec fn spec_finished(&self) -> bool {
        self.finished
    }

    pub closed spec fn spec_rng(&self) -> u64 {
        self.rng@
    }

    /// The builder's invariant.
    pub closed spec fn wf(&self) -> bool {
        &&& self.slots@.len() == INSTRUMENT_SLOTS
        &&& self.harmony@.len() > 0
        &&& self.slot <= INSTRUMENT_SLOTS
        &&& self.slots@ == phrase_grid(self.notes@)
        &&& notes_fit(self.notes@, self.bank, self.root_pitch_class, self.mode, self.slot as nat)
        &&& sustains_fit(self.notes@, self.bank)
        &&& self.previous_midi == if self.notes@.len() == 0 {
            None
        } else {
            Some(self.notes@.last().midi)
        }
        &&& leaps_bounded(
            self.notes@,
            profile_spec(self.bank).max_leap_semitones,
        )
        &&& self.finished ==> self.notes@.len() > 0 && self.pending is None
        &&& match self.pending {
            Some(p) => if p.fallback {
                &&& self.notes@.len() == 0
                &&& self.slot == INSTRUMENT_SLOTS
                &&& p.slot == 0
                &&& p.duration == profile_spec(self.bank).min_sustain_slots
            } else {
                &&& p.slot == self.slot
                &&& 1 <= p.duration
                &&& p.slot + p.duration <= INSTRUMENT_SLOTS
                &&& p.duration <= profile_spec(self.bank).max_sustain_slots
                &&& (p.duration >= profile_spec(self.bank).min_sustain_slots || p.slot + p.duration
                    == INSTRUMENT_SLOTS)
            },
            None => true,
        }
    }

    /// The parts of the phrase that scanning leaves alone.
    pub open spec fn same_phrase(&self, other: &Self) -> bool {
        &&& self.spec_member_index() == other.spec_member_index()
        &&& self.spec_bank() == other.spec_bank()
        &&& self.spec_root_pitch_class() == other.spec_root_pitch_class()
        &&& self.spec_mode() == other.spec_mode()
        &&& self.spec_harmony() == other.spec_harmony()
        &&& self.spec_slots() == other.spec_slots()
        &&& self.spec_notes() == other.spec_notes()
        &&& self.spec_previous() == other.spec_previous()
    }

    /// What one call of `advance` does to the builder and asks (see `advance`).
    pub open spec fn advance_step(self, after: Self, request: Option<PitchRequest>) -> bool {
        &&& (after.same_phrase(&self))
        &&& (self.spec_finished() ==> request is None && after.spec_rng() == self.spec_rng()
            && after.spec_finished())
        &&& (!self.spec_finished() ==> ({
                let bank = self.spec_bank();
                let root = self.spec_root_pitch_class();
                let mode = self.spec_mode();
                let (start, scanned) = skip_scan(bank, self.spec_slot(), self.spec_rng());
                if start < INSTRUMENT_SLOTS {
                    let (duration, drawn) = duration_spec(bank, (32 - start) as nat, scanned);
                    &&& request is Some
                    &&& request.unwrap().bank == bank
                    &&& request.unwrap().root_pitch_class == root
                    &&& request.unwrap().mode == mode
                    &&& request.unwrap().slot == start
                    &&& request.unwrap().previous_midi == self.spec_previous()
                    &&& request.unwrap().candidates@ == candidates_spec(
                        bank,
                        self.spec_previous(),
                        root,
                        mode,
                    )
                    &&& request.unwrap().harmonic_bar == bar_of_slot(self.spec_harmony(), start)
                    &&& request.unwrap().draw == unit_of(draw_at(drawn, 0))
                    &&& after.spec_rng() == step_state(drawn)
                    &&& after.spec_pending() == Some(
                        PendingNote { slot: start as usize, duration, fallback: false },
                    )
                    &&& after.spec_slot() == start
                    &&& !after.spec_finished()
                } else if self.spec_notes().len() == 0 {
                    &&& request is Some
                    &&& request.unwrap().bank == bank
                    &&& request.unwrap().root_pitch_class == root
                    &&& request.unwrap().mode == mode
                    &&& request.unwrap().slot == 0
                    &&& request.unwrap().previous_midi is None
                    &&& request.unwrap().candidates@ == range_midis(bank, root, mode)
                    &&& request.unwrap().harmonic_bar == self.spec_harmony()[0]
                    &&& request.unwrap().draw == unit_of(draw_at(scanned, 0))
                    &&& after.spec_rng() == step_state(scanned)
                    &&& after.spec_pending() == Some(
                        PendingNote {
                            slot: 0,
                            duration: profile_spec(bank).min_sustain_slots,
                            fallback: true,
                        },
                    )
                    &&& !after.spec_finished()
                } else {
                    &&& request is None
                    &&& after.spec_finished()
                    &&& after.spec_rng() == scanned
                }
            }))
    }

    /// What one call of `place` with `choice` does to the builder (see `place`).
    pub open spec fn place_step(self, after: Self, choice: Option<usize>) -> bool {
        &&& (after.spec_member_index() == self.spec_member_index())
        &&& (after.spec_bank() == self.spec_bank())
        &&& (after.spec_root_pitch_class() == self.spec_root_pitch_class())
        &&& (after.spec_mode() == self.spec_mode())
        &&& (after.spec_harmony() == self.spec_harmony())
        &&& (after.spec_pending() is None)
        &&& (self.spec_pending() is None ==> after.same_phrase(&self)
                && after.spec_rng() == self.spec_rng() && after.spec_slot()
                == self.spec_slot() && after.spec_finished() == self.spec_finished())
        &&& (self.spec_pending() is Some ==> ({
                let p = self.spec_pending().unwrap();
                let bank = self.spec_bank();
                let root = self.spec_root_pitch_class();
                let mode = self.spec_mode();
                let previous = if p.fallback {
                    None
                } else {
                    self.spec_previous()
                };
                let candidates = candidates_spec(bank, previous, root, mode);
                let midi = resolve_spec(candidates, choice);
                let tag = member_seed_tag(self.spec_member_index());
                let state = self.spec_rng();
                let note = if p.fallback {
                    NoteEvent {
                        start_slot: 0,
                        duration_slots: p.duration,
                        midi,
                        velocity_draw: None,
                        event_seed: mix64_spec(draw_at(state, 0) ^ tag),
                    }
                } else {
                    NoteEvent {
                        start_slot: p.slot,
                        duration_slots: p.duration,
                        midi,
                        velocity_draw: Some(unit_of(draw_at(state, 0))),
                        event_seed: mix64_spec(draw_at(state, 1) ^ tag),
                    }
                };
                let end = p.slot + p.duration;
                &&& after.spec_notes() == self.spec_notes().push(note)
                &&& after.spec_slots() == write_note(self.spec_slots(), note)
                &&& after.spec_previous() == Some(midi)
                &&& if p.fallback {
                    &&& after.spec_rng() == state_after(state, 1)
                    &&& after.spec_slot() == self.spec_slot()
                    &&& after.spec_finished()
                } else if bank == InstrumentBank::Clarinet && end < INSTRUMENT_SLOTS {
                    &&& after.spec_rng() == state_after(state, 3)
                    &&& after.spec_slot() == if unit_of(draw_at(state, 2))
                        < CLARINET_BREATH_THRESHOLD {
                        end + 1
                    } else {
                        end
                    }
                    &&& !after.spec_finished()
                } else {
                    &&& after.spec_rng() == state_after(state, 2)
                    &&& after.spec_slot() == end
                    &&& !after.spec_finished()
                }
            }))
    }

    /// A builder for member `member_index`'s phrase on `bank`, in a mode on a root,
    /// over a harmony, drawing from `rng`; every slot starts as a rest.
    pub fn new(
        member_index: usize,
        bank: InstrumentBank,
        root_pitch_class: u8,
        mode: Mode,
        harmony: Vec<HarmonicBar>,
        rng: Rng64,
    ) -> (builder: Self)
        requires
            harmony@.len() > 0,
        ensures
            builder.wf(),
            builder.spec_member_index() == member_index,
            builder.spec_bank() == bank,
            builder.spec_root_pitch_class() == root_pitch_class,
            builder.spec_mode() == mode,
            builder.spec_harmony() == harmony@,
            builder.spec_notes().len() == 0,
            builder.spec_slots() == Seq::new(INSTRUMENT_SLOTS as nat, |i: int| rest_cell()),
            builder.spec_previous() is None,
            builder.spec_slot() == 0,
            builder.spec_pending() is None,
            !builder.spec_finished(),
            builder.spec_rng() == rng@,
    {
        let mut slots: Vec<SlotCell> = Vec::new();
        for i in 0..INSTRUMENT_SLOTS
            invariant
                slots@ == Seq::new(i as nat, |k: int| rest_cell()),
        {
            slots.push(SlotCell { kind: SlotKind::Rest, midi: None, duration_slots: None });
        }
        let builder = PhraseBuilder {
            member_index,
            bank,
            root_pitch_class,
            mode,
            harmony,
            slots,
            notes: Vec::new(),
            previous_midi: None,
            slot: 0,
            pending: None,
            finished: false,
            rng,
        };
        assert(builder.slots@ =~= phrase_grid(builder.notes@));
        builder
    }

    /// Whether the phrase is complete.
    pub fn is_finished(&self) -> (finished: bool)
        ensures
            finished == self.spec_finished(),
    {
        self.finished
    }

    /// Scans from the current slot to the next slot where a note starts: each slot
    /// draws once against the instrument's start threshold. At a start it draws the
    /// note's length (see `duration_spec`) and the unit draw of its pitch, and asks
    /// for the pitch. When the scan reaches the end of a phrase without notes it
    /// asks for the pitch of a fallback note at the first slot; when it reaches the
    /// end of a phrase with notes, the phrase is finished and nothing is asked.
    pub fn advance(&mut self) -> (request: Option<PitchRequest>)
        requires
            old(self).wf(),
            old(self).spec_pending() is None,
        ensures
            final(self).wf(),
            old(self).advance_step(*final(self), request),
    {
        if self.finished {
            return None;
        }
        let ghost orig = *self;
        let ghost start_slot = self.slot as nat;
        let ghost start_state = self.rng@;
        while self.slot < INSTRUMENT_SLOTS
            invariant
                self.wf(),
                self.same_phrase(&orig),
                orig == *old(self),
                !orig.finished,
                start_slot == orig.slot,
                start_state == orig.rng@,
                self.spec_pending() is None,
                !self.spec_finished(),
                skip_scan(self.bank, self.slot as nat, self.rng@) == skip_scan(
                    orig.bank,
                    start_slot,
                    start_state,
                ),
            decreases INSTRUMENT_SLOTS - self.slot,
        {
            let threshold = note_start_threshold(self.bank, self.slot % 8);
            let ghost before = self.rng@;
            if self.rng.chance_below(threshold) {
                assert(skip_scan(self.bank, self.slot as nat, before) == (
                    self.slot as nat,
                    self.rng@,
                ));
                let remaining = INSTRUMENT_SLOTS - self.slot;
                let duration = choose_duration(self.bank, remaining, &mut self.rng);
                let (candidates, _all) = pitch_candidates(
                    self.bank,
                    self.previous_midi,
                    self.root_pitch_class,
                    self.mode,
                );
                let draw = self.rng.next_unit();
                let last_bar = self.harmony.len() - 1;
                let bar_index = if self.slot / 8 < last_bar {
                    self.slot / 8
                } else {
                    last_bar
                };
                self.pending = Some(PendingNote { slot: self.slot, duration, fallback: false });
                assert(self.harmony@[bar_index as int] == bar_of_slot(self.harmony@, self.slot as nat));
                return Some(
                    PitchRequest {
                        bank: self.bank,
                        previous_midi: self.previous_midi,
                        root_pitch_class: self.root_pitch_class,
                        mode: self.mode,
                        harmonic_bar: self.harmony[bar_index],
                        slot: self.slot,
                        candidates,
                        draw,
                    },
                );
            }
            assert(skip_scan(self.bank, self.slot as nat, before) == skip_scan(
                self.bank,
                (self.slot + 1) as nat,
                self.rng@,
            ));
            self.slot = self.slot + 1;
        }
        if self.notes.len() == 0 {
            let (candidates, _all) = pitch_candidates(
                self.bank,
                None,
                self.root_pitch_class,
                self.mode,
            );
            let draw = self.rng.next_unit();
            let shortest = self.bank.profile().min_sustain_slots;
            self.pending = Some(PendingNote { slot: 0, duration: shortest, fallback: true });
            return Some(
                PitchRequest {
                    bank: self.bank,
                    previous_midi: None,
                    root_pitch_class: self.root_pitch_class,
                    mode: self.mode,
                    harmonic_bar: self.harmony[0],
                    slot: 0,
                    candidates,
                    draw,
                },
            );
        }
        self.finished = true;
        None
    }

    /// Writes the waiting note with the chosen pitch (see `resolve_spec`). A regular
    /// note then draws its loudness and its event seed, moves the scan past its end,
    /// and for the clarinet, with a chance of 0.45, past one more slot of breath. The
    /// fallback note lasts the instrument's shortest length, keeps its fixed
    /// loudness, draws its event seed and finishes the phrase. With no waiting note
    /// nothing changes.
    pub fn place(&mut self, choice: Option<usize>)
        requires
            old(self).wf(),
        ensures
            final(self).wf(),
            old(self).place_step(*final(self), choice),
    {
        let pending = match self.pending {
            Some(p) => p,
            None => {
                return;
            },
        };
        let ghost state = self.rng@;
        let ghost old_notes = self.notes@;
        proof {
            lemma_state_after_add(state, 0, 0);
            lemma_state_after_add(state, 0, 1);
            lemma_state_after_add(state, 1, 0);
            lemma_state_after_add(state, 1, 1);
            lemma_state_after_add(state, 2, 0);
            lemma_state_after_add(state, 2, 1);
            assert(state_after(state, 0) == state);
        }
        let previous = if pending.fallback {
            None
        } else {
            self.previous_midi
        };
        let (candidates, _all) = pitch_candidates(self.bank, previous, self.root_pitch_class, self.mode);
        proof {
            lemma_candidates(self.bank, previous, self.root_pitch_class, self.mode);
        }
        let midi = resolve_pitch(&candidates, choice);
        assert(fits_instrument(midi, self.bank, self.root_pitch_class, self.mode));
        let tag: u64 = (self.member_index as u64) << 40;
        let note = if pending.fallback {
            let event_seed = mix64(self.rng.next_u64() ^ tag);
            NoteEvent {
                start_slot: 0,
                duration_slots: pending.duration,
                midi,
                velocity_draw: None,
                event_seed,
            }
        } else {
            let velocity_draw = self.rng.next_unit();
            let event_seed = mix64(self.rng.next_u64() ^ tag);
            NoteEvent {
                start_slot: pending.slot,
                duration_slots: pending.duration,
                midi,
                velocity_draw: Some(velocity_draw),
                event_seed,
            }
        };
        proof {
            if !pending.fallback && old_notes.len() > 0 {
                let last = old_notes[old_notes.len() - 1];
                assert(fits_instrument(last.midi, self.bank, self.root_pitch_class, self.mode));
                let k = choose|k: int| 0 <= k < candidates@.len() && candidates@[k] == midi;
                assert(semitone_distance(last.midi, candidates@[k]) <= profile_spec(
                    self.bank,
                ).max_leap_semitones);
            }
        }
        write_note_cells(&mut self.slots, note);
        self.notes.push(note);
        self.previous_midi = Some(midi);
        self.pending = None;
        proof {
            assert(self.notes@.drop_last() =~= old_notes);
        }
        if pending.fallback {
            self.finished = true;
        } else {
            self.slot = pending.slot + pending.duration;
            if self.bank == InstrumentBank::Clarinet && self.slot < INSTRUMENT_SLOTS
                && self.rng.chance_below(CLARINET_BREATH_THRESHOLD) {
                self.slot = self.slot + 1;
            }
        }
    }

    /// The finished phrase.
    pub fn finish(self) -> (part: InstrumentPart)
        requires
            self.wf(),
            self.spec_finished(),
        ensures
            part.member_index == self.spec_member_index(),
            part.bank == self.spec_bank(),
            part.slots@ == self.spec_slots(),
            part.notes@ == self.spec_notes(),
            part.slots@.len() == INSTRUMENT_SLOTS,
            part.slots@ == phrase_grid(part.notes@),
            part.notes@.len() > 0,
            notes_fit(
                part.notes@,
                self.spec_bank(),
                self.spec_root_pitch_class(),
                self.spec_mode(),
                INSTRUMENT_SLOTS as nat,
            ),
            sustains_fit(part.notes@, self.spec_bank()),
            leaps_bounded(part.notes@, profile_spec(self.spec_bank()).max_leap_semitones),
    {
        InstrumentPart {
            member_index: self.member_index,
            bank: self.bank,
            slots: self.slots,
            notes: self.notes,
        }
    }

    /// Whether a note waits for its pitch.
    pub fn has_pending(&self) -> (pending: bool)
        ensures
            pending == self.spec_pending() is Some,
    {
        self.pending.is_some()
    }
}

/// The salt of the stream that draws a band's tempo, key and harmony.
pub const BAND_SALT: u64 = 0xBADC_0FFE_E0DD_F00D;

/// The salt of the percussion part's stream.
pub const PERCUSSION_SALT: u64 = 0xC0DA_5EED_0000_0001;

/// The salt of the stream that picks the instruments.
pub const INSTRUMENT_SALT: u64 = 0xC0DA_5EED_0000_0002;

/// The base of the salts of the phrases' streams.
pub const PHRASE_SALT_BASE: u64 = 0x1A57_0000_0000_0000;

/// The state of the stream of `seed` with `salt`.
pub open spec fn salted_state(seed: u64, salt: u64) -> u64 {
    seeded_state(mix64_spec(seed ^ wrap_mul(salt, SPLITMIX_INCREMENT)))
}

/// The salt of the stream of the phrase of instrumentalist `index` (from 0).
pub open spec fn phrase_salt(index: usize) -> u64 {
    PHRASE_SALT_BASE ^ (((index + 1) * 0x101) as u64)
}

/// What a band draws from its own stream: tempo, root, mode, harmony and kit.
#[derive(Clone, Debug)]
pub struct BandHeader {
    pub tempo_bpm: u32,
    pub root: RootNote,
    pub mode: Mode,
    pub harmonic_framework: Vec<HarmonicBar>,
    pub percussion_bank: PercussionBank,
}

/// What a band of `seed` draws from its own stream, in order: a tempo from 80 to
/// 150 beats per minute, a root's pitch class and spelling, a mode, the harmony,
/// and the percussion kit.
pub open spec fn drawn_header(
    seed: u64,
    tempo_bpm: u32,
    root: RootNote,
    mode: Mode,
    harmony: Seq<HarmonicBar>,
    kit: PercussionBank,
) -> bool {
    let s = salted_state(seed, BAND_SALT);
    let after_harmony = harmony_end(state_after(s, 4));
    &&& tempo_bpm == 80 + ((draw_at(s, 0) >> 32u64) as u32) % 71
    &&& root.pitch_class == ((draw_at(s, 1) >> 32u64) as u32 % 12) as u8
    &&& root.name@ == root_spellings(root.pitch_class)[(draw_at(s, 2) as usize) as int % (
    root_spellings(root.pitch_class).len() as int)]
    &&& mode == mode_at((draw_at(s, 3) as usize) as int % 6)
    &&& is_harmony_from(harmony, state_after(s, 4))
    &&& kit == percussion_bank_at((draw_at(after_harmony, 0) as usize) as int % 4)
}

/// A band's kit is picked by its stream's draw right after the harmony: drums,
/// woods, cans or tabla by that draw modulo 4. Counting draws from 0, the tempo,
/// root, spelling and mode take draws 0 to 3 and the harmony takes 4 to 6, and 7 too
/// unless the unit draw of draw 6 is under 7549747 (the turn to the dominant), so
/// the kit comes from draw 7 or draw 8.
pub proof fn lemma_kit_follows_the_harmony(
    seed: u64,
    tempo_bpm: u32,
    root: RootNote,
    mode: Mode,
    harmony: Seq<HarmonicBar>,
    kit: PercussionBank,
)
    requires
        drawn_header(seed, tempo_bpm, root, mode, harmony, kit),
    ensures
        ({
            let s = salted_state(seed, 0xBADC_0FFE_E0DD_F00Du64);
            let d = if ((draw_at(s, 6) >> 40u64) as u32) < 7549747 {
                draw_at(s, 7)
            } else {
                draw_at(s, 8)
            };
            kit == seq![
                PercussionBank::Drums,
                PercussionBank::Woods,
                PercussionBank::Cans,
                PercussionBank::Tabla,
            ][((d as usize) % 4) as int]
        }),
{
    let s = salted_state(seed, BAND_SALT);
    lemma_state_after_add(s, 4, 2);
    lemma_state_after_add(s, 4, 3);
    lemma_state_after_add(s, 4, 4);
    lemma_state_after_add(s, 7, 0);
    lemma_state_after_add(s, 8, 0);
}

/// Draws a band's header (see `drawn_header`) from the stream of its seed.
pub fn generate_band_header(seed: u64) -> (header: BandHeader)
    ensures
        drawn_header(
            seed,
            header.tempo_bpm,
            header.root,
            header.mode,
            header.harmonic_framework@,
            header.percussion_bank,
        ),
        80 <= header.tempo_bpm <= 150,
        header.root.pitch_class < 12,
        header.harmonic_framework@.len() > 0,
{
    let mut rng = Rng64::from_seed_and_salt(seed, BAND_SALT);
    let ghost s = rng@;
    proof {
        lemma_state_after_add(s, 0, 0);
        lemma_state_after_add(s, 1, 0);
        lemma_state_after_add(s, 1, 1);
        lemma_state_after_add(s, 1, 2);
        lemma_state_after_add(s, 3, 0);
        lemma_state_after_add(s, 3, 1);
        assert(state_after(s, 0) == s);
    }
    let tempo_bpm = rng.range_u32(80, 150);
    let root = choose_root(&mut rng);
    let mode = choose_mode(&mut rng);
    let harmonic_framework = generate_harmony(&mut rng);
    let percussion_bank = PercussionBank::pick(&mut rng);
    BandHeader { tempo_bpm, root, mode, harmonic_framework, percussion_bank }
}

/// The stream of a band's percussion part.
pub fn percussion_rng(seed: u64) -> (rng: Rng64)
    ensures
        rng@ == salted_state(seed, PERCUSSION_SALT),
{
    Rng64::from_seed_and_salt(seed, PERCUSSION_SALT)
}

/// The stream that picks a band's instruments.
pub fn instrument_rng(seed: u64) -> (rng: Rng64)
    ensures
        rng@ == salted_state(seed, INSTRUMENT_SALT),
{
    Rng64::from_seed_and_salt(seed, INSTRUMENT_SALT)
}

/// The stream of instrumentalist `index`'s phrase (from 0).
pub fn phrase_rng(seed: u64, index: usize) -> (rng: Rng64)
    requires
        (index + 1) * 0x101 <= u64::MAX,
    ensures
        rng@ == salted_state(seed, phrase_salt(index)),
{
    Rng64::from_seed_and_salt(seed, PHRASE_SALT_BASE ^ ((index as u64 + 1) * 0x101))
}

/// The band's members: the percussionist first, then one instrumentalist per
/// instrument, numbered from 0.
pub open spec fn members_spec(percussion_bank: PercussionBank, instrument_banks: Seq<InstrumentBank>) -> Seq<BandMember> {
    seq![
        BandMember {
            index: 0,
            role: MemberRole::Percussionist,
            percussion_bank: Some(percussion_bank),
            instrument_bank: None,
        },
    ] + Seq::new(
        instrument_banks.len(),
        |i: int|
            BandMember {
                index: (i + 1) as usize,
                role: MemberRole::Instrumentalist,
                percussion_bank: None,
                instrument_bank: Some(instrument_banks[i]),
            },
    )
}

/// The band's four members.
pub fn band_members(percussion_bank: PercussionBank, instrument_banks: &[InstrumentBank; 3]) -> (members: Vec<BandMember>)
    ensures
        members@ == members_spec(percussion_bank, instrument_banks@),
        members@.len() == 4,
        members@[0].role == MemberRole::Percussionist,
        forall|i: int| 1 <= i < 4 ==> #[trigger] members@[i].role == MemberRole::Instrumentalist,
{
    let mut members: Vec<BandMember> = Vec::with_capacity(4);
    members.push(
        BandMember {
            index: 0,
            role: MemberRole::Percussionist,
            percussion_bank: Some(percussion_bank),
            instrument_bank: None,
        },
    );
    for member_offset in 0..3
        invariant
            members@.len() == member_offset + 1,
            members@ == members_spec(percussion_bank, instrument_banks@).subrange(
                0,
                member_offset + 1,
            ),
    {
        members.push(
            BandMember {
                index: member_offset + 1,
                role: MemberRole::Instrumentalist,
                percussion_bank: None,
                instrument_bank: Some(instrument_banks[member_offset]),
            },
        );
        assert(members@ =~= members_spec(percussion_bank, instrument_banks@).subrange(
            0,
            member_offset + 2,
        ));
    }
    assert(members@ =~= members_spec(percussion_bank, instrument_banks@));
    members
}

/// The three instruments a band of `seed` picks, one draw each, from their own stream.
pub open spec fn drawn_instruments(seed: u64) -> Seq<InstrumentBank> {
    seq![
        picked_instrument(draw_at(salted_state(seed, INSTRUMENT_SALT), 0)),
        picked_instrument(draw_at(salted_state(seed, INSTRUMENT_SALT), 1)),
        picked_instrument(draw_at(salted_state(seed, INSTRUMENT_SALT), 2)),
    ]
}

/// Picks the three instruments of a band from their own stream.
pub fn band_instruments(seed: u64) -> (banks: [InstrumentBank; 3])
    ensures
        banks@ == drawn_instruments(seed),
{
    let mut rng = instrument_rng(seed);
    select_instrument_banks(&mut rng)
}

/// Every note of a phrase lies in its instrument's register: harp and synth from
/// MIDI 48 to 84, bass from 24 to 48, pads from 36 to 72, clarinet from 50 to 81.
pub proof fn lemma_notes_in_register(
    notes: Seq<NoteEvent>,
    bank: InstrumentBank,
    root_pitch_class: u8,
    mode: Mode,
    end: nat,
)
    requires
        notes_fit(notes, bank, root_pitch_class, mode, end),
    ensures
        forall|i: int|
            #![trigger notes[i]]
            0 <= i < notes.len() ==> match bank {
                InstrumentBank::Harp => 48 <= notes[i].midi <= 84,
                InstrumentBank::Synth => 48 <= notes[i].midi <= 84,
                InstrumentBank::Bass => 24 <= notes[i].midi <= 48,
                InstrumentBank::Pads => 36 <= notes[i].midi <= 72,
                InstrumentBank::Clarinet => 50 <= notes[i].midi <= 81,
            },
{
    assert forall|i: int| #![trigger notes[i]] 0 <= i < notes.len() implies match bank {
        InstrumentBank::Harp => 48 <= notes[i].midi <= 84,
        InstrumentBank::Synth => 48 <= notes[i].midi <= 84,
        InstrumentBank::Bass => 24 <= notes[i].midi <= 48,
        InstrumentBank::Pads => 36 <= notes[i].midi <= 72,
        InstrumentBank::Clarinet => 50 <= notes[i].midi <= 81,
    } by {
        assert(1 <= notes[i].duration_slots);
        assert(fits_instrument(notes[i].midi, bank, root_pitch_class, mode));
    }
}

/// The three instrumentalists' phrases run on the streams of the seed salted
/// 0x1A57_0000_0000_0101, 0x1A57_0000_0000_0202 and 0x1A57_0000_0000_0303, in
/// order, so two instrumentalists never share a salt, and never start from the same
/// state but for the one case where that state is the stand-in for a zero seed.
pub proof fn lemma_phrase_streams(seed: u64, i: usize, j: usize)
    requires
        i < 3,
        j < 3,
        i != j,
    ensures
        phrase_salt(0) == 0x1A57_0000_0000_0101u64,
        phrase_salt(1) == 0x1A57_0000_0000_0202u64,
        phrase_salt(2) == 0x1A57_0000_0000_0303u64,
        phrase_salt(i) != phrase_salt(j),
        salted_state(seed, phrase_salt(i)) != salted_state(seed, phrase_salt(j)) || salted_state(
            seed,
            phrase_salt(i),
        ) == ZERO_SEED_STATE,
{
    assert(0x1A57_0000_0000_0000u64 ^ 0x101u64 == 0x1A57_0000_0000_0101u64) by (bit_vector);
    assert(0x1A57_0000_0000_0000u64 ^ 0x202u64 == 0x1A57_0000_0000_0202u64) by (bit_vector);
    assert(0x1A57_0000_0000_0000u64 ^ 0x303u64 == 0x1A57_0000_0000_0303u64) by (bit_vector);
    lemma_distinct_salts_distinct_streams(seed, phrase_salt(i), phrase_salt(j));
}

/// An instrumentalist's finished part as it stands in a band: member
/// `member_index`'s 32-slot grid of its notes, which are not empty, each fit the
/// instrument in the band's key, follow one another within the phrase, keep the
/// instrument's note lengths, and move by at most its widest leap.
pub open spec fn part_in_band(part: InstrumentPart, member_index: usize, root_pitch_class: u8, mode: Mode) -> bool {
    &&& part.member_index == member_index
    &&& part.slots@.len() == INSTRUMENT_SLOTS
    &&& part.slots@ == phrase_grid(part.notes@)
    &&& part.notes@.len() > 0
    &&& notes_fit(part.notes@, part.bank, root_pitch_class, mode, INSTRUMENT_SLOTS as nat)
    &&& sustains_fit(part.notes@, part.bank)
    &&& leaps_bounded(part.notes@, profile_spec(part.bank).max_leap_semitones)
}

/// A fresh phrase builder: no note written, the scan at the first slot, nothing
/// waiting, drawing from `state`.
pub open spec fn fresh_phrase(builder: PhraseBuilder, state: u64) -> bool {
    &&& builder.spec_notes().len() == 0
    &&& builder.spec_slots() == Seq::new(INSTRUMENT_SLOTS as nat, |i: int| rest_cell())
    &&& builder.spec_previous() is None
    &&& builder.spec_slot() == 0
    &&& builder.spec_pending() is None
    &&& !builder.spec_finished()
    &&& builder.spec_rng() == state
}

fn copy_harmony(harmony: &Vec<HarmonicBar>) -> (copy: Vec<HarmonicBar>)
    ensures
        copy@ == harmony@,
{
    let mut copy: Vec<HarmonicBar> = Vec::with_capacity(harmony.len());
    for i in 0..harmony.len()
        invariant
            copy@ == harmony@.subrange(0, i as int),
    {
        copy.push(harmony[i]);
        assert(copy@ =~= harmony@.subrange(0, i + 1));
    }
    assert(copy@ =~= harmony@);
    copy
}

/// Builds a whole band from its seed. The header, the instruments, the kit, and
/// each part's stream, member, instrument, key and harmony are fixed when the
/// builder is made; the percussion part is then built voice by voice and each
/// instrumentalist's phrase note by note, through the steps of `PercussionBuilder`
/// and `PhraseBuilder`, and `finish` puts the band together.
pub struct BandBuilder {
    seed: u64,
    header: BandHeader,
    instrument_banks: [InstrumentBank; 3],
    percussion: PercussionBuilder,
    first: PhraseBuilder,
    second: PhraseBuilder,
    third: PhraseBuilder,
}

impl BandBuilder {
    pub closed spec fn spec_seed(&self) -> u64 {
        self.seed
    }

    pub closed spec fn spec_tempo(&self) -> u32 {
        self.header.tempo_bpm
    }

    pub closed spec fn spec_root(&self) -> RootNote {
        self.header.root
    }

    pub closed spec fn spec_mode(&self) -> Mode {
        self.header.mode
    }

    pub closed spec fn spec_harmony(&self) -> Seq<HarmonicBar> {
        self.header.harmonic_framework@
    }

    pub closed spec fn spec_kit(&self) -> PercussionBank {
        self.header.percussion_bank
    }

    pub closed spec fn spec_instruments(&self) -> Seq<InstrumentBank> {
        self.instrument_banks@
    }

    pub closed spec fn spec_percussion(&self) -> PercussionBuilder {
        self.percussion
    }

    /// The builder of instrumentalist `part`'s phrase (from 0).
    pub closed spec fn spec_phrase(&self, part: int) -> PhraseBuilder {
        if part == 0 {
            self.first
        } else if part == 1 {
            self.second
        } else {
            self.third
        }
    }

    /// Whether `phrase` is instrumentalist `part`'s phrase in this band: member
    /// `part + 1`, its drawn instrument, the band's key and harmony.
    pub open spec fn phrase_in_band(&self, phrase: PhraseBuilder, part: int) -> bool {
        &&& phrase.wf()
        &&& phrase.spec_member_index() == part + 1
        &&& phrase.spec_bank() == self.spec_instruments()[part]
        &&& phrase.spec_root_pitch_class() == self.spec_root().pitch_class
        &&& phrase.spec_mode() == self.spec_mode()
        &&& phrase.spec_harmony() == self.spec_harmony()
    }

    /// The builder's invariant.
    pub closed spec fn wf(&self) -> bool {
        &&& drawn_header(
            self.seed,
            self.header.tempo_bpm,
            self.header.root,
            self.header.mode,
            self.header.harmonic_framework@,
            self.header.percussion_bank,
        )
        &&& 80 <= self.header.tempo_bpm <= 150
        &&& self.header.root.pitch_class < 12
        &&& self.header.harmonic_framework@.len() > 0
        &&& self.instrument_banks@ == drawn_instruments(self.seed)
        &&& self.percussion.wf()
        &&& self.percussion.spec_bank() == self.header.percussion_bank
        &&& self.phrase_in_band(self.first, 0)
        &&& self.phrase_in_band(self.second, 1)
        &&& self.phrase_in_band(self.third, 2)
    }

    /// The parts of the band that a step leaves alone: seed, header and instruments.
    pub open spec fn same_band(&self, other: &Self) -> bool {
        &&& self.spec_seed() == other.spec_seed()
        &&& self.spec_tempo() == other.spec_tempo()
        &&& self.spec_root() == other.spec_root()
        &&& self.spec_mode() == other.spec_mode()
        &&& self.spec_harmony() == other.spec_harmony()
        &&& self.spec_kit() == other.spec_kit()
        &&& self.spec_instruments() == other.spec_instruments()
    }

    /// A builder for the band of `seed`: its header (see `drawn_header`) and
    /// instruments (see `drawn_instruments`) drawn, the percussion part of its kit
    /// with no voice played, and instrumentalist `part`'s phrase (from 0) for member
    /// `part + 1` on the part's instrument, in the band's key over its harmony, each
    /// on its own stream.
    pub fn new(seed: u64) -> (builder: Self)
        ensures
            builder.wf(),
            builder.spec_seed() == seed,
            drawn_header(
                seed,
                builder.spec_tempo(),
                builder.spec_root(),
                builder.spec_mode(),
                builder.spec_harmony(),
                builder.spec_kit(),
            ),
            builder.spec_instruments() == drawn_instruments(seed),
            builder.spec_percussion().spec_bank() == builder.spec_kit(),
            builder.spec_percussion().spec_voices().len() == 0,
            builder.spec_percussion().spec_pending() is None,
            builder.spec_percussion().spec_rng() == salted_state(seed, PERCUSSION_SALT),
            forall|part: int|
                0 <= part < 3 ==> fresh_phrase(
                    #[trigger] builder.spec_phrase(part),
                    salted_state(seed, phrase_salt(part as usize)),
                ),
    {
        let header = generate_band_header(seed);
        let instrument_banks = band_instruments(seed);
        let percussion = PercussionBuilder::new(header.percussion_bank, percussion_rng(seed));
        let first = PhraseBuilder::new(
            1,
            instrument_banks[0],
            header.root.pitch_class,
            header.mode,
            copy_harmony(&header.harmonic_framework),
            phrase_rng(seed, 0),
        );
        let second = PhraseBuilder::new(
            2,
            instrument_banks[1],
            header.root.pitch_class,
            header.mode,
            copy_harmony(&header.harmonic_framework),
            phrase_rng(seed, 1),
        );
        let third = PhraseBuilder::new(
            3,
            instrument_banks[2],
            header.root.pitch_class,
            header.mode,
            copy_harmony(&header.harmonic_framework),
            phrase_rng(seed, 2),
        );
        let builder = BandBuilder { seed, header, instrument_banks, percussion, first, second, third };
        assert forall|part: int| 0 <= part < 3 implies fresh_phrase(
            #[trigger] builder.spec_phrase(part),
            salted_state(seed, phrase_salt(part as usize)),
        ) by {
            if part == 0 {
                assert(phrase_salt(0) == phrase_salt(part as usize));
            } else if part == 1 {
                assert(phrase_salt(1) == phrase_salt(part as usize));
            } else {
                assert(phrase_salt(2) == phrase_salt(part as usize));
            }
        }
        builder
    }

    /// Draws the shape of the kit's next voice and asks for its keep thresholds
    /// (see `PercussionBuilder::next_voice`).
    pub fn next_voice(&mut self) -> (request: Option<VoiceRequest>)
        requires
            old(self).wf(),
            old(self).spec_percussion().spec_pending() is None,
        ensures
            final(self).wf(),
            final(self).same_band(old(self)),
            forall|part: int| 0 <= part < 3 ==> #[trigger] final(self).spec_phrase(part) == old(self).spec_phrase(part),
            old(self).spec_percussion().voice_step(final(self).spec_percussion(), request),
    {
        self.percussion.next_voice()
    }

    /// Plays the waiting voice with the given keep thresholds (see
    /// `PercussionBuilder::add_voice`).
    pub fn add_voice(&mut self, keep: KeepThresholds)
        requires
            old(self).wf(),
        ensures
            final(self).wf(),
            final(self).same_band(old(self)),
            forall|part: int| 0 <= part < 3 ==> #[trigger] final(self).spec_phrase(part) == old(self).spec_phrase(part),
            old(self).spec_percussion().add_step(final(self).spec_percussion(), keep),
    {
        self.percussion.add_voice(keep)
    }

    /// Scans instrumentalist `part`'s phrase (from 0) to its next note and asks for
    /// its pitch (see `PhraseBuilder::advance`).
    pub fn advance_phrase(&mut self, part: usize) -> (request: Option<PitchRequest>)
        requires
            old(self).wf(),
            part < 3,
            old(self).spec_phrase(part as int).spec_pending() is None,
        ensures
            final(self).wf(),
            final(self).same_band(old(self)),
            final(self).spec_percussion() == old(self).spec_percussion(),
            forall|other: int|
                0 <= other < 3 && other != part ==> #[trigger] final(self).spec_phrase(other)
                    == old(self).spec_phrase(other),
            old(self).spec_phrase(part as int).advance_step(final(self).spec_phrase(part as int), request),
    {
        if part == 0 {
            self.first.advance()
        } else if part == 1 {
            self.second.advance()
        } else {
            self.third.advance()
        }
    }

    /// Writes the waiting note of instrumentalist `part`'s phrase (from 0) with the
    /// chosen pitch (see `PhraseBuilder::place`).
    pub fn place_phrase(&mut self, part: usize, choice: Option<usize>)
        requires
            old(self).wf(),
            part < 3,
        ensures
            final(self).wf(),
            final(self).same_band(old(self)),
            final(self).spec_percussion() == old(self).spec_percussion(),
            forall|other: int|
                0 <= other < 3 && other != part ==> #[trigger] final(self).spec_phrase(other)
                    == old(self).spec_phrase(other),
            old(self).spec_phrase(part as int).place_step(final(self).spec_phrase(part as int), choice),
    {
        if part == 0 {
            self.first.place(choice)
        } else if part == 1 {
            self.second.place(choice)
        } else {
            self.third.place(choice)
        }
    }

    /// Whether the percussion part has its four voices and every phrase is finished.
    pub fn is_complete(&self) -> (complete: bool)
        ensures
            complete == (self.spec_percussion().spec_voices().len() == 4
                && self.spec_percussion().spec_pending() is None && self.spec_phrase(0).spec_finished()
                && self.spec_phrase(1).spec_finished() && self.spec_phrase(2).spec_finished()),
    {
        self.percussion.is_complete() && self.first.is_finished() && self.second.is_finished()
            && self.third.is_finished()
    }

    /// The finished band: its seed and drawn header, a 16-beat loop, the
    /// percussionist first and then one instrumentalist per part, each member tied
    /// to the part they play, and every part whole and in the band's key.
    pub fn finish(self) -> (band: Band)
        requires
            self.wf(),
            self.spec_percussion().spec_voices().len() == 4,
            self.spec_phrase(0).spec_finished(),
            self.spec_phrase(1).spec_finished(),
            self.spec_phrase(2).spec_finished(),
        ensures
            band.seed == self.spec_seed(),
            band.tempo_bpm == self.spec_tempo(),
            band.root == self.spec_root(),
            band.mode == self.spec_mode(),
            band.harmonic_framework@ == self.spec_harmony(),
            drawn_header(
                band.seed,
                band.tempo_bpm,
                band.root,
                band.mode,
                band.harmonic_framework@,
                band.percussion.bank,
            ),
            80 <= band.tempo_bpm <= 150,
            band.loop_beats == LOOP_BEATS,
            band.percussion.bank == self.spec_kit(),
            band.percussion.voices@ == self.spec_percussion().spec_voices(),
            kit_part_fits(band.percussion),
            band.instruments@.len() == 3,
            band.instruments@.map_values(|part: InstrumentPart| part.bank) == drawn_instruments(
                band.seed,
            ),
            band.members@ == members_spec(
                band.percussion.bank,
                band.instruments@.map_values(|part: InstrumentPart| part.bank),
            ),
            forall|part: int|
                0 <= part < 3 ==> part_in_band(
                    #[trigger] band.instruments@[part],
                    (part + 1) as usize,
                    band.root.pitch_class,
                    band.mode,
                ),
            forall|part: int|
                0 <= part < 3 ==> (#[trigger] band.instruments@[part]).notes@ == self.spec_phrase(
                    part,
                ).spec_notes(),
    {
        let BandBuilder { seed, header, instrument_banks, percussion, first, second, third } = self;
        let members = band_members(header.percussion_bank, &instrument_banks);
        let percussion = percussion.finish();
        let mut instruments: Vec<InstrumentPart> = Vec::with_capacity(3);
        instruments.push(first.finish());
        instruments.push(second.finish());
        instruments.push(third.finish());
        proof {
            assert(instruments@.map_values(|part: InstrumentPart| part.bank) =~= instrument_banks@);
        }
        Band {
            seed,
            tempo_bpm: header.tempo_bpm,
            root: header.root,
            mode: header.mode,
            loop_beats: LOOP_BEATS,
            members,
            harmonic_framework: header.harmonic_framework,
            percussion,
            instruments,
        }
    }
}

} // verus!
