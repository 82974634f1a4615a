use vstd::prelude::*;
use crate::music::{INSTRUMENT_SLOTS, PERCUSSION_STEPS};

verus! {

/// The most frames one render call fills.
pub const MAX_RENDER_FRAMES: usize = 4096;

/// Whether `n` is a power of two.
pub open spec fn is_power_of_two(n: nat) -> bool
    decreases n,
{
    if n == 1 {
        true
    } else if n < 2 || n % 2 != 0 {
        false
    } else {
        is_power_of_two(n / 2)
    }
}

/// The sample at which grid position `slot` of `slots` starts in a loop of
/// `loop_samples` samples: `slot * loop_samples / slots`, rounded half up.
pub open spec fn slot_sample_spec(slot: nat, slots: nat, loop_samples: nat) -> nat {
    (2 * slot * loop_samples + slots) / (2 * slots)
}

/// The sample at which grid position `slot` of a grid of `slots` positions starts
/// in a loop of `loop_samples` samples, to the nearest sample (halves up). For a
/// grid of a power of two and products below 2^53 this is exactly the rounded
/// double-precision product `((slot / slots) * loop_samples).round()`.
pub fn slot_to_sample(slot: usize, slots: usize, loop_samples: usize) -> (sample: usize)
    requires
        is_power_of_two(slots as nat),
        slot <= slots,
        slot * loop_samples <= 0x20_0000_0000_0000,
    ensures
        sample == slot_sample_spec(slot as nat, slots as nat, loop_samples as nat),
        sample <= loop_samples,
{
    assert((slot as u128) * (loop_samples as u128) <= u128::MAX) by (nonlinear_arith)
        requires
            slot <= usize::MAX,
            loop_samples <= usize::MAX,
            usize::MAX <= u64::MAX,
    ;
    let product: u128 = (slot as u128) * (loop_samples as u128);
    let numerator: u128 = 2 * product + slots as u128;
    assert(numerator == 2 * slot * loop_samples + slots) by (nonlinear_arith)
        requires
            product == slot * loop_samples,
            numerator == 2 * product + slots,
    ;
    let denominator: u128 = 2 * (slots as u128);
    assert(slots > 0) by {
        if slots == 0 {
            assert(!is_power_of_two(0));
        }
    }
    let sample = numerator / denominator;
    assert(sample <= loop_samples) by (nonlinear_arith)
        requires
            sample == numerator / denominator,
            numerator == 2 * slot * loop_samples + slots,
            denominator == 2 * slots,
            slots > 0,
            slot <= slots,
    {
        assert(2 * slot * loop_samples + slots < (loop_samples + 1) * (2 * slots));
    }
    sample as usize
}

/// Where an event that starts at `start_sample` of the loop stands at
/// `loop_position`, counting around the end of the loop, while it still sounds
/// (fewer than `total_samples` samples in).
pub fn wrapped_offset(loop_position: usize, start_sample: usize, total_samples: usize, loop_samples: usize) -> (offset: Option<usize>)
    requires
        loop_position >= start_sample || (start_sample <= loop_samples && loop_samples
            - start_sample + loop_position <= usize::MAX),
    ensures
        ({
            let distance = if loop_position >= start_sample {
                loop_position - start_sample
            } else {
                loop_samples - start_sample + loop_position
            };
            offset == if distance < total_samples {
                Some(distance as usize)
            } else {
                None
            }
        }),
{
    let offset = if loop_position >= start_sample {
        loop_position - start_sample
    } else {
        loop_samples - start_sample + loop_position
    };
    if offset < total_samples {
        Some(offset)
    } else {
        None
    }
}

/// The first sample of a note and how many samples it lasts (at least one) in a
/// loop of `loop_samples` samples.
pub fn note_sample_span(start_slot: usize, duration_slots: usize, loop_samples: usize) -> (span: (usize, usize))
    requires
        start_slot + duration_slots <= INSTRUMENT_SLOTS,
        loop_samples <= 0x8000_0000_0000,
    ensures
        ({
            let start = slot_sample_spec(start_slot as nat, 32, loop_samples as nat);
            let end = slot_sample_spec((start_slot + duration_slots) as nat, 32, loop_samples as nat);
            &&& span.0 == start
            &&& span.1 == if end > start + 1 {
                end - start
            } else {
                1
            }
        }),
{
    assert(is_power_of_two(32)) by {
        reveal_with_fuel(is_power_of_two, 7);
    }
    assert(start_slot * loop_samples <= 0x20_0000_0000_0000) by (nonlinear_arith)
        requires
            start_slot <= 32,
            loop_samples <= 0x8000_0000_0000,
    ;
    assert((start_slot + duration_slots) * loop_samples <= 0x20_0000_0000_0000) by (nonlinear_arith)
        requires
            start_slot + duration_slots <= 32,
            loop_samples <= 0x8000_0000_0000,
    ;
    let start_sample = slot_to_sample(start_slot, INSTRUMENT_SLOTS, loop_samples);
    let end_sample = slot_to_sample(start_slot + duration_slots, INSTRUMENT_SLOTS, loop_samples);
    let length = if end_sample > start_sample {
        end_sample - start_sample
    } else {
        0
    };
    let duration_samples = if length > 1 {
        length
    } else {
        1
    };
    (start_sample, duration_samples)
}

/// The sample of the loop where a percussion step starts.
pub fn step_start_sample(step: usize, loop_samples: usize) -> (sample: usize)
    requires
        step <= PERCUSSION_STEPS,
        loop_samples <= 0x8000_0000_0000,
    ensures
        sample == slot_sample_spec(step as nat, 64, loop_samples as nat),
{
    assert(is_power_of_two(64)) by {
        reveal_with_fuel(is_power_of_two, 8);
    }
    assert(step * loop_samples <= 0x20_0000_0000_0000) by (nonlinear_arith)
        requires
            step <= 64,
            loop_samples <= 0x8000_0000_0000,
    ;
    slot_to_sample(step, PERCUSSION_STEPS, loop_samples)
}

/// The sum of some block sizes.
pub open spec fn total_frames(blocks: Seq<usize>) -> nat
    decreases blocks.len(),
{
    if blocks.len() == 0 {
        0
    } else {
        total_frames(blocks.drop_last()) + blocks.last() as nat
    }
}

/// The blocks in which a loop of `loop_samples` frames is rendered: full blocks
/// of the largest size, then what is left.
pub fn render_blocks(loop_samples: usize) -> (blocks: Vec<usize>)
    ensures
        total_frames(blocks@) == loop_samples,
        forall|i: int| 0 <= i < blocks@.len() ==> 1 <= #[trigger] blocks@[i] <= MAX_RENDER_FRAMES,
        forall|i: int| 0 <= i < blocks@.len() - 1 ==> #[trigger] blocks@[i] == MAX_RENDER_FRAMES,
{
    let mut blocks: Vec<usize> = Vec::new();
    let mut frame_cursor: usize = 0;
    while frame_cursor < loop_samples
        invariant
            frame_cursor <= loop_samples,
            total_frames(blocks@) == frame_cursor,
            forall|i: int| 0 <= i < blocks@.len() ==> 1 <= #[trigger] blocks@[i] <= MAX_RENDER_FRAMES,
            forall|i: int| 0 <= i < blocks@.len() - 1 ==> #[trigger] blocks@[i] == MAX_RENDER_FRAMES,
            blocks@.len() > 0 && blocks@.last() < MAX_RENDER_FRAMES ==> frame_cursor == loop_samples,
        decreases loop_samples - frame_cursor,
    {
        let left = loop_samples - frame_cursor;
        let block = if left < MAX_RENDER_FRAMES {
            left
        } else {
            MAX_RENDER_FRAMES
        };
        let ghost before = blocks@;
        blocks.push(block);
        assert(blocks@.drop_last() =~= before);
        frame_cursor += block;
    }
    blocks
}

/// Where playback stands: the position in the loop and the count of samples
/// played since the start.
pub struct PlayHead {
    position: usize,
    absolute_position: u64,
    loop_samples: usize,
}

impl View for PlayHead {
    type V = (nat, u64, nat);

    closed spec fn view(&self) -> (nat, u64, nat) {
        (self.position as nat, self.absolute_position, self.loop_samples as nat)
    }
}

impl PlayHead {
    /// The play head's invariant: it stands inside a loop of at least one sample.
    pub open spec fn wf(&self) -> bool {
        &&& self@.2 >= 1
        &&& self@.0 < self@.2
    }

    /// A play head at the start of a loop of `loop_samples` samples.
    pub fn new(loop_samples: usize) -> (head: Self)
        requires
            loop_samples >= 1,
        ensures
            head.wf(),
            head@ == (0nat, 0u64, loop_samples as nat),
    {
        PlayHead { position: 0, absolute_position: 0, loop_samples }
    }

    /// Back to the start of the loop and of playback.
    pub fn reset(&mut self)
        requires
            old(self).wf(),
        ensures
            final(self).wf(),
            final(self)@ == (0nat, 0u64, old(self)@.2),
    {
        self.position = 0;
        self.absolute_position = 0;
    }

    /// One sample on: the position wraps to the start at the end of the loop and
    /// the sample count wraps at 2^64. While the count has not wrapped the
    /// position stays the count modulo the loop length.
    pub fn advance(&mut self)
        requires
            old(self).wf(),
        ensures
            final(self).wf(),
            final(self)@.2 == old(self)@.2,
            final(self)@.0 == if old(self)@.0 + 1 >= old(self)@.2 {
                0
            } else {
                old(self)@.0 + 1
            },
            final(self)@.1 == crate::rng::wrap_add(old(self)@.1, 1),
            old(self)@.0 == (old(self)@.1 as nat) % old(self)@.2 && old(self)@.1 < u64::MAX
                ==> final(self)@.0 == (final(self)@.1 as nat) % final(self)@.2,
    {
        let ghost before = self@;
        self.position += 1;
        if self.position >= self.loop_samples {
            self.position = 0;
        }
        self.absolute_position = self.absolute_position.wrapping_add(1);
        proof {
            let n = before.2 as int;
            let a = before.1 as int;
            if before.0 == (before.1 as nat) % before.2 && a < u64::MAX {
                vstd::arithmetic::div_mod::lemma_fundamental_div_mod(a, n);
                vstd::arithmetic::div_mod::lemma_fundamental_div_mod(a + 1, n);
                vstd::arithmetic::div_mod::lemma_mod_bound(a + 1, n);
                vstd::arithmetic::div_mod::lemma_add_mod_noop(a, 1, n);
                if n > 1 {
                    vstd::arithmetic::div_mod::lemma_small_mod(1, n as nat);
                } else {
                    assert(1int % 1 == 0);
                }
                if before.0 + 1 >= n {
                    vstd::arithmetic::div_mod::lemma_mod_self_0(n);
                } else {
                    vstd::arithmetic::div_mod::lemma_small_mod((before.0 + 1) as nat, n as nat);
                }
            }
        }
    }

    /// The position in the loop.
    pub fn position(&self) -> (position: usize)
        ensures
            position == self@.0,
    {
        self.position
    }

    /// The samples played since the start, modulo 2^64.
    pub fn absolute_position(&self) -> (absolute: u64)
        ensures
            absolute == self@.1,
    {
        self.absolute_position
    }

    /// The length of the loop in samples.
    pub fn loop_samples(&self) -> (loop_samples: usize)
        ensures
            loop_samples == self@.2,
    {
        self.loop_samples
    }
}

} // verus!
