use band_engine::render::{
    note_sample_span, render_blocks, slot_to_sample, step_start_sample, wrapped_offset, PlayHead,
    MAX_RENDER_FRAMES,
};

fn float_slot_to_sample(slot: usize, slots: usize, loop_samples: usize) -> usize {
    ((slot as f64 / slots as f64) * loop_samples as f64).round() as usize
}

#[test]
fn slot_placement_matches_the_float_formula() {
    for loop_samples in [1usize, 7, 100, 44_100, 192_001, 313_913, 1_000_003] {
        for slot in 0..=32 {
            assert_eq!(
                slot_to_sample(slot, 32, loop_samples),
                float_slot_to_sample(slot, 32, loop_samples)
            );
        }
        for step in 0..=64 {
            assert_eq!(
                step_start_sample(step, loop_samples),
                float_slot_to_sample(step, 64, loop_samples)
            );
        }
    }
    assert_eq!(slot_to_sample(1, 64, 96), 2);
    assert_eq!(slot_to_sample(1, 64, 32), 1);
    assert_eq!(slot_to_sample(32, 32, 1000), 1000);
}

#[test]
fn note_spans_last_at_least_one_sample() {
    assert_eq!(note_sample_span(0, 4, 3200), (0, 400));
    assert_eq!(note_sample_span(31, 1, 3200), (3100, 100));
    assert_eq!(note_sample_span(5, 1, 2), (0, 1));
}

#[test]
fn offsets_wrap_around_the_loop() {
    assert_eq!(wrapped_offset(10, 4, 100, 50), Some(6));
    assert_eq!(wrapped_offset(2, 45, 10, 50), Some(7));
    assert_eq!(wrapped_offset(2, 45, 7, 50), None);
    assert_eq!(wrapped_offset(4, 4, 1, 50), Some(0));
}

#[test]
fn render_blocks_cover_the_loop() {
    for loop_samples in [0usize, 1, 4095, 4096, 4097, 20_000, 441_000] {
        let blocks = render_blocks(loop_samples);
        assert_eq!(blocks.iter().sum::<usize>(), loop_samples);
        for (index, block) in blocks.iter().enumerate() {
            assert!(*block >= 1 && *block <= MAX_RENDER_FRAMES);
            if index + 1 < blocks.len() {
                assert_eq!(*block, MAX_RENDER_FRAMES);
            }
        }
    }
}

#[test]
fn play_head_wraps_at_the_loop_end() {
    let mut head = PlayHead::new(3);
    let mut positions = Vec::new();
    for _ in 0..7 {
        positions.push(head.position());
        head.advance();
    }
    assert_eq!(positions, vec![0, 1, 2, 0, 1, 2, 0]);
    assert_eq!(head.absolute_position(), 7);
    assert_eq!(head.position() as u64, head.absolute_position() % 3);
    head.reset();
    assert_eq!((head.position(), head.absolute_position(), head.loop_samples()), (0, 0, 3));
}
