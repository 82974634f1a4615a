use band_engine::euclid::{euclidean_pattern, rotate_pattern};

#[test]
fn euclidean_three_over_eight_is_balanced() {
    assert_eq!(
        euclidean_pattern(8, 3),
        vec![true, false, false, true, false, false, true, false]
    );
}

#[test]
fn euclidean_four_over_sixteen_is_even() {
    let pattern = euclidean_pattern(16, 4);
    let hits: Vec<usize> = pattern
        .iter()
        .enumerate()
        .filter_map(|(index, hit)| hit.then_some(index))
        .collect();
    assert_eq!(hits, vec![0, 4, 8, 12]);
}

#[test]
fn euclidean_handles_empty_and_full_cases() {
    assert_eq!(euclidean_pattern(5, 0), vec![false; 5]);
    assert_eq!(euclidean_pattern(5, 9), vec![true; 5]);
}

#[test]
fn rotation_preserves_hit_count() {
    let pattern = euclidean_pattern(16, 5);
    let rotated = rotate_pattern(&pattern, 3);
    assert_eq!(
        pattern.iter().filter(|hit| **hit).count(),
        rotated.iter().filter(|hit| **hit).count()
    );
}

fn hits(pattern: &[bool]) -> usize {
    pattern.iter().filter(|hit| **hit).count()
}

#[test]
fn euclidean_length_and_hits_match_the_request() {
    for steps in 0..48usize {
        for pulses in 0..(steps + 3) {
            let pattern = euclidean_pattern(steps, pulses);
            assert_eq!(pattern.len(), steps);
            assert_eq!(hits(&pattern), pulses.min(steps));
            if steps > 0 && pulses > 0 {
                assert!(pattern[0]);
            }
        }
    }
}

#[test]
fn euclidean_five_over_sixteen_exact() {
    let expected = [
        true, false, false, true, false, false, true, false, false, true, false, false, true,
        false, false, false,
    ];
    assert_eq!(euclidean_pattern(16, 5), expected.to_vec());
}

#[test]
fn euclidean_single_pulse_and_empty_grid() {
    let mut expected = vec![false; 7];
    expected[0] = true;
    assert_eq!(euclidean_pattern(7, 1), expected);
    assert!(euclidean_pattern(0, 3).is_empty());
}

#[test]
fn rotation_moves_each_cell_right() {
    let pattern = vec![true, false, false, true, false];
    for rotation in 0..12usize {
        let rotated = rotate_pattern(&pattern, rotation);
        assert_eq!(rotated.len(), pattern.len());
        for i in 0..pattern.len() {
            assert_eq!(rotated[(i + rotation) % pattern.len()], pattern[i]);
        }
    }
    assert_eq!(
        rotate_pattern(&pattern, 2),
        vec![true, false, true, false, false]
    );
    assert!(rotate_pattern(&[], 3).is_empty());
}

#[test]
fn euclidean_gaps_differ_by_at_most_one() {
    for steps in 2..48usize {
        for pulses in 1..steps {
            let pattern = euclidean_pattern(steps, pulses);
            let run = (steps - pulses) / pulses;
            let hits: Vec<usize> = (0..steps).filter(|i| pattern[*i]).collect();
            for k in 0..hits.len() {
                let next = if k + 1 < hits.len() { hits[k + 1] } else { hits[0] + steps };
                let gap = next - hits[k] - 1;
                assert!(gap == run || gap == run + 1, "{steps} {pulses} {gap}");
            }
        }
    }
}
