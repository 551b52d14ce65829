use virtual_keyboard::mixer::{merge_all_arrays, merge_arrays, mix_notes};

#[test]
fn merge_arrays_sums_overlapping_prefix() {
    let shortest = vec![1i64, 2, 3];
    let longest = vec![10i64, 20, 30, 40, 50];
    let merged = merge_arrays(shortest, longest);
    assert_eq!(merged, vec![11i64, 22, 33]);
}

#[test]
fn merge_arrays_with_negative_samples() {
    let shortest = vec![-5i64, 5];
    let longest = vec![3i64, -10, 7];
    let merged = merge_arrays(shortest, longest);
    assert_eq!(merged, vec![-2i64, -5]);
}

#[test]
fn merge_all_arrays_three_sorted_inputs() {
    let arrays = vec![vec![1i64, 1], vec![2i64, 2, 2], vec![4i64, 4, 4, 4]];
    let merged = merge_all_arrays(arrays);
    assert_eq!(merged, vec![7i64, 7]);
}

#[test]
fn merge_all_arrays_single_input_unchanged() {
    let arrays = vec![vec![9i64, -9, 0]];
    let merged = merge_all_arrays(arrays);
    assert_eq!(merged, vec![9i64, -9, 0]);
}

#[test]
fn mix_output_length_is_minimum_and_samples_are_sums() {
    let frames = vec![vec![1i64, 2, 3, 4], vec![10i64, 20], vec![100i64, 200, 300]];
    let mixed = mix_notes(frames);
    assert_eq!(mixed.len(), 2);
    assert_eq!(mixed, vec![111i64, 222]);
}

#[test]
fn mix_unsorted_inputs_are_ordered_by_length_first() {
    let frames = vec![vec![5i64, 5, 5], vec![1i64], vec![2i64, 2]];
    let mixed = mix_notes(frames);
    assert_eq!(mixed, vec![8i64]);
}

#[test]
fn mix_single_sequence_is_identity() {
    let frames = vec![vec![7i64, -3, 0, 32767, -32767]];
    let mixed = mix_notes(frames);
    assert_eq!(mixed, vec![7i64, -3, 0, 32767, -32767]);
}

#[test]
fn mix_equal_length_sequences_keeps_full_length() {
    let frames = vec![vec![1i64, 2], vec![3i64, 4], vec![5i64, 6]];
    let mixed = mix_notes(frames);
    assert_eq!(mixed, vec![9i64, 12]);
}

#[test]
fn mix_extreme_amplitudes_sum_exactly() {
    let frames = vec![vec![32767i64; 4], vec![32767i64; 4], vec![-32767i64; 4]];
    let mixed = mix_notes(frames);
    assert_eq!(mixed, vec![32767i64; 4]);
}
