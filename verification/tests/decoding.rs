use hand_tracking_mouse::landmarks::{best_landmark_window, select_landmark_output, split_xyz_triples};

#[test]
fn triples_stop_at_the_requested_count() {
    let v: Vec<u32> = (0..10).collect();
    assert_eq!(split_xyz_triples(&v, 2), vec![(0, 1, 2), (3, 4, 5)]);
    assert_eq!(split_xyz_triples(&v, 5), vec![(0, 1, 2), (3, 4, 5), (6, 7, 8)]);
}

#[test]
fn triples_always_take_the_first_complete_one() {
    let v: Vec<u32> = (0..10).collect();
    assert_eq!(split_xyz_triples(&v, 0), vec![(0, 1, 2)]);
}

#[test]
fn triples_drop_incomplete_tail() {
    let v = [1.5f32, 2.5];
    assert!(split_xyz_triples(&v, 21).is_empty());
    let w = [1.0f32, 2.0, 3.0, 4.0];
    assert_eq!(split_xyz_triples(&w, 21), vec![(1.0, 2.0, 3.0)]);
}

#[test]
fn window_needs_enough_values() {
    let scores = vec![4u8; 10];
    assert_eq!(best_landmark_window(&scores, 11, 4), None);
    assert_eq!(best_landmark_window(&scores, 11, 3), Some(0));
}

#[test]
fn window_prefers_the_highest_score() {
    // Two triples; pair scores are read at start and start + 3.
    let mut scores = vec![0u8; 9];
    scores[2] = 4;
    scores[5] = 4;
    assert_eq!(best_landmark_window(&scores, 10, 2), Some(2));
}

#[test]
fn window_ties_keep_the_earliest() {
    let mut scores = vec![0u8; 9];
    scores[1] = 3;
    scores[3] = 3;
    assert_eq!(best_landmark_window(&scores, 10, 1), Some(1));
}

#[test]
fn window_start_is_at_most_64() {
    let mut scores = vec![0u8; 199];
    scores[100] = 4;
    assert_eq!(best_landmark_window(&scores, 200, 1), Some(0));
    scores[64] = 1;
    assert_eq!(best_landmark_window(&scores, 200, 1), Some(64));
}

#[test]
fn output_with_most_values_wins() {
    let lengths = [Some(10), None, Some(63), Some(126), Some(126), Some(1)];
    assert_eq!(select_landmark_output(&lengths, 63), Some(3));
}

#[test]
fn no_output_large_enough() {
    let lengths = [Some(10), None, Some(62)];
    assert_eq!(select_landmark_output(&lengths, 63), None);
    assert_eq!(select_landmark_output(&[], 63), None);
}
