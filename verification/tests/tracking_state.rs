use hand_tracking_mouse::geometry::RoiRect;
use hand_tracking_mouse::tracking::{CenterMotion, InferenceOutcome, TrackerState, WorkerState};

fn roi() -> RoiRect {
    RoiRect { x: 10, y: 20, width: 30, height: 40 }
}

#[test]
fn valid_detection_tracks_the_new_region() {
    let mut s: WorkerState<(f32, f32)> = WorkerState::new();
    s.record_invalid(4);
    s.record_valid(Some(roi()));
    assert_eq!(s.lost_count, 0);
    assert_eq!(s.valid_streak, 1);
    assert_eq!(s.roi, Some(roi()));
}

#[test]
fn tracking_restarts_after_four_lost_frames() {
    let mut s: WorkerState<(f32, f32)> = WorkerState::new();
    s.record_valid(Some(roi()));
    assert!(s.observe_center((0.5, 0.5), CenterMotion::Moved));
    for _ in 0..3 {
        s.record_invalid(4);
        assert_eq!(s.roi, Some(roi()));
        assert!(s.prev_center.is_some());
    }
    s.record_invalid(4);
    assert_eq!(s.roi, None);
    assert!(s.prev_center.is_none());
    assert_eq!(s.valid_streak, 0);
    assert_eq!(s.lost_count, 4);
}

#[test]
fn jumping_center_is_refused() {
    let mut s: WorkerState<u8> = WorkerState::new();
    assert!(s.observe_center(1, CenterMotion::Jumped));
    assert!(!s.observe_center(2, CenterMotion::Jumped));
    assert_eq!(s.prev_center, Some(2));
}

#[test]
fn still_center_is_refused_from_the_sixth_time() {
    let mut s: WorkerState<u8> = WorkerState::new();
    assert!(s.observe_center(0, CenterMotion::Moved));
    for _ in 0..5 {
        assert!(s.observe_center(0, CenterMotion::Still));
    }
    assert!(!s.observe_center(0, CenterMotion::Still));
    assert!(!s.observe_center(0, CenterMotion::Still));
    assert!(s.observe_center(0, CenterMotion::Moved));
    assert_eq!(s.center_stuck_count, 0);
}

#[test]
fn landmarks_are_drawn_after_warmup() {
    let mut t: TrackerState<Vec<u8>, (u8, u8)> = TrackerState::new();
    assert!(!t.absorb(InferenceOutcome::Detected(vec![1])));
    assert!(t.ready_landmarks(2).is_none());
    t.absorb(InferenceOutcome::Detected(vec![2]));
    assert_eq!(t.ready_landmarks(2), Some(&vec![2]));
    t.absorb(InferenceOutcome::Lost);
    assert!(t.ready_landmarks(2).is_none());
    assert!(t.last_valid_landmarks.is_none());
}

#[test]
fn loss_clears_targets_but_keeps_cursor() {
    let mut t: TrackerState<u8, (u8, u8)> = TrackerState::new();
    t.cursor_target = Some((1, 1));
    t.smoothed_cursor = Some((2, 2));
    t.cursor_current = Some((3, 3));
    t.smoothed_landmarks = Some(4);
    t.absorb(InferenceOutcome::Failed);
    assert_eq!(t.cursor_target, None);
    assert_eq!(t.smoothed_cursor, None);
    assert_eq!(t.smoothed_landmarks, None);
    assert_eq!(t.cursor_current, Some((3, 3)));
}

#[test]
fn failures_are_reported_every_thirty() {
    let mut t: TrackerState<u8, u8> = TrackerState::new();
    let mut reported = Vec::new();
    for n in 1..=61u32 {
        if t.absorb(InferenceOutcome::Failed) {
            reported.push(n);
        }
    }
    assert_eq!(reported, vec![1, 31, 61]);
    t.absorb(InferenceOutcome::Detected(7));
    assert_eq!(t.error_count, 0);
    assert!(t.record_error());
}

#[test]
fn frames_are_counted() {
    let mut t: TrackerState<u8, u8> = TrackerState::new();
    t.begin_frame();
    t.begin_frame();
    assert_eq!(t.frame_count, 2);
    t.frame_count = u64::MAX;
    t.begin_frame();
    assert_eq!(t.frame_count, u64::MAX);
}
