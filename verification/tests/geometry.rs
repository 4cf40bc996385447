use hand_tracking_mouse::frame::FrameError;
use hand_tracking_mouse::geometry::{
    clip_roi_to_frame, count_near_border, hand_box_plausible, hand_connections, point_bounds,
    roi_from_corners, HandBoxLimits, PointBounds, RoiRect, LANDMARK_COUNT,
};

#[test]
fn whole_frame_when_no_roi() {
    let r = clip_roi_to_frame(640, 480, None);
    assert_eq!(r, Ok(RoiRect { x: 0, y: 0, width: 640, height: 480 }));
}

#[test]
fn roi_is_cut_at_the_frame_edges() {
    let r = clip_roi_to_frame(100, 80, Some(RoiRect { x: 90, y: 70, width: 50, height: 50 }));
    assert_eq!(r, Ok(RoiRect { x: 90, y: 70, width: 10, height: 10 }));
}

#[test]
fn roi_errors() {
    assert_eq!(clip_roi_to_frame(0, 10, None), Err(FrameError::InvalidFrameSize { width: 0, height: 10 }));
    assert_eq!(
        clip_roi_to_frame(10, 10, Some(RoiRect { x: 0, y: 0, width: 0, height: 5 })),
        Err(FrameError::InvalidRoiSize { width: 0, height: 5 })
    );
    assert_eq!(
        clip_roi_to_frame(10, 10, Some(RoiRect { x: 10, y: 0, width: 3, height: 5 })),
        Err(FrameError::RoiOutOfFrame { x: 10, y: 0, width: 3, height: 5 })
    );
}

#[test]
fn roi_with_overflowing_extent_is_cut() {
    let r = clip_roi_to_frame(10, 10, Some(RoiRect { x: 2, y: 3, width: usize::MAX, height: usize::MAX }));
    assert_eq!(r, Ok(RoiRect { x: 2, y: 3, width: 8, height: 7 }));
}

#[test]
fn corners_give_at_least_one_pixel() {
    assert_eq!(roi_from_corners(3, 4, 10, 9), RoiRect { x: 3, y: 4, width: 7, height: 5 });
    assert_eq!(roi_from_corners(5, 5, 5, 2), RoiRect { x: 5, y: 5, width: 1, height: 1 });
}

#[test]
fn bounds_of_points() {
    let b = point_bounds(&[(3, 9), (-2, 4), (7, 5)]);
    assert_eq!(b, PointBounds { min_x: -2, max_x: 7, min_y: 4, max_y: 9 });
    let e = point_bounds(&[]);
    assert_eq!(e, PointBounds { min_x: i32::MAX, max_x: i32::MIN, min_y: i32::MAX, max_y: i32::MIN });
}

#[test]
fn border_count() {
    let pts = [(0, 50), (50, 50), (99, 50), (50, 0), (50, 99), (2, 2)];
    assert_eq!(count_near_border(&pts, 1, 98, 1, 98), 4);
}

#[test]
fn hand_connections_are_the_21_bones() {
    let c = hand_connections();
    assert_eq!(c.len(), LANDMARK_COUNT);
    assert_eq!(c[0], (0, 1));
    assert_eq!(c[17], (0, 17));
    assert_eq!(c[20], (19, 20));
}

fn limits() -> HandBoxLimits {
    HandBoxLimits {
        min_width: 10,
        min_height: 10,
        max_width: 100,
        max_height: 100,
        border_left: 2,
        border_right: 197,
        border_top: 2,
        border_bottom: 197,
    }
}

#[test]
fn plausible_hand_box() {
    let pts: Vec<(i32, i32)> = (0..21).map(|i| (50 + i * 2, 60 + i)).collect();
    assert!(hand_box_plausible(&pts, &limits()));
}

#[test]
fn hand_box_refusals() {
    let few: Vec<(i32, i32)> = (0..9).map(|i| (50 + i * 5, 60 + i * 5)).collect();
    assert!(!hand_box_plausible(&few, &limits()));
    let tiny: Vec<(i32, i32)> = (0..21).map(|i| (50 + i % 3, 60 + i % 3)).collect();
    assert!(!hand_box_plausible(&tiny, &limits()));
    let huge: Vec<(i32, i32)> = (0..21).map(|i| (10 + i * 8, 60 + i)).collect();
    assert!(!hand_box_plausible(&huge, &limits()));
    let mut edge: Vec<(i32, i32)> = (0..16).map(|i| (1, 20 + i * 3)).collect();
    edge.extend((0..5).map(|i| (40 + i * 5, 40)));
    assert!(!hand_box_plausible(&edge, &limits()));
}
