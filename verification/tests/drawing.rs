use hand_tracking_mouse::draw::{draw_dot_rgb, draw_line_rgb, draw_skeleton, set_pixel_rgb};
use hand_tracking_mouse::frame::Frame;

fn blank(width: usize, height: usize) -> Frame {
    Frame { width, height, data: vec![0; width * height * 3] }
}

fn painted(frame: &Frame) -> Vec<(usize, usize, [u8; 3])> {
    let mut out = Vec::new();
    for y in 0..frame.height {
        for x in 0..frame.width {
            let i = (y * frame.width + x) * 3;
            let px = [frame.data[i], frame.data[i + 1], frame.data[i + 2]];
            if px != [0, 0, 0] {
                out.push((x, y, px));
            }
        }
    }
    out
}

#[test]
fn set_pixel_writes_the_three_bytes_of_the_pixel() {
    let mut f = blank(3, 2);
    set_pixel_rgb(&mut f, 1, 1, [10, 20, 30]);
    assert_eq!(&f.data[12..15], &[10, 20, 30]);
    assert_eq!(painted(&f).len(), 1);
}

#[test]
fn set_pixel_ignores_points_outside_the_frame() {
    let mut f = blank(3, 2);
    set_pixel_rgb(&mut f, -1, 0, [1, 1, 1]);
    set_pixel_rgb(&mut f, 0, -1, [1, 1, 1]);
    set_pixel_rgb(&mut f, 3, 0, [1, 1, 1]);
    set_pixel_rgb(&mut f, 0, 2, [1, 1, 1]);
    assert!(painted(&f).is_empty());
}

#[test]
fn set_pixel_ignores_pixels_missing_from_short_data() {
    let mut f = Frame { width: 2, height: 2, data: vec![0; 10] };
    set_pixel_rgb(&mut f, 1, 1, [9, 9, 9]);
    assert_eq!(f.data, vec![0; 10]);
    set_pixel_rgb(&mut f, 0, 1, [9, 9, 9]);
    assert_eq!(&f.data[6..9], &[9, 9, 9]);
}

#[test]
fn dot_of_radius_zero_is_one_pixel() {
    let mut f = blank(5, 5);
    draw_dot_rgb(&mut f, (2, 2), 0, [7, 7, 7]);
    assert_eq!(painted(&f), vec![(2, 2, [7, 7, 7])]);
}

#[test]
fn dot_of_radius_one_is_a_plus() {
    let mut f = blank(5, 5);
    draw_dot_rgb(&mut f, (2, 2), 1, [7, 7, 7]);
    let cells: Vec<(usize, usize)> = painted(&f).into_iter().map(|(x, y, _)| (x, y)).collect();
    assert_eq!(cells, vec![(2, 1), (1, 2), (2, 2), (3, 2), (2, 3)]);
}

#[test]
fn dot_of_radius_two_has_thirteen_pixels() {
    let mut f = blank(7, 7);
    draw_dot_rgb(&mut f, (3, 3), 2, [255, 80, 80]);
    assert_eq!(painted(&f).len(), 13);
}

#[test]
fn dot_is_clipped_at_the_frame_corner() {
    let mut f = blank(4, 4);
    draw_dot_rgb(&mut f, (0, 0), 2, [1, 2, 3]);
    let cells: Vec<(usize, usize)> = painted(&f).into_iter().map(|(x, y, _)| (x, y)).collect();
    assert_eq!(cells, vec![(0, 0), (1, 0), (2, 0), (0, 1), (1, 1), (0, 2)]);
}

#[test]
fn negative_radius_draws_nothing() {
    let mut f = blank(4, 4);
    draw_dot_rgb(&mut f, (1, 1), -1, [1, 2, 3]);
    assert!(painted(&f).is_empty());
}

#[test]
fn horizontal_line_covers_both_ends() {
    let mut f = blank(5, 2);
    draw_line_rgb(&mut f, (0, 0), (3, 0), [0, 255, 0]);
    let cells: Vec<(usize, usize)> = painted(&f).into_iter().map(|(x, y, _)| (x, y)).collect();
    assert_eq!(cells, vec![(0, 0), (1, 0), (2, 0), (3, 0)]);
}

#[test]
fn steep_line_follows_bresenham() {
    let mut f = blank(3, 4);
    draw_line_rgb(&mut f, (0, 0), (1, 3), [0, 255, 0]);
    let cells: Vec<(usize, usize)> = painted(&f).into_iter().map(|(x, y, _)| (x, y)).collect();
    assert_eq!(cells, vec![(0, 0), (0, 1), (1, 2), (1, 3)]);
}

#[test]
fn reversed_diagonal_line() {
    let mut f = blank(4, 4);
    draw_line_rgb(&mut f, (3, 3), (0, 0), [5, 5, 5]);
    let cells: Vec<(usize, usize)> = painted(&f).into_iter().map(|(x, y, _)| (x, y)).collect();
    assert_eq!(cells, vec![(0, 0), (1, 1), (2, 2), (3, 3)]);
}

#[test]
fn line_of_one_point() {
    let mut f = blank(2, 2);
    draw_line_rgb(&mut f, (1, 0), (1, 0), [5, 5, 5]);
    assert_eq!(painted(&f), vec![(1, 0, [5, 5, 5])]);
}

#[test]
fn skeleton_draws_bones_then_joints() {
    let mut f = blank(40, 40);
    let points: Vec<(i32, i32)> = (0..21).map(|i| (i as i32, 10)).collect();
    draw_skeleton(&mut f, &points);
    // A joint is red, drawn over the green bone.
    let joint = (10 * 40 + 5) * 3;
    assert_eq!(&f.data[joint..joint + 3], &[255, 80, 80]);
    // Bone (0, 17) runs along row 10; joints are radius-2 dots, so row 12 under
    // column 5 is a joint pixel and row 13 is untouched.
    let below = (13 * 40 + 5) * 3;
    assert_eq!(&f.data[below..below + 3], &[0, 0, 0]);
}

#[test]
fn skeleton_with_missing_points_draws_only_present_bones() {
    let mut f = blank(30, 30);
    let points = vec![(5, 5), (25, 5)];
    draw_skeleton(&mut f, &points);
    // Bone (0, 1) is drawn in green between the two points.
    let mid = (5 * 30 + 15) * 3;
    assert_eq!(&f.data[mid..mid + 3], &[0, 255, 0]);
    // Nothing is drawn on row 20.
    for x in 0..30 {
        let i = (20 * 30 + x) * 3;
        assert_eq!(&f.data[i..i + 3], &[0, 0, 0]);
    }
}
