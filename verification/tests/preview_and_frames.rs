use hand_tracking_mouse::frame::{Frame, FrameError};
use hand_tracking_mouse::preview::{rgb_to_u32_resized, PREVIEW_HEIGHT, PREVIEW_WIDTH};
use hand_tracking_mouse::processor::{FrameProcessor, NoopProcessor};

#[test]
fn upscaled_pixels_repeat() {
    let f = Frame { width: 2, height: 1, data: vec![1, 2, 3, 0xaa, 0xbb, 0xcc] };
    let out = rgb_to_u32_resized(&f, 4, 2).unwrap();
    assert_eq!(out, vec![0x010203, 0x010203, 0xaabbcc, 0xaabbcc, 0x010203, 0x010203, 0xaabbcc, 0xaabbcc]);
}

#[test]
fn downscaled_pixels_are_sampled() {
    let mut data = Vec::new();
    for i in 0..16u8 {
        data.extend_from_slice(&[i, 0, 0]);
    }
    let f = Frame { width: 4, height: 4, data };
    let out = rgb_to_u32_resized(&f, 2, 2).unwrap();
    assert_eq!(out, vec![0x000000, 0x020000, 0x080000, 0x0a0000]);
}

#[test]
fn missing_bytes_read_as_zero() {
    let f = Frame { width: 2, height: 1, data: vec![9, 9, 9, 5] };
    let out = rgb_to_u32_resized(&f, 2, 1).unwrap();
    assert_eq!(out, vec![0x090909, 0x050000]);
}

#[test]
fn empty_frame_is_refused() {
    let f = Frame { width: 0, height: 3, data: vec![] };
    assert_eq!(rgb_to_u32_resized(&f, PREVIEW_WIDTH, PREVIEW_HEIGHT), Err(FrameError::InvalidFrameSize { width: 0, height: 3 }));
}

#[test]
fn preview_size() {
    let f = Frame { width: 1, height: 1, data: vec![1, 2, 3] };
    let out = rgb_to_u32_resized(&f, PREVIEW_WIDTH, PREVIEW_HEIGHT).unwrap();
    assert_eq!(out.len(), 640 * 480);
    assert!(out.iter().all(|&p| p == 0x010203));
}

#[test]
fn noop_processor_returns_the_frame() {
    let f = Frame { width: 1, height: 1, data: vec![1, 2, 3] };
    let mut p = NoopProcessor;
    let out = p.process(f.clone()).unwrap();
    assert_eq!(out.data, f.data);
    assert_eq!((out.width, out.height), (1, 1));
}

#[test]
fn same_size_keeps_pixels() {
    let data: Vec<u8> = (0..18u8).collect();
    let f = Frame { width: 3, height: 2, data };
    let out = rgb_to_u32_resized(&f, 3, 2).unwrap();
    assert_eq!(out, vec![0x000102, 0x030405, 0x060708, 0x090a0b, 0x0c0d0e, 0x0f1011]);
}
