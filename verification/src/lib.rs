//! Verified core of a webcam hand-tracking mouse: frame drawing, region of
//! interest geometry, landmark decoding helpers, the tracking state machines
//! of the inference worker and of the frame processor, pinch clicks,
//! configuration limits and camera selection.
pub mod camera;
pub mod click;
pub mod config;
pub mod draw;
pub mod frame;
pub mod geometry;
pub mod landmarks;
pub mod preview;
pub mod processor;
pub mod tracking;
