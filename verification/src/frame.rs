//! Packed RGB frames and the errors raised when a frame or a region of it
//! cannot be used.
use vstd::prelude::*;

verus! {

/// A camera frame: `width * height` pixels, three bytes (R, G, B) per pixel,
/// row after row.  Nothing forces `data` to hold all of them: readers and
/// writers treat missing bytes as absent.
#[derive(Clone, Debug)]
pub struct Frame {
    pub width: usize,
    pub height: usize,
    pub data: Vec<u8>,
}

/// The byte offset of every pixel of a `width` x `height` frame, and the two
/// bytes after it, can be computed in `usize`.
pub open spec fn frame_indexable(width: int, height: int) -> bool {
    width * height * 3 <= usize::MAX
}

/// Why a frame, or a region of interest within it, was refused.
#[derive(Clone, Copy, Debug, PartialEq, Eq)]
pub enum FrameError {
    /// The frame has no pixels (a zero width or height).
    InvalidFrameSize { width: usize, height: usize },
    /// The requested region has a zero width or height.
    InvalidRoiSize { width: usize, height: usize },
    /// The requested region starts at or beyond the frame's right or bottom edge.
    RoiOutOfFrame { x: usize, y: usize, width: usize, height: usize },
}

} // verus!
