//! The interface of a per-frame processing stage, and the stage that
//! passes frames through unchanged (used when the landmark model cannot be
//! loaded, so that the preview keeps running).
use vstd::prelude::*;
use crate::frame::{Frame, FrameError};

verus! {

/// A stage that takes each camera frame and returns the frame to show.
pub trait FrameProcessor {
    fn process(&mut self, frame: Frame) -> Result<Frame, FrameError>;
}

/// Shows every frame as it was captured.
pub struct NoopProcessor;

impl FrameProcessor for NoopProcessor {
    fn process(&mut self, frame: Frame) -> (r: Result<Frame, FrameError>)
        ensures
            r == Ok::<Frame, FrameError>(frame),
    {
        Ok(frame)
    }
}

} // verus!
