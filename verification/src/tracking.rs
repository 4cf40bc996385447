//! The decisions of hand tracking, apart from the arithmetic on landmark
//! coordinates: the inference worker's region-of-interest tracking and the
//! frame processor's detection streak, kept free of the coordinate types
//! (`C` for a hand centre, `L` for a set of landmarks, `P` for a cursor
//! position) that the caller computes with.
use vstd::prelude::*;
use crate::geometry::RoiRect;

verus! {

/// Consecutive "still" observations of the hand centre after which the
/// detection is taken for a frozen false positive and refused.
pub const CENTER_STUCK_LIMIT: u32 = 6;

/// Consecutive errors between two reports in the log.
pub const ERROR_LOG_INTERVAL: u32 = 30;

/// `v + 1`, or `v` when that would overflow.
pub open spec fn sat_inc(v: u32) -> u32 {
    if v == u32::MAX { v } else { (v + 1) as u32 }
}

/// How the hand centre moved since the previous accepted or refused detection.
#[derive(Clone, Copy, Debug, PartialEq, Eq, Structural)]
pub enum CenterMotion {
    /// It jumped further than a hand can move between two inferences.
    Jumped,
    /// It barely moved while sitting in the middle of the frame.
    Still,
    /// Any other movement.
    Moved,
}

/// State of the inference worker between two frames.
pub struct WorkerState<C> {
    /// Region to run the next inference on; the whole frame when `None`.
    pub roi: Option<RoiRect>,
    /// Consecutive frames without a valid hand.
    pub lost_count: u32,
    /// Centre of the hand in the previous checked detection.
    pub prev_center: Option<C>,
    /// Consecutive checked detections whose centre stayed still.
    pub center_stuck_count: u32,
    /// Consecutive frames with a valid hand.
    pub valid_streak: u32,
}

impl<C> WorkerState<C> {
    /// The worker state after a valid detection, with `next_roi` the region
    /// computed around the detected hand.
    pub open spec fn after_valid(self, next_roi: Option<RoiRect>) -> Self {
        WorkerState {
            roi: next_roi,
            lost_count: 0,
            prev_center: self.prev_center,
            center_stuck_count: self.center_stuck_count,
            valid_streak: sat_inc(self.valid_streak),
        }
    }

    /// The worker state after a frame without a valid hand: once
    /// `lost_to_reset_roi` such frames follow each other, tracking restarts
    /// from the whole frame.
    pub open spec fn after_invalid(self, lost_to_reset_roi: u32) -> Self {
        let lost = sat_inc(self.lost_count);
        if lost >= lost_to_reset_roi {
            WorkerState { roi: None, lost_count: lost, prev_center: None, center_stuck_count: 0, valid_streak: 0 }
        } else {
            WorkerState {
                roi: self.roi,
                lost_count: lost,
                prev_center: self.prev_center,
                center_stuck_count: self.center_stuck_count,
                valid_streak: 0,
            }
        }
    }

    /// The state after the hand centre `center` has been checked, and whether
    /// the detection passes the check: a jump refuses it; too many still
    /// centres in a row refuse it; the first centre always passes.
    pub open spec fn after_center(self, center: C, motion: CenterMotion) -> (Self, bool) {
        match self.prev_center {
            None => (WorkerState { prev_center: Some(center), ..self }, true),
            Some(_) => match motion {
                CenterMotion::Jumped =>
                    (WorkerState { prev_center: Some(center), center_stuck_count: 0, ..self }, false),
                CenterMotion::Still => {
                    let stuck = sat_inc(self.center_stuck_count);
                    (WorkerState { prev_center: Some(center), center_stuck_count: stuck, ..self },
                        stuck < CENTER_STUCK_LIMIT)
                },
                CenterMotion::Moved =>
                    (WorkerState { prev_center: Some(center), center_stuck_count: 0, ..self }, true),
            },
        }
    }

    /// A worker that has seen nothing yet.
    pub fn new() -> (s: Self)
        ensures
            s.roi is None,
            s.lost_count == 0,
            s.prev_center is None,
            s.center_stuck_count == 0,
            s.valid_streak == 0,
    {
        WorkerState { roi: None, lost_count: 0, prev_center: None, center_stuck_count: 0, valid_streak: 0 }
    }

    /// Records a valid detection and the region to track next.
    pub fn record_valid(&mut self, next_roi: Option<RoiRect>)
        ensures
            *final(self) == old(self).after_valid(next_roi),
    {
        self.lost_count = 0;
        self.valid_streak = self.valid_streak.saturating_add(1);
        self.roi = next_roi;
    }

    /// Records a frame without a valid hand.
    pub fn record_invalid(&mut self, lost_to_reset_roi: u32)
        ensures
            *final(self) == old(self).after_invalid(lost_to_reset_roi),
    {
        self.lost_count = self.lost_count.saturating_add(1);
        self.valid_streak = 0;
        if self.lost_count >= lost_to_reset_roi {
            self.roi = None;
            self.prev_center = None;
            self.center_stuck_count = 0;
        }
    }

    /// Checks the centre of a detection against the previous one (`motion`
    /// says how it moved; it is ignored when there is no previous centre),
    /// remembers it, and says whether the detection passes.
    pub fn observe_center(&mut self, center: C, motion: CenterMotion) -> (accepted: bool)
        ensures
            (*final(self), accepted) == old(self).after_center(center, motion),
    {
        if self.prev_center.is_some() {
            match motion {
                CenterMotion::Jumped => {
                    self.prev_center = Some(center);
                    self.center_stuck_count = 0;
                    return false;
                },
                CenterMotion::Still => {
                    self.center_stuck_count = self.center_stuck_count.saturating_add(1);
                    if self.center_stuck_count >= CENTER_STUCK_LIMIT {
                        self.prev_center = Some(center);
                        return false;
                    }
                },
                CenterMotion::Moved => {
                    self.center_stuck_count = 0;
                },
            }
        }
        self.prev_center = Some(center);
        true
    }
}


/// `v + 1`, or `v` when that would overflow.
pub open spec fn sat_inc64(v: u64) -> u64 {
    if v == u64::MAX { v } else { (v + 1) as u64 }
}

/// What the inference worker reports for one frame.
pub enum InferenceOutcome<L> {
    /// Inference failed.
    Failed,
    /// Inference ran, but no plausible hand was found.
    Lost,
    /// A plausible hand with these landmarks was found.
    Detected(L),
}

/// State of the frame processor between two frames.
pub struct TrackerState<L, P> {
    /// Frames processed so far.
    pub frame_count: u64,
    /// Consecutive errors.
    pub error_count: u32,
    /// Consecutive detections reported by the worker.
    pub detected_streak: u32,
    /// Landmarks after temporal smoothing.
    pub smoothed_landmarks: Option<L>,
    /// Landmarks of the latest detection.
    pub last_valid_landmarks: Option<L>,
    /// Smoothed cursor target.
    pub smoothed_cursor: Option<P>,
    /// Where the cursor is heading.
    pub cursor_target: Option<P>,
    /// Where the cursor currently is.
    pub cursor_current: Option<P>,
}

impl<L, P> TrackerState<L, P> {
    /// The state after one more error; the error counter saturates.
    pub open spec fn after_error(self) -> Self {
        TrackerState { error_count: sat_inc(self.error_count), ..self }
    }

    /// An error is reported on the first one of a run and then on every
    /// `ERROR_LOG_INTERVAL`-th.
    pub open spec fn logs_error(error_count: u32) -> bool {
        error_count % ERROR_LOG_INTERVAL == 1
    }

    /// The state after losing the hand: the streak restarts and every
    /// remembered landmark and cursor target is dropped (the cursor itself
    /// stays where it is).
    pub open spec fn after_loss(self) -> Self {
        TrackerState {
            detected_streak: 0,
            last_valid_landmarks: None,
            smoothed_landmarks: None,
            smoothed_cursor: None,
            cursor_target: None,
            ..self
        }
    }

    /// The state after the worker's report for one frame.
    pub open spec fn after_outcome(self, outcome: InferenceOutcome<L>) -> Self {
        match outcome {
            InferenceOutcome::Failed => self.after_error().after_loss(),
            InferenceOutcome::Lost => TrackerState { error_count: 0, ..self }.after_loss(),
            InferenceOutcome::Detected(l) => TrackerState {
                error_count: 0,
                detected_streak: sat_inc(self.detected_streak),
                last_valid_landmarks: Some(l),
                ..self
            },
        }
    }

    /// The landmarks to draw: the latest detection, once at least `warmup`
    /// detections have followed each other.
    pub open spec fn renderable(self, warmup: u32) -> Option<L> {
        if self.detected_streak >= warmup { self.last_valid_landmarks } else { None }
    }

    /// A processor that has seen nothing yet.
    pub fn new() -> (s: Self)
        ensures
            s.frame_count == 0,
            s.error_count == 0,
            s.detected_streak == 0,
            s.smoothed_landmarks is None,
            s.last_valid_landmarks is None,
            s.smoothed_cursor is None,
            s.cursor_target is None,
            s.cursor_current is None,
    {
        TrackerState {
            frame_count: 0,
            error_count: 0,
            detected_streak: 0,
            smoothed_landmarks: None,
            last_valid_landmarks: None,
            smoothed_cursor: None,
            cursor_target: None,
            cursor_current: None,
        }
    }

    /// Counts one more frame.
    pub fn begin_frame(&mut self)
        ensures
            *final(self) == (TrackerState { frame_count: sat_inc64(old(self).frame_count), ..*old(self) }),
    {
        self.frame_count = self.frame_count.saturating_add(1);
    }

    /// Counts one more error and says whether it should be reported.
    pub fn record_error(&mut self) -> (report: bool)
        ensures
            *final(self) == old(self).after_error(),
            report == Self::logs_error(final(self).error_count),
    {
        self.error_count = self.error_count.saturating_add(1);
        self.error_count % ERROR_LOG_INTERVAL == 1
    }

    /// Takes in the worker's report for one frame, and says whether an error
    /// should be reported.
    pub fn absorb(&mut self, outcome: InferenceOutcome<L>) -> (report: bool)
        ensures
            *final(self) == old(self).after_outcome(outcome),
            report == (outcome is Failed && Self::logs_error(final(self).error_count)),
    {
        match outcome {
            InferenceOutcome::Failed => {
                let report = self.record_error();
                self.detected_streak = 0;
                self.last_valid_landmarks = None;
                self.smoothed_landmarks = None;
                self.smoothed_cursor = None;
                self.cursor_target = None;
                report
            },
            InferenceOutcome::Lost => {
                self.error_count = 0;
                self.detected_streak = 0;
                self.last_valid_landmarks = None;
                self.smoothed_landmarks = None;
                self.smoothed_cursor = None;
                self.cursor_target = None;
                false
            },
            InferenceOutcome::Detected(l) => {
                self.error_count = 0;
                self.detected_streak = self.detected_streak.saturating_add(1);
                self.last_valid_landmarks = Some(l);
                false
            },
        }
    }

    /// The landmarks to draw on this frame, if any.
    pub fn ready_landmarks(&self, warmup: u32) -> (r: Option<&L>)
        ensures
            match r {
                Some(l) => self.renderable(warmup) == Some(*l),
                None => self.renderable(warmup) is None,
            },
    {
        if self.detected_streak >= warmup {
            match &self.last_valid_landmarks {
                Some(l) => Some(l),
                None => None,
            }
        } else {
            None
        }
    }
}


/// When the worker reports no hand, for a failure as for a loss, the
/// processor forgets the hand: no landmarks to smooth against or to draw, no
/// cursor target, and the streak restarts; the cursor stays where it is and
/// the frame count is kept.  A detection keeps the smoothing and the cursor
/// as they were.
pub proof fn lemma_no_hand_forgets_hand<L, P>(s: TrackerState<L, P>, outcome: InferenceOutcome<L>)
    ensures
        !(outcome is Detected) ==> {
            let t = s.after_outcome(outcome);
            &&& t.smoothed_landmarks is None
            &&& t.last_valid_landmarks is None
            &&& t.smoothed_cursor is None
            &&& t.cursor_target is None
            &&& t.detected_streak == 0
            &&& t.cursor_current == s.cursor_current
            &&& t.frame_count == s.frame_count
        },
        outcome matches InferenceOutcome::Detected(l) ==> {
            let t = s.after_outcome(outcome);
            &&& t.last_valid_landmarks == Some(l)
            &&& t.smoothed_landmarks == s.smoothed_landmarks
            &&& t.smoothed_cursor == s.smoothed_cursor
            &&& t.cursor_target == s.cursor_target
            &&& t.cursor_current == s.cursor_current
            &&& t.frame_count == s.frame_count
            &&& t.error_count == 0
        },
{
}

/// The worker state after `n` frames in a row without a valid hand.
pub open spec fn after_losses<C>(s: WorkerState<C>, lost_to_reset_roi: u32, n: nat) -> WorkerState<C>
    decreases n,
{
    if n == 0 {
        s
    } else {
        after_losses(s, lost_to_reset_roi, (n - 1) as nat).after_invalid(lost_to_reset_roi)
    }
}

proof fn lemma_losses_count<C>(s: WorkerState<C>, lost_to_reset_roi: u32, n: nat)
    ensures
        after_losses(s, lost_to_reset_roi, n).lost_count >= (if n < u32::MAX { n as int } else { u32::MAX as int }),
    decreases n,
{
    if n > 0 {
        lemma_losses_count(s, lost_to_reset_roi, (n - 1) as nat);
    }
}

/// Once the hand has been missing for `lost_to_reset_roi` frames in a row
/// (and at least one), the worker forgets its region of interest and the
/// previous hand centre and scans the whole frame again.
pub proof fn lemma_tracking_resets_after_losses<C>(s: WorkerState<C>, lost_to_reset_roi: u32, n: nat)
    requires
        n >= 1,
        n >= lost_to_reset_roi,
    ensures
        after_losses(s, lost_to_reset_roi, n).roi is None,
        after_losses(s, lost_to_reset_roi, n).prev_center is None,
        after_losses(s, lost_to_reset_roi, n).center_stuck_count == 0,
        after_losses(s, lost_to_reset_roi, n).valid_streak == 0,
{
    lemma_losses_count(s, lost_to_reset_roi, n);
}

/// The worker state and verdict after the same centre has been observed
/// still `n` times in a row (`true` when `n` is zero).
pub open spec fn after_still_centers<C>(s: WorkerState<C>, center: C, n: nat) -> (WorkerState<C>, bool)
    decreases n,
{
    if n == 0 {
        (s, true)
    } else {
        after_still_centers(s, center, (n - 1) as nat).0.after_center(center, CenterMotion::Still)
    }
}

/// A hand centre that stops moving is still accepted for the first five
/// detections, and refused from the sixth on until it moves again.
pub proof fn lemma_still_center_refused<C>(s: WorkerState<C>, center: C, n: nat)
    requires
        s.prev_center is Some,
        s.center_stuck_count == 0,
        1 <= n <= u32::MAX,
    ensures
        after_still_centers(s, center, n).0.center_stuck_count == n,
        after_still_centers(s, center, n).0.prev_center == Some(center),
        after_still_centers(s, center, n).1 == (n < CENTER_STUCK_LIMIT),
    decreases n,
{
    if n > 1 {
        lemma_still_center_refused(s, center, (n - 1) as nat);
    } else {
        assert(after_still_centers(s, center, 0) == (s, true));
    }
    let prev = after_still_centers(s, center, (n - 1) as nat);
    assert(after_still_centers(s, center, n) == prev.0.after_center(center, CenterMotion::Still));
}

/// The processor state after the worker has reported detections of `ls`, in order.
pub open spec fn after_detections<L, P>(s: TrackerState<L, P>, ls: Seq<L>) -> TrackerState<L, P>
    decreases ls.len(),
{
    if ls.len() == 0 {
        s
    } else {
        after_detections(s, ls.drop_last()).after_outcome(InferenceOutcome::Detected(ls.last()))
    }
}

proof fn lemma_detections_streak<L, P>(s: TrackerState<L, P>, ls: Seq<L>)
    requires
        s.detected_streak == 0,
        s.last_valid_landmarks is None,
        ls.len() <= u32::MAX,
    ensures
        after_detections(s, ls).detected_streak == ls.len(),
        after_detections(s, ls).last_valid_landmarks == (if ls.len() == 0 { None } else { Some(ls.last()) }),
        after_detections(s, ls).error_count == (if ls.len() == 0 { s.error_count } else { 0 }),
    decreases ls.len(),
{
    if ls.len() > 0 {
        lemma_detections_streak(s, ls.drop_last());
    }
}

/// After the hand is lost or inference fails, landmarks are drawn again only
/// once `warmup` detections in a row (and at least one) have come in, and
/// they are then those of the latest detection.
pub proof fn lemma_draw_after_warmup<L, P>(s: TrackerState<L, P>, loss: InferenceOutcome<L>, ls: Seq<L>, warmup: u32)
    requires
        !(loss is Detected),
        ls.len() <= u32::MAX,
    ensures
        after_detections(s.after_outcome(loss), ls).renderable(warmup)
            == (if ls.len() >= warmup && ls.len() >= 1 { Some(ls.last()) } else { None }),
{
    lemma_detections_streak(s.after_outcome(loss), ls);
}

/// The processor state after `n` inference failures in a row.
pub open spec fn after_failures<L, P>(s: TrackerState<L, P>, n: nat) -> TrackerState<L, P>
    decreases n,
{
    if n == 0 {
        s
    } else {
        after_failures(s, (n - 1) as nat).after_outcome(InferenceOutcome::Failed)
    }
}

/// Errors are counted in a row from the last report that was not a failure,
/// so the `n`-th failure in a row is reported exactly when `n % 30 == 1`.
pub proof fn lemma_failures_reported<L, P>(s: TrackerState<L, P>, n: nat)
    requires
        s.error_count == 0,
        n <= u32::MAX,
    ensures
        after_failures(s, n).error_count == n,
        TrackerState::<L, P>::logs_error(after_failures(s, n).error_count) == (n % 30 == 1),
    decreases n,
{
    if n > 0 {
        lemma_failures_reported(s, (n - 1) as nat);
    }
}

} // verus!
