//! Hand model constants and integer geometry on frame points: regions of
//! interest, bounding boxes and border counts.
use vstd::prelude::*;
use crate::frame::FrameError;

verus! {

/// Number of landmarks the hand model produces.
pub const LANDMARK_COUNT: usize = 21;
/// Width of the model input image.
pub const MODEL_INPUT_WIDTH: usize = 256;
/// Height of the model input image.
pub const MODEL_INPUT_HEIGHT: usize = 256;
/// Index of the wrist landmark.
pub const WRIST_LANDMARK: usize = 0;
/// Index of the thumb tip landmark.
pub const THUMB_TIP_LANDMARK: usize = 4;
/// Index of the index finger's knuckle landmark.
pub const INDEX_MCP_LANDMARK: usize = 5;
/// Index of the index finger tip landmark.
pub const INDEX_TIP_LANDMARK: usize = 8;
/// Index of the middle finger's knuckle landmark.
pub const MIDDLE_MCP_LANDMARK: usize = 9;
/// Index of the middle finger tip landmark.
pub const MIDDLE_TIP_LANDMARK: usize = 12;
/// Index of the little finger's knuckle landmark.
pub const PINKY_MCP_LANDMARK: usize = 17;
/// Fewest plausible bone segments for a detection to count as a hand.
pub const MIN_VALID_SEGMENTS: u32 = 15;
/// Most interpolation steps the cursor takes in one update.
pub const MAX_INTERP_STEPS: u32 = 6;

/// The 21 bones of the hand, as pairs of landmark indices, in drawing order.
pub open spec fn hand_connections_spec() -> Seq<(usize, usize)> {
    seq![
        (0usize, 1usize), (1, 2), (2, 3), (3, 4),
        (0, 5), (5, 6), (6, 7), (7, 8),
        (5, 9), (9, 10), (10, 11), (11, 12),
        (9, 13), (13, 14), (14, 15), (15, 16),
        (13, 17), (0, 17), (17, 18), (18, 19), (19, 20)
    ]
}

/// `(a, b)` is a bone of a finger: consecutive landmarks of one finger, whose
/// landmarks are numbered `4f + 1` to `4f + 4` from knuckle to tip.
pub open spec fn is_finger_bone(a: usize, b: usize) -> bool {
    1 <= a < 20 && a % 4 != 0 && b == a + 1
}

/// `(a, b)` joins the knuckle of a finger to that of the next finger
/// (index to middle, middle to ring, ring to little finger).
pub open spec fn is_knuckle_bone(a: usize, b: usize) -> bool {
    (a == 5 || a == 9 || a == 13) && b == a + 4
}

/// `(a, b)` joins the wrist to the thumb's base, the index knuckle or the
/// little finger's knuckle.
pub open spec fn is_wrist_bone(a: usize, b: usize) -> bool {
    a == 0 && (b == 1 || b == 5 || b == 17)
}

/// The skeleton is the hand's: every finger's consecutive landmarks are
/// joined, each knuckle is joined to the next finger's knuckle, the wrist to
/// the thumb, index and little finger, and there are no other bones and no
/// bone twice.
pub proof fn lemma_hand_topology()
    ensures
        hand_connections_spec().len() == 21,
        forall|a: usize| #[trigger] is_finger_bone(a, (a + 1) as usize) ==> hand_connections_spec().contains((a, (a + 1) as usize)),
        hand_connections_spec().contains((5usize, 9usize)),
        hand_connections_spec().contains((9usize, 13usize)),
        hand_connections_spec().contains((13usize, 17usize)),
        hand_connections_spec().contains((0usize, 1usize)),
        hand_connections_spec().contains((0usize, 5usize)),
        hand_connections_spec().contains((0usize, 17usize)),
        forall|i: int| 0 <= i < 21 ==> {
            let (a, b) = #[trigger] hand_connections_spec()[i];
            is_finger_bone(a, b) || is_knuckle_bone(a, b) || is_wrist_bone(a, b)
        },
        forall|i: int, j: int| 0 <= i < j < 21 ==> #[trigger] hand_connections_spec()[i] != #[trigger] hand_connections_spec()[j],
{
    let c = hand_connections_spec();
    assert(c[0] == (0usize, 1usize));
    assert(c[1] == (1usize, 2usize));
    assert(c[2] == (2usize, 3usize));
    assert(c[3] == (3usize, 4usize));
    assert(c[4] == (0usize, 5usize));
    assert(c[5] == (5usize, 6usize));
    assert(c[6] == (6usize, 7usize));
    assert(c[7] == (7usize, 8usize));
    assert(c[8] == (5usize, 9usize));
    assert(c[9] == (9usize, 10usize));
    assert(c[10] == (10usize, 11usize));
    assert(c[11] == (11usize, 12usize));
    assert(c[12] == (9usize, 13usize));
    assert(c[13] == (13usize, 14usize));
    assert(c[14] == (14usize, 15usize));
    assert(c[15] == (15usize, 16usize));
    assert(c[16] == (13usize, 17usize));
    assert(c[17] == (0usize, 17usize));
    assert(c[18] == (17usize, 18usize));
    assert(c[19] == (18usize, 19usize));
    assert(c[20] == (19usize, 20usize));
    assert forall|a: usize| #[trigger] is_finger_bone(a, (a + 1) as usize) implies c.contains((a, (a + 1) as usize)) by {
        let k: int = if a < 16 { a as int } else { a + 1 };
        assert(c[k] == (a, (a + 1) as usize));
    }
}

/// The bones of the hand, as pairs of landmark indices.
pub fn hand_connections() -> (r: [(usize, usize); 21])
    ensures
        r@ == hand_connections_spec(),
{
    let r = [
        (0usize, 1usize), (1, 2), (2, 3), (3, 4),
        (0, 5), (5, 6), (6, 7), (7, 8),
        (5, 9), (9, 10), (10, 11), (11, 12),
        (9, 13), (13, 14), (14, 15), (15, 16),
        (13, 17), (0, 17), (17, 18), (18, 19), (19, 20)
    ];
    assert(r@ =~= hand_connections_spec());
    r
}


/// A rectangular region of a frame, in pixels.
#[derive(Clone, Copy, Debug, PartialEq, Eq, Structural)]
pub struct RoiRect {
    pub x: usize,
    pub y: usize,
    pub width: usize,
    pub height: usize,
}

/// The smaller of two integers.
pub open spec fn imin(a: int, b: int) -> int {
    if a < b { a } else { b }
}

/// The region that inference reads for a request: the whole frame when no
/// region is requested, otherwise the requested region cut at the frame's
/// right and bottom edges; refused when the frame is empty, when the request
/// is empty, or when it starts outside the frame.
pub open spec fn clipped_roi(frame_width: usize, frame_height: usize, roi: Option<RoiRect>) -> Result<RoiRect, FrameError> {
    let req = match roi {
        Some(r) => r,
        None => RoiRect { x: 0, y: 0, width: frame_width, height: frame_height },
    };
    if frame_width == 0 || frame_height == 0 {
        Err(FrameError::InvalidFrameSize { width: frame_width, height: frame_height })
    } else if req.width == 0 || req.height == 0 {
        Err(FrameError::InvalidRoiSize { width: req.width, height: req.height })
    } else if req.x >= frame_width || req.y >= frame_height {
        Err(FrameError::RoiOutOfFrame { x: req.x, y: req.y, width: req.width, height: req.height })
    } else {
        Ok(RoiRect {
            x: req.x,
            y: req.y,
            width: (imin(req.x + req.width, frame_width as int) - req.x) as usize,
            height: (imin(req.y + req.height, frame_height as int) - req.y) as usize,
        })
    }
}

/// A region that passes validation is a non-empty part of the frame that
/// starts where the request starts and never reaches past the request.
pub proof fn lemma_clipped_roi_in_frame(frame_width: usize, frame_height: usize, roi: Option<RoiRect>)
    ensures
        clipped_roi(frame_width, frame_height, roi) matches Ok(r) ==> {
            &&& r.width > 0 && r.height > 0
            &&& r.x + r.width <= frame_width
            &&& r.y + r.height <= frame_height
            &&& roi matches Some(q) ==> (r.x == q.x && r.y == q.y && r.width <= q.width && r.height <= q.height)
        },
{
}

/// Validates the region that inference is asked to read and cuts it to the frame.
pub fn clip_roi_to_frame(frame_width: usize, frame_height: usize, roi: Option<RoiRect>) -> (r: Result<RoiRect, FrameError>)
    ensures
        r == clipped_roi(frame_width, frame_height, roi),
{
    if frame_width == 0 || frame_height == 0 {
        return Err(FrameError::InvalidFrameSize { width: frame_width, height: frame_height });
    }
    let req = match roi {
        Some(r) => r,
        None => RoiRect { x: 0, y: 0, width: frame_width, height: frame_height },
    };
    if req.width == 0 || req.height == 0 {
        return Err(FrameError::InvalidRoiSize { width: req.width, height: req.height });
    }
    let sx = req.x.saturating_add(req.width);
    let x_end = if sx < frame_width { sx } else { frame_width };
    let sy = req.y.saturating_add(req.height);
    let y_end = if sy < frame_height { sy } else { frame_height };
    if x_end <= req.x || y_end <= req.y {
        return Err(FrameError::RoiOutOfFrame { x: req.x, y: req.y, width: req.width, height: req.height });
    }
    Ok(RoiRect { x: req.x, y: req.y, width: x_end - req.x, height: y_end - req.y })
}

/// The rectangle with top-left corner (x0, y0) reaching to (x1, y1), at least
/// one pixel wide and high.
pub fn roi_from_corners(x0: usize, y0: usize, x1: usize, y1: usize) -> (r: RoiRect)
    ensures
        r.x == x0,
        r.y == y0,
        r.width == (if x1 > x0 { x1 - x0 } else { 1 }),
        r.height == (if y1 > y0 { y1 - y0 } else { 1 }),
{
    let w = x1.saturating_sub(x0);
    let h = y1.saturating_sub(y0);
    RoiRect { x: x0, y: y0, width: if w > 1 { w } else { 1 }, height: if h > 1 { h } else { 1 } }
}

/// Extremes of a set of frame points.
#[derive(Clone, Copy, Debug, PartialEq, Eq, Structural)]
pub struct PointBounds {
    pub min_x: i32,
    pub max_x: i32,
    pub min_y: i32,
    pub max_y: i32,
}

/// `b` is the bounding box of `points`: every point lies within it and each
/// of its four sides touches a point.  For no points it is the empty box that
/// starts from the opposite ends of `i32`.
pub open spec fn is_point_bounds(points: Seq<(i32, i32)>, b: PointBounds) -> bool {
    if points.len() == 0 {
        b == PointBounds { min_x: i32::MAX, max_x: i32::MIN, min_y: i32::MAX, max_y: i32::MIN }
    } else {
        &&& forall|i: int| 0 <= i < points.len() ==>
            b.min_x <= (#[trigger] points[i]).0 <= b.max_x && b.min_y <= points[i].1 <= b.max_y
        &&& exists|i: int| 0 <= i < points.len() && #[trigger] points[i].0 == b.min_x
        &&& exists|i: int| 0 <= i < points.len() && #[trigger] points[i].0 == b.max_x
        &&& exists|i: int| 0 <= i < points.len() && #[trigger] points[i].1 == b.min_y
        &&& exists|i: int| 0 <= i < points.len() && #[trigger] points[i].1 == b.max_y
    }
}

/// The bounding box of the points.
pub fn point_bounds(points: &[(i32, i32)]) -> (r: PointBounds)
    ensures
        is_point_bounds(points@, r),
{
    let mut b = PointBounds { min_x: i32::MAX, max_x: i32::MIN, min_y: i32::MAX, max_y: i32::MIN };
    let mut i: usize = 0;
    while i < points.len()
        invariant
            0 <= i <= points.len(),
            is_point_bounds(points@.subrange(0, i as int), b),
        decreases points.len() - i,
    {
        let (x, y) = points[i];
        let ghost prev = points@.subrange(0, i as int);
        let ghost next = points@.subrange(0, i + 1);
        let ghost old_b = b;
        if x < b.min_x { b.min_x = x; }
        if x > b.max_x { b.max_x = x; }
        if y < b.min_y { b.min_y = y; }
        if y > b.max_y { b.max_y = y; }
        proof {
            assert(next[i as int] == (x, y));
            assert forall|j: int| 0 <= j < next.len() implies
                b.min_x <= #[trigger] next[j].0 <= b.max_x && b.min_y <= next[j].1 <= b.max_y by {
                if j < i {
                    assert(next[j] == prev[j]);
                }
            }
            if i > 0 {
                if b.min_x != x {
                    let j = choose|j: int| 0 <= j < prev.len() && #[trigger] prev[j].0 == old_b.min_x;
                    assert(next[j] == prev[j]);
                }
                if b.max_x != x {
                    let j = choose|j: int| 0 <= j < prev.len() && #[trigger] prev[j].0 == old_b.max_x;
                    assert(next[j] == prev[j]);
                }
                if b.min_y != y {
                    let j = choose|j: int| 0 <= j < prev.len() && #[trigger] prev[j].1 == old_b.min_y;
                    assert(next[j] == prev[j]);
                }
                if b.max_y != y {
                    let j = choose|j: int| 0 <= j < prev.len() && #[trigger] prev[j].1 == old_b.max_y;
                    assert(next[j] == prev[j]);
                }
            }
        }
        i = i + 1;
    }
    assert(points@.subrange(0, points@.len() as int) =~= points@);
    b
}

/// `p` lies on or beyond one of the four given border lines.
pub open spec fn is_near_border(p: (i32, i32), left: i32, right: i32, top: i32, bottom: i32) -> bool {
    p.0 <= left || p.0 >= right || p.1 <= top || p.1 >= bottom
}

/// How many of `points` lie on or beyond one of the four border lines.
pub open spec fn near_border_count(points: Seq<(i32, i32)>, left: i32, right: i32, top: i32, bottom: i32) -> nat
    decreases points.len(),
{
    if points.len() == 0 {
        0
    } else {
        near_border_count(points.drop_last(), left, right, top, bottom)
            + if is_near_border(points.last(), left, right, top, bottom) { 1nat } else { 0nat }
    }
}

/// Counts the points that lie on or beyond one of the border lines
/// `x = left`, `x = right`, `y = top`, `y = bottom`.
pub fn count_near_border(points: &[(i32, i32)], left: i32, right: i32, top: i32, bottom: i32) -> (r: u32)
    requires
        points.len() <= u32::MAX,
    ensures
        r == near_border_count(points@, left, right, top, bottom),
{
    let mut count: u32 = 0;
    let mut i: usize = 0;
    while i < points.len()
        invariant
            0 <= i <= points.len() <= u32::MAX,
            count == near_border_count(points@.subrange(0, i as int), left, right, top, bottom),
            count <= i,
        decreases points.len() - i,
    {
        let (x, y) = points[i];
        proof {
            assert(points@.subrange(0, i + 1).drop_last() =~= points@.subrange(0, i as int));
        }
        if x <= left || x >= right || y <= top || y >= bottom {
            count = count + 1;
        }
        i = i + 1;
    }
    assert(points@.subrange(0, points@.len() as int) =~= points@);
    count
}


/// Bounds that a detected hand's box must respect, in pixels, derived from the
/// frame size and the configured ratios.
#[derive(Clone, Copy, Debug, PartialEq, Eq, Structural)]
pub struct HandBoxLimits {
    pub min_width: usize,
    pub min_height: usize,
    pub max_width: usize,
    pub max_height: usize,
    /// Points at or left of this column are near the border.
    pub border_left: i32,
    /// Points at or right of this column are near the border.
    pub border_right: i32,
    /// Points at or above this row are near the border.
    pub border_top: i32,
    /// Points at or below this row are near the border.
    pub border_bottom: i32,
}

/// Width of a bounding box, zero when it is empty.
pub open spec fn box_width(b: PointBounds) -> int {
    if b.max_x >= b.min_x { b.max_x - b.min_x } else { 0 }
}

/// Height of a bounding box, zero when it is empty.
pub open spec fn box_height(b: PointBounds) -> int {
    if b.max_y >= b.min_y { b.max_y - b.min_y } else { 0 }
}

/// The points of a detection have the size and placement of a hand: enough
/// of them (half the landmarks), a bounding box neither too small nor too
/// large on either axis, and no more than three quarters of the landmarks
/// near the frame border.
pub open spec fn hand_box_ok(points: Seq<(i32, i32)>, b: PointBounds, limits: HandBoxLimits) -> bool {
    &&& points.len() >= LANDMARK_COUNT / 2
    &&& box_width(b) >= limits.min_width
    &&& box_height(b) >= limits.min_height
    &&& box_width(b) <= limits.max_width
    &&& box_height(b) <= limits.max_height
    &&& near_border_count(points, limits.border_left, limits.border_right, limits.border_top, limits.border_bottom)
        <= LANDMARK_COUNT * 3 / 4
}

/// Checks the size and placement of a detection's frame points.
pub fn hand_box_plausible(points: &[(i32, i32)], limits: &HandBoxLimits) -> (r: bool)
    requires
        points.len() <= u32::MAX,
        forall|i: int| 0 <= i < points.len() ==> #[trigger] points@[i].0 >= 0 && points@[i].1 >= 0,
    ensures
        r == (exists|b: PointBounds| is_point_bounds(points@, b) && hand_box_ok(points@, b, *limits)),
        forall|b: PointBounds| is_point_bounds(points@, b) ==> (r == hand_box_ok(points@, b, *limits)),
{
    let b = point_bounds(points);
    proof {
        lemma_point_bounds_unique(points@, b);
    }
    if points.len() < LANDMARK_COUNT / 2 {
        return false;
    }
    proof {
        let i = choose|i: int| 0 <= i < points@.len() && #[trigger] points@[i].0 == b.min_x;
        let j = choose|j: int| 0 <= j < points@.len() && #[trigger] points@[j].1 == b.min_y;
        assert(points@[i].0 >= 0 && points@[i].1 >= 0);
        assert(points@[j].0 >= 0 && points@[j].1 >= 0);
    }
    let bbox_w: usize = if b.max_x >= b.min_x { (b.max_x - b.min_x) as usize } else { 0 };
    let bbox_h: usize = if b.max_y >= b.min_y { (b.max_y - b.min_y) as usize } else { 0 };
    if bbox_w < limits.min_width || bbox_h < limits.min_height {
        return false;
    }
    if bbox_w > limits.max_width || bbox_h > limits.max_height {
        return false;
    }
    let near = count_near_border(points, limits.border_left, limits.border_right, limits.border_top, limits.border_bottom);
    if near as usize > LANDMARK_COUNT * 3 / 4 {
        return false;
    }
    true
}

/// A box passes only if its points spread over at least the minimum width and
/// the minimum height, each on its own, and no further than the maximum
/// width and height: two of the points lie at least `min_width` apart
/// horizontally and two at least `min_height` apart vertically, and no two
/// lie further apart than `max_width` horizontally or `max_height`
/// vertically.
pub proof fn lemma_hand_box_extent(points: Seq<(i32, i32)>, b: PointBounds, limits: HandBoxLimits)
    requires
        is_point_bounds(points, b),
        hand_box_ok(points, b, limits),
    ensures
        exists|i: int, j: int| 0 <= i < points.len() && 0 <= j < points.len()
            && #[trigger] points[j].0 - #[trigger] points[i].0 >= limits.min_width,
        exists|i: int, j: int| 0 <= i < points.len() && 0 <= j < points.len()
            && #[trigger] points[j].1 - #[trigger] points[i].1 >= limits.min_height,
        forall|i: int, j: int| 0 <= i < points.len() && 0 <= j < points.len()
            ==> #[trigger] points[j].0 - #[trigger] points[i].0 <= limits.max_width
                && points[j].1 - points[i].1 <= limits.max_height,
{
    let i0 = choose|i: int| 0 <= i < points.len() && #[trigger] points[i].0 == b.min_x;
    let j0 = choose|i: int| 0 <= i < points.len() && #[trigger] points[i].0 == b.max_x;
    let i1 = choose|i: int| 0 <= i < points.len() && #[trigger] points[i].1 == b.min_y;
    let j1 = choose|i: int| 0 <= i < points.len() && #[trigger] points[i].1 == b.max_y;
    assert(points[j0].0 - points[i0].0 >= limits.min_width);
    assert(points[j1].1 - points[i1].1 >= limits.min_height);
}

/// Points whose rows all lie less than `min_height` apart, or whose columns
/// all lie less than `min_width` apart, never pass, however far they spread
/// on the other axis.
pub proof fn lemma_flat_box_refused(points: Seq<(i32, i32)>, b: PointBounds, limits: HandBoxLimits)
    requires
        is_point_bounds(points, b),
        (forall|i: int, j: int| 0 <= i < points.len() && 0 <= j < points.len()
            ==> #[trigger] points[j].1 - #[trigger] points[i].1 < limits.min_height)
        || (forall|i: int, j: int| 0 <= i < points.len() && 0 <= j < points.len()
            ==> #[trigger] points[j].0 - #[trigger] points[i].0 < limits.min_width),
    ensures
        !hand_box_ok(points, b, limits),
{
    if hand_box_ok(points, b, limits) {
        lemma_hand_box_extent(points, b, limits);
    }
}

/// A list of points has exactly one bounding box.
pub proof fn lemma_point_bounds_unique(points: Seq<(i32, i32)>, b: PointBounds)
    requires
        is_point_bounds(points, b),
    ensures
        forall|c: PointBounds| is_point_bounds(points, c) ==> c == b,
{
    assert forall|c: PointBounds| is_point_bounds(points, c) implies c == b by {
        if points.len() > 0 {
            let i = choose|i: int| 0 <= i < points.len() && #[trigger] points[i].0 == c.min_x;
            let j = choose|i: int| 0 <= i < points.len() && #[trigger] points[i].0 == b.min_x;
            let k = choose|i: int| 0 <= i < points.len() && #[trigger] points[i].0 == c.max_x;
            let l = choose|i: int| 0 <= i < points.len() && #[trigger] points[i].0 == b.max_x;
            let m = choose|i: int| 0 <= i < points.len() && #[trigger] points[i].1 == c.min_y;
            let n = choose|i: int| 0 <= i < points.len() && #[trigger] points[i].1 == b.min_y;
            let o = choose|i: int| 0 <= i < points.len() && #[trigger] points[i].1 == c.max_y;
            let p = choose|i: int| 0 <= i < points.len() && #[trigger] points[i].1 == b.max_y;
            assert(c.min_x <= points[j].0 && b.min_x <= points[i].0);
            assert(c.max_x >= points[l].0 && b.max_x >= points[k].0);
            assert(c.min_y <= points[n].1 && b.min_y <= points[m].1);
            assert(c.max_y >= points[p].1 && b.max_y >= points[o].1);
        }
    }
}

} // verus!
