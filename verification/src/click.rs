//! Pinch clicks: a thumb-and-index pinch clicks the left button, a
//! thumb-and-middle pinch the right one. A click fires when a pinch closes
//! while no click gesture is held and the cooldown since the previous click
//! has run out; the gesture is then held until its pinch opens again, so a
//! pinch that stays closed clicks once.
//!
//! The pinch distances are measured by the caller, which hands each pinch
//! over as a [`PinchClass`]: closed below the press threshold, open above the
//! release threshold, in between otherwise.
use vstd::prelude::*;

verus! {

/// A mouse button that a pinch clicks.
#[derive(Clone, Copy, Debug, PartialEq, Eq, Structural)]
pub enum MouseButton {
    Left,
    Right,
}

/// How far a pinch is closed, after comparison with the press and release
/// thresholds.
#[derive(Clone, Copy, Debug, PartialEq, Eq, Structural)]
pub enum PinchClass {
    /// The fingertips are closer than the press threshold.
    Closed,
    /// Between the two thresholds: neither a press nor a release.
    Between,
    /// The fingertips are further apart than the release threshold.
    Open,
}

/// Both pinches of one frame, and when it was seen.
#[derive(Clone, Copy, Debug, PartialEq, Eq, Structural)]
pub struct PinchReading {
    /// Thumb tip and index finger tip.
    pub left: PinchClass,
    /// Thumb tip and middle finger tip.
    pub right: PinchClass,
    /// Milliseconds on a clock that does not go backwards.
    pub now_ms: u64,
}

impl PinchReading {
    /// The pinch that clicks `button`.
    pub open spec fn class_of(self, button: MouseButton) -> PinchClass {
        match button {
            MouseButton::Left => self.left,
            MouseButton::Right => self.right,
        }
    }
}

/// What the click logic remembers between frames.
#[derive(Clone, Copy, Debug, PartialEq, Eq, Structural)]
pub struct ClickState {
    /// The gesture whose click fired and whose pinch has not opened since.
    pub active: Option<MouseButton>,
    /// When the last click fired; `None` before the first one.
    pub last_click_ms: Option<u64>,
}

/// At least `cooldown_ms` have passed at `now_ms` since the click at `last`
/// (always true before the first click).
pub open spec fn cooled_down(last: Option<u64>, now_ms: u64, cooldown_ms: u32) -> bool {
    match last {
        None => true,
        Some(t) => now_ms >= t + cooldown_ms,
    }
}

impl ClickState {
    /// The state after `reading`, and the button clicked on it, if any.
    /// A held gesture ends when its pinch opens. Otherwise, once the cooldown
    /// has run out, a closed thumb-and-index pinch clicks left, or failing
    /// that a closed thumb-and-middle pinch clicks right.
    pub open spec fn after_step(self, reading: PinchReading, cooldown_ms: u32) -> (ClickState, Option<MouseButton>) {
        match self.active {
            Some(b) => if reading.class_of(b) is Open {
                (ClickState { active: None, ..self }, None)
            } else {
                (self, None)
            },
            None => if !cooled_down(self.last_click_ms, reading.now_ms, cooldown_ms) {
                (self, None)
            } else if reading.left is Closed {
                (ClickState { active: Some(MouseButton::Left), last_click_ms: Some(reading.now_ms) },
                    Some(MouseButton::Left))
            } else if reading.right is Closed {
                (ClickState { active: Some(MouseButton::Right), last_click_ms: Some(reading.now_ms) },
                    Some(MouseButton::Right))
            } else {
                (self, None)
            },
        }
    }

    /// No gesture held and no click yet.
    pub fn new() -> (s: Self)
        ensures
            s.active is None,
            s.last_click_ms is None,
    {
        ClickState { active: None, last_click_ms: None }
    }
}

/// Takes one frame's pinches: returns the new state and the button to click.
pub fn click_step(state: ClickState, reading: PinchReading, cooldown_ms: u32) -> (r: (ClickState, Option<MouseButton>))
    ensures
        r == state.after_step(reading, cooldown_ms),
{
    match state.active {
        Some(b) => {
            let class = match b {
                MouseButton::Left => reading.left,
                MouseButton::Right => reading.right,
            };
            match class {
                PinchClass::Open => (ClickState { active: None, last_click_ms: state.last_click_ms }, None),
                _ => (state, None),
            }
        },
        None => {
            let ready = match state.last_click_ms {
                None => true,
                Some(t) => reading.now_ms >= t && reading.now_ms - t >= cooldown_ms as u64,
            };
            if !ready {
                (state, None)
            } else {
                match (reading.left, reading.right) {
                    (PinchClass::Closed, _) => (
                        ClickState { active: Some(MouseButton::Left), last_click_ms: Some(reading.now_ms) },
                        Some(MouseButton::Left),
                    ),
                    (_, PinchClass::Closed) => (
                        ClickState { active: Some(MouseButton::Right), last_click_ms: Some(reading.now_ms) },
                        Some(MouseButton::Right),
                    ),
                    _ => (state, None),
                }
            }
        },
    }
}

/// The state after the readings `rs`, in order.
pub open spec fn after_readings(s: ClickState, rs: Seq<PinchReading>, cooldown_ms: u32) -> ClickState
    decreases rs.len(),
{
    if rs.len() == 0 {
        s
    } else {
        after_readings(s, rs.drop_last(), cooldown_ms).after_step(rs.last(), cooldown_ms).0
    }
}

/// The button clicked on the reading `rs[i]`, the readings before it having
/// been taken in order.
pub open spec fn click_at(s: ClickState, rs: Seq<PinchReading>, cooldown_ms: u32, i: int) -> Option<MouseButton> {
    after_readings(s, rs.take(i), cooldown_ms).after_step(rs[i], cooldown_ms).1
}

/// A reading clicks exactly when no gesture is held, the cooldown has run
/// out and one of the pinches is closed; the thumb-and-index pinch then
/// clicks left, else the thumb-and-middle pinch clicks right, and that
/// gesture becomes the held one.
pub proof fn lemma_click_on_closed_pinch(s: ClickState, reading: PinchReading, cooldown_ms: u32)
    ensures
        ({
            let (next, click) = s.after_step(reading, cooldown_ms);
            &&& click is Some <==> (s.active is None && cooled_down(s.last_click_ms, reading.now_ms, cooldown_ms)
                && (reading.left is Closed || reading.right is Closed))
            &&& click is Some ==> next.active == click && next.last_click_ms == Some(reading.now_ms)
                && click == Some(if reading.left is Closed { MouseButton::Left } else { MouseButton::Right })
                && reading.class_of(click.unwrap()) is Closed
        }),
{
}

/// A reading with both pinches between the thresholds changes nothing and
/// clicks nothing.
pub proof fn lemma_between_keeps_state(s: ClickState, now_ms: u64, cooldown_ms: u32)
    ensures
        s.after_step(PinchReading { left: PinchClass::Between, right: PinchClass::Between, now_ms }, cooldown_ms)
            == (s, Option::<MouseButton>::None),
{
}

proof fn lemma_held_prefix(s: ClickState, rs: Seq<PinchReading>, cooldown_ms: u32, b: MouseButton, n: int)
    requires
        s.active == Some(b),
        0 <= n <= rs.len(),
        forall|i: int| 0 <= i < rs.len() ==> !(#[trigger] rs[i].class_of(b) is Open),
    ensures
        after_readings(s, rs.take(n), cooldown_ms) == s,
    decreases n,
{
    if n > 0 {
        lemma_held_prefix(s, rs, cooldown_ms, b, n - 1);
        assert(rs.take(n).drop_last() =~= rs.take(n - 1));
        assert(rs.take(n).last() == rs[n - 1]);
    }
}

/// While a click gesture is held, nothing clicks until its pinch reads open:
/// readings in which that pinch never opens leave the state as it was and
/// click nothing.
pub proof fn lemma_no_click_until_release(s: ClickState, rs: Seq<PinchReading>, cooldown_ms: u32)
    requires
        s.active is Some,
        forall|i: int| 0 <= i < rs.len() ==> !(#[trigger] rs[i].class_of(s.active.unwrap()) is Open),
    ensures
        after_readings(s, rs, cooldown_ms) == s,
        forall|i: int| 0 <= i < rs.len() ==> #[trigger] click_at(s, rs, cooldown_ms, i) is None,
{
    let b = s.active.unwrap();
    lemma_held_prefix(s, rs, cooldown_ms, b, rs.len() as int);
    assert(rs.take(rs.len() as int) =~= rs);
    assert forall|i: int| 0 <= i < rs.len() implies #[trigger] click_at(s, rs, cooldown_ms, i) is None by {
        lemma_held_prefix(s, rs, cooldown_ms, b, i);
        assert(!(rs[i].class_of(b) is Open));
    }
}

proof fn lemma_last_click_since(s: ClickState, rs: Seq<PinchReading>, cooldown_ms: u32, i: int, n: int)
    requires
        0 <= i < n <= rs.len(),
        click_at(s, rs, cooldown_ms, i) is Some,
    ensures
        after_readings(s, rs.take(n), cooldown_ms).last_click_ms matches Some(t) && t >= rs[i].now_ms,
    decreases n,
{
    assert(rs.take(n).drop_last() =~= rs.take(n - 1));
    assert(rs.take(n).last() == rs[n - 1]);
    if n > i + 1 {
        lemma_last_click_since(s, rs, cooldown_ms, i, n - 1);
    }
}

/// Two clicks are at least `cooldown_ms` apart: if the readings `rs[i]` and
/// later `rs[j]` both click, `rs[j]` was seen at least `cooldown_ms` after
/// `rs[i]`.
pub proof fn lemma_clicks_spaced_by_cooldown(s: ClickState, rs: Seq<PinchReading>, cooldown_ms: u32, i: int, j: int)
    requires
        0 <= i < j < rs.len(),
        click_at(s, rs, cooldown_ms, i) is Some,
        click_at(s, rs, cooldown_ms, j) is Some,
    ensures
        rs[j].now_ms >= rs[i].now_ms + cooldown_ms,
{
    lemma_last_click_since(s, rs, cooldown_ms, i, j);
}

} // verus!
