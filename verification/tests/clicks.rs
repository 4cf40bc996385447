use hand_tracking_mouse::click::{click_step, ClickState, MouseButton, PinchClass, PinchReading};
use hand_tracking_mouse::geometry::{INDEX_TIP_LANDMARK, MIDDLE_TIP_LANDMARK, THUMB_TIP_LANDMARK};

const COOLDOWN: u32 = 260;

fn reading(left: PinchClass, right: PinchClass, now_ms: u64) -> PinchReading {
    PinchReading { left, right, now_ms }
}

/// Runs the readings in order and collects what each one clicked.
fn run(mut s: ClickState, rs: &[PinchReading]) -> (ClickState, Vec<Option<MouseButton>>) {
    let mut clicks = Vec::new();
    for r in rs {
        let (next, click) = click_step(s, *r, COOLDOWN);
        s = next;
        clicks.push(click);
    }
    (s, clicks)
}

#[test]
fn pinch_landmarks_are_the_fingertips() {
    assert_eq!(THUMB_TIP_LANDMARK, 4);
    assert_eq!(INDEX_TIP_LANDMARK, 8);
    assert_eq!(MIDDLE_TIP_LANDMARK, 12);
}

#[test]
fn thumb_and_index_pinch_clicks_left() {
    let (s, click) = click_step(ClickState::new(), reading(PinchClass::Closed, PinchClass::Open, 1000), COOLDOWN);
    assert_eq!(click, Some(MouseButton::Left));
    assert_eq!(s, ClickState { active: Some(MouseButton::Left), last_click_ms: Some(1000) });
}

#[test]
fn thumb_and_middle_pinch_clicks_right() {
    let (s, click) = click_step(ClickState::new(), reading(PinchClass::Open, PinchClass::Closed, 40), COOLDOWN);
    assert_eq!(click, Some(MouseButton::Right));
    assert_eq!(s, ClickState { active: Some(MouseButton::Right), last_click_ms: Some(40) });
}

#[test]
fn both_pinches_closed_click_left() {
    let (_, click) = click_step(ClickState::new(), reading(PinchClass::Closed, PinchClass::Closed, 0), COOLDOWN);
    assert_eq!(click, Some(MouseButton::Left));
}

#[test]
fn a_held_pinch_clicks_once() {
    let rs = [
        reading(PinchClass::Closed, PinchClass::Open, 1000),
        reading(PinchClass::Closed, PinchClass::Open, 2000),
        reading(PinchClass::Between, PinchClass::Closed, 3000),
        reading(PinchClass::Closed, PinchClass::Open, 4000),
    ];
    let (s, clicks) = run(ClickState::new(), &rs);
    assert_eq!(clicks, vec![Some(MouseButton::Left), None, None, None]);
    assert_eq!(s, ClickState { active: Some(MouseButton::Left), last_click_ms: Some(1000) });
}

#[test]
fn release_then_press_clicks_again() {
    let rs = [
        reading(PinchClass::Closed, PinchClass::Open, 1000),
        reading(PinchClass::Open, PinchClass::Open, 1100),
        reading(PinchClass::Closed, PinchClass::Open, 1400),
    ];
    let (s, clicks) = run(ClickState::new(), &rs);
    assert_eq!(clicks, vec![Some(MouseButton::Left), None, Some(MouseButton::Left)]);
    assert_eq!(s.last_click_ms, Some(1400));
}

#[test]
fn release_ends_the_held_gesture_without_clicking() {
    let held = ClickState { active: Some(MouseButton::Right), last_click_ms: Some(500) };
    let (s, click) = click_step(held, reading(PinchClass::Closed, PinchClass::Open, 600), COOLDOWN);
    assert_eq!(click, None);
    assert_eq!(s, ClickState { active: None, last_click_ms: Some(500) });
}

#[test]
fn cooldown_holds_back_a_second_click() {
    let rs = [
        reading(PinchClass::Closed, PinchClass::Open, 1000),
        reading(PinchClass::Open, PinchClass::Open, 1050),
        reading(PinchClass::Closed, PinchClass::Open, 1259),
        reading(PinchClass::Closed, PinchClass::Open, 1260),
    ];
    let (_, clicks) = run(ClickState::new(), &rs);
    assert_eq!(clicks, vec![Some(MouseButton::Left), None, None, Some(MouseButton::Left)]);
}

#[test]
fn cooldown_applies_across_buttons() {
    let rs = [
        reading(PinchClass::Open, PinchClass::Closed, 100),
        reading(PinchClass::Open, PinchClass::Open, 150),
        reading(PinchClass::Closed, PinchClass::Open, 200),
        reading(PinchClass::Closed, PinchClass::Open, 360),
    ];
    let (_, clicks) = run(ClickState::new(), &rs);
    assert_eq!(clicks, vec![Some(MouseButton::Right), None, None, Some(MouseButton::Left)]);
}

#[test]
fn between_changes_nothing() {
    let states = [
        ClickState::new(),
        ClickState { active: Some(MouseButton::Left), last_click_ms: Some(7) },
        ClickState { active: None, last_click_ms: Some(7) },
    ];
    for s in states {
        let (next, click) = click_step(s, reading(PinchClass::Between, PinchClass::Between, 10_000), COOLDOWN);
        assert_eq!(next, s);
        assert_eq!(click, None);
    }
}

#[test]
fn open_pinches_click_nothing() {
    let (s, click) = click_step(ClickState::new(), reading(PinchClass::Open, PinchClass::Open, 5), COOLDOWN);
    assert_eq!(click, None);
    assert_eq!(s, ClickState::new());
}

#[test]
fn first_click_needs_no_cooldown() {
    let (_, click) = click_step(ClickState::new(), reading(PinchClass::Closed, PinchClass::Open, 0), 3000);
    assert_eq!(click, Some(MouseButton::Left));
}

#[test]
fn earlier_clock_than_last_click_does_not_click() {
    let s = ClickState { active: None, last_click_ms: Some(u64::MAX - 10) };
    let (next, click) = click_step(s, reading(PinchClass::Closed, PinchClass::Open, 5), COOLDOWN);
    assert_eq!(click, None);
    assert_eq!(next, s);
}
