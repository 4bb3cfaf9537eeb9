use haystack_ui::hover::{
    request_repaint_for_state, update_hover, HoverInput, HoverState, HOVER_DELAY_NANOS,
    HOVER_GRACE_NANOS,
};

type Rect = (i32, i32, i32, i32);

const MS: u64 = 1_000_000;

fn frame(candidate: Option<(u32, Rect)>, now: u64) -> HoverInput<u32, Rect> {
    HoverInput {
        escape: false,
        clicked_outside_bubble: false,
        suppress: false,
        pointer_over_bubble: false,
        pointer_in_active_region: false,
        pointer_moved: false,
        candidate,
        now,
    }
}

const SOURCE: Rect = (100, 80, 140, 96);
const BUBBLE: Rect = (20, 10, 260, 70);

#[test]
fn visible_popup_ignores_competing_highlights_until_grace_expires() {
    let mut state: Option<HoverState<u32, Rect>> = None;
    let now = 5_000 * MS;
    update_hover(&mut state, frame(Some((5, SOURCE)), now));
    state.as_mut().unwrap().bubble_rect = Some(BUBBLE);
    update_hover(&mut state, frame(Some((15, SOURCE)), now + 100 * MS));
    assert_eq!(state.as_ref().unwrap().key, 5);

    update_hover(&mut state, frame(Some((15, SOURCE)), now + HOVER_GRACE_NANOS + MS));
    assert!(state.is_none());
}

#[test]
fn pending_callout_follows_the_fragment_under_the_pointer() {
    let mut state: Option<HoverState<u32, Rect>> = None;
    update_hover(&mut state, frame(Some((1, SOURCE)), 10 * MS));
    let mut moved = frame(Some((1, (0, 0, 5, 5))), 20 * MS);
    moved.pointer_moved = true;
    update_hover(&mut state, moved);
    let s = state.as_ref().unwrap();
    assert_eq!(s.started_at, 20 * MS);
    assert_eq!(s.source_rect, (0, 0, 5, 5));
    update_hover(&mut state, frame(Some((2, SOURCE)), 30 * MS));
    assert_eq!(state.as_ref().unwrap().key, 2);
    assert_eq!(state.as_ref().unwrap().started_at, 30 * MS);
}

#[test]
fn escape_clicks_and_gestures_clear_the_callout() {
    let shown = || {
        Some(HoverState { key: 1u32, source_rect: SOURCE, started_at: 0, last_seen_at: 0, bubble_rect: Some(BUBBLE) })
    };
    let mut state = shown();
    let mut input = frame(None, 1);
    input.escape = true;
    update_hover(&mut state, input);
    assert!(state.is_none());

    let mut state = shown();
    let mut input = frame(None, 1);
    input.clicked_outside_bubble = true;
    update_hover(&mut state, input);
    assert!(state.is_none());

    let mut state = shown();
    let mut input = frame(None, 1);
    input.suppress = true;
    input.pointer_over_bubble = true;
    update_hover(&mut state, input);
    assert!(state.is_some());
    let mut input = frame(None, 2);
    input.suppress = true;
    update_hover(&mut state, input);
    assert!(state.is_none());
}

#[test]
fn repaints_wait_for_the_dwell_then_the_grace_period() {
    let none: Option<HoverState<u32, Rect>> = None;
    assert_eq!(request_repaint_for_state(&none, 0), None);
    let pending = Some(HoverState { key: 1u32, source_rect: SOURCE, started_at: 100 * MS, last_seen_at: 100 * MS, bubble_rect: None });
    assert_eq!(request_repaint_for_state(&pending, 300 * MS), Some(HOVER_DELAY_NANOS - 200 * MS));
    assert_eq!(request_repaint_for_state(&pending, 2_000 * MS), Some(HOVER_GRACE_NANOS));
}
