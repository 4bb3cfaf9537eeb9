//! The hover lifecycle of source callouts: a callout appears after the
//! pointer dwells on a highlighted fragment, and once shown it stays while
//! the pointer travels to it, even across other highlighted fragments.
//! `K` identifies a fragment and `R` is the screen rectangle type; times
//! are nanoseconds on one monotonic clock.

use vstd::prelude::*;
use vstd::std_specs::cmp::PartialEqSpec;

verus! {

/// Pointer dwell before a callout appears.
pub const HOVER_DELAY_NANOS: u64 = 800_000_000;

/// How long a callout outlives the pointer leaving its active region.
pub const HOVER_GRACE_NANOS: u64 = 420_000_000;

/// The fragment being hovered or called out.
pub struct HoverState<K, R> {
    pub key: K,
    pub source_rect: R,
    pub started_at: u64,
    pub last_seen_at: u64,
    /// Where the callout is shown, once it is.
    pub bubble_rect: Option<R>,
}

/// What one frame observed.
pub struct HoverInput<K, R> {
    pub escape: bool,
    /// A click landed outside the shown callout.
    pub clicked_outside_bubble: bool,
    /// A pointer-down or scroll gesture is under way.
    pub suppress: bool,
    pub pointer_over_bubble: bool,
    /// The pointer is over the source, the callout or the corridor between.
    pub pointer_in_active_region: bool,
    /// The pointer moved far enough to restart the dwell.
    pub pointer_moved: bool,
    /// The highlighted fragment under the pointer, with its rectangle.
    pub candidate: Option<(K, R)>,
    pub now: u64,
}

/// Time from `since` to `now`, zero if `now` is earlier.
pub open spec fn elapsed(now: u64, since: u64) -> int {
    if now >= since {
        now - since
    } else {
        0
    }
}

/// The state seen again at `now`.
pub open spec fn seen_at<K, R>(s: HoverState<K, R>, now: u64) -> HoverState<K, R> {
    HoverState { key: s.key, source_rect: s.source_rect, started_at: s.started_at, last_seen_at: now, bubble_rect: s.bubble_rect }
}

/// Keeps a state while the pointer is in its active region, drops it once
/// the grace period since it was last seen is over.
pub open spec fn linger<K, R>(s: HoverState<K, R>, input: HoverInput<K, R>) -> Option<HoverState<K, R>> {
    if input.pointer_in_active_region {
        Some(seen_at(s, input.now))
    } else if elapsed(input.now, s.last_seen_at) > HOVER_GRACE_NANOS {
        None
    } else {
        Some(s)
    }
}

/// The hover state after one frame: Escape, a click outside the callout,
/// or a gesture away from it clears everything; a shown callout ignores
/// other fragments and lingers; otherwise the fragment under the pointer is
/// tracked (its dwell restarting when the pointer moved), and without one
/// the current state lingers.
pub open spec fn hover_next<K: PartialEq, R>(state: Option<HoverState<K, R>>, input: HoverInput<K, R>) -> Option<HoverState<K, R>> {
    if input.escape {
        None
    } else if input.clicked_outside_bubble && (state matches Some(s) && s.bubble_rect is Some) {
        None
    } else if input.suppress && !input.pointer_over_bubble {
        None
    } else {
        match state {
            Some(s) => if s.bubble_rect is Some {
                linger(s, input)
            } else {
                match input.candidate {
                    Some((key, rect)) => if key.eq_spec(&s.key) {
                        Some(
                            HoverState {
                                key: s.key,
                                source_rect: rect,
                                started_at: if input.pointer_moved {
                                    input.now
                                } else {
                                    s.started_at
                                },
                                last_seen_at: input.now,
                                bubble_rect: s.bubble_rect,
                            },
                        )
                    } else {
                        Some(HoverState { key, source_rect: rect, started_at: input.now, last_seen_at: input.now, bubble_rect: None })
                    },
                    None => linger(s, input),
                }
            },
            None => match input.candidate {
                Some((key, rect)) => Some(
                    HoverState { key, source_rect: rect, started_at: input.now, last_seen_at: input.now, bubble_rect: None },
                ),
                None => None,
            },
        }
    }
}

fn outlived_grace(now: u64, last_seen_at: u64) -> (over: bool)
    ensures
        over == (elapsed(now, last_seen_at) > HOVER_GRACE_NANOS),
{
    let gone = if now >= last_seen_at {
        now - last_seen_at
    } else {
        0
    };
    gone > HOVER_GRACE_NANOS
}

/// Advances the hover state by one frame (see `hover_next`, which holds
/// whenever the key type's equality obeys its specification).
pub fn update_hover<K: PartialEq, R>(state: &mut Option<HoverState<K, R>>, input: HoverInput<K, R>)
    ensures
        K::obeys_eq_spec() ==> *final(state) == hover_next(*old(state), input),
{
    let ghost start = *state;
    if input.escape {
        *state = None;
        return;
    }
    let has_bubble = match state {
        Some(s) => s.bubble_rect.is_some(),
        None => false,
    };
    if input.clicked_outside_bubble && has_bubble {
        *state = None;
        return;
    }
    if input.suppress && !input.pointer_over_bubble {
        *state = None;
        return;
    }
    let now = input.now;
    let current = state.take();
    let next = match current {
        Some(s) => {
            if s.bubble_rect.is_some() || input.candidate.is_none() {
                if input.pointer_in_active_region {
                    Some(HoverState { key: s.key, source_rect: s.source_rect, started_at: s.started_at, last_seen_at: now, bubble_rect: s.bubble_rect })
                } else if outlived_grace(now, s.last_seen_at) {
                    None
                } else {
                    Some(s)
                }
            } else {
                match input.candidate {
                    Some((key, rect)) => {
                        if key == s.key {
                            let started_at = if input.pointer_moved {
                                now
                            } else {
                                s.started_at
                            };
                            Some(HoverState { key: s.key, source_rect: rect, started_at, last_seen_at: now, bubble_rect: s.bubble_rect })
                        } else {
                            Some(HoverState { key, source_rect: rect, started_at: now, last_seen_at: now, bubble_rect: None })
                        }
                    },
                    None => None,
                }
            }
        },
        None => match input.candidate {
            Some((key, rect)) => Some(HoverState { key, source_rect: rect, started_at: now, last_seen_at: now, bubble_rect: None }),
            None => None,
        },
    };
    *state = next;
}

/// When the next frame should look at the hover state again: at the end of
/// the dwell while a callout is pending, else after the grace period;
/// `None` without a state.
pub open spec fn repaint_delay<K, R>(state: Option<HoverState<K, R>>, now: u64) -> Option<u64> {
    match state {
        None => None,
        Some(s) => if s.bubble_rect is None && elapsed(now, s.started_at) < HOVER_DELAY_NANOS {
            Some((HOVER_DELAY_NANOS - elapsed(now, s.started_at)) as u64)
        } else {
            Some(HOVER_GRACE_NANOS)
        },
    }
}

/// The repaint delay for the hover state (see `repaint_delay`).
pub fn request_repaint_for_state<K, R>(state: &Option<HoverState<K, R>>, now: u64) -> (delay: Option<u64>)
    ensures
        delay == repaint_delay(*state, now),
{
    match state {
        None => None,
        Some(s) => {
            let waited = if now >= s.started_at {
                now - s.started_at
            } else {
                0
            };
            if s.bubble_rect.is_none() && waited < HOVER_DELAY_NANOS {
                Some(HOVER_DELAY_NANOS - waited)
            } else {
                Some(HOVER_GRACE_NANOS)
            }
        },
    }
}

/// Law: once a callout is shown, a different fragment under the pointer
/// never replaces it; it stays until Escape, a click or gesture away from
/// it, or the end of the grace period.
pub proof fn law_shown_callout_is_sticky<K: PartialEq, R>(s: HoverState<K, R>, input: HoverInput<K, R>)
    requires
        s.bubble_rect is Some,
        !input.escape,
        !input.clicked_outside_bubble,
        !input.suppress || input.pointer_over_bubble,
        input.pointer_in_active_region || elapsed(input.now, s.last_seen_at) <= HOVER_GRACE_NANOS,
    ensures
        hover_next(Some(s), input) matches Some(t) && t.key == s.key && t.bubble_rect == s.bubble_rect
            && t.source_rect == s.source_rect,
{
}

} // verus!
