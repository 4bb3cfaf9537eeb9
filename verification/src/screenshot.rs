//! Decisions of the tracked-screenshot hook: when a frame is captured, and
//! which view a capture shows. Reading the environment, painting and saving
//! the image are the caller's part.

use vstd::prelude::*;

use crate::dock::{LogViewId, ViewTab};
use crate::text::str_eq;

verus! {

/// The number of frames with ready content painted before a capture.
pub const SCREENSHOT_READY_FRAMES: u8 = 12;

/// What to do on one frame while a tracked screenshot is wanted.
#[derive(Clone, Copy, Debug, PartialEq, Eq, Structural)]
pub enum ScreenshotStep {
    /// Nothing: the capture was already asked for, or the content is not ready.
    Idle,
    /// Count one more ready frame and repaint shortly.
    Wait { ready_frames: u8 },
    /// Ask the renderer for the capture now.
    Capture,
}

/// The step for a frame, given whether the capture was already asked for,
/// whether the content is ready and how many ready frames were counted.
pub fn screenshot_step(requested: bool, content_ready: bool, ready_frames: u8) -> (step: ScreenshotStep)
    ensures
        requested || !content_ready ==> step == ScreenshotStep::Idle,
        !requested && content_ready && ready_frames < SCREENSHOT_READY_FRAMES
            ==> step == (ScreenshotStep::Wait { ready_frames: (ready_frames + 1) as u8 }),
        !requested && content_ready && ready_frames >= SCREENSHOT_READY_FRAMES
            ==> step == ScreenshotStep::Capture,
{
    if requested || !content_ready {
        ScreenshotStep::Idle
    } else if ready_frames < SCREENSHOT_READY_FRAMES {
        ScreenshotStep::Wait { ready_frames: ready_frames + 1 }
    } else {
        ScreenshotStep::Capture
    }
}

/// The view a capture brings to the front, by the name it was asked by.
pub open spec fn screenshot_tab(name: Seq<char>) -> Option<ViewTab> {
    if name == "pinned"@ {
        Some(ViewTab::Pinned)
    } else if name == "templates"@ {
        Some(ViewTab::Templates)
    } else if name == "log"@ {
        Some(ViewTab::Log(LogViewId(1)))
    } else {
        None
    }
}

/// How a capture arranges the document: the view to bring to the front, and
/// whether to open a second Log View beside the only one.
pub fn screenshot_view(name: Option<&str>, log_view_count: usize) -> (plan: (Option<ViewTab>, bool))
    ensures
        plan.0 == match name {
            Some(n) => screenshot_tab(n@),
            None => None,
        },
        plan.1 == (name matches Some(n) && n@ == "multiple-logs"@ && log_view_count == 1),
{
    match name {
        Some(n) => {
            proof {
                reveal_strlit("pinned");
                reveal_strlit("templates");
                reveal_strlit("log");
                reveal_strlit("multiple-logs");
            }
            let tab = if str_eq(n, "pinned") {
                Some(ViewTab::Pinned)
            } else if str_eq(n, "templates") {
                Some(ViewTab::Templates)
            } else if str_eq(n, "log") {
                Some(ViewTab::Log(LogViewId::initial()))
            } else {
                None
            };
            (tab, str_eq(n, "multiple-logs") && log_view_count == 1)
        },
        None => (None, false),
    }
}

} // verus!
