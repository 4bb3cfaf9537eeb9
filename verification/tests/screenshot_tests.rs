use haystack_ui::dock::{LogViewId, ViewTab};
use haystack_ui::screenshot::{screenshot_step, screenshot_view, ScreenshotStep};

#[test]
fn a_capture_waits_for_twelve_ready_frames() {
    assert_eq!(screenshot_step(false, false, 0), ScreenshotStep::Idle);
    assert_eq!(screenshot_step(true, true, 20), ScreenshotStep::Idle);
    assert_eq!(screenshot_step(false, true, 0), ScreenshotStep::Wait { ready_frames: 1 });
    assert_eq!(screenshot_step(false, true, 11), ScreenshotStep::Wait { ready_frames: 12 });
    assert_eq!(screenshot_step(false, true, 12), ScreenshotStep::Capture);
}

#[test]
fn a_capture_brings_the_asked_view_to_the_front() {
    assert_eq!(screenshot_view(Some("pinned"), 1), (Some(ViewTab::Pinned), false));
    assert_eq!(screenshot_view(Some("templates"), 1), (Some(ViewTab::Templates), false));
    assert_eq!(screenshot_view(Some("log"), 2), (Some(ViewTab::Log(LogViewId(1))), false));
    assert_eq!(screenshot_view(Some("multiple-logs"), 1), (None, true));
    assert_eq!(screenshot_view(Some("multiple-logs"), 2), (None, false));
    assert_eq!(screenshot_view(Some("other"), 1), (None, false));
    assert_eq!(screenshot_view(None, 1), (None, false));
}
