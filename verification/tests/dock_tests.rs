use haystack_ui::dock::tab_is_closeable;
use haystack_ui::dock::{
    detached_view_title, dispatch_command, dock_tab_accessibility_label, dock_tab_name,
    dock_tab_title, document_status_context, dropdown_visibility, open_file_shortcut,
    should_request_repaint, LogViewId, TopPanelDropdown, ViewTab,
};

#[test]
fn top_panel_dropdowns_are_mutually_exclusive_and_toggle() {
    assert_eq!(
        dropdown_visibility(TopPanelDropdown::Filters, true),
        (false, false, false)
    );
    assert_eq!(
        dropdown_visibility(TopPanelDropdown::Recent, false),
        (true, false, false)
    );
    assert_eq!(
        dropdown_visibility(TopPanelDropdown::More, false),
        (false, false, true)
    );
}

#[test]
fn empty_workspace_hides_stale_document_status() {
    assert_eq!(
        document_status_context(None, "Loaded `old.log` — 42 lines"),
        ""
    );
    assert_eq!(
        document_status_context(Some("format: plain · date: none"), ""),
        "format: plain · date: none"
    );
}

#[test]
fn completed_loader_requests_a_follow_up_frame() {
    assert!(should_request_repaint(false, true, false, false));
    assert!(!should_request_repaint(false, false, false, false));
}

#[test]
fn detached_titles_include_filename_and_view_identity() {
    let first = ViewTab::Log(LogViewId::initial());
    assert_eq!(
        detached_view_title("server.log", first, 1, Some(1)),
        "server.log · Log View"
    );
    assert_eq!(
        detached_view_title("server.log", first, 2, Some(7)),
        "server.log · Log View 7"
    );
    assert_eq!(
        detached_view_title("server.log", ViewTab::Timeline, 2, None),
        "server.log · Timeline"
    );
}

#[test]
fn dock_tab_headers_reserve_only_detach_actions() {
    let log = ViewTab::Log(LogViewId::initial());
    for tab in [log, ViewTab::Pinned, ViewTab::Templates] {
        assert!(dock_tab_title(tab, 1, Some(1)).ends_with("     "));
    }
    assert_eq!(dock_tab_title(ViewTab::Timeline, 1, None), "Timeline");
}

#[test]
fn multiple_log_tab_titles_are_numbered_and_actions_avoid_close_button() {
    let tab = ViewTab::Log(LogViewId::initial());
    assert_eq!(dock_tab_title(tab, 1, Some(1)).trim(), "Log");
    assert_eq!(dock_tab_title(tab, 2, Some(7)).trim(), "Log 7");
}

#[test]
fn log_tab_accessibility_copy_explains_actions_and_final_view_invariant() {
    let tab = ViewTab::Log(LogViewId::initial());
    let only = dock_tab_accessibility_label(tab, 1, Some(1));
    assert!(only.starts_with("Log tab."));
    assert!(only.contains("Add another Log View"));
    assert!(only.contains("cannot be closed"));

    let multiple = dock_tab_accessibility_label(tab, 2, Some(7));
    assert!(multiple.starts_with("Log 7 tab."));
    assert!(multiple.contains("separate window"));
    assert!(multiple.contains("close this Log View"));
}

#[test]
fn reopening_a_dropdown_closes_it_and_others_stay_closed() {
    for dropdown in [TopPanelDropdown::Recent, TopPanelDropdown::Filters, TopPanelDropdown::More] {
        let (a, b, c) = dropdown_visibility(dropdown, false);
        assert_eq!([a, b, c].iter().filter(|open| **open).count(), 1);
        assert_eq!(dropdown_visibility(dropdown, true), (false, false, false));
    }
}

#[test]
fn view_names_and_shortcuts() {
    assert_eq!(dock_tab_name(ViewTab::Timeline), "Timeline");
    assert_eq!(dock_tab_name(ViewTab::Pinned), "Pinned");
    assert_eq!(dock_tab_name(ViewTab::Templates), "Templates");
    assert_eq!(LogViewId::initial(), LogViewId(1));
    assert_ne!(open_file_shortcut(true), open_file_shortcut(false));
}

#[test]
fn timeline_title_is_not_padded() {
    assert_eq!(dock_tab_title(ViewTab::Timeline, 3, None), "Timeline");
    let pinned = dock_tab_title(ViewTab::Pinned, 1, None);
    assert!(pinned.starts_with("Pinned"));
    let _ = dispatch_command;
}

#[test]
fn only_a_second_log_view_can_be_closed() {
    let log = ViewTab::Log(LogViewId::initial());
    assert!(!tab_is_closeable(log, 1));
    assert!(tab_is_closeable(log, 2));
    assert!(!tab_is_closeable(ViewTab::Timeline, 3));
    assert!(!tab_is_closeable(ViewTab::Pinned, 3));
}
