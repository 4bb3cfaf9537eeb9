use haystack_ui::popup::{
    compact_source_preview, truncate_line, AnalysisPopupMode, AnalysisSession,
};

#[test]
fn compact_preview_is_single_line_and_bounded() {
    assert_eq!(
        compact_source_preview("first\n  second", 20),
        "first second"
    );
    assert_eq!(compact_source_preview("abcdefgh", 4), "abcd…");
}

#[test]
fn compact_preview_drops_edge_white_space() {
    assert_eq!(compact_source_preview("  a \t b  ", 10), "a b");
    assert_eq!(compact_source_preview("   ", 10), "");
    assert_eq!(compact_source_preview("abcd", 4), "abcd");
}

#[test]
fn truncated_lines_end_with_an_ellipsis() {
    assert_eq!(truncate_line("日志日志", 2), "日志…");
    assert_eq!(truncate_line("short", 5), "short");
    assert_eq!(truncate_line("", 0), "");
}

type Rect = (i32, i32, i32, i32);

fn session() -> AnalysisSession<Rect, (i32, i32)> {
    AnalysisSession {
        next_popup_id: 0,
        pin_comment: "draft".to_string(),
        popup: None,
        selection_range: None,
        pending_selection: None,
        drag_start_pos: None,
        drag_start_line: None,
        drag_current_line: None,
        selection_popup_pos: None,
    }
}

#[test]
fn dismissing_selection_popup_clears_the_transient_selection() {
    let mut s = session();
    s.selection_range = Some((0, 1));
    s.pending_selection = Some((0, 1));
    s.open_actions((0, 1), (20, 20, 1, 1), (20, 20, 80, 36));
    assert_eq!(s.popup.as_ref().map(|state| state.mode), Some(AnalysisPopupMode::Actions));
    s.dismiss();
    assert!(s.popup.is_none());
    assert!(s.selection_range.is_none());
    assert!(s.pending_selection.is_none());
}

#[test]
fn selection_actions_use_cursor_anchor_and_retain_selected_bounds() {
    let mut s = session();
    let selected = (180, 160, 260, 36);
    let release = (410, 240, 1, 1);
    s.open_actions((0, 1), release, selected);
    assert_eq!(s.popup.as_ref().map(|state| state.anchor_rect), Some(release));
    assert_eq!(s.popup.as_ref().map(|state| state.selected_rect), Some(selected));
    assert!(s.pin_comment.is_empty());
    assert_eq!(s.popup.as_ref().map(|state| state.id), Some(1));
}

#[test]
fn switching_selection_actions_to_editor_uses_selected_bounds() {
    let mut s = session();
    let selected = (180, 160, 260, 36);
    s.open_actions((0, 1), (410, 240, 1, 1), selected);
    s.switch_to_editor();
    let state = s.popup.as_ref().unwrap();
    assert_eq!(state.mode, AnalysisPopupMode::Editor);
    assert_eq!(state.anchor_rect, selected);
}

#[test]
fn dismissing_context_popup_does_not_clear_existing_selection() {
    let mut s = session();
    s.selection_range = Some((0, 1));
    s.open_editor((0, 0), (20, 20, 80, 18), false);
    s.dismiss();
    assert!(s.popup.is_none());
    assert_eq!(s.selection_range, Some((0, 1)));
}

#[test]
fn saving_closes_the_bubble_like_dismissing() {
    let mut s = session();
    s.selection_range = Some((2, 3));
    s.drag_start_pos = Some((1, 1));
    s.open_actions((2, 3), (0, 0, 1, 1), (0, 0, 5, 5));
    s.pin_comment = "why".to_string();
    s.clear_after_save();
    assert!(s.popup.is_none());
    assert!(s.pin_comment.is_empty());
    assert!(s.selection_range.is_none());
    assert!(s.drag_start_pos.is_none());
}

use haystack_ui::popup::{preview_lines, PREVIEW_MAX_LINES, PREVIEW_MAX_LINE_CHARS};

#[test]
fn structured_preview_keeps_each_kv_on_its_own_line() {
    let pretty = "{\n  first: \"one\",\n  second: 2\n}";
    assert_eq!(
        preview_lines(true, pretty, "first=one second=2"),
        vec![
            "{".to_owned(),
            "  first: \"one\",".to_owned(),
            "  second: 2".to_owned(),
            "}".to_owned()
        ]
    );
}

#[test]
fn preview_lines_truncate_long_values_and_large_payloads() {
    let mut pretty = String::from("{\n");
    for index in 0..40 {
        pretty.push_str(&format!("  key{index}: \"{}\",\n", "x".repeat(PREVIEW_MAX_LINE_CHARS + 10)));
    }
    pretty.push('}');
    let lines = preview_lines(true, &pretty, "large=value");
    assert_eq!(lines.len(), PREVIEW_MAX_LINES);
    assert!(lines
        .iter()
        .all(|line| line.chars().count() <= PREVIEW_MAX_LINE_CHARS + 32));
    assert!(lines
        .last()
        .is_some_and(|line| line.contains("open inspector")));
    assert_eq!(lines.last().unwrap(), "… 11 more lines; open inspector for all");
}

#[test]
fn preview_lines_split_like_str_lines() {
    for text in ["foo\nbar\n\r\nbaz\r", "a\r\nb\r\n", "\n\nx", "single", "trailing\n"] {
        let expected: Vec<String> = text.lines().map(|line| line.to_string()).collect();
        assert_eq!(preview_lines(true, text, ""), expected, "for {text:?}");
    }
    assert_eq!(preview_lines(true, "", ""), vec![String::new()]);
}

#[test]
fn scalar_payloads_preview_their_source_on_one_line() {
    assert_eq!(preview_lines(false, "", "  a\n  b  "), vec!["a b".to_string()]);
    let long = "y".repeat(100);
    let shown = &preview_lines(false, "", &long)[0];
    assert_eq!(shown.chars().count(), PREVIEW_MAX_LINE_CHARS + 1);
    assert!(shown.ends_with('…'));
}
