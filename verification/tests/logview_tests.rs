use haystack_ui::logview::{
    finish_pin, find_enter_action, has_search_content, is_field_criteria_kind, keyword_at,
    navigate_vertical, pin_line_numbers, reconcile_selection_after_user_scroll,
    search_match_beyond_preview, should_advance_find_on_enter, source_prefix_at,
    update_viewport_range, virtual_index_for_line, visible_lines_in_range, FindEnterAction,
    PinEditor, VerticalStep, ViewportSelection,
};

#[test]
fn focused_search_enter_advances_an_existing_query() {
    assert_eq!(
        find_enter_action(true, false, true, true, false, false),
        Some(FindEnterAction::Next)
    );
    assert_eq!(
        find_enter_action(true, false, true, true, true, false),
        Some(FindEnterAction::Start)
    );
    assert_eq!(
        find_enter_action(false, false, true, true, false, false),
        None
    );
}

#[test]
fn clear_search_is_visible_only_when_search_has_content() {
    assert!(!has_search_content("", "", false));
    assert!(has_search_content("error", "", false));
    assert!(has_search_content("", "error", false));
    assert!(has_search_content("", "", true));
}

#[test]
fn blank_find_input_is_not_search_content() {
    assert!(!has_search_content("   \t", "", false));
}

#[test]
fn enter_advances_an_active_search_from_the_selected_log_view() {
    assert!(should_advance_find_on_enter(true, true, false, true));
    assert!(!should_advance_find_on_enter(true, false, false, true));
    assert!(!should_advance_find_on_enter(true, true, true, true));
    assert!(!should_advance_find_on_enter(false, true, false, true));
    assert!(!should_advance_find_on_enter(true, true, false, false));
}

#[test]
fn keyword_at_mid_word() {
    assert_eq!(keyword_at("hello world", 2), Some("hello".to_string()));
}

#[test]
fn keyword_at_on_delimiter_returns_none() {
    assert_eq!(keyword_at("hello world", 5), None);
}

#[test]
fn keyword_at_bracketed_token() {
    assert_eq!(
        keyword_at("[LogEntry] foo", 1),
        Some("LogEntry".to_string())
    );
}

#[test]
fn keyword_at_past_eol_returns_none() {
    assert_eq!(keyword_at("hi", 5), None);
}

#[test]
fn source_prefix_uses_exact_utf8_byte_position() {
    let line = "INFO ঢাকা payload={\"ok\":true}";
    let opening = line.find('{').unwrap();
    assert_eq!(
        source_prefix_at(line.as_bytes(), opening),
        Some("INFO ঢাকা payload=")
    );
    assert_eq!(
        source_prefix_at(line.as_bytes(), opening + 1),
        Some("INFO ঢাকা payload={")
    );
    let inside_unicode = line.find('ঢ').unwrap() + 1;
    assert_eq!(source_prefix_at(line.as_bytes(), inside_unicode), None);
}

#[test]
fn source_prefix_past_the_line_is_none() {
    assert_eq!(source_prefix_at(b"abc", 4), None);
    assert_eq!(source_prefix_at(b"abc", 3), Some("abc"));
    assert_eq!(source_prefix_at(b"abc", 0), Some(""));
}

#[test]
fn visible_lines_range_uses_sorted_bounds() {
    let lines = [1, 3, 7, 10, 11, 20];
    assert_eq!(visible_lines_in_range(&lines, 3, 11), &[3, 7, 10, 11]);
    assert!(visible_lines_in_range(&lines, 12, 19).is_empty());
}

#[test]
fn search_match_beyond_preview_distinguishes_hidden_and_visible_hits() {
    // Where the phrase "needle" matches in each line.
    assert!(!search_match_beyond_preview(&[0..6], 12));
    assert!(search_match_beyond_preview(&[7..13], 6));
    assert!(search_match_beyond_preview(&[0..6], 3));
}

#[test]
fn message_capture_is_not_a_field_criteria_option() {
    assert!(!is_field_criteria_kind("message"));
    for kind in ["token", "text", "path", "number", "timestamp"] {
        assert!(is_field_criteria_kind(kind));
    }
}

#[test]
fn vertical_keys_walk_find_hits_before_lines() {
    assert_eq!(navigate_vertical(false, true), VerticalStep::AdjacentLine(true));
    assert_eq!(navigate_vertical(false, false), VerticalStep::AdjacentLine(false));
    assert_eq!(navigate_vertical(true, true), VerticalStep::FindNext);
    assert_eq!(navigate_vertical(true, false), VerticalStep::FindPrevious);
}

fn viewport(visible: Option<Vec<u32>>, range: (usize, usize), selected: usize) -> ViewportSelection {
    ViewportSelection {
        visible_lines: visible,
        viewport_range: Some(range),
        context_line: Some(selected),
    }
}

#[test]
fn user_scroll_reselects_only_when_selection_leaves_viewport() {
    let mut state = viewport(None, (5, 9), 7);
    assert!(!reconcile_selection_after_user_scroll(&mut state));
    assert_eq!(state.context_line, Some(7));

    state.context_line = Some(3);
    assert!(reconcile_selection_after_user_scroll(&mut state));
    assert_eq!(state.context_line, Some(6));

    state.context_line = Some(12);
    assert!(reconcile_selection_after_user_scroll(&mut state));
    assert_eq!(state.context_line, Some(8));
}

#[test]
fn user_scroll_reselection_uses_visible_filtered_rows() {
    let mut state = viewport(Some(vec![0, 10, 20]), (10, 20), 15);
    assert!(reconcile_selection_after_user_scroll(&mut state));
    assert_eq!(state.context_line, Some(20));
}

#[test]
fn reselection_needs_a_selection_and_a_viewport() {
    let mut state = ViewportSelection { visible_lines: None, viewport_range: None, context_line: Some(3) };
    assert!(!reconcile_selection_after_user_scroll(&mut state));
    let mut state = ViewportSelection { visible_lines: None, viewport_range: Some((1, 2)), context_line: None };
    assert!(!reconcile_selection_after_user_scroll(&mut state));
    assert_eq!(state.context_line, None);
}

#[test]
fn viewport_shadow_maps_only_fully_visible_filtered_rows() {
    let mut state = ViewportSelection {
        visible_lines: Some(vec![0, 10, 20]),
        viewport_range: None,
        context_line: None,
    };
    let follow = update_viewport_range(&mut state, Some((1, 2)), None);
    assert_eq!(state.viewport_range, Some((10, 20)));
    assert!(follow);
    let follow = update_viewport_range(&mut state, Some((1, 2)), None);
    assert!(!follow);
}

#[test]
fn filtered_rows_map_lines_to_virtual_indices() {
    let visible = [0u32, 10, 20];
    assert_eq!(virtual_index_for_line(Some(&visible), 10, 3), Some(1));
    assert_eq!(virtual_index_for_line(None, 4, 10), Some(4));
}

#[test]
fn pins_cover_the_visible_lines_of_the_range() {
    let visible = [1u32, 3, 7, 10];
    assert_eq!(pin_line_numbers(Some(&visible), 2, 8), vec![3, 7]);
    assert_eq!(pin_line_numbers(None, 4, 6), vec![4, 5, 6]);
    assert!(pin_line_numbers(None, 6, 4).is_empty());
}

#[test]
fn save_pin_edits_existing_entry_in_place() {
    let mut editor = PinEditor {
        pins: vec!["old comment"],
        modal_range: Some((0, 0)),
        edit_index: Some(0),
        comment: "updated comment".to_string(),
        bottom_panel_open: false,
        pending_toast: None,
    };
    finish_pin(&mut editor, Some("updated comment"));
    assert_eq!(editor.pins, vec!["updated comment"], "editing must not add a second pin");
    assert!(editor.modal_range.is_none());
    assert!(editor.edit_index.is_none());
    assert!(editor.comment.is_empty());
    assert!(editor.bottom_panel_open);
}

#[test]
fn save_pin_without_edit_flag_creates_a_new_pin() {
    let mut editor = PinEditor {
        pins: vec!["first"],
        modal_range: Some((0, 0)),
        edit_index: None,
        comment: "fresh comment".to_string(),
        bottom_panel_open: false,
        pending_toast: None,
    };
    finish_pin(&mut editor, Some("fresh comment"));
    assert_eq!(editor.pins, vec!["first", "fresh comment"]);
}

#[test]
fn pin_without_anchorable_lines_only_raises_a_notice() {
    let mut editor: PinEditor<&str> = PinEditor {
        pins: vec![],
        modal_range: Some((3, 4)),
        edit_index: None,
        comment: "note".to_string(),
        bottom_panel_open: false,
        pending_toast: None,
    };
    finish_pin(&mut editor, None);
    assert!(editor.pins.is_empty());
    assert_eq!(editor.modal_range, Some((3, 4)));
    assert_eq!(editor.comment, "note");
    assert_eq!(editor.pending_toast.as_deref(), Some("No visible log lines to pin"));
}

#[test]
fn save_pin_uses_first_and_last_visible_selected_rows_for_timestamps() {
    // The selection range includes hidden rows 0 and 2; the pin is made of
    // the two rows actually selected, and its endpoints are rows 1 and 3.
    let visible = [1u32, 3];
    let lines = pin_line_numbers(Some(&visible), 0, 3);
    assert_eq!(lines, vec![1, 3]);
    assert_eq!(lines.first(), Some(&1));
    assert_eq!(lines.last(), Some(&3));
}

#[test]
fn save_pin_without_comment_still_creates_an_analysis_pin() {
    let lines = pin_line_numbers(None, 0, 0);
    assert_eq!(lines, vec![0]);
    let mut editor: PinEditor<(Vec<usize>, String)> = PinEditor {
        pins: vec![],
        modal_range: Some((0, 0)),
        edit_index: None,
        comment: String::new(),
        bottom_panel_open: false,
        pending_toast: None,
    };
    let comment = editor.comment.trim().to_string();
    finish_pin(&mut editor, Some((lines, comment)));
    assert_eq!(editor.pins.len(), 1);
    assert!(editor.pins[0].1.is_empty());
    assert_eq!(editor.pins[0].0, vec![0]);
}

#[test]
fn a_hidden_selection_past_the_viewport_moves_to_the_nearest_visible_line() {
    // Visible lines 1, 5, 10, 20; the viewport shows 5..=10; line 25 is
    // hidden and below it. The nearest visible line, 20, is taken even
    // though it lies outside the viewport.
    let mut state = viewport(Some(vec![1, 5, 10, 20]), (5, 10), 25);
    assert!(reconcile_selection_after_user_scroll(&mut state));
    assert_eq!(state.context_line, Some(20));
}
