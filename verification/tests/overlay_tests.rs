use haystack_ui::dock::{dispatch_command, AppCommand, CommandContext, CommandEffect};
use haystack_ui::overlays::{
    apply_goto_command, escape_effect, goto_request, handle_escape, EscapeEffect, EscapeState, GotoBox,
    GotoRequest, OpenOverlays,
};

fn nothing_open() -> OpenOverlays {
    OpenOverlays {
        integrate_popup: false,
        record_editor: false,
        custom_date_popup: false,
        command_palette: false,
        goto_popup: false,
        cheat_sheet: false,
        new_filter_popup: false,
        rename_filter_popup: false,
        mcp_error_popup: false,
        pending_restore_tab: false,
        zip_import_error: false,
        close_save_error: false,
        settings_popup: false,
        ai_assistant_popup: false,
        recent_dropdown: false,
        filter_dropdown: false,
        views_dropdown: false,
        format_dropdown: false,
        tab_confirmation: false,
        occurrence_overlay: false,
    }
}

#[test]
fn escape_leaves_log_focus_only_without_overlays() {
    assert_eq!(escape_effect(nothing_open(), true, false), EscapeEffect::Nothing);
    assert_eq!(escape_effect(nothing_open(), true, true), EscapeEffect::LeaveLogFocus);
    assert_eq!(escape_effect(nothing_open(), false, true), EscapeEffect::Nothing);
}

#[test]
fn escape_closes_the_topmost_overlay_first() {
    let mut open = nothing_open();
    open.settings_popup = true;
    open.goto_popup = true;
    assert_eq!(escape_effect(open, true, true), EscapeEffect::CloseGotoPopup);
    open.record_editor = true;
    open.views_dropdown = true;
    assert_eq!(escape_effect(open, true, false), EscapeEffect::DismissRecordEditor);
    assert_eq!(escape_effect(open, false, false), EscapeEffect::Nothing);
}

#[test]
fn document_overlays_close_last() {
    let mut open = nothing_open();
    open.tab_confirmation = true;
    assert_eq!(escape_effect(open, true, false), EscapeEffect::CancelFilterRemoval);
    open.occurrence_overlay = true;
    assert_eq!(escape_effect(open, true, false), EscapeEffect::CloseOccurrenceOverlay);
    open.format_dropdown = true;
    assert_eq!(escape_effect(open, true, false), EscapeEffect::CloseFormatDropdown);
}

#[test]
fn goto_reads_line_numbers_and_times() {
    assert_eq!(goto_request(""), GotoRequest::Empty);
    assert_eq!(goto_request("   "), GotoRequest::Empty);
    assert_eq!(goto_request("line 12"), GotoRequest::Line(11));
    assert_eq!(goto_request("l:5"), GotoRequest::Line(4));
    assert_eq!(goto_request(" 7 "), GotoRequest::Line(6));
    assert_eq!(goto_request("line  9"), GotoRequest::Line(8));
    assert_eq!(goto_request("+3"), GotoRequest::Line(2));
    assert_eq!(goto_request("0"), GotoRequest::LineZero);
    assert_eq!(goto_request("@1700000000"), GotoRequest::Time("1700000000".to_string()));
    assert_eq!(
        goto_request("2026-01-01T00:00:00Z"),
        GotoRequest::Time("2026-01-01T00:00:00Z".to_string())
    );
    assert_eq!(goto_request("line x"), GotoRequest::Time("line x".to_string()));
    assert_eq!(
        goto_request("99999999999999999999999"),
        GotoRequest::Time("99999999999999999999999".to_string())
    );
}

use haystack_ui::overlays::{palette_choice, palette_matches, PaletteEntry};

const COMMANDS: [PaletteEntry; 4] = [
    PaletteEntry { name: "Open file…", category: "File" },
    PaletteEntry { name: "Go to line or time", category: "Navigate" },
    PaletteEntry { name: "Show keyboard shortcuts", category: "Help" },
    PaletteEntry { name: "Afficher l'ÉCRAN", category: "Vue" },
];

#[test]
fn palette_filters_by_name_or_category_in_lower_case() {
    assert_eq!(palette_matches(&COMMANDS, ""), vec![0, 1, 2, 3]);
    assert_eq!(palette_matches(&COMMANDS, "GO TO"), vec![1]);
    assert_eq!(palette_matches(&COMMANDS, "help"), vec![2]);
    assert_eq!(palette_matches(&COMMANDS, "écran"), vec![3]);
    assert_eq!(palette_matches(&COMMANDS, "zzz"), Vec::<usize>::new());
    assert_eq!(palette_choice(&COMMANDS, "i"), Some(0));
    assert_eq!(palette_choice(&COMMANDS, "zzz"), None);
}

#[test]
fn escape_over_the_record_editor_closes_the_completion_list_first() {
    let overlays = OpenOverlays { record_editor: true, settings_popup: true, ..nothing_open() };
    let mut state = EscapeState { overlays, completion_open: true, log_focus_mode: true };
    assert_eq!(handle_escape(&mut state, true), EscapeEffect::DismissRecordEditor);
    assert_eq!(state, EscapeState { overlays, completion_open: false, log_focus_mode: true });
    assert_eq!(handle_escape(&mut state, true), EscapeEffect::DismissRecordEditor);
    assert!(!state.overlays.record_editor);
    assert!(state.overlays.settings_popup);
    assert_eq!(handle_escape(&mut state, true), EscapeEffect::CloseSettingsPopup);
    assert_eq!(state.overlays, nothing_open());
    assert_eq!(handle_escape(&mut state, true), EscapeEffect::LeaveLogFocus);
    assert!(!state.log_focus_mode);
    let before = state;
    assert_eq!(handle_escape(&mut state, false), EscapeEffect::Nothing);
    assert_eq!(state, before);
}

fn context(tab_selected: bool) -> CommandContext {
    CommandContext {
        loader_active: false,
        tab_selected,
        tab_present: tab_selected,
        viewport_first: None,
        viewport_last: None,
        visible_first: None,
        visible_last: None,
        selected_lane: None,
        pin_selected: false,
        focused_view_detached: false,
    }
}

#[test]
fn go_to_opens_an_empty_box_only_with_a_document() {
    let mut goto = GotoBox { open: false, input: "12".to_string(), error: Some("old".to_string()) };
    apply_goto_command(&mut goto, dispatch_command(AppCommand::GoTo, context(false)));
    assert!(!goto.open);
    assert_eq!(goto.input, "12");
    assert_eq!(goto.error.as_deref(), Some("old"));
    let effect = dispatch_command(AppCommand::GoTo, context(true));
    assert_eq!(effect, CommandEffect::ShowGoto);
    apply_goto_command(&mut goto, effect);
    assert!(goto.open);
    assert!(goto.input.is_empty());
    assert!(goto.error.is_none());
}
