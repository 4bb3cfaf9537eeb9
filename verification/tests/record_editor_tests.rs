use haystack_ui::record_editor::{
    converted_name, field_kind_label, legacy_conversion_check, preview_name, preview_sample,
    save_preset, timestamp_label, CustomFieldKind, Preset, RecordEditor, TimestampSelection,
    WorkerEvent, APPLY_TARGET_INACTIVE, DEFAULT_SAMPLE, NAME_TAKEN,
};

fn tracker() -> RecordEditor<&'static str, &'static str, u32> {
    RecordEditor::new("Console")
}

#[test]
fn edit_revision_invalidates_validation_without_discarding_a_previous_preview() {
    let mut editor = tracker();
    editor.result_revision = Some(0);
    editor.format_valid = Some(Ok(()));
    editor.changed();
    assert_eq!(editor.revision, 1);
    assert!(editor.format_valid.is_none());
    assert!(editor.preview_is_stale());
    assert_eq!(editor.result_revision, Some(0));
}

#[test]
fn stale_worker_result_does_not_replace_current_validation() {
    let mut editor = tracker();
    editor.revision = 2;
    editor.format_valid = Some(Ok(()));
    editor.waiting = true;
    editor.receive(WorkerEvent::Update {
        revision: 1,
        format_valid: Err("stale".into()),
        preview: None,
    });
    assert!(matches!(editor.format_valid, Some(Ok(()))));
    assert!(!editor.waiting);
}

#[test]
fn fresh_preview_is_current_until_the_next_edit() {
    let mut editor = tracker();
    assert!(!editor.should_start(false));
    assert!(editor.should_start(true));
    let revision = editor.start();
    assert!(!editor.should_start(true));
    editor.receive(WorkerEvent::Update { revision, format_valid: Ok(()), preview: Some("rows") });
    assert!(!editor.preview_is_stale());
    assert_eq!(editor.preview, Some("rows"));
    editor.changed();
    assert!(editor.preview_is_stale());
    assert_eq!(editor.preview, Some("rows"));
}

#[test]
fn vanished_worker_reports_an_error() {
    let mut editor = tracker();
    editor.waiting = true;
    editor.receive(WorkerEvent::Stopped);
    assert_eq!(editor.format_valid, Some(Err("preview worker stopped".to_string())));
    assert!(!editor.waiting);
}

#[test]
fn preview_sample_is_cut_at_a_character_boundary() {
    assert_eq!(preview_sample("abcdef", 3), "abcd");
    assert_eq!(preview_sample("ab", 3), "ab");
    assert_eq!(preview_sample("aé", 1), "a");
    assert_eq!(preview_name("  "), "Preview");
    assert_eq!(preview_name("Mine"), "Mine");
}

#[test]
fn legacy_conversion_creates_a_new_schema_three_draft() {
    assert_eq!(legacy_conversion_check(3, 3, false, Some("{time} [{worker}] {log}")), Ok(()));
    assert_eq!(converted_name("Old console"), "Old console (schema 3)");
}

#[test]
fn legacy_conversion_keeps_captured_ignore_legacy() {
    assert!(legacy_conversion_check(3, 3, false, Some("{time} [{ignore}] {log}")).is_err());
    assert!(legacy_conversion_check(2, 3, false, Some("{time}")).is_err());
    assert!(legacy_conversion_check(3, 3, true, Some("{time}")).is_err());
    assert!(legacy_conversion_check(3, 3, false, None).is_err());
}

#[test]
fn dismissing_the_completion_list_reports_whether_it_was_open() {
    let mut editor = tracker();
    editor.completion_open = true;
    assert!(editor.dismiss_completion());
    assert!(!editor.completion_open);
    assert!(!editor.dismiss_completion());
}

#[test]
fn a_new_editor_starts_closed_on_the_default_sample() {
    let editor = tracker();
    assert!(!editor.open);
    assert_eq!(editor.profile, "Console");
    assert_eq!(editor.sample, DEFAULT_SAMPLE);
    assert!(editor.sample.contains("MyApp[12345:9]"));
    assert!(editor.preview_is_stale());
    assert!(editor.apply_target.is_none());
}

#[test]
fn selecting_a_profile_or_sample_records_an_edit() {
    let mut editor = tracker();
    editor.message = Some("saved".to_string());
    editor.select_profile("Other");
    assert_eq!(editor.profile, "Other");
    assert!(editor.message.is_none());
    assert_eq!(editor.revision, 1);
    editor.set_sample("line\n".to_string());
    assert_eq!(editor.sample, "line\n");
    assert_eq!(editor.revision, 2);
    editor.bind_apply_target(Some(7));
    assert_eq!(editor.apply_target, Some(7));
    assert_eq!(editor.revision, 2);
}

#[test]
fn apply_goes_only_to_the_document_that_opened_the_draft() {
    let mut editor = tracker();
    assert!(!editor.apply_target_is_active(Some(&3)));
    editor.bind_apply_target(Some(3));
    assert!(editor.apply_target_is_active(Some(&3)));
    assert!(!editor.apply_target_is_active(Some(&4)));
    assert!(!editor.apply_target_is_active(None));
    assert!(APPLY_TARGET_INACTIVE.contains("no longer active"));
}

fn preset(id: &str, name: &str, revision: u64, body: u32) -> Preset<u32> {
    Preset { id: id.to_string(), name: name.to_string(), revision, body }
}

#[test]
fn saving_a_new_format_appends_it() {
    let mut presets = vec![preset("user:1", "Console", 0, 1)];
    assert_eq!(save_preset(&mut presets, preset("user:2", "Server", 0, 2)), Ok(1));
    assert_eq!(presets.len(), 2);
    assert_eq!(presets[1].name, "Server");
    assert_eq!(presets[1].body, 2);
}

#[test]
fn saving_an_existing_format_replaces_it_one_revision_later() {
    let mut presets = vec![preset("user:1", "Console", 4, 1), preset("user:2", "Server", 0, 2)];
    assert_eq!(save_preset(&mut presets, preset("user:1", "console", 0, 9)), Ok(0));
    assert_eq!(presets.len(), 2);
    assert_eq!(presets[0].revision, 5);
    assert_eq!(presets[0].name, "console");
    assert_eq!(presets[0].body, 9);
    let mut full = vec![preset("user:1", "Console", u64::MAX, 1)];
    assert_eq!(save_preset(&mut full, preset("user:1", "Console", 0, 1)), Ok(0));
    assert_eq!(full[0].revision, u64::MAX);
}

#[test]
fn saving_under_another_formats_name_is_refused() {
    let mut presets = vec![preset("user:1", "Console", 0, 1)];
    assert_eq!(save_preset(&mut presets, preset("user:2", "CONSOLE", 0, 2)), Err(NAME_TAKEN));
    assert_eq!(presets.len(), 1);
    assert_eq!(presets[0].body, 1);
    assert_eq!(save_preset(&mut presets, preset("user:2", "Cönsole", 0, 2)), Ok(1));
}

#[test]
fn timestamp_and_field_kind_labels() {
    assert_eq!(timestamp_label(&TimestampSelection::Auto), "Auto");
    assert_eq!(timestamp_label(&TimestampSelection::Timeless), "None (timeless)");
    assert_eq!(timestamp_label(&TimestampSelection::BuiltIn("ISO 8601".to_string())), "ISO 8601");
    assert_eq!(timestamp_label(&TimestampSelection::Custom("mine".to_string())), "Custom: mine");
    assert_eq!(field_kind_label(CustomFieldKind::Token), "Token");
    assert_eq!(field_kind_label(CustomFieldKind::Integer), "Integer");
    assert_eq!(field_kind_label(CustomFieldKind::DelimitedText), "Delimited text");
}

#[test]
fn saved_formats_stay_distinct_by_identity_and_name() {
    let mut presets: Vec<Preset<u32>> = Vec::new();
    let attempts = [
        preset("user:1", "Console", 0, 1),
        preset("user:2", "console", 0, 2),
        preset("user:2", "Server", 0, 2),
        preset("user:1", "SERVER", 0, 3),
        preset("user:1", "Console v2", 0, 4),
        preset("user:3", "console V2", 0, 5),
    ];
    for attempt in attempts {
        let _ = save_preset(&mut presets, attempt);
    }
    for i in 0..presets.len() {
        for j in 0..presets.len() {
            if i != j {
                assert_ne!(presets[i].id, presets[j].id);
                assert!(!presets[i].name.eq_ignore_ascii_case(&presets[j].name));
            }
        }
    }
    assert_eq!(presets.len(), 2);
    assert_eq!(presets[0].name, "Console v2");
    assert_eq!(presets[0].revision, 1);
}
