use haystack_ui::format_preview::LineClass::{Continuation, Header, Unassigned};
use haystack_ui::format_preview::{
    count_records, field_type, ignored_note, line_classes, preview_summary, NO_RECORDS,
};

#[test]
fn a_preview_without_records_says_so() {
    assert_eq!(preview_summary(&[]), NO_RECORDS);
    assert_eq!(preview_summary(&[false, false]), NO_RECORDS);
    assert_eq!(count_records(&[false, true, true]), 2);
}

#[test]
fn the_summary_counts_records_and_continuations_with_plurals() {
    assert_eq!(preview_summary(&[true]), "Sample matched · 1 record · 0 continuations");
    assert_eq!(preview_summary(&[true, false]), "Sample matched · 1 record · 1 continuation");
    assert_eq!(
        preview_summary(&[false, true, false, true, false, false]),
        "Sample matched · 2 records · 4 continuations"
    );
}

#[test]
fn lines_before_the_first_record_are_unassigned() {
    assert_eq!(
        line_classes(&[false, true, false, true, false]),
        vec![Unassigned, Header, Continuation, Header, Continuation]
    );
    assert_eq!(line_classes(&[]), vec![]);
}

#[test]
fn a_field_without_a_known_type_shows_token() {
    let types = vec![("count".to_string(), "number"), ("count".to_string(), "text"), ("src".to_string(), "path")];
    assert_eq!(field_type(&types, "count"), "number");
    assert_eq!(field_type(&types, "src"), "path");
    assert_eq!(field_type(&types, "level"), "token");
    assert_eq!(field_type(&[], "level"), "token");
}

#[test]
fn the_ignored_values_note_counts_them() {
    assert_eq!(ignored_note(0), None);
    assert_eq!(
        ignored_note(1),
        Some("1 ignored header value matched. They are used only to recognize headers.".to_string())
    );
    assert_eq!(
        ignored_note(12),
        Some("12 ignored header values matched. They are used only to recognize headers.".to_string())
    );
}
