use haystack_ui::completion::{at_cursor, completion_key_step, insert, CompletionKey};

#[test]
fn completes_type_without_destroying_unicode_prefix_or_existing_brace() {
    let mut layout = "日志 {time} {worker:nu} {log}".to_string();
    let position = "日志 {time} {worker:nu".chars().count();
    let completion = at_cursor(&layout, position).unwrap();
    assert_eq!(completion.choices, vec!["number"]);
    let cursor = insert(&mut layout, &completion, "number");
    assert_eq!(layout, "日志 {time} {worker:number} {log}");
    assert_eq!(cursor, "日志 {time} {worker:number}".chars().count());
}

#[test]
fn custom_names_are_allowed_without_completion() {
    let layout = "{time} {request_id";
    let completion = at_cursor(layout, layout.chars().count()).unwrap();
    assert!(completion.choices.is_empty());
}

#[test]
fn completion_replaces_the_full_token_after_the_caret() {
    let mut layout = "{time} {proXcess} {log}".to_string();
    let position = "{time} {pro".chars().count();
    let completion = at_cursor(&layout, position).unwrap();
    assert_eq!(completion.choices, vec!["process"]);
    let cursor = insert(&mut layout, &completion, "process");
    assert_eq!(layout, "{time} {process} {log}");
    assert_eq!(cursor, "{time} {process}".chars().count());
}

#[test]
fn completion_replaces_a_type_without_discarding_the_field_name() {
    let mut layout = "{time} {worker:nuMber} {log}".to_string();
    let position = "{time} {worker:nu".chars().count();
    let completion = at_cursor(&layout, position).unwrap();
    assert_eq!(completion.choices, vec!["number"]);
    insert(&mut layout, &completion, "number");
    assert_eq!(layout, "{time} {worker:number} {log}");
}

#[test]
fn no_completion_outside_a_placeholder_or_after_an_escaped_brace() {
    assert!(at_cursor("plain text", 3).is_none());
    assert!(at_cursor("{time} rest", 8).is_none());
    assert!(at_cursor("{{time", 3).is_none());
}

#[test]
fn completion_keys_move_the_selection_and_accept() {
    assert_eq!(completion_key_step(0, 3, Some(CompletionKey::Next)), (1, None));
    assert_eq!(completion_key_step(2, 3, Some(CompletionKey::Next)), (0, None));
    assert_eq!(completion_key_step(0, 3, Some(CompletionKey::Previous)), (2, None));
    assert_eq!(completion_key_step(1, 3, Some(CompletionKey::Previous)), (0, None));
    assert_eq!(completion_key_step(1, 3, Some(CompletionKey::Accept)), (1, Some(1)));
    assert_eq!(completion_key_step(7, 3, Some(CompletionKey::Accept)), (7, Some(2)));
    assert_eq!(completion_key_step(1, 3, None), (1, None));
}

#[test]
fn no_completion_outside_an_open_placeholder() {
    assert!(at_cursor("{time} {log}", 6).is_none());
    assert!(at_cursor("{{time", 6).is_none());
    assert!(at_cursor("plain text", 3).is_none());
    let completion = at_cursor("{ti}", 3).unwrap();
    assert_eq!(completion.replace, 1..3);
    assert_eq!(completion.choices, vec!["time"]);
}
