use std::sync::Arc;

use haystack_ui::template::{
    nearest_occurrence, next_row_position, occurrence_step_target, template_jump_target,
    templates_csv, TemplateBrowserState, TemplateDocument, TemplateInfo, TemplateSort,
};

#[test]
fn nearest_occurrence_prefers_the_closest_template_line() {
    let lines = [10, 40, 90];
    assert_eq!(nearest_occurrence(&lines, 0), Some(10));
    assert_eq!(nearest_occurrence(&lines, 36), Some(40));
    assert_eq!(nearest_occurrence(&lines, 70), Some(90));
    assert_eq!(nearest_occurrence(&lines, 200), Some(90));
}

#[test]
fn nearest_occurrence_prefers_the_earlier_line_on_a_tie() {
    assert_eq!(nearest_occurrence(&[10, 20], 15), Some(10));
    assert_eq!(nearest_occurrence(&[], 15), None);
}

fn template(id: u32, count: usize, example_line: usize, pattern: &str) -> TemplateInfo {
    TemplateInfo { id, count, example_line, pattern: pattern.to_string() }
}

fn two_line_document() -> TemplateDocument {
    TemplateDocument {
        file_size: 64,
        trim_start: 0,
        trim_end: 2,
        templates: vec![template(1, 1, 0, "<TS> INFO alpha"), template(2, 1, 1, "<TS> ERROR beta")],
        line_templates: vec![1, 2],
    }
}

#[test]
fn visible_order_reuses_the_cached_allocation_until_query_changes() {
    let doc = two_line_document();
    let mut browser = TemplateBrowserState::default();
    browser.refresh(&doc);
    let first = browser.visible_order(&doc);
    let second = browser.visible_order(&doc);
    assert!(Arc::ptr_eq(&first, &second));
    browser.query = "beta".to_string();
    let filtered = browser.visible_order(&doc);
    assert!(!Arc::ptr_eq(&first, &filtered));
    assert_eq!(*filtered, vec![1]);
}

#[test]
fn refresh_collects_occurrences_and_flags() {
    let mut lines = vec![1u32; 20];
    lines[19] = 2;
    let doc = TemplateDocument {
        file_size: 1000,
        trim_start: 0,
        trim_end: 20,
        templates: vec![template(1, 19, 0, "a"), template(2, 1, 19, "b")],
        line_templates: lines,
    };
    let mut browser = TemplateBrowserState::default();
    browser.refresh(&doc);
    assert_eq!(browser.rows.len(), 2);
    let frequent = &browser.rows[0];
    assert_eq!(frequent.template_index, 0);
    assert_eq!(frequent.first_line, 0);
    assert_eq!(frequent.last_line, 18);
    assert_eq!(frequent.occurrences.len(), 19);
    assert!(!frequent.rare);
    assert!(!frequent.late);
    assert!(!frequent.bursty);
    let single = &browser.rows[1];
    assert_eq!(single.occurrences, vec![19]);
    assert!(single.rare);
    assert!(single.late);
    assert!(!single.bursty);
    // Sorted by count, most frequent first.
    assert_eq!(browser.order, vec![0, 1]);
}

#[test]
fn bursty_templates_have_half_their_lines_in_one_bucket() {
    let mut lines = vec![0u32; 1000];
    for line in 0..12 {
        lines[line] = 7;
    }
    let doc = TemplateDocument {
        file_size: 1,
        trim_start: 0,
        trim_end: 1000,
        templates: vec![template(0, 988, 20, "other"), template(7, 12, 0, "burst")],
        line_templates: lines,
    };
    let mut browser = TemplateBrowserState::default();
    browser.refresh(&doc);
    assert!(browser.rows[1].bursty);
    assert!(!browser.rows[0].bursty);
}

#[test]
fn sort_orders_follow_the_chosen_key_and_direction() {
    let doc = TemplateDocument {
        file_size: 1,
        trim_start: 0,
        trim_end: 5,
        templates: vec![template(5, 1, 4, "x"), template(3, 3, 0, "y"), template(9, 1, 1, "z")],
        line_templates: vec![3, 9, 3, 3, 5],
    };
    let mut browser = TemplateBrowserState::default();
    browser.refresh(&doc);
    assert_eq!(browser.order, vec![1, 0, 2]);
    browser.sort = TemplateSort::FirstSeen;
    browser.resort(&doc);
    assert_eq!(browser.order, vec![1, 2, 0]);
    browser.sort = TemplateSort::LastSeen;
    browser.resort(&doc);
    assert_eq!(browser.order, vec![0, 1, 2]);
    browser.sort = TemplateSort::Rarity;
    browser.resort(&doc);
    assert_eq!(browser.order, vec![0, 2, 1]);
    browser.descending = true;
    browser.resort(&doc);
    assert_eq!(browser.order, vec![1, 2, 0]);
}

#[test]
fn query_matches_ids_tagged_ids_and_patterns() {
    let doc = TemplateDocument {
        file_size: 2,
        trim_start: 0,
        trim_end: 3,
        templates: vec![template(12, 1, 0, "Disk FULL"), template(3, 1, 1, "net down"), template(40, 1, 2, "x")],
        line_templates: vec![12, 3, 40],
    };
    let mut browser = TemplateBrowserState::default();
    browser.refresh(&doc);
    browser.query = "  FULL ".to_string();
    assert_eq!(*browser.visible_order(&doc), vec![0]);
    browser.query = "t3".to_string();
    assert_eq!(*browser.visible_order(&doc), vec![1]);
    browser.query = "4".to_string();
    assert_eq!(*browser.visible_order(&doc), vec![2]);
    browser.query = String::new();
    assert_eq!(browser.visible_order(&doc).len(), 3);
    assert_eq!(browser.row_for_id(&doc, 3).map(|row| row.template_index), Some(1));
    assert!(browser.row_for_id(&doc, 99).is_none());
}

#[test]
fn refresh_is_skipped_while_the_document_is_unchanged() {
    let doc = two_line_document();
    let mut browser = TemplateBrowserState::default();
    browser.refresh(&doc);
    browser.rows.clear();
    browser.refresh(&doc);
    assert!(browser.rows.is_empty());
}

#[test]
fn selecting_a_template_jumps_to_the_occurrence_nearest_the_viewport() {
    let occurrences = [5, 50, 95];
    assert_eq!(template_jump_target(&occurrences, Some((40, 70)), Some(90), 0), 50);
    assert_eq!(template_jump_target(&occurrences, None, Some(90), 0), 95);
    assert_eq!(template_jump_target(&occurrences, None, None, 7), 5);
    assert_eq!(template_jump_target(&[], None, None, 7), 7);
}

#[test]
fn occurrence_navigation_steps_and_wraps() {
    let lines = [3, 8, 20];
    assert_eq!(occurrence_step_target(&lines, Some(8), true), Some(20));
    assert_eq!(occurrence_step_target(&lines, Some(20), true), Some(3));
    assert_eq!(occurrence_step_target(&lines, Some(20), false), Some(8));
    assert_eq!(occurrence_step_target(&lines, Some(3), false), Some(3));
    assert_eq!(occurrence_step_target(&lines, None, true), Some(8));
    assert_eq!(occurrence_step_target(&[], Some(1), true), None);
}

#[test]
fn arrow_keys_move_the_selection_between_visible_rows() {
    let ids = [4, 9, 2];
    assert_eq!(next_row_position(&ids, 9, true), Some(2));
    assert_eq!(next_row_position(&ids, 2, true), Some(2));
    assert_eq!(next_row_position(&ids, 4, false), Some(0));
    assert_eq!(next_row_position(&ids, 9, false), Some(0));
    assert_eq!(next_row_position(&ids, 7, true), None);
}

#[test]
fn template_export_is_csv_with_quoted_patterns() {
    let doc = TemplateDocument {
        file_size: 1,
        trim_start: 10,
        trim_end: 12,
        templates: vec![template(1, 2, 0, "say \"hi\""), template(2, 5, 1, "plain")],
        line_templates: vec![1, 2],
    };
    assert_eq!(
        templates_csv(&doc),
        "template_id,count,example_line,pattern\n1,2,11,\"say \"\"hi\"\"\"\n2,5,12,\"plain\"\n"
    );
}

#[test]
fn sort_labels() {
    let labels: Vec<&str> = TemplateSort::all().iter().map(|sort| sort.label()).collect();
    assert_eq!(labels, vec!["Count", "First seen", "Last seen", "Rarity"]);
    assert_eq!(TemplateSort::default(), TemplateSort::Count);
}
