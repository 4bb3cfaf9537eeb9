use haystack_ui::highlight::{
    display_source_len, display_source_len_for_mode, display_text, display_text_for_mode,
    embedded_ranges_for_line, layer_spans, line_highlight_spans, source_ranges_for_line, HighlightKind,
    LineDisplayMode, SourcePos, SourceSpan, MAX_DISPLAY_BYTES,
};
use haystack_ui::occurrence::{format_human_duration_ms, occurrence_time_tooltip, relative_occurrence_text};
use haystack_ui::lines::{
    context_text, current_view_text, lines_text, timeline_range_text, LogLines, TimelineDomain,
};

#[test]
fn occurrence_tooltip_uses_human_time_before_and_after_the_source() {
    assert_eq!(
        relative_occurrence_text(Some(90_000), Some(0), 20, 10),
        "1m 30sec ago"
    );
    assert_eq!(
        relative_occurrence_text(Some(0), Some(4_260_000), 10, 20),
        "after 1h 11m"
    );
}

#[test]
fn occurrence_tooltip_falls_back_to_source_line_distance_without_times() {
    assert_eq!(relative_occurrence_text(None, None, 20, 10), "10 lines ago");
    assert_eq!(
        relative_occurrence_text(None, None, 10, 20),
        "after 10 lines"
    );
}

#[test]
fn occurrence_text_edge_cases() {
    assert_eq!(relative_occurrence_text(Some(5), Some(5), 1, 2), "at the same time");
    assert_eq!(relative_occurrence_text(Some(5), None, 4, 4), "selected source line");
    assert_eq!(relative_occurrence_text(Some(0), Some(250), 1, 2), "after 250ms");
    assert_eq!(relative_occurrence_text(Some(3_600_000), Some(0), 2, 1), "1h ago");
    assert_eq!(relative_occurrence_text(Some(0), Some(120_000), 1, 2), "after 2m");
}

#[test]
fn durations_read_in_human_units() {
    assert_eq!(format_human_duration_ms(-5), "0ms");
    assert_eq!(format_human_duration_ms(999), "999ms");
    assert_eq!(format_human_duration_ms(1_000), "1.0sec");
    assert_eq!(format_human_duration_ms(1_250), "1.2sec");
    assert_eq!(format_human_duration_ms(59_999), "60.0sec");
    assert_eq!(format_human_duration_ms(61_000), "1m 1sec");
    assert_eq!(format_human_duration_ms(7_200_000), "2h");
}

#[test]
fn seconds_match_one_decimal_float_formatting() {
    for ms in 1_000i64..60_000 {
        let expected = format!("{:.1}sec", ms as f64 / 1_000.0);
        assert_eq!(format_human_duration_ms(ms), expected, "for {ms} ms");
    }
}

fn document() -> LogLines {
    LogLines {
        trim_start: 0,
        lines: vec![
            "2026-07-19T10:00:00.000Z INFO alpha".to_string(),
            "".to_string(),
            "2026-07-19T10:00:02.000Z   WARN beta".to_string(),
        ],
        timestamps: vec![Some(0..24), None, Some(0..24)],
        times: vec![Some(1_000), None, Some(3_000)],
    }
}

#[test]
fn copy_rows_can_strip_timestamp_and_include_source_line_numbers() {
    let doc = document();
    assert_eq!(lines_text(&doc, 0, 0, false, true), "INFO alpha");
    assert_eq!(lines_text(&doc, 0, 0, true, false), "1: 2026-07-19T10:00:00.000Z INFO alpha");
}

#[test]
fn copied_ranges_skip_separators_until_text_is_written() {
    let mut doc = document();
    doc.lines.swap(0, 1);
    doc.timestamps.swap(0, 1);
    assert_eq!(lines_text(&doc, 0, 2, false, true), "INFO alpha\nWARN beta");
    assert_eq!(lines_text(&doc, 1, 99, false, false).lines().count(), 2);
    assert_eq!(lines_text(&doc, 5, 9, false, false), "");
}

#[test]
fn occurrence_context_groups_rows_around_the_selection() {
    let mut doc = document();
    doc.trim_start = 100;
    assert_eq!(
        context_text(&doc, &[0], 1, &[2]),
        "101: 2026-07-19T10:00:00.000Z INFO alpha\n\n102: \n\n103: 2026-07-19T10:00:02.000Z   WARN beta"
    );
    assert_eq!(context_text(&doc, &[], 1, &[]), "102: ");
    assert_eq!(occurrence_time_tooltip(&doc, 2, 0), "2.0sec ago");
    assert_eq!(occurrence_time_tooltip(&doc, 1, 0), "1 lines ago");
}

#[test]
fn timeline_zoom_text_follows_the_domain() {
    let doc = document();
    assert_eq!(
        timeline_range_text(&doc, Some((1, 7)), TimelineDomain::Sequence),
        "\n2026-07-19T10:00:02.000Z   WARN beta"
    );
    assert_eq!(
        timeline_range_text(&doc, Some((2_000, 3_000)), TimelineDomain::Time),
        "2026-07-19T10:00:02.000Z   WARN beta"
    );
    assert_eq!(timeline_range_text(&doc, None, TimelineDomain::Time), "");
}

#[test]
fn display_text_truncates_at_a_utf8_boundary() {
    let line = format!("{}é trailing", "a".repeat(MAX_DISPLAY_BYTES - 1));
    let shown = display_text(&line);

    assert!(shown.contains("truncated"));
    assert!(shown.starts_with(&"a".repeat(MAX_DISPLAY_BYTES - 1)));
    assert!(!shown.contains("é trailing"));
    assert_eq!(display_source_len(&line), MAX_DISPLAY_BYTES - 1);
}

#[test]
fn full_line_modes_do_not_apply_the_display_byte_cap() {
    let line = format!("{}needle", "x".repeat(MAX_DISPLAY_BYTES + 20));
    assert!(display_text(&line).contains("truncated"));
    assert_eq!(
        display_text_for_mode(&line, LineDisplayMode::HorizontalScroll),
        line
    );
    assert_eq!(display_text_for_mode(&line, LineDisplayMode::Wrap), line);
    assert_eq!(display_source_len_for_mode(&line, LineDisplayMode::Wrap), line.len());
}

#[test]
fn truncation_note_gives_the_full_length() {
    let line = "z".repeat(MAX_DISPLAY_BYTES + 1);
    assert_eq!(
        display_text(&line),
        format!("{}  …[{} bytes total, truncated]", "z".repeat(MAX_DISPLAY_BYTES), MAX_DISPLAY_BYTES + 1)
    );
    assert_eq!(display_text("short"), "short");
}

fn span(start: (usize, usize), end: (usize, usize)) -> SourceSpan {
    SourceSpan {
        start: SourcePos { line: start.0, byte: start.1 },
        end: SourcePos { line: end.0, byte: end.1 },
    }
}

#[test]
fn source_spans_are_clipped_to_the_shown_part_of_a_line() {
    let spans = [span((4, 3), (4, 9)), span((2, 5), (6, 1)), span((5, 0), (5, 4))];
    assert_eq!(source_ranges_for_line(&spans, 4, 7), vec![3..7, 0..7]);
    assert_eq!(source_ranges_for_line(&spans, 6, 7), vec![0..1]);
    assert!(source_ranges_for_line(&spans, 9, 7).is_empty());
    let detections = vec![spans[..1].to_vec(), spans[1..].to_vec()];
    assert_eq!(embedded_ranges_for_line(1, &detections, 3, 7), vec![3..7, 0..7]);
}

#[test]
fn earlier_highlight_requests_win_overlapping_bytes() {
    let requests = vec![
        ((2, 5), HighlightKind::Search),
        ((0, 8), HighlightKind::Filter(0)),
        ((6, 10), HighlightKind::Keyword),
    ];
    let spans = layer_spans(&requests);
    assert_eq!(
        spans,
        vec![
            ((0, 2), HighlightKind::Filter(0)),
            ((2, 5), HighlightKind::Search),
            ((5, 8), HighlightKind::Filter(0)),
            ((8, 10), HighlightKind::Keyword),
        ]
    );
}

#[test]
fn current_view_export_lists_the_visible_rows_or_every_row() {
    let doc = document();
    assert_eq!(
        current_view_text(&doc, None),
        "2026-07-19T10:00:00.000Z INFO alpha\n\n2026-07-19T10:00:02.000Z   WARN beta"
    );
    assert_eq!(
        current_view_text(&doc, Some(&[0, 1, 2])),
        "2026-07-19T10:00:00.000Z INFO alpha\n\n2026-07-19T10:00:02.000Z   WARN beta"
    );
    assert_eq!(current_view_text(&doc, Some(&[2])), "2026-07-19T10:00:02.000Z   WARN beta");
    // A leading empty row still takes its line in a filtered export.
    assert_eq!(current_view_text(&doc, Some(&[1, 2])), "\n2026-07-19T10:00:02.000Z   WARN beta");
    assert_eq!(current_view_text(&doc, Some(&[])), "");
    let empty = LogLines { trim_start: 0, lines: vec![], timestamps: vec![], times: vec![] };
    assert_eq!(current_view_text(&empty, None), "");
}

#[test]
fn white_space_is_the_unicode_white_space_property() {
    for code in 0..=0x10FFFFu32 {
        if let Some(c) = char::from_u32(code) {
            assert_eq!(haystack_ui::text::is_whitespace(c), c.is_whitespace(), "U+{code:04X}");
        }
    }
}

#[test]
fn keyword_hits_of_the_automaton_win_over_filter_hits() {
    let ac = aho_corasick::AhoCorasick::new(["error"]).unwrap();
    let filters = vec![(0usize, (0usize, 13usize))];
    let spans = line_highlight_spans("an error here", false, None, None, Some(&ac), Some(&filters), &vec![]);
    assert_eq!(
        spans,
        vec![
            ((0, 3), HighlightKind::Filter(0)),
            ((3, 8), HighlightKind::Keyword),
            ((8, 13), HighlightKind::Filter(0)),
        ]
    );
    let without = line_highlight_spans("an error here", false, None, None, None, Some(&filters), &vec![]);
    assert_eq!(without, vec![((0, 13), HighlightKind::Filter(0))]);
}
