use haystack_ui::presentation::{
    inspector_mode_for, inspector_mode_for_open, presentation, EmbeddedInspectorMode,
};

#[test]
fn visualization_badge_is_base64() {
    let p = presentation("base64");
    assert_eq!(p.badge, "B64");
    assert!(p.explicit_decode);
}

#[test]
fn visualization_badge_is_fields() {
    let p = presentation("fields");
    assert_eq!(p.badge, "FIELDS");
    assert_eq!(p.primary_tab, "Tree");
}

#[test]
fn visualization_badge_is_apple() {
    let p = presentation("foundation");
    assert_eq!(p.badge, "APPLE");
    assert_eq!(p.title, "Swift / Foundation value");
    assert_eq!(p.primary_tab, "Tree");
}

#[test]
fn visualization_badge_is_hex() {
    let p = presentation("hex");
    assert_eq!(p.badge, "HEX");
    assert!(p.explicit_decode);
}

#[test]
fn visualization_badge_is_http() {
    let p = presentation("http");
    assert_eq!(p.badge, "HTTP");
    assert_eq!(p.primary_tab, "Tree");
}

#[test]
fn visualization_badge_is_json() {
    let p = presentation("json");
    assert_eq!(p.badge, "JSON");
    assert_eq!(p.primary_tab, "Tree");
}

#[test]
fn visualization_badge_is_jvm() {
    let p = presentation("jvm-debug");
    assert_eq!(p.badge, "JVM");
    assert_eq!(p.primary_tab, "Tree");
}

#[test]
fn visualization_badge_is_jwt() {
    let p = presentation("jwt");
    assert_eq!(p.badge, "JWT");
    assert!(p.explicit_decode);
}

#[test]
fn visualization_badge_is_kv() {
    let p = presentation("logfmt");
    assert_eq!(p.badge, "KV");
    assert_eq!(p.primary_tab, "Tree");
}

#[test]
fn visualization_badge_is_pem() {
    let p = presentation("pem");
    assert_eq!(p.badge, "PEM");
    assert!(p.explicit_decode);
}

#[test]
fn plist_presentations_separate_structured_and_binary_values() {
    let plist = presentation("plist");
    let binary = presentation("binary-plist");
    assert_eq!(plist.badge, "PLIST");
    assert!(!plist.explicit_decode);
    assert_eq!(binary.badge, "BPLIST");
    assert_eq!(binary.primary_tab, "Summary");
    assert!(binary.explicit_decode);
}

#[test]
fn visualization_badge_is_proto() {
    let p = presentation("protobuf-text");
    assert_eq!(p.badge, "PROTO");
    assert_eq!(p.primary_tab, "Tree");
}

#[test]
fn visualization_badge_is_python() {
    let p = presentation("python");
    assert_eq!(p.badge, "PY");
    assert_eq!(p.primary_tab, "Tree");
}

#[test]
fn visualization_badge_is_trace() {
    let p = presentation("stacktrace");
    assert_eq!(p.badge, "TRACE");
    assert_eq!(p.primary_tab, "Frames");
}

#[test]
fn unknown_detector_gets_the_generic_profile() {
    let p = presentation("something-else");
    assert_eq!(p.badge, "DATA");
    assert_eq!(p.title, "Embedded data");
    assert_eq!(p.primary_tab, "Tree");
    assert!(!p.explicit_decode);
}

#[test]
fn inspector_keeps_user_tab_for_next_payload() {
    assert_eq!(
        EmbeddedInspectorMode::default(),
        EmbeddedInspectorMode::Pretty
    );
    assert_eq!(
        inspector_mode_for_open(EmbeddedInspectorMode::Tree, EmbeddedInspectorMode::Tree),
        EmbeddedInspectorMode::Tree
    );
    assert_eq!(
        inspector_mode_for_open(EmbeddedInspectorMode::Raw, EmbeddedInspectorMode::Tree),
        EmbeddedInspectorMode::Raw
    );
    assert_eq!(
        inspector_mode_for_open(EmbeddedInspectorMode::Pretty, EmbeddedInspectorMode::Frames),
        EmbeddedInspectorMode::Frames
    );
    assert_eq!(
        inspector_mode_for_open(EmbeddedInspectorMode::Decoded, EmbeddedInspectorMode::Tree),
        EmbeddedInspectorMode::Pretty
    );
}

#[test]
fn inspector_opens_on_the_detector_primary_tab() {
    assert_eq!(inspector_mode_for("stacktrace"), EmbeddedInspectorMode::Frames);
    assert_eq!(inspector_mode_for("jwt"), EmbeddedInspectorMode::Summary);
    assert_eq!(inspector_mode_for("binary-plist"), EmbeddedInspectorMode::Summary);
    assert_eq!(inspector_mode_for("json"), EmbeddedInspectorMode::Tree);
    assert_eq!(inspector_mode_for("unknown"), EmbeddedInspectorMode::Tree);
    assert_eq!(
        inspector_mode_for_open(EmbeddedInspectorMode::Summary, EmbeddedInspectorMode::Tree),
        EmbeddedInspectorMode::Pretty
    );
}
