//! How each kind of embedded data is presented: badge, title, the inspector
//! tab it opens on, and whether decoding waits for an explicit action.

use vstd::prelude::*;

use crate::text::str_eq;

verus! {

/// The presentation profile of one embedded-data detector.
#[derive(Clone, Copy, Debug, PartialEq, Eq)]
pub struct Presentation {
    pub badge: &'static str,
    pub title: &'static str,
    pub primary_tab: &'static str,
    pub explicit_decode: bool,
}

impl View for Presentation {
    type V = (Seq<char>, Seq<char>, Seq<char>, bool);

    open spec fn view(&self) -> Self::V {
        (self.badge@, self.title@, self.primary_tab@, self.explicit_decode)
    }
}

/// The profile registered for a detector id; unknown ids get the generic
/// "embedded data" profile.
pub open spec fn presentation_for(id: Seq<char>) -> (Seq<char>, Seq<char>, Seq<char>, bool) {
    if id == "json"@ {
        ("JSON"@, "Embedded JSON"@, "Tree"@, false)
    } else if id == "jwt"@ {
        ("JWT"@, "JSON Web Token"@, "Summary"@, true)
    } else if id == "base64"@ {
        ("B64"@, "Base64 payload"@, "Summary"@, true)
    } else if id == "hex"@ {
        ("HEX"@, "Hex payload"@, "Summary"@, true)
    } else if id == "pem"@ {
        ("PEM"@, "PEM certificate or key"@, "Summary"@, true)
    } else if id == "logfmt"@ {
        ("KV"@, "Embedded logfmt"@, "Tree"@, false)
    } else if id == "fields"@ {
        ("FIELDS"@, "Embedded fields"@, "Tree"@, false)
    } else if id == "foundation"@ {
        ("APPLE"@, "Swift / Foundation value"@, "Tree"@, false)
    } else if id == "python"@ {
        ("PY"@, "Python literal"@, "Tree"@, false)
    } else if id == "jvm-debug"@ {
        ("JVM"@, "JVM debug value"@, "Tree"@, false)
    } else if id == "http"@ {
        ("HTTP"@, "HTTP structure"@, "Tree"@, false)
    } else if id == "protobuf-text"@ {
        ("PROTO"@, "Protobuf text"@, "Tree"@, false)
    } else if id == "stacktrace"@ {
        ("TRACE"@, "Stack trace"@, "Frames"@, false)
    } else if id == "plist"@ {
        ("PLIST"@, "Property list"@, "Tree"@, false)
    } else if id == "binary-plist"@ {
        ("BPLIST"@, "Binary property list"@, "Summary"@, true)
    } else {
        ("DATA"@, "Embedded data"@, "Tree"@, false)
    }
}

fn profile(badge: &'static str, title: &'static str, primary_tab: &'static str, explicit_decode: bool) -> (p: Presentation)
    ensures
        p.badge == badge,
        p.title == title,
        p.primary_tab == primary_tab,
        p.explicit_decode == explicit_decode,
{
    Presentation { badge, title, primary_tab, explicit_decode }
}

/// Looks up the presentation profile of a detector.
pub fn for_detector(detector_id: &str) -> (p: Presentation)
    ensures
        p@ == presentation_for(detector_id@),
{
    if str_eq(detector_id, "json") {
        profile("JSON", "Embedded JSON", "Tree", false)
    } else if str_eq(detector_id, "jwt") {
        profile("JWT", "JSON Web Token", "Summary", true)
    } else if str_eq(detector_id, "base64") {
        profile("B64", "Base64 payload", "Summary", true)
    } else if str_eq(detector_id, "hex") {
        profile("HEX", "Hex payload", "Summary", true)
    } else if str_eq(detector_id, "pem") {
        profile("PEM", "PEM certificate or key", "Summary", true)
    } else if str_eq(detector_id, "logfmt") {
        profile("KV", "Embedded logfmt", "Tree", false)
    } else if str_eq(detector_id, "fields") {
        profile("FIELDS", "Embedded fields", "Tree", false)
    } else if str_eq(detector_id, "foundation") {
        profile("APPLE", "Swift / Foundation value", "Tree", false)
    } else if str_eq(detector_id, "python") {
        profile("PY", "Python literal", "Tree", false)
    } else if str_eq(detector_id, "jvm-debug") {
        profile("JVM", "JVM debug value", "Tree", false)
    } else if str_eq(detector_id, "http") {
        profile("HTTP", "HTTP structure", "Tree", false)
    } else if str_eq(detector_id, "protobuf-text") {
        profile("PROTO", "Protobuf text", "Tree", false)
    } else if str_eq(detector_id, "stacktrace") {
        profile("TRACE", "Stack trace", "Frames", false)
    } else if str_eq(detector_id, "plist") {
        profile("PLIST", "Property list", "Tree", false)
    } else if str_eq(detector_id, "binary-plist") {
        profile("BPLIST", "Binary property list", "Summary", true)
    } else {
        profile("DATA", "Embedded data", "Tree", false)
    }
}

/// The presentation profile of a detector (public entry point).
pub fn presentation(detector_id: &str) -> (p: Presentation)
    ensures
        p@ == presentation_for(detector_id@),
{
    for_detector(detector_id)
}


/// The tab the embedded-data inspector shows.
#[derive(Clone, Copy, Debug, PartialEq, Eq, Structural)]
pub enum EmbeddedInspectorMode {
    Pretty,
    Tree,
    Raw,
    Frames,
    Summary,
    Decoded,
}

impl Default for EmbeddedInspectorMode {
    fn default() -> (mode: EmbeddedInspectorMode)
        ensures
            mode == EmbeddedInspectorMode::Pretty,
    {
        EmbeddedInspectorMode::Pretty
    }
}

/// The inspector tab a detector's payload opens on: its primary tab when
/// that is Frames or Summary, Tree otherwise.
pub open spec fn detector_mode(id: Seq<char>) -> EmbeddedInspectorMode {
    let primary = presentation_for(id).2;
    if primary == "Frames"@ {
        EmbeddedInspectorMode::Frames
    } else if primary == "Summary"@ {
        EmbeddedInspectorMode::Summary
    } else {
        EmbeddedInspectorMode::Tree
    }
}

/// The inspector tab a detector's payload opens on.
pub fn inspector_mode_for(detector_id: &str) -> (mode: EmbeddedInspectorMode)
    ensures
        mode == detector_mode(detector_id@),
{
    let primary = presentation(detector_id).primary_tab;
    if str_eq(primary, "Frames") {
        EmbeddedInspectorMode::Frames
    } else if str_eq(primary, "Summary") {
        EmbeddedInspectorMode::Summary
    } else {
        EmbeddedInspectorMode::Tree
    }
}

/// The tab the inspector uses for the next payload: the detector's own
/// Frames or Summary tab when it has one; otherwise the user's current tab,
/// except that a Frames, Summary or Decoded tab (which belong to another
/// payload) falls back to Pretty.
pub fn inspector_mode_for_open(
    current: EmbeddedInspectorMode,
    detector_mode: EmbeddedInspectorMode,
) -> (mode: EmbeddedInspectorMode)
    ensures
        mode == if detector_mode == EmbeddedInspectorMode::Frames || detector_mode == EmbeddedInspectorMode::Summary {
            detector_mode
        } else if current == EmbeddedInspectorMode::Frames || current == EmbeddedInspectorMode::Summary
            || current == EmbeddedInspectorMode::Decoded {
            EmbeddedInspectorMode::Pretty
        } else {
            current
        },
{
    match detector_mode {
        EmbeddedInspectorMode::Frames | EmbeddedInspectorMode::Summary => detector_mode,
        _ => match current {
            EmbeddedInspectorMode::Frames | EmbeddedInspectorMode::Summary | EmbeddedInspectorMode::Decoded => {
                EmbeddedInspectorMode::Pretty
            },
            _ => current,
        },
    }
}

} // verus!
