//! Verified core of the log viewer's user interface: text helpers, highlight
//! layering, placeholder completion, template browsing, viewport selection
//! and the small decision tables that drive the dock and popups.

use vstd::prelude::*;

pub mod completion;
pub mod decode;
pub mod dock;
pub mod filters;
pub mod format_preview;
pub mod format_syntax;
pub mod highlight;
pub mod hover;
pub mod instance;
pub mod lines;
pub mod logview;
pub mod occurrence;
pub mod overlays;
pub mod popup;
pub mod presentation;
pub mod record_editor;
pub mod screenshot;
pub mod settings;
pub mod template;
pub mod text;
pub mod zip_import;

verus! {

} // verus!
