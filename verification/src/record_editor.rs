//! Bookkeeping of the log-format editor: edits are numbered, a preview is
//! computed off the paint path for the latest edit only, and results of
//! older edits are dropped.

use vstd::prelude::*;
use vstd::std_specs::cmp::PartialEqSpec;

use crate::text::{
    ascii_lower, chars_within, prefix_within, push_str, same_ignoring_ascii_case, str_eq, string_of,
    trim, trimmed_chars,
};

verus! {

/// The log-format editor's state; `F` is a format profile, `P` a preview
/// result and `T` the document an edited format is applied to.
pub struct RecordEditor<F, P, T> {
    pub open: bool,
    pub profile: F,
    pub sample: String,
    /// An edit is waiting for the typing pause before a preview starts.
    pub changed_pending: bool,
    /// A worker is computing a preview.
    pub waiting: bool,
    /// The number of the latest edit.
    pub revision: u64,
    /// The edit that the shown preview belongs to.
    pub result_revision: Option<u64>,
    /// Whether the latest edit's format compiled, once known.
    pub format_valid: Option<Result<(), String>>,
    /// The last preview computed.
    pub preview: Option<P>,
    pub message: Option<String>,
    pub completion_open: bool,
    pub completion_visible: bool,
    pub completion_selected: usize,
    /// The document that opened the editor; Apply goes there.
    pub apply_target: Option<T>,
}

/// What a preview worker sent back.
pub enum WorkerEvent<P> {
    /// The result for edit `revision`: whether the format compiled, and the
    /// preview when it did.
    Update { revision: u64, format_valid: Result<(), String>, preview: Option<P> },
    /// The worker went away without an answer.
    Stopped,
}

/// The sample line the editor starts with.
pub const DEFAULT_SAMPLE: &'static str = "2026-07-15 22:26:39.907481+0300 MyApp[12345:9] <FAULT> CameraService.swift:295 EXC_CRASH (SIGKILL) — jetsam killed process after memory limit exceeded (11743MB)\n";

/// The parts of the editor that the preview bookkeeping does not touch.
pub open spec fn same_draft<F, P, T>(a: RecordEditor<F, P, T>, b: RecordEditor<F, P, T>) -> bool {
    &&& a.open == b.open
    &&& a.profile == b.profile
    &&& a.sample == b.sample
    &&& a.message == b.message
    &&& a.completion_open == b.completion_open
    &&& a.completion_visible == b.completion_visible
    &&& a.completion_selected == b.completion_selected
    &&& a.apply_target == b.apply_target
}

impl<F, P, T> RecordEditor<F, P, T> {
    /// A closed editor on `profile` with the default sample, waiting for its
    /// first preview.
    pub fn new(profile: F) -> (editor: Self)
        ensures
            !editor.open,
            editor.profile == profile,
            editor.sample@ == DEFAULT_SAMPLE@,
            editor.changed_pending,
            !editor.waiting,
            editor.revision == 0,
            editor.result_revision is None,
            editor.format_valid is None,
            editor.preview is None,
            editor.message is None,
            !editor.completion_open,
            !editor.completion_visible,
            editor.completion_selected == 0,
            editor.apply_target is None,
    {
        RecordEditor {
            open: false,
            profile,
            sample: DEFAULT_SAMPLE.to_owned(),
            changed_pending: true,
            waiting: false,
            revision: 0,
            result_revision: None,
            format_valid: None,
            preview: None,
            message: None,
            completion_open: false,
            completion_visible: false,
            completion_selected: 0,
            apply_target: None,
        }
    }

    /// The preview does not show the latest edit: an edit waits, a worker
    /// runs, or the shown preview belongs to another edit.
    pub open spec fn stale(self) -> bool {
        self.changed_pending || self.waiting || self.result_revision != Some(self.revision)
    }

    /// Records an edit: a new edit number, the running worker abandoned,
    /// validity unknown, the typing pause restarted; the shown preview stays.
    pub fn changed(&mut self)
        ensures
            edited(*old(self), *final(self)),
    {
        self.waiting = false;
        self.revision = self.revision.wrapping_add(1);
        self.format_valid = None;
        self.changed_pending = true;
    }

    /// Whether the preview does not show the latest edit.
    pub fn preview_is_stale(&self) -> (stale: bool)
        ensures
            stale == self.stale(),
    {
        let current = match self.result_revision {
            Some(r) => r == self.revision,
            None => false,
        };
        self.changed_pending || self.waiting || !current
    }

    /// Closes the completion list; tells whether it was open.
    pub fn dismiss_completion(&mut self) -> (was_open: bool)
        ensures
            was_open == old(self).completion_open,
            *final(self) == (RecordEditor { completion_open: false, ..*old(self) }),
    {
        let was_open = self.completion_open;
        self.completion_open = false;
        was_open
    }

    /// Edits another profile: its message is cleared and the edit recorded.
    pub fn select_profile(&mut self, profile: F)
        ensures
            edited((RecordEditor { profile, message: None, ..*old(self) }), *final(self)),
    {
        self.profile = profile;
        self.message = None;
        self.changed();
    }

    /// Replaces the sample text and records the edit.
    pub fn set_sample(&mut self, sample: String)
        ensures
            edited((RecordEditor { sample, ..*old(self) }), *final(self)),
    {
        self.sample = sample;
        self.changed();
    }

    /// Binds Apply to the document that opened the editor.
    pub fn bind_apply_target(&mut self, target: Option<T>)
        ensures
            *final(self) == (RecordEditor { apply_target: target, ..*old(self) }),
    {
        self.apply_target = target;
    }

    /// Whether the document that opened the editor is the active one, so
    /// that Apply may go there (whenever the target type's equality obeys
    /// its specification).
    pub fn apply_target_is_active(&self, active: Option<&T>) -> (is_active: bool)
        where
            T: PartialEq,
        ensures
            T::obeys_eq_spec() ==> is_active == (self.apply_target matches Some(target) && active matches Some(a)
                && a.eq_spec(&target)),
    {
        match (&self.apply_target, active) {
            (Some(target), Some(a)) => *a == *target,
            _ => false,
        }
    }

    /// Takes a worker's answer (see `received`).
    pub fn receive(&mut self, event: WorkerEvent<P>)
        ensures
            received(*old(self), *final(self), event),
    {
        match event {
            WorkerEvent::Update { revision, format_valid, preview } => {
                if revision == self.revision {
                    self.format_valid = Some(format_valid);
                    match preview {
                        Some(p) => {
                            self.preview = Some(p);
                            self.result_revision = Some(revision);
                        },
                        None => {},
                    }
                }
            },
            WorkerEvent::Stopped => {
                self.format_valid = Some(Err("preview worker stopped".to_owned()));
            },
        }
        self.waiting = false;
    }

    /// A preview starts once the typing pause is over, unless a worker
    /// already runs.
    pub fn should_start(&self, pause_over: bool) -> (start: bool)
        ensures
            start == (!self.waiting && self.changed_pending && pause_over),
    {
        !self.waiting && self.changed_pending && pause_over
    }

    /// Starts a preview for the latest edit and gives its number.
    pub fn start(&mut self) -> (revision: u64)
        ensures
            started(*old(self), *final(self), revision),
    {
        self.changed_pending = false;
        self.waiting = true;
        self.revision
    }
}

/// What an edit does: a new edit number, the running worker abandoned,
/// validity unknown, the typing pause restarted; the shown preview and the
/// draft stay.
pub open spec fn edited<F, P, T>(before: RecordEditor<F, P, T>, after: RecordEditor<F, P, T>) -> bool {
    &&& after.revision == before.revision.wrapping_add(1)
    &&& !after.waiting
    &&& after.changed_pending
    &&& after.format_valid is None
    &&& after.result_revision == before.result_revision
    &&& after.preview == before.preview
    &&& same_draft(after, before)
}

/// What starting a preview does: the worker runs for the latest edit and
/// the typing pause is over; nothing else changes.
pub open spec fn started<F, P, T>(before: RecordEditor<F, P, T>, after: RecordEditor<F, P, T>, revision: u64) -> bool {
    &&& revision == before.revision
    &&& after.waiting
    &&& !after.changed_pending
    &&& after.revision == before.revision
    &&& after.result_revision == before.result_revision
    &&& after.format_valid == before.format_valid
    &&& after.preview == before.preview
    &&& same_draft(after, before)
}

/// What a worker's answer does: one for the latest edit sets the validity
/// and, when it has one, the preview; one for an older edit is dropped; a
/// vanished worker marks the format as not validated. No worker runs
/// afterwards, and the edit bookkeeping and the draft stay.
pub open spec fn received<F, P, T>(before: RecordEditor<F, P, T>, after: RecordEditor<F, P, T>, event: WorkerEvent<P>) -> bool {
    &&& !after.waiting
    &&& after.changed_pending == before.changed_pending
    &&& after.revision == before.revision
    &&& same_draft(after, before)
    &&& match event {
        WorkerEvent::Update { revision, format_valid, preview } => if revision == before.revision {
            &&& after.format_valid == Some(format_valid)
            &&& match preview {
                Some(p) => after.preview == Some(p) && after.result_revision == Some(revision),
                None => after.preview == before.preview && after.result_revision == before.result_revision,
            }
        } else {
            &&& after.format_valid == before.format_valid
            &&& after.preview == before.preview
            &&& after.result_revision == before.result_revision
        },
        WorkerEvent::Stopped => {
            &&& after.format_valid matches Some(Err(message)) && message@ == "preview worker stopped"@
            &&& after.preview == before.preview
            &&& after.result_revision == before.result_revision
        },
    }
}

/// Law: after an edit the preview is stale, and it stays stale through an
/// answer for an older edit.
pub proof fn law_edits_make_the_preview_stale<F, P, T>(
    before: RecordEditor<F, P, T>,
    edited_state: RecordEditor<F, P, T>,
    answered: RecordEditor<F, P, T>,
    revision: u64,
    format_valid: Result<(), String>,
    preview: Option<P>,
)
    requires
        edited(before, edited_state),
        revision != edited_state.revision,
        received(edited_state, answered, WorkerEvent::Update { revision, format_valid, preview }),
    ensures
        edited_state.stale(),
        answered.stale(),
        answered.format_valid is None,
        answered.preview == before.preview,
{
}

/// Law: an edit, a preview started for it and that preview's answer leave
/// the editor showing a current preview.
pub proof fn law_answer_for_the_latest_edit_is_current<F, P, T>(
    before: RecordEditor<F, P, T>,
    edited_state: RecordEditor<F, P, T>,
    running: RecordEditor<F, P, T>,
    answered: RecordEditor<F, P, T>,
    revision: u64,
    format_valid: Result<(), String>,
    preview: P,
)
    requires
        edited(before, edited_state),
        started(edited_state, running, revision),
        received(running, answered, WorkerEvent::Update { revision, format_valid, preview: Some(preview) }),
    ensures
        !answered.stale(),
        answered.preview == Some(preview),
        answered.format_valid == Some(format_valid),
{
}

/// Law: Apply stays bound to the document that opened the editor: an edit
/// (a new profile or sample among them), a started preview and a worker's
/// answer never change where it goes; only binding does.
pub proof fn law_apply_target_stays_bound<F, P, T>(
    before: RecordEditor<F, P, T>,
    after: RecordEditor<F, P, T>,
    revision: u64,
    event: WorkerEvent<P>,
)
    ensures
        edited(before, after) ==> after.apply_target == before.apply_target,
        started(before, after, revision) ==> after.apply_target == before.apply_target,
        received(before, after, event) ==> after.apply_target == before.apply_target,
{
}

/// The sample text a preview works on: at most `max_bytes + 1` bytes, cut
/// at a character boundary.
pub fn preview_sample(sample: &str, max_bytes: usize) -> (cut: String)
    requires
        max_bytes < usize::MAX,
    ensures
        cut@ == sample@.take(chars_within(sample@, max_bytes + 1)),
{
    let (prefix, _) = prefix_within(sample, max_bytes + 1);
    string_of(prefix.as_slice())
}

/// The name a draft is previewed under: its own, or `Preview` when blank.
pub fn preview_name(name: &str) -> (shown: String)
    ensures
        shown@ == if trim(name@).len() == 0 {
            "Preview"@
        } else {
            name@
        },
{
    let trimmed = trimmed_chars(name);
    if trimmed.len() == 0 {
        "Preview".to_owned()
    } else {
        name.to_owned()
    }
}

/// Why a format cannot be converted to the current grammar: it already is
/// on another schema, has custom fields or is not a template, or captures a
/// field named `ignore`.
pub open spec fn legacy_blocker(
    schema_version: u32,
    current_version: u32,
    has_custom_fields: bool,
    template_layout: Option<Seq<char>>,
) -> Option<Seq<char>> {
    if schema_version != current_version {
        Some("This format does not use the current log-format grammar."@)
    } else if has_custom_fields || template_layout is None {
        Some("Advanced regex and custom-field formats stay legacy because a safe schema-3 conversion is not available."@)
    } else if crate::text::contains_chars(template_layout->0, "{ignore}"@) {
        Some("This legacy format captures a field named ignore. Keep it legacy so conversion cannot discard that field."@)
    } else {
        None
    }
}

/// Checks whether a format can be converted (see `legacy_blocker`).
pub fn legacy_conversion_check(
    schema_version: u32,
    current_version: u32,
    has_custom_fields: bool,
    template_layout: Option<&str>,
) -> (r: Result<(), &'static str>)
    ensures
        match legacy_blocker(
            schema_version,
            current_version,
            has_custom_fields,
            match template_layout {
                Some(layout) => Some(layout@),
                None => None,
            },
        ) {
            Some(message) => r matches Err(m) && m@ == message,
            None => r is Ok,
        },
{
    if schema_version != current_version {
        return Err("This format does not use the current log-format grammar.");
    }
    let layout = match template_layout {
        Some(layout) if !has_custom_fields => layout,
        _ => {
            return Err(
                "Advanced regex and custom-field formats stay legacy because a safe schema-3 conversion is not available.",
            );
        },
    };
    let hay = crate::text::chars_of(layout);
    let needle = crate::text::chars_of("{ignore}");
    if crate::text::find_chars(hay.as_slice(), needle.as_slice()) {
        return Err(
            "This legacy format captures a field named ignore. Keep it legacy so conversion cannot discard that field.",
        );
    }
    Ok(())
}

/// The name of the converted copy of a format.
pub fn converted_name(name: &str) -> (converted: String)
    ensures
        converted@ == name@ + " (schema 3)"@,
{
    let mut out = name.to_owned();
    push_str(&mut out, " (schema 3)");
    out
}

/// Why Apply refuses a draft whose document is no longer the active one.
pub const APPLY_TARGET_INACTIVE: &'static str = "The file that opened this draft is no longer active. Save the format, then open it from that file's Format menu to apply.";

/// A saved format as the save logic sees it: its identity, its name, its
/// revision, and the rest of it.
pub struct Preset<P> {
    pub id: String,
    pub name: String,
    pub revision: u64,
    pub body: P,
}

/// Another saved format has the same name, ASCII case aside.
pub open spec fn name_taken<P>(presets: Seq<Preset<P>>, id: Seq<char>, name: Seq<char>) -> bool {
    exists|i: int|
        0 <= i < presets.len() && #[trigger] presets[i].id@ != id && ascii_lower(presets[i].name@)
            == ascii_lower(name)
}

/// Some saved format has identity `id`.
pub open spec fn has_id<P>(presets: Seq<Preset<P>>, id: Seq<char>) -> bool {
    exists|i: int| 0 <= i < presets.len() && #[trigger] presets[i].id@ == id
}

/// Why a save is refused: another saved format has the name.
pub const NAME_TAKEN: &'static str = "A saved format has this name. Choose another name or edit it.";

/// What saving `profile` among `before` does: refused when another saved
/// format has the same name (ASCII case aside); otherwise it replaces the
/// first saved format with its identity, one revision later, or is added at
/// the end, and the position it was saved at is given.
pub open spec fn preset_saved<P>(
    before: Seq<Preset<P>>,
    profile: Preset<P>,
    r: Result<usize, &str>,
    after: Seq<Preset<P>>,
) -> bool {
    match r {
        Err(message) => {
            &&& name_taken(before, profile.id@, profile.name@)
            &&& message@ == NAME_TAKEN@
            &&& after == before
        },
        Ok(index) => {
            &&& !name_taken(before, profile.id@, profile.name@)
            &&& if has_id(before, profile.id@) {
                &&& index < before.len()
                &&& before[index as int].id@ == profile.id@
                &&& forall|j: int| 0 <= j < index ==> #[trigger] before[j].id@ != profile.id@
                &&& after == before.update(
                    index as int,
                    Preset { revision: before[index as int].revision.saturating_add(1), ..profile },
                )
            } else {
                &&& index == before.len()
                &&& after == before.push(profile)
            }
        },
    }
}

/// No two saved formats share an identity or a name (ASCII case aside).
pub open spec fn distinct_presets<P>(presets: Seq<Preset<P>>) -> bool {
    forall|i: int, j: int|
        0 <= i < presets.len() && 0 <= j < presets.len() && i != j ==> #[trigger] presets[i].id@
            != #[trigger] presets[j].id@ && ascii_lower(presets[i].name@) != ascii_lower(presets[j].name@)
}

/// Law: saving keeps saved formats apart: when no two share an identity or
/// a name before a save, none do after it.
pub proof fn law_saving_keeps_formats_distinct<P>(
    before: Seq<Preset<P>>,
    profile: Preset<P>,
    r: Result<usize, &str>,
    after: Seq<Preset<P>>,
)
    requires
        distinct_presets(before),
        preset_saved(before, profile, r, after),
    ensures
        distinct_presets(after),
{
    if let Ok(index) = r {
        if has_id(before, profile.id@) {
            assert forall|i: int, j: int|
                0 <= i < after.len() && 0 <= j < after.len() && i != j implies #[trigger] after[i].id@
                    != #[trigger] after[j].id@ && ascii_lower(after[i].name@) != ascii_lower(after[j].name@) by {
                if i == index {
                    assert(before[j].id@ != before[i].id@);
                    assert(!(before[j].id@ != profile.id@ && ascii_lower(before[j].name@) == ascii_lower(profile.name@)));
                } else if j == index {
                    assert(before[i].id@ != before[j].id@);
                    assert(!(before[i].id@ != profile.id@ && ascii_lower(before[i].name@) == ascii_lower(profile.name@)));
                } else {
                    assert(before[i].id@ != before[j].id@);
                }
            }
        } else {
            assert forall|i: int, j: int|
                0 <= i < after.len() && 0 <= j < after.len() && i != j implies #[trigger] after[i].id@
                    != #[trigger] after[j].id@ && ascii_lower(after[i].name@) != ascii_lower(after[j].name@) by {
                if i == before.len() {
                    assert(before[j].id@ != profile.id@);
                    assert(!(before[j].id@ != profile.id@ && ascii_lower(before[j].name@) == ascii_lower(profile.name@)));
                } else if j == before.len() {
                    assert(before[i].id@ != profile.id@);
                    assert(!(before[i].id@ != profile.id@ && ascii_lower(before[i].name@) == ascii_lower(profile.name@)));
                } else {
                    assert(before[i].id@ != before[j].id@);
                }
            }
        }
    }
}

/// Saves `profile` among `presets`: refused when another saved format has
/// the same name (ASCII case aside); otherwise it replaces the first saved
/// format with its identity, one revision later, or is added at the end.
/// Gives the position it was saved at.
pub fn save_preset<P>(presets: &mut Vec<Preset<P>>, profile: Preset<P>) -> (r: Result<usize, &'static str>)
    ensures
        preset_saved(old(presets)@, profile, r, final(presets)@),
{
    let mut position: Option<usize> = None;
    let mut i: usize = 0;
    while i < presets.len()
        invariant
            i <= presets.len(),
            forall|j: int| 0 <= j < i ==> !(#[trigger] presets@[j].id@ != profile.id@
                && ascii_lower(presets@[j].name@) == ascii_lower(profile.name@)),
            match position {
                Some(p) => p < i && presets@[p as int].id@ == profile.id@ && forall|j: int|
                    0 <= j < p ==> #[trigger] presets@[j].id@ != profile.id@,
                None => forall|j: int| 0 <= j < i ==> #[trigger] presets@[j].id@ != profile.id@,
            },
        decreases presets.len() - i,
    {
        let same_id = str_eq(presets[i].id.as_str(), profile.id.as_str());
        if !same_id && same_ignoring_ascii_case(presets[i].name.as_str(), profile.name.as_str()) {
            return Err(NAME_TAKEN);
        }
        if same_id && position.is_none() {
            position = Some(i);
        }
        i += 1;
    }
    match position {
        Some(p) => {
            let revision = presets[p].revision.saturating_add(1);
            presets.set(p, Preset { revision, ..profile });
            Ok(p)
        },
        None => {
            let end = presets.len();
            presets.push(profile);
            Ok(end)
        },
    }
}

/// How a log's timestamps are read.
pub enum TimestampSelection {
    /// Detected from the log.
    Auto,
    /// The log has no timestamps.
    Timeless,
    /// A built-in format, by name.
    BuiltIn(String),
    /// A format the user defined, by name.
    Custom(String),
}

/// The label of a timestamp choice.
pub open spec fn timestamp_text(selection: TimestampSelection) -> Seq<char> {
    match selection {
        TimestampSelection::Auto => "Auto"@,
        TimestampSelection::Timeless => "None (timeless)"@,
        TimestampSelection::BuiltIn(name) => name@,
        TimestampSelection::Custom(name) => "Custom: "@ + name@,
    }
}

/// The label of a timestamp choice.
pub fn timestamp_label(selection: &TimestampSelection) -> (label: String)
    ensures
        label@ == timestamp_text(*selection),
{
    match selection {
        TimestampSelection::Auto => "Auto".to_owned(),
        TimestampSelection::Timeless => "None (timeless)".to_owned(),
        TimestampSelection::BuiltIn(name) => name.clone(),
        TimestampSelection::Custom(name) => {
            let mut label = "Custom: ".to_owned();
            push_str(&mut label, name.as_str());
            label
        },
    }
}

/// The kind of value a custom field captures.
#[derive(Clone, Copy, Debug, PartialEq, Eq, Structural)]
pub enum CustomFieldKind {
    Token,
    Integer,
    DelimitedText,
}

/// The label of a custom field kind.
pub fn field_kind_label(kind: CustomFieldKind) -> (label: &'static str)
    ensures
        label@ == match kind {
            CustomFieldKind::Token => "Token"@,
            CustomFieldKind::Integer => "Integer"@,
            CustomFieldKind::DelimitedText => "Delimited text"@,
        },
{
    proof {
        reveal_strlit("Token");
        reveal_strlit("Integer");
        reveal_strlit("Delimited text");
    }
    match kind {
        CustomFieldKind::Token => "Token",
        CustomFieldKind::Integer => "Integer",
        CustomFieldKind::DelimitedText => "Delimited text",
    }
}

} // verus!
