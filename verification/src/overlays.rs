//! Application-level keyboard decisions: which overlay Escape closes, and
//! how the Go To box reads what was typed.

use vstd::prelude::*;

use crate::dock::{command_effect, AppCommand, CommandContext, CommandEffect};
use crate::text::{string_of, trim, trimmed_chars};

verus! {

/// The overlays that can be open over the workspace.
#[derive(Clone, Copy, Debug, PartialEq, Eq, Structural)]
pub struct OpenOverlays {
    pub integrate_popup: bool,
    pub record_editor: bool,
    pub custom_date_popup: bool,
    pub command_palette: bool,
    pub goto_popup: bool,
    pub cheat_sheet: bool,
    pub new_filter_popup: bool,
    pub rename_filter_popup: bool,
    pub mcp_error_popup: bool,
    pub pending_restore_tab: bool,
    pub zip_import_error: bool,
    pub close_save_error: bool,
    pub settings_popup: bool,
    pub ai_assistant_popup: bool,
    pub recent_dropdown: bool,
    pub filter_dropdown: bool,
    pub views_dropdown: bool,
    pub format_dropdown: bool,
    /// The active document asks to confirm removing filters.
    pub tab_confirmation: bool,
    /// A Log View of the active document shows the occurrence overlay
    /// (with no inspector above it).
    pub occurrence_overlay: bool,
}

/// What Escape does.
#[derive(Clone, Copy, Debug, PartialEq, Eq, Structural)]
pub enum EscapeEffect {
    Nothing,
    LeaveLogFocus,
    CloseIntegratePopup,
    /// Close the completion list, or the editor when no list is open.
    DismissRecordEditor,
    CloseCustomDatePopup,
    CloseCommandPalette,
    /// Close the Go To box and clear its error.
    CloseGotoPopup,
    CloseCheatSheet,
    /// Close the new-filter box and clear the typed name.
    CloseNewFilterPopup,
    CloseRenameFilterPopup,
    ClearMcpError,
    ClearPendingRestore,
    ClearZipImportError,
    ClearCloseSaveError,
    CloseSettingsPopup,
    CloseAiAssistantPopup,
    CloseRecentDropdown,
    CloseFilterDropdown,
    CloseViewsDropdown,
    CloseFormatDropdown,
    /// Close the occurrence overlay and its hover callout.
    CloseOccurrenceOverlay,
    /// Cancel the pending filter removal.
    CancelFilterRemoval,
}

/// Some overlay is open.
pub open spec fn any_open(o: OpenOverlays) -> bool {
    o.integrate_popup || o.record_editor || o.custom_date_popup || o.command_palette || o.goto_popup
        || o.cheat_sheet || o.new_filter_popup || o.rename_filter_popup || o.mcp_error_popup
        || o.pending_restore_tab || o.zip_import_error || o.close_save_error || o.settings_popup
        || o.ai_assistant_popup || o.recent_dropdown || o.filter_dropdown || o.views_dropdown
        || o.format_dropdown || o.tab_confirmation || o.occurrence_overlay
}

/// The topmost open overlay's closing effect, in the order the overlays
/// stack: dialogs first, then notices, settings, dropdowns, and last the
/// document's own overlays.
pub open spec fn topmost_close(o: OpenOverlays) -> EscapeEffect {
    if o.integrate_popup {
        EscapeEffect::CloseIntegratePopup
    } else if o.record_editor {
        EscapeEffect::DismissRecordEditor
    } else if o.custom_date_popup {
        EscapeEffect::CloseCustomDatePopup
    } else if o.command_palette {
        EscapeEffect::CloseCommandPalette
    } else if o.goto_popup {
        EscapeEffect::CloseGotoPopup
    } else if o.cheat_sheet {
        EscapeEffect::CloseCheatSheet
    } else if o.new_filter_popup {
        EscapeEffect::CloseNewFilterPopup
    } else if o.rename_filter_popup {
        EscapeEffect::CloseRenameFilterPopup
    } else if o.mcp_error_popup {
        EscapeEffect::ClearMcpError
    } else if o.pending_restore_tab {
        EscapeEffect::ClearPendingRestore
    } else if o.zip_import_error {
        EscapeEffect::ClearZipImportError
    } else if o.close_save_error {
        EscapeEffect::ClearCloseSaveError
    } else if o.settings_popup {
        EscapeEffect::CloseSettingsPopup
    } else if o.ai_assistant_popup {
        EscapeEffect::CloseAiAssistantPopup
    } else if o.recent_dropdown {
        EscapeEffect::CloseRecentDropdown
    } else if o.filter_dropdown {
        EscapeEffect::CloseFilterDropdown
    } else if o.views_dropdown {
        EscapeEffect::CloseViewsDropdown
    } else if o.format_dropdown {
        EscapeEffect::CloseFormatDropdown
    } else if o.occurrence_overlay {
        EscapeEffect::CloseOccurrenceOverlay
    } else {
        EscapeEffect::CancelFilterRemoval
    }
}

/// What Escape does: with an overlay open it closes the topmost one; with
/// none it leaves log focus mode when that is on; without Escape nothing.
pub open spec fn escape_effect_of(open: OpenOverlays, escape_pressed: bool, log_focus_mode: bool) -> EscapeEffect {
    if !escape_pressed {
        EscapeEffect::Nothing
    } else if any_open(open) {
        topmost_close(open)
    } else if log_focus_mode {
        EscapeEffect::LeaveLogFocus
    } else {
        EscapeEffect::Nothing
    }
}

/// Decides what Escape does (see `escape_effect_of`).
pub fn escape_effect(open: OpenOverlays, escape_pressed: bool, log_focus_mode: bool) -> (effect: EscapeEffect)
    ensures
        effect == escape_effect_of(open, escape_pressed, log_focus_mode),
{
    if !escape_pressed {
        return EscapeEffect::Nothing;
    }
    let any = open.integrate_popup || open.record_editor || open.custom_date_popup || open.command_palette
        || open.goto_popup || open.cheat_sheet || open.new_filter_popup || open.rename_filter_popup
        || open.mcp_error_popup || open.pending_restore_tab || open.zip_import_error || open.close_save_error
        || open.settings_popup || open.ai_assistant_popup || open.recent_dropdown || open.filter_dropdown
        || open.views_dropdown || open.format_dropdown || open.tab_confirmation || open.occurrence_overlay;
    if !any {
        return if log_focus_mode {
            EscapeEffect::LeaveLogFocus
        } else {
            EscapeEffect::Nothing
        };
    }
    if open.integrate_popup {
        EscapeEffect::CloseIntegratePopup
    } else if open.record_editor {
        EscapeEffect::DismissRecordEditor
    } else if open.custom_date_popup {
        EscapeEffect::CloseCustomDatePopup
    } else if open.command_palette {
        EscapeEffect::CloseCommandPalette
    } else if open.goto_popup {
        EscapeEffect::CloseGotoPopup
    } else if open.cheat_sheet {
        EscapeEffect::CloseCheatSheet
    } else if open.new_filter_popup {
        EscapeEffect::CloseNewFilterPopup
    } else if open.rename_filter_popup {
        EscapeEffect::CloseRenameFilterPopup
    } else if open.mcp_error_popup {
        EscapeEffect::ClearMcpError
    } else if open.pending_restore_tab {
        EscapeEffect::ClearPendingRestore
    } else if open.zip_import_error {
        EscapeEffect::ClearZipImportError
    } else if open.close_save_error {
        EscapeEffect::ClearCloseSaveError
    } else if open.settings_popup {
        EscapeEffect::CloseSettingsPopup
    } else if open.ai_assistant_popup {
        EscapeEffect::CloseAiAssistantPopup
    } else if open.recent_dropdown {
        EscapeEffect::CloseRecentDropdown
    } else if open.filter_dropdown {
        EscapeEffect::CloseFilterDropdown
    } else if open.views_dropdown {
        EscapeEffect::CloseViewsDropdown
    } else if open.format_dropdown {
        EscapeEffect::CloseFormatDropdown
    } else if open.occurrence_overlay {
        EscapeEffect::CloseOccurrenceOverlay
    } else {
        EscapeEffect::CancelFilterRemoval
    }
}

/// What Escape works on: the open overlays, whether the log-format
/// editor's completion list is open, and whether a Log View fills the
/// window.
#[derive(Clone, Copy, Debug, PartialEq, Eq, Structural)]
pub struct EscapeState {
    pub overlays: OpenOverlays,
    pub completion_open: bool,
    pub log_focus_mode: bool,
}

/// The state after an effect of Escape: exactly the layer the effect names
/// closes (the editor's completion list before the editor itself) and
/// nothing else changes.
pub open spec fn after_escape(s: EscapeState, effect: EscapeEffect) -> EscapeState {
    let o = s.overlays;
    match effect {
        EscapeEffect::Nothing => s,
        EscapeEffect::LeaveLogFocus => EscapeState { log_focus_mode: false, ..s },
        EscapeEffect::DismissRecordEditor => if s.completion_open {
            EscapeState { completion_open: false, ..s }
        } else {
            EscapeState { overlays: OpenOverlays { record_editor: false, ..o }, ..s }
        },
        EscapeEffect::CloseIntegratePopup => EscapeState { overlays: OpenOverlays { integrate_popup: false, ..o }, ..s },
        EscapeEffect::CloseCustomDatePopup => EscapeState {
            overlays: OpenOverlays { custom_date_popup: false, ..o },
            ..s
        },
        EscapeEffect::CloseCommandPalette => EscapeState { overlays: OpenOverlays { command_palette: false, ..o }, ..s },
        EscapeEffect::CloseGotoPopup => EscapeState { overlays: OpenOverlays { goto_popup: false, ..o }, ..s },
        EscapeEffect::CloseCheatSheet => EscapeState { overlays: OpenOverlays { cheat_sheet: false, ..o }, ..s },
        EscapeEffect::CloseNewFilterPopup => EscapeState {
            overlays: OpenOverlays { new_filter_popup: false, ..o },
            ..s
        },
        EscapeEffect::CloseRenameFilterPopup => EscapeState {
            overlays: OpenOverlays { rename_filter_popup: false, ..o },
            ..s
        },
        EscapeEffect::ClearMcpError => EscapeState { overlays: OpenOverlays { mcp_error_popup: false, ..o }, ..s },
        EscapeEffect::ClearPendingRestore => EscapeState {
            overlays: OpenOverlays { pending_restore_tab: false, ..o },
            ..s
        },
        EscapeEffect::ClearZipImportError => EscapeState {
            overlays: OpenOverlays { zip_import_error: false, ..o },
            ..s
        },
        EscapeEffect::ClearCloseSaveError => EscapeState {
            overlays: OpenOverlays { close_save_error: false, ..o },
            ..s
        },
        EscapeEffect::CloseSettingsPopup => EscapeState { overlays: OpenOverlays { settings_popup: false, ..o }, ..s },
        EscapeEffect::CloseAiAssistantPopup => EscapeState {
            overlays: OpenOverlays { ai_assistant_popup: false, ..o },
            ..s
        },
        EscapeEffect::CloseRecentDropdown => EscapeState { overlays: OpenOverlays { recent_dropdown: false, ..o }, ..s },
        EscapeEffect::CloseFilterDropdown => EscapeState { overlays: OpenOverlays { filter_dropdown: false, ..o }, ..s },
        EscapeEffect::CloseViewsDropdown => EscapeState { overlays: OpenOverlays { views_dropdown: false, ..o }, ..s },
        EscapeEffect::CloseFormatDropdown => EscapeState { overlays: OpenOverlays { format_dropdown: false, ..o }, ..s },
        EscapeEffect::CloseOccurrenceOverlay => EscapeState {
            overlays: OpenOverlays { occurrence_overlay: false, ..o },
            ..s
        },
        EscapeEffect::CancelFilterRemoval => EscapeState {
            overlays: OpenOverlays { tab_confirmation: false, ..o },
            ..s
        },
    }
}

/// Handles one frame's Escape: decides the effect (see `escape_effect_of`)
/// and applies it (see `after_escape`); gives the effect so that the caller
/// also clears what goes with the closed layer.
pub fn handle_escape(state: &mut EscapeState, escape_pressed: bool) -> (effect: EscapeEffect)
    ensures
        effect == escape_effect_of(old(state).overlays, escape_pressed, old(state).log_focus_mode),
        *final(state) == after_escape(*old(state), effect),
{
    let effect = escape_effect(state.overlays, escape_pressed, state.log_focus_mode);
    apply_escape(state, effect);
    effect
}

/// Applies an effect of Escape (see `after_escape`).
pub fn apply_escape(state: &mut EscapeState, effect: EscapeEffect)
    ensures
        *final(state) == after_escape(*old(state), effect),
{
    let o = state.overlays;
    let next = match effect {
        EscapeEffect::Nothing => *state,
        EscapeEffect::LeaveLogFocus => EscapeState { log_focus_mode: false, ..*state },
        EscapeEffect::DismissRecordEditor => if state.completion_open {
            EscapeState { completion_open: false, ..*state }
        } else {
            EscapeState { overlays: OpenOverlays { record_editor: false, ..o }, ..*state }
        },
        EscapeEffect::CloseIntegratePopup => EscapeState { overlays: OpenOverlays { integrate_popup: false, ..o }, ..*state },
        EscapeEffect::CloseCustomDatePopup => EscapeState {
            overlays: OpenOverlays { custom_date_popup: false, ..o },
            ..*state
        },
        EscapeEffect::CloseCommandPalette => EscapeState { overlays: OpenOverlays { command_palette: false, ..o }, ..*state },
        EscapeEffect::CloseGotoPopup => EscapeState { overlays: OpenOverlays { goto_popup: false, ..o }, ..*state },
        EscapeEffect::CloseCheatSheet => EscapeState { overlays: OpenOverlays { cheat_sheet: false, ..o }, ..*state },
        EscapeEffect::CloseNewFilterPopup => EscapeState {
            overlays: OpenOverlays { new_filter_popup: false, ..o },
            ..*state
        },
        EscapeEffect::CloseRenameFilterPopup => EscapeState {
            overlays: OpenOverlays { rename_filter_popup: false, ..o },
            ..*state
        },
        EscapeEffect::ClearMcpError => EscapeState { overlays: OpenOverlays { mcp_error_popup: false, ..o }, ..*state },
        EscapeEffect::ClearPendingRestore => EscapeState {
            overlays: OpenOverlays { pending_restore_tab: false, ..o },
            ..*state
        },
        EscapeEffect::ClearZipImportError => EscapeState {
            overlays: OpenOverlays { zip_import_error: false, ..o },
            ..*state
        },
        EscapeEffect::ClearCloseSaveError => EscapeState {
            overlays: OpenOverlays { close_save_error: false, ..o },
            ..*state
        },
        EscapeEffect::CloseSettingsPopup => EscapeState { overlays: OpenOverlays { settings_popup: false, ..o }, ..*state },
        EscapeEffect::CloseAiAssistantPopup => EscapeState {
            overlays: OpenOverlays { ai_assistant_popup: false, ..o },
            ..*state
        },
        EscapeEffect::CloseRecentDropdown => EscapeState { overlays: OpenOverlays { recent_dropdown: false, ..o }, ..*state },
        EscapeEffect::CloseFilterDropdown => EscapeState { overlays: OpenOverlays { filter_dropdown: false, ..o }, ..*state },
        EscapeEffect::CloseViewsDropdown => EscapeState { overlays: OpenOverlays { views_dropdown: false, ..o }, ..*state },
        EscapeEffect::CloseFormatDropdown => EscapeState { overlays: OpenOverlays { format_dropdown: false, ..o }, ..*state },
        EscapeEffect::CloseOccurrenceOverlay => EscapeState {
            overlays: OpenOverlays { occurrence_overlay: false, ..o },
            ..*state
        },
        EscapeEffect::CancelFilterRemoval => EscapeState {
            overlays: OpenOverlays { tab_confirmation: false, ..o },
            ..*state
        },
    };
    *state = next;
}

/// Law: one Escape closes only the innermost layer. Over an open log-format
/// editor (and no integration popup) it closes the completion list when one
/// is open and the editor otherwise, and every other overlay stays as it
/// was.
pub proof fn law_escape_closes_the_innermost_layer(before: EscapeState, after: EscapeState)
    requires
        !before.overlays.integrate_popup,
        before.overlays.record_editor,
        after == after_escape(before, escape_effect_of(before.overlays, true, before.log_focus_mode)),
    ensures
        after.overlays.record_editor == before.completion_open,
        !after.completion_open,
        after.overlays == (OpenOverlays { record_editor: after.overlays.record_editor, ..before.overlays }),
        after.log_focus_mode == before.log_focus_mode,
{
}

/// The Go To box: whether it is shown, what was typed and the error shown.
pub struct GotoBox {
    pub open: bool,
    pub input: String,
    pub error: Option<String>,
}

/// Shows the Go To box for a command's effect: with `ShowGoto` it opens
/// empty and without an error; any other effect leaves it as it was.
pub fn apply_goto_command(goto: &mut GotoBox, effect: CommandEffect)
    ensures
        effect == CommandEffect::ShowGoto ==> final(goto).open && final(goto).input@.len() == 0
            && final(goto).error is None,
        effect != CommandEffect::ShowGoto ==> *final(goto) == *old(goto),
{
    match effect {
        CommandEffect::ShowGoto => {
            goto.open = true;
            goto.input = String::new();
            goto.error = None;
        },
        _ => {},
    }
}

/// Law: Go To opens an empty box without an error when a document tab is
/// selected, and changes nothing without one.
pub proof fn law_goto_opens_empty(ctx: CommandContext, before: GotoBox, after: GotoBox)
    requires
        command_effect(AppCommand::GoTo, ctx) == CommandEffect::ShowGoto ==> after.open && after.input@.len() == 0
            && after.error is None,
        command_effect(AppCommand::GoTo, ctx) != CommandEffect::ShowGoto ==> after == before,
    ensures
        ctx.tab_selected ==> after.open && after.input@.len() == 0 && after.error is None,
        !ctx.tab_selected ==> after == before,
{
}

/// What the Go To box was asked for.
#[derive(Clone, Debug, PartialEq, Eq)]
pub enum GotoRequest {
    /// Nothing was typed.
    Empty,
    /// Line number zero, which does not exist.
    LineZero,
    /// The line (counted from zero) of a typed one-based line number.
    Line(usize),
    /// Not a line number: a time to look up, `@` stripped.
    Time(String),
}

/// A Go To request as plain values.
pub enum GotoReading {
    Empty,
    LineZero,
    Line(usize),
    Time(Seq<char>),
}

impl View for GotoRequest {
    type V = GotoReading;

    open spec fn view(&self) -> GotoReading {
        match self {
            GotoRequest::Empty => GotoReading::Empty,
            GotoRequest::LineZero => GotoReading::LineZero,
            GotoRequest::Line(line) => GotoReading::Line(*line),
            GotoRequest::Time(text) => GotoReading::Time(text@),
        }
    }
}

/// The number that decimal digits spell.
pub open spec fn digits_value(s: Seq<char>) -> int
    decreases s.len(),
{
    if s.len() == 0 {
        0
    } else {
        digits_value(s.drop_last()) * 10 + (s.last() as int - 48)
    }
}

/// Every character is a decimal digit.
pub open spec fn all_digits(s: Seq<char>) -> bool {
    forall|k: int| 0 <= k < s.len() ==> '0' <= #[trigger] s[k] <= '9'
}

/// `s` read as `usize::from_str` reads it: an optional `+` and at least one
/// decimal digit, with a value that fits in `usize`.
pub open spec fn parsed_usize(s: Seq<char>) -> Option<usize> {
    let digits = if s.len() > 0 && s[0] == '+' {
        s.drop_first()
    } else {
        s
    };
    if digits.len() > 0 && all_digits(digits) && digits_value(digits) <= usize::MAX {
        Some(digits_value(digits) as usize)
    } else {
        None
    }
}

proof fn lemma_digits_value_grows(s: Seq<char>, k: int)
    requires
        all_digits(s),
        0 <= k <= s.len(),
    ensures
        0 <= digits_value(s.take(k)) <= digits_value(s),
    decreases s.len() - k,
{
    if k < s.len() {
        let t = s.drop_last();
        assert(all_digits(t));
        assert(t.take(k) =~= s.take(k));
        lemma_digits_value_grows(t, k);
        lemma_digits_value_nonnegative(t);
    } else {
        assert(s.take(k) =~= s);
        lemma_digits_value_nonnegative(s);
    }
}

proof fn lemma_digits_value_nonnegative(s: Seq<char>)
    requires
        all_digits(s),
    ensures
        digits_value(s) >= 0,
    decreases s.len(),
{
    if s.len() > 0 {
        assert(all_digits(s.drop_last()));
        lemma_digits_value_nonnegative(s.drop_last());
    }
}

/// Reads a number as `usize::from_str` does (see `parsed_usize`).
fn parse_usize(s: &Vec<char>) -> (r: Option<usize>)
    ensures
        r == parsed_usize(s@),
{
    let start: usize = if s.len() > 0 && s[0] == '+' {
        1
    } else {
        0
    };
    let ghost digits = if s@.len() > 0 && s@[0] == '+' {
        s@.drop_first()
    } else {
        s@
    };
    proof {
        assert(digits =~= s@.skip(start as int));
    }
    if start >= s.len() {
        return None;
    }
    let mut value: usize = 0;
    let mut k: usize = start;
    while k < s.len()
        invariant
            start <= k <= s@.len(),
            start < s@.len(),
            digits == s@.skip(start as int),
            digits == (if s@.len() > 0 && s@[0] == '+' {
                s@.drop_first()
            } else {
                s@
            }),
            all_digits(digits.take(k - start)),
            value as int == digits_value(digits.take(k - start)),
        decreases s@.len() - k,
    {
        let c = s[k];
        proof {
            assert(digits.take(k - start + 1).drop_last() =~= digits.take(k - start));
            assert(digits[k - start] == c);
        }
        if c < '0' || c > '9' {
            proof {
                assert(!all_digits(digits));
            }
            return None;
        }
        let d = (c as u32 - 48) as usize;
        proof {
            assert(all_digits(digits.take(k - start + 1)));
        }
        if value > (usize::MAX - d) / 10 {
            proof {
                assert(digits_value(digits.take(k - start + 1)) > usize::MAX) by (nonlinear_arith)
                    requires
                        value > (usize::MAX - d) / 10,
                        digits_value(digits.take(k - start + 1)) == value * 10 + d,
                        d <= 9,
                ;
                if all_digits(digits) {
                    lemma_digits_value_grows(digits, k - start + 1);
                }
            }
            return None;
        }
        value = value * 10 + d;
        k += 1;
    }
    proof {
        assert(digits.take(k - start) =~= digits);
    }
    Some(value)
}

/// `s` without `prefix` when it starts with it.
pub open spec fn without_prefix(s: Seq<char>, prefix: Seq<char>) -> Option<Seq<char>> {
    if prefix.len() <= s.len() && s.take(prefix.len() as int) == prefix {
        Some(s.skip(prefix.len() as int))
    } else {
        None
    }
}

fn strip_prefix_chars(s: &Vec<char>, prefix: &[char]) -> (r: Option<Vec<char>>)
    ensures
        match without_prefix(s@, prefix@) {
            Some(rest) => r matches Some(v) && v@ == rest,
            None => r is None,
        },
{
    if prefix.len() > s.len() {
        return None;
    }
    let mut k: usize = 0;
    while k < prefix.len()
        invariant
            prefix@.len() <= s@.len(),
            k <= prefix@.len(),
            forall|j: int| 0 <= j < k ==> s@[j] == prefix@[j],
        decreases prefix@.len() - k,
    {
        if s[k] != prefix[k] {
            proof {
                assert(s@.take(prefix@.len() as int)[k as int] != prefix@[k as int]);
            }
            return None;
        }
        k += 1;
    }
    assert(s@.take(prefix@.len() as int) =~= prefix@);
    let mut rest: Vec<char> = Vec::new();
    let mut j: usize = prefix.len();
    while j < s.len()
        invariant
            prefix@.len() <= j <= s@.len(),
            rest@ == s@.subrange(prefix@.len() as int, j as int),
        decreases s@.len() - j,
    {
        rest.push(s[j]);
        proof {
            assert(s@.subrange(prefix@.len() as int, j + 1) =~= s@.subrange(prefix@.len() as int, j as int).push(s@[j as int]));
        }
        j += 1;
    }
    Some(rest)
}

/// How the Go To box reads its input: trimmed, `line 12`, `l:12` or `12`
/// asks for line 12 (zero is refused, as is an empty box); anything else
/// is a time, with a leading `@` stripped.
pub open spec fn goto_reading(input: Seq<char>) -> GotoReading {
    let raw = trim(input);
    if raw.len() == 0 {
        GotoReading::Empty
    } else {
        let line_input = trim(
            match without_prefix(raw, seq!['l', 'i', 'n', 'e', ' ']) {
                Some(rest) => rest,
                None => match without_prefix(raw, seq!['l', ':']) {
                    Some(rest) => rest,
                    None => raw,
                },
            },
        );
        match parsed_usize(line_input) {
            Some(line) => if line == 0 {
                GotoReading::LineZero
            } else {
                GotoReading::Line((line - 1) as usize)
            },
            None => GotoReading::Time(
                if raw[0] == '@' {
                    raw.drop_first()
                } else {
                    raw
                },
            ),
        }
    }
}

/// Reads what was typed into the Go To box (see `goto_reading`).
pub fn goto_request(input: &str) -> (request: GotoRequest)
    ensures
        request@ == goto_reading(input@),
{
    let raw = trimmed_chars(input);
    if raw.len() == 0 {
        return GotoRequest::Empty;
    }
    let line_word = ['l', 'i', 'n', 'e', ' '];
    let line_short = ['l', ':'];
    proof {
        assert(line_word@ =~= seq!['l', 'i', 'n', 'e', ' ']);
        assert(line_short@ =~= seq!['l', ':']);
    }
    let rest = match strip_prefix_chars(&raw, line_word.as_slice()) {
        Some(rest) => rest,
        None => match strip_prefix_chars(&raw, line_short.as_slice()) {
            Some(rest) => rest,
            None => raw.clone(),
        },
    };
    let rest_text = string_of(rest.as_slice());
    let line_input = trimmed_chars(rest_text.as_str());
    match parse_usize(&line_input) {
        Some(line) => if line == 0 {
            GotoRequest::LineZero
        } else {
            GotoRequest::Line(line - 1)
        },
        None => {
            let mut time: Vec<char> = Vec::new();
            let start: usize = if raw[0] == '@' {
                1
            } else {
                0
            };
            let mut k: usize = start;
            while k < raw.len()
                invariant
                    start <= k <= raw@.len(),
                    time@ == raw@.subrange(start as int, k as int),
                decreases raw@.len() - k,
            {
                time.push(raw[k]);
                proof {
                    assert(raw@.subrange(start as int, k + 1) =~= raw@.subrange(start as int, k as int).push(raw@[k as int]));
                }
                k += 1;
            }
            proof {
                if start == 1 {
                    assert(time@ =~= raw@.drop_first());
                } else {
                    assert(time@ =~= raw@);
                }
            }
            GotoRequest::Time(string_of(time.as_slice()))
        },
    }
}


/// What `str::to_lowercase` makes of `s`.
pub uninterp spec fn unicode_lower(s: Seq<char>) -> Seq<char>;

/// Calls `str::to_lowercase`, documented to lower-case each character by
/// the Unicode `Lowercase` property; for ASCII text that lower-cases the
/// letters and keeps everything else.
#[verifier::external_body]
fn to_lowercase(s: &str) -> (lower: String)
    ensures
        lower@ == unicode_lower(s@),
        vstd::utf8::is_ascii_chars(s@) ==> lower@ == crate::text::ascii_lower(s@),
{
    s.to_lowercase()
}

/// A command as the palette lists it.
#[derive(Clone, Copy, Debug)]
pub struct PaletteEntry {
    pub name: &'static str,
    pub category: &'static str,
}

/// A command matches a lower-cased query when the query is empty or occurs
/// in its lower-cased name or category.
pub open spec fn palette_hit(entry: PaletteEntry, query: Seq<char>) -> bool {
    query.len() == 0 || crate::text::contains_chars(unicode_lower(entry.name@), query)
        || crate::text::contains_chars(unicode_lower(entry.category@), query)
}

/// The positions of the commands that match, in list order.
pub open spec fn palette_hits(entries: Seq<PaletteEntry>, query: Seq<char>) -> Seq<usize>
    decreases entries.len(),
{
    if entries.len() == 0 {
        Seq::empty()
    } else {
        let earlier = palette_hits(entries.drop_last(), query);
        if palette_hit(entries.last(), query) {
            earlier.push((entries.len() - 1) as usize)
        } else {
            earlier
        }
    }
}

/// The commands the palette shows for what was typed (compared in lower
/// case), in list order.
pub fn palette_matches(entries: &[PaletteEntry], query: &str) -> (hits: Vec<usize>)
    ensures
        hits@ == palette_hits(entries@, unicode_lower(query@)),
{
    let lowered = to_lowercase(query);
    let q = crate::text::chars_of(lowered.as_str());
    let mut hits: Vec<usize> = Vec::new();
    let mut k: usize = 0;
    while k < entries.len()
        invariant
            k <= entries@.len(),
            q@ == unicode_lower(query@),
            hits@ == palette_hits(entries@.take(k as int), q@),
        decreases entries@.len() - k,
    {
        proof {
            assert(entries@.take(k + 1).drop_last() =~= entries@.take(k as int));
        }
        let entry = entries[k];
        let hit = if q.len() == 0 {
            true
        } else {
            let name = to_lowercase(entry.name);
            let name_chars = crate::text::chars_of(name.as_str());
            if crate::text::find_chars(name_chars.as_slice(), q.as_slice()) {
                true
            } else {
                let category = to_lowercase(entry.category);
                let category_chars = crate::text::chars_of(category.as_str());
                crate::text::find_chars(category_chars.as_slice(), q.as_slice())
            }
        };
        if hit {
            hits.push(k);
        }
        k += 1;
    }
    proof {
        assert(entries@.take(k as int) =~= entries@);
    }
    hits
}

/// The command Enter runs: the first one shown, if any.
pub fn palette_choice(entries: &[PaletteEntry], query: &str) -> (choice: Option<usize>)
    ensures
        choice == if palette_hits(entries@, unicode_lower(query@)).len() > 0 {
            Some(palette_hits(entries@, unicode_lower(query@))[0])
        } else {
            None
        },
{
    let hits = palette_matches(entries, query);
    if hits.len() > 0 {
        Some(hits[0])
    } else {
        None
    }
}

} // verus!
