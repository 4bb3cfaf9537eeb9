//! State of the Log View's popups: the short source previews of annotation
//! callouts, and the analysis bubble that pins a line or a range.

use vstd::prelude::*;

use crate::text::{chars_of, is_whitespace, push_char, string_of, unicode_whitespace};

verus! {

/// `s` cut to `max_chars` characters, with an ellipsis when anything was cut.
pub open spec fn truncated(s: Seq<char>, max_chars: int) -> Seq<char> {
    if s.len() > max_chars {
        s.take(max_chars) + seq!['…']
    } else {
        s
    }
}

fn truncate_chars(cs: &Vec<char>, max_chars: usize) -> (text: String)
    ensures
        text@ == truncated(cs@, max_chars as int),
{
    if cs.len() <= max_chars {
        return string_of(cs.as_slice());
    }
    let mut prefix: Vec<char> = Vec::new();
    let mut k: usize = 0;
    while k < max_chars
        invariant
            max_chars < cs@.len(),
            k <= max_chars,
            prefix@ == cs@.take(k as int),
        decreases max_chars - k,
    {
        prefix.push(cs[k]);
        proof {
            assert(cs@.take(k + 1) =~= cs@.take(k as int).push(cs@[k as int]));
        }
        k += 1;
    }
    let mut text = string_of(prefix.as_slice());
    push_char(&mut text, '…');
    text
}

/// A line cut to `max_chars` characters, with an ellipsis when longer.
pub fn truncate_line(line: &str, max_chars: usize) -> (text: String)
    ensures
        text@ == truncated(line@, max_chars as int),
{
    let cs = chars_of(line);
    truncate_chars(&cs, max_chars)
}

/// The words of `s` (its runs of non-white-space characters) joined by
/// single spaces.
pub open spec fn squeezed(s: Seq<char>) -> Seq<char>
    decreases s.len(),
{
    if s.len() == 0 {
        Seq::empty()
    } else if unicode_whitespace(s.last()) {
        squeezed(s.drop_last())
    } else {
        let earlier = s.drop_last();
        if earlier.len() > 0 && !unicode_whitespace(earlier.last()) {
            squeezed(earlier).push(s.last())
        } else if squeezed(earlier).len() == 0 {
            seq![s.last()]
        } else {
            squeezed(earlier).push(' ').push(s.last())
        }
    }
}

/// A source excerpt on one line: its words joined by single spaces, cut to
/// `max_chars` characters with an ellipsis when longer.
pub fn compact_source_preview(raw: &str, max_chars: usize) -> (text: String)
    ensures
        text@ == truncated(squeezed(raw@), max_chars as int),
{
    let cs = chars_of(raw);
    let mut out: Vec<char> = Vec::new();
    let mut k: usize = 0;
    while k < cs.len()
        invariant
            cs@ == raw@,
            k <= cs@.len(),
            out@ == squeezed(cs@.take(k as int)),
        decreases cs@.len() - k,
    {
        let c = cs[k];
        proof {
            assert(cs@.take(k + 1).drop_last() =~= cs@.take(k as int));
            assert(cs@.take(k + 1).last() == c);
            if k > 0 {
                assert(cs@.take(k as int).last() == cs@[k - 1]);
            }
        }
        if !is_whitespace(c) {
            if k > 0 && !is_whitespace(cs[k - 1]) {
                out.push(c);
            } else {
                if out.len() > 0 {
                    out.push(' ');
                }
                out.push(c);
            }
        }
        k += 1;
    }
    proof {
        assert(cs@.take(k as int) =~= cs@);
    }
    truncate_chars(&out, max_chars)
}

/// Whether the analysis bubble offers actions or edits a comment.
#[derive(Clone, Copy, Debug, PartialEq, Eq, Structural)]
pub enum AnalysisPopupMode {
    Actions,
    Editor,
}

/// An open analysis bubble; `R` is the screen rectangle type.
#[derive(Debug)]
pub struct AnalysisPopupState<R> {
    pub range: (usize, usize),
    pub anchor_rect: R,
    pub selected_rect: R,
    pub mode: AnalysisPopupMode,
    pub from_selection: bool,
    pub id: u64,
    pub ignore_outside_click: bool,
}

/// The analysis bubble and the line selection it may have come from; `R`
/// is the screen rectangle type and `P` the screen position type.
pub struct AnalysisSession<R, P> {
    pub next_popup_id: u64,
    pub pin_comment: String,
    pub popup: Option<AnalysisPopupState<R>>,
    pub selection_range: Option<(usize, usize)>,
    pub pending_selection: Option<(usize, usize)>,
    pub drag_start_pos: Option<P>,
    pub drag_start_line: Option<usize>,
    pub drag_current_line: Option<usize>,
    pub selection_popup_pos: Option<P>,
}

/// The session keeps its selection; only the bubble and comment may differ.
pub open spec fn same_selection<R, P>(a: AnalysisSession<R, P>, b: AnalysisSession<R, P>) -> bool {
    &&& a.selection_range == b.selection_range
    &&& a.pending_selection == b.pending_selection
    &&& a.drag_start_pos == b.drag_start_pos
    &&& a.drag_start_line == b.drag_start_line
    &&& a.drag_current_line == b.drag_current_line
    &&& a.selection_popup_pos == b.selection_popup_pos
}

/// The selection is gone: no range, no pending range, no drag, no
/// selection popup.
pub open spec fn selection_cleared<R, P>(s: AnalysisSession<R, P>) -> bool {
    &&& s.selection_range is None
    &&& s.pending_selection is None
    &&& s.drag_start_pos is None
    &&& s.drag_start_line is None
    &&& s.drag_current_line is None
    &&& s.selection_popup_pos is None
}

impl<R: Copy, P> AnalysisSession<R, P> {
    /// Opens a fresh bubble over `range` with a new id and an empty comment.
    pub fn open(&mut self, range: (usize, usize), anchor_rect: R, selected_rect: R, mode: AnalysisPopupMode, from_selection: bool)
        ensures
            final(self).next_popup_id == old(self).next_popup_id.wrapping_add(1),
            final(self).pin_comment@.len() == 0,
            final(self).popup == Some(
                AnalysisPopupState {
                    range,
                    anchor_rect,
                    selected_rect,
                    mode,
                    from_selection,
                    id: final(self).next_popup_id,
                    ignore_outside_click: true,
                },
            ),
            same_selection(*final(self), *old(self)),
    {
        self.next_popup_id = self.next_popup_id.wrapping_add(1);
        self.pin_comment = String::new();
        self.popup = Some(
            AnalysisPopupState {
                range,
                anchor_rect,
                selected_rect,
                mode,
                from_selection,
                id: self.next_popup_id,
                ignore_outside_click: true,
            },
        );
    }

    /// Opens the action bubble for a selection: anchored at the pointer's
    /// release point, remembering the selected rows' bounds.
    pub fn open_actions(&mut self, range: (usize, usize), cursor_rect: R, selected_rect: R)
        ensures
            final(self).next_popup_id == old(self).next_popup_id.wrapping_add(1),
            final(self).pin_comment@.len() == 0,
            final(self).popup == Some(
                AnalysisPopupState {
                    range,
                    anchor_rect: cursor_rect,
                    selected_rect,
                    mode: AnalysisPopupMode::Actions,
                    from_selection: true,
                    id: final(self).next_popup_id,
                    ignore_outside_click: true,
                },
            ),
            same_selection(*final(self), *old(self)),
    {
        self.open(range, cursor_rect, selected_rect, AnalysisPopupMode::Actions, true);
    }

    /// Opens the comment editor anchored at `anchor_rect`.
    pub fn open_editor(&mut self, range: (usize, usize), anchor_rect: R, from_selection: bool)
        ensures
            final(self).next_popup_id == old(self).next_popup_id.wrapping_add(1),
            final(self).pin_comment@.len() == 0,
            final(self).popup == Some(
                AnalysisPopupState {
                    range,
                    anchor_rect,
                    selected_rect: anchor_rect,
                    mode: AnalysisPopupMode::Editor,
                    from_selection,
                    id: final(self).next_popup_id,
                    ignore_outside_click: true,
                },
            ),
            same_selection(*final(self), *old(self)),
    {
        self.open(range, anchor_rect, anchor_rect, AnalysisPopupMode::Editor, from_selection);
    }

    /// Turns the action bubble into the editor, anchored at the selected
    /// rows rather than the pointer; the comment starts empty.
    pub fn switch_to_editor(&mut self)
        ensures
            final(self).pin_comment@.len() == 0,
            final(self).popup == match old(self).popup {
                Some(state) => Some(
                    AnalysisPopupState {
                        anchor_rect: state.selected_rect,
                        mode: AnalysisPopupMode::Editor,
                        ..state
                    },
                ),
                None => None,
            },
            final(self).next_popup_id == old(self).next_popup_id,
            same_selection(*final(self), *old(self)),
    {
        self.pin_comment = String::new();
        let switched = match &self.popup {
            Some(state) => Some(
                AnalysisPopupState {
                    range: state.range,
                    anchor_rect: state.selected_rect,
                    selected_rect: state.selected_rect,
                    mode: AnalysisPopupMode::Editor,
                    from_selection: state.from_selection,
                    id: state.id,
                    ignore_outside_click: state.ignore_outside_click,
                },
            ),
            None => None,
        };
        self.popup = switched;
    }

    /// Forgets the line selection.
    pub fn clear_selection(&mut self)
        ensures
            selection_cleared(*final(self)),
            final(self).popup == old(self).popup,
            final(self).pin_comment@ == old(self).pin_comment@,
            final(self).next_popup_id == old(self).next_popup_id,
    {
        self.selection_range = None;
        self.pending_selection = None;
        self.drag_start_pos = None;
        self.drag_start_line = None;
        self.drag_current_line = None;
        self.selection_popup_pos = None;
    }

    /// Closes the bubble and clears its comment; a bubble opened from a
    /// selection takes the selection with it.
    pub fn dismiss(&mut self)
        ensures
            final(self).popup is None,
            final(self).pin_comment@.len() == 0,
            final(self).next_popup_id == old(self).next_popup_id,
            if old(self).popup matches Some(state) && state.from_selection {
                selection_cleared(*final(self))
            } else {
                same_selection(*final(self), *old(self))
            },
    {
        let from_selection = match &self.popup {
            Some(state) => state.from_selection,
            None => false,
        };
        self.popup = None;
        self.pin_comment = String::new();
        if from_selection {
            self.clear_selection();
        }
    }

    /// After a pin was saved: the same as dismissing the bubble.
    pub fn clear_after_save(&mut self)
        ensures
            final(self).popup is None,
            final(self).pin_comment@.len() == 0,
            final(self).next_popup_id == old(self).next_popup_id,
            if old(self).popup matches Some(state) && state.from_selection {
                selection_cleared(*final(self))
            } else {
                same_selection(*final(self), *old(self))
            },
    {
        let from_selection = match &self.popup {
            Some(state) => state.from_selection,
            None => false,
        };
        self.popup = None;
        self.pin_comment = String::new();
        if from_selection {
            self.clear_selection();
        }
    }
}


/// `s` without a trailing carriage return.
pub open spec fn strip_cr(s: Seq<char>) -> Seq<char> {
    if s.len() > 0 && s.last() == '\r' {
        s.drop_last()
    } else {
        s
    }
}

/// Splitting `s` at line feeds: the finished lines (carriage return
/// before the line feed dropped) and the line still open.
pub open spec fn lines_fold(s: Seq<char>) -> (Seq<Seq<char>>, Seq<char>)
    decreases s.len(),
{
    if s.len() == 0 {
        (Seq::empty(), Seq::empty())
    } else {
        let (done, current) = lines_fold(s.drop_last());
        if s.last() == '\n' {
            (done.push(strip_cr(current)), Seq::empty())
        } else {
            (done, current.push(s.last()))
        }
    }
}

/// The lines of `s` as `str::lines` gives them: split at `\n` or `\r\n`,
/// with no empty line after a final line ending.
pub open spec fn text_lines(s: Seq<char>) -> Seq<Seq<char>> {
    let (done, current) = lines_fold(s);
    if current.len() > 0 {
        done.push(current)
    } else {
        done
    }
}

/// The most lines a callout previews.
pub const PREVIEW_MAX_LINES: usize = 32;

/// The most characters of one previewed line.
pub const PREVIEW_MAX_LINE_CHARS: usize = 72;

/// Each line cut to the preview width.
pub open spec fn cut_lines(lines: Seq<Seq<char>>) -> Seq<Seq<char>> {
    lines.map_values(|line: Seq<char>| truncated(line, PREVIEW_MAX_LINE_CHARS as int))
}

/// The note that replaces the lines a preview leaves out.
pub open spec fn omitted_note(omitted: nat) -> Seq<char> {
    "… "@ + crate::text::decimal(omitted) + " more lines; open inspector for all"@
}

/// What a callout shows of a payload: for structured data its pretty text,
/// line by line (at least one line, at most `PREVIEW_MAX_LINES` with the
/// last saying how many were left out); otherwise the source excerpt on one
/// line. Every line is cut to `PREVIEW_MAX_LINE_CHARS` characters.
pub open spec fn callout_lines(structured: bool, pretty: Seq<char>, raw: Seq<char>) -> Seq<Seq<char>> {
    if !structured {
        seq![truncated(truncated(squeezed(raw), 180), PREVIEW_MAX_LINE_CHARS as int)]
    } else {
        let lines = cut_lines(text_lines(pretty));
        if lines.len() == 0 {
            seq![Seq::empty()]
        } else if lines.len() > PREVIEW_MAX_LINES {
            lines.take(PREVIEW_MAX_LINES - 1).push(omitted_note((lines.len() - PREVIEW_MAX_LINES + 1) as nat))
        } else {
            lines
        }
    }
}

/// The views of a list of strings.
pub open spec fn string_views(v: Seq<String>) -> Seq<Seq<char>> {
    v.map_values(|s: String| s@)
}

fn split_lines(text: &str) -> (lines: Vec<String>)
    ensures
        string_views(lines@) == text_lines(text@),
{
    let cs = chars_of(text);
    let mut done: Vec<String> = Vec::new();
    let mut current: Vec<char> = Vec::new();
    let mut k: usize = 0;
    while k < cs.len()
        invariant
            cs@ == text@,
            k <= cs@.len(),
            (string_views(done@), current@) == lines_fold(cs@.take(k as int)),
        decreases cs@.len() - k,
    {
        proof {
            assert(cs@.take(k + 1).drop_last() =~= cs@.take(k as int));
        }
        let c = cs[k];
        if c == '\n' {
            let ghost before = done@;
            let mut end = current.len();
            if end > 0 && current[end - 1] == '\r' {
                end = end - 1;
            }
            let piece = string_of(vstd::slice::slice_subrange(current.as_slice(), 0, end));
            proof {
                assert(piece@ =~= strip_cr(current@));
            }
            done.push(piece);
            proof {
                assert(string_views(done@) =~= string_views(before).push(strip_cr(current@)));
            }
            current = Vec::new();
        } else {
            current.push(c);
        }
        k += 1;
    }
    proof {
        assert(cs@.take(k as int) =~= cs@);
    }
    if current.len() > 0 {
        let ghost before = done@;
        let last = string_of(current.as_slice());
        done.push(last);
        proof {
            assert(string_views(done@) =~= string_views(before).push(current@));
        }
    }
    done
}

/// What a callout shows of a payload (see `callout_lines`): `structured`
/// tells whether the payload is an object or array, `pretty` is its pretty
/// text and `raw` its source text.
pub fn preview_lines(structured: bool, pretty: &str, raw: &str) -> (lines: Vec<String>)
    ensures
        string_views(lines@) == callout_lines(structured, pretty@, raw@),
{
    if !structured {
        let excerpt = compact_source_preview(raw, 180);
        let line = truncate_line(excerpt.as_str(), PREVIEW_MAX_LINE_CHARS);
        let mut lines: Vec<String> = Vec::new();
        lines.push(line);
        proof {
            assert(string_views(lines@) =~= seq![line@]);
        }
        return lines;
    }
    let raw_lines = split_lines(pretty);
    let mut lines: Vec<String> = Vec::new();
    let mut k: usize = 0;
    while k < raw_lines.len()
        invariant
            k <= raw_lines@.len(),
            string_views(raw_lines@) == text_lines(pretty@),
            string_views(lines@) == cut_lines(text_lines(pretty@)).take(k as int),
        decreases raw_lines@.len() - k,
    {
        let ghost before = lines@;
        let line = truncate_line(raw_lines[k].as_str(), PREVIEW_MAX_LINE_CHARS);
        lines.push(line);
        proof {
            let all = text_lines(pretty@);
            assert(string_views(raw_lines@).len() == raw_lines@.len());
            assert(all[k as int] == raw_lines@[k as int]@);
            assert(string_views(lines@) =~= string_views(before).push(line@));
            assert(cut_lines(all).take(k + 1) =~= cut_lines(all).take(k as int).push(
                truncated(all[k as int], PREVIEW_MAX_LINE_CHARS as int),
            ));
        }
        k += 1;
    }
    proof {
        assert(cut_lines(text_lines(pretty@)).take(k as int) =~= cut_lines(text_lines(pretty@)));
    }
    if lines.len() == 0 {
        lines.push(String::new());
        proof {
            assert(string_views(lines@) =~= seq![Seq::<char>::empty()]);
        }
        return lines;
    }
    if lines.len() > PREVIEW_MAX_LINES {
        let omitted = lines.len() - PREVIEW_MAX_LINES + 1;
        let ghost before = lines@;
        lines.truncate(PREVIEW_MAX_LINES - 1);
        let mut note = String::new();
        crate::text::push_str(&mut note, "… ");
        crate::text::push_decimal(&mut note, omitted as u64);
        crate::text::push_str(&mut note, " more lines; open inspector for all");
        lines.push(note);
        proof {
            assert(string_views(lines@) =~= string_views(before).take(PREVIEW_MAX_LINES - 1).push(
                omitted_note(omitted as nat),
            ));
        }
    }
    lines
}

} // verus!
