//! Text that the Log View copies out of a document: a range of lines (with
//! optional line numbers and without timestamps) and the context around a
//! filter occurrence.

use std::ops::Range;

use vstd::prelude::*;
use vstd::utf8::*;

use crate::logview::line_range;
use crate::text::{
    byte_offset, chars_and_offsets, decimal, is_whitespace, lemma_offset_monotone, push_char,
    push_decimal, push_str, string_of, trim_start,
};

verus! {

/// The lines of a document as the copy commands and the occurrence overlay
/// read them.
pub struct LogLines {
    /// Source line number (from zero) of the first line of the trim window.
    pub trim_start: usize,
    /// The text of each line in the window.
    pub lines: Vec<String>,
    /// The byte range of each line's explicit timestamp, where it has one.
    pub timestamps: Vec<Option<Range<usize>>>,
    /// The time of each line in milliseconds, where it has one.
    pub times: Vec<Option<i64>>,
}

/// The one-based source line number of line `line`, and a colon.
pub open spec fn numbered(doc: LogLines, line: int) -> Seq<char> {
    decimal((doc.trim_start + line + 1) as nat) + ": "@
}

/// The character index at byte `cut` of `s`.
pub open spec fn char_index_at(s: Seq<char>, cut: int) -> int {
    choose|k: int| 0 <= k <= s.len() && byte_offset(s, k) == cut
}

/// `cut` is a character boundary of `s`.
pub open spec fn on_boundary(s: Seq<char>, cut: int) -> bool {
    exists|k: int| 0 <= k <= s.len() && byte_offset(s, k) == cut
}

/// Where a line's text starts once its timestamp is dropped: the end of
/// the timestamp's byte range, or the end of the line if that is sooner.
pub open spec fn timestamp_cut(doc: LogLines, line: int) -> int {
    let source = doc.lines@[line]@;
    match doc.timestamps@[line] {
        Some(range) => if range.end <= encode_utf8(source).len() {
            range.end as int
        } else {
            encode_utf8(source).len() as int
        },
        None => 0,
    }
}

/// The text of line `line` as copied: without its timestamp (and the white
/// space after it) when asked and the line has one.
pub open spec fn copied_text(doc: LogLines, line: int, without_timestamp: bool) -> Seq<char> {
    let source = doc.lines@[line]@;
    if without_timestamp && doc.timestamps@[line] is Some {
        trim_start(source.skip(char_index_at(source, timestamp_cut(doc, line))))
    } else {
        source
    }
}

/// One copied line, with its number in front when asked.
pub open spec fn copied_piece(doc: LogLines, line: int, with_line_numbers: bool, without_timestamp: bool) -> Seq<char> {
    (if with_line_numbers {
        numbered(doc, line)
    } else {
        Seq::empty()
    }) + copied_text(doc, line, without_timestamp)
}

/// The first `n` lines from `start` as copied: a newline goes before each
/// piece once some text has been written.
pub open spec fn copied_lines(
    doc: LogLines,
    start: int,
    n: int,
    with_line_numbers: bool,
    without_timestamp: bool,
) -> Seq<char>
    decreases n,
{
    if n <= 0 {
        Seq::empty()
    } else {
        let earlier = copied_lines(doc, start, n - 1, with_line_numbers, without_timestamp);
        let separator = if earlier.len() > 0 {
            seq!['\n']
        } else {
            Seq::empty()
        };
        earlier + separator + copied_piece(doc, start + n - 1, with_line_numbers, without_timestamp)
    }
}

/// Law: a copied line with line numbers is the same line copied without
/// them, behind its one-based source line number (the trim window's first
/// line number plus its position plus one) and a colon; the occurrence
/// context numbers a line the same way.
pub proof fn law_copied_lines_carry_source_line_numbers(doc: LogLines, line: usize, without_timestamp: bool)
    ensures
        copied_lines(doc, line as int, 1, true, without_timestamp) == decimal((doc.trim_start + line + 1) as nat)
            + ": "@ + copied_lines(doc, line as int, 1, false, without_timestamp),
        context_row(doc, line) == decimal((doc.trim_start + line + 1) as nat) + ": "@ + doc.lines@[line as int]@,
{
    assert(copied_lines(doc, line as int, 0, true, without_timestamp).len() == 0);
    assert(copied_lines(doc, line as int, 0, false, without_timestamp).len() == 0);
    let plain = copied_text(doc, line as int, without_timestamp);
    assert(copied_lines(doc, line as int, 1, false, without_timestamp) =~= plain);
    assert(copied_lines(doc, line as int, 1, true, without_timestamp) =~= decimal((doc.trim_start + line + 1) as nat)
        + ": "@ + plain);
}

/// The last line a copy of `start..=end` takes: `end`, or the document's
/// last line if that comes first.
pub open spec fn last_copied(doc: LogLines, end: usize) -> int {
    let last_line = if doc.lines@.len() == 0 {
        0
    } else {
        doc.lines@.len() - 1
    };
    if end <= last_line {
        end as int
    } else {
        last_line
    }
}

/// The lines that a copy of `start..=end` visits can be read: they exist,
/// their numbers fit, and a timestamp to drop ends on a character boundary.
pub open spec fn copy_readable(
    doc: LogLines,
    start: usize,
    end: usize,
    with_line_numbers: bool,
    without_timestamp: bool,
) -> bool {
    forall|line: int|
        start <= line <= last_copied(doc, end) ==> {
            &&& line < doc.lines@.len()
            &&& line < doc.timestamps@.len()
            &&& with_line_numbers ==> doc.trim_start + line + 1 <= usize::MAX
            &&& (without_timestamp && doc.timestamps@[line] is Some) ==> on_boundary(
                #[trigger] doc.lines@[line]@,
                timestamp_cut(doc, line),
            )
        }
}

proof fn lemma_char_index_unique(s: Seq<char>, k: int, cut: int)
    requires
        0 <= k <= s.len(),
        byte_offset(s, k) == cut,
    ensures
        char_index_at(s, cut) == k,
{
    let j = char_index_at(s, cut);
    assert(0 <= j <= s.len() && byte_offset(s, j) == cut);
    if j < k {
        lemma_offset_monotone(s, j, k);
    } else if k < j {
        lemma_offset_monotone(s, k, j);
    }
}

/// The text of `source` from byte `cut` on, leading white space dropped.
fn text_after(source: &str, cut: usize) -> (text: String)
    requires
        on_boundary(source@, cut as int),
    ensures
        text@ == trim_start(source@.skip(char_index_at(source@, cut as int))),
{
    let (cs, offsets) = chars_and_offsets(source);
    let mut k: usize = 0;
    while k < cs.len() && offsets[k] != cut
        invariant
            cs@ == source@,
            offsets@.len() == cs@.len() + 1,
            forall|j: int| 0 <= j <= cs@.len() ==> #[trigger] offsets@[j] as int == byte_offset(cs@, j),
            k <= cs@.len(),
            forall|j: int| 0 <= j < k ==> byte_offset(cs@, j) != cut,
        decreases cs@.len() - k,
    {
        k += 1;
    }
    proof {
        let w = choose|w: int| 0 <= w <= source@.len() && byte_offset(source@, w) == cut;
        if k == cs.len() && offsets@[k as int] != cut {
            assert(w < k || w == k);
            assert(false);
        }
        lemma_char_index_unique(source@, k as int, cut as int);
    }
    let ghost rest = source@.skip(k as int);
    let mut j: usize = k;
    while j < cs.len() && is_whitespace(cs[j])
        invariant
            cs@ == source@,
            k <= j <= cs@.len(),
            rest == source@.skip(k as int),
            trim_start(rest) == trim_start(source@.skip(j as int)),
        decreases cs@.len() - j,
    {
        proof {
            assert(source@.skip(j as int).drop_first() =~= source@.skip(j + 1));
        }
        j += 1;
    }
    proof {
        if j < cs.len() {
            assert(source@.skip(j as int)[0] == cs@[j as int]);
        }
        assert(trim_start(source@.skip(j as int)) == source@.skip(j as int));
    }
    let mut out: Vec<char> = Vec::new();
    let mut m: usize = j;
    while m < cs.len()
        invariant
            cs@ == source@,
            j <= m <= cs@.len(),
            out@ == source@.subrange(j as int, m as int),
        decreases cs@.len() - m,
    {
        out.push(cs[m]);
        proof {
            assert(source@.subrange(j as int, m + 1) =~= source@.subrange(j as int, m as int).push(source@[m as int]));
        }
        m += 1;
    }
    proof {
        assert(out@ =~= source@.skip(j as int));
    }
    string_of(out.as_slice())
}

fn copy_line(doc: &LogLines, line: usize, without_timestamp: bool) -> (text: String)
    requires
        line < doc.lines@.len(),
        line < doc.timestamps@.len(),
        (without_timestamp && doc.timestamps@[line as int] is Some) ==> on_boundary(
            doc.lines@[line as int]@,
            timestamp_cut(*doc, line as int),
        ),
    ensures
        text@ == copied_text(*doc, line as int, without_timestamp),
{
    let source = doc.lines[line].as_str();
    if without_timestamp {
        match &doc.timestamps[line] {
            Some(range) => {
                let total = source.as_bytes().len();
                let cut = if range.end <= total {
                    range.end
                } else {
                    total
                };
                return text_after(source, cut);
            },
            None => {},
        }
    }
    source.to_owned()
}

/// Lines `start..=end` (cut at the document's last line) as text, one per
/// line, with one-based source line numbers when asked and without their
/// timestamps when asked.
pub fn lines_text(
    doc: &LogLines,
    start: usize,
    end: usize,
    with_line_numbers: bool,
    without_timestamp: bool,
) -> (text: String)
    requires
        copy_readable(*doc, start, end, with_line_numbers, without_timestamp),
    ensures
        text@ == copied_lines(
            *doc,
            start as int,
            if start <= last_copied(*doc, end) {
                last_copied(*doc, end) - start + 1
            } else {
                0
            },
            with_line_numbers,
            without_timestamp,
        ),
{
    let total = doc.lines.len();
    let last_line = if total == 0 {
        0
    } else {
        total - 1
    };
    let last = if end <= last_line {
        end
    } else {
        last_line
    };
    let mut out = String::new();
    if start > last {
        return out;
    }
    let mut line: usize = start;
    loop
        invariant_except_break
            start <= line <= last,
            last as int == last_copied(*doc, end),
            copy_readable(*doc, start, end, with_line_numbers, without_timestamp),
            out@ == copied_lines(*doc, start as int, line - start, with_line_numbers, without_timestamp),
        ensures
            out@ == copied_lines(*doc, start as int, last - start + 1, with_line_numbers, without_timestamp),
        decreases last - line,
    {
        let ghost before = out@;
        proof {
            // Names the line's text so that `copy_readable` speaks of it.
            let source = doc.lines@[line as int]@;
        }
        if !out.as_str().is_empty() {
            push_char(&mut out, '\n');
        }
        if with_line_numbers {
            push_decimal(&mut out, (doc.trim_start + line + 1) as u64);
            push_str(&mut out, ": ");
        }
        let piece = copy_line(doc, line, without_timestamp);
        push_str(&mut out, piece.as_str());
        proof {
            let separator = if before.len() > 0 {
                seq!['\n']
            } else {
                Seq::<char>::empty()
            };
            assert(out@ =~= before + separator + copied_piece(*doc, line as int, with_line_numbers, without_timestamp));
        }
        if line == last {
            break;
        }
        line += 1;
    }
    out
}

/// The text one line contributes to an export of the current view: the
/// line as copied, or nothing when it lies past the document's end.
pub open spec fn exported_line(doc: LogLines, line: usize) -> Seq<char> {
    copied_lines(doc, line as int, if line <= last_copied(doc, line) { 1 } else { 0 }, false, false)
}

/// The rows of a filtered view, exported one per line.
pub open spec fn exported_rows(doc: LogLines, lines: Seq<u32>) -> Seq<char>
    decreases lines.len(),
{
    if lines.len() == 0 {
        Seq::empty()
    } else if lines.len() == 1 {
        exported_line(doc, lines[0] as usize)
    } else {
        exported_rows(doc, lines.drop_last()) + seq!['\n'] + exported_line(doc, lines.last() as usize)
    }
}

/// The rows of the current view as exported text: the visible lines of a
/// filtered view, one per line, or every line of the document (none of an
/// empty one).
pub open spec fn current_view(doc: LogLines, visible: Option<Seq<u32>>) -> Seq<char> {
    match visible {
        Some(lines) => exported_rows(doc, lines),
        None => if doc.lines@.len() == 0 {
            Seq::empty()
        } else {
            copied_lines(doc, 0, doc.lines@.len() as int, false, false)
        },
    }
}

/// The rows of the current view as text (see `current_view`).
pub fn current_view_text(doc: &LogLines, visible: Option<&[u32]>) -> (text: String)
    requires
        match visible {
            Some(lines) => forall|k: int|
                0 <= k < lines@.len() ==> copy_readable(*doc, #[trigger] lines@[k] as usize, lines@[k] as usize, false, false),
            None => doc.lines@.len() > 0 ==> copy_readable(*doc, 0, (doc.lines@.len() - 1) as usize, false, false),
        },
    ensures
        text@ == current_view(*doc, match visible {
            Some(lines) => Some(lines@),
            None => None,
        }),
{
    match visible {
        Some(lines) => {
            let mut out = String::new();
            let mut k: usize = 0;
            while k < lines.len()
                invariant
                    k <= lines@.len(),
                    forall|j: int|
                        0 <= j < lines@.len() ==> copy_readable(*doc, #[trigger] lines@[j] as usize, lines@[j] as usize, false, false),
                    out@ == exported_rows(*doc, lines@.take(k as int)),
                decreases lines@.len() - k,
            {
                let line = lines[k] as usize;
                let piece = lines_text(doc, line, line, false, false);
                if k > 0 {
                    push_char(&mut out, '\n');
                }
                push_str(&mut out, piece.as_str());
                proof {
                    let taken = lines@.take(k + 1);
                    assert(taken.drop_last() =~= lines@.take(k as int));
                    assert(taken.last() == lines@[k as int]);
                    if k == 0 {
                        assert(out@ =~= exported_line(*doc, line));
                    }
                }
                k += 1;
            }
            proof {
                assert(lines@.take(k as int) =~= lines@);
            }
            out
        },
        None => {
            let total = doc.lines.len();
            if total == 0 {
                return String::new();
            }
            lines_text(doc, 0, total - 1, false, false)
        },
    }
}

/// One numbered row of the occurrence context.
pub open spec fn context_row(doc: LogLines, line: usize) -> Seq<char> {
    numbered(doc, line as int) + doc.lines@[line as int]@
}

/// Numbered rows, one per line.
pub open spec fn context_rows(doc: LogLines, lines: Seq<usize>) -> Seq<char>
    decreases lines.len(),
{
    if lines.len() == 0 {
        Seq::empty()
    } else if lines.len() == 1 {
        context_row(doc, lines[0])
    } else {
        context_rows(doc, lines.drop_last()) + seq!['\n'] + context_row(doc, lines.last())
    }
}

/// The occurrence context as text: the rows before, the selected row and
/// the rows after, each group separated by a blank line.
pub open spec fn context_of(doc: LogLines, before: Seq<usize>, selected_line: usize, after: Seq<usize>) -> Seq<char> {
    (if before.len() > 0 {
        context_rows(doc, before) + "\n\n"@
    } else {
        Seq::empty()
    }) + context_row(doc, selected_line) + (if after.len() > 0 {
        "\n\n"@ + context_rows(doc, after)
    } else {
        Seq::empty()
    })
}

/// The lines can be numbered and read.
pub open spec fn rows_readable(doc: LogLines, lines: Seq<usize>) -> bool {
    forall|k: int|
        0 <= k < lines.len() ==> #[trigger] lines[k] < doc.lines@.len() && doc.trim_start + lines[k] + 1
            <= usize::MAX
}

fn push_context_row(out: &mut String, doc: &LogLines, line: usize)
    requires
        line < doc.lines@.len(),
        doc.trim_start + line + 1 <= usize::MAX,
    ensures
        final(out)@ == old(out)@ + context_row(*doc, line),
{
    push_decimal(out, (doc.trim_start + line + 1) as u64);
    push_str(out, ": ");
    push_str(out, doc.lines[line].as_str());
}

fn push_context_rows(out: &mut String, doc: &LogLines, lines: &[usize])
    requires
        rows_readable(*doc, lines@),
    ensures
        final(out)@ == old(out)@ + context_rows(*doc, lines@),
{
    let mut k: usize = 0;
    while k < lines.len()
        invariant
            rows_readable(*doc, lines@),
            k <= lines@.len(),
            out@ == old(out)@ + context_rows(*doc, lines@.take(k as int)),
        decreases lines@.len() - k,
    {
        let ghost before = out@;
        if k > 0 {
            push_char(out, '\n');
        }
        push_context_row(out, doc, lines[k]);
        proof {
            assert(lines@.take(k + 1).drop_last() =~= lines@.take(k as int));
            if k == 0 {
                assert(lines@.take(1)[0] == lines@[0]);
                assert(context_rows(*doc, lines@.take(0)) =~= Seq::<char>::empty());
            }
            assert(out@ =~= old(out)@ + context_rows(*doc, lines@.take(k + 1)));
        }
        k += 1;
    }
    proof {
        assert(lines@.take(k as int) =~= lines@);
    }
}

/// The occurrence context as text (see `context_of`).
pub fn context_text(doc: &LogLines, before: &[usize], selected_line: usize, after: &[usize]) -> (text: String)
    requires
        rows_readable(*doc, before@),
        rows_readable(*doc, after@),
        selected_line < doc.lines@.len(),
        doc.trim_start + selected_line + 1 <= usize::MAX,
    ensures
        text@ == context_of(*doc, before@, selected_line, after@),
{
    let mut out = String::new();
    if before.len() > 0 {
        push_context_rows(&mut out, doc, before);
        push_str(&mut out, "\n\n");
    }
    push_context_row(&mut out, doc, selected_line);
    if after.len() > 0 {
        push_str(&mut out, "\n\n");
        push_context_rows(&mut out, doc, after);
    }
    proof {
        assert(out@ =~= context_of(*doc, before@, selected_line, after@));
    }
    out
}


/// What the timeline measures: line positions or times.
#[derive(Clone, Copy, Debug, PartialEq, Eq, Structural)]
pub enum TimelineDomain {
    Sequence,
    Time,
}

/// The lines whose time lies in `start..=end`, among the first `n`.
pub open spec fn timed_lines(times: Seq<Option<i64>>, n: int, start: i64, end: i64) -> Seq<usize>
    decreases n,
{
    if n <= 0 {
        Seq::empty()
    } else {
        let earlier = timed_lines(times, n - 1, start, end);
        if times[n - 1] matches Some(t) && start <= t <= end {
            earlier.push((n - 1) as usize)
        } else {
            earlier
        }
    }
}

/// The lines inside a timeline zoom: the line range it spans (cut at the
/// last line) for a sequence timeline, the lines timed inside it for a time
/// timeline; none without a zoom.
pub open spec fn timeline_lines(doc: LogLines, zoom: Option<(i64, i64)>, domain: TimelineDomain) -> Seq<usize> {
    match zoom {
        None => Seq::empty(),
        Some((start, end)) => match domain {
            TimelineDomain::Sequence => {
                let first = (if start >= 0 {
                    start
                } else {
                    0
                }) as usize;
                let last = (if end >= 0 {
                    end
                } else {
                    0
                }) as usize;
                let final_line = if doc.lines@.len() == 0 {
                    0usize
                } else {
                    (doc.lines@.len() - 1) as usize
                };
                line_range(first, if last <= final_line {
                    last
                } else {
                    final_line
                })
            },
            TimelineDomain::Time => timed_lines(doc.times@, doc.lines@.len() as int, start, end),
        },
    }
}

/// The texts of the lines, one per line.
pub open spec fn joined_lines(doc: LogLines, lines: Seq<usize>) -> Seq<char>
    decreases lines.len(),
{
    if lines.len() == 0 {
        Seq::empty()
    } else if lines.len() == 1 {
        doc.lines@[lines[0] as int]@
    } else {
        joined_lines(doc, lines.drop_last()) + seq!['\n'] + doc.lines@[lines.last() as int]@
    }
}

fn push_joined(out: &mut String, doc: &LogLines, lines: &Vec<usize>)
    requires
        old(out)@.len() == 0,
        forall|k: int| 0 <= k < lines@.len() ==> #[trigger] lines@[k] < doc.lines@.len(),
    ensures
        final(out)@ == joined_lines(*doc, lines@),
{
    let mut k: usize = 0;
    while k < lines.len()
        invariant
            forall|j: int| 0 <= j < lines@.len() ==> #[trigger] lines@[j] < doc.lines@.len(),
            k <= lines@.len(),
            out@ == joined_lines(*doc, lines@.take(k as int)),
        decreases lines@.len() - k,
    {
        let ghost before = out@;
        if k > 0 {
            push_char(out, '\n');
        }
        push_str(out, doc.lines[lines[k]].as_str());
        proof {
            assert(lines@.take(k + 1).drop_last() =~= lines@.take(k as int));
            if k == 0 {
                assert(lines@.take(1)[0] == lines@[0]);
            }
            assert(out@ =~= joined_lines(*doc, lines@.take(k + 1)));
        }
        k += 1;
    }
    proof {
        assert(lines@.take(k as int) =~= lines@);
    }
}

/// The text of the lines inside the timeline zoom, one per line.
pub fn timeline_range_text(doc: &LogLines, zoom: Option<(i64, i64)>, domain: TimelineDomain) -> (text: String)
    requires
        doc.times@.len() == doc.lines@.len(),
        forall|k: int|
            0 <= k < timeline_lines(*doc, zoom, domain).len() ==> #[trigger] timeline_lines(*doc, zoom, domain)[k]
                < doc.lines@.len(),
    ensures
        text@ == joined_lines(*doc, timeline_lines(*doc, zoom, domain)),
{
    let (start, end) = match zoom {
        None => {
            return String::new();
        },
        Some(range) => range,
    };
    let total = doc.lines.len();
    let mut lines: Vec<usize> = Vec::new();
    match domain {
        TimelineDomain::Sequence => {
            let first = (if start >= 0 {
                start
            } else {
                0
            }) as usize;
            let last = (if end >= 0 {
                end
            } else {
                0
            }) as usize;
            let final_line: usize = if total == 0 {
                0
            } else {
                total - 1
            };
            let stop = if last <= final_line {
                last
            } else {
                final_line
            };
            if first <= stop {
                let mut line: usize = first;
                loop
                    invariant_except_break
                        first <= line <= stop,
                        lines@ == line_range(first, stop).take(line - first),
                    ensures
                        lines@ == line_range(first, stop),
                    decreases stop - line,
                {
                    lines.push(line);
                    proof {
                        assert(line_range(first, stop).take(line - first + 1) =~= line_range(first, stop).take(
                            line - first,
                        ).push(line));
                    }
                    if line == stop {
                        proof {
                            assert(line_range(first, stop).take(line - first + 1) =~= line_range(first, stop));
                        }
                        break;
                    }
                    line += 1;
                }
            } else {
                assert(lines@ =~= line_range(first, stop));
            }
        },
        TimelineDomain::Time => {
            let mut line: usize = 0;
            while line < total
                invariant
                    total == doc.lines@.len(),
                    doc.times@.len() == doc.lines@.len(),
                    line <= total,
                    lines@ == timed_lines(doc.times@, line as int, start, end),
                decreases total - line,
            {
                match doc.times[line] {
                    Some(t) => {
                        if start <= t && t <= end {
                            lines.push(line);
                        }
                    },
                    None => {},
                }
                line += 1;
            }
        },
    }
    assert(lines@ == timeline_lines(*doc, zoom, domain));
    assert forall|k: int| 0 <= k < lines@.len() implies #[trigger] lines@[k] < doc.lines@.len() by {
        assert(lines@[k] == timeline_lines(*doc, zoom, domain)[k]);
    }
    let mut out = String::new();
    push_joined(&mut out, doc, &lines);
    out
}

} // verus!
