//! The Templates view: per-template occurrence rows with anomaly flags,
//! their sort order, the query filter, and occurrence navigation.

use std::collections::HashMap;
use std::sync::Arc;

use vstd::prelude::*;

use crate::text::{
    ascii_lower, chars_of, contains_chars, decimal, find_chars, lower_chars, push_char,
    push_decimal, push_str, str_eq, string_of, trim, trimmed_chars,
};

verus! {

broadcast use vstd::std_specs::hash::group_hash_axioms;

/// How the template rows are ordered.
#[derive(Clone, Copy, Debug, PartialEq, Eq, Structural)]
pub enum TemplateSort {
    Count,
    FirstSeen,
    LastSeen,
    Rarity,
}

impl Default for TemplateSort {
    fn default() -> (sort: TemplateSort)
        ensures
            sort == TemplateSort::Count,
    {
        TemplateSort::Count
    }
}

impl TemplateSort {
    /// Every sort order, in menu order.
    pub fn all() -> (sorts: [TemplateSort; 4])
        ensures
            sorts@ == seq![
                TemplateSort::Count,
                TemplateSort::FirstSeen,
                TemplateSort::LastSeen,
                TemplateSort::Rarity,
            ],
    {
        let sorts = [TemplateSort::Count, TemplateSort::FirstSeen, TemplateSort::LastSeen, TemplateSort::Rarity];
        assert(sorts@ =~= seq![
            TemplateSort::Count,
            TemplateSort::FirstSeen,
            TemplateSort::LastSeen,
            TemplateSort::Rarity,
        ]);
        sorts
    }

    /// The menu label of a sort order.
    pub fn label(self) -> (label: &'static str)
        ensures
            label@ == match self {
                TemplateSort::Count => "Count"@,
                TemplateSort::FirstSeen => "First seen"@,
                TemplateSort::LastSeen => "Last seen"@,
                TemplateSort::Rarity => "Rarity"@,
            },
    {
        match self {
            TemplateSort::Count => "Count",
            TemplateSort::FirstSeen => "First seen",
            TemplateSort::LastSeen => "Last seen",
            TemplateSort::Rarity => "Rarity",
        }
    }
}

/// The list is sorted in non-decreasing order.
pub open spec fn sorted_lines(lines: Seq<usize>) -> bool {
    forall|i: int, j: int| 0 <= i <= j < lines.len() ==> lines[i] <= lines[j]
}

/// Number of leading lines below `target` (or at most `target`).
pub open spec fn lines_before(lines: Seq<usize>, target: int, inclusive: bool) -> int
    decreases lines.len(),
{
    if lines.len() == 0 {
        0
    } else if (if inclusive {
        lines.last() <= target
    } else {
        lines.last() < target
    }) {
        lines.len() as int
    } else {
        lines_before(lines.drop_last(), target, inclusive)
    }
}

fn precedes(line: usize, target: usize, inclusive: bool) -> (r: bool)
    ensures
        r == if inclusive {
            line <= target
        } else {
            line < target
        },
{
    if inclusive {
        line <= target
    } else {
        line < target
    }
}

fn count_lines_before(lines: &[usize], target: usize, inclusive: bool) -> (n: usize)
    requires
        sorted_lines(lines@),
    ensures
        n == lines_before(lines@, target as int, inclusive),
        n <= lines@.len(),
        forall|k: int| 0 <= k < n ==> if inclusive {
            #[trigger] lines@[k] <= target
        } else {
            lines@[k] < target
        },
        forall|k: int| n <= k < lines@.len() ==> if inclusive {
            #[trigger] lines@[k] > target
        } else {
            lines@[k] >= target
        },
{
    let mut n: usize = lines.len();
    assert(lines@.subrange(0, n as int) =~= lines@);
    while n > 0 && !precedes(lines[n - 1], target, inclusive)
        invariant
            sorted_lines(lines@),
            n <= lines@.len(),
            lines_before(lines@, target as int, inclusive) == lines_before(lines@.subrange(0, n as int), target as int, inclusive),
            forall|k: int| n <= k < lines@.len() ==> if inclusive {
                #[trigger] lines@[k] > target
            } else {
                lines@[k] >= target
            },
        decreases n,
    {
        proof {
            assert(lines@.subrange(0, n as int).drop_last() =~= lines@.subrange(0, n - 1));
        }
        n -= 1;
    }
    proof {
        if n > 0 {
            assert(lines@.subrange(0, n as int).last() == lines@[n - 1]);
        } else {
            assert(lines@.subrange(0, 0) =~= Seq::<usize>::empty());
        }
        assert forall|k: int| 0 <= k < n implies if inclusive {
            #[trigger] lines@[k] <= target
        } else {
            lines@[k] < target
        } by {
            assert(lines@[k] <= lines@[n - 1]);
        }
    }
    n
}

/// The occurrence closest to `target`, preferring the earlier one on a tie.
pub open spec fn nearest(lines: Seq<usize>, target: int) -> Option<usize> {
    let pos = lines_before(lines, target, false);
    if pos > 0 && pos < lines.len() {
        if target - lines[pos - 1] <= lines[pos] - target {
            Some(lines[pos - 1])
        } else {
            Some(lines[pos])
        }
    } else if pos > 0 {
        Some(lines[pos - 1])
    } else if pos < lines.len() {
        Some(lines[pos])
    } else {
        None
    }
}

/// The occurrence (from a sorted list) closest to `target`.
pub fn nearest_occurrence(lines: &[usize], target: usize) -> (found: Option<usize>)
    requires
        sorted_lines(lines@),
    ensures
        found == nearest(lines@, target as int),
{
    let pos = count_lines_before(lines, target, false);
    if pos > 0 && pos < lines.len() {
        let before = lines[pos - 1];
        let after = lines[pos];
        if target - before <= after - target {
            Some(before)
        } else {
            Some(after)
        }
    } else if pos > 0 {
        Some(lines[pos - 1])
    } else if pos < lines.len() {
        Some(lines[pos])
    } else {
        None
    }
}

/// Law: the nearest occurrence is an occurrence, and no occurrence is
/// strictly closer to the target.
pub proof fn law_nearest_is_closest(lines: Seq<usize>, target: int)
    requires
        sorted_lines(lines),
    ensures
        nearest(lines, target) matches Some(found) ==> lines.contains(found) && forall|k: int|
            0 <= k < lines.len() ==> #[trigger] abs(lines[k] - target) >= abs(found - target),
        nearest(lines, target) is None <==> lines.len() == 0,
{
    lemma_lines_before(lines, target, false);
    let pos = lines_before(lines, target, false);
    if pos > 0 {
        assert(lines[pos - 1] == lines[pos - 1]);
    }
    if pos < lines.len() {
        assert(lines[pos] == lines[pos]);
    }
    assert forall|k: int| 0 <= k < lines.len() implies #[trigger] abs(lines[k] - target) >= abs(
        nearest(lines, target)->0 - target,
    ) by {
        if k < pos {
            assert(lines[k] <= lines[pos - 1]);
        } else {
            assert(lines[pos] <= lines[k]);
        }
    }
}

pub open spec fn abs(x: int) -> int {
    if x < 0 {
        -x
    } else {
        x
    }
}

proof fn lemma_lines_before(lines: Seq<usize>, target: int, inclusive: bool)
    requires
        sorted_lines(lines),
    ensures
        0 <= lines_before(lines, target, inclusive) <= lines.len(),
        forall|k: int| 0 <= k < lines_before(lines, target, inclusive) ==> if inclusive {
            #[trigger] lines[k] <= target
        } else {
            lines[k] < target
        },
        forall|k: int| lines_before(lines, target, inclusive) <= k < lines.len() ==> if inclusive {
            #[trigger] lines[k] > target
        } else {
            lines[k] >= target
        },
    decreases lines.len(),
{
    if lines.len() > 0 {
        let t = lines.drop_last();
        assert(sorted_lines(t));
        lemma_lines_before(t, target, inclusive);
        let n = lines_before(lines, target, inclusive);
        assert forall|k: int| 0 <= k < n implies if inclusive {
            #[trigger] lines[k] <= target
        } else {
            lines[k] < target
        } by {
            if k < t.len() {
                assert(t[k] == lines[k]);
            }
            assert(lines[k] <= lines[lines.len() - 1]);
        }
        assert forall|k: int| n <= k < lines.len() implies if inclusive {
            #[trigger] lines[k] > target
        } else {
            lines[k] >= target
        } by {
            if k < t.len() {
                assert(t[k] == lines[k]);
            }
        }
    }
}

/// Where selecting a template jumps: the occurrence nearest to the middle of
/// the viewport, else to the selected line, else to the template's example
/// line; the example line when the template never occurs.
pub open spec fn template_jump(
    occurrences: Seq<usize>,
    viewport: Option<(usize, usize)>,
    context_line: Option<usize>,
    fallback: usize,
) -> usize {
    let midpoint = match viewport {
        Some((first, last)) => first + (last - first) / 2,
        None => match context_line {
            Some(line) => line as int,
            None => fallback as int,
        },
    };
    match nearest(occurrences, midpoint) {
        Some(line) => line,
        None => fallback,
    }
}

/// The line a template selection jumps to (see `template_jump`).
pub fn template_jump_target(
    occurrences: &[usize],
    viewport: Option<(usize, usize)>,
    context_line: Option<usize>,
    fallback: usize,
) -> (target: usize)
    requires
        sorted_lines(occurrences@),
        viewport matches Some((first, last)) ==> first <= last,
    ensures
        target == template_jump(occurrences@, viewport, context_line, fallback),
{
    let midpoint = match viewport {
        Some((first, last)) => first + (last - first) / 2,
        None => match context_line {
            Some(line) => line,
            None => fallback,
        },
    };
    match nearest_occurrence(occurrences, midpoint) {
        Some(line) => line,
        None => fallback,
    }
}

/// The occurrence that stepping to the next (or previous) occurrence selects,
/// starting from the selected line (or the first occurrence); stepping past
/// the last occurrence wraps to the first.
pub open spec fn occurrence_step(lines: Seq<usize>, context_line: Option<usize>, next: bool) -> Option<usize> {
    if lines.len() == 0 {
        None
    } else {
        let current = match context_line {
            Some(line) => line as int,
            None => lines[0] as int,
        };
        let pos = lines_before(lines, current, next);
        if next {
            if pos < lines.len() {
                Some(lines[pos])
            } else {
                Some(lines[0])
            }
        } else {
            let back = if pos >= 1 {
                pos - 1
            } else {
                0
            };
            Some(lines[back])
        }
    }
}

/// The line that occurrence navigation selects (see `occurrence_step`).
pub fn occurrence_step_target(lines: &[usize], context_line: Option<usize>, next: bool) -> (target: Option<usize>)
    requires
        sorted_lines(lines@),
    ensures
        target == occurrence_step(lines@, context_line, next),
{
    if lines.len() == 0 {
        return None;
    }
    let current = match context_line {
        Some(line) => line,
        None => lines[0],
    };
    let pos = count_lines_before(lines, current, next);
    if next {
        if pos < lines.len() {
            Some(lines[pos])
        } else {
            Some(lines[0])
        }
    } else {
        let back = if pos >= 1 {
            pos - 1
        } else {
            0
        };
        Some(lines[back])
    }
}


/// One template of a document, as the template browser reads it.
#[derive(Clone, Debug)]
pub struct TemplateInfo {
    pub id: u32,
    pub count: usize,
    pub example_line: usize,
    pub pattern: String,
}

/// What the template browser reads of a document: its size and trim
/// window, its templates, and the template id of each line in the window.
#[derive(Clone, Debug)]
pub struct TemplateDocument {
    pub file_size: u64,
    pub trim_start: usize,
    pub trim_end: usize,
    pub templates: Vec<TemplateInfo>,
    pub line_templates: Vec<u32>,
}

impl TemplateDocument {
    /// Number of lines in the trim window.
    pub fn total_lines(&self) -> (n: usize)
        ensures
            n == self.line_templates@.len(),
    {
        self.line_templates.len()
    }

    /// The template id of a line.
    pub fn template_at(&self, line: usize) -> (id: u32)
        requires
            line < self.line_templates@.len(),
        ensures
            id == self.line_templates@[line as int],
    {
        self.line_templates[line]
    }
}

/// Per-template occurrence data shown by the Templates view.
#[derive(Clone, Debug)]
pub struct TemplateRow {
    pub template_index: usize,
    pub first_line: usize,
    pub last_line: usize,
    pub occurrences: Vec<usize>,
    pub rare: bool,
    pub late: bool,
    pub bursty: bool,
}

impl Default for TemplateRow {
    fn default() -> (row: TemplateRow)
        ensures
            row.template_index == 0,
            row.first_line == 0,
            row.last_line == 0,
            row.occurrences@.len() == 0,
            !row.rare && !row.late && !row.bursty,
    {
        TemplateRow {
            template_index: 0,
            first_line: 0,
            last_line: 0,
            occurrences: Vec::new(),
            rare: false,
            late: false,
            bursty: false,
        }
    }
}

/// Index of the last of the first `n` templates whose id is `id`.
pub open spec fn last_with_id(templates: Seq<TemplateInfo>, id: u32, n: int) -> Option<int>
    decreases n,
{
    if n <= 0 {
        None
    } else if templates[n - 1].id == id {
        Some(n - 1)
    } else {
        last_with_id(templates, id, n - 1)
    }
}

/// The template whose row collects the lines of template id `id`: the
/// last template carrying that id.
pub open spec fn template_owner(doc: TemplateDocument, id: u32) -> Option<int> {
    last_with_id(doc.templates@, id, doc.templates@.len() as int)
}

/// The lines before `n` that belong to the row of template `index`, in order.
pub open spec fn occurrences_before(doc: TemplateDocument, index: int, n: int) -> Seq<usize>
    decreases n,
{
    if n <= 0 {
        Seq::empty()
    } else {
        let earlier = occurrences_before(doc, index, n - 1);
        if template_owner(doc, doc.line_templates@[n - 1]) == Some(index) {
            earlier.push((n - 1) as usize)
        } else {
            earlier
        }
    }
}

/// The lines that belong to the row of template `index`.
pub open spec fn template_occurrences(doc: TemplateDocument, index: int) -> Seq<usize> {
    occurrences_before(doc, index, doc.line_templates@.len() as int)
}

/// The line count used for the anomaly thresholds (never zero).
pub open spec fn line_span(doc: TemplateDocument) -> int {
    if doc.line_templates@.len() == 0 {
        1
    } else {
        doc.line_templates@.len() as int
    }
}

/// A template is rare when it occurs at most this often.
pub open spec fn rare_limit(total: int) -> int {
    if total / 1000 >= 1 {
        total / 1000
    } else {
        1
    }
}

/// A template is late when it first occurs in the last tenth.
pub open spec fn late_start(total: int) -> int {
    total * 9 / 10
}

/// Which of the fifty equal time buckets a line falls in.
pub open spec fn bucket_of(line: int, total: int) -> int {
    if line * 50 / total <= 49 {
        line * 50 / total
    } else {
        49
    }
}

/// How many of `lines` fall in `bucket`.
pub open spec fn bucket_count(lines: Seq<usize>, bucket: int, total: int) -> nat
    decreases lines.len(),
{
    if lines.len() == 0 {
        0
    } else {
        bucket_count(lines.drop_last(), bucket, total) + if bucket_of(lines.last() as int, total)
            == bucket {
            1nat
        } else {
            0nat
        }
    }
}

/// A template is bursty when it occurs at least ten times and one bucket
/// holds at least half of its occurrences.
pub open spec fn is_bursty(lines: Seq<usize>, total: int) -> bool {
    lines.len() >= 10 && exists|b: int| 0 <= b < 50 && #[trigger] bucket_count(lines, b, total) * 2 >= lines.len()
}

/// `row` is the row of template `index` of `doc`.
pub open spec fn row_describes(row: TemplateRow, doc: TemplateDocument, index: int) -> bool {
    let occurrences = template_occurrences(doc, index);
    let total = line_span(doc);
    &&& row.template_index == index
    &&& row.occurrences@ == occurrences
    &&& row.first_line == if occurrences.len() > 0 {
        occurrences[0]
    } else {
        0usize
    }
    &&& row.last_line == if occurrences.len() > 0 {
        occurrences.last()
    } else {
        0usize
    }
    &&& row.rare == (occurrences.len() > 0 && occurrences.len() <= rare_limit(total))
    &&& row.late == (occurrences.len() > 0 && row.first_line >= late_start(total))
    &&& row.bursty == is_bursty(occurrences, total)
}

/// Sum of the templates' occurrence counts.
pub open spec fn count_total(templates: Seq<TemplateInfo>) -> int
    decreases templates.len(),
{
    if templates.len() == 0 {
        0
    } else {
        count_total(templates.drop_last()) + templates.last().count
    }
}

/// The fingerprint by which the browser tells that a document changed.
pub open spec fn doc_signature(doc: TemplateDocument) -> (u64, usize, usize, usize, usize) {
    (
        doc.file_size,
        doc.trim_start,
        doc.trim_end,
        doc.templates@.len() as usize,
        count_total(doc.templates@) as usize,
    )
}

/// Every row names a template of the document.
pub open spec fn rows_index_templates(rows: Seq<TemplateRow>, doc: TemplateDocument) -> bool {
    forall|k: int| 0 <= k < rows.len() ==> (#[trigger] rows[k]).template_index < doc.templates@.len()
}

/// The primary sort key of a row: smaller comes first.
pub open spec fn sort_key(doc: TemplateDocument, row: TemplateRow, sort: TemplateSort) -> int {
    let count = doc.templates@[row.template_index as int].count as int;
    match sort {
        TemplateSort::Count => -count,
        TemplateSort::FirstSeen => row.first_line as int,
        TemplateSort::LastSeen => -(row.last_line as int),
        TemplateSort::Rarity => count,
    }
}

/// Row `a` is shown before row `b`: by the sort key, then by template id,
/// both reversed when descending, and by row position when both agree.
pub open spec fn ranks_before(
    doc: TemplateDocument,
    rows: Seq<TemplateRow>,
    sort: TemplateSort,
    descending: bool,
    a: int,
    b: int,
) -> bool {
    let ka = sort_key(doc, rows[a], sort);
    let kb = sort_key(doc, rows[b], sort);
    let ia = doc.templates@[rows[a].template_index as int].id as int;
    let ib = doc.templates@[rows[b].template_index as int].id as int;
    let less = ka < kb || (ka == kb && ia < ib);
    let greater = kb < ka || (ka == kb && ib < ia);
    if descending {
        greater || (!less && !greater && a < b)
    } else {
        less || (!less && !greater && a < b)
    }
}

/// `order` lists every row exactly once, in display order.
pub open spec fn in_display_order(
    order: Seq<usize>,
    rows: Seq<TemplateRow>,
    doc: TemplateDocument,
    sort: TemplateSort,
    descending: bool,
) -> bool {
    &&& order.len() == rows.len()
    &&& forall|k: int| 0 <= k < order.len() ==> #[trigger] order[k] < rows.len()
    &&& forall|i: int, j: int|
        0 <= i < j < order.len() ==> ranks_before(doc, rows, sort, descending, #[trigger] order[i] as int, #[trigger] order[j] as int)
}

proof fn lemma_ranks_order(
    doc: TemplateDocument,
    rows: Seq<TemplateRow>,
    sort: TemplateSort,
    descending: bool,
    a: int,
    b: int,
    c: int,
)
    ensures
        !ranks_before(doc, rows, sort, descending, a, a),
        a != b ==> ranks_before(doc, rows, sort, descending, a, b) || ranks_before(doc, rows, sort, descending, b, a),
        ranks_before(doc, rows, sort, descending, a, b) ==> !ranks_before(doc, rows, sort, descending, b, a),
        ranks_before(doc, rows, sort, descending, a, b) && ranks_before(doc, rows, sort, descending, b, c)
            ==> ranks_before(doc, rows, sort, descending, a, c),
{
}

fn ranks_before_exec(
    doc: &TemplateDocument,
    rows: &Vec<TemplateRow>,
    sort: TemplateSort,
    descending: bool,
    a: usize,
    b: usize,
) -> (r: bool)
    requires
        a < rows@.len(),
        b < rows@.len(),
        rows@[a as int].template_index < doc.templates@.len(),
        rows@[b as int].template_index < doc.templates@.len(),
    ensures
        r == ranks_before(*doc, rows@, sort, descending, a as int, b as int),
{
    let ra = &rows[a];
    let rb = &rows[b];
    let ta = &doc.templates[ra.template_index];
    let tb = &doc.templates[rb.template_index];
    let (key_less, key_same) = match sort {
        TemplateSort::Count => (ta.count > tb.count, ta.count == tb.count),
        TemplateSort::FirstSeen => (ra.first_line < rb.first_line, ra.first_line == rb.first_line),
        TemplateSort::LastSeen => (ra.last_line > rb.last_line, ra.last_line == rb.last_line),
        TemplateSort::Rarity => (ta.count < tb.count, ta.count == tb.count),
    };
    let less = key_less || (key_same && ta.id < tb.id);
    let greater = (!key_less && !key_same) || (key_same && tb.id < ta.id);
    if descending {
        greater || (!less && !greater && a < b)
    } else {
        less || (!less && !greater && a < b)
    }
}

/// Where row `i` goes among the already ordered rows.
fn insertion_point(
    doc: &TemplateDocument,
    rows: &Vec<TemplateRow>,
    sort: TemplateSort,
    descending: bool,
    order: &Vec<usize>,
    i: usize,
) -> (pos: usize)
    requires
        i < rows@.len(),
        rows_index_templates(rows@, *doc),
        forall|k: int| 0 <= k < order@.len() ==> #[trigger] order@[k] < i,
        forall|p: int, q: int|
            0 <= p < q < order@.len() ==> ranks_before(*doc, rows@, sort, descending, #[trigger] order@[p] as int, #[trigger] order@[q] as int),
    ensures
        pos <= order@.len(),
        forall|k: int| 0 <= k < pos ==> ranks_before(*doc, rows@, sort, descending, #[trigger] order@[k] as int, i as int),
        forall|k: int| pos <= k < order@.len() ==> ranks_before(*doc, rows@, sort, descending, i as int, #[trigger] order@[k] as int),
{
    let mut pos: usize = 0;
    while pos < order.len() && ranks_before_exec(doc, rows, sort, descending, order[pos], i)
        invariant
            i < rows@.len(),
            rows_index_templates(rows@, *doc),
            forall|k: int| 0 <= k < order@.len() ==> #[trigger] order@[k] < i,
            pos <= order@.len(),
            forall|k: int| 0 <= k < pos ==> ranks_before(*doc, rows@, sort, descending, #[trigger] order@[k] as int, i as int),
        decreases order@.len() - pos,
    {
        pos += 1;
    }
    proof {
        if pos < order@.len() {
            let at = order@[pos as int] as int;
            lemma_ranks_order(*doc, rows@, sort, descending, at, i as int, i as int);
            assert(ranks_before(*doc, rows@, sort, descending, i as int, at));
            assert forall|k: int| pos <= k < order@.len() implies ranks_before(*doc, rows@, sort, descending, i as int, #[trigger] order@[k] as int) by {
                if k > pos {
                    assert(ranks_before(*doc, rows@, sort, descending, order@[pos as int] as int, order@[k] as int));
                    lemma_ranks_order(*doc, rows@, sort, descending, i as int, at, order@[k] as int);
                }
            }
        }
    }
    pos
}

/// The rows' display order: every row once, sorted as `ranks_before` says.
fn display_order(doc: &TemplateDocument, rows: &Vec<TemplateRow>, sort: TemplateSort, descending: bool) -> (order: Vec<usize>)
    requires
        rows_index_templates(rows@, *doc),
    ensures
        in_display_order(order@, rows@, *doc, sort, descending),
{
    let n = rows.len();
    let mut order: Vec<usize> = Vec::new();
    let mut i: usize = 0;
    while i < n
        invariant
            n == rows@.len(),
            rows_index_templates(rows@, *doc),
            i <= n,
            order@.len() == i,
            forall|k: int| 0 <= k < order@.len() ==> #[trigger] order@[k] < i,
            forall|p: int, q: int|
                0 <= p < q < order@.len() ==> ranks_before(*doc, rows@, sort, descending, #[trigger] order@[p] as int, #[trigger] order@[q] as int),
        decreases n - i,
    {
        let pos = insertion_point(doc, rows, sort, descending, &order, i);
        let ghost before = order@;
        order.insert(pos, i);
        proof {
            assert(order@ =~= before.subrange(0, pos as int).push(i).add(before.subrange(pos as int, before.len() as int)));
            assert forall|k: int| 0 <= k < order@.len() implies #[trigger] order@[k] < i + 1 by {
                if k < pos {
                    assert(order@[k] == before[k]);
                } else if k > pos {
                    assert(order@[k] == before[k - 1]);
                }
            }
            assert forall|p: int, q: int| 0 <= p < q < order@.len() implies ranks_before(*doc, rows@, sort, descending, #[trigger] order@[p] as int, #[trigger] order@[q] as int) by {
                if q < pos {
                    assert(order@[p] == before[p] && order@[q] == before[q]);
                } else if q == pos {
                    assert(order@[p] == before[p]);
                } else if p < pos {
                    assert(order@[p] == before[p] && order@[q] == before[q - 1]);
                } else if p == pos {
                    assert(order@[q] == before[q - 1]);
                } else {
                    assert(order@[p] == before[p - 1] && order@[q] == before[q - 1]);
                }
            }
        }
        i += 1;
    }
    order
}


fn bucket_index(line: usize, total: usize) -> (b: usize)
    requires
        total >= 1,
    ensures
        b == bucket_of(line as int, total as int),
        b < 50,
{
    let wide: u128 = (line as u128) * 50 / (total as u128);
    if wide <= 49 {
        wide as usize
    } else {
        49
    }
}

proof fn lemma_bucket_count_bound(lines: Seq<usize>, bucket: int, total: int)
    ensures
        bucket_count(lines, bucket, total) <= lines.len(),
    decreases lines.len(),
{
    if lines.len() > 0 {
        lemma_bucket_count_bound(lines.drop_last(), bucket, total);
    }
}

/// Whether one of the fifty buckets holds at least half of `lines`
/// (and there are at least ten of them).
fn bursty_lines(lines: &Vec<usize>, total: usize) -> (r: bool)
    requires
        total >= 1,
    ensures
        r == is_bursty(lines@, total as int),
{
    if lines.len() < 10 {
        return false;
    }
    let mut buckets: Vec<usize> = Vec::new();
    let mut b: usize = 0;
    while b < 50
        invariant
            b <= 50,
            buckets@.len() == b,
            forall|k: int| 0 <= k < b ==> buckets@[k] == 0,
        decreases 50 - b,
    {
        buckets.push(0);
        b += 1;
    }
    let mut k: usize = 0;
    while k < lines.len()
        invariant
            total >= 1,
            k <= lines@.len(),
            buckets@.len() == 50,
            forall|c: int| 0 <= c < 50 ==> #[trigger] buckets@[c] == bucket_count(lines@.subrange(0, k as int), c, total as int),
        decreases lines@.len() - k,
    {
        let c = bucket_index(lines[k], total);
        proof {
            assert(lines@.subrange(0, k + 1).drop_last() =~= lines@.subrange(0, k as int));
            lemma_bucket_count_bound(lines@.subrange(0, k as int), c as int, total as int);
        }
        let bumped = buckets[c] + 1;
        buckets.set(c, bumped);
        k += 1;
    }
    assert(lines@.subrange(0, k as int) =~= lines@);
    let mut best: usize = 0;
    let mut c: usize = 0;
    while c < 50
        invariant
            buckets@.len() == 50,
            c <= 50,
            forall|d: int| 0 <= d < 50 ==> #[trigger] buckets@[d] == bucket_count(lines@, d, total as int),
            forall|d: int| 0 <= d < c ==> #[trigger] buckets@[d] <= best,
            best <= lines@.len(),
            c == 0 ==> best == 0,
            c > 0 ==> exists|d: int| 0 <= d < c && #[trigger] buckets@[d] == best,
        decreases 50 - c,
    {
        proof {
            lemma_bucket_count_bound(lines@, c as int, total as int);
        }
        if buckets[c] > best {
            best = buckets[c];
        }
        c += 1;
    }
    proof {
        let d = choose|d: int| 0 <= d < 50 && #[trigger] buckets@[d] == best;
        assert(bucket_count(lines@, d, total as int) == best);
        if best >= lines.len() - best {
            assert(bucket_count(lines@, d, total as int) * 2 >= lines@.len());
        } else {
            assert forall|e: int| 0 <= e < 50 implies !(#[trigger] bucket_count(lines@, e, total as int) * 2 >= lines@.len()) by {
                assert(buckets@[e] <= best);
            }
        }
    }
    best >= lines.len() - best
}

/// `(total * 9) / 10`, computed without overflow.
fn late_threshold(total: usize) -> (r: usize)
    ensures
        r == late_start(total as int),
{
    let q = total / 10;
    let m = total % 10;
    proof {
        assert(total * 9 / 10 == q * 9 + m * 9 / 10) by (nonlinear_arith)
            requires
                q == total / 10,
                m == total % 10,
                total >= 0,
        {
            assert(total == q * 10 + m);
            assert(total * 9 == (q * 9) * 10 + m * 9);
        }
    }
    q * 9 + m * 9 / 10
}


/// The query as the filter uses it: trimmed, ASCII letters in lower case.
pub open spec fn normalized_query(query: Seq<char>) -> Seq<char> {
    ascii_lower(trim(query))
}

/// Row `row_index` passes the filter `query`: the query is empty, or it
/// occurs in the template id, in `t` followed by the id, or in the pattern
/// with ASCII letters in lower case.
pub open spec fn row_matches_query(
    doc: TemplateDocument,
    rows: Seq<TemplateRow>,
    query: Seq<char>,
    row_index: int,
) -> bool {
    let template = doc.templates@[rows[row_index].template_index as int];
    ||| query.len() == 0
    ||| contains_chars(decimal(template.id as nat), query)
    ||| contains_chars(seq!['t'] + decimal(template.id as nat), query)
    ||| contains_chars(ascii_lower(template.pattern@), query)
}

/// The rows of `order` that pass the filter, in order.
pub open spec fn visible_rows(
    order: Seq<usize>,
    rows: Seq<TemplateRow>,
    doc: TemplateDocument,
    query: Seq<char>,
) -> Seq<usize>
    decreases order.len(),
{
    if order.len() == 0 {
        Seq::empty()
    } else {
        let earlier = visible_rows(order.drop_last(), rows, doc, query);
        if row_matches_query(doc, rows, query, order.last() as int) {
            earlier.push(order.last())
        } else {
            earlier
        }
    }
}

/// Every row that `order` lists exists and names a template of `doc`.
pub open spec fn order_indexes_rows(order: Seq<usize>, rows: Seq<TemplateRow>, doc: TemplateDocument) -> bool {
    forall|k: int|
        0 <= k < order.len() ==> #[trigger] order[k] < rows.len() && rows[order[k] as int].template_index
            < doc.templates@.len()
}

/// What the browser remembers between frames: the fingerprint of the
/// document its rows were built from, a counter bumped on every re-sort,
/// and the last filtered order with the generation and query it was
/// computed for.
pub struct BrowserMemo {
    signature: Option<(u64, usize, usize, usize, usize)>,
    order_generation: u64,
    visible_cache: Option<(u64, String, Arc<Vec<usize>>)>,
}

/// Per-view state of the Templates view. Rows and their order are rebuilt
/// only when the document changes; the filtered order is cached until the
/// order or the query changes.
pub struct TemplateBrowserState {
    pub query: String,
    pub sort: TemplateSort,
    pub descending: bool,
    pub selected_id: Option<u32>,
    pub rows: Vec<TemplateRow>,
    pub order: Vec<usize>,
    pub memo: BrowserMemo,
}

impl Default for TemplateBrowserState {
    fn default() -> (state: TemplateBrowserState)
        ensures
            state.query@.len() == 0,
            state.sort == TemplateSort::Count,
            !state.descending,
            state.selected_id is None,
            state.fingerprint() is None,
            state.rows@.len() == 0,
            state.order@.len() == 0,
            forall|q: Seq<char>| #[trigger] state.cached_visible(q) is None,
    {
        TemplateBrowserState {
            query: String::new(),
            sort: TemplateSort::Count,
            descending: false,
            selected_id: None,
            rows: Vec::new(),
            order: Vec::new(),
            memo: BrowserMemo { signature: None, order_generation: 0, visible_cache: None },
        }
    }
}

fn same_signature(
    seen: Option<(u64, usize, usize, usize, usize)>,
    current: (u64, usize, usize, usize, usize),
) -> (r: bool)
    ensures
        r == (seen == Some(current)),
{
    match seen {
        Some(old) => old.0 == current.0 && old.1 == current.1 && old.2 == current.2 && old.3 == current.3
            && old.4 == current.4,
        None => false,
    }
}

fn signature_of(doc: &TemplateDocument) -> (sig: (u64, usize, usize, usize, usize))
    requires
        count_total(doc.templates@) <= usize::MAX,
    ensures
        sig == doc_signature(*doc),
{
    let mut sum: usize = 0;
    let mut k: usize = 0;
    while k < doc.templates.len()
        invariant
            k <= doc.templates@.len(),
            count_total(doc.templates@) <= usize::MAX,
            sum == count_total(doc.templates@.subrange(0, k as int)),
        decreases doc.templates@.len() - k,
    {
        proof {
            assert(doc.templates@.subrange(0, k + 1).drop_last() =~= doc.templates@.subrange(0, k as int));
            lemma_count_total_prefix(doc.templates@, k + 1);
        }
        sum = sum + doc.templates[k].count;
        k += 1;
    }
    assert(doc.templates@.subrange(0, k as int) =~= doc.templates@);
    (doc.file_size, doc.trim_start, doc.trim_end, doc.templates.len(), sum)
}

proof fn lemma_count_total_prefix(templates: Seq<TemplateInfo>, n: int)
    requires
        0 <= n <= templates.len(),
    ensures
        count_total(templates.subrange(0, n)) <= count_total(templates),
    decreases templates.len() - n,
{
    if n < templates.len() {
        assert(templates.drop_last().subrange(0, n) =~= templates.subrange(0, n));
        assert(templates.subrange(0, templates.len() - 1) =~= templates.drop_last());
        lemma_count_total_prefix(templates.drop_last(), n);
    } else {
        assert(templates.subrange(0, n) =~= templates);
    }
}

/// The row index that collects each template id, built as the original
/// map is: a later template with the same id takes over.
fn owner_map(doc: &TemplateDocument) -> (by_id: HashMap<u32, usize>)
    ensures
        forall|id: u32| #[trigger] by_id@.contains_key(id) == (template_owner(*doc, id) is Some),
        forall|id: u32| by_id@.contains_key(id) ==> by_id@[id] == template_owner(*doc, id)->0,
{
    let mut by_id: HashMap<u32, usize> = HashMap::new();
    let mut index: usize = 0;
    while index < doc.templates.len()
        invariant
            index <= doc.templates@.len(),
            forall|id: u32| #[trigger] by_id@.contains_key(id) == (last_with_id(doc.templates@, id, index as int) is Some),
            forall|id: u32| by_id@.contains_key(id) ==> by_id@[id] == last_with_id(doc.templates@, id, index as int)->0,
        decreases doc.templates@.len() - index,
    {
        by_id.insert(doc.templates[index].id, index);
        index += 1;
    }
    by_id
}

impl TemplateBrowserState {
    /// The fingerprint of the document the rows were built from.
    pub closed spec fn fingerprint(self) -> Option<(u64, usize, usize, usize, usize)> {
        self.memo.signature
    }

    /// The filtered order cached for `query`, when it is current.
    pub closed spec fn cached_visible(self, query: Seq<char>) -> Option<Seq<usize>> {
        match self.memo.visible_cache {
            Some(entry) => if entry.0 == self.memo.order_generation && entry.1@ == query {
                Some(entry.2@)
            } else {
                None
            },
            None => None,
        }
    }

    /// Rebuilds the display order from the rows, the sort and the direction,
    /// and drops the cached filtered order.
    pub fn resort(&mut self, doc: &TemplateDocument)
        requires
            rows_index_templates(old(self).rows@, *doc),
        ensures
            in_display_order(final(self).order@, final(self).rows@, *doc, final(self).sort, final(self).descending),
            final(self).rows@ == old(self).rows@,
            final(self).query == old(self).query,
            final(self).sort == old(self).sort,
            final(self).descending == old(self).descending,
            final(self).selected_id == old(self).selected_id,
            final(self).fingerprint() == old(self).fingerprint(),
            forall|q: Seq<char>| #[trigger] final(self).cached_visible(q) is None,
    {
        let order = display_order(doc, &self.rows, self.sort, self.descending);
        self.order = order;
        self.memo.order_generation = self.memo.order_generation.wrapping_add(1);
        self.memo.visible_cache = None;
    }

    /// Rebuilds the rows (occurrences, first and last line, anomaly flags)
    /// and their order when the document's fingerprint changed; does
    /// nothing when it did not.
    pub fn refresh(&mut self, doc: &TemplateDocument)
        requires
            count_total(doc.templates@) <= usize::MAX,
        ensures
            refreshed(*old(self), *final(self), *doc),
    {
        let signature = signature_of(doc);
        if same_signature(self.memo.signature, signature) {
            return;
        }
        self.memo.signature = Some(signature);
        let by_id = owner_map(doc);
        let n = doc.templates.len();
        let mut rows: Vec<TemplateRow> = Vec::new();
        let mut index: usize = 0;
        while index < n
            invariant
                n == doc.templates@.len(),
                index <= n,
                rows@.len() == index,
                forall|i: int| 0 <= i < index ==> {
                    &&& (#[trigger] rows@[i]).template_index == i
                    &&& rows@[i].occurrences@.len() == 0
                    &&& rows@[i].first_line == 0
                    &&& rows@[i].last_line == 0
                },
            decreases n - index,
        {
            rows.push(TemplateRow {
                template_index: index,
                first_line: 0,
                last_line: 0,
                occurrences: Vec::new(),
                rare: false,
                late: false,
                bursty: false,
            });
            index += 1;
        }
        let total_lines = doc.line_templates.len();
        let mut line: usize = 0;
        while line < total_lines
            invariant
                n == doc.templates@.len(),
                total_lines == doc.line_templates@.len(),
                line <= total_lines,
                rows@.len() == n,
                forall|id: u32| #[trigger] by_id@.contains_key(id) == (template_owner(*doc, id) is Some),
                forall|id: u32| by_id@.contains_key(id) ==> by_id@[id] == template_owner(*doc, id)->0,
                forall|i: int| 0 <= i < n ==> {
                    let occ = occurrences_before(*doc, i, line as int);
                    &&& (#[trigger] rows@[i]).template_index == i
                    &&& rows@[i].occurrences@ == occ
                    &&& rows@[i].first_line == if occ.len() > 0 { occ[0] } else { 0usize }
                    &&& rows@[i].last_line == if occ.len() > 0 { occ.last() } else { 0usize }
                },
            decreases total_lines - line,
        {
            let id = doc.line_templates[line];
            proof {
                lemma_owner_bound(*doc, id);
            }
            match by_id.get(&id) {
                Some(found) => {
                    let index = *found;
                    let ghost before = rows@;
                    if rows[index].occurrences.len() == 0 {
                        rows[index].first_line = line;
                    }
                    rows[index].last_line = line;
                    rows[index].occurrences.push(line);
                    proof {
                        assert forall|i: int| 0 <= i < n implies {
                            let occ = occurrences_before(*doc, i, line + 1);
                            &&& (#[trigger] rows@[i]).template_index == i
                            &&& rows@[i].occurrences@ == occ
                            &&& rows@[i].first_line == if occ.len() > 0 { occ[0] } else { 0usize }
                            &&& rows@[i].last_line == if occ.len() > 0 { occ.last() } else { 0usize }
                        } by {
                            if i != index {
                                assert(rows@[i] == before[i]);
                            }
                        }
                    }
                }
                None => {
                    proof {
                        assert forall|i: int| 0 <= i < n implies occurrences_before(*doc, i, line + 1) == occurrences_before(*doc, i, line as int) by {}
                    }
                }
            }
            line += 1;
        }
        let total: usize = if total_lines == 0 {
            1
        } else {
            total_lines
        };
        let rare_max: usize = if total / 1000 >= 1 {
            total / 1000
        } else {
            1
        };
        let late_from = late_threshold(total);
        let mut index: usize = 0;
        while index < n
            invariant
                n == doc.templates@.len(),
                total_lines == doc.line_templates@.len(),
                total == line_span(*doc),
                rare_max == rare_limit(total as int),
                late_from == late_start(total as int),
                index <= n,
                rows@.len() == n,
                forall|i: int| 0 <= i < n ==> {
                    let occ = occurrences_before(*doc, i, total_lines as int);
                    &&& (#[trigger] rows@[i]).template_index == i
                    &&& rows@[i].occurrences@ == occ
                    &&& rows@[i].first_line == if occ.len() > 0 { occ[0] } else { 0usize }
                    &&& rows@[i].last_line == if occ.len() > 0 { occ.last() } else { 0usize }
                },
                forall|i: int| 0 <= i < index ==> row_describes(#[trigger] rows@[i], *doc, i),
            decreases n - index,
        {
            let count = rows[index].occurrences.len();
            let rare = count <= rare_max && count > 0;
            let late = count > 0 && rows[index].first_line >= late_from;
            let bursty = bursty_lines(&rows[index].occurrences, total);
            let ghost before = rows@;
            rows[index].rare = rare;
            rows[index].late = late;
            rows[index].bursty = bursty;
            proof {
                assert forall|i: int| 0 <= i < index + 1 implies row_describes(#[trigger] rows@[i], *doc, i) by {
                    if i != index {
                        assert(rows@[i] == before[i]);
                    }
                }
                assert forall|i: int| 0 <= i < n implies {
                    let occ = occurrences_before(*doc, i, total_lines as int);
                    &&& (#[trigger] rows@[i]).template_index == i
                    &&& rows@[i].occurrences@ == occ
                    &&& rows@[i].first_line == if occ.len() > 0 { occ[0] } else { 0usize }
                    &&& rows@[i].last_line == if occ.len() > 0 { occ.last() } else { 0usize }
                } by {
                    if i != index {
                        assert(rows@[i] == before[i]);
                    }
                }
            }
            index += 1;
        }
        self.rows = rows;
        self.resort(doc);
    }
}

proof fn lemma_owner_bound(doc: TemplateDocument, id: u32)
    ensures
        template_owner(doc, id) matches Some(i) ==> 0 <= i < doc.templates@.len(),
{
    lemma_last_with_id_bound(doc.templates@, id, doc.templates@.len() as int);
}

proof fn lemma_last_with_id_bound(templates: Seq<TemplateInfo>, id: u32, n: int)
    ensures
        last_with_id(templates, id, n) matches Some(i) ==> 0 <= i < n && templates[i].id == id,
    decreases n,
{
    if n > 0 {
        lemma_last_with_id_bound(templates, id, n - 1);
    }
}


fn row_matches_exec(doc: &TemplateDocument, rows: &Vec<TemplateRow>, query: &Vec<char>, row_index: usize) -> (r: bool)
    requires
        row_index < rows@.len(),
        rows@[row_index as int].template_index < doc.templates@.len(),
    ensures
        r == row_matches_query(*doc, rows@, query@, row_index as int),
{
    if query.len() == 0 {
        return true;
    }
    let template = &doc.templates[rows[row_index].template_index];
    let mut digits = String::new();
    push_decimal(&mut digits, template.id as u64);
    let digit_chars = chars_of(digits.as_str());
    if find_chars(digit_chars.as_slice(), query.as_slice()) {
        return true;
    }
    let mut tagged = String::new();
    push_char(&mut tagged, 't');
    push_decimal(&mut tagged, template.id as u64);
    let tagged_chars = chars_of(tagged.as_str());
    proof {
        assert(tagged_chars@ =~= seq!['t'] + decimal(template.id as nat));
    }
    if find_chars(tagged_chars.as_slice(), query.as_slice()) {
        return true;
    }
    let pattern_chars = chars_of(template.pattern.as_str());
    let lowered = lower_chars(pattern_chars.as_slice());
    find_chars(lowered.as_slice(), query.as_slice())
}

fn filter_rows(order: &Vec<usize>, rows: &Vec<TemplateRow>, doc: &TemplateDocument, query: &Vec<char>) -> (visible: Vec<usize>)
    requires
        query@.len() > 0 ==> order_indexes_rows(order@, rows@, *doc),
    ensures
        visible@ == visible_rows(order@, rows@, *doc, query@),
{
    let mut visible: Vec<usize> = Vec::new();
    let mut k: usize = 0;
    while k < order.len()
        invariant
            k <= order@.len(),
            query@.len() > 0 ==> order_indexes_rows(order@, rows@, *doc),
            visible@ == visible_rows(order@.subrange(0, k as int), rows@, *doc, query@),
        decreases order@.len() - k,
    {
        let row_index = order[k];
        proof {
            assert(order@.subrange(0, k + 1).drop_last() =~= order@.subrange(0, k as int));
        }
        if query.len() == 0 || row_matches_exec(doc, rows, query, row_index) {
            visible.push(row_index);
        }
        k += 1;
    }
    assert(order@.subrange(0, k as int) =~= order@);
    visible
}

/// Calls `Arc::clone`, which hands out another pointer to the same
/// allocation: the value pointed to is the one `v` points to.
#[verifier::external_body]
fn share(v: &Arc<Vec<usize>>) -> (r: Arc<Vec<usize>>)
    ensures
        r == *v,
{
    Arc::clone(v)
}

/// The id of the template that row `k` shows.
pub open spec fn row_template_id(rows: Seq<TemplateRow>, doc: TemplateDocument, k: int) -> u32 {
    doc.templates@[rows[k].template_index as int].id
}

/// Looking for `id` front to back never meets a row without a template
/// before it meets a row of `id`.
pub open spec fn lookup_safe(rows: Seq<TemplateRow>, doc: TemplateDocument, id: u32) -> bool {
    forall|k: int|
        0 <= k < rows.len() && (forall|j: int| 0 <= j < k ==> (#[trigger] rows[j]).template_index < doc.templates@.len()
            && row_template_id(rows, doc, j) != id) ==> (#[trigger] rows[k]).template_index
            < doc.templates@.len()
}

impl TemplateBrowserState {
    /// The rows that pass the query filter, in display order. The query is
    /// trimmed and put in ASCII lower case; the result is cached and reused
    /// until the order is rebuilt or the query changes.
    pub fn visible_order(&mut self, doc: &TemplateDocument) -> (visible: Arc<Vec<usize>>)
        requires
            normalized_query(old(self).query@).len() > 0 && old(self).cached_visible(normalized_query(old(self).query@)) is None
                ==> order_indexes_rows(old(self).order@, old(self).rows@, *doc),
        ensures
            visible_ordered(*old(self), *final(self), *doc, visible@),
    {
        let trimmed = trimmed_chars(self.query.as_str());
        let lowered = lower_chars(trimmed.as_slice());
        let query = string_of(lowered.as_slice());
        if let Some(entry) = &self.memo.visible_cache {
            if entry.0 == self.memo.order_generation && str_eq(entry.1.as_str(), query.as_str()) {
                return share(&entry.2);
            }
        }
        let visible = Arc::new(filter_rows(&self.order, &self.rows, doc, &lowered));
        self.memo.visible_cache = Some((self.memo.order_generation, query, share(&visible)));
        visible
    }

    /// The first row showing template `id`.
    pub fn row_for_id(&self, doc: &TemplateDocument, id: u32) -> (found: Option<&TemplateRow>)
        requires
            lookup_safe(self.rows@, *doc, id),
        ensures
            match found {
                Some(row) => exists|k: int|
                    0 <= k < self.rows@.len() && *row == self.rows@[k] && row_template_id(self.rows@, *doc, k) == id
                        && forall|j: int| 0 <= j < k ==> row_template_id(self.rows@, *doc, j) != id,
                None => forall|k: int| 0 <= k < self.rows@.len() ==> row_template_id(self.rows@, *doc, k) != id,
            },
    {
        let mut k: usize = 0;
        while k < self.rows.len()
            invariant
                k <= self.rows@.len(),
                lookup_safe(self.rows@, *doc, id),
                forall|j: int| 0 <= j < k ==> (#[trigger] self.rows@[j]).template_index < doc.templates@.len()
                    && row_template_id(self.rows@, *doc, j) != id,
            decreases self.rows@.len() - k,
        {
            proof {
                assert(self.rows@[k as int].template_index < doc.templates@.len());
            }
            if doc.templates[self.rows[k].template_index].id == id {
                return Some(&self.rows[k]);
            }
            k += 1;
        }
        None
    }
}

/// Position of the first `id` in `ids`.
pub open spec fn first_position(ids: Seq<u32>, id: u32) -> Option<int>
    decreases ids.len(),
{
    if ids.len() == 0 {
        None
    } else {
        match first_position(ids.drop_last(), id) {
            Some(p) => Some(p),
            None => if ids.last() == id {
                Some(ids.len() - 1)
            } else {
                None
            },
        }
    }
}

/// Where arrow-key navigation moves the template selection, given the
/// template ids of the visible rows: one row down (stopping at the last
/// row) or one row up (stopping at the first), from the first row showing
/// the selected template; `None` when no visible row shows it.
pub fn next_row_position(ids: &[u32], selected: u32, next: bool) -> (pos: Option<usize>)
    ensures
        match first_position(ids@, selected) {
            None => pos is None,
            Some(p) => pos == Some(
                (if next {
                    if p + 1 <= ids@.len() - 1 {
                        p + 1
                    } else {
                        ids@.len() - 1
                    }
                } else if p >= 1 {
                    p - 1
                } else {
                    0
                }) as usize,
            ),
        },
{
    let mut k: usize = 0;
    while k < ids.len()
        invariant
            k <= ids@.len(),
            first_position(ids@.subrange(0, k as int), selected) is None,
        decreases ids@.len() - k,
    {
        proof {
            assert(ids@.subrange(0, k + 1).drop_last() =~= ids@.subrange(0, k as int));
        }
        if ids[k] == selected {
            proof {
                lemma_first_position_extend(ids@, selected, k as int + 1);
            }
            let position = k;
            let new_position = if next {
                if position + 1 <= ids.len() - 1 {
                    position + 1
                } else {
                    ids.len() - 1
                }
            } else if position >= 1 {
                position - 1
            } else {
                0
            };
            return Some(new_position);
        }
        k += 1;
    }
    assert(ids@.subrange(0, k as int) =~= ids@);
    None
}

proof fn lemma_first_position_extend(ids: Seq<u32>, id: u32, n: int)
    requires
        0 <= n <= ids.len(),
        first_position(ids.subrange(0, n), id) is Some,
    ensures
        first_position(ids, id) == first_position(ids.subrange(0, n), id),
    decreases ids.len() - n,
{
    if n < ids.len() {
        assert(ids.subrange(0, n + 1).drop_last() =~= ids.subrange(0, n));
        lemma_first_position_extend(ids, id, n + 1);
    } else {
        assert(ids.subrange(0, n) =~= ids);
    }
}

/// `s` with each double quote doubled, as a CSV field needs.
pub open spec fn csv_escape(s: Seq<char>) -> Seq<char>
    decreases s.len(),
{
    if s.len() == 0 {
        Seq::empty()
    } else {
        csv_escape(s.drop_last()) + if s.last() == '"' {
            seq!['"', '"']
        } else {
            seq![s.last()]
        }
    }
}

/// One CSV record: id, count, one-based source line of the example, and
/// the quoted pattern.
pub open spec fn csv_line(template: TemplateInfo, trim_start: usize) -> Seq<char> {
    decimal(template.id as nat) + seq![','] + decimal(template.count as nat) + seq![','] + decimal(
        (trim_start + template.example_line + 1) as nat,
    ) + seq![',', '"'] + csv_escape(template.pattern@) + seq!['"', '\n']
}

/// The records of the templates, in order.
pub open spec fn csv_records(templates: Seq<TemplateInfo>, trim_start: usize) -> Seq<char>
    decreases templates.len(),
{
    if templates.len() == 0 {
        Seq::empty()
    } else {
        csv_records(templates.drop_last(), trim_start) + csv_line(templates.last(), trim_start)
    }
}

fn push_csv_escaped(out: &mut String, text: &str)
    ensures
        final(out)@ == old(out)@ + csv_escape(text@),
{
    let cs = chars_of(text);
    let mut k: usize = 0;
    while k < cs.len()
        invariant
            cs@ == text@,
            k <= cs@.len(),
            out@ == old(out)@ + csv_escape(cs@.subrange(0, k as int)),
        decreases cs@.len() - k,
    {
        proof {
            assert(cs@.subrange(0, k + 1).drop_last() =~= cs@.subrange(0, k as int));
        }
        push_char(out, cs[k]);
        if cs[k] == '"' {
            push_char(out, '"');
        }
        k += 1;
    }
    assert(cs@.subrange(0, k as int) =~= cs@);
}

fn push_csv_line(out: &mut String, template: &TemplateInfo, trim_start: usize)
    requires
        trim_start + template.example_line + 1 <= usize::MAX,
    ensures
        final(out)@ == old(out)@ + csv_line(*template, trim_start),
{
    push_decimal(out, template.id as u64);
    push_char(out, ',');
    push_decimal(out, template.count as u64);
    push_char(out, ',');
    let line = trim_start + template.example_line + 1;
    push_decimal(out, line as u64);
    push_char(out, ',');
    push_char(out, '"');
    push_csv_escaped(out, template.pattern.as_str());
    push_char(out, '"');
    push_char(out, '\n');
    proof {
        assert(out@ =~= old(out)@ + csv_line(*template, trim_start));
    }
}

/// The templates as CSV: a header, then one record per template.
pub fn templates_csv(doc: &TemplateDocument) -> (csv: String)
    requires
        forall|k: int| 0 <= k < doc.templates@.len() ==> doc.trim_start + (#[trigger] doc.templates@[k]).example_line + 1 <= usize::MAX,
    ensures
        csv@ == "template_id,count,example_line,pattern\n"@ + csv_records(doc.templates@, doc.trim_start),
{
    let mut out = String::new();
    push_str(&mut out, "template_id,count,example_line,pattern\n");
    let ghost header = out@;
    let mut k: usize = 0;
    while k < doc.templates.len()
        invariant
            k <= doc.templates@.len(),
            header == "template_id,count,example_line,pattern\n"@,
            forall|j: int| 0 <= j < doc.templates@.len() ==> doc.trim_start + (#[trigger] doc.templates@[j]).example_line + 1 <= usize::MAX,
            out@ == header + csv_records(doc.templates@.subrange(0, k as int), doc.trim_start),
        decreases doc.templates@.len() - k,
    {
        let ghost before = out@;
        push_csv_line(&mut out, &doc.templates[k], doc.trim_start);
        proof {
            assert(doc.templates@.subrange(0, k + 1).drop_last() =~= doc.templates@.subrange(0, k as int));
            assert(out@ =~= header + csv_records(doc.templates@.subrange(0, k + 1), doc.trim_start));
        }
        k += 1;
    }
    assert(doc.templates@.subrange(0, k as int) =~= doc.templates@);
    out
}

/// What `refresh` does: nothing when the fingerprint of `doc` is the one
/// remembered; otherwise the rows are rebuilt from `doc` and ordered, the
/// fingerprint is remembered and the cached filter result dropped, and the
/// query, sort, direction and selection stay.
pub open spec fn refreshed(before: TemplateBrowserState, after: TemplateBrowserState, doc: TemplateDocument) -> bool {
    if before.fingerprint() == Some(doc_signature(doc)) {
        after == before
    } else {
        &&& after.fingerprint() == Some(doc_signature(doc))
        &&& after.rows@.len() == doc.templates@.len()
        &&& forall|i: int| 0 <= i < after.rows@.len() ==> row_describes(#[trigger] after.rows@[i], doc, i)
        &&& in_display_order(after.order@, after.rows@, doc, after.sort, after.descending)
        &&& after.query == before.query
        &&& after.sort == before.sort
        &&& after.descending == before.descending
        &&& after.selected_id == before.selected_id
        &&& forall|q: Seq<char>| #[trigger] after.cached_visible(q) is None
    }
}

/// What `visible_order` does: with a current cache entry for the query it
/// returns that entry and changes nothing; otherwise it returns the rows of
/// the order that pass the filter and caches them for the query.
pub open spec fn visible_ordered(
    before: TemplateBrowserState,
    after: TemplateBrowserState,
    doc: TemplateDocument,
    visible: Seq<usize>,
) -> bool {
    let query = normalized_query(before.query@);
    match before.cached_visible(query) {
        Some(cached) => visible == cached && after == before,
        None => {
            &&& visible == visible_rows(before.order@, before.rows@, doc, query)
            &&& after.cached_visible(query) == Some(visible)
            &&& after.query == before.query
            &&& after.rows@ == before.rows@
            &&& after.order@ == before.order@
            &&& after.sort == before.sort
            &&& after.descending == before.descending
            &&& after.selected_id == before.selected_id
            &&& after.fingerprint() == before.fingerprint()
        },
    }
}

/// Law: refreshing twice with the same document changes nothing the second
/// time (the rows are only rebuilt when the document changes).
pub proof fn law_refresh_is_idempotent(
    first: TemplateBrowserState,
    second: TemplateBrowserState,
    third: TemplateBrowserState,
    doc: TemplateDocument,
)
    requires
        refreshed(first, second, doc),
        refreshed(second, third, doc),
    ensures
        third == second,
{
}

/// Law: asking for the filtered order twice, with nothing changed in
/// between, gives the same rows and leaves the state as it was.
pub proof fn law_visible_order_is_cached(
    first: TemplateBrowserState,
    second: TemplateBrowserState,
    third: TemplateBrowserState,
    doc: TemplateDocument,
    shown: Seq<usize>,
    shown_again: Seq<usize>,
)
    requires
        visible_ordered(first, second, doc, shown),
        visible_ordered(second, third, doc, shown_again),
    ensures
        shown_again == shown,
        third == second,
{
}

/// Every cached filtered order is the one that filtering the current order
/// of `doc`'s rows afresh would give.
pub open spec fn cache_sound(state: TemplateBrowserState, doc: TemplateDocument) -> bool {
    forall|q: Seq<char>|
        #[trigger] state.cached_visible(q) matches Some(v) ==> v == visible_rows(state.order@, state.rows@, doc, q)
}

/// Law: the cache of filtered orders never shows stale rows. When it is
/// sound for a document, asking for the filtered order gives exactly what
/// filtering afresh gives, and the cache stays sound; refreshing for the
/// same document keeps it sound too (a rebuild or a resort empties it).
pub proof fn law_cached_order_is_fresh(
    before: TemplateBrowserState,
    after: TemplateBrowserState,
    doc: TemplateDocument,
    visible: Seq<usize>,
)
    requires
        cache_sound(before, doc),
    ensures
        visible_ordered(before, after, doc, visible) ==> visible == visible_rows(
            before.order@,
            before.rows@,
            doc,
            normalized_query(before.query@),
        ) && cache_sound(after, doc),
        refreshed(before, after, doc) ==> cache_sound(after, doc),
        (forall|q: Seq<char>| #[trigger] after.cached_visible(q) is None) ==> cache_sound(after, doc),
{
    let query = normalized_query(before.query@);
    if visible_ordered(before, after, doc, visible) {
        if before.cached_visible(query) is None {
            assert forall|q: Seq<char>| #[trigger] after.cached_visible(q) is Some implies after.cached_visible(
                q,
            )->0 == visible_rows(after.order@, after.rows@, doc, q) by {
                if q != query {
                    assert(after.cached_visible(query) is Some);
                }
            }
        }
    }
}

/// The lines before `n` of a template's row are, in ascending order,
/// exactly the lines before `n` that the template owns.
proof fn lemma_occurrences_before(doc: TemplateDocument, index: int, n: int)
    requires
        0 <= n <= doc.line_templates@.len(),
        doc.line_templates@.len() <= usize::MAX,
    ensures
        forall|a: int, b: int|
            0 <= a < b < occurrences_before(doc, index, n).len() ==> #[trigger] occurrences_before(doc, index, n)[a]
                < #[trigger] occurrences_before(doc, index, n)[b],
        forall|k: int|
            0 <= k < occurrences_before(doc, index, n).len() ==> #[trigger] occurrences_before(doc, index, n)[k] < n
                && template_owner(doc, doc.line_templates@[occurrences_before(doc, index, n)[k] as int]) == Some(index),
        forall|l: int|
            0 <= l < n && template_owner(doc, #[trigger] doc.line_templates@[l]) == Some(index)
                ==> occurrences_before(doc, index, n).contains(l as usize),
    decreases n,
{
    if n > 0 {
        lemma_occurrences_before(doc, index, n - 1);
        let earlier = occurrences_before(doc, index, n - 1);
        let now = occurrences_before(doc, index, n);
        if template_owner(doc, doc.line_templates@[n - 1]) == Some(index) {
            assert(now == earlier.push((n - 1) as usize));
            assert forall|k: int| 0 <= k < now.len() implies #[trigger] now[k] < n && template_owner(
                doc,
                doc.line_templates@[now[k] as int],
            ) == Some(index) by {
                if k < earlier.len() {
                    assert(now[k] == earlier[k]);
                }
            }
            assert forall|a: int, b: int| 0 <= a < b < now.len() implies #[trigger] now[a] < #[trigger] now[b] by {
                assert(now[a] == earlier[a]);
                if b < earlier.len() {
                    assert(now[b] == earlier[b]);
                }
            }
            assert forall|l: int|
                0 <= l < n && template_owner(doc, #[trigger] doc.line_templates@[l]) == Some(index) implies now.contains(
                l as usize,
            ) by {
                if l == n - 1 {
                    assert(now[earlier.len() as int] == (n - 1) as usize);
                } else {
                    assert(earlier.contains(l as usize));
                    let j = choose|j: int| 0 <= j < earlier.len() && earlier[j] == l as usize;
                    assert(now[j] == l as usize);
                }
            }
        } else {
            assert(now == earlier);
            assert forall|l: int|
                0 <= l < n && template_owner(doc, #[trigger] doc.line_templates@[l]) == Some(index) implies now.contains(
                l as usize,
            ) by {
                assert(l != n - 1);
            }
        }
    }
}

/// Law: a refresh for a changed document rebuilds one row per template;
/// each row holds, in ascending order, exactly the lines of its template,
/// with its first and last line; and the display order lists every row
/// exactly once.
pub proof fn law_refresh_rebuilds_rows(before: TemplateBrowserState, after: TemplateBrowserState, doc: TemplateDocument)
    requires
        refreshed(before, after, doc),
        before.fingerprint() != Some(doc_signature(doc)),
        doc.line_templates@.len() <= usize::MAX,
    ensures
        after.rows@.len() == doc.templates@.len(),
        forall|i: int| 0 <= i < after.rows@.len() ==> row_describes(#[trigger] after.rows@[i], doc, i),
        forall|i: int, a: int, b: int|
            0 <= i < after.rows@.len() && 0 <= a < b < after.rows@[i].occurrences@.len()
                ==> #[trigger] after.rows@[i].occurrences@[a] < #[trigger] after.rows@[i].occurrences@[b],
        forall|i: int, l: int|
            0 <= i < after.rows@.len() && 0 <= l < doc.line_templates@.len() ==> (#[trigger] after.rows@[i].occurrences@.contains(
                l as usize,
            ) <==> template_owner(doc, doc.line_templates@[l]) == Some(i)),
        after.order@.no_duplicates(),
        forall|r: usize| r < after.rows@.len() ==> #[trigger] after.order@.contains(r),
{
    law_display_order_is_permutation(after.order@, after.rows@, doc, after.sort, after.descending);
    let n = doc.line_templates@.len() as int;
    assert forall|i: int, a: int, b: int|
        0 <= i < after.rows@.len() && 0 <= a < b < after.rows@[i].occurrences@.len()
            implies #[trigger] after.rows@[i].occurrences@[a] < #[trigger] after.rows@[i].occurrences@[b] by {
        assert(row_describes(after.rows@[i], doc, i));
        lemma_occurrences_before(doc, i, n);
        assert(occurrences_before(doc, i, n)[a] < occurrences_before(doc, i, n)[b]);
    }
    assert forall|i: int, l: int|
        0 <= i < after.rows@.len() && 0 <= l < doc.line_templates@.len() implies (
        #[trigger] after.rows@[i].occurrences@.contains(l as usize) <==> template_owner(doc, doc.line_templates@[l])
            == Some(i)) by {
        assert(row_describes(after.rows@[i], doc, i));
        lemma_occurrences_before(doc, i, n);
        let occ = occurrences_before(doc, i, n);
        assert(after.rows@[i].occurrences@ == occ);
        if occ.contains(l as usize) {
            let j = choose|j: int| 0 <= j < occ.len() && occ[j] == l as usize;
            assert(occ[j] < n && template_owner(doc, doc.line_templates@[occ[j] as int]) == Some(i));
            assert(occ[j] as int == l);
        }
        if template_owner(doc, doc.line_templates@[l]) == Some(i) {
            assert(occ.contains(l as usize));
        }
    }
}

/// The template id shown by row `a`.
pub open spec fn row_id(doc: TemplateDocument, rows: Seq<TemplateRow>, a: int) -> int {
    doc.templates@[rows[a].template_index as int].id as int
}

/// Law: turning the direction around swaps which of two rows comes first,
/// for every sort key, when the rows show different templates.
pub proof fn law_direction_swaps_rank(
    doc: TemplateDocument,
    rows: Seq<TemplateRow>,
    sort: TemplateSort,
    a: int,
    b: int,
)
    requires
        a != b,
        row_id(doc, rows, a) != row_id(doc, rows, b),
    ensures
        ranks_before(doc, rows, sort, true, a, b) == ranks_before(doc, rows, sort, false, b, a),
{
}

/// Law: of two different rows exactly one comes first, in either direction.
pub proof fn law_rank_is_a_strict_total_order(
    doc: TemplateDocument,
    rows: Seq<TemplateRow>,
    sort: TemplateSort,
    descending: bool,
    a: int,
    b: int,
)
    requires
        a != b,
    ensures
        ranks_before(doc, rows, sort, descending, a, b) != ranks_before(doc, rows, sort, descending, b, a),
{
}

proof fn lemma_orders_agree_upto(
    first: Seq<usize>,
    second: Seq<usize>,
    rows: Seq<TemplateRow>,
    doc: TemplateDocument,
    sort: TemplateSort,
    descending: bool,
    i: int,
)
    requires
        in_display_order(first, rows, doc, sort, descending),
        in_display_order(second, rows, doc, sort, descending),
        0 <= i <= first.len(),
    ensures
        forall|k: int| 0 <= k < i ==> first[k] == second[k],
    decreases i,
{
    if i > 0 {
        lemma_orders_agree_upto(first, second, rows, doc, sort, descending, i - 1);
        law_display_order_is_permutation(first, rows, doc, sort, descending);
        law_display_order_is_permutation(second, rows, doc, sort, descending);
        let x = first[i - 1];
        let y = second[i - 1];
        if x != y {
            assert(first.contains(y));
            let j = choose|j: int| 0 <= j < first.len() && first[j] == y;
            assert(j >= i) by {
                if j < i - 1 {
                    assert(second[j] == y);
                }
            }
            assert(second.contains(x));
            let j2 = choose|j2: int| 0 <= j2 < second.len() && second[j2] == x;
            assert(j2 >= i) by {
                if j2 < i - 1 {
                    assert(first[j2] == x);
                }
            }
            assert(ranks_before(doc, rows, sort, descending, x as int, y as int));
            assert(ranks_before(doc, rows, sort, descending, y as int, x as int));
            law_rank_is_a_strict_total_order(doc, rows, sort, descending, x as int, y as int);
        }
    }
}

/// Law: what each sort key means, in the ascending direction: by Count
/// the more frequent templates come first, by Rarity the less frequent,
/// by First seen the earlier first occurrence, by Last seen the later last
/// occurrence; rows that tie on the key come by template id.
pub proof fn law_sort_keys_order_rows(
    order: Seq<usize>,
    rows: Seq<TemplateRow>,
    doc: TemplateDocument,
    sort: TemplateSort,
    i: int,
    j: int,
)
    requires
        in_display_order(order, rows, doc, sort, false),
        0 <= i < j < order.len(),
    ensures
        ({
            let a = rows[order[i] as int];
            let b = rows[order[j] as int];
            let ca = doc.templates@[a.template_index as int].count;
            let cb = doc.templates@[b.template_index as int].count;
            let ka = match sort {
                TemplateSort::Count => cb as int,
                TemplateSort::Rarity => ca as int,
                TemplateSort::FirstSeen => a.first_line as int,
                TemplateSort::LastSeen => b.last_line as int,
            };
            let kb = match sort {
                TemplateSort::Count => ca as int,
                TemplateSort::Rarity => cb as int,
                TemplateSort::FirstSeen => b.first_line as int,
                TemplateSort::LastSeen => a.last_line as int,
            };
            &&& ka <= kb
            &&& ka == kb ==> row_id(doc, rows, order[i] as int) <= row_id(doc, rows, order[j] as int)
        }),
{
    assert(ranks_before(doc, rows, sort, false, order[i] as int, order[j] as int));
}

/// Law: a display order is unique: two orders of the same rows by the same
/// key and direction are the same.
pub proof fn law_display_order_is_unique(
    first: Seq<usize>,
    second: Seq<usize>,
    rows: Seq<TemplateRow>,
    doc: TemplateDocument,
    sort: TemplateSort,
    descending: bool,
)
    requires
        in_display_order(first, rows, doc, sort, descending),
        in_display_order(second, rows, doc, sort, descending),
    ensures
        first == second,
{
    lemma_orders_agree_upto(first, second, rows, doc, sort, descending, first.len() as int);
    assert(first =~= second);
}

/// Law: for every sort key, the descending order is the ascending order
/// reversed, when no two rows show the same template.
pub proof fn law_descending_reverses_ascending(
    ascending: Seq<usize>,
    descending: Seq<usize>,
    rows: Seq<TemplateRow>,
    doc: TemplateDocument,
    sort: TemplateSort,
)
    requires
        forall|a: int, b: int| 0 <= a < b < rows.len() ==> row_id(doc, rows, a) != row_id(doc, rows, b),
        in_display_order(ascending, rows, doc, sort, false),
        in_display_order(descending, rows, doc, sort, true),
    ensures
        descending == ascending.reverse(),
{
    law_display_order_is_permutation(ascending, rows, doc, sort, false);
    let rev = ascending.reverse();
    assert forall|i: int, j: int| 0 <= i < j < rev.len() implies ranks_before(
        doc,
        rows,
        sort,
        true,
        #[trigger] rev[i] as int,
        #[trigger] rev[j] as int,
    ) by {
        let x = rev[i] as int;
        let y = rev[j] as int;
        assert(x == ascending[ascending.len() - 1 - i] as int);
        assert(y == ascending[ascending.len() - 1 - j] as int);
        assert(ranks_before(doc, rows, sort, false, y, x));
        assert(x != y);
        if x < y {
            law_direction_swaps_rank(doc, rows, sort, x, y);
        } else {
            law_direction_swaps_rank(doc, rows, sort, x, y);
        }
    }
    assert(in_display_order(rev, rows, doc, sort, true));
    law_display_order_is_unique(descending, rev, rows, doc, sort, true);
}

/// Law: the display order lists every row exactly once.
pub proof fn law_display_order_is_permutation(
    order: Seq<usize>,
    rows: Seq<TemplateRow>,
    doc: TemplateDocument,
    sort: TemplateSort,
    descending: bool,
)
    requires
        in_display_order(order, rows, doc, sort, descending),
    ensures
        order.no_duplicates(),
        forall|r: usize| r < rows.len() ==> #[trigger] order.contains(r),
{
    assert forall|i: int, j: int| 0 <= i < order.len() && 0 <= j < order.len() && i != j implies order[i] != order[j] by {
        if i < j {
            lemma_ranks_order(doc, rows, sort, descending, order[i] as int, order[j] as int, order[i] as int);
        } else {
            lemma_ranks_order(doc, rows, sort, descending, order[j] as int, order[i] as int, order[j] as int);
        }
    }
    let ints = order.map_values(|x: usize| x as int);
    assert forall|i: int, j: int| 0 <= i < ints.len() && 0 <= j < ints.len() && i != j implies ints[i] != ints[j] by {
        assert(order[i] != order[j]);
    }
    assert(ints.no_duplicates());
    ints.unique_seq_to_set();
    vstd::set_lib::lemma_int_range(0, rows.len() as int);
    let range = vstd::set_lib::set_int_range(0, rows.len() as int);
    assert(ints.to_set().subset_of(range)) by {
        assert forall|x: int| ints.to_set().contains(x) implies range.contains(x) by {
            let k = choose|k: int| 0 <= k < ints.len() && ints[k] == x;
            assert(order[k] < rows.len());
        }
    }
    vstd::set_lib::lemma_subset_equality(ints.to_set(), range);
    assert forall|r: usize| r < rows.len() implies #[trigger] order.contains(r) by {
        assert(range.contains(r as int));
        assert(ints.to_set().contains(r as int));
        let k = choose|k: int| 0 <= k < ints.len() && ints[k] == r as int;
        assert(order[k] == r);
    }
}

/// The lines are strictly increasing.
pub open spec fn strictly_increasing(lines: Seq<usize>) -> bool {
    forall|i: int, j: int| 0 <= i < j < lines.len() ==> lines[i] < lines[j]
}

proof fn lemma_lines_before_at(lines: Seq<usize>, i: int, inclusive: bool)
    requires
        strictly_increasing(lines),
        0 <= i < lines.len(),
    ensures
        lines_before(lines, lines[i] as int, inclusive) == if inclusive {
            i + 1
        } else {
            i
        },
{
    lemma_lines_before(lines, lines[i] as int, inclusive);
    let pos = lines_before(lines, lines[i] as int, inclusive);
    if inclusive {
        if pos < i + 1 {
            assert(lines[pos] <= lines[i]);
        }
        if pos > i + 1 {
            assert(lines[i + 1] > lines[i]);
        }
    } else {
        if pos < i {
            assert(lines[pos] < lines[i]);
        }
        if pos > i {
            assert(!(lines[i] < lines[i]));
        }
    }
}

/// Law: stepping to the next occurrence from an occurrence gives the one
/// after it, or wraps from the last to the first; stepping back from there
/// returns to where the step started.
pub proof fn law_step_back_undoes_step(lines: Seq<usize>, i: int)
    requires
        strictly_increasing(lines),
        0 <= i < lines.len(),
    ensures
        i + 1 < lines.len() ==> occurrence_step(lines, Some(lines[i]), true) == Some(lines[i + 1]),
        i + 1 < lines.len() ==> occurrence_step(lines, Some(lines[i + 1]), false) == Some(lines[i]),
        i + 1 == lines.len() ==> occurrence_step(lines, Some(lines[i]), true) == Some(lines[0]),
{
    lemma_lines_before_at(lines, i, true);
    if i + 1 < lines.len() {
        lemma_lines_before_at(lines, i + 1, false);
    }
}

} // verus!
