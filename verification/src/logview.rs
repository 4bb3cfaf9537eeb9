//! Log View decisions that do not depend on painting: find-box keys,
//! keyword picking, and the mapping between source lines, filtered rows and
//! the visible viewport.

use std::ops::Range;

use vstd::prelude::*;
use vstd::utf8::*;

use crate::text::{chars_of, is_whitespace, str_eq, string_of, unicode_whitespace};

verus! {

/// What Enter does in the focused find box.
#[derive(Clone, Copy, Debug, PartialEq, Eq, Structural)]
pub enum FindEnterAction {
    Start,
    Next,
}

/// Enter starts a new search when the query or mode changed, otherwise it
/// advances to the next hit; it does nothing unless the find box had focus
/// (or just lost it to Enter) and the query can run.
pub fn find_enter_action(
    input_has_focus: bool,
    input_lost_focus: bool,
    enter_pressed: bool,
    can_execute: bool,
    query_changed: bool,
    mode_changed: bool,
) -> (action: Option<FindEnterAction>)
    ensures
        action == if !enter_pressed || !can_execute || !(input_has_focus || input_lost_focus) {
            None
        } else if query_changed || mode_changed {
            Some(FindEnterAction::Start)
        } else {
            Some(FindEnterAction::Next)
        },
{
    if !enter_pressed || !can_execute || !(input_has_focus || input_lost_focus) {
        return None;
    }
    if query_changed || mode_changed {
        Some(FindEnterAction::Start)
    } else {
        Some(FindEnterAction::Next)
    }
}

/// Enter pressed outside the find box advances an active search that has hits.
pub fn should_advance_find_on_enter(
    search_active: bool,
    has_matches: bool,
    text_edit_focused: bool,
    enter_pressed: bool,
) -> (advance: bool)
    ensures
        advance == (search_active && has_matches && !text_edit_focused && enter_pressed),
{
    search_active && has_matches && !text_edit_focused && enter_pressed
}

/// Every character of the sequence is white space.
pub open spec fn blank(s: Seq<char>) -> bool {
    forall|i: int| 0 <= i < s.len() ==> unicode_whitespace(#[trigger] s[i])
}

/// Whether a string holds only white space (its trimmed form is empty).
pub fn is_blank(s: &str) -> (res: bool)
    ensures
        res == blank(s@),
{
    let cs = chars_of(s);
    let mut i: usize = 0;
    while i < cs.len()
        invariant
            cs@ == s@,
            i <= cs.len(),
            forall|k: int| 0 <= k < i ==> unicode_whitespace(#[trigger] cs@[k]),
        decreases cs.len() - i,
    {
        if !is_whitespace(cs[i]) {
            return false;
        }
        i += 1;
    }
    true
}

/// The clear-search button shows while a search runs, the find box holds
/// more than white space, or a query is active.
pub fn has_search_content(find_input: &str, find_query: &str, search_in_flight: bool) -> (res: bool)
    ensures
        res == (search_in_flight || !blank(find_input@) || find_query@.len() > 0),
{
    search_in_flight || !is_blank(find_input) || !find_query.is_empty()
}

/// Characters that end a clickable keyword.
pub open spec fn word_delimiter(c: char) -> bool {
    unicode_whitespace(c) || c == '-' || c == '[' || c == ']' || c == '{' || c == '}' || c == '('
        || c == ')' || c == ',' || c == '"' || c == '\''
}

/// Whether a character ends a clickable keyword.
pub fn is_word_delimiter(c: char) -> (res: bool)
    ensures
        res == word_delimiter(c),
{
    is_whitespace(c) || c == '-' || c == '[' || c == ']' || c == '{' || c == '}' || c == '('
        || c == ')' || c == ',' || c == '"' || c == '\''
}

/// `text[s..e]` is the maximal delimiter-free run of characters.
pub open spec fn word_bounds(text: Seq<char>, s: int, e: int) -> bool {
    &&& 0 <= s < e <= text.len()
    &&& forall|k: int| s <= k < e ==> !word_delimiter(#[trigger] text[k])
    &&& (s == 0 || word_delimiter(text[s - 1]))
    &&& (e == text.len() || word_delimiter(text[e]))
}

/// The keyword under the character at `char_idx`: the maximal run of
/// non-delimiter characters around it, or `None` past the end of the text
/// or on a delimiter.
pub fn keyword_at(text: &str, char_idx: usize) -> (word: Option<String>)
    ensures
        word is None <==> (char_idx >= text@.len() || word_delimiter(text@[char_idx as int])),
        word matches Some(w) ==> exists|s: int, e: int|
            #![trigger text@.subrange(s, e)]
            s <= char_idx < e && word_bounds(text@, s, e) && w@ == text@.subrange(s, e),
{
    let cs = chars_of(text);
    let count = cs.len();
    if count == 0 {
        return None;
    }
    if char_idx >= count {
        return None;
    }
    if is_word_delimiter(cs[char_idx]) {
        return None;
    }
    let mut start = char_idx;
    while start > 0 && !is_word_delimiter(cs[start - 1])
        invariant
            cs@ == text@,
            count == cs.len(),
            start <= char_idx < count,
            forall|k: int| start <= k <= char_idx ==> !word_delimiter(#[trigger] cs@[k]),
        decreases start,
    {
        start -= 1;
    }
    let mut end = char_idx;
    while end < count && !is_word_delimiter(cs[end])
        invariant
            cs@ == text@,
            count == cs.len(),
            start <= char_idx <= end <= count,
            forall|k: int| start <= k < end ==> !word_delimiter(#[trigger] cs@[k]),
            start == 0 || word_delimiter(cs@[start - 1]),
            !word_delimiter(cs@[char_idx as int]),
        decreases count - end,
    {
        end += 1;
    }
    let word = string_of(&cs.as_slice()[start..end]);
    proof {
        assert(word_bounds(text@, start as int, end as int));
    }
    Some(word)
}

/// The sequence is strictly increasing.
pub open spec fn strictly_sorted(s: Seq<u32>) -> bool {
    forall|i: int, j: int| 0 <= i < j < s.len() ==> s[i] < s[j]
}

/// Number of leading entries of a sorted list that are below `bound`
/// (or at most `bound` when `inclusive`), found by binary search.
pub fn count_below(lines: &[u32], bound: usize, inclusive: bool) -> (n: usize)
    requires
        strictly_sorted(lines@),
    ensures
        n <= lines@.len(),
        forall|k: int| 0 <= k < n ==> if inclusive {
            (#[trigger] lines@[k]) as int <= bound
        } else {
            (lines@[k] as int) < bound
        },
        forall|k: int| n <= k < lines@.len() ==> if inclusive {
            (#[trigger] lines@[k]) as int > bound
        } else {
            lines@[k] as int >= bound
        },
{
    let mut lo: usize = 0;
    let mut hi: usize = lines.len();
    while lo < hi
        invariant
            strictly_sorted(lines@),
            lo <= hi <= lines@.len(),
            forall|k: int| 0 <= k < lo ==> if inclusive {
                (#[trigger] lines@[k]) as int <= bound
            } else {
                (lines@[k] as int) < bound
            },
            forall|k: int| hi <= k < lines@.len() ==> if inclusive {
                (#[trigger] lines@[k]) as int > bound
            } else {
                lines@[k] as int >= bound
            },
        decreases hi - lo,
    {
        let mid = lo + (hi - lo) / 2;
        let below = if inclusive {
            (lines[mid] as usize) <= bound
        } else {
            (lines[mid] as usize) < bound
        };
        if below {
            proof {
                assert forall|k: int| 0 <= k < mid + 1 implies if inclusive {
                    (#[trigger] lines@[k]) as int <= bound
                } else {
                    (lines@[k] as int) < bound
                } by {
                    if k < mid {
                        assert(lines@[k] < lines@[mid as int]);
                    }
                }
            }
            lo = mid + 1;
        } else {
            proof {
                assert forall|k: int| mid <= k < lines@.len() implies if inclusive {
                    (#[trigger] lines@[k]) as int > bound
                } else {
                    lines@[k] as int >= bound
                } by {
                    if k > mid {
                        assert(lines@[mid as int] < lines@[k]);
                    }
                }
            }
            hi = mid;
        }
    }
    lo
}

/// `slice::binary_search` on a strictly sorted list: the index of `key`, or
/// the position where it would be inserted.
pub fn search_sorted(lines: &[u32], key: u32) -> (res: Result<usize, usize>)
    requires
        strictly_sorted(lines@),
    ensures
        res matches Ok(i) ==> i < lines@.len() && lines@[i as int] == key,
        res matches Err(i) ==> i <= lines@.len() && (forall|k: int|
            0 <= k < i ==> #[trigger] lines@[k] < key) && (forall|k: int|
            i <= k < lines@.len() ==> #[trigger] lines@[k] > key),
{
    let p = count_below(lines, key as usize, false);
    if p < lines.len() && lines[p] == key {
        Ok(p)
    } else {
        proof {
            assert forall|k: int| p <= k < lines@.len() implies #[trigger] lines@[k] > key by {
                if k > p {
                    assert(lines@[p as int] < lines@[k]);
                }
            }
        }
        Err(p)
    }
}

/// The sorted visible lines within `start..=end`, found with two binary
/// searches.
pub fn visible_lines_in_range(lines: &[u32], start: usize, end: usize) -> (found: &[u32])
    requires
        strictly_sorted(lines@),
        forall|k: int| 0 <= k < lines@.len() ==> !(end < #[trigger] lines@[k] < start),
    ensures
        exists|f: int, l: int|
            #![trigger lines@.subrange(f, l)]
            0 <= f <= l <= lines@.len() && found@ == lines@.subrange(f, l) && (forall|k: int|
                0 <= k < f ==> (#[trigger] lines@[k]) < start) && (forall|k: int|
                f <= k < l ==> start <= #[trigger] lines@[k] <= end) && (forall|k: int|
                l <= k < lines@.len() ==> #[trigger] lines@[k] > end),
{
    let first = count_below(lines, start, false);
    let last = count_below(lines, end, true);
    proof {
        if last < first {
            assert(lines@[last as int] as int > end);
            assert((lines@[last as int] as int) < start);
        }
    }
    let found = &lines[first..last];
    proof {
        assert(found@ == lines@.subrange(first as int, last as int));
    }
    found
}


/// Entry `k` of the list is below `bound` (at most `bound` when inclusive).
pub open spec fn below(v: u32, bound: int, inclusive: bool) -> bool {
    if inclusive {
        v as int <= bound
    } else {
        (v as int) < bound
    }
}

/// `n` splits the list into entries below `bound` and entries above it.
pub open spec fn is_partition(s: Seq<u32>, bound: int, inclusive: bool, n: int) -> bool {
    &&& 0 <= n <= s.len()
    &&& forall|k: int| 0 <= k < n ==> below(#[trigger] s[k], bound, inclusive)
    &&& forall|k: int| n <= k < s.len() ==> !below(#[trigger] s[k], bound, inclusive)
}

/// The partition point of a sorted list (what `partition_point` returns).
pub open spec fn partition_at(s: Seq<u32>, bound: int, inclusive: bool) -> int {
    choose|n: int| is_partition(s, bound, inclusive, n)
}

proof fn lemma_partition_unique(s: Seq<u32>, bound: int, inclusive: bool, n: int)
    requires
        is_partition(s, bound, inclusive, n),
    ensures
        partition_at(s, bound, inclusive) == n,
{
    let m = partition_at(s, bound, inclusive);
    assert(is_partition(s, bound, inclusive, m));
    if m < n {
        assert(below(s[m], bound, inclusive));
    } else if m > n {
        assert(below(s[n], bound, inclusive));
    }
}

fn partition_point(lines: &[u32], bound: usize, inclusive: bool) -> (n: usize)
    requires
        strictly_sorted(lines@),
    ensures
        n as int == partition_at(lines@, bound as int, inclusive),
        is_partition(lines@, bound as int, inclusive, n as int),
{
    let n = count_below(lines, bound, inclusive);
    proof {
        assert(is_partition(lines@, bound as int, inclusive, n as int));
        lemma_partition_unique(lines@, bound as int, inclusive, n as int);
    }
    n
}

pub open spec fn sat_sub(a: int, b: int) -> int {
    if a >= b {
        a - b
    } else {
        0
    }
}

pub open spec fn min_int(a: int, b: int) -> int {
    if a <= b {
        a
    } else {
        b
    }
}

pub open spec fn max_int(a: int, b: int) -> int {
    if a >= b {
        a
    } else {
        b
    }
}

pub open spec fn abs_diff(a: int, b: int) -> int {
    if a >= b {
        a - b
    } else {
        b - a
    }
}

/// Rows kept between a reselected row and the viewport edge.
pub const SELECTION_VIEWPORT_MARGIN_LINES: usize = 1;

/// The row the selection moves to after the user scrolled the viewport
/// `first..=last` (source lines), or `None` when it stays.
/// Filtered views work on the visible-line list: a selection above the
/// viewport moves just inside its top edge, one below moves just inside its
/// bottom edge, and a hidden selection moves to the nearest visible row in
/// the viewport (keeping the margin at the edges). Unfiltered views clamp to
/// the viewport with the same margin.
pub open spec fn reconcile_target(
    visible: Option<Seq<u32>>,
    first: usize,
    last: usize,
    selected: usize,
) -> Option<usize> {
    match visible {
        Some(v) => {
            let fv = partition_at(v, first as int, false);
            let ev = partition_at(v, last as int, true);
            let key = selected as u32;
            if fv >= ev {
                None
            } else if exists|i: int| 0 <= i < v.len() && v[i] == key {
                let sv = choose|i: int| 0 <= i < v.len() && v[i] == key;
                if fv <= sv < ev {
                    None
                } else if sv < fv {
                    Some(v[min_int(fv + 1, ev - 1)] as usize)
                } else {
                    Some(v[max_int(sat_sub(ev - 1, 1), fv)] as usize)
                }
            } else {
                let ins = partition_at(v, key as int, false);
                let lower = max_int(sat_sub(ins, 1), fv);
                let upper = min_int(ins, ev - 1);
                let nearest = if abs_diff(selected as int, v[lower] as int) <= abs_diff(
                    selected as int,
                    v[upper] as int,
                ) {
                    lower
                } else {
                    upper
                };
                let nearest = if nearest == fv {
                    min_int(nearest + 1, ev - 1)
                } else if nearest == ev - 1 {
                    max_int(sat_sub(nearest, 1), fv)
                } else {
                    nearest
                };
                Some(v[nearest] as usize)
            }
        },
        None => {
            if first <= selected <= last {
                None
            } else if selected < first {
                Some(min_int(first + 1, last as int) as usize)
            } else {
                Some(max_int(sat_sub(last as int, 1), first as int) as usize)
            }
        },
    }
}


proof fn lemma_partition_exists(s: Seq<u32>, bound: int, inclusive: bool)
    requires
        strictly_sorted(s),
    ensures
        is_partition(s, bound, inclusive, partition_at(s, bound, inclusive)),
    decreases s.len(),
{
    if s.len() == 0 {
        assert(is_partition(s, bound, inclusive, 0));
    } else if below(s[s.len() - 1], bound, inclusive) {
        assert forall|k: int| 0 <= k < s.len() implies below(#[trigger] s[k], bound, inclusive) by {
            if k < s.len() - 1 {
                assert(s[k] < s[s.len() - 1]);
            }
        }
        assert(is_partition(s, bound, inclusive, s.len() as int));
    } else {
        let t = s.drop_last();
        lemma_partition_exists(t, bound, inclusive);
        let m = partition_at(t, bound, inclusive);
        assert forall|k: int| 0 <= k < m implies below(#[trigger] s[k], bound, inclusive) by {
            assert(s[k] == t[k]);
        }
        assert forall|k: int| m <= k < s.len() implies !below(#[trigger] s[k], bound, inclusive) by {
            if k < s.len() - 1 {
                assert(s[k] == t[k]);
            }
        }
        assert(is_partition(s, bound, inclusive, m));
    }
}

/// A selection moved by a manual scroll lands on a row inside the viewport,
/// and in a filtered view on a visible line. This holds whenever the old
/// selection was itself a visible line or lay inside the viewport; a hidden
/// selection outside the viewport may instead move to the visible line next
/// to it.
pub proof fn law_reselection_stays_in_viewport(
    visible: Option<Seq<u32>>,
    first: usize,
    last: usize,
    selected: usize,
)
    requires
        first <= last,
        visible matches Some(v) ==> strictly_sorted(v) && selected <= u32::MAX && (v.contains(
            selected as u32,
        ) || first <= selected <= last),
    ensures
        reconcile_target(visible, first, last, selected) matches Some(t) ==> first <= t <= last
            && (visible matches Some(v) ==> v.contains(t as u32)),
{
    match visible {
        Some(v) => {
            lemma_partition_exists(v, first as int, false);
            lemma_partition_exists(v, last as int, true);
            let fv = partition_at(v, first as int, false);
            let ev = partition_at(v, last as int, true);
            let key = selected as u32;
            lemma_partition_exists(v, key as int, false);
            if fv < ev {
                if exists|i: int| 0 <= i < v.len() && v[i] == key {
                    let sv = choose|i: int| 0 <= i < v.len() && v[i] == key;
                    let idx = if sv < fv {
                        min_int(fv + 1, ev - 1)
                    } else {
                        max_int(sat_sub(ev - 1, 1), fv)
                    };
                    assert(fv <= idx < ev);
                    assert(below(v[idx], last as int, true));
                    assert(!below(v[idx], first as int, false));
                } else {
                    let ins = partition_at(v, key as int, false);
                    assert(fv <= ins <= ev) by {
                        if ins < fv {
                            assert(!below(v[ins], key as int, false));
                            assert(below(v[ins], first as int, false));
                        }
                        if ins > ev {
                            assert(below(v[ev], key as int, false));
                            assert(!below(v[ev], last as int, true));
                        }
                    }
                    let lower = max_int(sat_sub(ins, 1), fv);
                    let upper = min_int(ins, ev - 1);
                    assert(fv <= lower < ev && fv <= upper < ev);
                    let nearest = if abs_diff(selected as int, v[lower] as int) <= abs_diff(
                        selected as int,
                        v[upper] as int,
                    ) {
                        lower
                    } else {
                        upper
                    };
                    let nearest = if nearest == fv {
                        min_int(nearest + 1, ev - 1)
                    } else if nearest == ev - 1 {
                        max_int(sat_sub(nearest, 1), fv)
                    } else {
                        nearest
                    };
                    assert(fv <= nearest < ev);
                    assert(below(v[nearest], last as int, true));
                    assert(!below(v[nearest], first as int, false));
                    assert(v[nearest] as usize as u32 == v[nearest]);
                }
            }
        },
        None => {},
    }
}

/// The Log View's viewport bookkeeping: the filtered visible lines (sorted,
/// `None` when unfiltered), the completely visible source-line range, and
/// the selected source line.
pub struct ViewportSelection {
    pub visible_lines: Option<Vec<u32>>,
    pub viewport_range: Option<(usize, usize)>,
    pub context_line: Option<usize>,
}

impl ViewportSelection {
    /// The visible lines are strictly increasing.
    pub open spec fn wf(&self) -> bool {
        self.visible_lines matches Some(v) ==> strictly_sorted(v@)
    }

    pub open spec fn visible_seq(&self) -> Option<Seq<u32>> {
        match self.visible_lines {
            Some(v) => Some(v@),
            None => None,
        }
    }
}

/// Where the selection goes after a manual scroll of `state` (`None` when
/// nothing is selected, no viewport is known, or the selection stays).
pub open spec fn viewport_target(state: ViewportSelection) -> Option<usize> {
    match (state.context_line, state.viewport_range) {
        (Some(selected), Some((first, last))) => reconcile_target(
            state.visible_seq(),
            first,
            last,
            selected,
        ),
        _ => None,
    }
}

/// The reselection target in a filtered view.
fn filtered_target(v: &[u32], first: usize, last: usize, selected: usize) -> (t: Option<usize>)
    requires
        strictly_sorted(v@),
    ensures
        t == reconcile_target(Some(v@), first, last, selected),
{
    let first_virtual = partition_point(v, first, false);
    let end_virtual = partition_point(v, last, true);
    if first_virtual >= end_virtual {
        return None;
    }
    let key = selected as u32;
    match search_sorted(v, key) {
        Ok(selected_virtual) => {
            proof {
                let sv = choose|i: int| 0 <= i < v@.len() && v@[i] == key;
                assert(0 <= sv < v@.len() && v@[sv] == key);
                if sv < selected_virtual {
                    assert(v@[sv] < v@[selected_virtual as int]);
                } else if sv > selected_virtual {
                    assert(v@[selected_virtual as int] < v@[sv]);
                }
                assert(sv == selected_virtual);
            }
            if first_virtual <= selected_virtual && selected_virtual < end_virtual {
                None
            } else if selected_virtual < first_virtual {
                let index = if first_virtual + SELECTION_VIEWPORT_MARGIN_LINES < end_virtual - 1 {
                    first_virtual + SELECTION_VIEWPORT_MARGIN_LINES
                } else {
                    end_virtual - 1
                };
                Some(v[index] as usize)
            } else {
                let index = if end_virtual - 1 >= SELECTION_VIEWPORT_MARGIN_LINES {
                    end_virtual - 1 - SELECTION_VIEWPORT_MARGIN_LINES
                } else {
                    0
                };
                let index = if index > first_virtual {
                    index
                } else {
                    first_virtual
                };
                Some(v[index] as usize)
            }
        },
        Err(insertion) => {
            proof {
                assert(!exists|i: int| 0 <= i < v@.len() && v@[i] == key) by {
                    if exists|i: int| 0 <= i < v@.len() && v@[i] == key {
                        let i = choose|i: int| 0 <= i < v@.len() && v@[i] == key;
                        if i < insertion {
                            assert(v@[i] < key);
                        } else {
                            assert(v@[i] > key);
                        }
                    }
                }
                assert(is_partition(v@, key as int, false, insertion as int));
                lemma_partition_unique(v@, key as int, false, insertion as int);
            }
            Some(nearest_visible(v, first_virtual, end_virtual, insertion, selected))
        },
    }
}

/// The visible line nearest to a hidden selection, kept one row away from
/// the viewport edges.
fn nearest_visible(
    v: &[u32],
    first_virtual: usize,
    end_virtual: usize,
    insertion: usize,
    selected: usize,
) -> (line: usize)
    requires
        first_virtual < end_virtual <= v@.len(),
        insertion <= v@.len(),
    ensures
        ({
            let fv = first_virtual as int;
            let ev = end_virtual as int;
            let ins = insertion as int;
            let lower = max_int(sat_sub(ins, 1), fv);
            let upper = min_int(ins, ev - 1);
            let nearest = if abs_diff(selected as int, v@[lower] as int) <= abs_diff(
                selected as int,
                v@[upper] as int,
            ) {
                lower
            } else {
                upper
            };
            let nearest = if nearest == fv {
                min_int(nearest + 1, ev - 1)
            } else if nearest == ev - 1 {
                max_int(sat_sub(nearest, 1), fv)
            } else {
                nearest
            };
            line == v@[nearest] as usize
        }),
{
    let lower = if insertion >= 1 {
        insertion - 1
    } else {
        0
    };
    let lower = if lower > first_virtual {
        lower
    } else {
        first_virtual
    };
    let upper = if insertion < end_virtual - 1 {
        insertion
    } else {
        end_virtual - 1
    };
    let lower_line = v[lower] as usize;
    let upper_line = v[upper] as usize;
    let lower_distance = if selected >= lower_line {
        selected - lower_line
    } else {
        lower_line - selected
    };
    let upper_distance = if selected >= upper_line {
        selected - upper_line
    } else {
        upper_line - selected
    };
    let nearest = if lower_distance <= upper_distance {
        lower
    } else {
        upper
    };
    let nearest = if nearest == first_virtual {
        if nearest + SELECTION_VIEWPORT_MARGIN_LINES < end_virtual - 1 {
            nearest + SELECTION_VIEWPORT_MARGIN_LINES
        } else {
            end_virtual - 1
        }
    } else if nearest == end_virtual - 1 {
        let back = if nearest >= SELECTION_VIEWPORT_MARGIN_LINES {
            nearest - SELECTION_VIEWPORT_MARGIN_LINES
        } else {
            0
        };
        if back > first_virtual {
            back
        } else {
            first_virtual
        }
    } else {
        nearest
    };
    v[nearest] as usize
}

/// The reselection target in an unfiltered view.
fn unfiltered_target(first: usize, last: usize, selected: usize) -> (t: Option<usize>)
    ensures
        t == reconcile_target(None, first, last, selected),
{
    if first <= selected && selected <= last {
        None
    } else if selected < first {
        Some(if first < last {
            first + SELECTION_VIEWPORT_MARGIN_LINES
        } else {
            last
        })
    } else {
        let back = if last >= SELECTION_VIEWPORT_MARGIN_LINES {
            last - SELECTION_VIEWPORT_MARGIN_LINES
        } else {
            0
        };
        Some(if back > first {
            back
        } else {
            first
        })
    }
}

/// After a manual scroll, keeps the selection attached to a row inside the
/// viewport (see `reconcile_target`). Returns whether the selection moved;
/// the viewport itself is never scrolled.
pub fn reconcile_selection_after_user_scroll(state: &mut ViewportSelection) -> (moved: bool)
    requires
        old(state).wf(),
    ensures
        final(state).visible_lines == old(state).visible_lines,
        final(state).viewport_range == old(state).viewport_range,
        moved == (viewport_target(*old(state)) matches Some(t) && Some(t) != old(state).context_line),
        moved ==> final(state).context_line == viewport_target(*old(state)),
        !moved ==> final(state).context_line == old(state).context_line,
{
    let selected = match state.context_line {
        Some(line) => line,
        None => return false,
    };
    let (first, last) = match state.viewport_range {
        Some(range) => range,
        None => return false,
    };
    let replacement = match &state.visible_lines {
        Some(visible) => filtered_target(visible.as_slice(), first, last, selected),
        None => unfiltered_target(first, last, selected),
    };
    let replacement = match replacement {
        Some(line) => line,
        None => return false,
    };
    if replacement == selected {
        return false;
    }
    state.context_line = Some(replacement);
    true
}


/// The row shown for source `line` among `total_visible` rows: the exact or
/// nearest filtered row, or the line itself clamped to the last row.
pub open spec fn virtual_index(visible: Option<Seq<u32>>, line: usize, total_visible: usize) -> Option<usize> {
    if total_visible == 0 {
        None
    } else {
        match visible {
            Some(v) => {
                let key = line as u32;
                if exists|i: int| 0 <= i < v.len() && v[i] == key {
                    Some((choose|i: int| 0 <= i < v.len() && v[i] == key) as usize)
                } else {
                    Some(min_int(partition_at(v, key as int, false), sat_sub(v.len() as int, 1)) as usize)
                }
            },
            None => Some(min_int(line as int, total_visible - 1) as usize),
        }
    }
}

/// Resolves a source line to the row used by the Log View; filtered views
/// use the nearest row when the target line is hidden.
pub fn virtual_index_for_line(visible: Option<&[u32]>, line: usize, total_visible: usize) -> (index: Option<usize>)
    requires
        visible matches Some(v) ==> strictly_sorted(v@),
    ensures
        index == virtual_index(
            match visible {
                Some(v) => Some(v@),
                None => None,
            },
            line,
            total_visible,
        ),
{
    if total_visible == 0 {
        return None;
    }
    match visible {
        Some(v) => {
            let key = line as u32;
            let index = match search_sorted(v, key) {
                Ok(found) => {
                    proof {
                        let sv = choose|i: int| 0 <= i < v@.len() && v@[i] == key;
                        if sv < found {
                            assert(v@[sv] < v@[found as int]);
                        } else if sv > found {
                            assert(v@[found as int] < v@[sv]);
                        }
                    }
                    found
                },
                Err(insertion) => {
                    proof {
                        assert(!exists|i: int| 0 <= i < v@.len() && v@[i] == key) by {
                            if exists|i: int| 0 <= i < v@.len() && v@[i] == key {
                                let i = choose|i: int| 0 <= i < v@.len() && v@[i] == key;
                                if i < insertion {
                                    assert(v@[i] < key);
                                } else {
                                    assert(v@[i] > key);
                                }
                            }
                        }
                        assert(is_partition(v@, key as int, false, insertion as int));
                        lemma_partition_unique(v@, key as int, false, insertion as int);
                    }
                    let top = if v.len() >= 1 {
                        v.len() - 1
                    } else {
                        0
                    };
                    if insertion < top {
                        insertion
                    } else {
                        top
                    }
                },
            };
            Some(index)
        },
        None => Some(
            if line < total_visible - 1 {
                line
            } else {
                total_visible - 1
            },
        ),
    }
}

/// The rows of the viewport `first..=last` (source lines): the filtered rows
/// inside it, or the clamped lines of an unfiltered view.
pub open spec fn viewport_rows(
    visible: Option<Seq<u32>>,
    viewport: Option<(usize, usize)>,
    total_visible: usize,
) -> Option<(usize, usize)> {
    match viewport {
        None => None,
        Some((first, last)) => if total_visible == 0 {
            None
        } else {
            match visible {
                Some(v) => {
                    let fv = partition_at(v, first as int, false);
                    let ev = partition_at(v, last as int, true);
                    if fv < ev {
                        Some((fv as usize, (ev - 1) as usize))
                    } else {
                        None
                    }
                },
                None => Some(
                    (
                        min_int(first as int, total_visible - 1) as usize,
                        min_int(last as int, total_visible - 1) as usize,
                    ),
                ),
            }
        },
    }
}

/// Converts the source-line viewport back to row indices.
pub fn viewport_virtual_range(
    visible: Option<&[u32]>,
    viewport: Option<(usize, usize)>,
    total_visible: usize,
) -> (rows: Option<(usize, usize)>)
    requires
        visible matches Some(v) ==> strictly_sorted(v@),
    ensures
        rows == viewport_rows(
            match visible {
                Some(v) => Some(v@),
                None => None,
            },
            viewport,
            total_visible,
        ),
{
    let (first, last) = match viewport {
        Some(range) => range,
        None => return None,
    };
    if total_visible == 0 {
        return None;
    }
    match visible {
        Some(v) => {
            let first_virtual = partition_point(v, first, false);
            let end_virtual = partition_point(v, last, true);
            if first_virtual < end_virtual {
                Some((first_virtual, end_virtual - 1))
            } else {
                None
            }
        },
        None => Some(
            (
                if first < total_visible - 1 {
                    first
                } else {
                    total_visible - 1
                },
                if last < total_visible - 1 {
                    last
                } else {
                    total_visible - 1
                },
            ),
        ),
    }
}

/// The source-line viewport of a completely visible row range.
pub open spec fn viewport_of_rows(visible: Option<Seq<u32>>, rows: Option<(usize, usize)>) -> Option<(usize, usize)> {
    match rows {
        None => None,
        Some((f, l)) => match visible {
            Some(v) => if f < v.len() && l < v.len() {
                Some((v[f as int] as usize, v[l as int] as usize))
            } else {
                None
            },
            None => Some((f, l)),
        },
    }
}

/// Records the source lines of the completely visible rows as the viewport.
/// Returns whether the timeline must follow (a pending navigation, or a
/// viewport that actually moved).
pub fn update_viewport_range(
    state: &mut ViewportSelection,
    fully_visible_range: Option<(usize, usize)>,
    pending: Option<usize>,
) -> (follow: bool)
    ensures
        final(state).visible_lines == old(state).visible_lines,
        final(state).context_line == old(state).context_line,
        final(state).viewport_range == viewport_of_rows(old(state).visible_seq(), fully_visible_range),
        follow == (pending is Some || final(state).viewport_range != old(state).viewport_range),
{
    let previous = state.viewport_range;
    let next = match fully_visible_range {
        None => None,
        Some((first_virtual, last_virtual)) => match &state.visible_lines {
            Some(visible) => if first_virtual < visible.len() && last_virtual < visible.len() {
                Some((visible[first_virtual] as usize, visible[last_virtual] as usize))
            } else {
                None
            },
            None => Some((first_virtual, last_virtual)),
        },
    };
    state.viewport_range = next;
    let changed = match (next, previous) {
        (Some((a, b)), Some((c, d))) => a != c || b != d,
        (None, None) => false,
        _ => true,
    };
    pending.is_some() || changed
}


/// Calls `std::str::from_utf8`, documented to succeed exactly when the
/// bytes are valid UTF-8, with the text they encode.
#[verifier::external_body]
fn utf8_str<'a>(bytes: &'a [u8]) -> (r: Option<&'a str>)
    ensures
        match r {
            Some(s) => valid_utf8(bytes@) && s@ == decode_utf8(bytes@),
            None => !valid_utf8(bytes@),
        },
{
    std::str::from_utf8(bytes).ok()
}

/// The source text before byte `byte_offset` of a line, when the offset
/// lies within the line and on a character boundary (the bytes before it
/// are valid UTF-8).
pub fn source_prefix_at(bytes: &[u8], byte_offset: usize) -> (prefix: Option<&str>)
    ensures
        match prefix {
            Some(s) => byte_offset <= bytes@.len() && valid_utf8(bytes@.take(byte_offset as int))
                && s@ == decode_utf8(bytes@.take(byte_offset as int)),
            None => byte_offset > bytes@.len() || !valid_utf8(bytes@.take(byte_offset as int)),
        },
{
    if byte_offset > bytes.len() {
        return None;
    }
    let head = vstd::slice::slice_subrange(bytes, 0, byte_offset);
    proof {
        assert(head@ =~= bytes@.take(byte_offset as int));
    }
    utf8_str(head)
}

/// Whether a search hit ends beyond the part of the line that is shown.
pub fn search_match_beyond_preview(matches: &[Range<usize>], preview_len: usize) -> (beyond: bool)
    ensures
        beyond == exists|k: int| 0 <= k < matches@.len() && #[trigger] matches@[k].end > preview_len,
{
    let mut k: usize = 0;
    while k < matches.len()
        invariant
            k <= matches@.len(),
            forall|j: int| 0 <= j < k ==> #[trigger] matches@[j].end <= preview_len,
        decreases matches@.len() - k,
    {
        if matches[k].end > preview_len {
            return true;
        }
        k += 1;
    }
    false
}

/// What the Up and Down keys do in the Log View.
#[derive(Clone, Copy, Debug, PartialEq, Eq, Structural)]
pub enum VerticalStep {
    /// Select the adjacent line (the next one when `true`).
    AdjacentLine(bool),
    FindNext,
    FindPrevious,
}

/// Up and Down step through the find hits when there are any, and through
/// the lines otherwise.
pub fn navigate_vertical(has_find_matches: bool, next: bool) -> (step: VerticalStep)
    ensures
        step == if !has_find_matches {
            VerticalStep::AdjacentLine(next)
        } else if next {
            VerticalStep::FindNext
        } else {
            VerticalStep::FindPrevious
        },
{
    if !has_find_matches {
        VerticalStep::AdjacentLine(next)
    } else if next {
        VerticalStep::FindNext
    } else {
        VerticalStep::FindPrevious
    }
}

/// The lines of the inclusive range `start..=end`.
pub open spec fn line_range(start: usize, end: usize) -> Seq<usize> {
    if start <= end {
        Seq::new((end - start + 1) as nat, |k: int| (start + k) as usize)
    } else {
        Seq::empty()
    }
}

/// The source lines that a pin over rows `start..=end` covers: the visible
/// lines in that range while a filter hides lines, else every line of it.
pub fn pin_line_numbers(visible_lines: Option<&[u32]>, start: usize, end: usize) -> (lines: Vec<usize>)
    requires
        visible_lines matches Some(v) ==> strictly_sorted(v@) && (end < start ==> forall|k: int|
            0 <= k < v@.len() ==> !(end < #[trigger] v@[k] < start)),
    ensures
        match visible_lines {
            Some(v) => exists|f: int, l: int|
                #![trigger v@.subrange(f, l)]
                0 <= f <= l <= v@.len() && lines@.len() == l - f && (forall|k: int|
                    0 <= k < l - f ==> #[trigger] lines@[k] as int == v@.subrange(f, l)[k] as int) && (forall|k: int|
                    0 <= k < f ==> (#[trigger] v@[k]) < start) && (forall|k: int|
                    f <= k < l ==> start <= #[trigger] v@[k] <= end) && (forall|k: int|
                    l <= k < v@.len() ==> #[trigger] v@[k] > end),
            None => lines@ == line_range(start, end),
        },
{
    match visible_lines {
        Some(v) => {
            let found = visible_lines_in_range(v, start, end);
            let mut lines: Vec<usize> = Vec::new();
            let mut k: usize = 0;
            while k < found.len()
                invariant
                    k <= found@.len(),
                    lines@.len() == k,
                    forall|j: int| 0 <= j < k ==> lines@[j] as int == found@[j] as int,
                decreases found@.len() - k,
            {
                lines.push(found[k] as usize);
                k += 1;
            }
            proof {
                let (f, l) = choose|f: int, l: int|
                    #![trigger v@.subrange(f, l)]
                    0 <= f <= l <= v@.len() && found@ == v@.subrange(f, l) && (forall|k: int|
                        0 <= k < f ==> (#[trigger] v@[k]) < start) && (forall|k: int|
                        f <= k < l ==> start <= #[trigger] v@[k] <= end) && (forall|k: int|
                        l <= k < v@.len() ==> #[trigger] v@[k] > end);
                assert(v@.subrange(f, l) == found@);
            }
            lines
        },
        None => {
            let mut lines: Vec<usize> = Vec::new();
            if start <= end {
                let mut line: usize = start;
                loop
                    invariant_except_break
                        start <= line <= end,
                        lines@ == line_range(start, end).take(line - start),
                    ensures
                        lines@ == line_range(start, end),
                    decreases end - line,
                {
                    lines.push(line);
                    proof {
                        assert(line_range(start, end).take(line - start + 1) =~= line_range(start, end).take(
                            line - start,
                        ).push(line));
                    }
                    if line == end {
                        proof {
                            assert(line_range(start, end).take(line - start + 1) =~= line_range(start, end));
                        }
                        break;
                    }
                    line += 1;
                }
            } else {
                assert(lines@ =~= line_range(start, end));
            }
            lines
        },
    }
}

/// The pin list and the pin dialog's state.
pub struct PinEditor<P> {
    pub pins: Vec<P>,
    pub modal_range: Option<(usize, usize)>,
    pub edit_index: Option<usize>,
    pub comment: String,
    pub bottom_panel_open: bool,
    pub pending_toast: Option<String>,
}

/// Finishes the pin dialog with the pin made of the selected lines (`None`
/// when none of them could anchor a pin): the pin replaces the one being
/// edited, or is added; the dialog closes, its comment is cleared and the
/// pin list is shown. Without a pin only a notice is raised.
pub fn finish_pin<P>(editor: &mut PinEditor<P>, anchored: Option<P>)
    ensures
        match anchored {
            None => {
                &&& final(editor).pins@ == old(editor).pins@
                &&& final(editor).modal_range == old(editor).modal_range
                &&& final(editor).edit_index == old(editor).edit_index
                &&& final(editor).comment@ == old(editor).comment@
                &&& final(editor).bottom_panel_open == old(editor).bottom_panel_open
                &&& final(editor).pending_toast matches Some(t) && t@ == "No visible log lines to pin"@
            },
            Some(pin) => {
                &&& final(editor).pins@ == match old(editor).edit_index {
                    Some(i) => if i < old(editor).pins@.len() {
                        old(editor).pins@.update(i as int, pin)
                    } else {
                        old(editor).pins@
                    },
                    None => old(editor).pins@.push(pin),
                }
                &&& final(editor).modal_range is None
                &&& final(editor).edit_index is None
                &&& final(editor).comment@.len() == 0
                &&& final(editor).bottom_panel_open
                &&& final(editor).pending_toast == old(editor).pending_toast
            },
        },
{
    match anchored {
        None => {
            editor.pending_toast = Some("No visible log lines to pin".to_owned());
        },
        Some(pin) => {
            match editor.edit_index {
                Some(i) => {
                    if i < editor.pins.len() {
                        editor.pins.set(i, pin);
                    }
                },
                None => {
                    editor.pins.push(pin);
                },
            }
            editor.modal_range = None;
            editor.edit_index = None;
            editor.comment = String::new();
            editor.bottom_panel_open = true;
        },
    }
}


/// Whether a capture kind can be used as a field criterion: every kind but
/// the message capture.
pub fn is_field_criteria_kind(kind: &str) -> (usable: bool)
    ensures
        usable == (kind@ != "message"@),
{
    !str_eq(kind, "message")
}

} // verus!
