//! Highlight layering for one rendered log line.
//!
//! Highlight requests (search hits, keyword hits, filter hits) arrive in
//! precedence order. Each request only paints the bytes that no earlier
//! request painted, so the result is a sorted list of disjoint spans in which
//! every byte carries the kind of the earliest request that covers it.

use std::ops::Range;

use vstd::prelude::*;
use vstd::string::StringSliceAdditionalSpecFns;
use vstd::utf8::*;

use aho_corasick::AhoCorasick;

use crate::text::{
    byte_offset, chars_within, decimal, lemma_chars_within, prefix_within, push_decimal, push_str,
    string_of,
};

verus! {

/// What a highlighted span stands for.
#[derive(Clone, Copy, Debug, PartialEq, Eq, Structural)]
pub enum HighlightKind {
    /// A hit of the filter with this index.
    Filter(usize),
    /// A search hit.
    Search,
    /// A keyword hit.
    Keyword,
}

/// `p` lies in the half-open byte range `r`.
pub open spec fn in_span(r: (usize, usize), p: int) -> bool {
    r.0 <= p && p < r.1
}

/// Index of the earliest of the first `n` requests that covers byte `p`,
/// or -1 when none does.
pub open spec fn owner(reqs: Seq<((usize, usize), HighlightKind)>, n: int, p: int) -> int
    decreases n,
{
    if n <= 0 {
        -1
    } else if owner(reqs, n - 1, p) >= 0 {
        owner(reqs, n - 1, p)
    } else if in_span(reqs[n - 1].0, p) {
        n - 1
    } else {
        -1
    }
}

/// Every range among the first `n` requests is well ordered.
pub open spec fn ordered_upto(reqs: Seq<((usize, usize), HighlightKind)>, n: int) -> bool {
    forall|j: int| 0 <= j < n ==> (#[trigger] reqs[j]).0.0 <= reqs[j].0.1
}

/// Every range among the first `n` requests is non-empty.
pub open spec fn nonempty_upto(reqs: Seq<((usize, usize), HighlightKind)>, n: int) -> bool {
    forall|j: int| 0 <= j < n ==> (#[trigger] reqs[j]).0.0 < reqs[j].0.1
}

/// `spans` is sorted by position, its spans are non-empty and disjoint.
pub open spec fn sorted_disjoint(spans: Seq<((usize, usize), HighlightKind)>) -> bool {
    &&& forall|i: int| 0 <= i < spans.len() ==> (#[trigger] spans[i]).0.0 < spans[i].0.1
    &&& forall|i: int, j: int|
        0 <= i < j < spans.len() ==> (#[trigger] spans[i]).0.1 <= (#[trigger] spans[j]).0.0
}

/// Some span of `spans` holds byte `p`.
pub open spec fn painted(spans: Seq<((usize, usize), HighlightKind)>, p: int) -> bool {
    exists|i: int| 0 <= i < spans.len() && #[trigger] in_span(spans[i].0, p)
}

/// The layering law for the first `n` requests:
/// spans are sorted and disjoint; a span only holds bytes owned by one
/// request and carries that request's kind; every owned byte is painted;
/// and when no request is empty, every span is a maximal run of bytes with
/// the same owner.
pub open spec fn layered(
    spans: Seq<((usize, usize), HighlightKind)>,
    reqs: Seq<((usize, usize), HighlightKind)>,
    n: int,
) -> bool {
    &&& sorted_disjoint(spans)
    &&& forall|i: int, p: int|
        0 <= i < spans.len() && #[trigger] in_span(spans[i].0, p) ==> owner(reqs, n, p) == owner(
            reqs,
            n,
            spans[i].0.0 as int,
        )
    &&& forall|i: int|
        0 <= i < spans.len() ==> owner(reqs, n, (#[trigger] spans[i]).0.0 as int) >= 0
            && spans[i].1 == reqs[owner(reqs, n, spans[i].0.0 as int)].1
    &&& forall|p: int| owner(reqs, n, p) >= 0 ==> #[trigger] painted(spans, p)
    &&& nonempty_upto(reqs, n) ==> forall|i: int|
        0 <= i < spans.len() ==> owner(reqs, n, (#[trigger] spans[i]).0.0 - 1) != owner(
            reqs,
            n,
            spans[i].0.0 as int,
        ) && owner(reqs, n, spans[i].0.1 as int) != owner(reqs, n, spans[i].0.0 as int)
}

/// `covered` is a sorted, gap-separated list of ranges whose union is the
/// set of bytes owned by the first `n` requests.
pub open spec fn covered_repr(
    covered: Seq<(usize, usize)>,
    reqs: Seq<((usize, usize), HighlightKind)>,
    n: int,
) -> bool {
    &&& forall|i: int| 0 <= i < covered.len() ==> (#[trigger] covered[i]).0 <= covered[i].1
    &&& forall|i: int, j: int|
        0 <= i < j < covered.len() ==> (#[trigger] covered[i]).1 < (#[trigger] covered[j]).0
    &&& forall|p: int| #[trigger]
        owner(reqs, n, p) >= 0 <==> exists|i: int|
            0 <= i < covered.len() && #[trigger] in_span(covered[i], p)
    &&& nonempty_upto(reqs, n) ==> forall|i: int|
        0 <= i < covered.len() ==> (#[trigger] covered[i]).0 < covered[i].1
}

proof fn lemma_owner_range(reqs: Seq<((usize, usize), HighlightKind)>, n: int, p: int)
    requires
        0 <= n <= reqs.len(),
    ensures
        -1 <= owner(reqs, n, p) < n,
        owner(reqs, n, p) >= 0 ==> in_span(reqs[owner(reqs, n, p)].0, p),
        owner(reqs, n, p) < 0 ==> forall|j: int| 0 <= j < n ==> !#[trigger] in_span(reqs[j].0, p),
        owner(reqs, n, p) >= 0 ==> forall|j: int|
            0 <= j < owner(reqs, n, p) ==> !#[trigger] in_span(reqs[j].0, p),
    decreases n,
{
    if n > 0 {
        lemma_owner_range(reqs, n - 1, p);
    }
}

/// The owner after one more request: unchanged where already owned or
/// outside the new range, the new request elsewhere.
proof fn lemma_owner_step(reqs: Seq<((usize, usize), HighlightKind)>, n: int, p: int)
    requires
        0 <= n < reqs.len(),
    ensures
        owner(reqs, n, p) >= 0 ==> owner(reqs, n + 1, p) == owner(reqs, n, p),
        owner(reqs, n, p) < 0 && in_span(reqs[n].0, p) ==> owner(reqs, n + 1, p) == n,
        owner(reqs, n, p) < 0 && !in_span(reqs[n].0, p) ==> owner(reqs, n + 1, p) == -1,
{
}


/// Layering state while request `n` is being painted: bytes of request `n`
/// before `cursor` are done, everything else is as after request `n - 1`.
pub open spec fn layered_mid(
    spans: Seq<((usize, usize), HighlightKind)>,
    reqs: Seq<((usize, usize), HighlightKind)>,
    n: int,
    cursor: int,
) -> bool {
    &&& sorted_disjoint(spans)
    &&& forall|i: int, p: int|
        0 <= i < spans.len() && #[trigger] in_span(spans[i].0, p) ==> owner(reqs, n + 1, p)
            == owner(reqs, n + 1, spans[i].0.0 as int) && (owner(reqs, n, p) >= 0 || p < cursor)
    &&& forall|i: int|
        0 <= i < spans.len() ==> owner(reqs, n + 1, (#[trigger] spans[i]).0.0 as int) >= 0
            && spans[i].1 == reqs[owner(reqs, n + 1, spans[i].0.0 as int)].1
    &&& forall|p: int|
        owner(reqs, n + 1, p) >= 0 && (owner(reqs, n, p) >= 0 || p < cursor) ==> #[trigger] painted(
            spans,
            p,
        )
    &&& nonempty_upto(reqs, n + 1) ==> forall|i: int|
        0 <= i < spans.len() ==> owner(reqs, n + 1, (#[trigger] spans[i]).0.0 - 1) != owner(
            reqs,
            n + 1,
            spans[i].0.0 as int,
        ) && owner(reqs, n + 1, spans[i].0.1 as int) != owner(reqs, n + 1, spans[i].0.0 as int)
}

proof fn lemma_insert_index(
    s0: Seq<((usize, usize), HighlightKind)>,
    s1: Seq<((usize, usize), HighlightKind)>,
    idx: int,
    x: ((usize, usize), HighlightKind),
)
    requires
        0 <= idx <= s0.len(),
        s1 == s0.insert(idx, x),
    ensures
        s1.len() == s0.len() + 1,
        s1[idx] == x,
        forall|i: int| 0 <= i < idx ==> #[trigger] s1[i] == s0[i],
        forall|i: int| idx < i < s1.len() ==> #[trigger] s1[i] == s0[i - 1],
        forall|p: int| painted(s0, p) ==> #[trigger] painted(s1, p),
        forall|p: int| in_span(x.0, p) ==> #[trigger] painted(s1, p),
{
    assert forall|p: int| painted(s0, p) implies #[trigger] painted(s1, p) by {
        let i = choose|i: int| 0 <= i < s0.len() && #[trigger] in_span(s0[i].0, p);
        if i < idx {
            assert(s1[i] == s0[i]);
        } else {
            assert(s1[i + 1] == s0[i]);
        }
    }
    assert forall|p: int| in_span(x.0, p) implies #[trigger] painted(s1, p) by {
        assert(s1[idx] == x);
    }
}

/// Paints the bytes of request `n` that no earlier request covers: one span
/// for each gap between the covered ranges that falls inside the request.
fn emit_pieces(
    spans: &mut Vec<((usize, usize), HighlightKind)>,
    covered: &Vec<(usize, usize)>,
    range: (usize, usize),
    kind: HighlightKind,
    Ghost(reqs): Ghost<Seq<((usize, usize), HighlightKind)>>,
    Ghost(n): Ghost<int>,
)
    requires
        0 <= n < reqs.len(),
        reqs[n] == (range, kind),
        range.0 <= range.1,
        layered(old(spans)@, reqs, n),
        covered_repr(covered@, reqs, n),
    ensures
        layered(final(spans)@, reqs, n + 1),
{
    let mut cursor: usize = range.0;
    let mut i: usize = 0;
    let mut stop = false;
    proof {
        let s = spans@;
        assert forall|p: int|
            owner(reqs, n + 1, p) >= 0 && (owner(reqs, n, p) >= 0 || p < cursor) implies #[trigger] painted(
            s,
            p,
        ) by {
            assert(owner(reqs, n, p) >= 0);
        }
        assert forall|k: int, p: int|
            0 <= k < s.len() && #[trigger] in_span(s[k].0, p) implies owner(reqs, n + 1, p) == owner(
                reqs,
                n + 1,
                s[k].0.0 as int,
            ) && (owner(reqs, n, p) >= 0 || p < cursor) by {
            assert(in_span(s[k].0, s[k].0.0 as int));
        }
        assert forall|k: int|
            0 <= k < s.len() implies owner(reqs, n + 1, (#[trigger] s[k]).0.0 as int) >= 0
                && s[k].1 == reqs[owner(reqs, n + 1, s[k].0.0 as int)].1 by {}
        if nonempty_upto(reqs, n + 1) {
            assert forall|k: int|
                0 <= k < s.len() implies owner(reqs, n + 1, (#[trigger] s[k]).0.0 - 1) != owner(
                    reqs,
                    n + 1,
                    s[k].0.0 as int,
                ) && owner(reqs, n + 1, s[k].0.1 as int) != owner(reqs, n + 1, s[k].0.0 as int) by {
                lemma_owner_range(reqs, n, s[k].0.0 as int);
            }
        }
    }
    while i < covered.len() && !stop
        invariant
            0 <= n < reqs.len(),
            reqs[n] == (range, kind),
            range.0 <= range.1,
            covered_repr(covered@, reqs, n),
            i <= covered.len(),
            range.0 <= cursor,
            forall|j: int| 0 <= j < i ==> (#[trigger] covered@[j]).1 <= cursor,
            stop ==> cursor >= range.1 || forall|p: int|
                cursor <= p < range.1 ==> #[trigger] owner(reqs, n, p) < 0,
            nonempty_upto(reqs, n + 1) ==> cursor == range.0 || owner(reqs, n, cursor - 1) >= 0,
            layered_mid(spans@, reqs, n, cursor as int),
        decreases covered.len() - i, if stop { 0int } else { 1int },
    {
        let existing = covered[i];
        if existing.1 <= cursor {
            i += 1;
        } else if existing.0 >= range.1 {
            proof {
                assert forall|p: int| cursor <= p < range.1 implies #[trigger] owner(reqs, n, p) < 0 by {
                    if owner(reqs, n, p) >= 0 {
                        let j = choose|j: int| 0 <= j < covered@.len() && #[trigger] in_span(covered@[j], p);
                        if j > i {
                            assert(covered@[i as int].1 < covered@[j].0);
                        }
                    }
                }
            }
            stop = true;
        } else {
            if cursor < existing.0 {
                let ghost s0 = spans@;
                proof {
                    assert forall|p: int| cursor <= p < existing.0 implies #[trigger] owner(reqs, n, p) < 0 by {
                        if owner(reqs, n, p) >= 0 {
                            let j = choose|j: int| 0 <= j < covered@.len() && #[trigger] in_span(covered@[j], p);
                            if j > i {
                                assert(covered@[i as int].1 < covered@[j].0);
                            }
                        }
                    }
                    assert forall|k: int, p: int|
                        0 <= k < s0.len() && #[trigger] in_span(s0[k].0, p) implies !(cursor <= p < existing.0) by {
                        if cursor <= p < existing.0 {
                            assert(owner(reqs, n, p) < 0);
                        }
                    }
                }
                let idx = insert_disjoint(spans, cursor, existing.0, kind);
                proof {
                    let s1 = spans@;
                    let x = ((cursor, existing.0), kind);
                    lemma_insert_index(s0, s1, idx as int, x);
                    assert forall|p: int| cursor <= p < existing.0 implies #[trigger] owner(reqs, n + 1, p) == n by {
                        assert(owner(reqs, n, p) < 0);
                    }
                    assert forall|k: int, p: int|
                        0 <= k < s1.len() && #[trigger] in_span(s1[k].0, p) implies owner(reqs, n + 1, p)
                            == owner(reqs, n + 1, s1[k].0.0 as int) && (owner(reqs, n, p) >= 0 || p < existing.1) by {
                        if k < idx {
                            assert(s1[k] == s0[k]);
                        } else if k > idx {
                            assert(s1[k] == s0[k - 1]);
                        }
                    }
                    assert forall|k: int|
                        0 <= k < s1.len() implies owner(reqs, n + 1, (#[trigger] s1[k]).0.0 as int) >= 0
                            && s1[k].1 == reqs[owner(reqs, n + 1, s1[k].0.0 as int)].1 by {
                        if k < idx {
                            assert(s1[k] == s0[k]);
                        } else if k > idx {
                            assert(s1[k] == s0[k - 1]);
                        }
                    }
                    if nonempty_upto(reqs, n + 1) {
                        assert(covered@[i as int].0 < covered@[i as int].1);
                        assert(in_span(covered@[i as int], existing.0 as int));
                        assert(owner(reqs, n, existing.0 as int) >= 0);
                        lemma_owner_range(reqs, n, existing.0 as int);
                        lemma_owner_range(reqs, n, cursor - 1);
                        if cursor != range.0 {
                            assert(owner(reqs, n, cursor - 1) >= 0);
                        }
                        assert forall|k: int|
                            0 <= k < s1.len() implies owner(reqs, n + 1, (#[trigger] s1[k]).0.0 - 1) != owner(
                                reqs,
                                n + 1,
                                s1[k].0.0 as int,
                            ) && owner(reqs, n + 1, s1[k].0.1 as int) != owner(reqs, n + 1, s1[k].0.0 as int) by {
                            if k < idx {
                                assert(s1[k] == s0[k]);
                            } else if k > idx {
                                assert(s1[k] == s0[k - 1]);
                            }
                        }
                    }
                }
            }
            let ghost old_cursor = cursor;
            let ghost s2 = spans@;
            cursor = existing.1;
            i += 1;
            proof {
                assert forall|p: int|
                    owner(reqs, n + 1, p) >= 0 && (owner(reqs, n, p) >= 0 || p < cursor) implies #[trigger] painted(
                    s2,
                    p,
                ) by {
                    if owner(reqs, n, p) < 0 && p >= old_cursor {
                        assert(p < existing.0) by {
                            if p >= existing.0 {
                                assert(in_span(covered@[i - 1], p));
                            }
                        }
                    }
                }
                if nonempty_upto(reqs, n + 1) {
                    assert(covered@[i - 1].0 < covered@[i - 1].1);
                    assert(in_span(covered@[i - 1], cursor - 1));
                }
            }
            if cursor >= range.1 {
                stop = true;
            }
        }
    }
    proof {
        if !stop {
            assert forall|p: int| cursor <= p < range.1 implies #[trigger] owner(reqs, n, p) < 0 by {
                if owner(reqs, n, p) >= 0 {
                    let j = choose|j: int| 0 <= j < covered@.len() && #[trigger] in_span(covered@[j], p);
                    assert(covered@[j].1 <= cursor);
                }
            }
        }
    }
    if cursor < range.1 {
        let ghost s0 = spans@;
        proof {
            assert forall|k: int, p: int|
                0 <= k < s0.len() && #[trigger] in_span(s0[k].0, p) implies !(cursor <= p < range.1) by {
                if cursor <= p < range.1 {
                    assert(owner(reqs, n, p) < 0);
                }
            }
        }
        let idx = insert_disjoint(spans, cursor, range.1, kind);
        proof {
            let s1 = spans@;
            let x = ((cursor, range.1), kind);
            lemma_insert_index(s0, s1, idx as int, x);
            assert forall|p: int| cursor <= p < range.1 implies #[trigger] owner(reqs, n + 1, p) == n by {
                assert(owner(reqs, n, p) < 0);
            }
            assert forall|k: int, p: int|
                0 <= k < s1.len() && #[trigger] in_span(s1[k].0, p) implies owner(reqs, n + 1, p)
                    == owner(reqs, n + 1, s1[k].0.0 as int) by {
                if k < idx {
                    assert(s1[k] == s0[k]);
                } else if k > idx {
                    assert(s1[k] == s0[k - 1]);
                }
            }
            assert forall|k: int|
                0 <= k < s1.len() implies owner(reqs, n + 1, (#[trigger] s1[k]).0.0 as int) >= 0
                    && s1[k].1 == reqs[owner(reqs, n + 1, s1[k].0.0 as int)].1 by {
                if k < idx {
                    assert(s1[k] == s0[k]);
                } else if k > idx {
                    assert(s1[k] == s0[k - 1]);
                }
            }
            assert forall|p: int| owner(reqs, n + 1, p) >= 0 implies #[trigger] painted(s1, p) by {
                if owner(reqs, n, p) < 0 && p >= cursor {
                    assert(in_span(x.0, p));
                }
            }
            if nonempty_upto(reqs, n + 1) {
                lemma_owner_range(reqs, n, cursor - 1);
                lemma_owner_range(reqs, n, range.1 as int);
                if cursor != range.0 {
                    assert(owner(reqs, n, cursor - 1) >= 0);
                }
                assert forall|k: int|
                    0 <= k < s1.len() implies owner(reqs, n + 1, (#[trigger] s1[k]).0.0 - 1) != owner(
                        reqs,
                        n + 1,
                        s1[k].0.0 as int,
                    ) && owner(reqs, n + 1, s1[k].0.1 as int) != owner(reqs, n + 1, s1[k].0.0 as int) by {
                    if k < idx {
                        assert(s1[k] == s0[k]);
                    } else if k > idx {
                        assert(s1[k] == s0[k - 1]);
                    }
                }
            }
        }
    } else {
        proof {
            let s = spans@;
            assert forall|p: int| owner(reqs, n + 1, p) >= 0 implies #[trigger] painted(s, p) by {
                if owner(reqs, n, p) < 0 {
                    assert(in_span(range, p));
                }
            }
        }
    }
}


/// Adds the range of request `n` to the covered list, merging it with every
/// covered range it overlaps or touches.
fn merge_covered(
    covered: &mut Vec<(usize, usize)>,
    range: (usize, usize),
    Ghost(reqs): Ghost<Seq<((usize, usize), HighlightKind)>>,
    Ghost(n): Ghost<int>,
)
    requires
        0 <= n < reqs.len(),
        reqs[n].0 == range,
        range.0 <= range.1,
        covered_repr(old(covered)@, reqs, n),
    ensures
        covered_repr(final(covered)@, reqs, n + 1),
{
    let ghost c = covered@;
    let mut first: usize = 0;
    while first < covered.len() && covered[first].1 < range.0
        invariant
            c == covered@,
            first <= covered.len(),
            forall|j: int| 0 <= j < first ==> (#[trigger] c[j]).1 < range.0,
        decreases covered.len() - first,
    {
        first += 1;
    }
    let mut last: usize = first;
    let mut m0: usize = range.0;
    let mut m1: usize = range.1;
    while last < covered.len() && covered[last].0 <= m1
        invariant
            c == covered@,
            covered_repr(c, reqs, n),
            first <= last <= covered.len(),
            first < covered.len() ==> c[first as int].1 >= range.0,
            m0 <= range.0,
            range.1 <= m1,
            last > first ==> m0 <= c[first as int].0,
            m0 == range.0 || (last > first && m0 == c[first as int].0),
            forall|j: int| 0 <= j < first ==> (#[trigger] c[j]).1 < range.0,
            forall|p: int|
                m0 <= p < m1 <==> (in_span(range, p) || exists|j: int|
                    first <= j < last && #[trigger] in_span(c[j], p)),
        decreases covered.len() - last,
    {
        let ghost old_m0 = m0;
        let ghost old_m1 = m1;
        let s = covered[last].0;
        let e = covered[last].1;
        if s < m0 {
            m0 = s;
        }
        if e > m1 {
            m1 = e;
        }
        proof {
            if last > first {
                assert(c[first as int].1 < c[last as int].0);
            }
            assert(c[first as int].0 <= c[last as int].0);
            assert forall|p: int|
                m0 <= p < m1 <==> (in_span(range, p) || exists|j: int|
                    first <= j < last + 1 && #[trigger] in_span(c[j], p)) by {
                if m0 <= p < m1 && !(old_m0 <= p < old_m1) {
                    assert(in_span(c[last as int], p));
                }
                if exists|j: int| first <= j < last + 1 && #[trigger] in_span(c[j], p) {
                    let j = choose|j: int| first <= j < last + 1 && #[trigger] in_span(c[j], p);
                    if j < last {
                        assert(old_m0 <= p < old_m1);
                    }
                }
                if m0 <= p < m1 && (old_m0 <= p < old_m1) && !in_span(range, p) {
                    let j = choose|j: int| first <= j < last && #[trigger] in_span(c[j], p);
                    assert(first <= j < last + 1 && in_span(c[j], p));
                }
            }
        }
        last += 1;
    }
    let mut out: Vec<(usize, usize)> = Vec::new();
    let mut j: usize = 0;
    while j < first
        invariant
            c == covered@,
            j <= first <= covered.len(),
            out@ == c.subrange(0, j as int),
        decreases first - j,
    {
        out.push(covered[j]);
        j += 1;
    }
    out.push((m0, m1));
    let mut j: usize = last;
    while j < covered.len()
        invariant
            c == covered@,
            first <= last <= j <= covered.len(),
            out@ == c.subrange(0, first as int).push((m0, m1)) + c.subrange(last as int, j as int),
        decreases covered.len() - j,
    {
        out.push(covered[j]);
        proof {
            assert(c.subrange(last as int, j + 1) == c.subrange(last as int, j as int).push(c[j as int]));
        }
        j += 1;
    }
    proof {
        let o = out@;
        let len = first + 1 + (c.len() - last);
        assert(o.len() == len);
        assert forall|i: int| 0 <= i < first implies #[trigger] o[i] == c[i] by {}
        assert(o[first as int] == (m0, m1));
        assert forall|i: int| first < i < len implies #[trigger] o[i] == c[i - first - 1 + last] by {}
        if last < c.len() {
            assert(c[last as int].0 > m1);
        }
        assert forall|i: int| 0 <= i < o.len() implies (#[trigger] o[i]).0 <= o[i].1 by {
            if i > first {
                assert(o[i] == c[i - first - 1 + last]);
            }
        }
        assert forall|i: int, k: int| 0 <= i < k < o.len() implies (#[trigger] o[i]).1 < (#[trigger] o[k]).0 by {
            if i < first && k < first {
                assert(o[i] == c[i] && o[k] == c[k]);
            } else if i < first && k == first {
                assert(o[i] == c[i]);
                if last > first {
                    assert(c[i].1 < c[first as int].0);
                }
            } else if i < first {
                assert(o[i] == c[i] && o[k] == c[k - first - 1 + last]);
            } else if i == first {
                assert(o[k] == c[k - first - 1 + last]);
                if k - first - 1 + last > last {
                    assert(c[last as int].1 < c[k - first - 1 + last].0);
                }
            } else {
                assert(o[i] == c[i - first - 1 + last] && o[k] == c[k - first - 1 + last]);
            }
        }
        assert forall|p: int| #[trigger]
            owner(reqs, n + 1, p) >= 0 <==> exists|i: int| 0 <= i < o.len() && #[trigger] in_span(o[i], p) by {
            if owner(reqs, n + 1, p) >= 0 {
                if in_span(range, p) {
                    assert(in_span(o[first as int], p));
                } else {
                    assert(owner(reqs, n, p) >= 0);
                    let i = choose|i: int| 0 <= i < c.len() && #[trigger] in_span(c[i], p);
                    if i < first {
                        assert(o[i] == c[i]);
                    } else if i < last {
                        assert(in_span(o[first as int], p));
                    } else {
                        assert(o[i + first + 1 - last] == c[i]);
                    }
                }
            }
            if exists|i: int| 0 <= i < o.len() && #[trigger] in_span(o[i], p) {
                let i = choose|i: int| 0 <= i < o.len() && #[trigger] in_span(o[i], p);
                if i < first {
                    assert(o[i] == c[i]);
                    assert(owner(reqs, n, p) >= 0);
                } else if i > first {
                    assert(o[i] == c[i - first - 1 + last]);
                    assert(owner(reqs, n, p) >= 0);
                } else if !in_span(range, p) {
                    let k = choose|k: int| first <= k < last && #[trigger] in_span(c[k], p);
                    assert(owner(reqs, n, p) >= 0);
                }
            }
        }
        if nonempty_upto(reqs, n + 1) {
            assert(reqs[n].0.0 < reqs[n].0.1);
            assert forall|i: int| 0 <= i < o.len() implies (#[trigger] o[i]).0 < o[i].1 by {
                if i < first {
                    assert(o[i] == c[i]);
                } else if i > first {
                    assert(o[i] == c[i - first - 1 + last]);
                }
            }
        }
    }
    *covered = out;
}



#[verifier::external_type_specification]
#[verifier::external_body]
pub struct ExAhoCorasick(aho_corasick::AhoCorasick);

/// The byte spans of the non-overlapping matches that the automaton finds
/// in `text`, in order (what `AhoCorasick::try_find_iter` yields; none when
/// the automaton cannot run an unanchored search).
pub uninterp spec fn keyword_hits(ac: AhoCorasick, text: Seq<char>) -> Seq<(usize, usize)>;

/// Keyword hits of `text`: calls `AhoCorasick::try_find_iter` and hands out
/// the byte span of every match. The contract names the hits and claims
/// what `Match` and the iterator's documentation give: each span starts at
/// or before its end, ends within the text, and the spans come in order
/// without overlapping. An automaton that cannot run an unanchored search
/// reports an error, and then no hit is handed out.
#[verifier::external_body]
fn keyword_matches(ac: &AhoCorasick, text: &str) -> (found: Vec<(usize, usize)>)
    ensures
        found@ == keyword_hits(*ac, text@),
        forall|i: int| 0 <= i < found.len() ==> (#[trigger] found@[i]).0 <= found@[i].1,
        forall|i: int| 0 <= i < found.len() ==> (#[trigger] found@[i]).1 <= text.spec_bytes().len(),
        forall|i: int| 0 <= i < found.len() - 1 ==> (#[trigger] found@[i]).1 <= found@[i + 1].0,
{
    match ac.try_find_iter(text) {
        Ok(iter) => iter.map(|hit| (hit.start(), hit.end())).collect(),
        Err(_) => Vec::new(),
    }
}

/// The keyword hits of a line: the automaton's matches when there is one.
pub open spec fn keyword_spans_of(keyword_ac: Option<&AhoCorasick>, text: Seq<char>) -> Seq<(usize, usize)> {
    match keyword_ac {
        Some(ac) => keyword_hits(*ac, text),
        None => Seq::empty(),
    }
}

/// The contents of an optional vector.
pub open spec fn opt_seq<T>(o: Option<&Vec<T>>) -> Option<Seq<T>> {
    match o {
        Some(v) => Some(v@),
        None => None,
    }
}

/// Every range in the sequence starts at or before its end.
pub open spec fn ranges_ordered(rs: Seq<(usize, usize)>) -> bool {
    forall|i: int| 0 <= i < rs.len() ==> (#[trigger] rs[i]).0 <= rs[i].1
}

/// Every tagged range in the sequence starts at or before its end.
pub open spec fn tagged_ordered(rs: Seq<(usize, (usize, usize))>) -> bool {
    forall|i: int| 0 <= i < rs.len() ==> (#[trigger] rs[i]).1.0 <= rs[i].1.1
}

pub open spec fn as_search(r: (usize, usize)) -> ((usize, usize), HighlightKind) {
    (r, HighlightKind::Search)
}

pub open spec fn as_keyword(r: (usize, usize)) -> ((usize, usize), HighlightKind) {
    (r, HighlightKind::Keyword)
}

pub open spec fn as_filter(r: (usize, (usize, usize))) -> ((usize, usize), HighlightKind) {
    (r.1, HighlightKind::Filter(r.0))
}

/// The search request of a line: the whole line for a full-line hit on a
/// non-empty line, else the matched field value, else the matcher's hits.
pub open spec fn search_requests(
    text_len: usize,
    search_full_line: bool,
    search_field_range: Option<(usize, usize)>,
    search_spans: Option<Seq<(usize, usize)>>,
) -> Seq<((usize, usize), HighlightKind)> {
    if search_full_line && text_len > 0 {
        seq![((0usize, text_len), HighlightKind::Search)]
    } else if search_field_range is Some {
        seq![(search_field_range->0, HighlightKind::Search)]
    } else if search_spans is Some {
        search_spans->0.map_values(|r: (usize, usize)| as_search(r))
    } else {
        seq![]
    }
}

/// All highlight requests of a line in precedence order: search, then
/// keywords, then filter hits, then filter field values.
pub open spec fn highlight_requests(
    text_len: usize,
    search_full_line: bool,
    search_field_range: Option<(usize, usize)>,
    search_spans: Option<Seq<(usize, usize)>>,
    keyword_spans: Seq<(usize, usize)>,
    filter_spans: Option<Seq<(usize, (usize, usize))>>,
    filter_field_ranges: Seq<(usize, (usize, usize))>,
) -> Seq<((usize, usize), HighlightKind)> {
    search_requests(text_len, search_full_line, search_field_range, search_spans)
        + keyword_spans.map_values(|r: (usize, usize)| as_keyword(r))
        + (if filter_spans is Some {
        filter_spans->0.map_values(|r: (usize, (usize, usize))| as_filter(r))
    } else {
        seq![]
    })
        + filter_field_ranges.map_values(|r: (usize, (usize, usize))| as_filter(r))
}

fn push_plain(
    out: &mut Vec<((usize, usize), HighlightKind)>,
    rs: &Vec<(usize, usize)>,
    kind: HighlightKind,
)
    ensures
        final(out)@ == old(out)@ + rs@.map_values(|r: (usize, usize)| (r, kind)),
{
    let ghost start = out@;
    let mut i: usize = 0;
    while i < rs.len()
        invariant
            i <= rs.len(),
            out@ == start + rs@.subrange(0, i as int).map_values(|r: (usize, usize)| (r, kind)),
        decreases rs.len() - i,
    {
        out.push((rs[i], kind));
        proof {
            assert(rs@.subrange(0, i + 1) == rs@.subrange(0, i as int).push(rs@[i as int]));
        }
        i += 1;
    }
    proof {
        assert(rs@.subrange(0, i as int) == rs@);
    }
}

fn push_filters(out: &mut Vec<((usize, usize), HighlightKind)>, rs: &Vec<(usize, (usize, usize))>)
    ensures
        final(out)@ == old(out)@ + rs@.map_values(|r: (usize, (usize, usize))| as_filter(r)),
{
    let ghost start = out@;
    let mut i: usize = 0;
    while i < rs.len()
        invariant
            i <= rs.len(),
            out@ == start + rs@.subrange(0, i as int).map_values(
                |r: (usize, (usize, usize))| as_filter(r),
            ),
        decreases rs.len() - i,
    {
        let (filter, range) = rs[i];
        out.push((range, HighlightKind::Filter(filter)));
        proof {
            assert(rs@.subrange(0, i + 1) == rs@.subrange(0, i as int).push(rs@[i as int]));
        }
        i += 1;
    }
    proof {
        assert(rs@.subrange(0, i as int) == rs@);
    }
}

/// Builds the highlight requests of one line in precedence order.
pub fn build_requests(
    text_len: usize,
    search_full_line: bool,
    search_field_range: Option<(usize, usize)>,
    search_spans: Option<&Vec<(usize, usize)>>,
    keyword_spans: &Vec<(usize, usize)>,
    filter_spans: Option<&Vec<(usize, (usize, usize))>>,
    filter_field_ranges: &Vec<(usize, (usize, usize))>,
) -> (reqs: Vec<((usize, usize), HighlightKind)>)
    ensures
        reqs@ == highlight_requests(
            text_len,
            search_full_line,
            search_field_range,
            opt_seq(search_spans),
            keyword_spans@,
            opt_seq(filter_spans),
            filter_field_ranges@,
        ),
{
    let mut reqs: Vec<((usize, usize), HighlightKind)> = Vec::new();
    if search_full_line && text_len > 0 {
        reqs.push(((0, text_len), HighlightKind::Search));
    } else if let Some(range) = search_field_range {
        reqs.push((range, HighlightKind::Search));
    } else if let Some(hits) = search_spans {
        push_plain(&mut reqs, hits, HighlightKind::Search);
        proof {
            assert(hits@.map_values(|r: (usize, usize)| (r, HighlightKind::Search))
                =~= hits@.map_values(|r: (usize, usize)| as_search(r)));
        }
    }
    let ghost after_search = reqs@;
    push_plain(&mut reqs, keyword_spans, HighlightKind::Keyword);
    proof {
        assert(keyword_spans@.map_values(|r: (usize, usize)| (r, HighlightKind::Keyword))
            =~= keyword_spans@.map_values(|r: (usize, usize)| as_keyword(r)));
    }
    if let Some(hits) = filter_spans {
        push_filters(&mut reqs, hits);
    }
    push_filters(&mut reqs, filter_field_ranges);
    proof {
        let spec = highlight_requests(
            text_len,
            search_full_line,
            search_field_range,
            opt_seq(search_spans),
            keyword_spans@,
            opt_seq(filter_spans),
            filter_field_ranges@,
        );
        assert(reqs@ =~= spec);
    }
    reqs
}

proof fn lemma_requests_ordered(
    text_len: usize,
    search_full_line: bool,
    search_field_range: Option<(usize, usize)>,
    search_spans: Option<Seq<(usize, usize)>>,
    keyword_spans: Seq<(usize, usize)>,
    filter_spans: Option<Seq<(usize, (usize, usize))>>,
    filter_field_ranges: Seq<(usize, (usize, usize))>,
)
    requires
        search_field_range matches Some(r) ==> r.0 <= r.1,
        search_spans matches Some(v) ==> ranges_ordered(v),
        ranges_ordered(keyword_spans),
        filter_spans matches Some(v) ==> tagged_ordered(v),
        tagged_ordered(filter_field_ranges),
    ensures
        ({
            let reqs = highlight_requests(
                text_len,
                search_full_line,
                search_field_range,
                search_spans,
                keyword_spans,
                filter_spans,
                filter_field_ranges,
            );
            ordered_upto(reqs, reqs.len() as int)
        }),
{
}

/// `owner` is the first request that covers `p`.
proof fn lemma_owner_is_first(reqs: Seq<((usize, usize), HighlightKind)>, n: int, p: int)
    requires
        0 <= n <= reqs.len(),
    ensures
        owner(reqs, n, p) >= 0 ==> owner(reqs, n, p) < n && in_span(reqs[owner(reqs, n, p)].0, p) && forall|j: int|
            0 <= j < owner(reqs, n, p) ==> !in_span(#[trigger] reqs[j].0, p),
        owner(reqs, n, p) < 0 ==> forall|j: int| 0 <= j < n ==> !in_span(#[trigger] reqs[j].0, p),
    decreases n,
{
    if n > 0 {
        lemma_owner_is_first(reqs, n - 1, p);
    }
}

/// A search hit covers byte `p`: the whole line on a full-line hit of a
/// non-empty line, else the matched field value, else one of the search
/// matcher's hits.
pub open spec fn search_covers(
    text_len: usize,
    search_full_line: bool,
    search_field_range: Option<(usize, usize)>,
    search_spans: Option<Seq<(usize, usize)>>,
    p: int,
) -> bool {
    if search_full_line && text_len > 0 {
        0 <= p < text_len
    } else if search_field_range is Some {
        in_span(search_field_range->0, p)
    } else if search_spans is Some {
        exists|k: int| 0 <= k < search_spans->0.len() && in_span(#[trigger] search_spans->0[k], p)
    } else {
        false
    }
}

/// Some range of `ranges` covers byte `p`.
pub open spec fn covers(ranges: Seq<(usize, usize)>, p: int) -> bool {
    exists|k: int| 0 <= k < ranges.len() && in_span(#[trigger] ranges[k], p)
}

/// Some tagged range of `ranges` covers byte `p`.
pub open spec fn covers_tagged(ranges: Seq<(usize, (usize, usize))>, p: int) -> bool {
    exists|k: int| 0 <= k < ranges.len() && in_span(#[trigger] ranges[k].1, p)
}

/// Law: the highlight of a byte follows precedence search > keyword >
/// filter. A byte is painted exactly when some hit covers it. A byte that a search hit covers is painted Search, whatever else
/// covers it; a byte that a keyword hit covers and no search hit is painted
/// Keyword; a byte that only filter hits or filter field values cover is
/// painted with a filter's colour.
pub proof fn law_search_beats_keyword_beats_filter(
    text_len: usize,
    search_full_line: bool,
    search_field_range: Option<(usize, usize)>,
    search_spans: Option<Seq<(usize, usize)>>,
    keyword_spans: Seq<(usize, usize)>,
    filter_spans: Option<Seq<(usize, (usize, usize))>>,
    filter_field_ranges: Seq<(usize, (usize, usize))>,
    spans: Seq<((usize, usize), HighlightKind)>,
    p: int,
)
    requires
        layered(
            spans,
            highlight_requests(text_len, search_full_line, search_field_range, search_spans, keyword_spans, filter_spans, filter_field_ranges),
            highlight_requests(text_len, search_full_line, search_field_range, search_spans, keyword_spans, filter_spans, filter_field_ranges).len() as int,
        ),
    ensures
        search_covers(text_len, search_full_line, search_field_range, search_spans, p) ==> painted(spans, p)
            && forall|i: int| 0 <= i < spans.len() && #[trigger] in_span(spans[i].0, p) ==> spans[i].1 == HighlightKind::Search,
        !search_covers(text_len, search_full_line, search_field_range, search_spans, p) && covers(keyword_spans, p)
            ==> painted(spans, p) && forall|i: int| 0 <= i < spans.len() && #[trigger] in_span(spans[i].0, p)
            ==> spans[i].1 == HighlightKind::Keyword,
        !search_covers(text_len, search_full_line, search_field_range, search_spans, p) && !covers(keyword_spans, p)
            ==> forall|i: int| 0 <= i < spans.len() && #[trigger] in_span(spans[i].0, p) ==> spans[i].1 is Filter,
        painted(spans, p) <==> (search_covers(text_len, search_full_line, search_field_range, search_spans, p)
            || covers(keyword_spans, p) || (filter_spans is Some && covers_tagged(filter_spans->0, p))
            || covers_tagged(filter_field_ranges, p)),
{
    let sreq = search_requests(text_len, search_full_line, search_field_range, search_spans);
    let kreq = keyword_spans.map_values(|r: (usize, usize)| as_keyword(r));
    let freq = (if filter_spans is Some {
        filter_spans->0.map_values(|r: (usize, (usize, usize))| as_filter(r))
    } else {
        seq![]
    });
    let fieldreq = filter_field_ranges.map_values(|r: (usize, (usize, usize))| as_filter(r));
    let reqs = highlight_requests(text_len, search_full_line, search_field_range, search_spans, keyword_spans, filter_spans, filter_field_ranges);
    let n = reqs.len() as int;
    assert(reqs == sreq + kreq + freq + fieldreq);
    let ss = sreq.len() as int;
    let ks = kreq.len() as int;
    lemma_owner_is_first(reqs, n, p);
    let o = owner(reqs, n, p);
    // Every span holding `p` carries the kind of `p`'s owner.
    assert forall|i: int| 0 <= i < spans.len() && #[trigger] in_span(spans[i].0, p) implies o >= 0 && spans[i].1
        == reqs[o].1 by {
        assert(owner(reqs, n, p) == owner(reqs, n, spans[i].0.0 as int));
    }
    assert forall|j: int| 0 <= j < ss implies (#[trigger] reqs[j]).1 == HighlightKind::Search by {
        assert(reqs[j] == sreq[j]);
    }
    assert forall|j: int| ss <= j < ss + ks implies (#[trigger] reqs[j]).1 == HighlightKind::Keyword by {
        assert(reqs[j] == kreq[j - ss]);
    }
    assert forall|j: int| ss + ks <= j < n implies (#[trigger] reqs[j]).1 is Filter by {
        if j < ss + ks + freq.len() {
            assert(reqs[j] == freq[j - ss - ks]);
        } else {
            assert(reqs[j] == fieldreq[j - ss - ks - freq.len()]);
        }
    }
    // Which search requests cover `p`.
    if search_covers(text_len, search_full_line, search_field_range, search_spans, p) {
        if search_full_line && text_len > 0 {
            assert(in_span(reqs[0].0, p));
        } else if search_field_range is Some {
            assert(in_span(reqs[0].0, p));
        } else {
            let k = choose|k: int| 0 <= k < search_spans->0.len() && in_span(#[trigger] search_spans->0[k], p);
            assert(reqs[k] == sreq[k]);
            assert(in_span(reqs[k].0, p));
        }
        assert(o >= 0 && o < ss);
    } else {
        assert forall|j: int| 0 <= j < ss implies !in_span((#[trigger] reqs[j]).0, p) by {
            assert(reqs[j] == sreq[j]);
            if !(search_full_line && text_len > 0) && search_field_range is None && search_spans is Some {
                assert(sreq[j].0 == search_spans->0[j]);
            }
        }
        if covers(keyword_spans, p) {
            let k = choose|k: int| 0 <= k < keyword_spans.len() && in_span(#[trigger] keyword_spans[k], p);
            assert(reqs[ss + k] == kreq[k]);
            assert(in_span(reqs[ss + k].0, p));
            assert(o >= ss && o < ss + ks);
        } else {
            assert forall|j: int| ss <= j < ss + ks implies !in_span((#[trigger] reqs[j]).0, p) by {
                assert(reqs[j] == kreq[j - ss]);
                assert(kreq[j - ss].0 == keyword_spans[j - ss]);
            }
            if o >= 0 {
                assert(o >= ss + ks);
            }
        }
    }
    let fs = freq.len() as int;
    // A filter hit covering `p` is a request covering `p`, and back.
    if filter_spans is Some && covers_tagged(filter_spans->0, p) {
        let k = choose|k: int| 0 <= k < filter_spans->0.len() && in_span(#[trigger] filter_spans->0[k].1, p);
        assert(reqs[ss + ks + k] == freq[k]);
        assert(in_span(reqs[ss + ks + k].0, p));
    }
    if covers_tagged(filter_field_ranges, p) {
        let k = choose|k: int| 0 <= k < filter_field_ranges.len() && in_span(#[trigger] filter_field_ranges[k].1, p);
        assert(reqs[ss + ks + fs + k] == fieldreq[k]);
        assert(in_span(reqs[ss + ks + fs + k].0, p));
    }
    if covers(keyword_spans, p) {
        let k = choose|k: int| 0 <= k < keyword_spans.len() && in_span(#[trigger] keyword_spans[k], p);
        assert(reqs[ss + k] == kreq[k]);
        assert(in_span(reqs[ss + k].0, p));
    }
    if painted(spans, p) {
        let i = choose|i: int| 0 <= i < spans.len() && #[trigger] in_span(spans[i].0, p);
        assert(owner(reqs, n, p) == owner(reqs, n, spans[i].0.0 as int));
        assert(o >= 0);
        if o < ss {
            assert(reqs[o] == sreq[o]);
            if !(search_full_line && text_len > 0) && search_field_range is None {
                assert(search_spans is Some);
                assert(in_span(search_spans->0[o], p));
            }
        } else if o < ss + ks {
            assert(reqs[o] == kreq[o - ss]);
            assert(in_span(keyword_spans[o - ss], p));
        } else if o < ss + ks + fs {
            assert(reqs[o] == freq[o - ss - ks]);
            assert(filter_spans is Some);
            assert(in_span(filter_spans->0[o - ss - ks].1, p));
        } else {
            assert(reqs[o] == fieldreq[o - ss - ks - fs]);
            assert(in_span(filter_field_ranges[o - ss - ks - fs].1, p));
        }
    }
}

/// The highlight spans of one line: search hits (a full-line hit, a field
/// value, or the search matcher's hits) win over keyword hits, which win
/// over filter hits and filter field values. Keyword hits are the keyword
/// automaton's matches (see `keyword_hits`).
pub fn line_highlight_spans(
    text: &str,
    search_full_line: bool,
    search_field_range: Option<(usize, usize)>,
    search_spans: Option<&Vec<(usize, usize)>>,
    keyword_ac: Option<&AhoCorasick>,
    filter_spans: Option<&Vec<(usize, (usize, usize))>>,
    filter_field_ranges: &Vec<(usize, (usize, usize))>,
) -> (spans: Vec<((usize, usize), HighlightKind)>)
    requires
        search_field_range matches Some(r) ==> r.0 <= r.1,
        search_spans matches Some(v) ==> ranges_ordered(v@),
        filter_spans matches Some(v) ==> tagged_ordered(v@),
        tagged_ordered(filter_field_ranges@),
    ensures
        layered(
            spans@,
            highlight_requests(
                text.len(),
                search_full_line,
                search_field_range,
                opt_seq(search_spans),
                keyword_spans_of(keyword_ac, text@),
                opt_seq(filter_spans),
                filter_field_ranges@,
            ),
            highlight_requests(
                text.len(),
                search_full_line,
                search_field_range,
                opt_seq(search_spans),
                keyword_spans_of(keyword_ac, text@),
                opt_seq(filter_spans),
                filter_field_ranges@,
            ).len() as int,
        ),
{
    let keywords = match keyword_ac {
        Some(ac) => keyword_matches(ac, text),
        None => Vec::new(),
    };
    assert(keywords@ == keyword_spans_of(keyword_ac, text@));
    let reqs = build_requests(
        text.len(),
        search_full_line,
        search_field_range,
        search_spans,
        &keywords,
        filter_spans,
        filter_field_ranges,
    );
    proof {
        lemma_requests_ordered(
            text.len(),
            search_full_line,
            search_field_range,
            opt_seq(search_spans),
            keywords@,
            opt_seq(filter_spans),
            filter_field_ranges@,
        );
    }
    layer_spans(&reqs)
}

/// Paints one request on top of the spans painted so far (search > keyword
/// > filter precedence comes from the order in which requests are added).
fn add_highlight_span(
    spans: &mut Vec<((usize, usize), HighlightKind)>,
    covered: &mut Vec<(usize, usize)>,
    range: (usize, usize),
    highlight: HighlightKind,
    Ghost(reqs): Ghost<Seq<((usize, usize), HighlightKind)>>,
    Ghost(n): Ghost<int>,
)
    requires
        0 <= n < reqs.len(),
        reqs[n] == (range, highlight),
        range.0 <= range.1,
        layered(old(spans)@, reqs, n),
        covered_repr(old(covered)@, reqs, n),
    ensures
        layered(final(spans)@, reqs, n + 1),
        covered_repr(final(covered)@, reqs, n + 1),
{
    emit_pieces(spans, covered, range, highlight, Ghost(reqs), Ghost(n));
    merge_covered(covered, range, Ghost(reqs), Ghost(n));
}

/// Layers highlight requests given in precedence order: the result is
/// sorted and disjoint, every byte covered by some request is painted with
/// the kind of the earliest request covering it, and (when no request is
/// empty) each span is a maximal run of bytes owned by one request.
pub fn layer_spans(reqs: &Vec<((usize, usize), HighlightKind)>) -> (spans: Vec<((usize, usize), HighlightKind)>)
    requires
        ordered_upto(reqs@, reqs@.len() as int),
    ensures
        layered(spans@, reqs@, reqs@.len() as int),
{
    let mut spans: Vec<((usize, usize), HighlightKind)> = Vec::new();
    let mut covered: Vec<(usize, usize)> = Vec::new();
    let mut k: usize = 0;
    while k < reqs.len()
        invariant
            k <= reqs.len(),
            ordered_upto(reqs@, reqs@.len() as int),
            layered(spans@, reqs@, k as int),
            covered_repr(covered@, reqs@, k as int),
        decreases reqs.len() - k,
    {
        let (range, highlight) = reqs[k];
        proof {
            assert(reqs@[k as int].0.0 <= reqs@[k as int].0.1);
        }
        add_highlight_span(&mut spans, &mut covered, range, highlight, Ghost(reqs@), Ghost(k as int));
        k += 1;
    }
    spans
}

/// Index of the first span that starts at or after `a`.
fn insertion_index(spans: &Vec<((usize, usize), HighlightKind)>, a: usize) -> (idx: usize)
    requires
        sorted_disjoint(spans@),
    ensures
        idx <= spans.len(),
        forall|k: int| 0 <= k < idx ==> (#[trigger] spans@[k]).0.0 < a,
        forall|k: int| idx <= k < spans.len() ==> (#[trigger] spans@[k]).0.0 >= a,
{
    let mut j: usize = 0;
    while j < spans.len() && spans[j].0.0 < a
        invariant
            j <= spans.len(),
            forall|k: int| 0 <= k < j ==> (#[trigger] spans@[k]).0.0 < a,
        decreases spans.len() - j,
    {
        j += 1;
    }
    if j < spans.len() {
        assert forall|k: int| j <= k < spans.len() implies (#[trigger] spans@[k]).0.0 >= a by {
            if k > j {
                assert(spans@[j as int].0.1 <= spans@[k].0.0);
            }
        }
    }
    j
}

/// Inserts a span that shares no byte with the spans present, keeping the
/// list sorted.
fn insert_disjoint(spans: &mut Vec<((usize, usize), HighlightKind)>, a: usize, b: usize, kind: HighlightKind) -> (idx: usize)
    requires
        sorted_disjoint(old(spans)@),
        a < b,
        forall|i: int, p: int|
            0 <= i < old(spans)@.len() && #[trigger] in_span(old(spans)@[i].0, p) ==> !(a <= p
                < b),
    ensures
        idx <= old(spans)@.len(),
        final(spans)@ == old(spans)@.insert(idx as int, ((a, b), kind)),
        sorted_disjoint(final(spans)@),
{
    let idx = insertion_index(spans, a);
    let ghost s0 = spans@;
    proof {
        assert forall|k: int| 0 <= k < idx implies (#[trigger] s0[k]).0.1 <= a by {
            if s0[k].0.1 > a {
                assert(in_span(s0[k].0, a as int));
            }
        }
        assert forall|k: int| idx <= k < s0.len() implies (#[trigger] s0[k]).0.0 >= b by {
            if s0[k].0.0 < b {
                assert(in_span(s0[k].0, s0[k].0.0 as int));
            }
        }
    }
    spans.insert(idx, ((a, b), kind));
    proof {
        let s1 = spans@;
        assert forall|i: int| 0 <= i < s1.len() implies (#[trigger] s1[i]).0.0 < s1[i].0.1 by {
            if i < idx {
                assert(s1[i] == s0[i]);
            } else if i > idx {
                assert(s1[i] == s0[i - 1]);
            }
        }
        assert forall|i: int, j: int|
            0 <= i < j < s1.len() implies (#[trigger] s1[i]).0.1 <= (#[trigger] s1[j]).0.0 by {
            if j < idx {
                assert(s1[i] == s0[i] && s1[j] == s0[j]);
            } else if j == idx {
                assert(s1[i] == s0[i]);
            } else if i < idx {
                assert(s1[i] == s0[i] && s1[j] == s0[j - 1]);
                assert(s0[i].0.1 <= a);
                assert(s0[j - 1].0.0 >= b);
            } else if i == idx {
                assert(s1[j] == s0[j - 1]);
            } else {
                assert(s1[i] == s0[i - 1] && s1[j] == s0[j - 1]);
            }
        }
    }
    idx
}


/// How the Log View lays out lines longer than the view.
#[derive(Clone, Copy, Debug, PartialEq, Eq, Structural)]
pub enum LineDisplayMode {
    Truncate,
    Wrap,
    HorizontalScroll,
}

/// The most bytes of a line that truncate mode shows.
pub const MAX_DISPLAY_BYTES: usize = 2000;

/// What the Log View shows of a line: in truncate mode, a line longer than
/// `MAX_DISPLAY_BYTES` bytes is cut at the last character boundary within
/// that many bytes and followed by a note of its full length; otherwise
/// the whole line.
pub open spec fn displayed(line: Seq<char>, mode: LineDisplayMode) -> Seq<char> {
    let total = encode_utf8(line).len();
    if mode != LineDisplayMode::Truncate || total <= MAX_DISPLAY_BYTES {
        line
    } else {
        line.take(chars_within(line, MAX_DISPLAY_BYTES as int)) + "  …["@ + decimal(total) + " bytes total, truncated]"@
    }
}

/// The text shown for a line (see `displayed`).
pub fn display_text_for_mode(line: &str, display_mode: LineDisplayMode) -> (shown: String)
    ensures
        shown@ == displayed(line@, display_mode),
{
    let total = line.as_bytes().len();
    match display_mode {
        LineDisplayMode::Truncate => {},
        _ => {
            return line.to_owned();
        },
    }
    if total <= MAX_DISPLAY_BYTES {
        return line.to_owned();
    }
    let (prefix, _) = prefix_within(line, MAX_DISPLAY_BYTES);
    let mut out = string_of(prefix.as_slice());
    push_str(&mut out, "  …[");
    push_decimal(&mut out, total as u64);
    push_str(&mut out, " bytes total, truncated]");
    out
}

/// The text shown for a line in truncate mode.
pub fn display_text(line: &str) -> (shown: String)
    ensures
        shown@ == displayed(line@, LineDisplayMode::Truncate),
{
    display_text_for_mode(line, LineDisplayMode::Truncate)
}

/// How many source bytes of a line the display covers: all of them, or in
/// truncate mode at most those up to the cut.
pub open spec fn displayed_source_len(line: Seq<char>, mode: LineDisplayMode) -> int {
    let total = encode_utf8(line).len() as int;
    if mode != LineDisplayMode::Truncate || total <= MAX_DISPLAY_BYTES {
        total
    } else {
        byte_offset(line, chars_within(line, MAX_DISPLAY_BYTES as int))
    }
}

/// The number of source bytes the display of a line covers (see
/// `displayed_source_len`).
pub fn display_source_len_for_mode(line: &str, display_mode: LineDisplayMode) -> (len: usize)
    ensures
        len as int == displayed_source_len(line@, display_mode),
{
    let total = line.as_bytes().len();
    match display_mode {
        LineDisplayMode::Truncate => {},
        _ => {
            return total;
        },
    }
    if total <= MAX_DISPLAY_BYTES {
        return total;
    }
    let (_, end) = prefix_within(line, MAX_DISPLAY_BYTES);
    end
}

/// The number of source bytes the truncate-mode display of a line covers.
pub fn display_source_len(line: &str) -> (len: usize)
    ensures
        len as int == displayed_source_len(line@, LineDisplayMode::Truncate),
{
    display_source_len_for_mode(line, LineDisplayMode::Truncate)
}

/// A position in the source: a line (counted from the file's start) and a
/// byte in it.
#[derive(Clone, Copy, Debug, PartialEq, Eq, Structural)]
pub struct SourcePos {
    pub line: usize,
    pub byte: usize,
}

/// The source text that a detected payload spans, possibly over lines.
#[derive(Clone, Copy, Debug, PartialEq, Eq, Structural)]
pub struct SourceSpan {
    pub start: SourcePos,
    pub end: SourcePos,
}

impl SourceSpan {
    /// The span touches line `line`.
    pub open spec fn touches(self, line: usize) -> bool {
        self.start.line <= line <= self.end.line
    }

    /// Whether the span touches line `line`.
    pub fn includes_line(&self, line: usize) -> (touches: bool)
        ensures
            touches == self.touches(line),
    {
        self.start.line <= line && line <= self.end.line
    }
}

/// The byte range of line `line` that a span covers, clipped to the shown
/// bytes: from its start byte (or the line's start) to its end byte (or
/// the shown end).
pub open spec fn span_piece(span: SourceSpan, line: usize, visible: usize) -> (int, int) {
    let start = if span.start.line == line {
        span.start.byte as int
    } else {
        0
    };
    let end = if span.end.line == line {
        span.end.byte as int
    } else {
        visible as int
    };
    (if start <= visible {
        start
    } else {
        visible as int
    }, if end <= visible {
        end
    } else {
        visible as int
    })
}

/// The non-empty pieces of line `line` that the spans cover, in order.
pub open spec fn span_ranges(spans: Seq<SourceSpan>, line: usize, visible: usize) -> Seq<(int, int)>
    decreases spans.len(),
{
    if spans.len() == 0 {
        Seq::empty()
    } else {
        let earlier = span_ranges(spans.drop_last(), line, visible);
        let piece = span_piece(spans.last(), line, visible);
        if spans.last().touches(line) && piece.0 < piece.1 {
            earlier.push(piece)
        } else {
            earlier
        }
    }
}

/// A list of ranges as pairs.
pub open spec fn range_pairs(ranges: Seq<Range<usize>>) -> Seq<(int, int)> {
    ranges.map_values(|r: Range<usize>| (r.start as int, r.end as int))
}

/// The byte ranges of source line `original_line` that a detection's spans
/// cover, clipped to the `visible_source_len` shown bytes.
pub fn source_ranges_for_line(spans: &[SourceSpan], original_line: usize, visible_source_len: usize) -> (ranges: Vec<Range<usize>>)
    ensures
        range_pairs(ranges@) == span_ranges(spans@, original_line, visible_source_len),
{
    let mut ranges: Vec<Range<usize>> = Vec::new();
    let mut k: usize = 0;
    while k < spans.len()
        invariant
            k <= spans@.len(),
            range_pairs(ranges@) == span_ranges(spans@.take(k as int), original_line, visible_source_len),
        decreases spans@.len() - k,
    {
        proof {
            assert(spans@.take(k + 1).drop_last() =~= spans@.take(k as int));
        }
        let span = &spans[k];
        if span.includes_line(original_line) {
            let start = if span.start.line == original_line {
                span.start.byte
            } else {
                0
            };
            let end = if span.end.line == original_line {
                span.end.byte
            } else {
                visible_source_len
            };
            let start = if start <= visible_source_len {
                start
            } else {
                visible_source_len
            };
            let end = if end <= visible_source_len {
                end
            } else {
                visible_source_len
            };
            if start < end {
                let ghost before = ranges@;
                ranges.push(start..end);
                proof {
                    assert(range_pairs(ranges@) =~= range_pairs(before).push((start as int, end as int)));
                }
            }
        }
        k += 1;
    }
    proof {
        assert(spans@.take(k as int) =~= spans@);
    }
    ranges
}

/// The pieces of one line that all detections' spans cover, detection by
/// detection.
pub open spec fn detections_ranges(detections: Seq<Vec<SourceSpan>>, line: usize, visible: usize) -> Seq<(int, int)>
    decreases detections.len(),
{
    if detections.len() == 0 {
        Seq::empty()
    } else {
        detections_ranges(detections.drop_last(), line, visible) + span_ranges(detections.last()@, line, visible)
    }
}

/// The byte ranges of trim-window line `idx` that the detections cover
/// (each detection given by its source spans).
pub fn embedded_ranges_for_line(
    trim_start: usize,
    detections: &[Vec<SourceSpan>],
    idx: usize,
    visible_source_len: usize,
) -> (ranges: Vec<Range<usize>>)
    requires
        trim_start + idx <= usize::MAX,
    ensures
        range_pairs(ranges@) == detections_ranges(detections@, (trim_start + idx) as usize, visible_source_len),
{
    let original_line = trim_start + idx;
    let mut ranges: Vec<Range<usize>> = Vec::new();
    let mut k: usize = 0;
    while k < detections.len()
        invariant
            k <= detections@.len(),
            original_line == trim_start + idx,
            range_pairs(ranges@) == detections_ranges(detections@.take(k as int), original_line, visible_source_len),
        decreases detections@.len() - k,
    {
        proof {
            assert(detections@.take(k + 1).drop_last() =~= detections@.take(k as int));
        }
        let mut found = source_ranges_for_line(detections[k].as_slice(), original_line, visible_source_len);
        let ghost before = ranges@;
        let ghost added = found@;
        ranges.append(&mut found);
        proof {
            assert(range_pairs(ranges@) =~= range_pairs(before) + range_pairs(added));
        }
        k += 1;
    }
    proof {
        assert(detections@.take(k as int) =~= detections@);
    }
    ranges
}


/// Law: in truncate mode the shown part of a long line ends on a character
/// boundary within `MAX_DISPLAY_BYTES` bytes, and is the longest such part.
pub proof fn law_truncation_is_utf8_safe(line: Seq<char>)
    requires
        encode_utf8(line).len() > MAX_DISPLAY_BYTES,
    ensures
        displayed_source_len(line, LineDisplayMode::Truncate) <= MAX_DISPLAY_BYTES,
        displayed_source_len(line, LineDisplayMode::Truncate) == byte_offset(
            line,
            chars_within(line, MAX_DISPLAY_BYTES as int),
        ),
        chars_within(line, MAX_DISPLAY_BYTES as int) < line.len(),
        byte_offset(line, chars_within(line, MAX_DISPLAY_BYTES as int) + 1) > MAX_DISPLAY_BYTES,
        displayed(line, LineDisplayMode::Truncate).take(chars_within(line, MAX_DISPLAY_BYTES as int))
            == line.take(chars_within(line, MAX_DISPLAY_BYTES as int)),
{
    lemma_chars_within(line, MAX_DISPLAY_BYTES as int);
    let k = chars_within(line, MAX_DISPLAY_BYTES as int);
    if k == line.len() {
        assert(line.take(line.len() as int) =~= line);
    }
    let shown = displayed(line, LineDisplayMode::Truncate);
    assert(shown.take(k) =~= line.take(k));
}

} // verus!
