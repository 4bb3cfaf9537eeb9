//! Small, cursor-aware completion list for inline format placeholders
//! such as `{time}` or `{worker:number}`.

use std::ops::Range;

use vstd::prelude::*;

use crate::text::{byte_offset, chars_and_offsets, chars_of, string_of};

verus! {

/// A completion offer: the byte range of the placeholder part that a choice
/// replaces, and the choices that start with what was typed so far.
pub struct Completion {
    pub replace: Range<usize>,
    pub choices: Vec<&'static str>,
}

/// The texts of a list of string slices.
pub open spec fn texts(v: Seq<&'static str>) -> Seq<Seq<char>> {
    v.map_values(|x: &'static str| x@)
}

/// Field names offered before a `:`.
pub open spec fn field_names() -> Seq<Seq<char>> {
    seq!["time"@, "log"@, "ignore"@, "thread"@, "process"@, "loglevel"@]
}

/// Type names offered after a `:`.
pub open spec fn type_names() -> Seq<Seq<char>> {
    seq!["token"@, "number"@, "path"@, "text"@]
}

/// The names of `list`, in order, that start with `typed`.
pub open spec fn prefix_matches(list: Seq<Seq<char>>, typed: Seq<char>) -> Seq<Seq<char>>
    decreases list.len(),
{
    if list.len() == 0 {
        seq![]
    } else if typed.is_prefix_of(list.last()) {
        prefix_matches(list.drop_last(), typed).push(list.last())
    } else {
        prefix_matches(list.drop_last(), typed)
    }
}

/// Index of the last `{` before character `c`, or -1.
pub open spec fn last_open_before(s: Seq<char>, c: int) -> int
    decreases c,
{
    if c <= 0 {
        -1
    } else if s[c - 1] == '{' {
        c - 1
    } else {
        last_open_before(s, c - 1)
    }
}

/// Index of the first `ch` in `s[a..b]`, or `b`.
pub open spec fn first_index_of(s: Seq<char>, a: int, b: int, ch: char) -> int
    decreases b - a,
{
    if a >= b {
        b
    } else if s[a] == ch {
        a
    } else {
        first_index_of(s, a + 1, b, ch)
    }
}

/// Number of `ch` in `s[a..b]`.
pub open spec fn count_char(s: Seq<char>, a: int, b: int, ch: char) -> nat
    decreases b - a,
{
    if a >= b {
        0
    } else {
        count_char(s, a, b - 1, ch) + if s[b - 1] == ch {
            1nat
        } else {
            0nat
        }
    }
}

/// `ch` occurs in `s[a..b]`.
pub open spec fn has_char(s: Seq<char>, a: int, b: int, ch: char) -> bool {
    exists|k: int| a <= k < b && #[trigger] s[k] == ch
}

/// What a completion at character `cursor` of `s` replaces and matches, in
/// characters: `(replace start, replace end, typed start, typed end,
/// offers types)`. The cursor must sit in an open placeholder (after a `{`
/// that is not doubled, with no `}` between it and the cursor). The
/// placeholder runs to the next `}` (or the end) and may not hold another
/// `{` or more than one `:`. Before the `:` the field name is completed,
/// after it the type.
pub open spec fn completion_plan(s: Seq<char>, cursor: int) -> Option<(int, int, int, int, bool)> {
    let c = if cursor < s.len() {
        cursor
    } else {
        s.len() as int
    };
    let o = last_open_before(s, c);
    if o < 0 {
        None
    } else if has_char(s, o + 1, c, '}') || (o > 0 && s[o - 1] == '{') {
        None
    } else {
        let e = first_index_of(s, c, s.len() as int, '}');
        if has_char(s, o + 1, e, '{') || count_char(s, o + 1, e, ':') > 1 {
            None
        } else {
            let k = first_index_of(s, o + 1, e, ':');
            if k < e {
                if c <= k {
                    Some((o + 1, k, o + 1, c, false))
                } else {
                    Some((k + 1, e, k + 1, c, true))
                }
            } else {
                Some((o + 1, e, o + 1, c, false))
            }
        }
    }
}

fn field_list() -> (v: Vec<&'static str>)
    ensures
        texts(v@) == field_names(),
{
    let v = vec!["time", "log", "ignore", "thread", "process", "loglevel"];
    assert(texts(v@) =~= field_names());
    v
}

fn type_list() -> (v: Vec<&'static str>)
    ensures
        texts(v@) == type_names(),
{
    let v = vec!["token", "number", "path", "text"];
    assert(texts(v@) =~= type_names());
    v
}

fn starts_with(name: &str, typed: &[char]) -> (res: bool)
    ensures
        res == typed@.is_prefix_of(name@),
{
    let cs = chars_of(name);
    if typed.len() > cs.len() {
        return false;
    }
    let mut i: usize = 0;
    while i < typed.len()
        invariant
            cs@ == name@,
            typed@.len() <= cs@.len(),
            i <= typed@.len(),
            forall|k: int| 0 <= k < i ==> typed@[k] == cs@[k],
        decreases typed.len() - i,
    {
        if typed[i] != cs[i] {
            assert(typed@ != name@.subrange(0, typed@.len() as int)) by {
                assert(name@.subrange(0, typed@.len() as int)[i as int] == cs@[i as int]);
            }
            return false;
        }
        i += 1;
    }
    assert(typed@ =~= name@.subrange(0, typed@.len() as int));
    true
}

fn matching_choices(list: Vec<&'static str>, typed: &[char]) -> (choices: Vec<&'static str>)
    ensures
        texts(choices@) == prefix_matches(texts(list@), typed@),
{
    let mut choices: Vec<&'static str> = Vec::new();
    let mut i: usize = 0;
    while i < list.len()
        invariant
            i <= list.len(),
            texts(choices@) == prefix_matches(texts(list@.subrange(0, i as int)), typed@),
        decreases list.len() - i,
    {
        let name = list[i];
        proof {
            let pre = texts(list@.subrange(0, i + 1));
            assert(pre.drop_last() =~= texts(list@.subrange(0, i as int)));
            assert(pre.last() == name@);
        }
        if starts_with(name, typed) {
            choices.push(name);
            assert(texts(choices@) =~= prefix_matches(texts(list@.subrange(0, i as int)), typed@).push(name@));
        }
        i += 1;
    }
    assert(list@.subrange(0, i as int) =~= list@);
    choices
}

/// The completion offered at character `cursor_char` of `layout`, if the
/// cursor sits inside an open placeholder (see `completion_plan`). The
/// replaced range is given in bytes.
#[verifier::loop_isolation(false)]
pub fn at_cursor(layout: &str, cursor_char: usize) -> (completion: Option<Completion>)
    ensures
        match completion_plan(layout@, cursor_char as int) {
            None => completion is None,
            Some((rs, re, ts, te, types)) => completion matches Some(comp) && comp.replace.start
                == byte_offset(layout@, rs) && comp.replace.end == byte_offset(layout@, re)
                && texts(comp.choices@) == prefix_matches(
                if types {
                    type_names()
                } else {
                    field_names()
                },
                layout@.subrange(ts, te),
            ),
        },
{
    let (cs, offsets) = chars_and_offsets(layout);
    let ghost s = layout@;
    let len = cs.len();
    let c = if cursor_char < len {
        cursor_char
    } else {
        len
    };
    let mut i = c;
    while i > 0 && cs[i - 1] != '{'
        invariant
            cs@ == s,
            len == cs.len(),
            i <= c <= len,
            last_open_before(s, c as int) == last_open_before(s, i as int),
        decreases i,
    {
        i -= 1;
    }
    if i == 0 {
        assert(last_open_before(s, 0) == -1);
        return None;
    }
    let open = i - 1;
    assert(last_open_before(s, i as int) == open);
    // no `}` between the brace and the cursor
    let mut k = open + 1;
    while k < c
        invariant
            cs@ == s,
            len == cs.len(),
            open < k <= c + 1,
            c <= len,
            open < c,
            forall|j: int| open + 1 <= j < k ==> #[trigger] s[j] != '}',
        decreases c - k,
    {
        if cs[k] == '}' {
            assert(has_char(s, open + 1, c as int, '}'));
            return None;
        }
        k += 1;
    }
    if open > 0 && cs[open - 1] == '{' {
        return None;
    }
    let mut e = c;
    while e < len && cs[e] != '}'
        invariant
            cs@ == s,
            len == cs.len(),
            c <= e <= len,
            first_index_of(s, c as int, len as int, '}') == first_index_of(s, e as int, len as int, '}'),
        decreases len - e,
    {
        e += 1;
    }
    assert(first_index_of(s, e as int, len as int, '}') == e);
    let mut k = open + 1;
    let mut colons: usize = 0;
    let mut first_colon = e;
    while k < e
        invariant
            cs@ == s,
            len == cs.len(),
            open + 1 <= k <= e <= len,
            colons as int == count_char(s, open + 1, k as int, ':'),
            colons <= k,
            first_colon <= e,
            forall|j: int| open + 1 <= j < k ==> #[trigger] s[j] != '{',
            first_colon == e ==> first_index_of(s, open + 1, e as int, ':') == first_index_of(s, k as int, e as int, ':'),
            first_colon < e ==> first_colon < k && first_index_of(s, open + 1, e as int, ':') == first_colon,
        decreases e - k,
    {
        if cs[k] == '{' {
            assert(has_char(s, open + 1, e as int, '{'));
            return None;
        }
        assert(first_index_of(s, k as int, e as int, ':') == if s[k as int] == ':' { k as int } else { first_index_of(s, k + 1, e as int, ':') });
        if cs[k] == ':' {
            if first_colon == e {
                first_colon = k;
            }
            colons += 1;
        }
        proof {
            assert(count_char(s, open + 1, k + 1, ':') == count_char(s, open + 1, k as int, ':') + if s[k as int] == ':' { 1nat } else { 0nat });
        }
        k += 1;
    }
    assert(first_index_of(s, e as int, e as int, ':') == e);
    if colons > 1 {
        return None;
    }
    let (rs, re, ts, types) = if first_colon < e {
        if c <= first_colon {
            (open + 1, first_colon, open + 1, false)
        } else {
            (first_colon + 1, e, first_colon + 1, true)
        }
    } else {
        (open + 1, e, open + 1, false)
    };
    let typed = &cs.as_slice()[ts..c];
    let list = if types {
        type_list()
    } else {
        field_list()
    };
    let choices = matching_choices(list, typed);
    let replace = Range { start: offsets[rs], end: offsets[re] };
    proof {
        assert(!has_char(s, open + 1, c as int, '}'));
        assert(!has_char(s, open + 1, e as int, '{'));
        assert(typed@ == s.subrange(ts as int, c as int));
        assert(count_char(s, open + 1, e as int, ':') <= 1);
        assert(completion_plan(s, cursor_char as int) == Some((rs as int, re as int, ts as int, c as int, types)));
    }
    Some(Completion { replace, choices })
}

/// The text after accepting `choice`: the replaced characters `a..b` give way
/// to the choice, and a closing brace is added unless one already follows.
pub open spec fn inserted(s: Seq<char>, a: int, b: int, choice: Seq<char>) -> Seq<char> {
    let t = s.subrange(0, a) + choice + s.subrange(b, s.len() as int);
    let end = a + choice.len();
    if end < t.len() && t[end] == '}' {
        t
    } else {
        t.insert(end, '}')
    }
}

/// Applies `choice` to `layout` and returns the new cursor position (in
/// characters), just after the placeholder's closing brace. The replaced
/// range must lie on character boundaries of `layout`, as the ranges
/// `at_cursor` hands out do.
pub fn insert(layout: &mut String, completion: &Completion, choice: &str) -> (cursor: usize)
    requires
        exists|a: int, b: int|
            0 <= a <= b <= old(layout)@.len() && byte_offset(old(layout)@, a)
                == completion.replace.start && byte_offset(old(layout)@, b) == completion.replace.end,
    ensures
        exists|a: int, b: int|
            #![trigger byte_offset(old(layout)@, a), byte_offset(old(layout)@, b)]
            0 <= a <= b <= old(layout)@.len() && byte_offset(old(layout)@, a)
                == completion.replace.start && byte_offset(old(layout)@, b) == completion.replace.end
                && final(layout)@ == inserted(old(layout)@, a, b, choice@) && cursor == a
                + choice@.len() + 1,
{
    let (cs, offsets) = chars_and_offsets(layout.as_str());
    let ghost s = cs@;
    let len = cs.len();
    let start = completion.replace.start;
    let end = completion.replace.end;
    let ghost wa = choose|a: int, b: int|
        0 <= a <= b <= s.len() && byte_offset(s, a) == start && byte_offset(s, b) == end;
    let mut a: usize = 0;
    while a < len && offsets[a] != start
        invariant
            cs@ == s,
            len == cs.len(),
            offsets@.len() == len + 1,
            forall|k: int| 0 <= k <= len ==> #[trigger] offsets@[k] as int == byte_offset(s, k),
            0 <= wa.0 <= wa.1 <= s.len() && byte_offset(s, wa.0) == start && byte_offset(s, wa.1) == end,
            a <= wa.0,
        decreases len - a,
    {
        proof {
            if a == wa.0 {
                assert(offsets@[a as int] == start);
            }
        }
        a += 1;
    }
    let mut b: usize = a;
    while b < len && offsets[b] != end
        invariant
            cs@ == s,
            len == cs.len(),
            offsets@.len() == len + 1,
            forall|k: int| 0 <= k <= len ==> #[trigger] offsets@[k] as int == byte_offset(s, k),
            0 <= wa.0 <= wa.1 <= s.len() && byte_offset(s, wa.0) == start && byte_offset(s, wa.1) == end,
            a <= b <= wa.1,
        decreases len - b,
    {
        proof {
            if b == wa.1 {
                assert(offsets@[b as int] == end);
            }
        }
        b += 1;
    }
    proof {
        assert(offsets@[a as int] == start);
        assert(offsets@[b as int] == end);
    }
    let choice_chars = chars_of(choice);
    let mut next: Vec<char> = Vec::new();
    let mut k: usize = 0;
    while k < a
        invariant
            cs@ == s,
            a <= len == cs.len(),
            k <= a,
            next@ == s.subrange(0, k as int),
        decreases a - k,
    {
        next.push(cs[k]);
        proof {
            assert(s.subrange(0, k + 1) == s.subrange(0, k as int).push(s[k as int]));
        }
        k += 1;
    }
    let mut k: usize = 0;
    while k < choice_chars.len()
        invariant
            k <= choice_chars.len(),
            a <= b <= len == cs.len(),
            cs@ == s,
            next@ == s.subrange(0, a as int) + choice_chars@.subrange(0, k as int),
        decreases choice_chars.len() - k,
    {
        next.push(choice_chars[k]);
        proof {
            assert(choice_chars@.subrange(0, k + 1) == choice_chars@.subrange(0, k as int).push(choice_chars@[k as int]));
        }
        k += 1;
    }
    proof {
        assert(choice_chars@.subrange(0, k as int) == choice@);
    }
    let new_end = next.len();
    let mut k: usize = b;
    while k < len
        invariant
            cs@ == s,
            a <= b <= k <= len == cs.len(),
            next@ == s.subrange(0, a as int) + choice@ + s.subrange(b as int, k as int),
        decreases len - k,
    {
        next.push(cs[k]);
        proof {
            assert(s.subrange(b as int, k + 1) == s.subrange(b as int, k as int).push(s[k as int]));
        }
        k += 1;
    }
    if !(new_end < next.len() && next[new_end] == '}') {
        next.insert(new_end, '}');
    }
    assert(new_end < next.len());
    *layout = string_of(next.as_slice());
    proof {
        assert(new_end == a + choice@.len());
    }
    new_end + 1
}

/// A key that acts on an open completion list.
#[derive(Clone, Copy, Debug, PartialEq, Eq, Structural)]
pub enum CompletionKey {
    /// Arrow down: the next choice, wrapping to the first.
    Next,
    /// Arrow up: the previous choice, wrapping to the last.
    Previous,
    /// Tab or Enter: insert the selected choice.
    Accept,
}

/// The completion list's step for a key over `count` choices: the new
/// selected position, and the choice to insert when the key accepts (the
/// selected one, or the last when the selection lies past the list).
pub fn completion_key_step(selected: usize, count: usize, key: Option<CompletionKey>) -> (step: (usize, Option<usize>))
    requires
        count > 0,
        key == Some(CompletionKey::Next) ==> selected + 1 <= usize::MAX,
        key == Some(CompletionKey::Previous) ==> selected + count <= usize::MAX,
    ensures
        step == match key {
            Some(CompletionKey::Next) => (((selected + 1) % (count as int)) as usize, None),
            Some(CompletionKey::Previous) => (((selected + count - 1) % (count as int)) as usize, None),
            Some(CompletionKey::Accept) => (selected, Some(if selected < count - 1 { selected } else { (count - 1) as usize })),
            None => (selected, None::<usize>),
        },
{
    match key {
        Some(CompletionKey::Next) => ((selected + 1) % count, None),
        Some(CompletionKey::Previous) => ((selected + count - 1) % count, None),
        Some(CompletionKey::Accept) => (selected, Some(if selected < count - 1 { selected } else { count - 1 })),
        None => (selected, None),
    }
}

proof fn lemma_last_open_before(s: Seq<char>, c: int)
    requires
        0 <= c <= s.len(),
    ensures
        last_open_before(s, c) < c,
        last_open_before(s, c) >= 0 ==> s[last_open_before(s, c)] == '{',
        forall|k: int| last_open_before(s, c) < k < c ==> s[k] != '{',
    decreases c,
{
    if c > 0 && s[c - 1] != '{' {
        lemma_last_open_before(s, c - 1);
    }
}

proof fn lemma_first_index_of(s: Seq<char>, a: int, b: int, ch: char)
    requires
        0 <= a <= b <= s.len(),
    ensures
        a <= first_index_of(s, a, b, ch) <= b,
        first_index_of(s, a, b, ch) < b ==> s[first_index_of(s, a, b, ch)] == ch,
        forall|k: int| a <= k < first_index_of(s, a, b, ch) ==> s[k] != ch,
    decreases b - a,
{
    if a < b && s[a] != ch {
        lemma_first_index_of(s, a + 1, b, ch);
    }
}

proof fn lemma_single_char(s: Seq<char>, a: int, b: int, ch: char, k: int)
    requires
        0 <= a <= k < b <= s.len(),
        s[k] == ch,
        count_char(s, a, b, ch) <= 1,
    ensures
        forall|j: int| a <= j < b && j != k ==> s[j] != ch,
    decreases b - a,
{
    lemma_count_at_least_one(s, a, b, ch, k);
    if b - 1 == k {
        assert forall|j: int| a <= j < b - 1 implies s[j] != ch by {
            if s[j] == ch {
                lemma_count_at_least_one(s, a, b - 1, ch, j);
            }
        }
    } else {
        assert(s[b - 1] != ch) by {
            if s[b - 1] == ch {
                lemma_count_at_least_one(s, a, b - 1, ch, k);
            }
        }
        lemma_single_char(s, a, b - 1, ch, k);
    }
}

proof fn lemma_count_at_least_one(s: Seq<char>, a: int, b: int, ch: char, k: int)
    requires
        0 <= a <= k < b <= s.len(),
        s[k] == ch,
    ensures
        count_char(s, a, b, ch) >= 1,
    decreases b - a,
{
    if k < b - 1 {
        lemma_count_at_least_one(s, a, b - 1, ch, k);
    }
}

/// Law: an offered completion replaces a range of the placeholder around
/// the cursor: the range starts at or before the cursor and ends at or
/// after it, lies within the text, holds no brace or colon, follows the
/// placeholder's `{` (a field name) or its `:` (a type), and what was typed
/// is the part of it before the cursor.
pub proof fn law_completion_range_brackets_the_cursor(s: Seq<char>, cursor: int)
    requires
        cursor >= 0,
        completion_plan(s, cursor) is Some,
    ensures
        ({
            let c = if cursor < s.len() { cursor } else { s.len() as int };
            let (rs, re, ts, te, types) = completion_plan(s, cursor)->0;
            &&& 1 <= rs <= c <= re <= s.len()
            &&& ts == rs && te == c
            &&& forall|j: int| rs <= j < re ==> s[j] != '{' && s[j] != '}' && s[j] != ':'
            &&& if types { s[rs - 1] == ':' } else { s[rs - 1] == '{' }
        }),
{
    let c = if cursor < s.len() { cursor } else { s.len() as int };
    lemma_last_open_before(s, c);
    let o = last_open_before(s, c);
    lemma_first_index_of(s, c, s.len() as int, '}');
    let e = first_index_of(s, c, s.len() as int, '}');
    lemma_first_index_of(s, o + 1, e, ':');
    let k = first_index_of(s, o + 1, e, ':');
    assert forall|j: int| o + 1 <= j < e implies s[j] != '{' && s[j] != '}' by {
        if j < c {
            if s[j] == '}' {
                assert(has_char(s, o + 1, c, '}'));
            }
        }
        if s[j] == '{' {
            assert(has_char(s, o + 1, e, '{'));
        }
    }
    if k < e {
        lemma_single_char(s, o + 1, e, ':', k);
    }
}

} // verus!
