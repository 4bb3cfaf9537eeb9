//! What the log-format editor says of a preview: how many sample lines
//! started records, the role of each line, the type shown for each field,
//! and the note on ignored header values.

use vstd::prelude::*;

use crate::text::{decimal, push_decimal, push_str, str_eq};

verus! {

/// The number of lines that start a record.
pub open spec fn records_in(starts: Seq<bool>) -> nat
    decreases starts.len(),
{
    if starts.len() == 0 {
        0
    } else {
        records_in(starts.drop_last()) + if starts.last() {
            1nat
        } else {
            0nat
        }
    }
}

/// `records_in` never exceeds the number of lines.
pub proof fn lemma_records_at_most_lines(starts: Seq<bool>)
    ensures
        records_in(starts) <= starts.len(),
    decreases starts.len(),
{
    if starts.len() > 0 {
        lemma_records_at_most_lines(starts.drop_last());
    }
}

/// Counts the lines that start a record.
pub fn count_records(starts: &[bool]) -> (count: usize)
    ensures
        count == records_in(starts@),
{
    let mut count: usize = 0;
    let mut i: usize = 0;
    while i < starts.len()
        invariant
            i <= starts.len(),
            count == records_in(starts@.take(i as int)),
            count <= i,
        decreases starts.len() - i,
    {
        proof {
            assert(starts@.take(i + 1).drop_last() =~= starts@.take(i as int));
        }
        if starts[i] {
            count += 1;
        }
        i += 1;
    }
    proof {
        assert(starts@.take(i as int) =~= starts@);
    }
    count
}

/// `s` when `n` is not one.
pub open spec fn plural(n: nat) -> Seq<char> {
    if n == 1 {
        ""@
    } else {
        "s"@
    }
}

/// What the editor says when no sample line started a record.
pub const NO_RECORDS: &'static str = "No sample records matched. Check literal separators and field types.";

/// The summary of a preview whose lines start records as `starts` says.
pub open spec fn summary_text(starts: Seq<bool>) -> Seq<char> {
    let matched = records_in(starts);
    if matched == 0 {
        NO_RECORDS@
    } else {
        let continuations = (starts.len() - matched) as nat;
        "Sample matched · "@ + decimal(matched) + " record"@ + plural(matched) + " · "@ + decimal(
            continuations,
        ) + " continuation"@ + plural(continuations)
    }
}

fn push_plural(s: &mut String, n: usize)
    ensures
        final(s)@ == old(s)@ + plural(n as nat),
{
    if n != 1 {
        push_str(s, "s");
    } else {
        proof {
            reveal_strlit("");
            assert(old(s)@ + ""@ =~= old(s)@);
        }
    }
}

/// The summary line of a preview (see `summary_text`).
pub fn preview_summary(starts: &[bool]) -> (summary: String)
    ensures
        summary@ == summary_text(starts@),
{
    let matched = count_records(starts);
    if matched == 0 {
        return NO_RECORDS.to_owned();
    }
    proof {
        lemma_records_at_most_lines(starts@);
    }
    let continuations = starts.len() - matched;
    let mut summary = "Sample matched · ".to_owned();
    push_decimal(&mut summary, matched as u64);
    push_str(&mut summary, " record");
    push_plural(&mut summary, matched);
    push_str(&mut summary, " · ");
    push_decimal(&mut summary, continuations as u64);
    push_str(&mut summary, " continuation");
    push_plural(&mut summary, continuations);
    summary
}

/// The role of a sample line in a preview.
#[derive(Clone, Copy, Debug, PartialEq, Eq, Structural)]
pub enum LineClass {
    /// It starts a record.
    Header,
    /// It comes before the first record.
    Unassigned,
    /// It continues the record above it.
    Continuation,
}

/// The role of line `i` when lines start records as `starts` says.
pub open spec fn line_class(starts: Seq<bool>, i: int) -> LineClass {
    if starts[i] {
        LineClass::Header
    } else if exists|j: int| 0 <= j < i && #[trigger] starts[j] {
        LineClass::Continuation
    } else {
        LineClass::Unassigned
    }
}

/// The role of each sample line.
pub fn line_classes(starts: &[bool]) -> (classes: Vec<LineClass>)
    ensures
        classes.len() == starts.len(),
        forall|i: int| 0 <= i < starts.len() ==> #[trigger] classes@[i] == line_class(starts@, i),
{
    let mut classes: Vec<LineClass> = Vec::new();
    let mut seen_record = false;
    let mut i: usize = 0;
    while i < starts.len()
        invariant
            i <= starts.len(),
            classes.len() == i,
            seen_record == exists|j: int| 0 <= j < i && #[trigger] starts@[j],
            forall|k: int| 0 <= k < i ==> #[trigger] classes@[k] == line_class(starts@, k),
        decreases starts.len() - i,
    {
        let class = if starts[i] {
            LineClass::Header
        } else if !seen_record {
            LineClass::Unassigned
        } else {
            LineClass::Continuation
        };
        classes.push(class);
        if starts[i] {
            seen_record = true;
        }
        proof {
            assert(seen_record == exists|j: int| 0 <= j < i + 1 && #[trigger] starts@[j]) by {
                if starts@[i as int] {
                    assert(0 <= i < i + 1 && starts@[i as int]);
                }
            }
        }
        i += 1;
    }
    classes
}

/// The type shown for a field: the one the preview gives for its name,
/// first match first, or `token`.
pub open spec fn shown_field_type(field_types: Seq<(String, &str)>, name: Seq<char>) -> Seq<char>
    decreases field_types.len(),
{
    if field_types.len() == 0 {
        "token"@
    } else if field_types[0].0@ == name {
        field_types[0].1@
    } else {
        shown_field_type(field_types.drop_first(), name)
    }
}

/// The type shown for field `name` (see `shown_field_type`).
pub fn field_type<'a>(field_types: &[(String, &'a str)], name: &str) -> (kind: &'a str)
    ensures
        kind@ == shown_field_type(field_types@, name@),
{
    let mut i: usize = 0;
    proof {
        assert(field_types@.skip(0) =~= field_types@);
    }
    while i < field_types.len()
        invariant
            i <= field_types.len(),
            shown_field_type(field_types@.skip(i as int), name@) == shown_field_type(field_types@, name@),
        decreases field_types.len() - i,
    {
        proof {
            assert(field_types@.skip(i as int).drop_first() =~= field_types@.skip(i + 1));
            assert(field_types@.skip(i as int)[0] == field_types@[i as int]);
        }
        if str_eq(field_types[i].0.as_str(), name) {
            return field_types[i].1;
        }
        i += 1;
    }
    "token"
}

/// The note on header values that matched an ignored placeholder, when any did.
pub fn ignored_note(ignored: usize) -> (note: Option<String>)
    ensures
        ignored == 0 ==> note is None,
        ignored > 0 ==> (note matches Some(text) && text@ == decimal(ignored as nat) + " ignored header value"@
            + plural(ignored as nat) + " matched. They are used only to recognize headers."@),
{
    if ignored == 0 {
        return None;
    }
    let mut text = String::new();
    push_decimal(&mut text, ignored as u64);
    push_str(&mut text, " ignored header value");
    push_plural(&mut text, ignored);
    push_str(&mut text, " matched. They are used only to recognize headers.");
    proof {
        assert(text@ =~= decimal(ignored as nat) + " ignored header value"@ + plural(ignored as nat)
            + " matched. They are used only to recognize headers."@);
    }
    Some(text)
}

} // verus!
