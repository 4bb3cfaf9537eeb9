//! Filter suggestions offered from the history of recently used filters.

use vstd::prelude::*;

use crate::text::str_eq;

verus! {

/// A filter the user applied before.
#[derive(Debug)]
pub struct RecentFilter {
    pub text: String,
    pub case_sensitive: bool,
    pub regex: bool,
}

/// A recent filter as plain values.
pub open spec fn recent_view(f: RecentFilter) -> (Seq<char>, bool, bool) {
    (f.text@, f.case_sensitive, f.regex)
}

/// Some active filter has this text.
pub open spec fn is_active(active: Seq<String>, text: Seq<char>) -> bool {
    exists|k: int| 0 <= k < active.len() && #[trigger] active[k]@ == text
}

/// The recent filters, in order, whose text no active filter has.
pub open spec fn suggestions(history: Seq<RecentFilter>, active: Seq<String>) -> Seq<(Seq<char>, bool, bool)>
    decreases history.len(),
{
    if history.len() == 0 {
        Seq::empty()
    } else {
        let earlier = suggestions(history.drop_last(), active);
        if is_active(active, history.last().text@) {
            earlier
        } else {
            earlier.push(recent_view(history.last()))
        }
    }
}

fn text_is_active(active: &[String], text: &str) -> (found: bool)
    ensures
        found == is_active(active@, text@),
{
    let mut k: usize = 0;
    while k < active.len()
        invariant
            k <= active@.len(),
            forall|j: int| 0 <= j < k ==> active@[j]@ != text@,
        decreases active@.len() - k,
    {
        if str_eq(active[k].as_str(), text) {
            return true;
        }
        k += 1;
    }
    false
}

/// The recent filters worth suggesting: those whose text is not already an
/// active filter, in history order.
pub fn recent_filter_suggestions(history: &[RecentFilter], active_filter_texts: &[String]) -> (offered: Vec<RecentFilter>)
    ensures
        offered@.map_values(|f: RecentFilter| recent_view(f)) == suggestions(history@, active_filter_texts@),
{
    let mut offered: Vec<RecentFilter> = Vec::new();
    let mut k: usize = 0;
    while k < history.len()
        invariant
            k <= history@.len(),
            offered@.map_values(|f: RecentFilter| recent_view(f)) == suggestions(history@.take(k as int), active_filter_texts@),
        decreases history@.len() - k,
    {
        proof {
            assert(history@.take(k + 1).drop_last() =~= history@.take(k as int));
        }
        let entry = &history[k];
        if !text_is_active(active_filter_texts, entry.text.as_str()) {
            let ghost before = offered@;
            offered.push(RecentFilter { text: entry.text.clone(), case_sensitive: entry.case_sensitive, regex: entry.regex });
            proof {
                assert(offered@.map_values(|f: RecentFilter| recent_view(f)) =~= before.map_values(
                    |f: RecentFilter| recent_view(f),
                ).push(recent_view(*entry)));
            }
        }
        k += 1;
    }
    proof {
        assert(history@.take(k as int) =~= history@);
    }
    offered
}

} // verus!
