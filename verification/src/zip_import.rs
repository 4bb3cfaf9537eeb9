//! The queue of ZIP archives waiting to be extracted: one extraction runs
//! at a time, a failed one holds the queue until its error is dismissed,
//! and an archive already queued or running is not queued again. `P` is
//! the path type.

use std::collections::VecDeque;

use vstd::prelude::*;
use vstd::std_specs::cmp::PartialEqSpec;

verus! {

/// Archives waiting, the one being extracted, and the last failure.
pub struct ZipImports<P> {
    pub pending: VecDeque<P>,
    pub active: Option<P>,
    pub error: Option<String>,
}

/// `path` is already waiting or being extracted.
pub open spec fn already_queued<P: PartialEq>(pending: Seq<P>, active: Option<P>, path: P) -> bool {
    (exists|k: int| 0 <= k < pending.len() && (#[trigger] pending[k]).eq_spec(&path)) || (active matches Some(
        a,
    ) && a.eq_spec(&path))
}

impl<P: PartialEq> ZipImports<P> {
    /// An empty, idle queue.
    pub fn new() -> (queue: ZipImports<P>)
        ensures
            queue.pending@.len() == 0,
            queue.active is None,
            queue.error is None,
    {
        ZipImports { pending: VecDeque::new(), active: None, error: None }
    }

    /// Something needs the user's attention: an extraction or an error.
    pub fn has_interactive_surface(&self) -> (shown: bool)
        ensures
            shown == (self.active is Some || self.error is Some),
    {
        self.active.is_some() || self.error.is_some()
    }

    /// Queues an archive unless it is already waiting or being extracted
    /// (as the path type's equality tells): the archive is added at the end
    /// or the queue stays as it was, and which of the two is stated for path
    /// types whose equality obeys its specification.
    pub fn enqueue(&mut self, path: P)
        ensures
            final(self).active == old(self).active,
            final(self).error == old(self).error,
            final(self).pending@ == old(self).pending@ || final(self).pending@ == old(self).pending@.push(path),
            P::obeys_eq_spec() ==> final(self).pending@ == if already_queued(old(self).pending@, old(self).active, path) {
                old(self).pending@
            } else {
                old(self).pending@.push(path)
            },
    {
        let mut found = false;
        let mut k: usize = 0;
        while k < self.pending.len()
            invariant
                k <= self.pending@.len(),
                P::obeys_eq_spec() ==> (found <==> exists|j: int| 0 <= j < k && (#[trigger] self.pending@[j]).eq_spec(&path)),
            decreases self.pending@.len() - k,
        {
            if self.pending[k] == path {
                found = true;
            }
            k += 1;
        }
        let in_flight = match &self.active {
            Some(active) => *active == path,
            None => false,
        };
        if !found && !in_flight {
            self.pending.push_back(path);
        }
    }

    /// Moves the next archive to extraction when none runs and no error is
    /// shown; tells whether one started.
    pub fn start_next(&mut self) -> (started: bool)
        ensures
            final(self).error == old(self).error,
            if old(self).active is None && old(self).error is None && old(self).pending@.len() > 0 {
                &&& started
                &&& final(self).active == Some(old(self).pending@[0])
                &&& final(self).pending@ == old(self).pending@.drop_first()
            } else {
                &&& !started
                &&& final(self).active == old(self).active
                &&& final(self).pending@ == old(self).pending@
            },
    {
        if self.active.is_some() || self.error.is_some() {
            return false;
        }
        match self.pending.pop_front() {
            Some(path) => {
                self.active = Some(path);
                true
            },
            None => false,
        }
    }

    /// Ends the running extraction, keeping its error message if it failed.
    pub fn finish(&mut self, failure: Option<String>)
        ensures
            final(self).active is None,
            final(self).pending@ == old(self).pending@,
            final(self).error == match failure {
                Some(message) => Some(message),
                None => old(self).error,
            },
    {
        self.active = None;
        match failure {
            Some(message) => {
                self.error = Some(message);
            },
            None => {},
        }
    }
}

} // verus!
