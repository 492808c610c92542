//! Accounting for the task pipeline's in-flight work.
//!
//! Every unit of work — a download, a recursive resolution, a blocking
//! extraction — is counted in before it starts and counted out when it
//! finishes, on every exit path. The completion barrier may let the run
//! proceed only once the in-flight count is zero; the lemma below states why
//! that is safe: with the books well kept, a zero count means every unit that
//! was ever started has finished.

use vstd::prelude::*;

verus! {

/// The in-flight-work ledger: how many units have started and how many have
/// finished.
pub struct TaskAllocator {
    started: usize,
    finished: usize,
}

impl TaskAllocator {
    /// How many units have been counted in.
    pub closed spec fn spec_started(&self) -> usize {
        self.started
    }

    /// How many units have been counted out.
    pub closed spec fn spec_finished(&self) -> usize {
        self.finished
    }

    /// The books are well kept: nothing finishes before it starts.
    pub open spec fn wf(&self) -> bool {
        self.spec_finished() <= self.spec_started()
    }

    /// Units in flight: started and not yet finished.
    pub open spec fn spec_active(&self) -> int {
        self.spec_started() - self.spec_finished()
    }

    /// A fresh ledger with nothing in flight.
    pub fn new() -> (r: Self)
        ensures
            r.wf(),
            r.spec_started() == 0,
            r.spec_finished() == 0,
    {
        TaskAllocator { started: 0, finished: 0 }
    }

    /// Counts one unit in, before it starts.
    pub fn increment_tasks(&mut self)
        requires
            old(self).wf(),
            old(self).spec_started() < usize::MAX,
        ensures
            final(self).wf(),
            final(self).spec_started() == old(self).spec_started() + 1,
            final(self).spec_finished() == old(self).spec_finished(),
    {
        self.started = self.started + 1;
    }

    /// Counts one unit out, after it finishes.
    pub fn decrement_tasks(&mut self)
        requires
            old(self).wf(),
            old(self).spec_active() > 0,
        ensures
            final(self).wf(),
            final(self).spec_started() == old(self).spec_started(),
            final(self).spec_finished() == old(self).spec_finished() + 1,
    {
        self.finished = self.finished + 1;
    }

    /// The in-flight count the barrier polls.
    pub fn active_tasks(&self) -> (n: usize)
        requires
            self.wf(),
        ensures
            n == self.spec_active(),
    {
        self.started - self.finished
    }
}

/// Barrier correctness: when the in-flight count reads zero, every unit that
/// was ever started has finished — the barrier cannot release while any
/// spawned unit, however deeply nested its spawner, is still outstanding.
pub proof fn lemma_idle_means_done(t: &TaskAllocator)
    requires
        t.wf(),
        t.spec_active() == 0,
    ensures
        t.spec_started() == t.spec_finished(),
{
}

} // verus!
