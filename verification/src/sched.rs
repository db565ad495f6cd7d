//! The pipeline scheduler's bookkeeping: a fixed ceiling on how many
//! page tasks run at once. Starting a task waits for a free slot; a
//! task's failure is recorded and never stops its siblings. The caller
//! runs the tasks; every throttling decision is taken here.

use vstd::prelude::*;

verus! {

/// The bookkeeping of a bounded-concurrency run over a fixed batch of
/// page tasks.
pub struct Scheduler {
    /// The concurrency ceiling.
    pub limit: usize,
    /// How many tasks the batch holds.
    pub total: usize,
    /// How many tasks have been started so far.
    pub started: usize,
    /// How many started tasks have finished, with either outcome.
    pub completed: usize,
    /// How many finished tasks reported failure.
    pub failed: usize,
}

impl Scheduler {
    /// The number of tasks running right now.
    pub open spec fn in_flight(self) -> int {
        self.started - self.completed
    }

    /// The scheduler invariant: completions never outrun starts,
    /// starts never outrun the batch, failures never outrun
    /// completions, and the tasks in flight never exceed the ceiling.
    pub open spec fn wf(self) -> bool {
        &&& self.limit >= 1
        &&& self.completed <= self.started <= self.total
        &&& self.failed <= self.completed
        &&& self.in_flight() <= self.limit
    }

    /// Starts a run of `total` tasks under a ceiling of `limit`.
    pub fn new(limit: usize, total: usize) -> (r: Scheduler)
        requires
            limit >= 1,
        ensures
            r.wf(),
            r.limit == limit,
            r.total == total,
            r.started == 0,
            r.completed == 0,
            r.failed == 0,
    {
        Scheduler { limit, total, started: 0, completed: 0, failed: 0 }
    }

    /// Whether one more task may start now: a free slot under the ceiling
    /// and a task left in the batch.
    pub fn can_start(&self) -> (r: bool)
        requires
            self.wf(),
        ensures
            r == (self.in_flight() < self.limit && self.started < self.total),
    {
        self.started - self.completed < self.limit && self.started < self.total
    }

    /// Starts the next task of the batch.
    pub fn start_task(&mut self)
        requires
            old(self).wf(),
            old(self).in_flight() < old(self).limit,
            old(self).started < old(self).total,
        ensures
            final(self).wf(),
            final(self).started == old(self).started + 1,
            final(self).completed == old(self).completed,
            final(self).failed == old(self).failed,
            final(self).limit == old(self).limit,
            final(self).total == old(self).total,
    {
        self.started = self.started + 1;
    }

    /// Records one finished task; a failure is counted and the run goes
    /// on.
    pub fn on_complete(&mut self, success: bool)
        requires
            old(self).wf(),
            old(self).in_flight() > 0,
        ensures
            final(self).wf(),
            final(self).completed == old(self).completed + 1,
            final(self).failed == old(self).failed + (if success { 0int } else { 1int }),
            final(self).started == old(self).started,
            final(self).limit == old(self).limit,
            final(self).total == old(self).total,
            final(self).in_flight() == old(self).in_flight() - 1,
    {
        self.completed = self.completed + 1;
        if !success {
            self.failed = self.failed + 1;
        }
    }

    /// Whether every task of the batch has been started and has
    /// finished: the run completed, whatever the failure count.
    pub fn all_done(&self) -> (r: bool)
        requires
            self.wf(),
        ensures
            r == (self.started == self.total && self.completed == self.total),
    {
        self.started == self.total && self.completed == self.total
    }
}

/// The ceiling holds throughout a run: every operation of the scheduler
/// keeps the invariant, so a well-formed scheduler never has more than
/// `limit` tasks in flight; and a run is done only once every task of the
/// batch has reported a result — with nothing left running and the
/// failure count within the batch — so all results are eventually
/// reported whatever the failures.
pub proof fn lemma_ceiling_and_completion(s: Scheduler)
    requires
        s.wf(),
    ensures
        s.in_flight() <= s.limit,
        s.started == s.total && s.completed == s.total ==> s.in_flight() == 0 && s.failed
            <= s.total,
{
}

} // verus!
