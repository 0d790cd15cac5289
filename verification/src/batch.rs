use vstd::prelude::*;

verus! {

/// A best-effort batch of engine configuration calls: the caller
/// performs one call at a time and reports each outcome back. A failed
/// call is counted and skipped, never retried, and never aborts the
/// batch — partial configuration is preferable to aborting the whole
/// refresh.
pub struct PushBatch<T> {
    pub calls: Vec<T>,
    pub next: usize,
    pub failures: usize,
}

/// The call the batch schedules next, if any: always the first one not
/// yet performed, regardless of how the earlier ones fared.
pub open spec fn spec_next_call<T>(b: PushBatch<T>) -> Option<T> {
    if b.next < b.calls@.len() {
        Some(b.calls@[b.next as int])
    } else {
        None
    }
}

impl<T: Copy> PushBatch<T> {
    pub open spec fn wf(&self) -> bool {
        self.next <= self.calls@.len() && self.failures <= self.next
    }

    /// A fresh batch over the given calls, none performed yet.
    pub fn new(calls: Vec<T>) -> (r: PushBatch<T>)
        ensures
            r.wf(),
            r.calls@ == calls@,
            r.next == 0,
            r.failures == 0,
    {
        PushBatch { calls, next: 0, failures: 0 }
    }

    /// The next call to perform, or nothing when the batch is done.
    pub fn next_call(&self) -> (r: Option<T>)
        ensures
            r == spec_next_call(*self),
    {
        if self.next < self.calls.len() {
            Some(self.calls[self.next])
        } else {
            None
        }
    }

    /// Record the outcome of the call just performed. The batch advances
    /// past it either way: a failure only bumps the failure count.
    pub fn record(&mut self, ok: bool)
        requires
            old(self).wf(),
            old(self).next < old(self).calls@.len(),
        ensures
            final(self).wf(),
            final(self).calls@ == old(self).calls@,
            final(self).next == old(self).next + 1,
            final(self).failures == old(self).failures + (if ok {
                0int
            } else {
                1
            }),
    {
        let _len: usize = self.calls.len();
        self.next = self.next + 1;
        if !ok {
            self.failures = self.failures + 1;
        }
    }

    /// Whether every call of the batch has been performed.
    pub fn done(&self) -> (r: bool)
        requires
            self.wf(),
        ensures
            r == (self.next == self.calls@.len()),
    {
        self.next == self.calls.len()
    }
}

/// Partial-failure tolerance: what a batch still schedules depends only
/// on its calls and on how many were performed — never on how many of
/// them failed. Two batches over the same calls at the same position
/// schedule the same next call, whatever their failure counts.
pub proof fn lemma_failures_do_not_affect_schedule<T>(a: PushBatch<T>, b: PushBatch<T>)
    requires
        a.calls@ == b.calls@,
        a.next == b.next,
    ensures
        spec_next_call(a) == spec_next_call(b),
{
}

} // verus!
