//! Counting admission gate: a task must acquire a slot before running and
//! must release it unconditionally afterward, so a failed task never leaks
//! a slot.

use vstd::prelude::*;

verus! {

/// A counting concurrency limiter. At most `limit` slots can be held at
/// once; `active` counts the slots currently held.
pub struct AdmissionGate {
    pub limit: usize,
    pub active: usize,
}

/// The limiter state after one slot is acquired.
pub open spec fn spec_acquire(g: AdmissionGate) -> AdmissionGate {
    AdmissionGate { limit: g.limit, active: (g.active + 1) as usize }
}

/// The limiter state after one slot is released.
pub open spec fn spec_release(g: AdmissionGate) -> AdmissionGate {
    AdmissionGate { limit: g.limit, active: (g.active - 1) as usize }
}

impl AdmissionGate {
    /// A gate never admits more tasks than its limit.
    pub open spec fn wf(self) -> bool {
        self.active <= self.limit
    }

    pub open spec fn spec_limit(self) -> usize {
        self.limit
    }

    pub open spec fn spec_active(self) -> usize {
        self.active
    }

    pub fn new(limit: usize) -> (g: Self)
        requires
            limit >= 1,
        ensures
            g.wf(),
            g.spec_limit() == limit,
            g.spec_active() == 0,
    {
        AdmissionGate { limit, active: 0 }
    }

    /// How many more tasks the limiter can admit right now.
    pub fn available(&self) -> (r: usize)
        requires
            self.wf(),
        ensures
            r == self.spec_limit() - self.spec_active(),
    {
        self.limit - self.active
    }

    /// Admit one task if a slot is free; otherwise nothing changes.
    pub fn try_acquire(&mut self) -> (admitted: bool)
        requires
            old(self).wf(),
        ensures
            final(self).wf(),
            admitted == (old(self).spec_active() < old(self).spec_limit()),
            admitted ==> *final(self) == spec_acquire(*old(self)),
            !admitted ==> *final(self) == *old(self),
    {
        if self.active < self.limit {
            self.active = self.active + 1;
            true
        } else {
            false
        }
    }

    /// Give a slot back. Called on every exit path of a task, so the
    /// count held never drifts.
    pub fn release(&mut self)
        requires
            old(self).wf(),
            old(self).spec_active() >= 1,
        ensures
            final(self).wf(),
            *final(self) == spec_release(*old(self)),
    {
        self.active = self.active - 1;
    }
}

/// Releasing right after acquiring restores the limiter exactly: an admitted
/// task that fails at once leaves the available-slot count where it found it.
pub proof fn lemma_release_restores_gate(g: AdmissionGate)
    requires
        g.wf(),
        g.spec_active() < g.spec_limit(),
    ensures
        spec_release(spec_acquire(g)) == g,
{
}

} // verus!
