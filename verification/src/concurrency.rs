//! The admission gate of the concurrency-limit layer: a counting
//! semaphore bounding in-flight operations.  The task runtime drives it —
//! an operation acquires a permit before dispatch, suspends while none is
//! free, and releases it when done.  A nested call made while its outer
//! operation holds a permit skips the counter; deadlock cannot arise
//! when composite operations run inside the same limit.

use vstd::prelude::*;

verus! {

/// A counting admission gate: at most `permits` operations in flight.
#[derive(Clone, Copy, PartialEq, Eq, Structural, Debug)]
pub struct Gate {
    pub permits: u64,
    pub in_flight: u64,
}

impl Gate {
    /// In-flight operations never exceed the limit, which is positive.
    pub open spec fn wf(&self) -> bool {
        &&& self.permits >= 1
        &&& self.in_flight <= self.permits
    }

    /// A fresh gate with the given limit and nothing in flight.
    pub fn new(permits: u64) -> (r: Gate)
        requires
            permits >= 1,
        ensures
            r.wf(),
            r.permits == permits,
            r.in_flight == 0u64,
    {
        Gate { permits, in_flight: 0 }
    }

    /// Let one operation through if a permit is free: accepted exactly when
    /// fewer operations are in flight than the limit; a refused caller
    /// suspends and asks again after a release.
    pub fn try_acquire(&mut self) -> (accepted: bool)
        requires
            old(self).wf(),
        ensures
            final(self).wf(),
            final(self).permits == old(self).permits,
            accepted == (old(self).in_flight < old(self).permits),
            accepted ==> final(self).in_flight == old(self).in_flight + 1,
            !accepted ==> *final(self) == *old(self),
    {
        if self.in_flight < self.permits {
            self.in_flight = self.in_flight + 1;
            true
        } else {
            false
        }
    }

    /// Release the permit of a completed operation.
    pub fn release(&mut self)
        requires
            old(self).wf(),
            old(self).in_flight >= 1,
        ensures
            final(self).wf(),
            final(self).permits == old(self).permits,
            final(self).in_flight == old(self).in_flight - 1,
    {
        self.in_flight = self.in_flight - 1;
    }
}

/// A full gate refuses the next operation, and accepts it again once one
/// of the accepted operations completes and releases: the one-past-the-
/// limit caller gets in only after a completion.
pub proof fn lemma_gate_accepts_after_release(g: Gate)
    requires
        g.wf(),
        g.in_flight == g.permits,
    ensures
        !(g.in_flight < g.permits),
        (Gate { in_flight: (g.in_flight - 1) as u64, ..g }).in_flight < g.permits,
{
}

} // verus!
