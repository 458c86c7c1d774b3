//! The lifecycle of the process-wide execution runtime, as a state
//! machine the host integration layer drives: brought up once when the
//! library is loaded, torn down once when it is unloaded, with each
//! worker attached to the host environment once, at thread start.

use vstd::prelude::*;

verus! {

/// Where the process-wide runtime stands in its lifecycle.
#[derive(Clone, Copy, PartialEq, Eq, Structural, Debug)]
pub enum RuntimePhase {
    Idle,
    Running,
    Stopped,
}

/// The runtime lifecycle: phase and worker count.  The host calls `init`
/// exactly once at load and `shutdown` exactly once at unload; the
/// contracts refuse a second of either.
#[derive(Clone, Copy, PartialEq, Eq, Structural, Debug)]
pub struct RuntimeLifecycle {
    pub phase: RuntimePhase,
    pub workers: u64,
}

impl RuntimeLifecycle {
    /// A runtime not yet brought up.
    pub fn new() -> (r: RuntimeLifecycle)
        ensures
            r.phase == RuntimePhase::Idle,
            r.workers == 0u64,
    {
        RuntimeLifecycle { phase: RuntimePhase::Idle, workers: 0 }
    }

    /// Bring the runtime up with one worker per processor, each attached
    /// to the host environment as it starts.  Only an idle runtime can be
    /// brought up, and only once.
    pub fn init(&mut self, workers: u64)
        requires
            old(self).phase == RuntimePhase::Idle,
            workers >= 1,
        ensures
            final(self).phase == RuntimePhase::Running,
            final(self).workers == workers,
    {
        self.phase = RuntimePhase::Running;
        self.workers = workers;
    }

    /// Tear the runtime down.  Only a running runtime can be torn down,
    /// and it never runs again.
    pub fn shutdown(&mut self)
        requires
            old(self).phase == RuntimePhase::Running,
        ensures
            final(self).phase == RuntimePhase::Stopped,
            final(self).workers == old(self).workers,
    {
        self.phase = RuntimePhase::Stopped;
    }

    /// Whether operations may be driven now.
    pub fn is_running(&self) -> (r: bool)
        ensures
            r == (self.phase == RuntimePhase::Running),
    {
        match self.phase {
            RuntimePhase::Running => true,
            _ => false,
        }
    }
}

} // verus!
