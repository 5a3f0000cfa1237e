//! The worker registry and shutdown coordinator.
//!
//! The process runs in one of two phases: `Running`, in which accepted
//! connections are handed to freshly registered workers, and
//! `Draining`, entered when the interrupt signal arrives, in which the
//! process waits for the registered workers one by one.  The coordinator
//! counts the workers in flight and permits exit only once every
//! registered worker has been drained.

use vstd::prelude::*;

verus! {

/// The two phases of the process's life.
pub enum Phase {
    /// Accepting connections and registering workers.
    Running,
    /// The interrupt signal has arrived; no further work is taken up and
    /// the registered workers are being waited on.
    Draining,
}

/// Tracks the workers in flight.  `pending` counts the workers
/// registered and not yet drained; the ghost counters record how many
/// registrations and completions there have ever been.
pub struct Coordinator {
    /// The current phase.
    pub phase: Phase,
    /// Workers registered and not yet drained.
    pub pending: u64,
    /// Total workers ever registered.
    pub registered: Ghost<nat>,
    /// Total workers waited on to completion.
    pub drained: Ghost<nat>,
}

impl Coordinator {
    /// The counter invariant: every registered worker is either still
    /// pending or has been drained.
    pub open spec fn wf(&self) -> bool {
        self.drained@ + self.pending as nat == self.registered@
    }

    /// Whether the coordinator is in the draining phase.
    pub open spec fn is_draining(&self) -> bool {
        self.phase is Draining
    }

    /// A fresh coordinator: running, with no worker in flight.
    pub fn new() -> (r: Coordinator)
        ensures
            r.wf(),
            !r.is_draining(),
            r.pending == 0,
            r.registered@ == 0,
            r.drained@ == 0,
    {
        Coordinator { phase: Phase::Running, pending: 0, registered: Ghost(0), drained: Ghost(0) }
    }

    /// Register one newly spawned worker.
    pub fn register(&mut self)
        requires
            old(self).wf(),
            old(self).pending < u64::MAX,
        ensures
            final(self).wf(),
            final(self).pending == old(self).pending + 1,
            final(self).registered@ == old(self).registered@ + 1,
            final(self).drained@ == old(self).drained@,
            final(self).is_draining() == old(self).is_draining(),
    {
        self.pending = self.pending + 1;
        self.registered = Ghost(self.registered@ + 1);
    }

    /// Record the interrupt signal: the phase becomes draining and no
    /// counter moves.
    pub fn signal(&mut self)
        requires
            old(self).wf(),
        ensures
            final(self).wf(),
            final(self).is_draining(),
            final(self).pending == old(self).pending,
            final(self).registered@ == old(self).registered@,
            final(self).drained@ == old(self).drained@,
    {
        self.phase = Phase::Draining;
    }

    /// Record that one worker has been waited on to completion.
    pub fn worker_done(&mut self)
        requires
            old(self).wf(),
            old(self).pending > 0,
        ensures
            final(self).wf(),
            final(self).pending == old(self).pending - 1,
            final(self).registered@ == old(self).registered@,
            final(self).drained@ == old(self).drained@ + 1,
            final(self).is_draining() == old(self).is_draining(),
    {
        self.pending = self.pending - 1;
        self.drained = Ghost(self.drained@ + 1);
    }

    /// Whether the process may exit: only in the draining phase, and
    /// only once no worker is left in flight.
    pub fn may_exit(&self) -> (r: bool)
        ensures
            r <==> (self.is_draining() && self.pending == 0),
    {
        match self.phase {
            Phase::Draining => self.pending == 0,
            Phase::Running => false,
        }
    }
}

/// Law: after the interrupt signal, the process does not exit while any
/// registered worker is unfinished — whenever exit is permitted, every
/// worker ever registered has been drained.
pub proof fn lemma_exit_only_after_drain(c: Coordinator)
    requires
        c.wf(),
        c.is_draining(),
        c.pending == 0,
    ensures
        c.drained@ == c.registered@,
{
}

} // verus!
