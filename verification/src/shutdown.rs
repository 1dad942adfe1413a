//! Shutdown coordination: one process-wide flag that starts cleared, is set
//! by a shutdown request and is never cleared again.
//!
//! The flag itself is plain data. The program keeps it behind a lock and
//! pairs it with a condition: after every request it wakes all waiters, and
//! a waiter asks [`ShutdownFlag::wait_step`] on entry and after every wakeup,
//! so a wakeup without a request sends it back to waiting.

use vstd::prelude::*;

verus! {

/// What a waiter does next.
#[derive(Debug, Clone, Copy, PartialEq, Eq, Structural)]
pub enum WaitStep {
    /// No shutdown was requested: block until the next wakeup, then ask again.
    Block,
    /// Shutdown was requested: stop waiting.
    Proceed,
}

/// The shutdown flag.
#[derive(Debug)]
pub struct ShutdownFlag {
    requested: bool,
}

impl ShutdownFlag {
    /// Whether shutdown has been requested.
    pub closed spec fn is_set(&self) -> bool {
        self.requested
    }

    /// The flag once a request has reached it.
    pub closed spec fn after_request(self) -> ShutdownFlag {
        ShutdownFlag { requested: true }
    }

    /// What a waiter that looks at this flag does next.
    pub open spec fn wait_decision(&self) -> WaitStep {
        if self.is_set() {
            WaitStep::Proceed
        } else {
            WaitStep::Block
        }
    }

    /// A flag on which nothing has been requested.
    pub fn new() -> (flag: Self)
        ensures
            !flag.is_set(),
    {
        ShutdownFlag { requested: false }
    }

    /// Requests shutdown. The first request sets the flag; later ones leave
    /// it set.
    pub fn request_shutdown(&mut self)
        ensures
            *final(self) == old(self).after_request(),
            final(self).is_set(),
    {
        self.requested = true;
    }

    /// Reads the flag.
    pub fn is_requested(&self) -> (requested: bool)
        ensures
            requested == self.is_set(),
    {
        self.requested
    }

    /// Decides for a waiter, on entry and after each wakeup, whether to
    /// block again or to proceed.
    pub fn wait_step(&self) -> (step: WaitStep)
        ensures
            step == self.wait_decision(),
    {
        if self.requested {
            WaitStep::Proceed
        } else {
            WaitStep::Block
        }
    }
}

/// A request sets the flag whatever it was before, and sets it for good:
/// a second request changes nothing.
pub proof fn lemma_request_is_idempotent(flag: ShutdownFlag)
    ensures
        flag.after_request().is_set(),
        flag.after_request().after_request() == flag.after_request(),
{
}

/// A waiter proceeds exactly when shutdown was requested: a wakeup that
/// finds the flag cleared sends it back to waiting, and after a request
/// every waiter proceeds, however many requests follow.
pub proof fn lemma_waiters_proceed_after_request(flag: ShutdownFlag)
    ensures
        flag.wait_decision() == WaitStep::Proceed <==> flag.is_set(),
        flag.after_request().wait_decision() == WaitStep::Proceed,
        flag.after_request().after_request().wait_decision() == WaitStep::Proceed,
{
}

} // verus!
