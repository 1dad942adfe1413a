//! What the server does about a failure, by the place where it arises.
//!
//! No failure is retried and none reaches the client. Each is either
//! absorbed, which costs at most one connection or one command, or
//! escalated, which ends the thread or the process it arose in.

use vstd::prelude::*;

verus! {

/// Where a failure arose.
#[derive(Debug, Clone, Copy, PartialEq, Eq, Structural)]
pub enum Failure {
    /// The interrupt handler could not be installed.
    SignalSetup,
    /// The listening endpoint could not be bound.
    Bind,
    /// An incoming connection could not be accepted.
    Accept,
    /// A read on a connection failed.
    Read,
    /// A command did not parse.
    Parse,
    /// The receiving side of a queue is gone.
    Send,
}

/// What is done about a failure. Each reaction includes a log line.
#[derive(Debug, Clone, Copy, PartialEq, Eq, Structural)]
pub enum Reaction {
    /// Startup is abandoned and the process ends abnormally.
    AbortProcess,
    /// The listener goes on accepting.
    KeepAccepting,
    /// The connection's handler ends without handing anything on.
    DropConnection,
    /// The command is discarded whole; no statement of it is handed on.
    DropCommand,
    /// The thread that tried to send ends and reports failure.
    EndThread,
}

/// The reaction that the server's design assigns to each failure.
pub open spec fn reaction(failure: Failure) -> Reaction {
    match failure {
        Failure::SignalSetup => Reaction::AbortProcess,
        Failure::Bind => Reaction::AbortProcess,
        Failure::Accept => Reaction::KeepAccepting,
        Failure::Read => Reaction::DropConnection,
        Failure::Parse => Reaction::DropCommand,
        Failure::Send => Reaction::EndThread,
    }
}

/// The failure is absorbed: what it arose in goes on running.
pub open spec fn is_absorbed(failure: Failure) -> bool {
    failure == Failure::Accept || failure == Failure::Read || failure == Failure::Parse
}

/// The failure is escalated: it ends the thread or the process it arose in.
pub open spec fn is_escalated(failure: Failure) -> bool {
    reaction(failure) == Reaction::AbortProcess || reaction(failure) == Reaction::EndThread
}

/// Looks up what is done about `failure`.
pub fn reaction_to(failure: Failure) -> (chosen: Reaction)
    ensures
        chosen == reaction(failure),
{
    match failure {
        Failure::SignalSetup | Failure::Bind => Reaction::AbortProcess,
        Failure::Accept => Reaction::KeepAccepting,
        Failure::Read => Reaction::DropConnection,
        Failure::Parse => Reaction::DropCommand,
        Failure::Send => Reaction::EndThread,
    }
}

/// Whether what `failure` arose in goes on running.
pub fn absorbs(failure: Failure) -> (absorbed: bool)
    ensures
        absorbed == is_absorbed(failure),
{
    match failure {
        Failure::Accept | Failure::Read | Failure::Parse => true,
        _ => false,
    }
}

/// Every failure is either absorbed or escalated, never both. Setup
/// failures abort the process; a failed send ends its thread; failures of
/// accepting, reading and parsing are absorbed.
pub proof fn lemma_absorbed_or_escalated(failure: Failure)
    ensures
        is_absorbed(failure) != is_escalated(failure),
        is_escalated(failure) <==> failure == Failure::SignalSetup || failure == Failure::Bind
            || failure == Failure::Send,
{
}

} // verus!
