//! The life of the server process, as a sequence of stages.
//!
//! The program performs the work of a stage (installing the interrupt
//! handler, starting a thread, binding the endpoint, waiting, removing the
//! endpoint) and reports whether it succeeded; [`advance`] answers with the
//! stage that follows. Startup is all or nothing: a stage that fails aborts
//! the process. Shutdown drains nothing: once the wait is over the endpoint
//! is removed and the process exits, outstanding connections or not.

use vstd::prelude::*;
use vstd::string::StringExecFns;

verus! {

/// A stage in the life of the process.
#[derive(Debug, Clone, Copy, PartialEq, Eq, Structural)]
pub enum Stage {
    /// Install the handler that turns an interrupt into a shutdown request.
    InstallSignalBridge,
    /// Start the statement parser on its own thread.
    StartParser,
    /// Bind the listening endpoint and start accepting on its own thread.
    StartListener,
    /// Block until shutdown is requested.
    AwaitShutdown,
    /// Announce the shutdown and remove the endpoint's backing path.
    RemoveEndpoint,
    /// The process has ended with success status.
    Exited,
    /// The process has ended abnormally.
    Aborted,
}

/// The stage in which a process starts.
pub open spec fn first_stage() -> Stage {
    Stage::InstallSignalBridge
}

/// Whether the process has ended.
pub open spec fn is_final(stage: Stage) -> bool {
    stage == Stage::Exited || stage == Stage::Aborted
}

/// How many stages lie behind a process in `stage` that has not aborted.
pub open spec fn stages_done(stage: Stage) -> nat {
    match stage {
        Stage::InstallSignalBridge => 0,
        Stage::StartParser => 1,
        Stage::StartListener => 2,
        Stage::AwaitShutdown => 3,
        Stage::RemoveEndpoint => 4,
        Stage::Exited => 5,
        Stage::Aborted => 5,
    }
}

/// The stage that follows `stage` when its work succeeded (`ok`) or failed.
pub open spec fn next_stage(stage: Stage, ok: bool) -> Stage {
    if is_final(stage) {
        stage
    } else if !ok {
        Stage::Aborted
    } else {
        match stage {
            Stage::InstallSignalBridge => Stage::StartParser,
            Stage::StartParser => Stage::StartListener,
            Stage::StartListener => Stage::AwaitShutdown,
            Stage::AwaitShutdown => Stage::RemoveEndpoint,
            _ => Stage::Exited,
        }
    }
}

/// The stage reached from `stage` when its work and that of the stages after
/// it turn out as `results` say, one entry per stage performed.
pub open spec fn stage_after(stage: Stage, results: Seq<bool>) -> Stage
    decreases results.len(),
{
    if results.len() == 0 {
        stage
    } else {
        next_stage(stage_after(stage, results.drop_last()), results.last())
    }
}

/// The line that the process prints first: its name and the version it was
/// built as, or `unknown` where the build recorded none.
pub fn version_banner(version: Option<&str>) -> (banner: String)
    ensures
        banner@ == "sqld version "@ + match version {
            Some(v) => v@,
            None => "unknown"@,
        },
{
    let banner = String::from_str("sqld version ");
    match version {
        Some(v) => banner.concat(v),
        None => banner.concat("unknown"),
    }
}

/// The stage in which a process starts.
pub fn start() -> (stage: Stage)
    ensures
        stage == first_stage(),
{
    Stage::InstallSignalBridge
}

/// Whether the process has ended and nothing is left to perform.
pub fn is_finished(stage: Stage) -> (finished: bool)
    ensures
        finished == is_final(stage),
{
    match stage {
        Stage::Exited => true,
        Stage::Aborted => true,
        _ => false,
    }
}

/// Moves on from `stage`, whose work succeeded (`ok`) or failed.
pub fn advance(stage: Stage, ok: bool) -> (next: Stage)
    ensures
        next == next_stage(stage, ok),
{
    match stage {
        Stage::Exited => Stage::Exited,
        Stage::Aborted => Stage::Aborted,
        Stage::InstallSignalBridge => if ok {
            Stage::StartParser
        } else {
            Stage::Aborted
        },
        Stage::StartParser => if ok {
            Stage::StartListener
        } else {
            Stage::Aborted
        },
        Stage::StartListener => if ok {
            Stage::AwaitShutdown
        } else {
            Stage::Aborted
        },
        Stage::AwaitShutdown => if ok {
            Stage::RemoveEndpoint
        } else {
            Stage::Aborted
        },
        Stage::RemoveEndpoint => if ok {
            Stage::Exited
        } else {
            Stage::Aborted
        },
    }
}

/// A stage that succeeds leads to the one after it, in the fixed order of
/// startup and shutdown; a stage that fails aborts the process; a process
/// that has ended stays as it ended.
pub proof fn lemma_stage_order(stage: Stage, ok: bool)
    ensures
        is_final(stage) ==> next_stage(stage, ok) == stage,
        !is_final(stage) && !ok ==> next_stage(stage, ok) == Stage::Aborted,
        !is_final(stage) && ok ==> stages_done(next_stage(stage, ok)) == stages_done(stage) + 1
            && next_stage(stage, ok) != Stage::Aborted,
{
}

/// The stage that a process is in when `done` stages lie behind it and none
/// has failed.
pub open spec fn stage_number(done: nat) -> Stage {
    if done == 0 {
        Stage::InstallSignalBridge
    } else if done == 1 {
        Stage::StartParser
    } else if done == 2 {
        Stage::StartListener
    } else if done == 3 {
        Stage::AwaitShutdown
    } else if done == 4 {
        Stage::RemoveEndpoint
    } else {
        Stage::Exited
    }
}

/// One of the five stages of a run with these results failed.
pub open spec fn some_stage_failed(results: Seq<bool>) -> bool {
    exists|i: int| 0 <= i < results.len() && i < 5 && !results[i]
}

/// Where a run ends is decided by its results alone. It aborts as soon as
/// one of its five stages fails; it exits with success once all five have
/// succeeded, and only then; until then it stands at the stage that follows
/// the last success.
pub proof fn lemma_run_outcome(results: Seq<bool>)
    ensures
        stage_after(first_stage(), results) == if some_stage_failed(results) {
            Stage::Aborted
        } else {
            stage_number(results.len())
        },
    decreases results.len(),
{
    if results.len() > 0 {
        let earlier = results.drop_last();
        let n = earlier.len() as int;
        lemma_run_outcome(earlier);
        if some_stage_failed(earlier) {
            let i = choose|i: int| 0 <= i < earlier.len() && i < 5 && !earlier[i];
            assert(!results[i]);
        } else if n < 5 && !results.last() {
            assert(!results[n]);
        } else {
            assert(!some_stage_failed(results)) by {
                if some_stage_failed(results) {
                    let i = choose|i: int| 0 <= i < results.len() && i < 5 && !results[i];
                    if i < n {
                        assert(!earlier[i]);
                    }
                }
            }
        }
    }
}

/// The process waits for shutdown only after the interrupt handler, the
/// parser and the listener are in place: if any of them fails, it aborts
/// and never serves.
pub proof fn lemma_startup_is_all_or_nothing(handler: bool, parser: bool, listener: bool)
    ensures
        stage_after(first_stage(), seq![handler, parser, listener]) == if handler && parser
            && listener {
            Stage::AwaitShutdown
        } else {
            Stage::Aborted
        },
{
    let results = seq![handler, parser, listener];
    lemma_run_outcome(results);
    if !(handler && parser && listener) {
        let i: int = if !handler {
            0
        } else if !parser {
            1
        } else {
            2
        };
        assert(!results[i]);
    }
}

/// Once the wait is over, the endpoint is removed and the process exits
/// with success. Nothing else is consulted on the way: outstanding
/// connections and queued commands are abandoned.
pub proof fn lemma_shutdown_path()
    ensures
        next_stage(Stage::AwaitShutdown, true) == Stage::RemoveEndpoint,
        next_stage(Stage::RemoveEndpoint, true) == Stage::Exited,
        stage_after(Stage::AwaitShutdown, seq![true, true]) == Stage::Exited,
{
    let results = seq![true, true];
    assert(results.drop_last() =~= seq![true]);
    assert(results.drop_last().drop_last() =~= Seq::<bool>::empty());
    reveal_with_fuel(stage_after, 3);
}

} // verus!
