//! The worker-sidecar fault model.
//!
//! One long-lived shell worker serves a whole session.  A reply that the
//! transport could not parse as a well-formed protocol message resolves
//! the in-flight command `Declined` — never `Completed` with an assumed
//! result — and discards the worker; the next dispatch respawns a fresh
//! one.  One corrupted exchange therefore costs exactly one command, and
//! the session stays alive.

use crate::exec::CommandExecutionItem;
use crate::exec::ItemStatus;
use vstd::prelude::*;

verus! {

/// What came back for one dispatched command: a well-formed protocol
/// reply with the command's exit status and captured output, or a
/// corrupted exchange — free-text noise, an error before any valid
/// reply, or an unexpected stream close.
#[derive(Debug)]
pub enum WorkerReply {
    Completed { exit_status: i32, captured_output: String },
    Corrupt,
}

/// The controller's view of its worker process: whether the current one
/// is still trusted, and how many workers have been spawned.
#[derive(Debug)]
pub struct WorkerSession {
    pub alive: bool,
    pub generation: u64,
}

impl WorkerSession {
    /// A session with its first worker spawned.
    pub fn new() -> (session: WorkerSession)
        ensures
            session.alive,
            session.generation == 1,
    {
        WorkerSession { alive: true, generation: 1 }
    }

    /// Makes sure a worker is available before a dispatch, lazily
    /// respawning a fresh one when the previous one was discarded.  A
    /// fresh worker starts with reset shell state.
    pub fn ensure_worker(&mut self) -> (respawned: bool)
        requires
            old(self).generation < u64::MAX,
        ensures
            final(self).alive,
            respawned == !old(self).alive,
            old(self).alive ==> final(self).generation == old(self).generation,
            !old(self).alive ==> final(self).generation == old(self).generation + 1,
    {
        if self.alive {
            false
        } else {
            self.alive = true;
            self.generation = self.generation + 1;
            true
        }
    }
}

/// Folds the worker's reply into the in-flight item.  A well-formed
/// reply completes the item with its exit status and output; a corrupted
/// exchange resolves it `Declined` with neither, and discards the worker
/// so that the next dispatch respawns a fresh one.  A fault is contained
/// here: it is never a fatal controller error.
pub fn apply_worker_reply(
    item: &mut CommandExecutionItem,
    session: &mut WorkerSession,
    reply: WorkerReply,
) -> (worker_discarded: bool)
    requires
        old(item).status is Running,
    ensures
        reply is Completed ==> {
            &&& final(item).status is Completed
            &&& final(item).exit_code == Some(reply->Completed_exit_status)
            &&& final(item).aggregated_output is Some
            &&& final(item).aggregated_output->Some_0@ == reply->Completed_captured_output@
            &&& *final(session) == *old(session)
        },
        reply is Corrupt ==> {
            &&& final(item).status is Declined
            &&& final(item).exit_code is None
            &&& final(item).aggregated_output is None
            &&& !final(session).alive
            &&& final(session).generation == old(session).generation
        },
        !(final(item).status is Completed && reply is Corrupt),
        final(item).resolved_by_cancellation == old(item).resolved_by_cancellation,
        final(item).id == old(item).id,
        final(item).parent_id == old(item).parent_id,
        final(item).command@ == old(item).command@,
        final(item).cwd@ == old(item).cwd@,
        worker_discarded == (reply is Corrupt),
{
    match reply {
        WorkerReply::Completed { exit_status, captured_output } => {
            item.status = ItemStatus::Completed;
            item.exit_code = Some(exit_status);
            item.aggregated_output = Some(captured_output);
            false
        },
        WorkerReply::Corrupt => {
            item.status = ItemStatus::Declined;
            item.exit_code = None;
            item.aggregated_output = None;
            session.alive = false;
            true
        },
    }
}

} // verus!
