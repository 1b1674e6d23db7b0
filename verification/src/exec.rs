//! The per-command approval/execution state machine.
//!
//! Every transition has one well-defined predecessor state, stated in its
//! `requires`; a `Declined` or `Completed` item is terminal because no
//! transition accepts it.

use crate::paths::AbsPath;
use crate::policy::ApprovalPolicy;
use vstd::prelude::*;

verus! {

/// The lifecycle state of one command execution item.
#[derive(Clone, Copy, Debug, PartialEq, Eq, Structural)]
pub enum ItemStatus {
    Pending,
    AwaitingApproval,
    Running,
    Completed,
    Declined,
}

/// A decision on an approval request.
#[derive(Clone, Copy, Debug, PartialEq, Eq, Structural)]
pub enum ApprovalDecision {
    Accept,
    Decline,
    Cancel,
}

/// One command execution item, from request to terminal state.
#[derive(Debug)]
pub struct CommandExecutionItem {
    pub id: u64,
    pub parent_id: Option<u64>,
    pub command: Vec<String>,
    pub cwd: AbsPath,
    pub status: ItemStatus,
    pub exit_code: Option<i32>,
    pub aggregated_output: Option<String>,
    pub resolved_by_cancellation: bool,
}

/// An approval request sent outward to the controlling client.
#[derive(Debug)]
pub struct ApprovalRequest {
    pub item_id: u64,
    pub thread_id: u64,
    pub command: Vec<String>,
    pub cwd: AbsPath,
}

/// The fixed text an item carries when a sub-approval rejected it.
pub fn rejection_marker() -> (r: String)
    ensures
        r@ == "exec command rejected by user"@,
{
    String::from_str("exec command rejected by user")
}

/// Creates a fresh item in the `Pending` state.
pub fn new_command_item(
    id: u64,
    parent_id: Option<u64>,
    command: Vec<String>,
    cwd: AbsPath,
) -> (item: CommandExecutionItem)
    ensures
        item.id == id,
        item.parent_id == parent_id,
        item.command@ == command@,
        item.cwd@ == cwd@,
        item.status is Pending,
        item.exit_code is None,
        item.aggregated_output is None,
        !item.resolved_by_cancellation,
{
    CommandExecutionItem {
        id,
        parent_id,
        command,
        cwd,
        status: ItemStatus::Pending,
        exit_code: None,
        aggregated_output: None,
        resolved_by_cancellation: false,
    }
}

/// Whether the effective approval policy requires a confirmation before
/// this command runs: `OnRequest` always asks, `UnlessTrusted` asks for
/// commands not known to be trusted, `OnFailure` and `Never` never ask
/// up front.
pub open spec fn spec_approval_required(policy: ApprovalPolicy, command_trusted: bool) -> bool {
    match policy {
        ApprovalPolicy::OnFailure => false,
        ApprovalPolicy::OnRequest => true,
        ApprovalPolicy::UnlessTrusted => !command_trusted,
        ApprovalPolicy::Never => false,
    }
}

/// Whether a confirmation is required; see [`spec_approval_required`].
pub fn approval_required(policy: ApprovalPolicy, command_trusted: bool) -> (r: bool)
    ensures
        r == spec_approval_required(policy, command_trusted),
{
    match policy {
        ApprovalPolicy::OnFailure => false,
        ApprovalPolicy::OnRequest => true,
        ApprovalPolicy::UnlessTrusted => !command_trusted,
        ApprovalPolicy::Never => false,
    }
}

/// Moves a pending item forward once its permissions are resolved: to
/// `AwaitingApproval` when a confirmation is required, straight to
/// `Running` otherwise.  Returns the approval request to emit, if any;
/// no worker dispatch happens while one is outstanding.
pub fn begin_execution(
    item: &mut CommandExecutionItem,
    thread_id: u64,
    needs_approval: bool,
) -> (request: Option<ApprovalRequest>)
    requires
        old(item).status is Pending,
    ensures
        final(item).status == (if needs_approval {
            ItemStatus::AwaitingApproval
        } else {
            ItemStatus::Running
        }),
        final(item).id == old(item).id,
        final(item).parent_id == old(item).parent_id,
        final(item).command@ == old(item).command@,
        final(item).cwd@ == old(item).cwd@,
        final(item).exit_code == old(item).exit_code,
        final(item).aggregated_output == old(item).aggregated_output,
        final(item).resolved_by_cancellation == old(item).resolved_by_cancellation,
        request is Some <==> needs_approval,
        request is Some ==> {
            &&& request->Some_0.item_id == old(item).id
            &&& request->Some_0.thread_id == thread_id
            &&& request->Some_0.command@ == old(item).command@
            &&& request->Some_0.cwd@ == old(item).cwd@
        },
{
    if needs_approval {
        item.status = ItemStatus::AwaitingApproval;
        Some(
            ApprovalRequest {
                item_id: item.id,
                thread_id,
                command: crate::paths::clone_string_vec(&item.command),
                cwd: item.cwd.clone(),
            },
        )
    } else {
        item.status = ItemStatus::Running;
        None
    }
}

/// Applies the client's decision to an item waiting for approval:
/// `Accept` dispatches it, `Decline` and `Cancel` end it `Declined` with
/// no exit code and no output.  Returns whether the owning turn must be
/// interrupted — exactly on `Cancel`, which aborts the remainder of the
/// turn, not only this item.
pub fn apply_approval_decision(
    item: &mut CommandExecutionItem,
    decision: ApprovalDecision,
) -> (turn_interrupted: bool)
    requires
        old(item).status is AwaitingApproval,
    ensures
        final(item).status == (match decision {
            ApprovalDecision::Accept => ItemStatus::Running,
            ApprovalDecision::Decline => ItemStatus::Declined,
            ApprovalDecision::Cancel => ItemStatus::Declined,
        }),
        decision is Accept ==> final(item).exit_code == old(item).exit_code,
        decision is Accept ==> final(item).aggregated_output == old(item).aggregated_output,
        !(decision is Accept) ==> final(item).exit_code is None,
        !(decision is Accept) ==> final(item).aggregated_output is None,
        final(item).resolved_by_cancellation == (old(item).resolved_by_cancellation || (
        decision is Cancel)),
        turn_interrupted == (decision is Cancel),
        final(item).id == old(item).id,
        final(item).parent_id == old(item).parent_id,
        final(item).command@ == old(item).command@,
        final(item).cwd@ == old(item).cwd@,
{
    match decision {
        ApprovalDecision::Accept => {
            item.status = ItemStatus::Running;
            false
        },
        ApprovalDecision::Decline => {
            item.status = ItemStatus::Declined;
            item.exit_code = None;
            item.aggregated_output = None;
            false
        },
        ApprovalDecision::Cancel => {
            item.status = ItemStatus::Declined;
            item.exit_code = None;
            item.aggregated_output = None;
            item.resolved_by_cancellation = true;
            true
        },
    }
}

/// Resolves a cancellation that arrives while the item is suspended —
/// awaiting approval or awaiting the worker: the item ends `Declined`
/// and the owning turn is interrupted.
pub fn cancel_suspended(item: &mut CommandExecutionItem) -> (turn_interrupted: bool)
    requires
        old(item).status is AwaitingApproval || old(item).status is Running,
    ensures
        final(item).status is Declined,
        final(item).exit_code is None,
        final(item).aggregated_output is None,
        final(item).resolved_by_cancellation,
        turn_interrupted,
        final(item).id == old(item).id,
        final(item).parent_id == old(item).parent_id,
        final(item).command@ == old(item).command@,
        final(item).cwd@ == old(item).cwd@,
{
    item.status = ItemStatus::Declined;
    item.exit_code = None;
    item.aggregated_output = None;
    item.resolved_by_cancellation = true;
    true
}

/// Applies the decisions on a compound command's sub-invocations to the
/// parent item.  Only when every sub-invocation was accepted does the
/// parent run; any decline or cancellation resolves the parent alone
/// `Declined`, with the fixed rejection marker as its output.  The turn
/// is interrupted exactly when some decision was a cancellation.
pub fn resolve_compound_approvals(
    parent: &mut CommandExecutionItem,
    decisions: &Vec<ApprovalDecision>,
) -> (turn_interrupted: bool)
    requires
        old(parent).status is AwaitingApproval,
    ensures
        (forall|i: int| 0 <= i < decisions@.len() ==> decisions@[i] is Accept) ==> (final(
            parent).status is Running),
        (exists|i: int| 0 <= i < decisions@.len() && !(decisions@[i] is Accept)) ==> {
            &&& final(parent).status is Declined
            &&& final(parent).exit_code is None
            &&& final(parent).aggregated_output is Some
            &&& final(parent).aggregated_output->Some_0@ == rejection_marker_spec()
        },
        turn_interrupted == (exists|i: int|
            0 <= i < decisions@.len() && #[trigger] decisions@[i] is Cancel),
        final(parent).resolved_by_cancellation == (old(parent).resolved_by_cancellation
            || turn_interrupted),
        final(parent).id == old(parent).id,
        final(parent).parent_id == old(parent).parent_id,
        final(parent).command@ == old(parent).command@,
        final(parent).cwd@ == old(parent).cwd@,
{
    let mut any_rejected = false;
    let mut any_cancelled = false;
    let mut i: usize = 0;
    while i < decisions.len()
        invariant
            i <= decisions.len(),
            any_rejected == (exists|j: int| 0 <= j < i && !(decisions@[j] is Accept)),
            any_cancelled == (exists|j: int| 0 <= j < i && #[trigger] decisions@[j] is Cancel),
        decreases decisions.len() - i,
    {
        match decisions[i] {
            ApprovalDecision::Accept => {
            },
            ApprovalDecision::Decline => {
                any_rejected = true;
            },
            ApprovalDecision::Cancel => {
                any_rejected = true;
                any_cancelled = true;
            },
        }
        proof {
            if any_rejected && !(exists|j: int| 0 <= j < i + 1 && !(decisions@[j] is Accept)) {
                assert(false);
            }
        }
        i += 1;
    }
    if any_rejected {
        parent.status = ItemStatus::Declined;
        parent.exit_code = None;
        parent.aggregated_output = Some(rejection_marker());
        if any_cancelled {
            parent.resolved_by_cancellation = true;
        }
    } else {
        parent.status = ItemStatus::Running;
        proof {
            assert(forall|j: int| 0 <= j < decisions@.len() ==> decisions@[j] is Accept);
        }
    }
    any_cancelled
}

/// The view of the fixed rejection marker text.
pub open spec fn rejection_marker_spec() -> Seq<char> {
    "exec command rejected by user"@
}

} // verus!
