//! Tests of the approval/execution state machine, the turn controller
//! and the worker-protocol fault model.

use skillgate::exec::ApprovalDecision;
use skillgate::exec::ItemStatus;
use skillgate::exec::apply_approval_decision;
use skillgate::exec::approval_required;
use skillgate::exec::begin_execution;
use skillgate::exec::cancel_suspended;
use skillgate::exec::new_command_item;
use skillgate::exec::rejection_marker;
use skillgate::exec::resolve_compound_approvals;
use skillgate::paths::AbsPath;
use skillgate::policy::ApprovalPolicy;
use skillgate::turn::Turn;
use skillgate::turn::TurnStatus;
use skillgate::worker::WorkerReply;
use skillgate::worker::WorkerSession;
use skillgate::worker::apply_worker_reply;

fn abs(s: &str) -> AbsPath {
    AbsPath::from_string(s).expect("absolute path")
}

fn item(id: u64) -> skillgate::exec::CommandExecutionItem {
    new_command_item(id, None, vec!["echo".to_string(), "hi".to_string()], abs("/workspace"))
}

#[test]
fn approval_is_required_exactly_when_the_policy_says_so() {
    assert!(!approval_required(ApprovalPolicy::Never, false));
    assert!(!approval_required(ApprovalPolicy::OnFailure, false));
    assert!(approval_required(ApprovalPolicy::OnRequest, true));
    assert!(approval_required(ApprovalPolicy::UnlessTrusted, false));
    assert!(!approval_required(ApprovalPolicy::UnlessTrusted, true));
}

#[test]
fn accepted_item_runs_and_completes() {
    let mut it = item(1);
    let request = begin_execution(&mut it, 7, true);
    assert_eq!(it.status, ItemStatus::AwaitingApproval);
    let request = request.expect("approval request");
    assert_eq!(request.item_id, 1);
    assert_eq!(request.thread_id, 7);
    let interrupted = apply_approval_decision(&mut it, ApprovalDecision::Accept);
    assert!(!interrupted);
    assert_eq!(it.status, ItemStatus::Running);
    let mut session = WorkerSession::new();
    let discarded = apply_worker_reply(
        &mut it,
        &mut session,
        WorkerReply::Completed { exit_status: 0, captured_output: "hi\n".to_string() },
    );
    assert!(!discarded);
    assert_eq!(it.status, ItemStatus::Completed);
    assert_eq!(it.exit_code, Some(0));
    assert_eq!(it.aggregated_output, Some("hi\n".to_string()));
}

#[test]
fn declined_item_ends_with_no_exit_code_and_no_output() {
    let mut it = item(2);
    let _ = begin_execution(&mut it, 7, true);
    let interrupted = apply_approval_decision(&mut it, ApprovalDecision::Decline);
    assert!(!interrupted);
    assert_eq!(it.status, ItemStatus::Declined);
    assert_eq!(it.exit_code, None);
    assert_eq!(it.aggregated_output, None);
}

#[test]
fn cancelled_item_interrupts_the_turn() {
    let mut it = item(3);
    let _ = begin_execution(&mut it, 7, true);
    let interrupted = apply_approval_decision(&mut it, ApprovalDecision::Cancel);
    assert!(interrupted);
    assert_eq!(it.status, ItemStatus::Declined);

    let mut turn = Turn::new(1, 7);
    turn.record_item(it);
    turn.close();
    assert_eq!(turn.status, TurnStatus::Interrupted);
}

#[test]
fn cancellation_during_execution_wait_declines_and_interrupts() {
    let mut it = item(4);
    let _ = begin_execution(&mut it, 7, false);
    assert_eq!(it.status, ItemStatus::Running);
    let interrupted = cancel_suspended(&mut it);
    assert!(interrupted);
    assert_eq!(it.status, ItemStatus::Declined);
    assert_eq!(it.exit_code, None);
}

#[test]
fn compound_cancel_declines_the_parent_alone_and_interrupts_the_turn() {
    let mut parent = item(10);
    let _ = begin_execution(&mut parent, 7, true);
    let decisions = vec![ApprovalDecision::Accept, ApprovalDecision::Cancel];
    let interrupted = resolve_compound_approvals(&mut parent, &decisions);
    assert!(interrupted);
    assert_eq!(parent.status, ItemStatus::Declined);
    assert_eq!(parent.exit_code, None);
    assert_eq!(parent.aggregated_output, Some(rejection_marker()));
    assert_eq!(parent.aggregated_output.as_deref(), Some("exec command rejected by user"));

    let mut turn = Turn::new(2, 7);
    turn.record_item(parent);
    turn.close();
    assert_eq!(turn.status, TurnStatus::Interrupted);
    // only the parent surfaces in completed-item notifications; the
    // sub-approval exchanges never get item identifiers of their own
    let notifications = turn.completed_item_notifications();
    assert_eq!(notifications.len(), 1);
    assert_eq!(notifications[0].item_id, 10);
}

#[test]
fn compound_decline_declines_the_parent_without_interrupting() {
    let mut parent = item(11);
    let _ = begin_execution(&mut parent, 7, true);
    let decisions = vec![ApprovalDecision::Accept, ApprovalDecision::Decline];
    let interrupted = resolve_compound_approvals(&mut parent, &decisions);
    assert!(!interrupted);
    assert_eq!(parent.status, ItemStatus::Declined);
    assert_eq!(parent.aggregated_output.as_deref(), Some("exec command rejected by user"));

    let mut turn = Turn::new(3, 7);
    turn.record_item(parent);
    turn.close();
    assert_eq!(turn.status, TurnStatus::Completed);
}

#[test]
fn compound_all_accepted_runs_the_parent() {
    let mut parent = item(12);
    let _ = begin_execution(&mut parent, 7, true);
    let decisions = vec![ApprovalDecision::Accept, ApprovalDecision::Accept];
    let interrupted = resolve_compound_approvals(&mut parent, &decisions);
    assert!(!interrupted);
    assert_eq!(parent.status, ItemStatus::Running);
}

#[test]
fn corrupt_worker_reply_declines_the_command_and_respawns_the_worker() {
    let mut session = WorkerSession::new();
    assert!(session.alive);
    assert_eq!(session.generation, 1);

    let mut first = item(20);
    let _ = begin_execution(&mut first, 7, false);
    let discarded = apply_worker_reply(&mut first, &mut session, WorkerReply::Corrupt);
    assert!(discarded);
    assert_eq!(first.status, ItemStatus::Declined);
    assert_eq!(first.exit_code, None);
    assert_eq!(first.aggregated_output, None);
    assert!(!session.alive);

    // the next dispatched command respawns a fresh worker and completes
    let respawned = session.ensure_worker();
    assert!(respawned);
    assert_eq!(session.generation, 2);
    let mut second = item(21);
    let _ = begin_execution(&mut second, 8, false);
    let discarded = apply_worker_reply(
        &mut second,
        &mut session,
        WorkerReply::Completed { exit_status: 0, captured_output: "second done\n".to_string() },
    );
    assert!(!discarded);
    assert_eq!(second.status, ItemStatus::Completed);
    assert_eq!(second.aggregated_output, Some("second done\n".to_string()));
    assert!(session.alive);
}

#[test]
fn an_alive_worker_is_not_respawned() {
    let mut session = WorkerSession::new();
    let respawned = session.ensure_worker();
    assert!(!respawned);
    assert_eq!(session.generation, 1);
}

#[test]
fn turn_without_cancellations_completes() {
    let mut turn = Turn::new(5, 9);
    let mut it = item(30);
    let _ = begin_execution(&mut it, 9, false);
    let mut session = WorkerSession::new();
    let _ = apply_worker_reply(
        &mut it,
        &mut session,
        WorkerReply::Completed { exit_status: 2, captured_output: String::new() },
    );
    turn.record_item(it);
    turn.close();
    assert_eq!(turn.status, TurnStatus::Completed);
    let notifications = turn.completed_item_notifications();
    assert_eq!(notifications.len(), 1);
    assert_eq!(notifications[0].exit_code, Some(2));
}
