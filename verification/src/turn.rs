//! The turn controller: aggregates command outcomes into turn-level
//! completion or interruption.

use crate::exec::CommandExecutionItem;
use crate::exec::ItemStatus;
use vstd::prelude::*;

verus! {

/// The lifecycle state of one turn.
#[derive(Clone, Copy, Debug, PartialEq, Eq, Structural)]
pub enum TurnStatus {
    InProgress,
    Completed,
    Interrupted,
}

/// One agent-driven exchange: its resolved command items, in order.
#[derive(Debug)]
pub struct Turn {
    pub id: u64,
    pub thread_id: u64,
    pub status: TurnStatus,
    pub items: Vec<CommandExecutionItem>,
}

/// Whether any item of the turn was resolved via cancellation.
pub open spec fn spec_turn_saw_cancellation(items: Seq<CommandExecutionItem>) -> bool {
    exists|i: int| 0 <= i < items.len() && #[trigger] items[i].resolved_by_cancellation
}

/// Recording an item that was resolved via cancellation commits the turn:
/// the cancellation stays visible to the close step.
pub proof fn lemma_recorded_cancellation_interrupts(
    items: Seq<CommandExecutionItem>,
    item: CommandExecutionItem,
)
    requires
        item.resolved_by_cancellation,
    ensures
        spec_turn_saw_cancellation(items.push(item)),
{
    assert(items.push(item)[items.len() as int].resolved_by_cancellation);
}

/// A turn that saw a cancellation keeps seeing it whatever else it
/// records.
pub proof fn lemma_saw_cancellation_monotone(
    items: Seq<CommandExecutionItem>,
    more: CommandExecutionItem,
)
    requires
        spec_turn_saw_cancellation(items),
    ensures
        spec_turn_saw_cancellation(items.push(more)),
{
    let i = choose|i: int| 0 <= i < items.len() && items[i].resolved_by_cancellation;
    assert(items.push(more)[i].resolved_by_cancellation);
}

/// The outward notification for one completed or declined item.
#[derive(Debug)]
pub struct ItemCompletedNotification {
    pub item_id: u64,
    pub status: ItemStatus,
    pub exit_code: Option<i32>,
    pub aggregated_output: Option<String>,
}

impl Turn {
    /// Opens a turn with no items.
    pub fn new(id: u64, thread_id: u64) -> (turn: Turn)
        ensures
            turn.id == id,
            turn.thread_id == thread_id,
            turn.status is InProgress,
            turn.items@.len() == 0,
    {
        Turn { id, thread_id, status: TurnStatus::InProgress, items: Vec::new() }
    }

    /// Records one item that reached a terminal state.
    pub fn record_item(&mut self, item: CommandExecutionItem)
        requires
            old(self).status is InProgress,
            item.status is Completed || item.status is Declined,
        ensures
            final(self).items@ == old(self).items@.push(item),
            final(self).status == old(self).status,
            final(self).id == old(self).id,
            final(self).thread_id == old(self).thread_id,
    {
        self.items.push(item);
    }

    /// Closes the turn: it ends `Interrupted` exactly when some contained
    /// item was resolved via cancellation, and `Completed` otherwise.
    pub fn close(&mut self)
        requires
            old(self).status is InProgress,
        ensures
            final(self).status == (if spec_turn_saw_cancellation(old(self).items@) {
                TurnStatus::Interrupted
            } else {
                TurnStatus::Completed
            }),
            final(self).items@ == old(self).items@,
            final(self).id == old(self).id,
            final(self).thread_id == old(self).thread_id,
    {
        let mut cancelled = false;
        let mut i: usize = 0;
        while i < self.items.len()
            invariant
                i <= self.items@.len(),
                cancelled == (exists|j: int|
                    0 <= j < i && #[trigger] self.items@[j].resolved_by_cancellation),
                self == old(self),
            decreases self.items@.len() - i,
        {
            if self.items[i].resolved_by_cancellation {
                cancelled = true;
            }
            proof {
                if cancelled && !(exists|j: int|
                    0 <= j < i + 1 && #[trigger] self.items@[j].resolved_by_cancellation) {
                    assert(false);
                }
            }
            i += 1;
        }
        if cancelled {
            self.status = TurnStatus::Interrupted;
        } else {
            self.status = TurnStatus::Completed;
        }
    }

    /// The completed-item notifications this turn emits: one per recorded
    /// item, carrying exactly that item's identifier, terminal status,
    /// exit code and output.  Nothing else — in particular no
    /// sub-approval exchange — ever surfaces here.
    pub fn completed_item_notifications(&self) -> (out: Vec<ItemCompletedNotification>)
        ensures
            out@.len() == self.items@.len(),
            forall|i: int|
                0 <= i < out@.len() ==> {
                    &&& (#[trigger] out@[i]).item_id == self.items@[i].id
                    &&& out@[i].status == self.items@[i].status
                    &&& out@[i].exit_code == self.items@[i].exit_code
                    &&& (out@[i].aggregated_output is Some <==> self.items@[i].aggregated_output
                        is Some)
                    &&& out@[i].aggregated_output is Some
                        ==> out@[i].aggregated_output->Some_0@ == self.items@[
                        i
                    ].aggregated_output->Some_0@
                },
    {
        let mut out: Vec<ItemCompletedNotification> = Vec::new();
        let mut i: usize = 0;
        while i < self.items.len()
            invariant
                i <= self.items@.len(),
                out@.len() == i,
                forall|j: int|
                    0 <= j < i ==> {
                        &&& (#[trigger] out@[j]).item_id == self.items@[j].id
                        &&& out@[j].status == self.items@[j].status
                        &&& out@[j].exit_code == self.items@[j].exit_code
                        &&& (out@[j].aggregated_output is Some <==> self.items@[
                            j
                        ].aggregated_output is Some)
                        &&& out@[j].aggregated_output is Some
                            ==> out@[j].aggregated_output->Some_0@ == self.items@[
                            j
                        ].aggregated_output->Some_0@
                    },
            decreases self.items@.len() - i,
        {
            let item = &self.items[i];
            let aggregated_output: Option<String> = match &item.aggregated_output {
                Some(s) => Some(s.clone()),
                None => None,
            };
            out.push(
                ItemCompletedNotification {
                    item_id: item.id,
                    status: item.status,
                    exit_code: item.exit_code,
                    aggregated_output,
                },
            );
            i += 1;
        }
        out
    }
}

} // verus!
