//! Builder of one runtime-control update: an ordered list of control changes
//! under a source, a time, a replay level and a provenance.

use vstd::prelude::*;

use crate::ids::{ProvenanceKey, ScheduledWakeupId};
use crate::model::{
    ProcessInstanceRecord, ProcessLifecycle, RuntimeControlChange, ScheduledWakeupRecord,
    SimulationTime, StaleWakeupReason, WakeupCancellationReason, WakeupConsumptionReason,
    WakeupTerminalTransition,
};

verus! {

/// Source of a runtime-control update, identified by its code.
#[derive(Clone, Copy, Debug, PartialEq, Eq, Structural)]
pub struct RuntimeControlSource(pub u64);

/// Replay level of a runtime-control update, identified by its code.
#[derive(Clone, Copy, Debug, PartialEq, Eq, Structural)]
pub struct ReplayLevel(pub u64);

/// Draft of one runtime-control update.
#[derive(Clone, Debug, PartialEq, Eq)]
pub struct RuntimeControlDraft {
    pub source: RuntimeControlSource,
    pub occurred_at: SimulationTime,
    pub replay_level: ReplayLevel,
    pub provenance: Option<ProvenanceKey>,
    pub changes: Vec<RuntimeControlChange>,
}

/// Runtime-control changes committed inside a hard transaction, which owns
/// their source, time, replay level and provenance.
#[derive(Clone, Debug, PartialEq, Eq)]
pub struct RuntimeControlTransactionChanges {
    pub changes: Vec<RuntimeControlChange>,
}

impl RuntimeControlTransactionChanges {
    /// The changes in draft order.
    pub fn into_changes(self) -> (r: Vec<RuntimeControlChange>)
        ensures
            r@ == self.changes@,
    {
        self.changes
    }
}

/// The draft is unchanged but for `change` appended to its changes.
pub open spec fn appended(
    before: RuntimeControlDraft,
    after: RuntimeControlDraft,
    change: RuntimeControlChange,
) -> bool {
    &&& after.source == before.source
    &&& after.occurred_at == before.occurred_at
    &&& after.replay_level == before.replay_level
    &&& after.provenance == before.provenance
    &&& after.changes@ == before.changes@.push(change)
}

/// A draft change only ever extends the draft: the earlier changes keep
/// their order, the new change comes last, and the draft's source, time,
/// replay level and provenance stay as they were.
pub proof fn lemma_appended_extends_draft(
    before: RuntimeControlDraft,
    after: RuntimeControlDraft,
    change: RuntimeControlChange,
)
    requires
        appended(before, after, change),
    ensures
        after.changes@.len() == before.changes@.len() + 1,
        after.changes@[before.changes@.len() as int] == change,
        forall|i: int| 0 <= i < before.changes@.len() ==> #[trigger] after.changes@[i] == before.changes@[i],
        after.source == before.source && after.occurred_at == before.occurred_at,
        after.replay_level == before.replay_level && after.provenance == before.provenance,
{
}

impl RuntimeControlDraft {
    /// An empty draft.
    pub fn new(
        source: RuntimeControlSource,
        occurred_at: SimulationTime,
        replay_level: ReplayLevel,
        provenance: Option<ProvenanceKey>,
    ) -> (r: Self)
        ensures
            r.source == source,
            r.occurred_at == occurred_at,
            r.replay_level == replay_level,
            r.provenance == provenance,
            r.changes@.len() == 0,
    {
        RuntimeControlDraft { source, occurred_at, replay_level, provenance, changes: Vec::new() }
    }

    fn push_change(&mut self, change: RuntimeControlChange)
        ensures
            appended(*old(self), *final(self), change),
    {
        self.changes.push(change);
    }

    /// Appends the creation of `process`, carrying the process's own provenance.
    pub fn create_process(&mut self, updated_at: SimulationTime, process: ProcessInstanceRecord)
        ensures
            appended(
                *old(self),
                *final(self),
                RuntimeControlChange::CreateProcess {
                    process,
                    updated_at,
                    provenance: process.provenance,
                },
            ),
    {
        let provenance = process.provenance();
        self.push_change(RuntimeControlChange::CreateProcess { process, updated_at, provenance });
    }

    /// Appends the update of `process`, carrying the process's own provenance.
    pub fn update_process(&mut self, updated_at: SimulationTime, process: ProcessInstanceRecord)
        ensures
            appended(
                *old(self),
                *final(self),
                RuntimeControlChange::UpdateProcess {
                    process,
                    updated_at,
                    provenance: process.provenance,
                },
            ),
    {
        let provenance = process.provenance();
        self.push_change(RuntimeControlChange::UpdateProcess { process, updated_at, provenance });
    }

    /// Appends the scheduling of `wakeup`, carrying the wakeup's own provenance.
    pub fn schedule_wakeup(&mut self, updated_at: SimulationTime, wakeup: ScheduledWakeupRecord)
        ensures
            appended(
                *old(self),
                *final(self),
                RuntimeControlChange::ScheduleWakeup {
                    wakeup,
                    updated_at,
                    provenance: wakeup.provenance,
                },
            ),
    {
        let provenance = wakeup.provenance();
        self.push_change(RuntimeControlChange::ScheduleWakeup { wakeup, updated_at, provenance });
    }

    /// Appends one terminal transition of `wakeup`.
    pub fn transition_wakeup(&mut self, wakeup: ScheduledWakeupId, transition: WakeupTerminalTransition)
        ensures
            appended(
                *old(self),
                *final(self),
                RuntimeControlChange::TransitionWakeup { wakeup, transition },
            ),
    {
        self.push_change(RuntimeControlChange::TransitionWakeup { wakeup, transition });
    }

    /// Cancels the wakeup a scheduled process is waiting on; other lifecycles add nothing.
    pub fn cancel_current_wakeup(&mut self, lifecycle: &ProcessLifecycle, at: SimulationTime)
        ensures
            match *lifecycle {
                ProcessLifecycle::Scheduled { wakeup } => appended(
                    *old(self),
                    *final(self),
                    RuntimeControlChange::TransitionWakeup {
                        wakeup,
                        transition: WakeupTerminalTransition::Canceled {
                            at,
                            reason: WakeupCancellationReason::TargetCanceled,
                        },
                    },
                ),
                _ => *final(self) == *old(self),
            },
    {
        let wakeup = match lifecycle {
            ProcessLifecycle::Scheduled { wakeup } => *wakeup,
            _ => return,
        };
        self.transition_wakeup(
            wakeup,
            WakeupTerminalTransition::Canceled {
                at,
                reason: WakeupCancellationReason::TargetCanceled,
            },
        );
    }

    /// Appends the consumption of `wakeup`.
    pub fn consume_wakeup(&mut self, wakeup: ScheduledWakeupId, at: SimulationTime, reason: WakeupConsumptionReason)
        ensures
            appended(
                *old(self),
                *final(self),
                RuntimeControlChange::TransitionWakeup {
                    wakeup,
                    transition: WakeupTerminalTransition::Consumed { at, reason },
                },
            ),
    {
        self.transition_wakeup(wakeup, WakeupTerminalTransition::Consumed { at, reason });
    }

    /// Appends the skipping of stale `wakeup`.
    pub fn skip_wakeup(&mut self, wakeup: ScheduledWakeupId, at: SimulationTime, reason: StaleWakeupReason)
        ensures
            appended(
                *old(self),
                *final(self),
                RuntimeControlChange::TransitionWakeup {
                    wakeup,
                    transition: WakeupTerminalTransition::Skipped { at, reason },
                },
            ),
    {
        self.transition_wakeup(wakeup, WakeupTerminalTransition::Skipped { at, reason });
    }

    /// Appends the cancellation of `wakeup`.
    pub fn cancel_wakeup(&mut self, wakeup: ScheduledWakeupId, at: SimulationTime, reason: WakeupCancellationReason)
        ensures
            appended(
                *old(self),
                *final(self),
                RuntimeControlChange::TransitionWakeup {
                    wakeup,
                    transition: WakeupTerminalTransition::Canceled { at, reason },
                },
            ),
    {
        self.transition_wakeup(wakeup, WakeupTerminalTransition::Canceled { at, reason });
    }

    /// The draft's changes alone, for commitment inside a hard transaction.
    pub fn into_transaction_coupled_changes(self) -> (r: RuntimeControlTransactionChanges)
        ensures
            r.changes@ == self.changes@,
    {
        RuntimeControlTransactionChanges { changes: self.changes }
    }
}

} // verus!
