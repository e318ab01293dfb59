//! Plain-value stand-ins for the definition and runtime-control record
//! values that the runtime reads: effect kinds, role names, stage
//! permissions, runtime-control records and changes.

use vstd::prelude::*;

use crate::ids::{
    EntityId, EventRecordSpec, ProcessInstanceId, ProvenanceKey, ReservationId, ScheduledWakeupId,
};

verus! {

/// Runtime-control simulation time, in ticks.
#[derive(Clone, Copy, Debug, PartialEq, Eq, Structural, PartialOrd, Ord, Hash)]
pub struct SimulationTime(pub u64);

impl SimulationTime {
    /// Time at the given tick.
    pub fn from_ticks(ticks: u64) -> (r: Self)
        ensures
            r.0 == ticks,
    {
        SimulationTime(ticks)
    }

    /// Tick of this time.
    pub fn ticks(self) -> (r: u64)
        ensures
            r == self.0,
    {
        self.0
    }
}

/// Name of one effect operation family.
#[derive(Clone, Debug, PartialEq, Eq)]
pub struct EffectKind(pub String);

/// Name of one role binding.
#[derive(Clone, Debug, PartialEq, Eq)]
pub struct RoleName(pub String);

/// Permission an effect operation declares for staging.
#[derive(Clone, Copy, Debug, PartialEq, Eq, Structural, PartialOrd, Ord, Hash)]
pub enum StagePermission {
    MutatePhysical,
    EmitPhysicalEventRecord,
    EmitSensoryEventRecord,
}

/// Family of a hard-state relation.
#[derive(Clone, Copy, Debug, PartialEq, Eq, Structural, PartialOrd, Ord, Hash)]
pub enum RelationFamily {
    ContainedIn,
}

/// Cause of one causal transaction, identified by its code.
#[derive(Clone, Copy, Debug, PartialEq, Eq, Structural)]
pub struct TransactionCause(pub u64);

/// Resolution tier of a process, identified by its code.
#[derive(Clone, Copy, Debug, PartialEq, Eq, Structural)]
pub struct ResolutionTier(pub u64);

/// Target of a scheduled wakeup, identified by its code.
#[derive(Clone, Copy, Debug, PartialEq, Eq, Structural)]
pub struct WakeupTarget(pub u64);

/// Lifecycle of a process instance: scheduled on a wakeup, or in another
/// state identified by its code.
#[derive(Clone, Copy, Debug, PartialEq, Eq, Structural)]
pub enum ProcessLifecycle {
    Scheduled { wakeup: ScheduledWakeupId },
    Other(u64),
}

/// Failure reported by model storage.
#[derive(Clone, Copy, Debug, PartialEq, Eq, Structural)]
pub enum ModelError {
    RuntimeControlValueOverflow,
}

/// One event an operation declares: its record kind and the roles whose
/// bound entities the record names.
#[derive(Clone, Debug, PartialEq, Eq)]
pub struct EventDeclaration {
    pub spec: EventRecordSpec,
    pub roles: Vec<RoleName>,
}

/// One effect operation of an effect program.
#[derive(Clone, Debug, PartialEq, Eq)]
pub struct EffectOp {
    pub kind: EffectKind,
    pub permissions: Vec<StagePermission>,
    pub emitted_events: Vec<EventDeclaration>,
}

impl EffectOp {
    /// Operation family.
    pub fn kind(&self) -> (r: &EffectKind)
        ensures
            r == &self.kind,
    {
        &self.kind
    }

    /// Whether the operation declares `permission`.
    pub fn requires_permission(&self, permission: StagePermission) -> (r: bool)
        ensures
            r == self.permissions@.contains(permission),
    {
        let mut i: usize = 0;
        while i < self.permissions.len()
            invariant
                i <= self.permissions@.len(),
                forall|j: int| 0 <= j < i ==> self.permissions@[j] != permission,
            decreases self.permissions@.len() - i,
        {
            if self.permissions[i] == permission {
                return true;
            }
            i = i + 1;
        }
        false
    }

    /// The operation declares an event of kind `event`.
    pub open spec fn declares_event(self, event: EventRecordSpec) -> bool {
        exists|j: int| 0 <= j < self.emitted_events@.len() && #[trigger] self.emitted_events@[j].spec == event
    }

    /// Whether the operation declares that it emits `event`.
    pub fn emits_event(&self, event: EventRecordSpec) -> (r: bool)
        ensures
            r == self.declares_event(event),
    {
        let mut i: usize = 0;
        while i < self.emitted_events.len()
            invariant
                i <= self.emitted_events@.len(),
                forall|j: int| 0 <= j < i ==> #[trigger] self.emitted_events@[j].spec != event,
            decreases self.emitted_events@.len() - i,
        {
            if self.emitted_events[i].spec == event {
                return true;
            }
            i = i + 1;
        }
        false
    }

    /// Whether the operation declares no emitted event.
    pub fn emits_no_events(&self) -> (r: bool)
        ensures
            r == (self.emitted_events@.len() == 0),
    {
        self.emitted_events.len() == 0
    }
}

/// Holder of one reservation, identified by its code.
#[derive(Clone, Copy, Debug, PartialEq, Eq, Structural)]
pub struct ReservationHolder(pub u64);

/// Target of one reservation, identified by its code.
#[derive(Clone, Copy, Debug, PartialEq, Eq, Structural)]
pub struct ReservationTarget(pub u64);

/// State of one reservation.
#[derive(Clone, Copy, Debug, PartialEq, Eq, Structural)]
pub enum ReservationState {
    Held { acquired_at: SimulationTime },
}

/// One retained reservation.
#[derive(Clone, Copy, Debug, PartialEq, Eq, Structural)]
pub struct ReservationRecord {
    pub id: ReservationId,
    pub holder: ReservationHolder,
    pub target: ReservationTarget,
    pub state: ReservationState,
    pub provenance: Option<ProvenanceKey>,
}

/// Scheduler order of one wakeup: time, phase, priority, then a deterministic sequence.
#[derive(Clone, Copy, Debug, PartialEq, Eq, Structural, PartialOrd, Ord, Hash)]
pub struct WakeupOrderKey {
    pub time: SimulationTime,
    pub phase: u16,
    pub priority: i32,
    pub sequence: u64,
}

/// One retained process instance.
#[derive(Clone, Copy, Debug, PartialEq, Eq, Structural)]
pub struct ProcessInstanceRecord {
    pub id: ProcessInstanceId,
    pub lifecycle: ProcessLifecycle,
    pub provenance: Option<ProvenanceKey>,
}

impl ProcessInstanceRecord {
    /// Provenance of the process.
    pub fn provenance(&self) -> (r: Option<ProvenanceKey>)
        ensures
            r == self.provenance,
    {
        self.provenance
    }
}

/// One retained scheduled wakeup.
#[derive(Clone, Copy, Debug, PartialEq, Eq, Structural)]
pub struct ScheduledWakeupRecord {
    pub id: ScheduledWakeupId,
    pub order: WakeupOrderKey,
    pub provenance: Option<ProvenanceKey>,
}

impl ScheduledWakeupRecord {
    /// Provenance of the wakeup.
    pub fn provenance(&self) -> (r: Option<ProvenanceKey>)
        ensures
            r == self.provenance,
    {
        self.provenance
    }
}

/// Why a wakeup was canceled.
#[derive(Clone, Copy, Debug, PartialEq, Eq, Structural)]
pub enum WakeupCancellationReason {
    TargetCanceled,
    Other(u64),
}

/// Why a wakeup was consumed, identified by its code.
#[derive(Clone, Copy, Debug, PartialEq, Eq, Structural)]
pub struct WakeupConsumptionReason(pub u64);

/// Why a stale wakeup was skipped, identified by its code.
#[derive(Clone, Copy, Debug, PartialEq, Eq, Structural)]
pub struct StaleWakeupReason(pub u64);

/// Terminal transition of one scheduled wakeup.
#[derive(Clone, Copy, Debug, PartialEq, Eq, Structural)]
pub enum WakeupTerminalTransition {
    Canceled { at: SimulationTime, reason: WakeupCancellationReason },
    Consumed { at: SimulationTime, reason: WakeupConsumptionReason },
    Skipped { at: SimulationTime, reason: StaleWakeupReason },
}

/// One runtime-control change.
#[derive(Clone, Copy, Debug, PartialEq, Eq, Structural)]
pub enum RuntimeControlChange {
    CreateProcess {
        process: ProcessInstanceRecord,
        updated_at: SimulationTime,
        provenance: Option<ProvenanceKey>,
    },
    UpdateProcess {
        process: ProcessInstanceRecord,
        updated_at: SimulationTime,
        provenance: Option<ProvenanceKey>,
    },
    ScheduleWakeup {
        wakeup: ScheduledWakeupRecord,
        updated_at: SimulationTime,
        provenance: Option<ProvenanceKey>,
    },
    TransitionWakeup { wakeup: ScheduledWakeupId, transition: WakeupTerminalTransition },
    AcquireReservation {
        reservation: ReservationRecord,
        updated_at: SimulationTime,
        provenance: Option<ProvenanceKey>,
    },
}

/// Payload of one retained runtime-control record, reduced to the
/// identities that identifier issuing reads.
#[derive(Clone, Copy, Debug, PartialEq, Eq, Structural)]
pub enum RuntimeControlRecordPayload {
    Process(ProcessInstanceId),
    Reservation(ReservationId),
    ScheduledWakeup { id: ScheduledWakeupId, order: WakeupOrderKey },
}

/// Hard-state relation key.
#[derive(Clone, Copy, Debug, PartialEq, Eq, Structural)]
pub struct RelationKey {
    pub subject: EntityId,
    pub family: RelationFamily,
    pub object: EntityId,
}

} // verus!
