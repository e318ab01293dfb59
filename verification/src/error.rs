//! Errors returned by runtime infrastructure while executing causal work.

use vstd::prelude::*;

use crate::ids::{
    CausalTransactionId, DefinitionId, EntityId, EventRecordId, EventRecordSpec,
    ProcessInstanceId, ReservationId, ScheduledWakeupId,
};
use crate::model::{
    EffectKind, ModelError, ProcessLifecycle, RelationFamily, ResolutionTier, RoleName,
    StagePermission, TransactionCause, WakeupTarget,
};

verus! {

/// Error returned by runtime infrastructure while executing causal work.
#[derive(Clone, Debug, PartialEq, Eq)]
pub enum RuntimeError {
    /// A checked action referenced an effect program missing from the registry.
    MissingEffectProgram { action: DefinitionId, effect_program: DefinitionId },
    /// An effect operation had no runtime-owned handler.
    MissingEffectHandler { kind: EffectKind },
    /// An effect handler required a permission the operation did not declare.
    PermissionNotDeclared { operation: EffectKind, permission: StagePermission },
    /// An effect handler required a role that binding did not provide.
    MissingBoundRole { role: RoleName },
    /// A built-in runtime handler declared an invalid static role name.
    InvalidStaticRole { name: &'static str },
    /// An effect handler could not see an entity needed after validation.
    MissingVisibleEntity { role: RoleName, entity: EntityId },
    /// An effect handler attempted to insert an entity that is already visible.
    DuplicateVisibleEntity { role: RoleName, entity: EntityId },
    /// An effect handler attempted to insert a relation that is already visible.
    DuplicateVisibleRelation { subject: EntityId, family: RelationFamily, object: EntityId },
    /// Required event contract was not satisfied by staged events.
    RequiredEventMissing { effect_program: DefinitionId, event: EventRecordSpec },
    /// An effect handler attempted to emit an event not declared by its operation.
    EventNotDeclaredForOperation { operation: EffectKind, event: EventRecordSpec },
    /// Transaction id issuer is exhausted.
    TransactionIdExhausted,
    /// Event id issuer is exhausted.
    EventIdExhausted,
    /// Process instance id issuer is exhausted.
    ProcessInstanceIdExhausted,
    /// Reservation id issuer is exhausted.
    ReservationIdExhausted,
    /// Scheduled wakeup id issuer is exhausted.
    ScheduledWakeupIdExhausted,
    /// Event id appeared more than once in a staged transaction.
    DuplicateStagedEvent { transaction: CausalTransactionId, event: EventRecordId },
    /// Process transaction finalization received a non-process transaction cause.
    InvalidProcessTransactionCause { cause: TransactionCause },
    /// Eventless process tick finalization received staged events.
    EventlessProcessTickEmittedEvents,
    /// A process definition is missing from the definition registry.
    MissingProcessDefinition { definition: DefinitionId },
    /// A process start request repeated the same role binding.
    DuplicateProcessRoleBinding { role: RoleName },
    /// A process start request supplied a role the process definition does not declare.
    UnknownProcessRoleBinding { role: RoleName },
    /// A process definition does not support the requested resolution tier.
    UnsupportedProcessResolution { definition: DefinitionId, resolution: ResolutionTier },
    /// A scheduled process wakeup referenced a process that is not stored.
    MissingProcess { process: ProcessInstanceId },
    /// A scheduled wakeup referenced by runtime control is missing.
    MissingScheduledWakeup { wakeup: ScheduledWakeupId },
    /// Scheduler cannot dispatch this wakeup target.
    UnsupportedWakeupTarget { target: WakeupTarget },
    /// A process cannot accept the requested lifecycle transition.
    InvalidProcessLifecycleTransition { process: ProcessInstanceId, lifecycle: ProcessLifecycle },
    /// A reservation lifecycle transition requires an active held reservation.
    ReservationNotHeld { reservation: ReservationId },
    /// Model storage rejected an accepted commit package.
    Model(ModelError),
}

impl RuntimeError {
    /// Wraps a model-storage failure.
    pub fn from_model(error: ModelError) -> (r: Self)
        ensures
            r == RuntimeError::Model(error),
    {
        RuntimeError::Model(error)
    }
}

} // verus!
