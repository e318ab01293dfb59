//! Host-request values that the control ledgers retain: admission and
//! management outcomes, session operations and typed retirement requests.

use vstd::prelude::*;

use crate::ids::{
    ActorId, AuthorityRecordId, CommandId, EntityId, CommandRequestFingerprint, CommandSource, InputId,
    InputRequestFingerprint, ManagementRequestFingerprint, ManagementRequestId,
};
use crate::session::SessionMode;

verus! {

/// One simulated moment: a tick of simulation time and a microstep inside it.
#[derive(Clone, Copy, Debug, PartialEq, Eq, Structural, PartialOrd, Ord, Hash)]
pub struct SimMoment {
    pub ticks: u64,
    pub microstep: u64,
}

impl SimMoment {
    /// Creates a moment from its tick and microstep.
    pub fn new(ticks: u64, microstep: u64) -> (r: Self)
        ensures
            r.ticks == ticks,
            r.microstep == microstep,
    {
        SimMoment { ticks, microstep }
    }

    /// `self` comes strictly before `other` in simulation order.
    pub open spec fn before(self, other: SimMoment) -> bool {
        self.ticks < other.ticks || (self.ticks == other.ticks && self.microstep < other.microstep)
    }

    /// Whether `self` comes strictly before `other` in simulation order.
    pub fn precedes(self, other: SimMoment) -> (r: bool)
        ensures
            r == self.before(other),
    {
        self.ticks < other.ticks || (self.ticks == other.ticks && self.microstep < other.microstep)
    }
}

/// Value bound to one named role of a command.
#[derive(Clone, Copy, Debug, PartialEq, Eq, Structural)]
pub enum CommandValue {
    Actor(ActorId),
    Entity(EntityId),
}

/// One named role binding of a command.
#[derive(Clone, Debug, PartialEq, Eq)]
pub struct CommandBinding {
    pub name: String,
    pub value: CommandValue,
}

/// Identity of one submitted command: who sent it, for which actor, its
/// per-source ID and the digest of its content.
#[derive(Clone, Copy, Debug, PartialEq, Eq, Structural)]
pub struct CommandEnvelope {
    pub source: CommandSource,
    pub actor: ActorId,
    pub id: CommandId,
    pub fingerprint: CommandRequestFingerprint,
}

/// One host input request to admit a command at an effective moment.
#[derive(Clone, Copy, Debug, PartialEq, Eq, Structural)]
pub struct AdmitRequest {
    pub id: InputId,
    pub fingerprint: InputRequestFingerprint,
    pub effective: SimMoment,
    pub command: CommandEnvelope,
}

/// Retained result of one admitted host input.
#[derive(Clone, Copy, Debug, PartialEq, Eq, Structural)]
pub struct AdmitOutcome {
    pub record: AuthorityRecordId,
    pub effective: SimMoment,
}

impl AdmitOutcome {
    /// The input was scheduled by `record` at its effective moment.
    pub fn scheduled(record: AuthorityRecordId, effective: SimMoment) -> (r: Self)
        ensures
            r.record == record,
            r.effective == effective,
    {
        AdmitOutcome { record, effective }
    }
}

/// One typed request to retire a complete terminal prefix of a ledger.
#[derive(Clone, Copy, Debug, PartialEq, Eq, Structural)]
pub enum LedgerRetirement {
    InputThrough(InputId),
    ManagementThrough(ManagementRequestId),
    CommandThrough { source: CommandSource, command: CommandId },
}

/// One host session-management operation.
#[derive(Clone, Copy, Debug, PartialEq, Eq, Structural)]
pub enum SessionManagement {
    Pause,
    Resume,
    Fail,
    Quarantine,
    SealAdmissionThrough(SimMoment),
    Retire(LedgerRetirement),
}

impl SessionManagement {
    /// Session mode that the operation asks for, if it changes the mode at all.
    pub open spec fn requested_mode(self) -> Option<SessionMode> {
        match self {
            SessionManagement::Pause => Some(SessionMode::Paused),
            SessionManagement::Resume => Some(SessionMode::Running),
            SessionManagement::Quarantine => Some(SessionMode::Quarantined),
            SessionManagement::Fail => Some(SessionMode::Failed),
            SessionManagement::SealAdmissionThrough(_) | SessionManagement::Retire(_) => None,
        }
    }

    /// Session mode that the operation asks for, if it changes the mode at all.
    pub fn resulting_mode(self) -> (r: Option<SessionMode>)
        ensures
            r == self.requested_mode(),
    {
        match self {
            SessionManagement::Pause => Some(SessionMode::Paused),
            SessionManagement::Resume => Some(SessionMode::Running),
            SessionManagement::Quarantine => Some(SessionMode::Quarantined),
            SessionManagement::Fail => Some(SessionMode::Failed),
            SessionManagement::SealAdmissionThrough(_) | SessionManagement::Retire(_) => None,
        }
    }
}

/// One host session-management request: its idempotency key, the digest of
/// its content and the operation it asks for.
#[derive(Clone, Copy, Debug, PartialEq, Eq, Structural)]
pub struct ManageRequest {
    pub id: ManagementRequestId,
    pub fingerprint: ManagementRequestFingerprint,
    pub operation: SessionManagement,
}

impl ManageRequest {
    /// Creates a request.
    pub fn new(
        id: ManagementRequestId,
        fingerprint: ManagementRequestFingerprint,
        operation: SessionManagement,
    ) -> (r: Self)
        ensures
            r.id == id,
            r.fingerprint == fingerprint,
            r.operation == operation,
    {
        ManageRequest { id, fingerprint, operation }
    }

    /// Idempotency key of the request.
    pub fn id(self) -> (r: ManagementRequestId)
        ensures
            r == self.id,
    {
        self.id
    }

    /// Digest of the request content.
    pub fn fingerprint(self) -> (r: ManagementRequestFingerprint)
        ensures
            r == self.fingerprint,
    {
        self.fingerprint
    }

    /// Requested operation.
    pub fn operation(self) -> (r: SessionManagement)
        ensures
            r == self.operation,
    {
        self.operation
    }
}

/// Retained result of one applied management request.
#[derive(Clone, Copy, Debug, PartialEq, Eq, Structural)]
pub struct ManageOutcome {
    pub record: AuthorityRecordId,
    pub operation: SessionManagement,
}

impl ManageOutcome {
    /// The operation was applied by `record`.
    pub fn applied(record: AuthorityRecordId, operation: SessionManagement) -> (r: Self)
        ensures
            r.record == record,
            r.operation == operation,
    {
        ManageOutcome { record, operation }
    }
}

/// Stable reason a command attempt was rejected.
#[derive(Clone, Copy, Debug, PartialEq, Eq, Structural, PartialOrd, Ord, Hash)]
pub enum StableCommandRejection {
    IdCollision,
    RequirementUnsatisfied,
    BindingMismatch,
    Conflict,
    Stale,
}

/// Terminal outcome of one command attempt.
#[derive(Clone, Copy, Debug, PartialEq, Eq, Structural, PartialOrd, Ord, Hash)]
pub enum CommandAttemptOutcome {
    Accepted,
    Rejected(StableCommandRejection),
}

} // verus!
