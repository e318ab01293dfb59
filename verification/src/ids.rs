//! Plain-value identities, digests and small value types that the runtime's
//! control logic reads. Each stands for a fixed-size identity by the integer by
//! which it is ordered and found again.

use vstd::prelude::*;

verus! {

/// Sequence number of one host input request.
#[derive(Clone, Copy, Debug, PartialEq, Eq, Structural, PartialOrd, Ord, Hash)]
pub struct InputId(pub u64);

impl InputId {
    /// Wraps a raw value.
    pub fn new(value: u64) -> (r: Self)
        ensures
            r.0 == value,
    {
        InputId(value)
    }

    /// Returns the raw value.
    pub fn get(self) -> (r: u64)
        ensures
            r == self.0,
    {
        self.0
    }
}

/// Sequence number of one host session-management request.
#[derive(Clone, Copy, Debug, PartialEq, Eq, Structural, PartialOrd, Ord, Hash)]
pub struct ManagementRequestId(pub u64);

impl ManagementRequestId {
    /// Wraps a raw value.
    pub fn new(value: u64) -> (r: Self)
        ensures
            r.0 == value,
    {
        ManagementRequestId(value)
    }

    /// Returns the raw value.
    pub fn get(self) -> (r: u64)
        ensures
            r == self.0,
    {
        self.0
    }
}

/// Source-local sequence number of one command.
#[derive(Clone, Copy, Debug, PartialEq, Eq, Structural, PartialOrd, Ord, Hash)]
pub struct CommandId(pub u64);

impl CommandId {
    /// Wraps a raw value.
    pub fn new(value: u64) -> (r: Self)
        ensures
            r.0 == value,
    {
        CommandId(value)
    }

    /// Returns the raw value.
    pub fn get(self) -> (r: u64)
        ensures
            r == self.0,
    {
        self.0
    }
}

/// Identity of the producer that numbers its commands.
#[derive(Clone, Copy, Debug, PartialEq, Eq, Structural, PartialOrd, Ord, Hash)]
pub struct CommandSource(pub u64);

impl CommandSource {
    /// Wraps a raw value.
    pub fn new(value: u64) -> (r: Self)
        ensures
            r.0 == value,
    {
        CommandSource(value)
    }

    /// Returns the raw value.
    pub fn get(self) -> (r: u64)
        ensures
            r == self.0,
    {
        self.0
    }
}

/// Identity of one actor.
#[derive(Clone, Copy, Debug, PartialEq, Eq, Structural, PartialOrd, Ord, Hash)]
pub struct ActorId(pub u64);

impl ActorId {
    /// Wraps a raw value.
    pub fn new(value: u64) -> (r: Self)
        ensures
            r.0 == value,
    {
        ActorId(value)
    }

    /// Returns the raw value.
    pub fn get(self) -> (r: u64)
        ensures
            r == self.0,
    {
        self.0
    }
}

/// Identity of one world entity.
#[derive(Clone, Copy, Debug, PartialEq, Eq, Structural, PartialOrd, Ord, Hash)]
pub struct EntityId(pub u64);

impl EntityId {
    /// Wraps a raw value.
    pub fn new(value: u64) -> (r: Self)
        ensures
            r.0 == value,
    {
        EntityId(value)
    }

    /// Returns the raw value.
    pub fn get(self) -> (r: u64)
        ensures
            r == self.0,
    {
        self.0
    }
}

/// Digest of the complete content of one input request.
#[derive(Clone, Copy, Debug, PartialEq, Eq, Structural, PartialOrd, Ord, Hash)]
pub struct InputRequestFingerprint(pub u64);

impl InputRequestFingerprint {
    /// Wraps a raw value.
    pub fn new(value: u64) -> (r: Self)
        ensures
            r.0 == value,
    {
        InputRequestFingerprint(value)
    }

    /// Returns the raw value.
    pub fn get(self) -> (r: u64)
        ensures
            r == self.0,
    {
        self.0
    }
}

/// Digest of the complete content of one management request.
#[derive(Clone, Copy, Debug, PartialEq, Eq, Structural, PartialOrd, Ord, Hash)]
pub struct ManagementRequestFingerprint(pub u64);

impl ManagementRequestFingerprint {
    /// Wraps a raw value.
    pub fn new(value: u64) -> (r: Self)
        ensures
            r.0 == value,
    {
        ManagementRequestFingerprint(value)
    }

    /// Returns the raw value.
    pub fn get(self) -> (r: u64)
        ensures
            r == self.0,
    {
        self.0
    }
}

/// Digest of the complete content of one command request.
#[derive(Clone, Copy, Debug, PartialEq, Eq, Structural, PartialOrd, Ord, Hash)]
pub struct CommandRequestFingerprint(pub u64);

impl CommandRequestFingerprint {
    /// Wraps a raw value.
    pub fn new(value: u64) -> (r: Self)
        ensures
            r.0 == value,
    {
        CommandRequestFingerprint(value)
    }

    /// Returns the raw value.
    pub fn get(self) -> (r: u64)
        ensures
            r == self.0,
    {
        self.0
    }
}

/// Identity of the captured-input record that published an input.
#[derive(Clone, Copy, Debug, PartialEq, Eq, Structural, PartialOrd, Ord, Hash)]
pub struct CapturedInputRecordId(pub u64);

impl CapturedInputRecordId {
    /// Wraps a raw value.
    pub fn new(value: u64) -> (r: Self)
        ensures
            r.0 == value,
    {
        CapturedInputRecordId(value)
    }

    /// Returns the raw value.
    pub fn get(self) -> (r: u64)
        ensures
            r == self.0,
    {
        self.0
    }
}

/// Identity of the scheduler trigger that carries an admitted command.
#[derive(Clone, Copy, Debug, PartialEq, Eq, Structural, PartialOrd, Ord, Hash)]
pub struct CommandTriggerId(pub u64);

impl CommandTriggerId {
    /// Wraps a raw value.
    pub fn new(value: u64) -> (r: Self)
        ensures
            r.0 == value,
    {
        CommandTriggerId(value)
    }

    /// Returns the raw value.
    pub fn get(self) -> (r: u64)
        ensures
            r == self.0,
    {
        self.0
    }
}

/// Identity of an attempt record: the record that published it and its
/// position among that record's attempts.
#[derive(Clone, Copy, Debug, PartialEq, Eq, Structural, PartialOrd, Ord, Hash)]
pub struct AttemptRecordId {
    pub record: AuthorityRecordId,
    pub index: u32,
}

impl AttemptRecordId {
    /// The identity of the attempt at `index` of `record`.
    pub fn derive(record: AuthorityRecordId, index: u32) -> (r: Self)
        ensures
            r.record == record,
            r.index == index,
    {
        AttemptRecordId { record, index }
    }
}

/// Identity of a containment commit record: the record that published it and
/// its position among that record's commits.
#[derive(Clone, Copy, Debug, PartialEq, Eq, Structural, PartialOrd, Ord, Hash)]
pub struct CommitRecordId {
    pub record: AuthorityRecordId,
    pub index: u32,
}

impl CommitRecordId {
    /// The identity of the commit at `index` of `record`.
    pub fn derive(record: AuthorityRecordId, index: u32) -> (r: Self)
        ensures
            r.record == record,
            r.index == index,
    {
        CommitRecordId { record, index }
    }
}

/// Identity of a reaction envelope: the record that published it and its
/// position among that record's reactions.
#[derive(Clone, Copy, Debug, PartialEq, Eq, Structural, PartialOrd, Ord, Hash)]
pub struct ReactionEnvelopeId {
    pub record: AuthorityRecordId,
    pub index: u32,
}

impl ReactionEnvelopeId {
    /// The identity of the reaction at `index` of `record`.
    pub fn derive(record: AuthorityRecordId, index: u32) -> (r: Self)
        ensures
            r.record == record,
            r.index == index,
    {
        ReactionEnvelopeId { record, index }
    }
}

/// Identity of one published authority record.
#[derive(Clone, Copy, Debug, PartialEq, Eq, Structural, PartialOrd, Ord, Hash)]
pub struct AuthorityRecordId(pub u64);

impl AuthorityRecordId {
    /// Wraps a raw value.
    pub fn new(value: u64) -> (r: Self)
        ensures
            r.0 == value,
    {
        AuthorityRecordId(value)
    }

    /// Returns the raw value.
    pub fn get(self) -> (r: u64)
        ensures
            r == self.0,
    {
        self.0
    }
}

/// Identity of one action opportunity.
#[derive(Clone, Copy, Debug, PartialEq, Eq, Structural, PartialOrd, Ord, Hash)]
pub struct ActionOpportunityId(pub u64);

impl ActionOpportunityId {
    /// Wraps a raw value.
    pub fn new(value: u64) -> (r: Self)
        ensures
            r.0 == value,
    {
        ActionOpportunityId(value)
    }

    /// Returns the raw value.
    pub fn get(self) -> (r: u64)
        ensures
            r == self.0,
    {
        self.0
    }
}

/// Identity of one deferred action-evaluation invocation.
#[derive(Clone, Copy, Debug, PartialEq, Eq, Structural, PartialOrd, Ord, Hash)]
pub struct ActionEvaluationInvocationId(pub u64);

impl ActionEvaluationInvocationId {
    /// Wraps a raw value.
    pub fn new(value: u64) -> (r: Self)
        ensures
            r.0 == value,
    {
        ActionEvaluationInvocationId(value)
    }

    /// Returns the raw value.
    pub fn get(self) -> (r: u64)
        ensures
            r == self.0,
    {
        self.0
    }
}

/// Identity of one delivered piece of evidence.
#[derive(Clone, Copy, Debug, PartialEq, Eq, Structural, PartialOrd, Ord, Hash)]
pub struct EvidenceDeliveryId(pub u64);

impl EvidenceDeliveryId {
    /// Wraps a raw value.
    pub fn new(value: u64) -> (r: Self)
        ensures
            r.0 == value,
    {
        EvidenceDeliveryId(value)
    }

    /// Returns the raw value.
    pub fn get(self) -> (r: u64)
        ensures
            r == self.0,
    {
        self.0
    }
}

/// Identity of one intent.
#[derive(Clone, Copy, Debug, PartialEq, Eq, Structural, PartialOrd, Ord, Hash)]
pub struct IntentId(pub u64);

impl IntentId {
    /// Wraps a raw value.
    pub fn new(value: u64) -> (r: Self)
        ensures
            r.0 == value,
    {
        IntentId(value)
    }

    /// Returns the raw value.
    pub fn get(self) -> (r: u64)
        ensures
            r == self.0,
    {
        self.0
    }
}

/// Digest of the material content of one containment appraisal.
#[derive(Clone, Copy, Debug, PartialEq, Eq, Structural, PartialOrd, Ord, Hash)]
pub struct ContainmentAppraisalFingerprint(pub u64);

impl ContainmentAppraisalFingerprint {
    /// Wraps a raw value.
    pub fn new(value: u64) -> (r: Self)
        ensures
            r.0 == value,
    {
        ContainmentAppraisalFingerprint(value)
    }

    /// Returns the raw value.
    pub fn get(self) -> (r: u64)
        ensures
            r == self.0,
    {
        self.0
    }
}

/// Identity of one runtime process instance.
#[derive(Clone, Copy, Debug, PartialEq, Eq, Structural, PartialOrd, Ord, Hash)]
pub struct ProcessInstanceId(pub u64);

impl ProcessInstanceId {
    /// Wraps a raw value.
    pub fn new(value: u64) -> (r: Self)
        ensures
            r.0 == value,
    {
        ProcessInstanceId(value)
    }

    /// Returns the raw value.
    pub fn get(self) -> (r: u64)
        ensures
            r == self.0,
    {
        self.0
    }
}

/// Identity of one runtime reservation.
#[derive(Clone, Copy, Debug, PartialEq, Eq, Structural, PartialOrd, Ord, Hash)]
pub struct ReservationId(pub u64);

impl ReservationId {
    /// Wraps a raw value.
    pub fn new(value: u64) -> (r: Self)
        ensures
            r.0 == value,
    {
        ReservationId(value)
    }

    /// Returns the raw value.
    pub fn get(self) -> (r: u64)
        ensures
            r == self.0,
    {
        self.0
    }
}

/// Identity of one scheduled wakeup.
#[derive(Clone, Copy, Debug, PartialEq, Eq, Structural, PartialOrd, Ord, Hash)]
pub struct ScheduledWakeupId(pub u64);

impl ScheduledWakeupId {
    /// Wraps a raw value.
    pub fn new(value: u64) -> (r: Self)
        ensures
            r.0 == value,
    {
        ScheduledWakeupId(value)
    }

    /// Returns the raw value.
    pub fn get(self) -> (r: u64)
        ensures
            r == self.0,
    {
        self.0
    }
}

/// Key that ties a runtime change to its provenance.
#[derive(Clone, Copy, Debug, PartialEq, Eq, Structural, PartialOrd, Ord, Hash)]
pub struct ProvenanceKey(pub u64);

impl ProvenanceKey {
    /// Wraps a raw value.
    pub fn new(value: u64) -> (r: Self)
        ensures
            r.0 == value,
    {
        ProvenanceKey(value)
    }

    /// Returns the raw value.
    pub fn get(self) -> (r: u64)
        ensures
            r == self.0,
    {
        self.0
    }
}

/// Identity of one content definition.
#[derive(Clone, Copy, Debug, PartialEq, Eq, Structural, PartialOrd, Ord, Hash)]
pub struct DefinitionId(pub u64);

impl DefinitionId {
    /// Wraps a raw value.
    pub fn new(value: u64) -> (r: Self)
        ensures
            r.0 == value,
    {
        DefinitionId(value)
    }

    /// Returns the raw value.
    pub fn get(self) -> (r: u64)
        ensures
            r == self.0,
    {
        self.0
    }
}

/// Identity of one causal transaction.
#[derive(Clone, Copy, Debug, PartialEq, Eq, Structural, PartialOrd, Ord, Hash)]
pub struct CausalTransactionId(pub u64);

impl CausalTransactionId {
    /// Wraps a raw value.
    pub fn new(value: u64) -> (r: Self)
        ensures
            r.0 == value,
    {
        CausalTransactionId(value)
    }

    /// Returns the raw value.
    pub fn get(self) -> (r: u64)
        ensures
            r == self.0,
    {
        self.0
    }
}

/// Identity of one event record.
#[derive(Clone, Copy, Debug, PartialEq, Eq, Structural, PartialOrd, Ord, Hash)]
pub struct EventRecordId(pub u64);

impl EventRecordId {
    /// Wraps a raw value.
    pub fn new(value: u64) -> (r: Self)
        ensures
            r.0 == value,
    {
        EventRecordId(value)
    }

    /// Returns the raw value.
    pub fn get(self) -> (r: u64)
        ensures
            r == self.0,
    {
        self.0
    }
}

/// Identity of one declared event record kind.
#[derive(Clone, Copy, Debug, PartialEq, Eq, Structural, PartialOrd, Ord, Hash)]
pub struct EventRecordSpec(pub u64);

impl EventRecordSpec {
    /// Wraps a raw value.
    pub fn new(value: u64) -> (r: Self)
        ensures
            r.0 == value,
    {
        EventRecordSpec(value)
    }

    /// Returns the raw value.
    pub fn get(self) -> (r: u64)
        ensures
            r == self.0,
    {
        self.0
    }
}

/// Per-actor generation of delivered evidence; never zero.
#[derive(Clone, Copy, Debug, PartialEq, Eq, Structural, PartialOrd, Ord, Hash)]
pub struct EvidenceDeliveryGeneration(pub u64);

impl EvidenceDeliveryGeneration {
    /// A generation, unless `value` is zero.
    pub fn new(value: u64) -> (r: Option<Self>)
        ensures
            r == (if value == 0 {
                None
            } else {
                Some(EvidenceDeliveryGeneration(value))
            }),
    {
        if value == 0 {
            None
        } else {
            Some(EvidenceDeliveryGeneration(value))
        }
    }

    /// Returns the raw value.
    pub fn get(self) -> (r: u64)
        ensures
            r == self.0,
    {
        self.0
    }
}

} // verus!
