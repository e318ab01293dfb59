//! Staging of typed effect programs: a bound request, the hard-state
//! changes and event records one causal transaction stages over the state
//! it sees, and the interpretation of an effect program operation by
//! operation.

use std::collections::BTreeSet;
use vstd::prelude::*;

use crate::builtin::{
    builtin_for, may_emit_events, require_event_permission, role_name, spec_stage, BuiltinEffect,
    BuiltinRole,
};
use crate::control::ids::IdIssuer;
use crate::error::RuntimeError;
use crate::ids::{CausalTransactionId, EntityId, EventRecordId, EventRecordSpec, ProvenanceKey};
use crate::model::{EffectOp, EventDeclaration, RelationFamily, RelationKey, RoleName, StagePermission};

verus! {

/// One role of a bound request and the entity bound to it.
#[derive(Clone, Debug, PartialEq, Eq)]
pub struct RoleBinding {
    pub role: RoleName,
    pub entity: EntityId,
}

/// A runtime request after binding: its role bindings and the provenance
/// its effects carry.
#[derive(Clone, Debug, PartialEq, Eq)]
pub struct BoundRuntimeRequest {
    pub roles: Vec<RoleBinding>,
    pub provenance: Option<ProvenanceKey>,
}

/// Entity of the first binding whose role is named `role`.
pub open spec fn bound_entity(roles: Seq<RoleBinding>, role: Seq<char>) -> Option<EntityId>
    decreases roles.len(),
{
    if roles.len() == 0 {
        None
    } else if roles[0].role.0@ == role {
        Some(roles[0].entity)
    } else {
        bound_entity(roles.drop_first(), role)
    }
}

/// Skipping bindings of other roles leaves the first match unchanged.
proof fn lemma_bound_entity_from(roles: Seq<RoleBinding>, i: int, role: Seq<char>)
    requires
        0 <= i <= roles.len(),
        forall|j: int| 0 <= j < i ==> #[trigger] roles[j].role.0@ != role,
    ensures
        bound_entity(roles, role) == bound_entity(roles.subrange(i, roles.len() as int), role),
    decreases i,
{
    if i > 0 {
        let rest = roles.drop_first();
        assert forall|j: int| 0 <= j < i - 1 implies #[trigger] rest[j].role.0@ != role by {
            assert(rest[j] == roles[j + 1]);
        }
        lemma_bound_entity_from(rest, i - 1, role);
        assert(rest.subrange(i - 1, rest.len() as int) =~= roles.subrange(i, roles.len() as int));
    } else {
        assert(roles.subrange(0, roles.len() as int) =~= roles);
    }
}

impl BoundRuntimeRequest {
    /// Entity bound to `role`, if any.
    pub fn bound_role_entity(&self, role: &RoleName) -> (r: Option<EntityId>)
        ensures
            r == bound_entity(self.roles@, role.0@),
    {
        let mut i: usize = 0;
        while i < self.roles.len()
            invariant
                i <= self.roles@.len(),
                forall|j: int| 0 <= j < i ==> #[trigger] self.roles@[j].role.0@ != role.0@,
            decreases self.roles@.len() - i,
        {
            if self.roles[i].role.0 == role.0 {
                proof {
                    lemma_bound_entity_from(self.roles@, i as int, role.0@);
                    assert(self.roles@.subrange(i as int, self.roles@.len() as int)[0] == self.roles@[i as int]);
                }
                return Some(self.roles[i].entity);
            }
            i = i + 1;
        }
        proof {
            lemma_bound_entity_from(self.roles@, i as int, role.0@);
        }
        None
    }

    /// Provenance the request's effects carry.
    pub fn provenance(&self) -> (r: Option<ProvenanceKey>)
        ensures
            r == self.provenance,
    {
        self.provenance
    }
}

/// One hard-state change staged by an effect.
#[derive(Clone, Copy, Debug, PartialEq, Eq, Structural)]
pub enum HardStateChange {
    InsertEntity { entity: EntityId, container: Option<EntityId>, provenance: Option<ProvenanceKey> },
    InsertRelation {
        subject: EntityId,
        family: RelationFamily,
        object: EntityId,
        provenance: Option<ProvenanceKey>,
    },
}

/// A role of an emitted event record and the entity bound to it.
#[derive(Clone, Debug, PartialEq, Eq)]
pub struct EventRoleBinding {
    pub role: RoleName,
    pub entity: EntityId,
}

/// An event record staged by an effect.
#[derive(Clone, Debug, PartialEq, Eq)]
pub struct PendingEventRecord {
    pub id: EventRecordId,
    pub spec: EventRecordSpec,
    pub roles: Vec<EventRoleBinding>,
    pub provenance: Option<ProvenanceKey>,
}

/// Abstract value of a staged event record, role names by their text.
pub struct PendingEventView {
    pub id: EventRecordId,
    pub spec: EventRecordSpec,
    pub roles: Seq<(Seq<char>, EntityId)>,
    pub provenance: Option<ProvenanceKey>,
}

/// Role bindings of an event record by their text.
pub open spec fn role_binding_views(roles: Seq<EventRoleBinding>) -> Seq<(Seq<char>, EntityId)> {
    roles.map_values(|binding: EventRoleBinding| (binding.role.0@, binding.entity))
}

impl View for PendingEventRecord {
    type V = PendingEventView;

    open spec fn view(&self) -> PendingEventView {
        PendingEventView {
            id: self.id,
            spec: self.spec,
            roles: role_binding_views(self.roles@),
            provenance: self.provenance,
        }
    }
}

/// Abstract state of a stager: the entities and containment relations the
/// transaction sees, and the changes and events it staged, in order.
pub struct StagerView {
    pub transaction: CausalTransactionId,
    pub entities: Set<u64>,
    pub relations: Set<(u64, u64)>,
    pub changes: Seq<HardStateChange>,
    pub events: Seq<PendingEventView>,
}

/// Stager state after staging `change`: the change is recorded and what it
/// inserts becomes visible.
pub open spec fn with_change(stager: StagerView, change: HardStateChange) -> StagerView {
    match change {
        HardStateChange::InsertEntity { entity, .. } => StagerView {
            entities: stager.entities.insert(entity.0),
            changes: stager.changes.push(change),
            ..stager
        },
        HardStateChange::InsertRelation { subject, object, .. } => StagerView {
            relations: stager.relations.insert((subject.0, object.0)),
            changes: stager.changes.push(change),
            ..stager
        },
    }
}

/// An event with this identity is already staged.
pub open spec fn event_staged(stager: StagerView, id: EventRecordId) -> bool {
    exists|i: int| 0 <= i < stager.events.len() && #[trigger] stager.events[i].id == id
}

/// Hard-state changes and event records one causal transaction stages over
/// the entities and containment relations it sees.
#[derive(Debug)]
pub struct EffectStager {
    transaction: CausalTransactionId,
    entities: BTreeSet<u64>,
    relations: BTreeSet<(u64, u64)>,
    changes: Vec<HardStateChange>,
    events: Vec<PendingEventRecord>,
}

impl View for EffectStager {
    type V = StagerView;

    closed spec fn view(&self) -> StagerView {
        StagerView {
            transaction: self.transaction,
            entities: self.entities@,
            relations: self.relations@,
            changes: self.changes@,
            events: self.events@.map_values(|event: PendingEventRecord| event@),
        }
    }
}

impl EffectStager {
    /// A stager for `transaction` over the visible entities and containment
    /// relations (subject, container), with nothing staged yet.
    pub fn new(
        transaction: CausalTransactionId,
        entities: &[EntityId],
        relations: &[(EntityId, EntityId)],
    ) -> (r: Self)
        ensures
            r@.transaction == transaction,
            r@.entities == entities@.map_values(|entity: EntityId| entity.0).to_set(),
            r@.relations == relations@.map_values(
                |relation: (EntityId, EntityId)| (relation.0.0, relation.1.0),
            ).to_set(),
            r@.changes == Seq::<HardStateChange>::empty(),
            r@.events == Seq::<PendingEventView>::empty(),
    {
        let mut visible: BTreeSet<u64> = BTreeSet::new();
        let mut i: usize = 0;
        while i < entities.len()
            invariant
                i <= entities@.len(),
                visible@ == entities@.subrange(0, i as int).map_values(|entity: EntityId| entity.0).to_set(),
            decreases entities@.len() - i,
        {
            visible.insert(entities[i].0);
            proof {
                assert(entities@.subrange(0, i + 1).map_values(|entity: EntityId| entity.0)
                    =~= entities@.subrange(0, i as int).map_values(|entity: EntityId| entity.0).push(entities@[i as int].0));
                entities@.subrange(0, i as int).map_values(|entity: EntityId| entity.0).lemma_push_to_set_commute(entities@[i as int].0);
            }
            i = i + 1;
        }
        let mut contained: BTreeSet<(u64, u64)> = BTreeSet::new();
        let mut k: usize = 0;
        while k < relations.len()
            invariant
                k <= relations@.len(),
                contained@ == relations@.subrange(0, k as int).map_values(
                    |relation: (EntityId, EntityId)| (relation.0.0, relation.1.0),
                ).to_set(),
            decreases relations@.len() - k,
        {
            let (subject, object) = relations[k];
            contained.insert((subject.0, object.0));
            proof {
                let before = relations@.subrange(0, k as int).map_values(
                    |relation: (EntityId, EntityId)| (relation.0.0, relation.1.0),
                );
                assert(relations@.subrange(0, k + 1).map_values(
                    |relation: (EntityId, EntityId)| (relation.0.0, relation.1.0),
                ) =~= before.push((subject.0, object.0)));
                before.lemma_push_to_set_commute((subject.0, object.0));
            }
            k = k + 1;
        }
        proof {
            assert(entities@.subrange(0, entities@.len() as int) =~= entities@);
            assert(relations@.subrange(0, relations@.len() as int) =~= relations@);
        }
        let r = EffectStager {
            transaction,
            entities: visible,
            relations: contained,
            changes: Vec::new(),
            events: Vec::new(),
        };
        proof {
            assert(r@.events =~= Seq::<PendingEventView>::empty());
        }
        r
    }

    /// Whether `entity` is visible to the transaction.
    pub fn contains_entity(&self, entity: EntityId) -> (r: bool)
        ensures
            r == self@.entities.contains(entity.0),
    {
        self.entities.contains(&entity.0)
    }

    /// Whether the containment relation `key` is visible to the transaction.
    pub fn contains_relation(&self, key: RelationKey) -> (r: bool)
        ensures
            r == self@.relations.contains((key.subject.0, key.object.0)),
    {
        self.relations.contains(&(key.subject.0, key.object.0))
    }

    /// Stages a hard-state change; what it inserts becomes visible.
    pub fn push_change(&mut self, change: HardStateChange)
        ensures
            final(self)@ == with_change(old(self)@, change),
    {
        match change {
            HardStateChange::InsertEntity { entity, .. } => {
                self.entities.insert(entity.0);
            },
            HardStateChange::InsertRelation { subject, object, .. } => {
                self.relations.insert((subject.0, object.0));
            },
        }
        self.changes.push(change);
    }

    /// Stages an event record unless one with its identity is already staged.
    pub fn push_event(&mut self, event: PendingEventRecord) -> (r: Result<(), RuntimeError>)
        ensures
            event_staged(old(self)@, event.id) ==> r == Err::<(), RuntimeError>(
                RuntimeError::DuplicateStagedEvent {
                    transaction: old(self)@.transaction,
                    event: event.id,
                },
            ) && final(self)@ == old(self)@,
            !event_staged(old(self)@, event.id) ==> r == Ok::<(), RuntimeError>(()) && final(self)@
                == (StagerView { events: old(self)@.events.push(event@), ..old(self)@ }),
    {
        let mut i: usize = 0;
        while i < self.events.len()
            invariant
                i <= self@.events.len(),
                self@.events.len() == self.events@.len(),
                forall|j: int| 0 <= j < i ==> #[trigger] self@.events[j].id != event.id,
            decreases self.events@.len() - i,
        {
            if self.events[i].id.0 == event.id.0 {
                proof {
                    assert(self@.events[i as int].id == event.id);
                }
                return Err(
                    RuntimeError::DuplicateStagedEvent { transaction: self.transaction, event: event.id },
                );
            }
            i = i + 1;
        }
        let ghost before = self@;
        let ghost value = event@;
        self.events.push(event);
        proof {
            assert(self@.events =~= before.events.push(value));
        }
        Ok(())
    }

    /// The changes staged so far, in order.
    pub fn changes(&self) -> (r: &Vec<HardStateChange>)
        ensures
            r@ == self@.changes,
    {
        &self.changes
    }

    /// The event records staged so far, in order.
    pub fn events(&self) -> (r: &Vec<PendingEventRecord>)
        ensures
            r@.map_values(|event: PendingEventRecord| event@) == self@.events,
    {
        &self.events
    }
}

/// A staging failure, with names by their text.
pub enum StageFailure {
    MissingEffectHandler { kind: Seq<char> },
    PermissionNotDeclared { operation: Seq<char>, permission: StagePermission },
    MissingBoundRole { role: Seq<char> },
    MissingVisibleEntity { role: Seq<char>, entity: EntityId },
    DuplicateVisibleEntity { role: Seq<char>, entity: EntityId },
    DuplicateVisibleRelation { subject: EntityId, family: RelationFamily, object: EntityId },
    EventNotDeclaredForOperation { operation: Seq<char>, event: EventRecordSpec },
    EventIdExhausted,
    DuplicateStagedEvent { transaction: CausalTransactionId, event: EventRecordId },
    Other,
}

/// The staging failure a runtime error reports.
pub open spec fn stage_failure(error: RuntimeError) -> StageFailure {
    match error {
        RuntimeError::MissingEffectHandler { kind } => StageFailure::MissingEffectHandler {
            kind: kind.0@,
        },
        RuntimeError::PermissionNotDeclared { operation, permission } => StageFailure::PermissionNotDeclared {
            operation: operation.0@,
            permission,
        },
        RuntimeError::MissingBoundRole { role } => StageFailure::MissingBoundRole { role: role.0@ },
        RuntimeError::MissingVisibleEntity { role, entity } => StageFailure::MissingVisibleEntity {
            role: role.0@,
            entity,
        },
        RuntimeError::DuplicateVisibleEntity { role, entity } => StageFailure::DuplicateVisibleEntity {
            role: role.0@,
            entity,
        },
        RuntimeError::DuplicateVisibleRelation { subject, family, object } => StageFailure::DuplicateVisibleRelation {
            subject,
            family,
            object,
        },
        RuntimeError::EventNotDeclaredForOperation { operation, event } => StageFailure::EventNotDeclaredForOperation {
            operation: operation.0@,
            event,
        },
        RuntimeError::EventIdExhausted => StageFailure::EventIdExhausted,
        RuntimeError::DuplicateStagedEvent { transaction, event } => StageFailure::DuplicateStagedEvent {
            transaction,
            event,
        },
        _ => StageFailure::Other,
    }
}

/// Progress of staging: the first failure, if any, the stager and the next
/// event identity.
pub struct StageState {
    pub failure: Option<StageFailure>,
    pub stager: StagerView,
    pub next_event: Option<u64>,
}

/// `state` stopped by `failure`.
pub open spec fn failed_with(state: StageState, failure: StageFailure) -> StageState {
    StageState { failure: Some(failure), ..state }
}

/// Role bindings of an event declaring `declared`, or the first role the
/// request does not bind.
pub open spec fn spec_event_roles(declared: Seq<RoleName>, bound: Seq<RoleBinding>) -> Result<
    Seq<(Seq<char>, EntityId)>,
    StageFailure,
>
    decreases declared.len(),
{
    if declared.len() == 0 {
        Ok(Seq::empty())
    } else {
        match spec_event_roles(declared.drop_last(), bound) {
            Err(failure) => Err(failure),
            Ok(prefix) => match bound_entity(bound, declared.last().0@) {
                None => Err(StageFailure::MissingBoundRole { role: declared.last().0@ }),
                Some(entity) => Ok(prefix.push((declared.last().0@, entity))),
            },
        }
    }
}

/// Once a prefix of the declared roles fails, all of them fail the same way.
proof fn lemma_event_roles_failure_sticks(
    declared: Seq<RoleName>,
    bound: Seq<RoleBinding>,
    k: int,
    failure: StageFailure,
)
    requires
        0 <= k <= declared.len(),
        spec_event_roles(declared.subrange(0, k), bound) == Err::<Seq<(Seq<char>, EntityId)>, StageFailure>(failure),
    ensures
        spec_event_roles(declared, bound) == Err::<Seq<(Seq<char>, EntityId)>, StageFailure>(failure),
    decreases declared.len() - k,
{
    if k < declared.len() {
        assert(declared.subrange(0, k + 1).drop_last() =~= declared.subrange(0, k));
        lemma_event_roles_failure_sticks(declared, bound, k + 1, failure);
    } else {
        assert(declared.subrange(0, k) =~= declared);
    }
}

/// Binds each role an event declares to the request's entity.
pub fn event_roles(declared: &Vec<RoleName>, request: &BoundRuntimeRequest) -> (r: Result<
    Vec<EventRoleBinding>,
    RuntimeError,
>)
    ensures
        match r {
            Ok(roles) => spec_event_roles(declared@, request.roles@) == Ok::<
                Seq<(Seq<char>, EntityId)>,
                StageFailure,
            >(role_binding_views(roles@)),
            Err(error) => spec_event_roles(declared@, request.roles@) == Err::<
                Seq<(Seq<char>, EntityId)>,
                StageFailure,
            >(stage_failure(error)),
        },
{
    let mut roles: Vec<EventRoleBinding> = Vec::new();
    let mut i: usize = 0;
    proof {
        assert(declared@.subrange(0, 0) =~= Seq::<RoleName>::empty());
        assert(role_binding_views(roles@) =~= Seq::<(Seq<char>, EntityId)>::empty());
    }
    while i < declared.len()
        invariant
            i <= declared@.len(),
            spec_event_roles(declared@.subrange(0, i as int), request.roles@) == Ok::<
                Seq<(Seq<char>, EntityId)>,
                StageFailure,
            >(role_binding_views(roles@)),
        decreases declared@.len() - i,
    {
        let role = &declared[i];
        proof {
            assert(declared@.subrange(0, i + 1).drop_last() =~= declared@.subrange(0, i as int));
            assert(declared@.subrange(0, i + 1).last() == *role);
        }
        match request.bound_role_entity(role) {
            Some(entity) => {
                let ghost before = roles@;
                roles.push(EventRoleBinding { role: RoleName(role.0.clone()), entity });
                proof {
                    assert(role_binding_views(roles@) =~= role_binding_views(before).push((role.0@, entity)));
                }
            },
            None => {
                let error = RuntimeError::MissingBoundRole { role: RoleName(role.0.clone()) };
                proof {
                    lemma_event_roles_failure_sticks(
                        declared@,
                        request.roles@,
                        i + 1,
                        stage_failure(error),
                    );
                }
                return Err(error);
            },
        }
        i = i + 1;
    }
    proof {
        assert(declared@.subrange(0, declared@.len() as int) =~= declared@);
    }
    Ok(roles)
}

/// Staging state after emitting one event `declaration` of `operation`.
pub open spec fn spec_emit_event(
    state: StageState,
    operation: EffectOp,
    declaration: EventDeclaration,
    request: BoundRuntimeRequest,
) -> StageState {
    if state.failure is Some {
        state
    } else if !(may_emit_events(operation) || operation.emitted_events@.len() == 0) {
        failed_with(
            state,
            StageFailure::PermissionNotDeclared {
                operation: operation.kind.0@,
                permission: StagePermission::EmitPhysicalEventRecord,
            },
        )
    } else if !operation.declares_event(declaration.spec) {
        failed_with(
            state,
            StageFailure::EventNotDeclaredForOperation {
                operation: operation.kind.0@,
                event: declaration.spec,
            },
        )
    } else {
        match state.next_event {
            None => failed_with(state, StageFailure::EventIdExhausted),
            Some(id) => {
                let issued = StageState {
                    next_event: if id == u64::MAX {
                        None
                    } else {
                        Some((id + 1) as u64)
                    },
                    ..state
                };
                match spec_event_roles(declaration.roles@, request.roles@) {
                    Err(failure) => failed_with(issued, failure),
                    Ok(roles) => if event_staged(state.stager, EventRecordId(id)) {
                        failed_with(
                            issued,
                            StageFailure::DuplicateStagedEvent {
                                transaction: state.stager.transaction,
                                event: EventRecordId(id),
                            },
                        )
                    } else {
                        StageState {
                            stager: StagerView {
                                events: state.stager.events.push(
                                    PendingEventView {
                                        id: EventRecordId(id),
                                        spec: declaration.spec,
                                        roles,
                                        provenance: request.provenance,
                                    },
                                ),
                                ..state.stager
                            },
                            ..issued
                        }
                    },
                }
            },
        }
    }
}

/// Resolved event roles bind each declared role, in order, to the entity the
/// request binds it to.
pub proof fn lemma_event_roles_bind_declared(declared: Seq<RoleName>, bound: Seq<RoleBinding>)
    requires
        spec_event_roles(declared, bound) is Ok,
    ensures
        ({
            let roles = spec_event_roles(declared, bound)->Ok_0;
            &&& roles.len() == declared.len()
            &&& forall|j: int|
                0 <= j < declared.len() ==> (#[trigger] roles[j]).0 == declared[j].0@ && bound_entity(
                    bound,
                    declared[j].0@,
                ) == Some(roles[j].1)
        }),
    decreases declared.len(),
{
    if declared.len() > 0 {
        lemma_event_roles_bind_declared(declared.drop_last(), bound);
        let roles = spec_event_roles(declared, bound)->Ok_0;
        let prefix = spec_event_roles(declared.drop_last(), bound)->Ok_0;
        assert forall|j: int| 0 <= j < declared.len() implies (#[trigger] roles[j]).0 == declared[j].0@
            && bound_entity(bound, declared[j].0@) == Some(roles[j].1) by {
            if j < declared.len() - 1 {
                assert(roles[j] == prefix[j]);
                assert(declared.drop_last()[j] == declared[j]);
            }
        }
    }
}

/// Emitting one declared event, when it succeeds, stages exactly one new
/// event record and changes nothing else: the record takes the next event
/// identity, which no staged record holds, carries the declaration's event
/// and the request's provenance, and binds each declared role in order; the
/// next identity advances by one; staged changes and visible state are kept.
/// Emission needs the operation to declare the event.
pub proof fn lemma_emit_event_stages_one_record(
    state: StageState,
    operation: EffectOp,
    declaration: EventDeclaration,
    request: BoundRuntimeRequest,
)
    ensures
        state.failure is Some ==> spec_emit_event(state, operation, declaration, request) == state,
        ({
            let after = spec_emit_event(state, operation, declaration, request);
            state.failure is None && after.failure is None ==> {
                &&& state.next_event is Some
                &&& exists|j: int|
                    0 <= j < operation.emitted_events@.len() && #[trigger] operation.emitted_events@[j].spec
                        == declaration.spec
                &&& after.stager.events.len() == state.stager.events.len() + 1
                &&& after.stager.events.drop_last() == state.stager.events
                &&& after.stager.events.last().id == EventRecordId(state.next_event->0)
                &&& after.stager.events.last().spec == declaration.spec
                &&& after.stager.events.last().provenance == request.provenance
                &&& forall|i: int|
                    0 <= i < state.stager.events.len() ==> (#[trigger] state.stager.events[i]).id
                        != EventRecordId(state.next_event->0)
                &&& after.stager.events.last().roles.len() == declaration.roles@.len()
                &&& forall|j: int|
                    0 <= j < declaration.roles@.len() ==> (#[trigger] after.stager.events.last().roles[j]).0
                        == declaration.roles@[j].0@ && bound_entity(request.roles@, declaration.roles@[j].0@)
                        == Some(after.stager.events.last().roles[j].1)
                &&& after.next_event == (if state.next_event->0 == u64::MAX {
                    None::<u64>
                } else {
                    Some((state.next_event->0 + 1) as u64)
                })
                &&& after.stager.changes == state.stager.changes
                &&& after.stager.entities == state.stager.entities
                &&& after.stager.relations == state.stager.relations
            }
        }),
{
    let after = spec_emit_event(state, operation, declaration, request);
    if state.failure is None && after.failure is None {
        lemma_event_roles_bind_declared(declaration.roles@, request.roles@);
        let id = state.next_event->0;
        assert forall|i: int| 0 <= i < state.stager.events.len() implies (#[trigger] state.stager.events[i]).id
            != EventRecordId(id) by {
            if state.stager.events[i].id == EventRecordId(id) {
                assert(event_staged(state.stager, EventRecordId(id)));
            }
        }
        assert(after.stager.events.drop_last() =~= state.stager.events);
    }
}

/// Staging state after emitting `declarations` of `operation` in order.
pub open spec fn spec_emit_declared(
    state: StageState,
    operation: EffectOp,
    declarations: Seq<EventDeclaration>,
    request: BoundRuntimeRequest,
) -> StageState
    decreases declarations.len(),
{
    if declarations.len() == 0 {
        state
    } else {
        spec_emit_event(
            spec_emit_declared(state, operation, declarations.drop_last(), request),
            operation,
            declarations.last(),
            request,
        )
    }
}

/// Once staging has failed, nothing further changes it.
proof fn lemma_emit_declared_after_failure(
    state: StageState,
    operation: EffectOp,
    declarations: Seq<EventDeclaration>,
    request: BoundRuntimeRequest,
)
    requires
        state.failure is Some,
    ensures
        spec_emit_declared(state, operation, declarations, request) == state,
    decreases declarations.len(),
{
    if declarations.len() > 0 {
        lemma_emit_declared_after_failure(state, operation, declarations.drop_last(), request);
    }
}

/// Once a prefix of the declarations fails, the rest changes nothing.
proof fn lemma_emit_declared_failure_sticks(
    state: StageState,
    operation: EffectOp,
    declarations: Seq<EventDeclaration>,
    request: BoundRuntimeRequest,
    k: int,
)
    requires
        0 <= k <= declarations.len(),
        spec_emit_declared(state, operation, declarations.subrange(0, k), request).failure is Some,
    ensures
        spec_emit_declared(state, operation, declarations, request) == spec_emit_declared(
            state,
            operation,
            declarations.subrange(0, k),
            request,
        ),
    decreases declarations.len() - k,
{
    if k < declarations.len() {
        assert(declarations.subrange(0, k + 1).drop_last() =~= declarations.subrange(0, k));
        lemma_emit_declared_failure_sticks(state, operation, declarations, request, k + 1);
    } else {
        assert(declarations.subrange(0, k) =~= declarations);
    }
}

/// Entity the request binds to a built-in role, or the missing-role failure.
pub open spec fn spec_required_role(bound: Seq<RoleBinding>, role: BuiltinRole) -> Result<
    EntityId,
    StageFailure,
> {
    match bound_entity(bound, role_name(role)) {
        Some(entity) => Ok(entity),
        None => Err(StageFailure::MissingBoundRole { role: role_name(role) }),
    }
}

/// Staging context of one request: the bound request, the transaction's
/// stager and the issuer of event identities.
#[derive(Debug)]
pub struct StageContext {
    pub request: BoundRuntimeRequest,
    pub stager: EffectStager,
    pub event_ids: IdIssuer,
}

impl StageContext {
    /// Abstract staging state of the context, before any failure.
    pub open spec fn state(&self) -> StageState {
        StageState { failure: None, stager: self.stager@, next_event: self.event_ids.next }
    }

    /// A context over `request`, `stager` and `event_ids`.
    pub fn new(request: BoundRuntimeRequest, stager: EffectStager, event_ids: IdIssuer) -> (r: Self)
        ensures
            r.request == request,
            r.stager@ == stager@,
            r.event_ids == event_ids,
    {
        StageContext { request, stager, event_ids }
    }

    /// The role name and entity the request binds to a built-in role.
    pub fn required_role(&self, role: BuiltinRole) -> (r: Result<(RoleName, EntityId), RuntimeError>)
        ensures
            match spec_required_role(self.request.roles@, role) {
                Ok(entity) => r matches Ok((name, bound)) && name.0@ == role_name(role) && bound
                    == entity,
                Err(failure) => r matches Err(error) && stage_failure(error) == failure,
            },
    {
        let role = match role.name() {
            Ok(name) => name,
            Err(error) => {
                return Err(error);
            },
        };
        match self.request.bound_role_entity(&role) {
            Some(entity) => Ok((role, entity)),
            None => Err(RuntimeError::MissingBoundRole { role }),
        }
    }

    /// Provenance the staged effects carry.
    pub fn provenance(&self) -> (r: Option<ProvenanceKey>)
        ensures
            r == self.request.provenance,
    {
        self.request.provenance()
    }

    /// Whether `entity` is visible to the transaction.
    pub fn contains_entity(&self, entity: EntityId) -> (r: bool)
        ensures
            r == self.stager@.entities.contains(entity.0),
    {
        self.stager.contains_entity(entity)
    }

    /// Whether the containment relation `key` is visible to the transaction.
    pub fn contains_relation(&self, key: RelationKey) -> (r: bool)
        ensures
            r == self.stager@.relations.contains((key.subject.0, key.object.0)),
    {
        self.stager.contains_relation(key)
    }

    /// Stages a hard-state change.
    pub fn push_change(&mut self, change: HardStateChange)
        ensures
            final(self).stager@ == with_change(old(self).stager@, change),
            final(self).request == old(self).request,
            final(self).event_ids == old(self).event_ids,
    {
        self.stager.push_change(change);
    }

    /// Emits one event `declaration` of `operation` as a staged record.
    pub fn emit_event(&mut self, operation: &EffectOp, declaration: &EventDeclaration) -> (r: Result<
        (),
        RuntimeError,
    >)
        ensures
            final(self).request == old(self).request,
            ({
                let s = spec_emit_event(old(self).state(), *operation, *declaration, old(self).request);
                &&& final(self).stager@ == s.stager
                &&& final(self).event_ids.next == s.next_event
                &&& match r {
                    Ok(_) => s.failure is None,
                    Err(error) => s.failure == Some(stage_failure(error)),
                }
            }),
    {
        if let Err(error) = require_event_permission(operation) {
            return Err(error);
        }
        if !operation.emits_event(declaration.spec) {
            return Err(
                RuntimeError::EventNotDeclaredForOperation {
                    operation: crate::model::EffectKind(operation.kind.0.clone()),
                    event: declaration.spec,
                },
            );
        }
        let id = match self.event_ids.issue() {
            Some(id) => id,
            None => {
                return Err(RuntimeError::EventIdExhausted);
            },
        };
        let roles = match event_roles(&declaration.roles, &self.request) {
            Ok(roles) => roles,
            Err(error) => {
                return Err(error);
            },
        };
        let event = PendingEventRecord {
            id: EventRecordId(id),
            spec: declaration.spec,
            roles,
            provenance: self.request.provenance(),
        };
        self.stager.push_event(event)
    }

    /// Emits every event `operation` declares, in order, stopping at the
    /// first failure.
    pub fn emit_declared_events(&mut self, operation: &EffectOp) -> (r: Result<(), RuntimeError>)
        ensures
            final(self).request == old(self).request,
            ({
                let s = spec_emit_declared(
                    old(self).state(),
                    *operation,
                    operation.emitted_events@,
                    old(self).request,
                );
                &&& final(self).stager@ == s.stager
                &&& final(self).event_ids.next == s.next_event
                &&& match r {
                    Ok(_) => s.failure is None,
                    Err(error) => s.failure == Some(stage_failure(error)),
                }
            }),
    {
        let ghost start = old(self).state();
        let ghost request = old(self).request;
        let mut i: usize = 0;
        proof {
            assert(operation.emitted_events@.subrange(0, 0) =~= Seq::<EventDeclaration>::empty());
        }
        while i < operation.emitted_events.len()
            invariant
                i <= operation.emitted_events@.len(),
                self.request == request,
                start == old(self).state(),
                request == old(self).request,
                spec_emit_declared(start, *operation, operation.emitted_events@.subrange(0, i as int), request)
                    == self.state(),
            decreases operation.emitted_events@.len() - i,
        {
            proof {
                assert(operation.emitted_events@.subrange(0, i + 1).drop_last()
                    =~= operation.emitted_events@.subrange(0, i as int));
                assert(operation.emitted_events@.subrange(0, i + 1).last() == operation.emitted_events@[i as int]);
            }
            let result = self.emit_event(operation, &operation.emitted_events[i]);
            if let Err(error) = result {
                proof {
                    lemma_emit_declared_failure_sticks(
                        start,
                        *operation,
                        operation.emitted_events@,
                        request,
                        i + 1,
                    );
                }
                return Err(error);
            }
            i = i + 1;
        }
        proof {
            assert(operation.emitted_events@.subrange(0, operation.emitted_events@.len() as int)
                =~= operation.emitted_events@);
        }
        Ok(())
    }
}

/// Staging state after interpreting `operations` in order.
pub open spec fn spec_interpret(
    state: StageState,
    operations: Seq<EffectOp>,
    request: BoundRuntimeRequest,
) -> StageState
    decreases operations.len(),
{
    if operations.len() == 0 {
        state
    } else {
        let before = spec_interpret(state, operations.drop_last(), request);
        let operation = operations.last();
        if before.failure is Some {
            before
        } else {
            match builtin_for(operation.kind.0@) {
                None => failed_with(
                    before,
                    StageFailure::MissingEffectHandler { kind: operation.kind.0@ },
                ),
                Some(effect) => spec_stage(before, effect, operation, request),
            }
        }
    }
}

/// Once a prefix of the program fails, the rest changes nothing.
proof fn lemma_interpret_failure_sticks(
    state: StageState,
    operations: Seq<EffectOp>,
    request: BoundRuntimeRequest,
    k: int,
)
    requires
        0 <= k <= operations.len(),
        spec_interpret(state, operations.subrange(0, k), request).failure is Some,
    ensures
        spec_interpret(state, operations, request) == spec_interpret(
            state,
            operations.subrange(0, k),
            request,
        ),
    decreases operations.len() - k,
{
    if k < operations.len() {
        assert(operations.subrange(0, k + 1).drop_last() =~= operations.subrange(0, k));
        lemma_interpret_failure_sticks(state, operations, request, k + 1);
    } else {
        assert(operations.subrange(0, k) =~= operations);
    }
}

/// Interpreter of typed effect programs by their built-in handlers.
pub struct TypedEffectInterpreter;

impl TypedEffectInterpreter {
    /// Stages every operation of a program, in order, by its built-in
    /// handler; an operation with no handler, or any staging failure,
    /// stops the program.
    pub fn interpret(&self, operations: &Vec<EffectOp>, context: &mut StageContext) -> (r: Result<
        (),
        RuntimeError,
    >)
        ensures
            final(context).request == old(context).request,
            ({
                let s = spec_interpret(old(context).state(), operations@, old(context).request);
                &&& final(context).stager@ == s.stager
                &&& final(context).event_ids.next == s.next_event
                &&& match r {
                    Ok(_) => s.failure is None,
                    Err(error) => s.failure == Some(stage_failure(error)),
                }
            }),
    {
        let ghost start = old(context).state();
        let ghost request = old(context).request;
        let mut i: usize = 0;
        proof {
            assert(operations@.subrange(0, 0) =~= Seq::<EffectOp>::empty());
        }
        while i < operations.len()
            invariant
                i <= operations@.len(),
                context.request == request,
                start == old(context).state(),
                request == old(context).request,
                spec_interpret(start, operations@.subrange(0, i as int), request) == context.state(),
            decreases operations@.len() - i,
        {
            let operation = &operations[i];
            proof {
                assert(operations@.subrange(0, i + 1).drop_last() =~= operations@.subrange(0, i as int));
                assert(operations@.subrange(0, i + 1).last() == *operation);
            }
            let staged = match BuiltinEffect::from_operation(operation) {
                Ok(effect) => effect.stage(context, operation),
                Err(error) => Err(error),
            };
            if let Err(error) = staged {
                proof {
                    lemma_interpret_failure_sticks(start, operations@, request, i + 1);
                }
                return Err(error);
            }
            i = i + 1;
        }
        proof {
            assert(operations@.subrange(0, operations@.len() as int) =~= operations@);
        }
        Ok(())
    }
}

} // verus!
