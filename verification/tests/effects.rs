use world_runtime::builtin::{
    validate_insert_entity, validate_transfer_entity, validate_visible_entity, BuiltinEffect,
    BuiltinRole,
};
use world_runtime::control::ids::IdIssuer;
use world_runtime::effects::{
    event_roles, BoundRuntimeRequest, EffectStager, EventRoleBinding, HardStateChange,
    PendingEventRecord, RoleBinding, StageContext, TypedEffectInterpreter,
};
use world_runtime::error::RuntimeError;
use world_runtime::ids::{
    CausalTransactionId, DefinitionId, EntityId, EventRecordId, EventRecordSpec, ProvenanceKey,
};
use world_runtime::model::{
    EffectKind, EffectOp, EventDeclaration, RelationFamily, RoleName, StagePermission,
};
use world_runtime::validation::{
    RejectedOutcome, RejectionReason, RuntimeValidationFailure, ValidationContext,
};

fn role(name: &str) -> RoleName {
    RoleName(name.to_owned())
}

fn request(bindings: &[(&str, u64)]) -> BoundRuntimeRequest {
    BoundRuntimeRequest {
        roles: bindings
            .iter()
            .map(|(name, entity)| RoleBinding { role: role(name), entity: EntityId::new(*entity) })
            .collect(),
        provenance: Some(ProvenanceKey::new(77)),
    }
}

fn context(bindings: &[(&str, u64)], visible: &[u64]) -> StageContext {
    let entities: Vec<EntityId> = visible.iter().map(|entity| EntityId::new(*entity)).collect();
    StageContext::new(
        request(bindings),
        EffectStager::new(CausalTransactionId::new(9), &entities, &[]),
        IdIssuer::new(),
    )
}

fn operation(kind: &str, permissions: Vec<StagePermission>, events: Vec<(u64, Vec<&str>)>) -> EffectOp {
    EffectOp {
        kind: EffectKind(kind.to_owned()),
        permissions,
        emitted_events: events
            .into_iter()
            .map(|(spec, roles)| EventDeclaration {
                spec: EventRecordSpec::new(spec),
                roles: roles.into_iter().map(role).collect(),
            })
            .collect(),
    }
}

#[test]
fn inserted_entity_is_staged_with_its_declared_event() {
    let mut context = context(&[("entity", 100)], &[]);
    let insert = operation(
        "insert_entity",
        vec![StagePermission::MutatePhysical, StagePermission::EmitPhysicalEventRecord],
        vec![(5, vec!["entity"])],
    );
    assert_eq!(TypedEffectInterpreter.interpret(&vec![insert], &mut context), Ok(()));
    assert_eq!(
        context.stager.changes(),
        &vec![HardStateChange::InsertEntity {
            entity: EntityId::new(100),
            container: None,
            provenance: Some(ProvenanceKey::new(77)),
        }]
    );
    assert_eq!(
        context.stager.events(),
        &vec![PendingEventRecord {
            id: EventRecordId::new(1),
            spec: EventRecordSpec::new(5),
            roles: vec![EventRoleBinding { role: role("entity"), entity: EntityId::new(100) }],
            provenance: Some(ProvenanceKey::new(77)),
        }]
    );
    assert!(context.contains_entity(EntityId::new(100)));
    assert_eq!(context.event_ids.next, Some(2));
}

#[test]
fn a_second_insert_of_the_same_entity_is_a_duplicate() {
    let mut context = context(&[("entity", 100)], &[]);
    let insert = operation("insert_entity", vec![StagePermission::MutatePhysical], vec![]);
    assert_eq!(
        TypedEffectInterpreter.interpret(&vec![insert.clone(), insert], &mut context),
        Err(RuntimeError::DuplicateVisibleEntity { role: role("entity"), entity: EntityId::new(100) })
    );
    assert_eq!(context.stager.changes().len(), 1);
}

#[test]
fn staging_reports_missing_roles_handlers_and_permissions() {
    let mut unbound = context(&[], &[]);
    let insert = operation("insert_entity", vec![StagePermission::MutatePhysical], vec![]);
    assert_eq!(
        TypedEffectInterpreter.interpret(&vec![insert], &mut unbound),
        Err(RuntimeError::MissingBoundRole { role: role("entity") })
    );
    let unknown = operation("teleport", vec![], vec![]);
    assert_eq!(
        TypedEffectInterpreter.interpret(&vec![unknown], &mut unbound),
        Err(RuntimeError::MissingEffectHandler { kind: EffectKind("teleport".to_owned()) })
    );
    let silent = operation("record_event", vec![], vec![]);
    assert_eq!(
        BuiltinEffect::RecordEvent.stage(&mut unbound, &silent),
        Err(RuntimeError::PermissionNotDeclared {
            operation: EffectKind("record_event".to_owned()),
            permission: StagePermission::EmitPhysicalEventRecord,
        })
    );
    let unpermitted = operation("insert_entity", vec![], vec![]);
    assert_eq!(
        BuiltinEffect::InsertEntity.stage(&mut unbound, &unpermitted),
        Err(RuntimeError::PermissionNotDeclared {
            operation: EffectKind("insert_entity".to_owned()),
            permission: StagePermission::MutatePhysical,
        })
    );
    assert!(unbound.stager.changes().is_empty());
}

#[test]
fn transfer_requires_visible_unrelated_entities() {
    let transfer = operation("transfer_entity", vec![StagePermission::MutatePhysical], vec![]);
    let mut staged = context(&[("item", 1), ("destination", 2)], &[1, 2]);
    assert_eq!(BuiltinEffect::TransferEntity.stage(&mut staged, &transfer), Ok(()));
    assert_eq!(
        staged.stager.changes(),
        &vec![HardStateChange::InsertRelation {
            subject: EntityId::new(1),
            family: RelationFamily::ContainedIn,
            object: EntityId::new(2),
            provenance: Some(ProvenanceKey::new(77)),
        }]
    );
    assert_eq!(
        BuiltinEffect::TransferEntity.stage(&mut staged, &transfer),
        Err(RuntimeError::DuplicateVisibleRelation {
            subject: EntityId::new(1),
            family: RelationFamily::ContainedIn,
            object: EntityId::new(2),
        })
    );
    let mut hidden = context(&[("item", 1), ("destination", 2)], &[1]);
    assert_eq!(
        BuiltinEffect::TransferEntity.stage(&mut hidden, &transfer),
        Err(RuntimeError::MissingVisibleEntity { role: role("destination"), entity: EntityId::new(2) })
    );
}

#[test]
fn event_emission_checks_permission_identity_and_roles() {
    let record = operation(
        "record_event",
        vec![StagePermission::EmitSensoryEventRecord],
        vec![(3, vec!["actor", "item"])],
    );
    let mut missing_role = context(&[("actor", 4)], &[]);
    assert_eq!(
        BuiltinEffect::RecordEvent.stage(&mut missing_role, &record),
        Err(RuntimeError::MissingBoundRole { role: role("item") })
    );
    let mut exhausted = context(&[("actor", 4), ("item", 5)], &[]);
    exhausted.event_ids = IdIssuer { next: None };
    assert_eq!(
        BuiltinEffect::RecordEvent.stage(&mut exhausted, &record),
        Err(RuntimeError::EventIdExhausted)
    );
    let undeclared = EventDeclaration { spec: EventRecordSpec::new(8), roles: vec![] };
    let mut bound = context(&[("actor", 4), ("item", 5)], &[]);
    assert_eq!(
        bound.emit_event(&record, &undeclared),
        Err(RuntimeError::EventNotDeclaredForOperation {
            operation: EffectKind("record_event".to_owned()),
            event: EventRecordSpec::new(8),
        })
    );
    assert_eq!(BuiltinEffect::RecordEvent.stage(&mut bound, &record), Ok(()));
    assert_eq!(
        event_roles(&vec![role("item")], &bound.request),
        Ok(vec![EventRoleBinding { role: role("item"), entity: EntityId::new(5) }])
    );
}

#[test]
fn an_event_identity_is_staged_once() {
    let mut stager = EffectStager::new(CausalTransactionId::new(3), &[], &[]);
    let event = PendingEventRecord {
        id: EventRecordId::new(6),
        spec: EventRecordSpec::new(1),
        roles: vec![],
        provenance: None,
    };
    assert_eq!(stager.push_event(event.clone()), Ok(()));
    assert_eq!(
        stager.push_event(event),
        Err(RuntimeError::DuplicateStagedEvent {
            transaction: CausalTransactionId::new(3),
            event: EventRecordId::new(6),
        })
    );
    assert_eq!(stager.events().len(), 1);
}

#[test]
fn builtin_role_names_bind_requests() {
    assert_eq!(BuiltinRole::Item.name(), Ok(role("item")));
    let context = context(&[("destination", 12)], &[]);
    assert_eq!(
        context.required_role(BuiltinRole::Destination),
        Ok((role("destination"), EntityId::new(12)))
    );
    assert_eq!(
        context.required_role(BuiltinRole::Actor),
        Err(RuntimeError::MissingBoundRole { role: role("actor") })
    );
}

#[test]
fn validation_rejects_present_entities_and_missing_endpoints() {
    let action = DefinitionId::new(21);
    let mut inserting = ValidationContext::new(action, request(&[("entity", 3)]));
    assert_eq!(validate_insert_entity(&mut inserting), Ok(()));
    assert!(inserting.contains_entity(EntityId::new(3)));
    assert_eq!(
        validate_insert_entity(&mut inserting),
        Err(RuntimeValidationFailure::Rejected(RejectedOutcome {
            action,
            reason: RejectionReason::EntityAlreadyPresent { role: role("entity"), entity: EntityId::new(3) },
        }))
    );

    let mut transferring = ValidationContext::new(action, request(&[("item", 3), ("destination", 4)]));
    assert_eq!(
        validate_transfer_entity(&mut transferring),
        Err(RuntimeValidationFailure::Rejected(RejectedOutcome {
            action,
            reason: RejectionReason::MissingEntity { role: role("item"), entity: EntityId::new(3) },
        }))
    );
    transferring.insert_entity(EntityId::new(3));
    transferring.insert_entity(EntityId::new(4));
    assert_eq!(validate_transfer_entity(&mut transferring), Ok(()));
    assert_eq!(
        validate_transfer_entity(&mut transferring),
        Err(RuntimeValidationFailure::Rejected(RejectedOutcome {
            action,
            reason: RejectionReason::RelationAlreadyPresent {
                subject: EntityId::new(3),
                family: RelationFamily::ContainedIn,
                object: EntityId::new(4),
            },
        }))
    );
    assert_eq!(validate_visible_entity(&transferring, role("item"), EntityId::new(3)), Ok(()));
    let quiet = operation("record_event", vec![], vec![]);
    assert_eq!(
        BuiltinEffect::RecordEvent.validate(&mut transferring, &quiet),
        Err(RuntimeValidationFailure::Runtime(RuntimeError::PermissionNotDeclared {
            operation: EffectKind("record_event".to_owned()),
            permission: StagePermission::EmitPhysicalEventRecord,
        }))
    );
    let mut unbound = ValidationContext::new(action, request(&[]));
    assert_eq!(
        BuiltinEffect::InsertEntity.validate(&mut unbound, &quiet),
        Err(RuntimeValidationFailure::Runtime(RuntimeError::MissingBoundRole { role: role("entity") }))
    );
}
