//! Built-in runtime roles and effect operations, and the permission checks
//! their staging applies.

use vstd::prelude::*;

use crate::effects::{
    bound_entity, spec_emit_declared, stage_failure, with_change, BoundRuntimeRequest, HardStateChange,
    StageContext, StageFailure, StageState, failed_with, spec_required_role,
};
use crate::error::RuntimeError;
use crate::ids::EntityId;
use crate::validation::{
    RejectedOutcome, RejectionReason, RuntimeValidationFailure, ValidationContext, ValidationView,
};
use crate::model::{EffectKind, EffectOp, RelationFamily, RelationKey, RoleName, StagePermission};

verus! {

/// Role names the built-in handlers bind.
#[derive(Clone, Copy, Debug, PartialEq, Eq, Structural)]
pub enum BuiltinRole {
    Actor,
    Entity,
    Item,
    Destination,
}

/// Static name of a built-in role.
pub open spec fn role_name(role: BuiltinRole) -> Seq<char> {
    match role {
        BuiltinRole::Actor => "actor"@,
        BuiltinRole::Entity => "entity"@,
        BuiltinRole::Item => "item"@,
        BuiltinRole::Destination => "destination"@,
    }
}

impl BuiltinRole {
    /// The static name of the role.
    pub fn as_str(self) -> (r: &'static str)
        ensures
            r@ == role_name(self),
    {
        match self {
            BuiltinRole::Actor => "actor",
            BuiltinRole::Entity => "entity",
            BuiltinRole::Item => "item",
            BuiltinRole::Destination => "destination",
        }
    }

    /// The role's name as a role binding name.
    pub fn name(self) -> (r: Result<RoleName, RuntimeError>)
        ensures
            r matches Ok(name) && name.0@ == role_name(self),
    {
        Ok(RoleName(self.as_str().to_owned()))
    }
}

/// Effect operations with a runtime-owned handler.
#[derive(Clone, Copy, Debug, PartialEq, Eq, Structural)]
pub enum BuiltinEffect {
    InsertEntity,
    TransferEntity,
    RecordEvent,
}

/// The built-in handler of an operation family, if any.
pub open spec fn builtin_for(kind: Seq<char>) -> Option<BuiltinEffect> {
    if kind == "insert_entity"@ {
        Some(BuiltinEffect::InsertEntity)
    } else if kind == "transfer_entity"@ {
        Some(BuiltinEffect::TransferEntity)
    } else if kind == "record_event"@ {
        Some(BuiltinEffect::RecordEvent)
    } else {
        None
    }
}

/// The operation declares a permission to emit event records.
pub open spec fn may_emit_events(operation: EffectOp) -> bool {
    operation.permissions@.contains(StagePermission::EmitPhysicalEventRecord)
        || operation.permissions@.contains(StagePermission::EmitSensoryEventRecord)
}

impl BuiltinEffect {
    /// The built-in handler of the operation family `kind`, if any.
    pub fn from_kind(kind: &EffectKind) -> (r: Option<Self>)
        ensures
            r == builtin_for(kind.0@),
    {
        if kind.0 == "insert_entity".to_owned() {
            Some(BuiltinEffect::InsertEntity)
        } else if kind.0 == "transfer_entity".to_owned() {
            Some(BuiltinEffect::TransferEntity)
        } else if kind.0 == "record_event".to_owned() {
            Some(BuiltinEffect::RecordEvent)
        } else {
            None
        }
    }

    /// The built-in handler of `operation`, or the missing-handler error.
    pub fn from_operation(operation: &EffectOp) -> (r: Result<Self, RuntimeError>)
        ensures
            match builtin_for(operation.kind.0@) {
                Some(effect) => r == Ok::<BuiltinEffect, RuntimeError>(effect),
                None => r == Err::<BuiltinEffect, RuntimeError>(
                    (RuntimeError::MissingEffectHandler { kind: operation.kind }),
                ),
            },
    {
        match BuiltinEffect::from_kind(operation.kind()) {
            Some(effect) => Ok(effect),
            None => Err(RuntimeError::MissingEffectHandler { kind: EffectKind(operation.kind.0.clone()) }),
        }
    }
}

/// Checks that a record-event operation declares a permission to emit events.
pub fn validate_event_permission(operation: &EffectOp) -> (r: Result<(), RuntimeError>)
    ensures
        may_emit_events(*operation) ==> r == Ok::<(), RuntimeError>(()),
        !may_emit_events(*operation) ==> r == Err::<(), RuntimeError>(
            (RuntimeError::PermissionNotDeclared {
                operation: operation.kind,
                permission: StagePermission::EmitPhysicalEventRecord,
            }),
        ),
{
    if operation.requires_permission(StagePermission::EmitPhysicalEventRecord)
        || operation.requires_permission(StagePermission::EmitSensoryEventRecord) {
        Ok(())
    } else {
        Err(
            RuntimeError::PermissionNotDeclared {
                operation: EffectKind(operation.kind.0.clone()),
                permission: StagePermission::EmitPhysicalEventRecord,
            },
        )
    }
}

/// Checks that `operation` declares `permission`.
pub fn require_permission(operation: &EffectOp, permission: StagePermission) -> (r: Result<(), RuntimeError>)
    ensures
        operation.permissions@.contains(permission) ==> r == Ok::<(), RuntimeError>(()),
        !operation.permissions@.contains(permission) ==> r == Err::<(), RuntimeError>(
            (RuntimeError::PermissionNotDeclared { operation: operation.kind, permission }),
        ),
{
    if operation.requires_permission(permission) {
        Ok(())
    } else {
        Err(
            RuntimeError::PermissionNotDeclared {
                operation: EffectKind(operation.kind.0.clone()),
                permission,
            },
        )
    }
}

/// Checks that an operation may emit event records: it declares an event
/// permission or declares no event at all.
pub fn require_event_permission(operation: &EffectOp) -> (r: Result<(), RuntimeError>)
    ensures
        may_emit_events(*operation) || operation.emitted_events@.len() == 0 ==> r == Ok::<
            (),
            RuntimeError,
        >(()),
        !(may_emit_events(*operation) || operation.emitted_events@.len() == 0) ==> r == Err::<
            (),
            RuntimeError,
        >(
            (RuntimeError::PermissionNotDeclared {
                operation: operation.kind,
                permission: StagePermission::EmitPhysicalEventRecord,
            }),
        ),
{
    if operation.requires_permission(StagePermission::EmitPhysicalEventRecord)
        || operation.requires_permission(StagePermission::EmitSensoryEventRecord)
        || operation.emits_no_events() {
        Ok(())
    } else {
        Err(
            RuntimeError::PermissionNotDeclared {
                operation: EffectKind(operation.kind.0.clone()),
                permission: StagePermission::EmitPhysicalEventRecord,
            },
        )
    }
}

/// Staging state after one built-in `effect` stages `operation`.
pub open spec fn spec_stage(
    state: StageState,
    effect: BuiltinEffect,
    operation: EffectOp,
    request: BoundRuntimeRequest,
) -> StageState {
    if state.failure is Some {
        state
    } else {
        match effect {
            BuiltinEffect::InsertEntity => if !operation.permissions@.contains(
                StagePermission::MutatePhysical,
            ) {
                failed_with(
                    state,
                    StageFailure::PermissionNotDeclared {
                        operation: operation.kind.0@,
                        permission: StagePermission::MutatePhysical,
                    },
                )
            } else {
                match spec_required_role(request.roles@, BuiltinRole::Entity) {
                    Err(failure) => failed_with(state, failure),
                    Ok(entity) => if state.stager.entities.contains(entity.0) {
                        failed_with(
                            state,
                            StageFailure::DuplicateVisibleEntity {
                                role: role_name(BuiltinRole::Entity),
                                entity,
                            },
                        )
                    } else {
                        spec_emit_declared(
                            StageState {
                                stager: with_change(
                                    state.stager,
                                    HardStateChange::InsertEntity {
                                        entity,
                                        container: None,
                                        provenance: request.provenance,
                                    },
                                ),
                                ..state
                            },
                            operation,
                            operation.emitted_events@,
                            request,
                        )
                    },
                }
            },
            BuiltinEffect::TransferEntity => if !operation.permissions@.contains(
                StagePermission::MutatePhysical,
            ) {
                failed_with(
                    state,
                    StageFailure::PermissionNotDeclared {
                        operation: operation.kind.0@,
                        permission: StagePermission::MutatePhysical,
                    },
                )
            } else {
                match spec_required_role(request.roles@, BuiltinRole::Item) {
                    Err(failure) => failed_with(state, failure),
                    Ok(item) => match spec_required_role(request.roles@, BuiltinRole::Destination) {
                        Err(failure) => failed_with(state, failure),
                        Ok(destination) => if !state.stager.entities.contains(item.0) {
                            failed_with(
                                state,
                                StageFailure::MissingVisibleEntity {
                                    role: role_name(BuiltinRole::Item),
                                    entity: item,
                                },
                            )
                        } else if !state.stager.entities.contains(destination.0) {
                            failed_with(
                                state,
                                StageFailure::MissingVisibleEntity {
                                    role: role_name(BuiltinRole::Destination),
                                    entity: destination,
                                },
                            )
                        } else if state.stager.relations.contains((item.0, destination.0)) {
                            failed_with(
                                state,
                                StageFailure::DuplicateVisibleRelation {
                                    subject: item,
                                    family: RelationFamily::ContainedIn,
                                    object: destination,
                                },
                            )
                        } else {
                            spec_emit_declared(
                                StageState {
                                    stager: with_change(
                                        state.stager,
                                        HardStateChange::InsertRelation {
                                            subject: item,
                                            family: RelationFamily::ContainedIn,
                                            object: destination,
                                            provenance: request.provenance,
                                        },
                                    ),
                                    ..state
                                },
                                operation,
                                operation.emitted_events@,
                                request,
                            )
                        },
                    },
                }
            },
            BuiltinEffect::RecordEvent => if !may_emit_events(operation) {
                failed_with(
                    state,
                    StageFailure::PermissionNotDeclared {
                        operation: operation.kind.0@,
                        permission: StagePermission::EmitPhysicalEventRecord,
                    },
                )
            } else {
                spec_emit_declared(state, operation, operation.emitted_events@, request)
            },
        }
    }
}

/// A built-in effect stages only with the permissions and the visible state
/// it needs, and an earlier failure stops staging unchanged: inserting an
/// entity needs the physical-mutation permission and an `entity` binding to
/// an entity not yet visible; transferring needs that permission, `item` and
/// `destination` bindings to visible entities and no visible containment of
/// the item in the destination; recording an event needs a permission to emit
/// physical or sensory event records.
pub proof fn lemma_stage_needs_permission_and_visibility(
    state: StageState,
    effect: BuiltinEffect,
    operation: EffectOp,
    request: BoundRuntimeRequest,
)
    ensures
        state.failure is Some ==> spec_stage(state, effect, operation, request) == state,
        state.failure is None && spec_stage(state, effect, operation, request).failure is None ==> match effect {
            BuiltinEffect::InsertEntity => {
                &&& operation.permissions@.contains(StagePermission::MutatePhysical)
                &&& match bound_entity(request.roles@, "entity"@) {
                    Some(entity) => !state.stager.entities.contains(entity.0),
                    None => false,
                }
            },
            BuiltinEffect::TransferEntity => {
                &&& operation.permissions@.contains(StagePermission::MutatePhysical)
                &&& match (bound_entity(request.roles@, "item"@), bound_entity(request.roles@, "destination"@)) {
                    (Some(item), Some(destination)) => {
                        &&& state.stager.entities.contains(item.0)
                        &&& state.stager.entities.contains(destination.0)
                        &&& !state.stager.relations.contains((item.0, destination.0))
                    },
                    _ => false,
                }
            },
            BuiltinEffect::RecordEvent => {
                ||| operation.permissions@.contains(StagePermission::EmitPhysicalEventRecord)
                ||| operation.permissions@.contains(StagePermission::EmitSensoryEventRecord)
            },
        },
{
}

/// Checks that `entity` is visible to the transaction under `role`.
pub fn require_visible_entity(context: &StageContext, role: RoleName, entity: EntityId) -> (r: Result<
    (),
    RuntimeError,
>)
    ensures
        context.stager@.entities.contains(entity.0) ==> r == Ok::<(), RuntimeError>(()),
        !context.stager@.entities.contains(entity.0) ==> r == Err::<(), RuntimeError>(
            RuntimeError::MissingVisibleEntity { role, entity },
        ),
{
    if context.contains_entity(entity) {
        Ok(())
    } else {
        Err(RuntimeError::MissingVisibleEntity { role, entity })
    }
}

/// Stages the insertion of the entity bound to the `entity` role, then the
/// operation's declared events.
pub fn stage_insert_entity(context: &mut StageContext, operation: &EffectOp) -> (r: Result<
    (),
    RuntimeError,
>)
    ensures
        final(context).request == old(context).request,
        ({
            let s = spec_stage(
                old(context).state(),
                BuiltinEffect::InsertEntity,
                *operation,
                old(context).request,
            );
            &&& final(context).stager@ == s.stager
            &&& final(context).event_ids.next == s.next_event
            &&& match r {
                Ok(_) => s.failure is None,
                Err(error) => s.failure == Some(stage_failure(error)),
            }
        }),
{
    if let Err(error) = require_permission(operation, StagePermission::MutatePhysical) {
        return Err(error);
    }
    let (role, entity) = match context.required_role(BuiltinRole::Entity) {
        Ok(bound) => bound,
        Err(error) => {
            return Err(error);
        },
    };
    if context.contains_entity(entity) {
        return Err(RuntimeError::DuplicateVisibleEntity { role, entity });
    }
    let provenance = context.provenance();
    context.push_change(HardStateChange::InsertEntity { entity, container: None, provenance });
    context.emit_declared_events(operation)
}

/// Stages the containment of the bound item in the bound destination, both
/// visible and not already related, then the operation's declared events.
pub fn stage_transfer_entity(context: &mut StageContext, operation: &EffectOp) -> (r: Result<
    (),
    RuntimeError,
>)
    ensures
        final(context).request == old(context).request,
        ({
            let s = spec_stage(
                old(context).state(),
                BuiltinEffect::TransferEntity,
                *operation,
                old(context).request,
            );
            &&& final(context).stager@ == s.stager
            &&& final(context).event_ids.next == s.next_event
            &&& match r {
                Ok(_) => s.failure is None,
                Err(error) => s.failure == Some(stage_failure(error)),
            }
        }),
{
    if let Err(error) = require_permission(operation, StagePermission::MutatePhysical) {
        return Err(error);
    }
    let (item_role, item) = match context.required_role(BuiltinRole::Item) {
        Ok(bound) => bound,
        Err(error) => {
            return Err(error);
        },
    };
    let (destination_role, destination) = match context.required_role(BuiltinRole::Destination) {
        Ok(bound) => bound,
        Err(error) => {
            return Err(error);
        },
    };
    if let Err(error) = require_visible_entity(context, item_role, item) {
        return Err(error);
    }
    if let Err(error) = require_visible_entity(context, destination_role, destination) {
        return Err(error);
    }
    let relation = RelationKey { subject: item, family: RelationFamily::ContainedIn, object: destination };
    if context.contains_relation(relation) {
        return Err(
            RuntimeError::DuplicateVisibleRelation {
                subject: item,
                family: RelationFamily::ContainedIn,
                object: destination,
            },
        );
    }
    let provenance = context.provenance();
    context.push_change(
        HardStateChange::InsertRelation {
            subject: item,
            family: RelationFamily::ContainedIn,
            object: destination,
            provenance,
        },
    );
    context.emit_declared_events(operation)
}

impl BuiltinEffect {
    /// Stages `operation` with this built-in handler.
    pub fn stage(self, context: &mut StageContext, operation: &EffectOp) -> (r: Result<(), RuntimeError>)
        ensures
            final(context).request == old(context).request,
            ({
                let s = spec_stage(old(context).state(), self, *operation, old(context).request);
                &&& final(context).stager@ == s.stager
                &&& final(context).event_ids.next == s.next_event
                &&& match r {
                    Ok(_) => s.failure is None,
                    Err(error) => s.failure == Some(stage_failure(error)),
                }
            }),
    {
        match self {
            BuiltinEffect::InsertEntity => stage_insert_entity(context, operation),
            BuiltinEffect::TransferEntity => stage_transfer_entity(context, operation),
            BuiltinEffect::RecordEvent => {
                if let Err(error) = validate_event_permission(operation) {
                    return Err(error);
                }
                context.emit_declared_events(operation)
            },
        }
    }
}

/// Checks that `entity` is visible to the candidate under `role`, or
/// rejects the action.
pub fn validate_visible_entity(context: &ValidationContext, role: RoleName, entity: EntityId) -> (r:
    Result<(), RuntimeValidationFailure>)
    ensures
        context@.entities.contains(entity.0) ==> r == Ok::<(), RuntimeValidationFailure>(()),
        !context@.entities.contains(entity.0) ==> r == Err::<(), RuntimeValidationFailure>(
            RuntimeValidationFailure::Rejected(
                RejectedOutcome {
                    action: context@.action,
                    reason: RejectionReason::MissingEntity { role, entity },
                },
            ),
        ),
{
    if context.contains_entity(entity) {
        Ok(())
    } else {
        Err(
            RuntimeValidationFailure::Rejected(
                RejectedOutcome {
                    action: context.action(),
                    reason: RejectionReason::MissingEntity { role, entity },
                },
            ),
        )
    }
}

/// `after` and `r` are the exact outcome of validating an entity
/// insertion from `before`.
pub open spec fn insert_entity_validated(
    before: ValidationView,
    after: ValidationView,
    r: Result<(), RuntimeValidationFailure>,
) -> bool {
    &&& after.action == before.action
    &&& after.request == before.request
    &&& after.relations == before.relations
    &&& match bound_entity(before.request.roles@, role_name(BuiltinRole::Entity)) {
        None => (r matches Err(RuntimeValidationFailure::Runtime(RuntimeError::MissingBoundRole { role }))
            && role.0@ == role_name(BuiltinRole::Entity)) && after.entities == before.entities,
        Some(entity) => if before.entities.contains(entity.0) {
            (r matches Err(RuntimeValidationFailure::Rejected(RejectedOutcome {
                action,
                reason: RejectionReason::EntityAlreadyPresent { role, entity: present },
            })) && action == before.action && role.0@ == role_name(BuiltinRole::Entity) && present
                == entity) && after.entities == before.entities
        } else {
            r == Ok::<(), RuntimeValidationFailure>(()) && after.entities == before.entities.insert(
                entity.0,
            )
        },
    }
}

/// `after` and `r` are the exact outcome of validating a containment
/// transfer from `before`.
pub open spec fn transfer_entity_validated(
    before: ValidationView,
    after: ValidationView,
    r: Result<(), RuntimeValidationFailure>,
) -> bool {
    let bound = before.request.roles@;
    let item = bound_entity(bound, role_name(BuiltinRole::Item));
    let destination = bound_entity(bound, role_name(BuiltinRole::Destination));
    &&& after.action == before.action
    &&& after.request == before.request
    &&& after.entities == before.entities
    &&& if item is None {
        (r matches Err(RuntimeValidationFailure::Runtime(RuntimeError::MissingBoundRole { role }))
            && role.0@ == role_name(BuiltinRole::Item)) && after.relations == before.relations
    } else if destination is None {
        (r matches Err(RuntimeValidationFailure::Runtime(RuntimeError::MissingBoundRole { role }))
            && role.0@ == role_name(BuiltinRole::Destination)) && after.relations == before.relations
    } else if !before.entities.contains(item.unwrap().0) {
        (r matches Err(RuntimeValidationFailure::Rejected(RejectedOutcome {
            action,
            reason: RejectionReason::MissingEntity { role, entity },
        })) && action == before.action && role.0@ == role_name(BuiltinRole::Item) && entity
            == item.unwrap()) && after.relations == before.relations
    } else if !before.entities.contains(destination.unwrap().0) {
        (r matches Err(RuntimeValidationFailure::Rejected(RejectedOutcome {
            action,
            reason: RejectionReason::MissingEntity { role, entity },
        })) && action == before.action && role.0@ == role_name(BuiltinRole::Destination) && entity
            == destination.unwrap()) && after.relations == before.relations
    } else if before.relations.contains((item.unwrap().0, destination.unwrap().0)) {
        r == Err::<(), RuntimeValidationFailure>(
            RuntimeValidationFailure::Rejected(
                RejectedOutcome {
                    action: before.action,
                    reason: RejectionReason::RelationAlreadyPresent {
                        subject: item.unwrap(),
                        family: RelationFamily::ContainedIn,
                        object: destination.unwrap(),
                    },
                },
            ),
        ) && after.relations == before.relations
    } else {
        r == Ok::<(), RuntimeValidationFailure>(()) && after.relations == before.relations.insert(
            (item.unwrap().0, destination.unwrap().0),
        )
    }
}

/// Validates the insertion of the entity bound to the `entity` role: it
/// must not be visible yet, and becomes visible afterwards.
pub fn validate_insert_entity(context: &mut ValidationContext) -> (r: Result<
    (),
    RuntimeValidationFailure,
>)
    ensures
        insert_entity_validated(old(context)@, final(context)@, r),
{
    let (role, entity) = match context.required_role(BuiltinRole::Entity) {
        Ok(bound) => bound,
        Err(failure) => {
            return Err(failure);
        },
    };
    if context.contains_entity(entity) {
        return Err(
            RuntimeValidationFailure::Rejected(
                RejectedOutcome {
                    action: context.action(),
                    reason: RejectionReason::EntityAlreadyPresent { role, entity },
                },
            ),
        );
    }
    context.insert_entity(entity);
    Ok(())
}

/// Validates the containment of the bound item in the bound destination:
/// both must be visible and not yet related, and the relation becomes
/// visible afterwards.
pub fn validate_transfer_entity(context: &mut ValidationContext) -> (r: Result<
    (),
    RuntimeValidationFailure,
>)
    ensures
        transfer_entity_validated(old(context)@, final(context)@, r),
{
    let (item_role, item) = match context.required_role(BuiltinRole::Item) {
        Ok(bound) => bound,
        Err(failure) => {
            return Err(failure);
        },
    };
    let (destination_role, destination) = match context.required_role(BuiltinRole::Destination) {
        Ok(bound) => bound,
        Err(failure) => {
            return Err(failure);
        },
    };
    if let Err(failure) = validate_visible_entity(context, item_role, item) {
        return Err(failure);
    }
    if let Err(failure) = validate_visible_entity(context, destination_role, destination) {
        return Err(failure);
    }
    let relation = RelationKey { subject: item, family: RelationFamily::ContainedIn, object: destination };
    if context.contains_relation(relation) {
        return Err(
            RuntimeValidationFailure::Rejected(
                RejectedOutcome {
                    action: context.action(),
                    reason: RejectionReason::RelationAlreadyPresent {
                        subject: item,
                        family: RelationFamily::ContainedIn,
                        object: destination,
                    },
                },
            ),
        );
    }
    context.insert_relation(relation);
    Ok(())
}

impl BuiltinEffect {
    /// Validates `operation` with this built-in handler.
    pub fn validate(self, context: &mut ValidationContext, operation: &EffectOp) -> (r: Result<
        (),
        RuntimeValidationFailure,
    >)
        ensures
            self is InsertEntity ==> insert_entity_validated(old(context)@, final(context)@, r),
            self is TransferEntity ==> transfer_entity_validated(old(context)@, final(context)@, r),
            self is RecordEvent ==> final(context)@ == old(context)@ && (may_emit_events(*operation)
                ==> r == Ok::<(), RuntimeValidationFailure>(())) && (!may_emit_events(*operation)
                ==> r == Err::<(), RuntimeValidationFailure>(
                RuntimeValidationFailure::Runtime(
                    RuntimeError::PermissionNotDeclared {
                        operation: operation.kind,
                        permission: StagePermission::EmitPhysicalEventRecord,
                    },
                ),
            )),
    {
        match self {
            BuiltinEffect::InsertEntity => validate_insert_entity(context),
            BuiltinEffect::TransferEntity => validate_transfer_entity(context),
            BuiltinEffect::RecordEvent => match validate_event_permission(operation) {
                Ok(()) => Ok(()),
                Err(error) => Err(RuntimeValidationFailure::Runtime(error)),
            },
        }
    }
}

/// Validating a built-in mutation either refuses it and leaves the visible
/// state unchanged, or accepts it and records exactly its effect: an accepted
/// insertion makes visible the entity bound as `entity`, which was not
/// visible before; an accepted transfer records the containment of the
/// entity bound as `item` in the one bound as `destination`, both visible
/// before and not yet related.
pub proof fn lemma_validation_records_exactly_the_mutation(
    before: ValidationView,
    after: ValidationView,
    r: Result<(), RuntimeValidationFailure>,
)
    ensures
        insert_entity_validated(before, after, r) ==> {
            &&& after.relations == before.relations
            &&& r is Err ==> after.entities == before.entities
            &&& r is Ok ==> match bound_entity(before.request.roles@, "entity"@) {
                Some(entity) => !before.entities.contains(entity.0) && after.entities == before.entities.insert(
                    entity.0,
                ),
                None => false,
            }
        },
        transfer_entity_validated(before, after, r) ==> {
            &&& after.entities == before.entities
            &&& r is Err ==> after.relations == before.relations
            &&& r is Ok ==> match (bound_entity(before.request.roles@, "item"@), bound_entity(before.request.roles@, "destination"@)) {
                (Some(item), Some(destination)) => {
                    &&& before.entities.contains(item.0)
                    &&& before.entities.contains(destination.0)
                    &&& !before.relations.contains((item.0, destination.0))
                    &&& after.relations == before.relations.insert((item.0, destination.0))
                },
                _ => false,
            }
        },
{
}

} // verus!
