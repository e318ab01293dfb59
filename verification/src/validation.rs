//! Validation state of one candidate action: the role bindings of its
//! request and the entities and containment relations it would see, with
//! the outcome that rejects it.

use std::collections::BTreeSet;
use vstd::prelude::*;

use crate::builtin::{role_name, BuiltinRole};
use crate::effects::{bound_entity, BoundRuntimeRequest};
use crate::error::RuntimeError;
use crate::ids::{DefinitionId, EntityId};
use crate::model::{RelationFamily, RelationKey, RoleName};

verus! {

/// Why a candidate action was rejected.
#[derive(Clone, Debug, PartialEq, Eq)]
pub enum RejectionReason {
    EntityAlreadyPresent { role: RoleName, entity: EntityId },
    RelationAlreadyPresent { subject: EntityId, family: RelationFamily, object: EntityId },
    MissingEntity { role: RoleName, entity: EntityId },
}

/// A candidate action rejected for a reason.
#[derive(Clone, Debug, PartialEq, Eq)]
pub struct RejectedOutcome {
    pub action: DefinitionId,
    pub reason: RejectionReason,
}

/// Why validation stopped: the action is rejected, or the runtime failed.
#[derive(Clone, Debug, PartialEq, Eq)]
pub enum RuntimeValidationFailure {
    Rejected(RejectedOutcome),
    Runtime(RuntimeError),
}

/// Abstract state of a validation context: what the candidate sees.
pub struct ValidationView {
    pub action: DefinitionId,
    pub request: BoundRuntimeRequest,
    pub entities: Set<u64>,
    pub relations: Set<(u64, u64)>,
}

/// Validation state of one candidate action.
#[derive(Debug)]
pub struct ValidationContext {
    action: DefinitionId,
    request: BoundRuntimeRequest,
    entities: BTreeSet<u64>,
    relations: BTreeSet<(u64, u64)>,
}

impl View for ValidationContext {
    type V = ValidationView;

    closed spec fn view(&self) -> ValidationView {
        ValidationView {
            action: self.action,
            request: self.request,
            entities: self.entities@,
            relations: self.relations@,
        }
    }
}

impl ValidationContext {
    /// A context for `action` bound by `request`, seeing nothing yet.
    pub fn new(action: DefinitionId, request: BoundRuntimeRequest) -> (r: Self)
        ensures
            r@.action == action,
            r@.request == request,
            r@.entities == Set::<u64>::empty(),
            r@.relations == Set::<(u64, u64)>::empty(),
    {
        ValidationContext { action, request, entities: BTreeSet::new(), relations: BTreeSet::new() }
    }

    /// The action being validated.
    pub fn action(&self) -> (r: DefinitionId)
        ensures
            r == self@.action,
    {
        self.action
    }

    /// The role name and entity the request binds to a built-in role.
    pub fn required_role(&self, role: BuiltinRole) -> (r: Result<
        (RoleName, EntityId),
        RuntimeValidationFailure,
    >)
        ensures
            match bound_entity(self@.request.roles@, role_name(role)) {
                Some(entity) => r matches Ok((name, bound)) && name.0@ == role_name(role) && bound
                    == entity,
                None => r matches Err(RuntimeValidationFailure::Runtime(RuntimeError::MissingBoundRole { role: name }))
                    && name.0@ == role_name(role),
            },
    {
        let name = match role.name() {
            Ok(name) => name,
            Err(error) => {
                return Err(RuntimeValidationFailure::Runtime(error));
            },
        };
        match self.request.bound_role_entity(&name) {
            Some(entity) => Ok((name, entity)),
            None => Err(RuntimeValidationFailure::Runtime(RuntimeError::MissingBoundRole { role: name })),
        }
    }

    /// Whether `entity` is visible to the candidate.
    pub fn contains_entity(&self, entity: EntityId) -> (r: bool)
        ensures
            r == self@.entities.contains(entity.0),
    {
        self.entities.contains(&entity.0)
    }

    /// Makes `entity` visible to the rest of the validation.
    pub fn insert_entity(&mut self, entity: EntityId)
        ensures
            final(self)@.entities == old(self)@.entities.insert(entity.0),
            final(self)@.relations == old(self)@.relations,
            final(self)@.action == old(self)@.action,
            final(self)@.request == old(self)@.request,
    {
        self.entities.insert(entity.0);
    }

    /// Whether the containment relation `key` is visible to the candidate.
    pub fn contains_relation(&self, key: RelationKey) -> (r: bool)
        ensures
            r == self@.relations.contains((key.subject.0, key.object.0)),
    {
        self.relations.contains(&(key.subject.0, key.object.0))
    }

    /// Makes the containment relation `key` visible to the rest of the validation.
    pub fn insert_relation(&mut self, key: RelationKey)
        ensures
            final(self)@.relations == old(self)@.relations.insert((key.subject.0, key.object.0)),
            final(self)@.entities == old(self)@.entities,
            final(self)@.action == old(self)@.action,
            final(self)@.request == old(self)@.request,
    {
        self.relations.insert((key.subject.0, key.object.0));
    }
}

} // verus!
