use world_runtime::authority::transition::{
    apply_containment_transfers, apply_relocation_arrival, apply_relocation_departure,
    ActorLocation, ActorPosition, ContainerAuthorityRecord, ContainerRecord, ContainmentRecord,
    ContainmentTransferDelta, ContainmentTransitionError, DomainState, DomainStateError,
    RelocationPositionTransitionError, RelocationProcess, Route,
};
use world_runtime::ids::{ActorId, EntityId};

fn entity(byte: u64) -> EntityId {
    EntityId::new(byte)
}

fn actor(byte: u64) -> ActorId {
    ActorId::new(byte)
}

fn state(capacity: u32) -> DomainState {
    DomainState {
        containers: vec![
            ContainerRecord { container: entity(0x31), capacity: 4 },
            ContainerRecord { container: entity(0x32), capacity },
        ],
        containment: vec![
            ContainmentRecord { item: entity(0x21), container: entity(0x31) },
            ContainmentRecord { item: entity(0x22), container: entity(0x31) },
        ],
        container_authority: vec![ContainerAuthorityRecord {
            actor: actor(0x11),
            container: entity(0x31),
        }],
        actor_positions: vec![
            ActorPosition { actor: actor(0x11), location: ActorLocation::At(entity(0x31)) },
            ActorPosition { actor: actor(0x12), location: ActorLocation::At(entity(0x32)) },
        ],
    }
}

fn transfer(item: u64) -> ContainmentTransferDelta {
    ContainmentTransferDelta {
        actor: actor(0x11),
        item: entity(item),
        expected_source: entity(0x31),
        destination: entity(0x32),
    }
}

fn container_of(domain: &DomainState, item: EntityId) -> Option<EntityId> {
    domain
        .containment
        .iter()
        .find(|record| record.item == item)
        .map(|record| record.container)
}

#[test]
fn complete_delta_set_is_applied_atomically() {
    let base = state(2);
    let successor = apply_containment_transfers(&base, &[transfer(0x21), transfer(0x22)])
        .unwrap_or_else(|error| panic!("combined transfer must be valid: {error:?}"));

    for item in [entity(0x21), entity(0x22)] {
        assert_eq!(container_of(&successor, item), Some(entity(0x32)));
        assert_eq!(container_of(&base, item), Some(entity(0x31)));
    }
    assert_eq!(successor.containers, base.containers);
    assert_eq!(successor.container_authority, base.container_authority);
    assert_eq!(successor.actor_positions, base.actor_positions);
}

#[test]
fn invalid_combined_successor_leaves_the_base_unchanged() {
    let base = state(1);
    let result = apply_containment_transfers(&base, &[transfer(0x21), transfer(0x22)]);

    assert!(matches!(
        result,
        Err(ContainmentTransitionError::InvalidSuccessor(
            DomainStateError::ContainerCapacityExceeded { .. }
        ))
    ));
    assert!(base
        .containment
        .iter()
        .all(|record| record.container == entity(0x31)));
}

#[test]
fn duplicate_item_claim_is_explicit() {
    assert_eq!(
        apply_containment_transfers(&state(2), &[transfer(0x21), transfer(0x21)]),
        Err(ContainmentTransitionError::DuplicateItemClaim { item: entity(0x21) })
    );
}

#[test]
fn capacity_error_names_the_overfull_container() {
    assert_eq!(
        apply_containment_transfers(&state(1), &[transfer(0x21), transfer(0x22)]),
        Err(ContainmentTransitionError::InvalidSuccessor(
            DomainStateError::ContainerCapacityExceeded {
                container: entity(0x32),
                capacity: 1,
                occupancy: 2,
            }
        ))
    );
}

#[test]
fn single_transfer_moves_only_its_item() {
    let successor = apply_containment_transfers(&state(1), &[transfer(0x22)])
        .unwrap_or_else(|error| panic!("single transfer must be valid: {error:?}"));
    assert_eq!(container_of(&successor, entity(0x21)), Some(entity(0x31)));
    assert_eq!(container_of(&successor, entity(0x22)), Some(entity(0x32)));
}

#[test]
fn empty_delta_set_keeps_the_domain() {
    let base = state(2);
    assert_eq!(apply_containment_transfers(&base, &[]), Ok(base.clone()));
}

#[test]
fn each_refused_delta_reports_its_reason() {
    let base = state(2);
    assert_eq!(
        apply_containment_transfers(&base, &[transfer(0x29)]),
        Err(ContainmentTransitionError::ItemNotContained { item: entity(0x29) })
    );
    let wrong_source = ContainmentTransferDelta { expected_source: entity(0x32), ..transfer(0x21) };
    assert_eq!(
        apply_containment_transfers(&base, &[wrong_source]),
        Err(ContainmentTransitionError::SourceMismatch {
            item: entity(0x21),
            actual: entity(0x31),
            expected: entity(0x32),
        })
    );
    let missing = ContainmentTransferDelta { destination: entity(0x39), ..transfer(0x21) };
    assert_eq!(
        apply_containment_transfers(&base, &[missing]),
        Err(ContainmentTransitionError::DestinationContainerMissing { container: entity(0x39) })
    );
    let stranger = ContainmentTransferDelta { actor: actor(0x12), ..transfer(0x21) };
    assert_eq!(
        apply_containment_transfers(&base, &[stranger]),
        Err(ContainmentTransitionError::SourceAuthorityMissing {
            actor: actor(0x12),
            container: entity(0x31),
        })
    );
    assert_eq!(
        apply_containment_transfers(&base, &[transfer(0x21), transfer(0x29)]),
        Err(ContainmentTransitionError::ItemNotContained { item: entity(0x29) })
    );
}

#[test]
fn relocation_departs_and_arrives_along_its_route() {
    let base = state(2);
    let route = Route { source: entity(0x31), destination: entity(0x32) };
    let process = RelocationProcess { actor: actor(0x11), route };

    let departed = apply_relocation_departure(&base, process)
        .unwrap_or_else(|error| panic!("departure must apply: {error:?}"));
    assert_eq!(departed.actor_positions[0].location, ActorLocation::InTransit(route));
    assert_eq!(departed.actor_positions[1], base.actor_positions[1]);
    assert_eq!(departed.containment, base.containment);

    let arrived = apply_relocation_arrival(&departed, process)
        .unwrap_or_else(|error| panic!("arrival must apply: {error:?}"));
    assert_eq!(arrived.actor_positions[0].location, ActorLocation::At(entity(0x32)));
    assert_eq!(arrived.actor_positions[1], base.actor_positions[1]);
}

#[test]
fn relocation_requires_the_exact_current_position() {
    let base = state(2);
    let route = Route { source: entity(0x31), destination: entity(0x32) };
    assert_eq!(
        apply_relocation_arrival(&base, RelocationProcess { actor: actor(0x11), route }),
        Err(RelocationPositionTransitionError::PositionMismatch {
            actor: actor(0x11),
            actual: ActorLocation::At(entity(0x31)),
            expected: ActorLocation::InTransit(route),
        })
    );
    assert_eq!(
        apply_relocation_departure(&base, RelocationProcess { actor: actor(0x19), route }),
        Err(RelocationPositionTransitionError::ActorPositionMissing { actor: actor(0x19) })
    );
}
