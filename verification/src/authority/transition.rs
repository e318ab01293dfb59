//! Pure, all-or-nothing transitions of the accepted physical domain:
//! containment transfers and relocation departures and arrivals.

use std::collections::BTreeSet;
use vstd::prelude::*;

use crate::ids::{ActorId, EntityId};

verus! {

/// A container and the number of items it can hold.
#[derive(Clone, Copy, Debug, PartialEq, Eq, Structural)]
pub struct ContainerRecord {
    pub container: EntityId,
    pub capacity: u32,
}

/// An item and the container that holds it.
#[derive(Clone, Copy, Debug, PartialEq, Eq, Structural)]
pub struct ContainmentRecord {
    pub item: EntityId,
    pub container: EntityId,
}

/// An actor's authority over the contents of a container.
#[derive(Clone, Copy, Debug, PartialEq, Eq, Structural)]
pub struct ContainerAuthorityRecord {
    pub actor: ActorId,
    pub container: EntityId,
}

/// One typed request to move an item, under an actor's authority, out of
/// the container the actor believes holds it into a destination container.
#[derive(Clone, Copy, Debug, PartialEq, Eq, Structural)]
pub struct ContainmentTransferDelta {
    pub actor: ActorId,
    pub item: EntityId,
    pub expected_source: EntityId,
    pub destination: EntityId,
}

/// Why a domain successor is not a valid accepted state.
#[derive(Clone, Copy, Debug, PartialEq, Eq, Structural)]
pub enum DomainStateError {
    ContainerCapacityExceeded { container: EntityId, capacity: u32, occupancy: usize },
}

/// Why a typed containment delta set cannot produce an authoritative successor.
#[derive(Clone, Copy, Debug, PartialEq, Eq, Structural)]
pub enum ContainmentTransitionError {
    ItemNotContained { item: EntityId },
    SourceMismatch { item: EntityId, actual: EntityId, expected: EntityId },
    DestinationContainerMissing { container: EntityId },
    SourceAuthorityMissing { actor: ActorId, container: EntityId },
    DuplicateItemClaim { item: EntityId },
    InvalidSuccessor(DomainStateError),
}

/// A route between two containers.
#[derive(Clone, Copy, Debug, PartialEq, Eq, Structural)]
pub struct Route {
    pub source: EntityId,
    pub destination: EntityId,
}

/// Where an actor is: inside a container, or travelling along a route.
#[derive(Clone, Copy, Debug, PartialEq, Eq, Structural)]
pub enum ActorLocation {
    At(EntityId),
    InTransit(Route),
}

/// An actor and its location.
#[derive(Clone, Copy, Debug, PartialEq, Eq, Structural)]
pub struct ActorPosition {
    pub actor: ActorId,
    pub location: ActorLocation,
}

/// A live relocation: an actor moving along a route.
#[derive(Clone, Copy, Debug, PartialEq, Eq, Structural)]
pub struct RelocationProcess {
    pub actor: ActorId,
    pub route: Route,
}

/// Why one exact relocation position transition could not be applied.
#[derive(Clone, Copy, Debug, PartialEq, Eq, Structural)]
pub enum RelocationPositionTransitionError {
    ActorPositionMissing { actor: ActorId },
    PositionMismatch { actor: ActorId, actual: ActorLocation, expected: ActorLocation },
}

/// The physical part of the accepted domain: containers with their
/// capacities, the containment of each item (sorted by item), the actors'
/// container authority and the actors' positions (sorted by actor).
#[derive(Clone, Debug, PartialEq, Eq)]
pub struct DomainState {
    pub containers: Vec<ContainerRecord>,
    pub containment: Vec<ContainmentRecord>,
    pub container_authority: Vec<ContainerAuthorityRecord>,
    pub actor_positions: Vec<ActorPosition>,
}

/// Actors appear in strictly increasing order, so each actor at most once.
pub open spec fn actors_sorted(positions: Seq<ActorPosition>) -> bool {
    forall|i: int, j: int| 0 <= i < j < positions.len() ==> positions[i].actor.0 < positions[j].actor.0
}

/// Items appear in strictly increasing order, so each item at most once.
pub open spec fn items_sorted(records: Seq<ContainmentRecord>) -> bool {
    forall|i: int, j: int| 0 <= i < j < records.len() ==> records[i].item.0 < records[j].item.0
}

impl DomainState {
    /// The containment list is sorted by item and the positions by actor.
    pub open spec fn wf(self) -> bool {
        items_sorted(self.containment@) && actors_sorted(self.actor_positions@)
    }
}

/// First containment record of `item`, if any.
pub open spec fn containment_for(records: Seq<ContainmentRecord>, item: EntityId) -> Option<
    ContainmentRecord,
>
    decreases records.len(),
{
    if records.len() == 0 {
        None
    } else if records[0].item == item {
        Some(records[0])
    } else {
        containment_for(records.drop_first(), item)
    }
}

/// `container` is a known container.
pub open spec fn has_container(containers: Seq<ContainerRecord>, container: EntityId) -> bool {
    exists|i: int| 0 <= i < containers.len() && #[trigger] containers[i].container == container
}

/// `actor` holds authority over `container`.
pub open spec fn controls(
    authority: Seq<ContainerAuthorityRecord>,
    actor: ActorId,
    container: EntityId,
) -> bool {
    exists|i: int|
        0 <= i < authority.len() && #[trigger] authority[i] == (ContainerAuthorityRecord {
            actor,
            container,
        })
}

/// Why `delta` is refused, given the deltas before it in the same set.
pub open spec fn transfer_rejection(
    base: DomainState,
    prior: Seq<ContainmentTransferDelta>,
    delta: ContainmentTransferDelta,
) -> Option<ContainmentTransitionError> {
    if exists|j: int| 0 <= j < prior.len() && #[trigger] prior[j].item == delta.item {
        Some(ContainmentTransitionError::DuplicateItemClaim { item: delta.item })
    } else {
        match containment_for(base.containment@, delta.item) {
            None => Some(ContainmentTransitionError::ItemNotContained { item: delta.item }),
            Some(current) => if current.container != delta.expected_source {
                Some(
                    ContainmentTransitionError::SourceMismatch {
                        item: delta.item,
                        actual: current.container,
                        expected: delta.expected_source,
                    },
                )
            } else if !has_container(base.containers@, delta.destination) {
                Some(
                    ContainmentTransitionError::DestinationContainerMissing {
                        container: delta.destination,
                    },
                )
            } else if !controls(base.container_authority@, delta.actor, delta.expected_source) {
                Some(
                    ContainmentTransitionError::SourceAuthorityMissing {
                        actor: delta.actor,
                        container: delta.expected_source,
                    },
                )
            } else {
                None
            },
        }
    }
}

/// First refused delta of the set, in order.
pub open spec fn first_rejection(
    base: DomainState,
    deltas: Seq<ContainmentTransferDelta>,
) -> Option<ContainmentTransitionError>
    decreases deltas.len(),
{
    if deltas.len() == 0 {
        None
    } else {
        match first_rejection(base, deltas.drop_last()) {
            Some(error) => Some(error),
            None => transfer_rejection(base, deltas.drop_last(), deltas.last()),
        }
    }
}

/// Destination that the last delta naming `item` moves it to.
pub open spec fn last_destination(deltas: Seq<ContainmentTransferDelta>, item: EntityId) -> Option<
    EntityId,
>
    decreases deltas.len(),
{
    if deltas.len() == 0 {
        None
    } else if deltas.last().item == item {
        Some(deltas.last().destination)
    } else {
        last_destination(deltas.drop_last(), item)
    }
}

/// Containment after every delta of the set has moved its item.
pub open spec fn transferred(
    records: Seq<ContainmentRecord>,
    deltas: Seq<ContainmentTransferDelta>,
) -> Seq<ContainmentRecord> {
    records.map_values(
        |record: ContainmentRecord|
            match last_destination(deltas, record.item) {
                Some(destination) => ContainmentRecord { item: record.item, container: destination },
                None => record,
            },
    )
}

/// Number of items that `records` place in `container`.
pub open spec fn occupancy(records: Seq<ContainmentRecord>, container: EntityId) -> nat
    decreases records.len(),
{
    if records.len() == 0 {
        0
    } else {
        occupancy(records.drop_last(), container) + (if records.last().container == container {
            1nat
        } else {
            0nat
        })
    }
}

/// First container, in order, that `records` fill beyond its capacity.
pub open spec fn first_overfull(
    containers: Seq<ContainerRecord>,
    records: Seq<ContainmentRecord>,
) -> Option<DomainStateError>
    decreases containers.len(),
{
    if containers.len() == 0 {
        None
    } else {
        match first_overfull(containers.drop_last(), records) {
            Some(error) => Some(error),
            None => {
                let last = containers.last();
                if occupancy(records, last.container) > last.capacity {
                    Some(
                        DomainStateError::ContainerCapacityExceeded {
                            container: last.container,
                            capacity: last.capacity,
                            occupancy: occupancy(records, last.container) as usize,
                        },
                    )
                } else {
                    None
                }
            },
        }
    }
}

/// Exact answer of applying a delta set to `base`: the successor
/// containment, or the first refusal.
pub open spec fn containment_transition(
    base: DomainState,
    deltas: Seq<ContainmentTransferDelta>,
) -> Result<Seq<ContainmentRecord>, ContainmentTransitionError> {
    match first_rejection(base, deltas) {
        Some(error) => Err(error),
        None => {
            let next = transferred(base.containment@, deltas);
            match first_overfull(base.containers@, next) {
                Some(error) => Err(ContainmentTransitionError::InvalidSuccessor(error)),
                None => Ok(next),
            }
        },
    }
}

/// Skipping records that do not hold `item` leaves its first record unchanged.
proof fn lemma_containment_for_from(records: Seq<ContainmentRecord>, i: int, item: EntityId)
    requires
        0 <= i <= records.len(),
        forall|j: int| 0 <= j < i ==> #[trigger] records[j].item != item,
    ensures
        containment_for(records, item) == containment_for(records.subrange(i, records.len() as int), item),
    decreases i,
{
    if i > 0 {
        assert(records[0].item != item);
        let rest = records.drop_first();
        assert forall|j: int| 0 <= j < i - 1 implies #[trigger] rest[j].item != item by {
            assert(rest[j] == records[j + 1]);
        }
        lemma_containment_for_from(rest, i - 1, item);
        assert(rest.subrange(i - 1, rest.len() as int) =~= records.subrange(i, records.len() as int));
    } else {
        assert(records.subrange(0, records.len() as int) =~= records);
    }
}

/// Position of the first record of `item`.
fn find_containment(records: &Vec<ContainmentRecord>, item: EntityId) -> (r: Option<usize>)
    ensures
        match r {
            Some(i) => i < records@.len() && records@[i as int].item == item && containment_for(
                records@,
                item,
            ) == Some(records@[i as int]),
            None => containment_for(records@, item) is None && forall|j: int|
                0 <= j < records@.len() ==> #[trigger] records@[j].item != item,
        },
{
    let mut i: usize = 0;
    while i < records.len()
        invariant
            i <= records@.len(),
            forall|j: int| 0 <= j < i ==> #[trigger] records@[j].item != item,
        decreases records@.len() - i,
    {
        if records[i].item.0 == item.0 {
            proof {
                lemma_containment_for_from(records@, i as int, item);
                assert(records@.subrange(i as int, records@.len() as int)[0] == records@[i as int]);
            }
            return Some(i);
        }
        i = i + 1;
    }
    proof {
        lemma_containment_for_from(records@, i as int, item);
    }
    None
}

/// Whether `container` is a known container.
fn find_container(containers: &Vec<ContainerRecord>, container: EntityId) -> (r: bool)
    ensures
        r == has_container(containers@, container),
{
    let mut i: usize = 0;
    while i < containers.len()
        invariant
            i <= containers@.len(),
            forall|j: int| 0 <= j < i ==> #[trigger] containers@[j].container != container,
        decreases containers@.len() - i,
    {
        if containers[i].container.0 == container.0 {
            return true;
        }
        i = i + 1;
    }
    false
}

/// Whether `actor` holds authority over `container`.
fn find_authority(
    authority: &Vec<ContainerAuthorityRecord>,
    actor: ActorId,
    container: EntityId,
) -> (r: bool)
    ensures
        r == controls(authority@, actor, container),
{
    let mut i: usize = 0;
    while i < authority.len()
        invariant
            i <= authority@.len(),
            forall|j: int|
                0 <= j < i ==> #[trigger] authority@[j] != (ContainerAuthorityRecord { actor, container }),
        decreases authority@.len() - i,
    {
        if authority[i].actor.0 == actor.0 && authority[i].container.0 == container.0 {
            return true;
        }
        i = i + 1;
    }
    false
}

/// Once a prefix of the delta set is refused, the whole set is refused the same way.
proof fn lemma_first_rejection_sticks(
    base: DomainState,
    deltas: Seq<ContainmentTransferDelta>,
    k: int,
    error: ContainmentTransitionError,
)
    requires
        0 <= k <= deltas.len(),
        first_rejection(base, deltas.subrange(0, k)) == Some(error),
    ensures
        first_rejection(base, deltas) == Some(error),
    decreases deltas.len() - k,
{
    if k < deltas.len() {
        assert(deltas.subrange(0, k + 1).drop_last() =~= deltas.subrange(0, k));
        lemma_first_rejection_sticks(base, deltas, k + 1, error);
    } else {
        assert(deltas.subrange(0, k) =~= deltas);
    }
}

/// Checks every delta of the set against `base`, in order.
fn check_transfers(base: &DomainState, deltas: &[ContainmentTransferDelta]) -> (r: Result<
    (),
    ContainmentTransitionError,
>)
    ensures
        r == (match first_rejection(*base, deltas@) {
            Some(error) => Err::<(), ContainmentTransitionError>(error),
            None => Ok(()),
        }),
{
    let mut claimed: BTreeSet<u64> = BTreeSet::new();
    let mut i: usize = 0;
    proof {
        assert(deltas@.subrange(0, 0) =~= Seq::<ContainmentTransferDelta>::empty());
    }
    while i < deltas.len()
        invariant
            i <= deltas@.len(),
            first_rejection(*base, deltas@.subrange(0, i as int)) is None,
            forall|x: u64|
                claimed@.contains(x) <==> exists|j: int|
                    0 <= j < i && #[trigger] deltas@[j].item.0 == x,
        decreases deltas@.len() - i,
    {
        let delta = deltas[i];
        let ghost prior = deltas@.subrange(0, i as int);
        proof {
            assert(deltas@.subrange(0, i + 1).drop_last() =~= prior);
            assert(deltas@.subrange(0, i + 1).last() == delta);
            assert forall|j: int| 0 <= j < prior.len() implies prior[j] == deltas@[j] by {}
        }
        let fresh = claimed.insert(delta.item.0);
        let mut rejection: Option<ContainmentTransitionError> = None;
        if !fresh {
            proof {
                let j = choose|j: int| 0 <= j < i && #[trigger] deltas@[j].item.0 == delta.item.0;
                assert(prior[j].item == delta.item);
            }
            rejection = Some(ContainmentTransitionError::DuplicateItemClaim { item: delta.item });
        } else {
            proof {
                assert forall|j: int| 0 <= j < prior.len() implies #[trigger] prior[j].item
                    != delta.item by {
                    assert(prior[j] == deltas@[j]);
                    if prior[j].item == delta.item {
                        assert(deltas@[j].item.0 == delta.item.0);
                    }
                }
            }
            match find_containment(&base.containment, delta.item) {
                None => {
                    rejection = Some(ContainmentTransitionError::ItemNotContained { item: delta.item });
                },
                Some(index) => {
                    let current = base.containment[index];
                    if current.container.0 != delta.expected_source.0 {
                        rejection = Some(
                            ContainmentTransitionError::SourceMismatch {
                                item: delta.item,
                                actual: current.container,
                                expected: delta.expected_source,
                            },
                        );
                    } else if !find_container(&base.containers, delta.destination) {
                        rejection = Some(
                            ContainmentTransitionError::DestinationContainerMissing {
                                container: delta.destination,
                            },
                        );
                    } else if !find_authority(
                        &base.container_authority,
                        delta.actor,
                        delta.expected_source,
                    ) {
                        rejection = Some(
                            ContainmentTransitionError::SourceAuthorityMissing {
                                actor: delta.actor,
                                container: delta.expected_source,
                            },
                        );
                    }
                },
            }
        }
        proof {
            assert(rejection == transfer_rejection(*base, prior, delta));
        }
        if let Some(error) = rejection {
            proof {
                lemma_first_rejection_sticks(*base, deltas@, i + 1, error);
            }
            return Err(error);
        }
        proof {
            assert forall|x: u64| claimed@.contains(x) <==> exists|j: int|
                0 <= j < i + 1 && #[trigger] deltas@[j].item.0 == x by {
                if x == delta.item.0 {
                    assert(deltas@[i as int].item.0 == x);
                }
            }
        }
        i = i + 1;
    }
    proof {
        assert(deltas@.subrange(0, deltas@.len() as int) =~= deltas@);
    }
    Ok(())
}

/// Deltas after position `k` that do not name `item` do not change where it goes.
proof fn lemma_last_destination_prefix(
    deltas: Seq<ContainmentTransferDelta>,
    k: int,
    item: EntityId,
)
    requires
        0 <= k <= deltas.len(),
        forall|j: int| k <= j < deltas.len() ==> #[trigger] deltas[j].item != item,
    ensures
        last_destination(deltas, item) == last_destination(deltas.subrange(0, k), item),
    decreases deltas.len() - k,
{
    if k < deltas.len() {
        assert(deltas.last().item != item);
        let shorter = deltas.drop_last();
        assert forall|j: int| k <= j < shorter.len() implies #[trigger] shorter[j].item != item by {
            assert(shorter[j] == deltas[j]);
        }
        lemma_last_destination_prefix(shorter, k, item);
        assert(shorter.subrange(0, k) =~= deltas.subrange(0, k));
    } else {
        assert(deltas.subrange(0, k) =~= deltas);
    }
}

/// Destination of the last delta that names `item`.
fn find_destination(deltas: &[ContainmentTransferDelta], item: EntityId) -> (r: Option<EntityId>)
    ensures
        r == last_destination(deltas@, item),
{
    let mut i: usize = deltas.len();
    while i > 0
        invariant
            i <= deltas@.len(),
            forall|j: int| i <= j < deltas@.len() ==> #[trigger] deltas@[j].item != item,
        decreases i,
    {
        i = i - 1;
        if deltas[i].item.0 == item.0 {
            proof {
                lemma_last_destination_prefix(deltas@, i + 1, item);
                assert(deltas@.subrange(0, i + 1).last() == deltas@[i as int]);
            }
            return Some(deltas[i].destination);
        }
    }
    proof {
        lemma_last_destination_prefix(deltas@, 0, item);
    }
    None
}

/// Containment after every delta of the set has moved its item.
fn move_items(records: &Vec<ContainmentRecord>, deltas: &[ContainmentTransferDelta]) -> (r: Vec<
    ContainmentRecord,
>)
    ensures
        r@ == transferred(records@, deltas@),
{
    let mut moved: Vec<ContainmentRecord> = Vec::new();
    let mut i: usize = 0;
    while i < records.len()
        invariant
            i <= records@.len(),
            moved@ == transferred(records@.subrange(0, i as int), deltas@),
        decreases records@.len() - i,
    {
        let record = records[i];
        let next = match find_destination(deltas, record.item) {
            Some(destination) => ContainmentRecord { item: record.item, container: destination },
            None => record,
        };
        moved.push(next);
        proof {
            assert(records@.subrange(0, i + 1) =~= records@.subrange(0, i as int).push(record));
            assert(moved@ =~= transferred(records@.subrange(0, i + 1), deltas@));
        }
        i = i + 1;
    }
    proof {
        assert(records@.subrange(0, records@.len() as int) =~= records@);
    }
    moved
}

/// Number of items that `records` place in `container`.
fn count_occupancy(records: &Vec<ContainmentRecord>, container: EntityId) -> (r: usize)
    ensures
        r == occupancy(records@, container),
{
    let mut count: usize = 0;
    let mut i: usize = 0;
    while i < records.len()
        invariant
            i <= records@.len(),
            count <= i,
            count == occupancy(records@.subrange(0, i as int), container),
        decreases records@.len() - i,
    {
        proof {
            assert(records@.subrange(0, i + 1).drop_last() =~= records@.subrange(0, i as int));
        }
        if records[i].container.0 == container.0 {
            count = count + 1;
        }
        i = i + 1;
    }
    proof {
        assert(records@.subrange(0, records@.len() as int) =~= records@);
    }
    count
}

/// Once a prefix of the containers is overfull, the first such stays the answer.
proof fn lemma_first_overfull_sticks(
    containers: Seq<ContainerRecord>,
    records: Seq<ContainmentRecord>,
    k: int,
    error: DomainStateError,
)
    requires
        0 <= k <= containers.len(),
        first_overfull(containers.subrange(0, k), records) == Some(error),
    ensures
        first_overfull(containers, records) == Some(error),
    decreases containers.len() - k,
{
    if k < containers.len() {
        assert(containers.subrange(0, k + 1).drop_last() =~= containers.subrange(0, k));
        lemma_first_overfull_sticks(containers, records, k + 1, error);
    } else {
        assert(containers.subrange(0, k) =~= containers);
    }
}

/// Checks that no container holds more items than its capacity.
fn check_capacity(containers: &Vec<ContainerRecord>, records: &Vec<ContainmentRecord>) -> (r: Result<
    (),
    DomainStateError,
>)
    ensures
        r == (match first_overfull(containers@, records@) {
            Some(error) => Err::<(), DomainStateError>(error),
            None => Ok(()),
        }),
{
    let mut i: usize = 0;
    proof {
        assert(containers@.subrange(0, 0) =~= Seq::<ContainerRecord>::empty());
    }
    while i < containers.len()
        invariant
            i <= containers@.len(),
            first_overfull(containers@.subrange(0, i as int), records@) is None,
        decreases containers@.len() - i,
    {
        let container = containers[i];
        let count = count_occupancy(records, container.container);
        proof {
            assert(containers@.subrange(0, i + 1).drop_last() =~= containers@.subrange(0, i as int));
            assert(containers@.subrange(0, i + 1).last() == container);
        }
        if count > container.capacity as usize {
            let error = DomainStateError::ContainerCapacityExceeded {
                container: container.container,
                capacity: container.capacity,
                occupancy: count,
            };
            proof {
                lemma_first_overfull_sticks(containers@, records@, i + 1, error);
            }
            return Err(error);
        }
        i = i + 1;
    }
    proof {
        assert(containers@.subrange(0, containers@.len() as int) =~= containers@);
    }
    Ok(())
}

/// Applies a complete typed containment delta set to `base`, all or nothing:
/// every delta is checked against the base first, then every item moves at
/// once and the successor must respect every container's capacity. The
/// base is never changed.
pub fn apply_containment_transfers(
    base: &DomainState,
    deltas: &[ContainmentTransferDelta],
) -> (r: Result<DomainState, ContainmentTransitionError>)
    ensures
        match r {
            Ok(next) => containment_transition(*base, deltas@) == Ok::<
                Seq<ContainmentRecord>,
                ContainmentTransitionError,
            >(next.containment@) && next.containers@ == base.containers@
                && next.container_authority@ == base.container_authority@
                && next.actor_positions@ == base.actor_positions@ && (base.wf()
                ==> next.wf()),
            Err(error) => containment_transition(*base, deltas@) == Err::<
                Seq<ContainmentRecord>,
                ContainmentTransitionError,
            >(error),
        },
{
    if let Err(error) = check_transfers(base, deltas) {
        return Err(error);
    }
    let containment = move_items(&base.containment, deltas);
    if let Err(error) = check_capacity(&base.containers, &containment) {
        return Err(ContainmentTransitionError::InvalidSuccessor(error));
    }
    let containers = base.containers.clone();
    let container_authority = base.container_authority.clone();
    let actor_positions = base.actor_positions.clone();
    proof {
        assert(containers@ =~= base.containers@);
        assert(container_authority@ =~= base.container_authority@);
        assert(actor_positions@ =~= base.actor_positions@);
    }
    Ok(DomainState { containers, containment, container_authority, actor_positions })
}

/// Every delta of an accepted set passed its own check against the base.
proof fn lemma_accepted_deltas(base: DomainState, deltas: Seq<ContainmentTransferDelta>)
    requires
        first_rejection(base, deltas) is None,
    ensures
        forall|j: int|
            0 <= j < deltas.len() ==> #[trigger] transfer_rejection(
                base,
                deltas.subrange(0, j),
                deltas[j],
            ) is None,
    decreases deltas.len(),
{
    if deltas.len() > 0 {
        let shorter = deltas.drop_last();
        lemma_accepted_deltas(base, shorter);
        assert forall|j: int| 0 <= j < deltas.len() implies #[trigger] transfer_rejection(
            base,
            deltas.subrange(0, j),
            deltas[j],
        ) is None by {
            if j < shorter.len() {
                assert(shorter.subrange(0, j) =~= deltas.subrange(0, j));
                assert(shorter[j] == deltas[j]);
                assert(transfer_rejection(base, shorter.subrange(0, j), shorter[j]) is None);
            } else {
                assert(deltas.subrange(0, j) =~= shorter);
            }
        }
    }
}

/// In a set of distinct items, the delta naming an item decides where it goes.
proof fn lemma_distinct_destination(deltas: Seq<ContainmentTransferDelta>, j: int)
    requires
        0 <= j < deltas.len(),
        forall|a: int, b: int|
            0 <= a < b < deltas.len() ==> #[trigger] deltas[a].item != #[trigger] deltas[b].item,
    ensures
        last_destination(deltas, deltas[j].item) == Some(deltas[j].destination),
    decreases deltas.len(),
{
    if j < deltas.len() - 1 {
        let shorter = deltas.drop_last();
        assert(deltas.last().item != deltas[j].item);
        assert(shorter[j] == deltas[j]);
        lemma_distinct_destination(shorter, j);
    }
}

/// An accepted containment transfer moves exactly the named items: every
/// item keeps its position in the containment list, every named item ends
/// in its delta's destination, and every other item stays where it was.
pub proof fn lemma_transfer_moves_exactly_the_named_items(
    base: DomainState,
    deltas: Seq<ContainmentTransferDelta>,
    next: Seq<ContainmentRecord>,
)
    requires
        containment_transition(base, deltas) == Ok::<
            Seq<ContainmentRecord>,
            ContainmentTransitionError,
        >(next),
    ensures
        next.len() == base.containment@.len(),
        forall|i: int| 0 <= i < next.len() ==> #[trigger] next[i].item == base.containment@[i].item,
        forall|i: int, j: int|
            0 <= i < next.len() && 0 <= j < deltas.len() && #[trigger] next[i].item
                == #[trigger] deltas[j].item ==> next[i].container == deltas[j].destination,
        forall|i: int|
            0 <= i < next.len() && (forall|j: int| 0 <= j < deltas.len() ==> deltas[j].item
                != #[trigger] next[i].item) ==> next[i] == base.containment@[i],
{
    lemma_accepted_deltas(base, deltas);
    assert forall|a: int, b: int| 0 <= a < b < deltas.len() implies #[trigger] deltas[a].item
        != #[trigger] deltas[b].item by {
        assert(transfer_rejection(base, deltas.subrange(0, b), deltas[b]) is None);
        assert(deltas.subrange(0, b)[a] == deltas[a]);
    }
    assert forall|i: int, j: int|
        0 <= i < next.len() && 0 <= j < deltas.len() && #[trigger] next[i].item
            == #[trigger] deltas[j].item implies next[i].container == deltas[j].destination by {
        lemma_distinct_destination(deltas, j);
    }
    assert forall|i: int|
        0 <= i < next.len() && (forall|j: int| 0 <= j < deltas.len() ==> deltas[j].item
            != #[trigger] next[i].item) implies next[i] == base.containment@[i] by {
        let item = base.containment@[i].item;
        assert forall|j: int| 0 <= j < deltas.len() implies #[trigger] deltas[j].item != item by {
            assert(deltas[j].item != next[i].item);
        }
        lemma_last_destination_prefix(deltas, 0, item);
    }
}

/// First recorded position of `actor`, if any.
pub open spec fn position_for(positions: Seq<ActorPosition>, actor: ActorId) -> Option<ActorPosition>
    decreases positions.len(),
{
    if positions.len() == 0 {
        None
    } else if positions[0].actor == actor {
        Some(positions[0])
    } else {
        position_for(positions.drop_first(), actor)
    }
}

/// Positions after `actor` has been moved to `replacement`.
pub open spec fn relocated(
    positions: Seq<ActorPosition>,
    actor: ActorId,
    replacement: ActorLocation,
) -> Seq<ActorPosition> {
    positions.map_values(
        |position: ActorPosition|
            if position.actor == actor {
                ActorPosition { actor, location: replacement }
            } else {
                position
            },
    )
}

/// Exact answer of moving `actor` from `expected` to `replacement`.
pub open spec fn location_replacement(
    positions: Seq<ActorPosition>,
    actor: ActorId,
    expected: ActorLocation,
    replacement: ActorLocation,
) -> Result<Seq<ActorPosition>, RelocationPositionTransitionError> {
    match position_for(positions, actor) {
        None => Err(RelocationPositionTransitionError::ActorPositionMissing { actor }),
        Some(actual) => if actual.location != expected {
            Err(
                RelocationPositionTransitionError::PositionMismatch {
                    actor,
                    actual: actual.location,
                    expected,
                },
            )
        } else {
            Ok(relocated(positions, actor, replacement))
        },
    }
}

/// Skipping positions of other actors leaves the first position of `actor` unchanged.
proof fn lemma_position_for_from(positions: Seq<ActorPosition>, i: int, actor: ActorId)
    requires
        0 <= i <= positions.len(),
        forall|j: int| 0 <= j < i ==> #[trigger] positions[j].actor != actor,
    ensures
        position_for(positions, actor) == position_for(
            positions.subrange(i, positions.len() as int),
            actor,
        ),
    decreases i,
{
    if i > 0 {
        let rest = positions.drop_first();
        assert forall|j: int| 0 <= j < i - 1 implies #[trigger] rest[j].actor != actor by {
            assert(rest[j] == positions[j + 1]);
        }
        lemma_position_for_from(rest, i - 1, actor);
        assert(rest.subrange(i - 1, rest.len() as int) =~= positions.subrange(
            i,
            positions.len() as int,
        ));
    } else {
        assert(positions.subrange(0, positions.len() as int) =~= positions);
    }
}

/// Current location of `actor`.
fn find_location(positions: &Vec<ActorPosition>, actor: ActorId) -> (r: Option<ActorLocation>)
    ensures
        r == (match position_for(positions@, actor) {
            Some(position) => Some(position.location),
            None => None,
        }),
{
    let mut i: usize = 0;
    while i < positions.len()
        invariant
            i <= positions@.len(),
            forall|j: int| 0 <= j < i ==> #[trigger] positions@[j].actor != actor,
        decreases positions@.len() - i,
    {
        if positions[i].actor.0 == actor.0 {
            proof {
                lemma_position_for_from(positions@, i as int, actor);
                assert(positions@.subrange(i as int, positions@.len() as int)[0] == positions@[i as int]);
            }
            return Some(positions[i].location);
        }
        i = i + 1;
    }
    proof {
        lemma_position_for_from(positions@, i as int, actor);
    }
    None
}

/// Positions with `actor` moved to `replacement`.
fn move_actor(positions: &Vec<ActorPosition>, actor: ActorId, replacement: ActorLocation) -> (r: Vec<
    ActorPosition,
>)
    ensures
        r@ == relocated(positions@, actor, replacement),
{
    let mut moved: Vec<ActorPosition> = Vec::new();
    let mut i: usize = 0;
    while i < positions.len()
        invariant
            i <= positions@.len(),
            moved@ == relocated(positions@.subrange(0, i as int), actor, replacement),
        decreases positions@.len() - i,
    {
        let position = positions[i];
        if position.actor.0 == actor.0 {
            moved.push(ActorPosition { actor, location: replacement });
        } else {
            moved.push(position);
        }
        proof {
            assert(positions@.subrange(0, i + 1) =~= positions@.subrange(0, i as int).push(position));
            assert(moved@ =~= relocated(positions@.subrange(0, i + 1), actor, replacement));
        }
        i = i + 1;
    }
    proof {
        assert(positions@.subrange(0, positions@.len() as int) =~= positions@);
    }
    moved
}

/// Moves `actor` from exactly `expected` to `replacement`; everything else
/// in the domain is kept.
fn replace_actor_location(
    base: &DomainState,
    actor: ActorId,
    expected: ActorLocation,
    replacement: ActorLocation,
) -> (r: Result<DomainState, RelocationPositionTransitionError>)
    ensures
        match r {
            Ok(next) => location_replacement(base.actor_positions@, actor, expected, replacement)
                == Ok::<Seq<ActorPosition>, RelocationPositionTransitionError>(
                next.actor_positions@,
            ) && next.containers@ == base.containers@ && next.containment@ == base.containment@
                && next.container_authority@ == base.container_authority@ && (base.wf()
                ==> next.wf()),
            Err(error) => location_replacement(base.actor_positions@, actor, expected, replacement)
                == Err::<Seq<ActorPosition>, RelocationPositionTransitionError>(error),
        },
{
    let actual = match find_location(&base.actor_positions, actor) {
        Some(location) => location,
        None => {
            return Err(RelocationPositionTransitionError::ActorPositionMissing { actor });
        },
    };
    if actual != expected {
        return Err(RelocationPositionTransitionError::PositionMismatch { actor, actual, expected });
    }
    let actor_positions = move_actor(&base.actor_positions, actor, replacement);
    let containers = base.containers.clone();
    let containment = base.containment.clone();
    let container_authority = base.container_authority.clone();
    proof {
        assert(containers@ =~= base.containers@);
        assert(containment@ =~= base.containment@);
        assert(container_authority@ =~= base.container_authority@);
    }
    Ok(DomainState { containers, containment, container_authority, actor_positions })
}

/// Applies the departure caused by a newly started relocation: the actor
/// leaves the route's source container and is in transit along the route.
pub fn apply_relocation_departure(base: &DomainState, process: RelocationProcess) -> (r: Result<
    DomainState,
    RelocationPositionTransitionError,
>)
    ensures
        match r {
            Ok(next) => location_replacement(
                base.actor_positions@,
                process.actor,
                ActorLocation::At(process.route.source),
                ActorLocation::InTransit(process.route),
            ) == Ok::<Seq<ActorPosition>, RelocationPositionTransitionError>(next.actor_positions@)
                && next.containers@ == base.containers@ && next.containment@ == base.containment@
                && next.container_authority@ == base.container_authority@,
            Err(error) => location_replacement(
                base.actor_positions@,
                process.actor,
                ActorLocation::At(process.route.source),
                ActorLocation::InTransit(process.route),
            ) == Err::<Seq<ActorPosition>, RelocationPositionTransitionError>(error),
        },
{
    let route = process.route;
    replace_actor_location(
        base,
        process.actor,
        ActorLocation::At(route.source),
        ActorLocation::InTransit(route),
    )
}

/// Applies the arrival caused by a completed relocation: the actor leaves
/// the route and is inside the route's destination container.
pub fn apply_relocation_arrival(base: &DomainState, process: RelocationProcess) -> (r: Result<
    DomainState,
    RelocationPositionTransitionError,
>)
    ensures
        match r {
            Ok(next) => location_replacement(
                base.actor_positions@,
                process.actor,
                ActorLocation::InTransit(process.route),
                ActorLocation::At(process.route.destination),
            ) == Ok::<Seq<ActorPosition>, RelocationPositionTransitionError>(next.actor_positions@)
                && next.containers@ == base.containers@ && next.containment@ == base.containment@
                && next.container_authority@ == base.container_authority@,
            Err(error) => location_replacement(
                base.actor_positions@,
                process.actor,
                ActorLocation::InTransit(process.route),
                ActorLocation::At(process.route.destination),
            ) == Err::<Seq<ActorPosition>, RelocationPositionTransitionError>(error),
        },
{
    let route = process.route;
    replace_actor_location(
        base,
        process.actor,
        ActorLocation::InTransit(route),
        ActorLocation::At(route.destination),
    )
}

/// After a move, the actor's first position is the new location.
proof fn lemma_position_after_move(
    positions: Seq<ActorPosition>,
    actor: ActorId,
    replacement: ActorLocation,
)
    requires
        position_for(positions, actor) is Some,
    ensures
        position_for(relocated(positions, actor, replacement), actor) == Some(
            ActorPosition { actor, location: replacement },
        ),
    decreases positions.len(),
{
    let moved = relocated(positions, actor, replacement);
    if positions[0].actor != actor {
        lemma_position_after_move(positions.drop_first(), actor, replacement);
        assert(moved.drop_first() =~= relocated(positions.drop_first(), actor, replacement));
    }
}

/// A relocation that departed can arrive: after the departure of `process`
/// succeeds, its arrival succeeds on the successor and leaves the actor at
/// the route's destination, with every other actor where it was.
pub proof fn lemma_departure_then_arrival(positions: Seq<ActorPosition>, process: RelocationProcess)
    requires
        location_replacement(
            positions,
            process.actor,
            ActorLocation::At(process.route.source),
            ActorLocation::InTransit(process.route),
        ) is Ok,
    ensures
        ({
            let departed = relocated(positions, process.actor, ActorLocation::InTransit(process.route));
            location_replacement(
                departed,
                process.actor,
                ActorLocation::InTransit(process.route),
                ActorLocation::At(process.route.destination),
            ) == Ok::<Seq<ActorPosition>, RelocationPositionTransitionError>(
                relocated(positions, process.actor, ActorLocation::At(process.route.destination)),
            )
        }),
{
    let departed = relocated(positions, process.actor, ActorLocation::InTransit(process.route));
    lemma_position_after_move(positions, process.actor, ActorLocation::InTransit(process.route));
    assert(relocated(departed, process.actor, ActorLocation::At(process.route.destination))
        =~= relocated(positions, process.actor, ActorLocation::At(process.route.destination)));
}

/// The number of records of `records` that place an item in `container`.
pub open spec fn items_in(records: Seq<ContainmentRecord>, container: EntityId) -> nat {
    records.filter(|r: ContainmentRecord| r.container == container).len()
}

proof fn lemma_occupancy_counts_items(records: Seq<ContainmentRecord>, container: EntityId)
    ensures
        occupancy(records, container) == items_in(records, container),
    decreases records.len(),
{
    reveal(Seq::filter);
    if records.len() > 0 {
        lemma_occupancy_counts_items(records.drop_last(), container);
    }
}

proof fn lemma_no_overfull_container(containers: Seq<ContainerRecord>, records: Seq<ContainmentRecord>)
    requires
        first_overfull(containers, records) is None,
    ensures
        forall|i: int|
            0 <= i < containers.len() ==> occupancy(records, #[trigger] containers[i].container)
                <= containers[i].capacity,
    decreases containers.len(),
{
    if containers.len() > 0 {
        lemma_no_overfull_container(containers.drop_last(), records);
        assert forall|i: int|
            0 <= i < containers.len() implies occupancy(records, #[trigger] containers[i].container)
            <= containers[i].capacity by {
            if i < containers.len() - 1 {
                assert(containers.drop_last()[i] == containers[i]);
            }
        }
    }
}

/// An accepted containment transfer never overfills a container: in the
/// successor containment, every container of the base state holds at most its
/// capacity, counting every item it holds, moved or not.
pub proof fn lemma_accepted_transfer_respects_capacity(
    base: DomainState,
    deltas: Seq<ContainmentTransferDelta>,
    next: Seq<ContainmentRecord>,
)
    requires
        containment_transition(base, deltas) == Ok::<Seq<ContainmentRecord>, ContainmentTransitionError>(next),
    ensures
        forall|i: int|
            0 <= i < base.containers@.len() ==> items_in(next, #[trigger] base.containers@[i].container)
                <= base.containers@[i].capacity,
{
    lemma_no_overfull_container(base.containers@, next);
    assert forall|i: int| 0 <= i < base.containers@.len() implies items_in(
        next,
        #[trigger] base.containers@[i].container,
    ) <= base.containers@[i].capacity by {
        lemma_occupancy_counts_items(next, base.containers@[i].container);
    }
}

proof fn lemma_no_rejection_prefix(base: DomainState, deltas: Seq<ContainmentTransferDelta>)
    requires
        first_rejection(base, deltas) is None,
    ensures
        forall|k: int|
            0 <= k < deltas.len() ==> transfer_rejection(base, deltas.subrange(0, k), #[trigger] deltas[k]) is None,
    decreases deltas.len(),
{
    if deltas.len() > 0 {
        let rest = deltas.drop_last();
        lemma_no_rejection_prefix(base, rest);
        assert forall|k: int|
            0 <= k < deltas.len() implies transfer_rejection(base, deltas.subrange(0, k), #[trigger] deltas[k])
            is None by {
            if k < deltas.len() - 1 {
                assert(rest[k] == deltas[k]);
                assert(rest.subrange(0, k) =~= deltas.subrange(0, k));
            } else {
                assert(rest =~= deltas.subrange(0, k));
            }
        }
    }
}

proof fn lemma_containment_for_found(records: Seq<ContainmentRecord>, item: EntityId)
    requires
        containment_for(records, item) is Some,
    ensures
        containment_for(records, item)->0.item == item,
        exists|r: int| 0 <= r < records.len() && #[trigger] records[r] == containment_for(records, item)->0,
    decreases records.len(),
{
    if records[0].item != item {
        lemma_containment_for_found(records.drop_first(), item);
        let r = choose|r: int|
            0 <= r < records.drop_first().len() && #[trigger] records.drop_first()[r] == containment_for(
                records.drop_first(),
                item,
            )->0;
        assert(records[r + 1] == records.drop_first()[r]);
    } else {
        assert(records[0] == containment_for(records, item)->0);
    }
}

proof fn lemma_last_destination_of_named(deltas: Seq<ContainmentTransferDelta>, k: int)
    requires
        0 <= k < deltas.len(),
        forall|i: int, j: int| 0 <= i < j < deltas.len() ==> #[trigger] deltas[i].item != #[trigger] deltas[j].item,
    ensures
        last_destination(deltas, deltas[k].item) == Some(deltas[k].destination),
    decreases deltas.len(),
{
    if k < deltas.len() - 1 {
        assert(deltas[k].item != deltas[deltas.len() - 1].item);
        assert(deltas.drop_last()[k] == deltas[k]);
        lemma_last_destination_of_named(deltas.drop_last(), k);
    }
}

proof fn lemma_last_destination_of_unnamed(deltas: Seq<ContainmentTransferDelta>, item: EntityId)
    requires
        forall|k: int| 0 <= k < deltas.len() ==> #[trigger] deltas[k].item != item,
    ensures
        last_destination(deltas, item) is None,
    decreases deltas.len(),
{
    if deltas.len() > 0 {
        assert(deltas[deltas.len() - 1].item != item);
        assert forall|k: int| 0 <= k < deltas.drop_last().len() implies #[trigger] deltas.drop_last()[k].item
            != item by {
            assert(deltas.drop_last()[k] == deltas[k]);
        }
        lemma_last_destination_of_unnamed(deltas.drop_last(), item);
    }
}

/// An accepted containment transfer set is made of valid deltas and moves
/// exactly their items: each delta names a distinct item that the base state
/// holds in the delta's expected source, a destination that is a known
/// container, and an actor with authority over the source; the successor
/// keeps every record's item and position, puts each named item in its
/// delta's destination and leaves every other item where it was.
pub proof fn lemma_accepted_transfer_moves_exactly_its_items(
    base: DomainState,
    deltas: Seq<ContainmentTransferDelta>,
    next: Seq<ContainmentRecord>,
)
    requires
        containment_transition(base, deltas) == Ok::<Seq<ContainmentRecord>, ContainmentTransitionError>(next),
    ensures
        forall|k: int|
            #![trigger deltas[k]]
            0 <= k < deltas.len() ==> exists|r: int|
                0 <= r < base.containment@.len() && #[trigger] base.containment@[r] == (ContainmentRecord {
                    item: deltas[k].item,
                    container: deltas[k].expected_source,
                }),
        forall|k: int|
            #![trigger deltas[k]]
            0 <= k < deltas.len() ==> exists|c: int|
                0 <= c < base.containers@.len() && #[trigger] base.containers@[c].container
                    == deltas[k].destination,
        forall|k: int|
            #![trigger deltas[k]]
            0 <= k < deltas.len() ==> exists|a: int|
                0 <= a < base.container_authority@.len() && #[trigger] base.container_authority@[a]
                    == (ContainerAuthorityRecord { actor: deltas[k].actor, container: deltas[k].expected_source }),
        forall|i: int, j: int| 0 <= i < j < deltas.len() ==> #[trigger] deltas[i].item != #[trigger] deltas[j].item,
        next.len() == base.containment@.len(),
        forall|r: int| 0 <= r < next.len() ==> #[trigger] next[r].item == base.containment@[r].item,
        forall|r: int, k: int|
            0 <= r < next.len() && 0 <= k < deltas.len() && #[trigger] base.containment@[r].item
                == #[trigger] deltas[k].item ==> next[r].container == deltas[k].destination,
        forall|r: int|
            0 <= r < next.len() && (forall|k: int| 0 <= k < deltas.len() ==> #[trigger] deltas[k].item
                != base.containment@[r].item) ==> #[trigger] next[r] == base.containment@[r],
{
    lemma_no_rejection_prefix(base, deltas);
    assert forall|k: int|
        #![trigger deltas[k]]
        0 <= k < deltas.len() implies {
        &&& containment_for(base.containment@, deltas[k].item) == Some(
            ContainmentRecord { item: deltas[k].item, container: deltas[k].expected_source },
        )
        &&& has_container(base.containers@, deltas[k].destination)
        &&& controls(base.container_authority@, deltas[k].actor, deltas[k].expected_source)
        &&& forall|j: int| 0 <= j < k ==> #[trigger] deltas[j].item != deltas[k].item
    } by {
        let prior = deltas.subrange(0, k);
        assert(transfer_rejection(base, prior, deltas[k]) is None);
        assert forall|j: int| 0 <= j < k implies #[trigger] deltas[j].item != deltas[k].item by {
            assert(prior[j] == deltas[j]);
        }
        lemma_containment_for_found(base.containment@, deltas[k].item);
    }
    assert forall|k: int|
        #![trigger deltas[k]]
        0 <= k < deltas.len() implies exists|r: int|
        0 <= r < base.containment@.len() && #[trigger] base.containment@[r] == (ContainmentRecord {
            item: deltas[k].item,
            container: deltas[k].expected_source,
        }) by {
        lemma_containment_for_found(base.containment@, deltas[k].item);
    }
    assert forall|i: int, j: int| 0 <= i < j < deltas.len() implies #[trigger] deltas[i].item
        != #[trigger] deltas[j].item by {
        assert(forall|l: int| 0 <= l < j ==> #[trigger] deltas[l].item != deltas[j].item);
    }
    assert forall|r: int, k: int|
        0 <= r < next.len() && 0 <= k < deltas.len() && #[trigger] base.containment@[r].item
            == #[trigger] deltas[k].item implies next[r].container == deltas[k].destination by {
        lemma_last_destination_of_named(deltas, k);
    }
    assert forall|r: int|
        0 <= r < next.len() && (forall|k: int| 0 <= k < deltas.len() ==> #[trigger] deltas[k].item
            != base.containment@[r].item) implies #[trigger] next[r] == base.containment@[r] by {
        lemma_last_destination_of_unnamed(deltas, base.containment@[r].item);
    }
}

proof fn lemma_position_for_found(positions: Seq<ActorPosition>, actor: ActorId)
    ensures
        position_for(positions, actor) is Some ==> exists|i: int|
            0 <= i < positions.len() && #[trigger] positions[i] == position_for(positions, actor)->0
                && positions[i].actor == actor,
        position_for(positions, actor) is None ==> forall|i: int|
            0 <= i < positions.len() ==> (#[trigger] positions[i]).actor != actor,
    decreases positions.len(),
{
    if positions.len() > 0 && positions[0].actor != actor {
        let rest = positions.drop_first();
        lemma_position_for_found(rest, actor);
        if position_for(rest, actor) is Some {
            let i = choose|i: int|
                0 <= i < rest.len() && #[trigger] rest[i] == position_for(rest, actor)->0 && rest[i].actor == actor;
            assert(positions[i + 1] == rest[i]);
        } else {
            assert forall|i: int| 0 <= i < positions.len() implies (#[trigger] positions[i]).actor != actor by {
                if i > 0 {
                    assert(positions[i] == rest[i - 1]);
                }
            }
        }
    } else if positions.len() > 0 {
        assert(positions[0] == position_for(positions, actor)->0);
    }
}

/// Moving an actor succeeds only when the actor has a recorded position at
/// the expected location, and then moves only that actor: every position
/// keeps its actor, the actor's positions become the replacement and every
/// other actor stays where it was. An actor with no recorded position is
/// refused as missing.
pub proof fn lemma_relocation_moves_only_its_actor(
    positions: Seq<ActorPosition>,
    actor: ActorId,
    expected: ActorLocation,
    replacement: ActorLocation,
)
    ensures
        (forall|i: int| 0 <= i < positions.len() ==> (#[trigger] positions[i]).actor != actor)
            ==> location_replacement(positions, actor, expected, replacement) == Err::<
            Seq<ActorPosition>,
            RelocationPositionTransitionError,
        >(RelocationPositionTransitionError::ActorPositionMissing { actor }),
        match location_replacement(positions, actor, expected, replacement) {
            Ok(next) => {
                &&& exists|i: int|
                    0 <= i < positions.len() && #[trigger] positions[i] == (ActorPosition {
                        actor,
                        location: expected,
                    })
                &&& next.len() == positions.len()
                &&& forall|i: int|
                    0 <= i < positions.len() ==> (#[trigger] next[i]).actor == positions[i].actor
                        && (positions[i].actor == actor ==> next[i].location == replacement)
                        && (positions[i].actor != actor ==> next[i] == positions[i])
            },
            Err(_) => true,
        },
{
    lemma_position_for_found(positions, actor);
    if forall|i: int| 0 <= i < positions.len() ==> (#[trigger] positions[i]).actor != actor {
        if position_for(positions, actor) is Some {
            let i = choose|i: int|
                0 <= i < positions.len() && #[trigger] positions[i] == position_for(positions, actor)->0
                    && positions[i].actor == actor;
            assert(positions[i].actor != actor);
        }
    }
}

} // verus!
