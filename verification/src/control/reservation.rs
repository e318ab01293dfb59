//! Acquisition of exclusive runtime reservations.

use vstd::prelude::*;

use crate::control::ids::RuntimeControlIds;
use crate::error::RuntimeError;
use crate::ids::{ProvenanceKey, ReservationId};
use crate::model::{
    ReservationHolder, ReservationRecord, ReservationState, ReservationTarget,
    RuntimeControlChange, SimulationTime,
};

verus! {

/// Request to acquire one exclusive runtime reservation.
#[derive(Clone, Debug, PartialEq, Eq)]
pub struct AcquireReservationRequest {
    pub holder: ReservationHolder,
    pub target: ReservationTarget,
    pub acquired_at: SimulationTime,
    pub provenance: Option<ProvenanceKey>,
}

impl AcquireReservationRequest {
    /// Creates a reservation acquisition request.
    pub fn new(
        holder: ReservationHolder,
        target: ReservationTarget,
        acquired_at: SimulationTime,
        provenance: Option<ProvenanceKey>,
    ) -> (r: Self)
        ensures
            r == (AcquireReservationRequest { holder, target, acquired_at, provenance }),
    {
        AcquireReservationRequest { holder, target, acquired_at, provenance }
    }
}

/// Runtime handler that turns reservation requests into control changes.
pub struct ReservationRuntime;

/// The change that acquires `request` under the identity `reservation`.
pub open spec fn acquisition_change(
    reservation: ReservationId,
    request: AcquireReservationRequest,
) -> RuntimeControlChange {
    RuntimeControlChange::AcquireReservation {
        reservation: ReservationRecord {
            id: reservation,
            holder: request.holder,
            target: request.target,
            state: ReservationState::Held { acquired_at: request.acquired_at },
            provenance: request.provenance,
        },
        updated_at: request.acquired_at,
        provenance: request.provenance,
    }
}

impl ReservationRuntime {
    /// Issues a reservation identity and describes the held reservation.
    pub fn acquire(ids: &mut RuntimeControlIds, request: AcquireReservationRequest) -> (r: Result<
        RuntimeControlChange,
        RuntimeError,
    >)
        ensures
            match old(ids).reservation_ids.next {
                Some(value) => r == Ok::<RuntimeControlChange, RuntimeError>(
                    acquisition_change(ReservationId(value), request),
                ),
                None => r == Err::<RuntimeControlChange, RuntimeError>(
                    RuntimeError::ReservationIdExhausted,
                ),
            },
            final(ids).reservation_ids.next == (match old(ids).reservation_ids.next {
                Some(value) => if value == u64::MAX { None::<u64> } else { Some((value + 1) as u64) },
                None => None::<u64>,
            }),
            final(ids).process_ids == old(ids).process_ids,
            final(ids).wakeup_ids == old(ids).wakeup_ids,
            final(ids).next_wakeup_sequence == old(ids).next_wakeup_sequence,
    {
        let reservation = match ids.issue_reservation() {
            Ok(reservation) => reservation,
            Err(error) => return Err(error),
        };
        let record = ReservationRecord {
            id: reservation,
            holder: request.holder,
            target: request.target,
            state: ReservationState::Held { acquired_at: request.acquired_at },
            provenance: request.provenance,
        };
        Ok(
            RuntimeControlChange::AcquireReservation {
                reservation: record,
                updated_at: request.acquired_at,
                provenance: request.provenance,
            },
        )
    }
}

} // verus!
