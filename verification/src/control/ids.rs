//! Runtime-owned issuing of process, reservation and wakeup identities and
//! of the deterministic wakeup sequence.

use vstd::prelude::*;

use crate::control::schedule_key::WakeupScheduleKey;
use crate::error::RuntimeError;
use crate::ids::{ProcessInstanceId, ReservationId, ScheduledWakeupId};
use crate::model::{ModelError, RuntimeControlRecordPayload, WakeupOrderKey};

verus! {

/// Issuer of nonzero identities in increasing order; `None` once exhausted.
#[derive(Clone, Copy, Debug, PartialEq, Eq, Structural)]
pub struct IdIssuer {
    pub next: Option<u64>,
}

impl IdIssuer {
    /// An issuer whose first identity is one.
    pub fn new() -> (r: Self)
        ensures
            r.next == Some(1u64),
    {
        IdIssuer { next: Some(1) }
    }

    /// An issuer whose next identity is `next`, which must be nonzero.
    pub fn starting_at(next: u64) -> (r: Option<Self>)
        ensures
            r == (if next == 0 {
                None::<IdIssuer>
            } else {
                Some(IdIssuer { next: Some(next) })
            }),
    {
        if next == 0 {
            None
        } else {
            Some(IdIssuer { next: Some(next) })
        }
    }

    /// Issues the next identity.
    pub fn issue(&mut self) -> (r: Option<u64>)
        ensures
            r == old(self).next,
            final(self).next == (match old(self).next {
                Some(value) => if value == u64::MAX {
                    None::<u64>
                } else {
                    Some((value + 1) as u64)
                },
                None => None::<u64>,
            }),
    {
        match self.next {
            Some(value) => {
                self.next = if value == u64::MAX {
                    None
                } else {
                    Some(value + 1)
                };
                Some(value)
            },
            None => None,
        }
    }
}

/// The next value to issue after observing `observed`, never going backwards.
pub open spec fn spec_next_issued_value(current_next: u64, observed: u64) -> Result<u64, RuntimeError> {
    if observed == u64::MAX {
        Err(RuntimeError::Model(ModelError::RuntimeControlValueOverflow))
    } else if current_next >= observed + 1 {
        Ok(current_next)
    } else {
        Ok((observed + 1) as u64)
    }
}

fn next_issued_value(current_next: u64, observed: u64) -> (r: Result<u64, RuntimeError>)
    ensures
        r == spec_next_issued_value(current_next, observed),
{
    if observed == u64::MAX {
        return Err(RuntimeError::Model(ModelError::RuntimeControlValueOverflow));
    }
    let observed_next = observed + 1;
    if current_next >= observed_next {
        Ok(current_next)
    } else {
        Ok(observed_next)
    }
}

/// Next identities implied by a prefix of retained records: one past the
/// greatest observed identity of each kind (at least one), and one past the
/// greatest observed wakeup sequence (at least zero).
pub open spec fn issue_frontier(records: Seq<RuntimeControlRecordPayload>) -> Result<
    (u64, u64, u64, u64),
    RuntimeError,
>
    decreases records.len(),
{
    if records.len() == 0 {
        Ok((1, 1, 1, 0))
    } else {
        match issue_frontier(records.drop_last()) {
            Err(error) => Err(error),
            Ok((process, reservation, wakeup, sequence)) => match records.last() {
                RuntimeControlRecordPayload::Process(id) => match spec_next_issued_value(process, id.0) {
                    Ok(next) => Ok((next, reservation, wakeup, sequence)),
                    Err(error) => Err(error),
                },
                RuntimeControlRecordPayload::Reservation(id) => match spec_next_issued_value(
                    reservation,
                    id.0,
                ) {
                    Ok(next) => Ok((process, next, wakeup, sequence)),
                    Err(error) => Err(error),
                },
                RuntimeControlRecordPayload::ScheduledWakeup { id, order } => match spec_next_issued_value(
                    wakeup,
                    id.0,
                ) {
                    Err(error) => Err(error),
                    Ok(next_wakeup) => match spec_next_issued_value(sequence, order.sequence) {
                        Ok(next_sequence) => Ok((process, reservation, next_wakeup, next_sequence)),
                        Err(error) => Err(error),
                    },
                },
            },
        }
    }
}

/// Restoring issuers from retained records never issues an identity that a
/// record already holds: when the frontier exists, every retained process,
/// reservation and wakeup identity lies strictly below the next identity of
/// its kind, every retained wakeup sequence strictly below the next
/// sequence, and each next identity is at least one.
pub proof fn lemma_restored_issuers_are_fresh(records: Seq<RuntimeControlRecordPayload>)
    requires
        issue_frontier(records) is Ok,
    ensures
        ({
            let (process, reservation, wakeup, sequence) = issue_frontier(records)->Ok_0;
            &&& process >= 1 && reservation >= 1 && wakeup >= 1
            &&& forall|i: int|
                0 <= i < records.len() ==> match #[trigger] records[i] {
                    RuntimeControlRecordPayload::Process(id) => id.0 < process,
                    RuntimeControlRecordPayload::Reservation(id) => id.0 < reservation,
                    RuntimeControlRecordPayload::ScheduledWakeup { id, order } => id.0 < wakeup
                        && order.sequence < sequence,
                }
        }),
    decreases records.len(),
{
    if records.len() > 0 {
        let prefix = records.drop_last();
        lemma_restored_issuers_are_fresh(prefix);
        let (process, reservation, wakeup, sequence) = issue_frontier(records)->Ok_0;
        let (p0, r0, w0, s0) = issue_frontier(prefix)->Ok_0;
        assert(p0 <= process && r0 <= reservation && w0 <= wakeup && s0 <= sequence);
        assert forall|i: int| 0 <= i < records.len() implies match #[trigger] records[i] {
            RuntimeControlRecordPayload::Process(id) => id.0 < process,
            RuntimeControlRecordPayload::Reservation(id) => id.0 < reservation,
            RuntimeControlRecordPayload::ScheduledWakeup { id, order } => id.0 < wakeup && order.sequence
                < sequence,
        } by {
            if i < records.len() - 1 {
                assert(records[i] == prefix[i]);
            }
        }
    }
}

/// Runtime-owned identity issuers and the next wakeup sequence.
#[derive(Clone, Copy, Debug, PartialEq, Eq, Structural)]
pub struct RuntimeControlIds {
    pub process_ids: IdIssuer,
    pub reservation_ids: IdIssuer,
    pub wakeup_ids: IdIssuer,
    pub next_wakeup_sequence: u64,
}

impl RuntimeControlIds {
    /// Fresh issuers: every identity starts at one and the sequence at zero.
    pub fn new() -> (r: Self)
        ensures
            r.process_ids.next == Some(1u64),
            r.reservation_ids.next == Some(1u64),
            r.wakeup_ids.next == Some(1u64),
            r.next_wakeup_sequence == 0,
    {
        RuntimeControlIds {
            process_ids: IdIssuer::new(),
            reservation_ids: IdIssuer::new(),
            wakeup_ids: IdIssuer::new(),
            next_wakeup_sequence: 0,
        }
    }

    /// Issuers that continue after every identity and sequence the retained
    /// records already use.
    pub fn from_store(records: &[RuntimeControlRecordPayload]) -> (r: Result<Self, RuntimeError>)
        ensures
            match issue_frontier(records@) {
                Err(error) => r == Err::<RuntimeControlIds, RuntimeError>(error),
                Ok((process, reservation, wakeup, sequence)) => r == Ok::<
                    RuntimeControlIds,
                    RuntimeError,
                >(
                    RuntimeControlIds {
                        process_ids: IdIssuer { next: Some(process) },
                        reservation_ids: IdIssuer { next: Some(reservation) },
                        wakeup_ids: IdIssuer { next: Some(wakeup) },
                        next_wakeup_sequence: sequence,
                    },
                ),
            },
    {
        let mut next_process: u64 = 1;
        let mut next_reservation: u64 = 1;
        let mut next_wakeup: u64 = 1;
        let mut next_wakeup_sequence: u64 = 0;
        let mut i: usize = 0;
        while i < records.len()
            invariant
                i <= records@.len(),
                issue_frontier(records@.subrange(0, i as int)) == Ok::<
                    (u64, u64, u64, u64),
                    RuntimeError,
                >((next_process, next_reservation, next_wakeup, next_wakeup_sequence)),
                next_process >= 1,
                next_reservation >= 1,
                next_wakeup >= 1,
            decreases records@.len() - i,
        {
            proof {
                assert(records@.subrange(0, i + 1).drop_last() =~= records@.subrange(0, i as int));
                assert(records@.subrange(0, i + 1).last() == records@[i as int]);
            }
            match records[i] {
                RuntimeControlRecordPayload::Process(id) => {
                    next_process = match next_issued_value(next_process, id.get()) {
                        Ok(next) => next,
                        Err(error) => {
                            proof {
                                lemma_issue_frontier_error_sticks(records@, i + 1, records@.len() as int, error);
                                assert(records@.subrange(0, records@.len() as int) =~= records@);
                            }
                            return Err(error);
                        },
                    };
                },
                RuntimeControlRecordPayload::Reservation(id) => {
                    next_reservation = match next_issued_value(next_reservation, id.get()) {
                        Ok(next) => next,
                        Err(error) => {
                            proof {
                                lemma_issue_frontier_error_sticks(records@, i + 1, records@.len() as int, error);
                                assert(records@.subrange(0, records@.len() as int) =~= records@);
                            }
                            return Err(error);
                        },
                    };
                },
                RuntimeControlRecordPayload::ScheduledWakeup { id, order } => {
                    next_wakeup = match next_issued_value(next_wakeup, id.get()) {
                        Ok(next) => next,
                        Err(error) => {
                            proof {
                                lemma_issue_frontier_error_sticks(records@, i + 1, records@.len() as int, error);
                                assert(records@.subrange(0, records@.len() as int) =~= records@);
                            }
                            return Err(error);
                        },
                    };
                    next_wakeup_sequence = match next_issued_value(next_wakeup_sequence, order.sequence) {
                        Ok(next) => next,
                        Err(error) => {
                            proof {
                                lemma_issue_frontier_error_sticks(records@, i + 1, records@.len() as int, error);
                                assert(records@.subrange(0, records@.len() as int) =~= records@);
                            }
                            return Err(error);
                        },
                    };
                },
            }
            i = i + 1;
        }
        proof {
            assert(records@.subrange(0, records@.len() as int) =~= records@);
        }
        let process_ids = match IdIssuer::starting_at(next_process) {
            Some(issuer) => issuer,
            None => return Err(RuntimeError::Model(ModelError::RuntimeControlValueOverflow)),
        };
        let reservation_ids = match IdIssuer::starting_at(next_reservation) {
            Some(issuer) => issuer,
            None => return Err(RuntimeError::Model(ModelError::RuntimeControlValueOverflow)),
        };
        let wakeup_ids = match IdIssuer::starting_at(next_wakeup) {
            Some(issuer) => issuer,
            None => return Err(RuntimeError::Model(ModelError::RuntimeControlValueOverflow)),
        };
        Ok(RuntimeControlIds { process_ids, reservation_ids, wakeup_ids, next_wakeup_sequence })
    }

    /// Issues the next process identity.
    pub fn issue_process(&mut self) -> (r: Result<ProcessInstanceId, RuntimeError>)
        ensures
            r == (match old(self).process_ids.next {
                Some(value) => Ok::<ProcessInstanceId, RuntimeError>(ProcessInstanceId(value)),
                None => Err(RuntimeError::ProcessInstanceIdExhausted),
            }),
            final(self).process_ids.next == (match old(self).process_ids.next {
                Some(value) => if value == u64::MAX { None::<u64> } else { Some((value + 1) as u64) },
                None => None::<u64>,
            }),
            final(self).reservation_ids == old(self).reservation_ids,
            final(self).wakeup_ids == old(self).wakeup_ids,
            final(self).next_wakeup_sequence == old(self).next_wakeup_sequence,
    {
        match self.process_ids.issue() {
            Some(value) => Ok(ProcessInstanceId::new(value)),
            None => Err(RuntimeError::ProcessInstanceIdExhausted),
        }
    }

    /// Issues the next reservation identity.
    pub fn issue_reservation(&mut self) -> (r: Result<ReservationId, RuntimeError>)
        ensures
            r == (match old(self).reservation_ids.next {
                Some(value) => Ok::<ReservationId, RuntimeError>(ReservationId(value)),
                None => Err(RuntimeError::ReservationIdExhausted),
            }),
            final(self).reservation_ids.next == (match old(self).reservation_ids.next {
                Some(value) => if value == u64::MAX { None::<u64> } else { Some((value + 1) as u64) },
                None => None::<u64>,
            }),
            final(self).process_ids == old(self).process_ids,
            final(self).wakeup_ids == old(self).wakeup_ids,
            final(self).next_wakeup_sequence == old(self).next_wakeup_sequence,
    {
        match self.reservation_ids.issue() {
            Some(value) => Ok(ReservationId::new(value)),
            None => Err(RuntimeError::ReservationIdExhausted),
        }
    }

    /// Issues the next scheduled-wakeup identity.
    pub fn issue_wakeup(&mut self) -> (r: Result<ScheduledWakeupId, RuntimeError>)
        ensures
            r == (match old(self).wakeup_ids.next {
                Some(value) => Ok::<ScheduledWakeupId, RuntimeError>(ScheduledWakeupId(value)),
                None => Err(RuntimeError::ScheduledWakeupIdExhausted),
            }),
            final(self).wakeup_ids.next == (match old(self).wakeup_ids.next {
                Some(value) => if value == u64::MAX { None::<u64> } else { Some((value + 1) as u64) },
                None => None::<u64>,
            }),
            final(self).process_ids == old(self).process_ids,
            final(self).reservation_ids == old(self).reservation_ids,
            final(self).next_wakeup_sequence == old(self).next_wakeup_sequence,
    {
        match self.wakeup_ids.issue() {
            Some(value) => Ok(ScheduledWakeupId::new(value)),
            None => Err(RuntimeError::ScheduledWakeupIdExhausted),
        }
    }

    /// Completes a scheduler key with the next deterministic sequence.
    pub fn issue_order(&mut self, schedule: WakeupScheduleKey) -> (r: Result<WakeupOrderKey, RuntimeError>)
        ensures
            old(self).next_wakeup_sequence == u64::MAX ==> r == Err::<WakeupOrderKey, RuntimeError>(
                RuntimeError::Model(ModelError::RuntimeControlValueOverflow),
            ) && *final(self) == *old(self),
            old(self).next_wakeup_sequence < u64::MAX ==> r == Ok::<WakeupOrderKey, RuntimeError>(
                WakeupOrderKey {
                    time: schedule.spec_time(),
                    phase: schedule.spec_phase(),
                    priority: schedule.spec_priority(),
                    sequence: old(self).next_wakeup_sequence,
                },
            ) && *final(self) == (RuntimeControlIds {
                next_wakeup_sequence: (old(self).next_wakeup_sequence + 1) as u64,
                ..*old(self)
            }),
    {
        let sequence = self.next_wakeup_sequence;
        if sequence == u64::MAX {
            return Err(RuntimeError::Model(ModelError::RuntimeControlValueOverflow));
        }
        self.next_wakeup_sequence = sequence + 1;
        Ok(
            WakeupOrderKey {
                time: schedule.time(),
                phase: schedule.phase(),
                priority: schedule.priority(),
                sequence,
            },
        )
    }
}

/// Once the frontier of a prefix fails, every longer prefix fails with the same error.
proof fn lemma_issue_frontier_error_sticks(
    records: Seq<RuntimeControlRecordPayload>,
    n: int,
    m: int,
    error: RuntimeError,
)
    requires
        0 <= n <= m <= records.len(),
        issue_frontier(records.subrange(0, n)) == Err::<(u64, u64, u64, u64), RuntimeError>(error),
    ensures
        issue_frontier(records.subrange(0, m)) == Err::<(u64, u64, u64, u64), RuntimeError>(error),
    decreases m - n,
{
    if m > n {
        lemma_issue_frontier_error_sticks(records, n, m - 1, error);
        assert(records.subrange(0, m).drop_last() =~= records.subrange(0, m - 1));
    }
}

} // verus!
