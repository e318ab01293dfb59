//! Sealing checks for authority-record drafts: coverage marks over local
//! positions, canonical request order and the normalization of a batch of
//! host management requests against the session head.

use core::cmp::Ordering;
use std::collections::{BTreeMap, BTreeSet};
use vstd::prelude::*;
use vstd::relations::{sorted_by, total_ordering};

use crate::authority::record::{AuthorityCursor, AuthorityCursorAdvanceError};
use crate::authority::transition::{ContainmentTransitionError, DomainStateError};
use crate::control::command_ledger::strictly_increasing;
use crate::control::request_ledger::{
    management_lookup, ManagementLedgerEntry, RequestLedgerLookup, RequestLedgerView,
};
use crate::control::retirement::LedgerRetirementError;
use crate::control::state::{RuntimeControlState, RuntimeControlView};
use crate::ids::{ActorId, AuthorityRecordId, CommandRequestFingerprint, EntityId, EvidenceDeliveryGeneration};
use crate::kernel::{
    AdmitRequest, CommandBinding, CommandValue, LedgerRetirement, ManageOutcome, ManageRequest, SessionManagement, SimMoment,
};
use crate::session::SessionMode;

verus! {

/// Why a record draft could not be sealed against the session head.
#[derive(Clone, Copy, Debug, PartialEq, Eq, Structural)]
pub enum AuthorityRecordSealError {
    StaleDraft { expected: AuthorityCursor, actual: AuthorityCursor },
    CursorAdvance(AuthorityCursorAdvanceError),
    InputRequestAlreadyRetained,
    ManagementRequestAlreadyRetained,
    LedgerRetirement { retirement: LedgerRetirement, error: LedgerRetirementError },
    AdmissionFrontierNotAdvancing { current: SimMoment, requested: SimMoment },
    AdmissionSealCrossesScheduledWork { requested: SimMoment, scheduled: SimMoment },
    ActionEvaluationFrontierBlocked { blocked_at: SimMoment },
    EffectiveMomentBeforeFrontier { effective: SimMoment, frontier: SimMoment },
    SchedulerSequenceExhausted,
    SchedulerKeyOccupied,
    EmptyBatch,
    DuplicateInputRequest,
    DuplicateManagementRequest,
    CollectionTooLarge,
    IncompleteDueSet { expected: usize, supplied: usize },
    WorkPopulationExceeded { moment: SimMoment, maximum: u32, actual: usize },
    ResolutionEvidenceMismatch,
    InvalidNormalizedGraph,
    IllegalManagementTransition { current: SessionMode, requested: SessionMode },
    ScheduledWorkMissing,
    ScheduledWorkBeforeClock { scheduled: SimMoment, now: SimMoment },
    MomentRequiresRunning { current: SessionMode },
    KernelSafetyRequiresRunning { current: SessionMode },
    KernelSafetyCauseMismatch,
    CommandLedgerClassificationMismatch,
    AcceptedTransfer(ContainmentTransferSealError),
    NoStrictlyLaterMoment { source: SimMoment },
}

/// Why a proposed containment transfer cannot be an accepted transition.
#[derive(Clone, Copy, Debug, PartialEq, Eq, Structural)]
pub enum ContainmentTransferSealError {
    ActorMismatch,
    ItemNotContained,
    SourceMismatch { actual: EntityId, expected: EntityId },
    DestinationContainerMissing,
    SourceAuthorityMissing,
    DestinationCapacityExceeded,
    InvalidTransition(ContainmentTransitionError),
}

/// How a refused containment transition is reported at sealing.
pub open spec fn transfer_seal_error(error: ContainmentTransitionError) -> ContainmentTransferSealError {
    match error {
        ContainmentTransitionError::ItemNotContained { .. } => ContainmentTransferSealError::ItemNotContained,
        ContainmentTransitionError::SourceMismatch { actual, expected, .. } => ContainmentTransferSealError::SourceMismatch {
            actual,
            expected,
        },
        ContainmentTransitionError::DestinationContainerMissing { .. } => ContainmentTransferSealError::DestinationContainerMissing,
        ContainmentTransitionError::SourceAuthorityMissing { .. } => ContainmentTransferSealError::SourceAuthorityMissing,
        ContainmentTransitionError::InvalidSuccessor(
            DomainStateError::ContainerCapacityExceeded { .. },
        ) => ContainmentTransferSealError::DestinationCapacityExceeded,
        ContainmentTransitionError::DuplicateItemClaim { .. } => ContainmentTransferSealError::InvalidTransition(
            error,
        ),
    }
}

/// Reports a refused containment transition as a sealing error.
pub fn map_containment_transition_error(error: ContainmentTransitionError) -> (r:
    ContainmentTransferSealError)
    ensures
        r == transfer_seal_error(error),
{
    match error {
        ContainmentTransitionError::ItemNotContained { .. } => ContainmentTransferSealError::ItemNotContained,
        ContainmentTransitionError::SourceMismatch { actual, expected, .. } => ContainmentTransferSealError::SourceMismatch {
            actual,
            expected,
        },
        ContainmentTransitionError::DestinationContainerMissing { .. } => ContainmentTransferSealError::DestinationContainerMissing,
        ContainmentTransitionError::SourceAuthorityMissing { .. } => ContainmentTransferSealError::SourceAuthorityMissing,
        ContainmentTransitionError::InvalidSuccessor(
            DomainStateError::ContainerCapacityExceeded { .. },
        ) => ContainmentTransferSealError::DestinationCapacityExceeded,
        ContainmentTransitionError::DuplicateItemClaim { .. } => ContainmentTransferSealError::InvalidTransition(
            error,
        ),
    }
}

/// Marks a local position that must not have been covered before.
pub fn mark_once(coverage: &mut [bool], position: u32) -> (r: Result<(), AuthorityRecordSealError>)
    ensures
        r == (if position < old(coverage)@.len() && !old(coverage)@[position as int] {
            Ok::<(), AuthorityRecordSealError>(())
        } else {
            Err(AuthorityRecordSealError::InvalidNormalizedGraph)
        }),
        r is Ok ==> final(coverage)@ == old(coverage)@.update(position as int, true),
        r is Err ==> final(coverage)@ == old(coverage)@,
{
    let index = position as usize;
    if index >= coverage.len() {
        return Err(AuthorityRecordSealError::InvalidNormalizedGraph);
    }
    if coverage[index] {
        return Err(AuthorityRecordSealError::InvalidNormalizedGraph);
    }
    coverage[index] = true;
    Ok(())
}

/// Marks a local position that may already be covered.
pub fn mark_present(coverage: &mut [bool], position: u32) -> (r: Result<(), AuthorityRecordSealError>)
    ensures
        r == (if position < old(coverage)@.len() {
            Ok::<(), AuthorityRecordSealError>(())
        } else {
            Err(AuthorityRecordSealError::InvalidNormalizedGraph)
        }),
        r is Ok ==> final(coverage)@ == old(coverage)@.update(position as int, true),
        r is Err ==> final(coverage)@ == old(coverage)@,
{
    let index = position as usize;
    if index >= coverage.len() {
        return Err(AuthorityRecordSealError::InvalidNormalizedGraph);
    }
    coverage[index] = true;
    Ok(())
}

/// Narrows a collection position to the `u32` local index carried by records.
pub fn local_u32(position: usize) -> (r: Result<u32, AuthorityRecordSealError>)
    ensures
        r == (if position <= u32::MAX {
            Ok::<u32, AuthorityRecordSealError>(position as u32)
        } else {
            Err(AuthorityRecordSealError::CollectionTooLarge)
        }),
{
    if position <= 0xffff_ffffusize {
        Ok(position as u32)
    } else {
        Err(AuthorityRecordSealError::CollectionTooLarge)
    }
}

/// Checks that adding `additions` work items at `moment`, which already
/// holds `scheduled` items, stays within the per-moment `maximum`.
pub fn ensure_work_population(
    moment: SimMoment,
    scheduled: usize,
    additions: usize,
    maximum: u32,
) -> (r: Result<(), AuthorityRecordSealError>)
    ensures
        r == (if scheduled + additions > usize::MAX {
            Err(AuthorityRecordSealError::CollectionTooLarge)
        } else if scheduled + additions > maximum {
            Err(
                AuthorityRecordSealError::WorkPopulationExceeded {
                    moment,
                    maximum,
                    actual: (scheduled + additions) as usize,
                },
            )
        } else {
            Ok::<(), AuthorityRecordSealError>(())
        }),
{
    let actual = match scheduled.checked_add(additions) {
        Some(actual) => actual,
        None => {
            return Err(AuthorityRecordSealError::CollectionTooLarge);
        },
    };
    if actual as u64 > maximum as u64 {
        return Err(AuthorityRecordSealError::WorkPopulationExceeded { moment, maximum, actual });
    }
    Ok(())
}

/// Whether every adjacent pair of fingerprints is strictly increasing.
pub fn is_strictly_sorted(values: &[CommandRequestFingerprint]) -> (r: bool)
    ensures
        r == strictly_increasing(values@),
{
    let mut i: usize = 1;
    while i < values.len()
        invariant
            1 <= i,
            i <= values@.len() || values@.len() == 0,
            strictly_increasing(values@.subrange(0, i as int)) || values@.len() == 0,
        decreases values@.len() - i,
    {
        if values[i - 1].0 >= values[i].0 {
            proof {
                assert(!strictly_increasing(values@)) by {
                    assert(!(values@[i - 1].0 < values@[i as int].0));
                }
            }
            return false;
        }
        proof {
            let s = values@.subrange(0, i as int + 1);
            assert forall|a: int, b: int| 0 <= a < b < s.len() implies s[a].0 < s[b].0 by {
                assert(values@.subrange(0, i as int)[a] == s[a]);
                if b < i {
                    assert(values@.subrange(0, i as int)[b] == s[b]);
                } else if a < i - 1 {
                    assert(values@.subrange(0, i as int)[i - 1] == s[i - 1]);
                }
            }
        }
        i = i + 1;
    }
    proof {
        if values@.len() > 0 {
            assert(values@.subrange(0, values@.len() as int) =~= values@);
        }
    }
    true
}

/// Integer rank of a management operation: its variant first, then its payload.
pub open spec fn operation_rank(operation: SessionManagement) -> (int, int, int, int) {
    match operation {
        SessionManagement::Pause => (0, 0, 0, 0),
        SessionManagement::Resume => (1, 0, 0, 0),
        SessionManagement::Fail => (2, 0, 0, 0),
        SessionManagement::Quarantine => (3, 0, 0, 0),
        SessionManagement::SealAdmissionThrough(moment) => (
            4,
            moment.ticks as int,
            moment.microstep as int,
            0,
        ),
        SessionManagement::Retire(LedgerRetirement::InputThrough(id)) => (5, 0, id.0 as int, 0),
        SessionManagement::Retire(LedgerRetirement::ManagementThrough(id)) => (
            5,
            1,
            id.0 as int,
            0,
        ),
        SessionManagement::Retire(LedgerRetirement::CommandThrough { source, command }) => (
            5,
            2,
            source.0 as int,
            command.0 as int,
        ),
    }
}

/// Canonical sort key of a management request: ID, fingerprint, operation.
pub open spec fn manage_key(request: ManageRequest) -> (int, int, int, int, int, int) {
    let op = operation_rank(request.operation);
    (request.id.0 as int, request.fingerprint.0 as int, op.0, op.1, op.2, op.3)
}

/// Lexicographic strict order on six-part keys.
pub open spec fn key_lt(a: (int, int, int, int, int, int), b: (int, int, int, int, int, int)) -> bool {
    ||| a.0 < b.0
    ||| a.0 == b.0 && a.1 < b.1
    ||| a.0 == b.0 && a.1 == b.1 && a.2 < b.2
    ||| a.0 == b.0 && a.1 == b.1 && a.2 == b.2 && a.3 < b.3
    ||| a.0 == b.0 && a.1 == b.1 && a.2 == b.2 && a.3 == b.3 && a.4 < b.4
    ||| a.0 == b.0 && a.1 == b.1 && a.2 == b.2 && a.3 == b.3 && a.4 == b.4 && a.5 < b.5
}

/// `a` sorts strictly before `b` in canonical management order.
pub open spec fn manage_lt(a: ManageRequest, b: ManageRequest) -> bool {
    key_lt(manage_key(a), manage_key(b))
}

/// `a` sorts no later than `b` in canonical management order.
pub open spec fn manage_leq(a: ManageRequest, b: ManageRequest) -> bool {
    manage_lt(a, b) || a == b
}

/// Canonical management order as a relation.
pub open spec fn manage_order() -> spec_fn(ManageRequest, ManageRequest) -> bool {
    |a: ManageRequest, b: ManageRequest| manage_leq(a, b)
}

/// A batch of management requests in canonical order.
pub open spec fn canonical_requests(requests: Seq<ManageRequest>) -> Seq<ManageRequest> {
    requests.sort_by(manage_order())
}

/// Two requests with the same key are the same request.
proof fn lemma_manage_key_injective(a: ManageRequest, b: ManageRequest)
    requires
        manage_key(a) == manage_key(b),
    ensures
        a == b,
{
    assert(a.id == b.id);
    assert(a.fingerprint == b.fingerprint);
    match a.operation {
        SessionManagement::SealAdmissionThrough(x) => {
            match b.operation {
                SessionManagement::SealAdmissionThrough(y) => {
                    assert(x.ticks == y.ticks && x.microstep == y.microstep);
                },
                _ => {},
            }
        },
        SessionManagement::Retire(x) => {
            match b.operation {
                SessionManagement::Retire(y) => {
                    match x {
                        LedgerRetirement::InputThrough(i) => {
                            match y {
                                LedgerRetirement::InputThrough(j) => {
                                    assert(i.0 == j.0);
                                },
                                _ => {},
                            }
                        },
                        LedgerRetirement::ManagementThrough(i) => {
                            match y {
                                LedgerRetirement::ManagementThrough(j) => {
                                    assert(i.0 == j.0);
                                },
                                _ => {},
                            }
                        },
                        LedgerRetirement::CommandThrough { source: s1, command: c1 } => {
                            match y {
                                LedgerRetirement::CommandThrough { source: s2, command: c2 } => {
                                    assert(s1.0 == s2.0 && c1.0 == c2.0);
                                },
                                _ => {},
                            }
                        },
                    }
                },
                _ => {},
            }
        },
        _ => {},
    }
}

/// Canonical management order is a total order.
pub proof fn lemma_manage_order_total()
    ensures
        total_ordering(manage_order()),
{
    let leq = manage_order();
    assert forall|x: ManageRequest, y: ManageRequest| #[trigger] leq(x, y) && #[trigger] leq(y, x) implies x == y by {
        if x != y {
            assert(manage_lt(x, y) && manage_lt(y, x));
        }
    }
    assert forall|x: ManageRequest, y: ManageRequest| #[trigger] leq(x, y) || #[trigger] leq(y, x) by {
        if !manage_lt(x, y) && !manage_lt(y, x) {
            lemma_manage_key_injective(x, y);
        }
    }
    assert forall|x: ManageRequest, y: ManageRequest, z: ManageRequest| #[trigger] leq(x, y) && #[trigger] leq(y, z) implies leq(x, z) by {
    }
}

/// Executable integer rank of a management operation.
fn operation_key(operation: SessionManagement) -> (r: (u64, u64, u64, u64))
    ensures
        (r.0 as int, r.1 as int, r.2 as int, r.3 as int) == operation_rank(operation),
{
    match operation {
        SessionManagement::Pause => (0, 0, 0, 0),
        SessionManagement::Resume => (1, 0, 0, 0),
        SessionManagement::Fail => (2, 0, 0, 0),
        SessionManagement::Quarantine => (3, 0, 0, 0),
        SessionManagement::SealAdmissionThrough(moment) => (4, moment.ticks, moment.microstep, 0),
        SessionManagement::Retire(LedgerRetirement::InputThrough(id)) => (5, 0, id.0, 0),
        SessionManagement::Retire(LedgerRetirement::ManagementThrough(id)) => (5, 1, id.0, 0),
        SessionManagement::Retire(LedgerRetirement::CommandThrough { source, command }) => (
            5,
            2,
            source.0,
            command.0,
        ),
    }
}

/// Whether `left` sorts strictly before `right` in canonical management order.
fn manage_precedes(left: ManageRequest, right: ManageRequest) -> (r: bool)
    ensures
        r == manage_lt(left, right),
{
    let a = operation_key(left.operation);
    let b = operation_key(right.operation);
    let (l0, l1) = (left.id.0, left.fingerprint.0);
    let (r0, r1) = (right.id.0, right.fingerprint.0);
    if l0 != r0 {
        l0 < r0
    } else if l1 != r1 {
        l1 < r1
    } else if a.0 != b.0 {
        a.0 < b.0
    } else if a.1 != b.1 {
        a.1 < b.1
    } else if a.2 != b.2 {
        a.2 < b.2
    } else {
        a.3 < b.3
    }
}

/// Three-way canonical comparison of two management requests.
pub fn compare_manage_requests(left: &ManageRequest, right: &ManageRequest) -> (r: Ordering)
    ensures
        (r == Ordering::Less) == manage_lt(*left, *right),
        (r == Ordering::Equal) == (*left == *right),
        (r == Ordering::Greater) == manage_lt(*right, *left),
{
    proof {
        lemma_manage_order_total();
        if manage_key(*left) == manage_key(*right) {
            lemma_manage_key_injective(*left, *right);
        }
    }
    if manage_precedes(*left, *right) {
        Ordering::Less
    } else if manage_precedes(*right, *left) {
        Ordering::Greater
    } else {
        Ordering::Equal
    }
}

/// Canonical sort key of an admission request: effective moment, command
/// source, actor, command ID and fingerprint, then input ID and fingerprint.
pub open spec fn admit_key(request: AdmitRequest) -> Seq<int> {
    seq![
        request.effective.ticks as int,
        request.effective.microstep as int,
        request.command.source.0 as int,
        request.command.actor.0 as int,
        request.command.id.0 as int,
        request.command.fingerprint.0 as int,
        request.id.0 as int,
        request.fingerprint.0 as int,
    ]
}

/// `a` is lexicographically smaller than `b` from position `from` on.
pub open spec fn seq_lex_lt(a: Seq<int>, b: Seq<int>, from: int) -> bool
    decreases a.len() - from,
{
    if from < 0 || from >= a.len() || from >= b.len() {
        false
    } else if a[from] != b[from] {
        a[from] < b[from]
    } else {
        seq_lex_lt(a, b, from + 1)
    }
}

/// `a` sorts strictly before `b` in canonical admission order.
pub open spec fn admit_lt(a: AdmitRequest, b: AdmitRequest) -> bool {
    seq_lex_lt(admit_key(a), admit_key(b), 0)
}

/// Executable canonical key of an admission request.
fn admit_key_exec(request: &AdmitRequest) -> (r: [u64; 8])
    ensures
        forall|i: int| 0 <= i < 8 ==> r@[i] as int == #[trigger] admit_key(*request)[i],
{
    [
        request.effective.ticks,
        request.effective.microstep,
        request.command.source.0,
        request.command.actor.0,
        request.command.id.0,
        request.command.fingerprint.0,
        request.id.0,
        request.fingerprint.0,
    ]
}

/// Position of `left` relative to `right` in canonical admission order:
/// 0 before, 1 same key, 2 after.
fn admit_rank(left: &AdmitRequest, right: &AdmitRequest) -> (r: u8)
    ensures
        (r == 0) == admit_lt(*left, *right),
        (r == 1) == (admit_key(*left) == admit_key(*right)),
        (r == 2) == admit_lt(*right, *left),
        r <= 2,
{
    let a = admit_key_exec(left);
    let b = admit_key_exec(right);
    let ghost ka = admit_key(*left);
    let ghost kb = admit_key(*right);
    let mut i: usize = 0;
    while i < 8
        invariant
            i <= 8,
            ka == admit_key(*left),
            kb == admit_key(*right),
            ka.len() == 8 && kb.len() == 8,
            forall|j: int| 0 <= j < 8 ==> a@[j] as int == #[trigger] ka[j],
            forall|j: int| 0 <= j < 8 ==> b@[j] as int == #[trigger] kb[j],
            forall|j: int| 0 <= j < i ==> ka[j] == kb[j],
            seq_lex_lt(ka, kb, 0) == seq_lex_lt(ka, kb, i as int),
            seq_lex_lt(kb, ka, 0) == seq_lex_lt(kb, ka, i as int),
        decreases 8 - i,
    {
        if a[i] != b[i] {
            proof {
                assert(ka[i as int] != kb[i as int]);
                assert(ka != kb);
                assert(seq_lex_lt(ka, kb, i as int) == (ka[i as int] < kb[i as int]));
                assert(seq_lex_lt(kb, ka, i as int) == (kb[i as int] < ka[i as int]));
            }
            if a[i] < b[i] {
                return 0;
            } else {
                return 2;
            }
        }
        i = i + 1;
    }
    proof {
        assert(ka =~= kb);
        assert(!seq_lex_lt(ka, kb, 8));
        assert(!seq_lex_lt(kb, ka, 8));
    }
    1
}

/// Three-way canonical comparison of two admission requests.
pub fn compare_admit_requests(left: &AdmitRequest, right: &AdmitRequest) -> (r: Ordering)
    ensures
        (r == Ordering::Less) == admit_lt(*left, *right),
        (r == Ordering::Equal) == (admit_key(*left) == admit_key(*right)),
        (r == Ordering::Greater) == admit_lt(*right, *left),
{
    let rank = admit_rank(left, right);
    if rank == 0 {
        Ordering::Less
    } else if rank == 1 {
        Ordering::Equal
    } else {
        Ordering::Greater
    }
}

/// Inserting `x` at `i` adds exactly one `x` to the multiset of a sequence.
proof fn lemma_insert_to_multiset(s: Seq<ManageRequest>, i: int, x: ManageRequest)
    requires
        0 <= i <= s.len(),
    ensures
        s.insert(i, x).to_multiset() =~= s.to_multiset().insert(x),
{
    broadcast use vstd::seq_lib::group_to_multiset_ensures;
    broadcast use vstd::multiset::group_multiset_axioms;

    let t = s.insert(i, x);
    assert(t.remove(i) =~= s);
    assert(t[i] == x);
    assert(t.remove(i).to_multiset() == t.to_multiset().remove(x));
    assert(t.contains(x));
    assert(t.to_multiset().count(x) > 0);
}

/// Sorts a batch of management requests into canonical order.
pub fn sort_manage_requests(requests: Vec<ManageRequest>) -> (r: Vec<ManageRequest>)
    ensures
        r@ == canonical_requests(requests@),
{
    let leq = Ghost(manage_order());
    let mut out: Vec<ManageRequest> = Vec::new();
    let mut i: usize = 0;
    proof {
        assert(out@ =~= requests@.subrange(0, 0));
    }
    while i < requests.len()
        invariant
            i <= requests@.len(),
            leq@ == manage_order(),
            sorted_by(out@, leq@),
            out@.to_multiset() == requests@.subrange(0, i as int).to_multiset(),
        decreases requests@.len() - i,
    {
        let x = requests[i];
        let mut position: usize = 0;
        while position < out.len() && !manage_precedes(x, out[position])
            invariant
                position <= out@.len(),
                forall|j: int| 0 <= j < position ==> !manage_lt(x, #[trigger] out@[j]),
            decreases out@.len() - position,
        {
            position = position + 1;
        }
        let ghost before = out@;
        out.insert(position, x);
        proof {
            lemma_manage_order_total();
            assert forall|a: int, b: int| 0 <= a < b < out@.len() implies #[trigger] leq@(
                out@[a],
                out@[b],
            ) by {
                if b < position {
                    assert(out@[a] == before[a] && out@[b] == before[b]);
                } else if b == position {
                    assert(out@[a] == before[a]);
                    assert(!manage_lt(x, before[a]));
                    assert(leq@(x, before[a]) || leq@(before[a], x));
                } else if a < position {
                    assert(out@[a] == before[a] && out@[b] == before[b - 1]);
                    assert(leq@(before[a], before[b - 1]));
                } else if a == position {
                    assert(out@[b] == before[b - 1]);
                    assert(manage_lt(x, before[position as int]));
                    if b - 1 > position {
                        assert(leq@(before[position as int], before[b - 1]));
                    }
                    assert(leq@(x, before[position as int]));
                } else {
                    assert(out@[a] == before[a - 1] && out@[b] == before[b - 1]);
                    assert(leq@(before[a - 1], before[b - 1]));
                }
            }
            lemma_insert_to_multiset(before, position as int, x);
            assert(requests@.subrange(0, i + 1) =~= requests@.subrange(0, i as int).push(x));
            vstd::seq_lib::to_multiset_build(requests@.subrange(0, i as int), x);
        }
        i = i + 1;
    }
    proof {
        lemma_manage_order_total();
        assert(requests@.subrange(0, requests@.len() as int) =~= requests@);
        requests@.lemma_sort_by_ensures(manage_order());
        vstd::seq_lib::lemma_sorted_unique(out@, requests@.sort_by(manage_order()), manage_order());
    }
    out
}

/// One normalized management request and the session mode after it.
#[derive(Clone, Copy, Debug, PartialEq, Eq, Structural)]
pub struct NormalizedManagementRecord {
    pub request: ManageRequest,
    pub resulting_mode: SessionMode,
}

/// Normalized body of a host management record.
#[derive(Clone, Debug, PartialEq, Eq)]
pub struct NormalizedManagement {
    pub entries: Vec<NormalizedManagementRecord>,
    pub resulting_mode: SessionMode,
    pub preserved_frontier: SimMoment,
}

/// Session mode after a management operation that requests `requested`.
pub open spec fn management_transition(
    current: SessionMode,
    requested: Option<SessionMode>,
) -> Result<SessionMode, AuthorityRecordSealError> {
    match requested {
        None => Ok(current),
        Some(requested) => match (current, requested) {
            (SessionMode::Running, SessionMode::Paused) => Ok(SessionMode::Paused),
            (SessionMode::Paused, SessionMode::Running) => Ok(SessionMode::Running),
            (SessionMode::Running, SessionMode::Quarantined) => Ok(SessionMode::Quarantined),
            (SessionMode::Paused, SessionMode::Quarantined) => Ok(SessionMode::Quarantined),
            (SessionMode::Running, SessionMode::Failed) => Ok(SessionMode::Failed),
            (SessionMode::Paused, SessionMode::Failed) => Ok(SessionMode::Failed),
            _ => Err(AuthorityRecordSealError::IllegalManagementTransition { current, requested }),
        },
    }
}

/// Applies the session-mode transition table.
pub fn transition_mode(current: SessionMode, requested: Option<SessionMode>) -> (r: Result<
    SessionMode,
    AuthorityRecordSealError,
>)
    ensures
        r == management_transition(current, requested),
{
    match requested {
        None => Ok(current),
        Some(requested) => match (current, requested) {
            (SessionMode::Running, SessionMode::Paused) => Ok(SessionMode::Paused),
            (SessionMode::Paused, SessionMode::Running) => Ok(SessionMode::Running),
            (SessionMode::Running, SessionMode::Quarantined) => Ok(SessionMode::Quarantined),
            (SessionMode::Paused, SessionMode::Quarantined) => Ok(SessionMode::Quarantined),
            (SessionMode::Running, SessionMode::Failed) => Ok(SessionMode::Failed),
            (SessionMode::Paused, SessionMode::Failed) => Ok(SessionMode::Failed),
            _ => Err(AuthorityRecordSealError::IllegalManagementTransition { current, requested }),
        },
    }
}

/// The session-mode table of a management operation: no mode change keeps the
/// mode; a live session (running or paused) may be quarantined or failed and
/// may switch between running and paused; a session may not be asked for the
/// mode it is already in; a quarantined or failed session admits no change.
pub proof fn lemma_management_transition_table(current: SessionMode, requested: SessionMode)
    ensures
        management_transition(current, None) == Ok::<SessionMode, AuthorityRecordSealError>(current),
        (current == SessionMode::Running || current == SessionMode::Paused) && (requested
            == SessionMode::Quarantined || requested == SessionMode::Failed) ==> management_transition(
            current,
            Some(requested),
        ) == Ok::<SessionMode, AuthorityRecordSealError>(requested),
        management_transition(SessionMode::Running, Some(SessionMode::Paused)) == Ok::<
            SessionMode,
            AuthorityRecordSealError,
        >(SessionMode::Paused),
        management_transition(SessionMode::Paused, Some(SessionMode::Running)) == Ok::<
            SessionMode,
            AuthorityRecordSealError,
        >(SessionMode::Running),
        (current == SessionMode::Quarantined || current == SessionMode::Failed || requested == current)
            ==> management_transition(current, Some(requested)) == Err::<SessionMode, AuthorityRecordSealError>(
            AuthorityRecordSealError::IllegalManagementTransition { current, requested },
        ),
        management_transition(current, Some(requested)) is Ok ==> management_transition(
            current,
            Some(requested),
        ) == Ok::<SessionMode, AuthorityRecordSealError>(requested),
{
}

/// New admission frontier after sealing admission through `requested`.
pub open spec fn sealed_frontier(
    frontier: SimMoment,
    requested: SimMoment,
    least_due: Option<SimMoment>,
    blocked_at: Option<SimMoment>,
) -> Result<SimMoment, AuthorityRecordSealError> {
    if !frontier.before(requested) {
        Err(AuthorityRecordSealError::AdmissionFrontierNotAdvancing { current: frontier, requested })
    } else if blocked_at is Some && blocked_at.unwrap().before(requested) {
        Err(AuthorityRecordSealError::ActionEvaluationFrontierBlocked { blocked_at: blocked_at.unwrap() })
    } else if least_due is Some && least_due.unwrap().before(requested) {
        Err(
            AuthorityRecordSealError::AdmissionSealCrossesScheduledWork {
                requested,
                scheduled: least_due.unwrap(),
            },
        )
    } else {
        Ok(requested)
    }
}

/// Whether `a` comes strictly before `b`: an earlier tick, or the same tick
/// and an earlier microstep.
pub open spec fn strictly_earlier(a: SimMoment, b: SimMoment) -> bool {
    a.ticks < b.ticks || (a.ticks == b.ticks && a.microstep < b.microstep)
}

/// Sealing admission moves the frontier exactly to the requested moment, and
/// only forward: it succeeds exactly when the requested moment is strictly
/// after the frontier and neither a blocking action evaluation nor scheduled
/// work lies strictly before it. A request that does not advance is refused
/// as such, whatever else holds.
pub proof fn lemma_admission_seal_moves_forward(
    frontier: SimMoment,
    requested: SimMoment,
    least_due: Option<SimMoment>,
    blocked_at: Option<SimMoment>,
)
    ensures
        sealed_frontier(frontier, requested, least_due, blocked_at) is Ok <==> {
            &&& strictly_earlier(frontier, requested)
            &&& match blocked_at {
                Some(b) => !strictly_earlier(b, requested),
                None => true,
            }
            &&& match least_due {
                Some(d) => !strictly_earlier(d, requested),
                None => true,
            }
        },
        sealed_frontier(frontier, requested, least_due, blocked_at) is Ok ==> sealed_frontier(
            frontier,
            requested,
            least_due,
            blocked_at,
        ) == Ok::<SimMoment, AuthorityRecordSealError>(requested),
        !strictly_earlier(frontier, requested) ==> sealed_frontier(frontier, requested, least_due, blocked_at)
            == Err::<SimMoment, AuthorityRecordSealError>(
            AuthorityRecordSealError::AdmissionFrontierNotAdvancing { current: frontier, requested },
        ),
{
}

/// Checks that sealing admission through `requested` advances the frontier
/// without crossing a blocked evaluation or already scheduled work.
pub fn seal_admission_frontier(
    frontier: SimMoment,
    requested: SimMoment,
    least_due: Option<SimMoment>,
    blocked_at: Option<SimMoment>,
) -> (r: Result<SimMoment, AuthorityRecordSealError>)
    ensures
        r == sealed_frontier(frontier, requested, least_due, blocked_at),
{
    if !frontier.precedes(requested) {
        return Err(
            AuthorityRecordSealError::AdmissionFrontierNotAdvancing { current: frontier, requested },
        );
    }
    if let Some(blocked_at) = blocked_at {
        if blocked_at.precedes(requested) {
            return Err(AuthorityRecordSealError::ActionEvaluationFrontierBlocked { blocked_at });
        }
    }
    if let Some(scheduled) = least_due {
        if scheduled.precedes(requested) {
            return Err(
                AuthorityRecordSealError::AdmissionSealCrossesScheduledWork { requested, scheduled },
            );
        }
    }
    Ok(requested)
}

/// Progress of normalizing a management batch: the session mode and
/// admission frontier so far, the scratch control state, the request IDs
/// seen and the entries produced.
pub struct ManagementScan {
    pub mode: SessionMode,
    pub frontier: SimMoment,
    pub control: RuntimeControlView,
    pub seen: Set<u64>,
    pub entries: Seq<NormalizedManagementRecord>,
}

/// Management ledger after retaining `request` with a placeholder record.
pub open spec fn retained_management(
    control: RuntimeControlView,
    request: ManageRequest,
) -> RuntimeControlView {
    RuntimeControlView {
        management: RequestLedgerView {
            retired_through: control.management.retired_through,
            entries: control.management.entries.insert(
                request.id.0,
                ManagementLedgerEntry {
                    fingerprint: request.fingerprint,
                    outcome: ManageOutcome { record: AuthorityRecordId(0), operation: request.operation },
                },
            ),
        },
        ..control
    }
}

/// Control state after the retirement that `request` carries, if any.
pub open spec fn management_retirement(
    control: RuntimeControlView,
    request: ManageRequest,
) -> Result<RuntimeControlView, AuthorityRecordSealError> {
    match request.operation {
        SessionManagement::Retire(retirement) => match control.retirement(retirement, request.id) {
            Ok(_) => Ok(control.retired(retirement)),
            Err(error) => Err(AuthorityRecordSealError::LedgerRetirement { retirement, error }),
        },
        _ => Ok(control),
    }
}

/// One request of a canonical management batch applied to the scan so far.
pub open spec fn management_step(
    scan: ManagementScan,
    request: ManageRequest,
    least_due: Option<SimMoment>,
    blocked_at: Option<SimMoment>,
) -> Result<ManagementScan, AuthorityRecordSealError> {
    if scan.seen.contains(request.id.0) {
        Err(AuthorityRecordSealError::DuplicateManagementRequest)
    } else if !(management_lookup(
        scan.control.management,
        request.id.0,
        request.fingerprint,
    ) is Absent) {
        Err(AuthorityRecordSealError::ManagementRequestAlreadyRetained)
    } else {
        let frontier = match request.operation {
            SessionManagement::SealAdmissionThrough(requested) => sealed_frontier(
                scan.frontier,
                requested,
                least_due,
                blocked_at,
            ),
            _ => Ok(scan.frontier),
        };
        match frontier {
            Err(error) => Err(error),
            Ok(frontier) => match management_transition(
                scan.mode,
                request.operation.requested_mode(),
            ) {
                Err(error) => Err(error),
                Ok(mode) => match management_retirement(
                    retained_management(scan.control, request),
                    request,
                ) {
                    Err(error) => Err(error),
                    Ok(control) => Ok(
                        ManagementScan {
                            mode,
                            frontier,
                            control,
                            seen: scan.seen.insert(request.id.0),
                            entries: scan.entries.push(
                                NormalizedManagementRecord { request, resulting_mode: mode },
                            ),
                        },
                    ),
                },
            },
        }
    }
}

/// A canonical management batch applied request by request; the first
/// failure is the answer.
pub open spec fn management_scan(
    start: ManagementScan,
    requests: Seq<ManageRequest>,
    least_due: Option<SimMoment>,
    blocked_at: Option<SimMoment>,
) -> Result<ManagementScan, AuthorityRecordSealError>
    decreases requests.len(),
{
    if requests.len() == 0 {
        Ok(start)
    } else {
        match management_scan(start, requests.drop_last(), least_due, blocked_at) {
            Ok(scan) => management_step(scan, requests.last(), least_due, blocked_at),
            Err(error) => Err(error),
        }
    }
}

/// Exact answer of normalizing a management batch: its entries and the
/// resulting session mode, or the first failure in canonical order.
pub open spec fn normalized_management(
    mode: SessionMode,
    frontier: SimMoment,
    control: RuntimeControlView,
    least_due: Option<SimMoment>,
    blocked_at: Option<SimMoment>,
    requests: Seq<ManageRequest>,
) -> Result<(Seq<NormalizedManagementRecord>, SessionMode), AuthorityRecordSealError> {
    if requests.len() == 0 {
        Err(AuthorityRecordSealError::EmptyBatch)
    } else {
        let start = ManagementScan {
            mode,
            frontier,
            control,
            seen: Set::empty(),
            entries: Seq::empty(),
        };
        match management_scan(start, canonical_requests(requests), least_due, blocked_at) {
            Ok(scan) => Ok((scan.entries, scan.mode)),
            Err(error) => Err(error),
        }
    }
}

/// The session mode each management operation asks for: pausing asks for a
/// paused session, resuming for a running one, quarantine and failure for
/// those modes; sealing admission and retiring ledgers leave the mode alone.
pub proof fn lemma_operation_modes(operation: SessionManagement)
    ensures
        operation == SessionManagement::Pause ==> operation.requested_mode() == Some(SessionMode::Paused),
        operation == SessionManagement::Resume ==> operation.requested_mode() == Some(SessionMode::Running),
        operation == SessionManagement::Quarantine ==> operation.requested_mode() == Some(
            SessionMode::Quarantined,
        ),
        operation == SessionManagement::Fail ==> operation.requested_mode() == Some(SessionMode::Failed),
        operation is SealAdmissionThrough || operation is Retire ==> operation.requested_mode() is None,
{
}

/// A batch of one mode-changing request that the ledger does not retain
/// normalizes to that one entry in the requested mode exactly when the
/// session is live and not already in that mode; otherwise it is refused as
/// an illegal transition from the current mode to the requested one.
pub proof fn lemma_single_mode_request(
    mode: SessionMode,
    frontier: SimMoment,
    control: RuntimeControlView,
    least_due: Option<SimMoment>,
    blocked_at: Option<SimMoment>,
    request: ManageRequest,
    target: SessionMode,
)
    requires
        management_lookup(control.management, request.id.0, request.fingerprint) is Absent,
        (request.operation == SessionManagement::Pause && target == SessionMode::Paused) || (request.operation
            == SessionManagement::Resume && target == SessionMode::Running) || (request.operation
            == SessionManagement::Quarantine && target == SessionMode::Quarantined) || (request.operation
            == SessionManagement::Fail && target == SessionMode::Failed),
    ensures
        (mode == SessionMode::Running || mode == SessionMode::Paused) && target != mode ==> normalized_management(
            mode,
            frontier,
            control,
            least_due,
            blocked_at,
            seq![request],
        ) == Ok::<(Seq<NormalizedManagementRecord>, SessionMode), AuthorityRecordSealError>(
            (seq![NormalizedManagementRecord { request, resulting_mode: target }], target),
        ),
        (mode == SessionMode::Quarantined || mode == SessionMode::Failed || target == mode)
            ==> normalized_management(mode, frontier, control, least_due, blocked_at, seq![request]) == Err::<
            (Seq<NormalizedManagementRecord>, SessionMode),
            AuthorityRecordSealError,
        >(AuthorityRecordSealError::IllegalManagementTransition { current: mode, requested: target }),
{
    let single = seq![request];
    lemma_manage_order_total();
    single.lemma_sort_by_ensures(manage_order());
    let sorted = canonical_requests(single);
    assert(sorted.len() == 1) by {
        vstd::seq_lib::to_multiset_len(single);
        vstd::seq_lib::to_multiset_len(sorted);
    }
    assert(sorted.contains(sorted[0]));
    assert(single.contains(sorted[0]));
    assert(sorted =~= single);
    let start = ManagementScan { mode, frontier, control, seen: Set::empty(), entries: Seq::empty() };
    assert(single.drop_last() =~= Seq::<ManageRequest>::empty());
    assert(management_scan(start, single.drop_last(), least_due, blocked_at) == Ok::<
        ManagementScan,
        AuthorityRecordSealError,
    >(start));
    assert(single.last() == request);
    assert(management_scan(start, single, least_due, blocked_at) == management_step(
        start,
        request,
        least_due,
        blocked_at,
    ));
    let after = management_step(start, request, least_due, blocked_at);
    if after is Ok {
        assert(after->Ok_0.entries =~= seq![NormalizedManagementRecord { request, resulting_mode: after->Ok_0.mode }]);
    }
}

/// Normalizing a management batch does not depend on the order in which
/// its requests were supplied: any two batches holding the same requests
/// normalize to the same entries, mode and failure.
pub proof fn lemma_management_permutation_invariant(
    mode: SessionMode,
    frontier: SimMoment,
    control: RuntimeControlView,
    least_due: Option<SimMoment>,
    blocked_at: Option<SimMoment>,
    a: Seq<ManageRequest>,
    b: Seq<ManageRequest>,
)
    requires
        a.to_multiset() == b.to_multiset(),
    ensures
        normalized_management(mode, frontier, control, least_due, blocked_at, a)
            == normalized_management(mode, frontier, control, least_due, blocked_at, b),
{
    lemma_manage_order_total();
    a.lemma_sort_by_ensures(manage_order());
    b.lemma_sort_by_ensures(manage_order());
    vstd::seq_lib::lemma_sorted_unique(
        a.sort_by(manage_order()),
        b.sort_by(manage_order()),
        manage_order(),
    );
    a.to_multiset_ensures();
    b.to_multiset_ensures();
}

/// Once a prefix of the batch fails, the whole batch fails the same way.
proof fn lemma_management_scan_error_sticks(
    start: ManagementScan,
    requests: Seq<ManageRequest>,
    k: int,
    least_due: Option<SimMoment>,
    blocked_at: Option<SimMoment>,
    error: AuthorityRecordSealError,
)
    requires
        0 <= k <= requests.len(),
        management_scan(start, requests.subrange(0, k), least_due, blocked_at) == Err::<
            ManagementScan,
            AuthorityRecordSealError,
        >(error),
    ensures
        management_scan(start, requests, least_due, blocked_at) == Err::<
            ManagementScan,
            AuthorityRecordSealError,
        >(error),
    decreases requests.len() - k,
{
    if k < requests.len() {
        assert(requests.subrange(0, k + 1).drop_last() =~= requests.subrange(0, k));
        lemma_management_scan_error_sticks(start, requests, k + 1, least_due, blocked_at, error);
    } else {
        assert(requests.subrange(0, k) =~= requests);
    }
}

/// Normalizes a batch of host management requests against the session head.
///
/// Requests are applied in canonical order to `control`, a scratch copy of
/// the head's control state; `least_due` is the earliest scheduled work and
/// `blocked_at` the least frontier at which a pending action evaluation
/// blocks admission.
pub fn normalize_management(
    mode: SessionMode,
    frontier: SimMoment,
    control: RuntimeControlState,
    least_due: Option<SimMoment>,
    blocked_at: Option<SimMoment>,
    requests: Vec<ManageRequest>,
) -> (r: Result<NormalizedManagement, AuthorityRecordSealError>)
    requires
        control@.wf(),
    ensures
        match r {
            Ok(normalized) => normalized_management(
                mode,
                frontier,
                control@,
                least_due,
                blocked_at,
                requests@,
            ) == Ok::<(Seq<NormalizedManagementRecord>, SessionMode), AuthorityRecordSealError>(
                (normalized.entries@, normalized.resulting_mode),
            ) && normalized.preserved_frontier == frontier,
            Err(error) => normalized_management(
                mode,
                frontier,
                control@,
                least_due,
                blocked_at,
                requests@,
            ) == Err::<(Seq<NormalizedManagementRecord>, SessionMode), AuthorityRecordSealError>(
                error,
            ),
        },
{
    if requests.len() == 0 {
        return Err(AuthorityRecordSealError::EmptyBatch);
    }
    let ghost supplied = requests@;
    let sorted = sort_manage_requests(requests);
    let ghost start = ManagementScan {
        mode,
        frontier,
        control: control@,
        seen: Set::empty(),
        entries: Seq::empty(),
    };
    let mut scratch = control;
    let mut seen: BTreeSet<u64> = BTreeSet::new();
    let mut current = mode;
    let mut current_frontier = frontier;
    let mut entries: Vec<NormalizedManagementRecord> = Vec::new();
    let mut i: usize = 0;
    proof {
        assert(sorted@.subrange(0, 0) =~= Seq::<ManageRequest>::empty());
    }
    while i < sorted.len()
        invariant
            i <= sorted@.len(),
            sorted@ == canonical_requests(supplied),
            supplied == requests@,
            supplied.len() > 0,
            start == (ManagementScan {
                mode,
                frontier,
                control: control@,
                seen: Set::empty(),
                entries: Seq::empty(),
            }),
            scratch@.wf(),
            management_scan(start, sorted@.subrange(0, i as int), least_due, blocked_at) == Ok::<
                ManagementScan,
                AuthorityRecordSealError,
            >(
                ManagementScan {
                    mode: current,
                    frontier: current_frontier,
                    control: scratch@,
                    seen: seen@,
                    entries: entries@,
                },
            ),
        decreases sorted@.len() - i,
    {
        let request = sorted[i];
        proof {
            assert(sorted@.subrange(0, i + 1).drop_last() =~= sorted@.subrange(0, i as int));
            assert(sorted@.subrange(0, i + 1).last() == request);
        }
        let step: Result<(), AuthorityRecordSealError> = self::normalize_one(
            &mut scratch,
            &mut seen,
            &mut current,
            &mut current_frontier,
            &mut entries,
            request,
            least_due,
            blocked_at,
        );
        if let Err(error) = step {
            proof {
                lemma_management_scan_error_sticks(
                    start,
                    sorted@,
                    i + 1,
                    least_due,
                    blocked_at,
                    error,
                );
            }
            return Err(error);
        }
        i = i + 1;
    }
    proof {
        assert(sorted@.subrange(0, sorted@.len() as int) =~= sorted@);
    }
    Ok(NormalizedManagement { entries, resulting_mode: current, preserved_frontier: frontier })
}

/// Applies one management request of a canonical batch to the scan state.
fn normalize_one(
    control: &mut RuntimeControlState,
    seen: &mut BTreeSet<u64>,
    current: &mut SessionMode,
    current_frontier: &mut SimMoment,
    entries: &mut Vec<NormalizedManagementRecord>,
    request: ManageRequest,
    least_due: Option<SimMoment>,
    blocked_at: Option<SimMoment>,
) -> (r: Result<(), AuthorityRecordSealError>)
    requires
        old(control)@.wf(),
    ensures
        final(control)@.wf(),
        ({
            let before = ManagementScan {
                mode: *old(current),
                frontier: *old(current_frontier),
                control: old(control)@,
                seen: old(seen)@,
                entries: old(entries)@,
            };
            let after = ManagementScan {
                mode: *final(current),
                frontier: *final(current_frontier),
                control: final(control)@,
                seen: final(seen)@,
                entries: final(entries)@,
            };
            match r {
                Ok(_) => management_step(before, request, least_due, blocked_at) == Ok::<
                    ManagementScan,
                    AuthorityRecordSealError,
                >(after),
                Err(error) => management_step(before, request, least_due, blocked_at) == Err::<
                    ManagementScan,
                    AuthorityRecordSealError,
                >(error),
            }
        }),
{
    let id = request.id();
    if seen.contains(&id.get()) {
        return Err(AuthorityRecordSealError::DuplicateManagementRequest);
    }
    let lookup = control.management().classify(id, request.fingerprint());
    if !matches!(lookup, RequestLedgerLookup::Absent) {
        return Err(AuthorityRecordSealError::ManagementRequestAlreadyRetained);
    }
    let operation = request.operation();
    let mut next_frontier = *current_frontier;
    if let SessionManagement::SealAdmissionThrough(requested) = operation {
        match seal_admission_frontier(*current_frontier, requested, least_due, blocked_at) {
            Ok(sealed) => {
                next_frontier = sealed;
            },
            Err(error) => {
                return Err(error);
            },
        }
    }
    let resulting_mode = match transition_mode(*current, operation.resulting_mode()) {
        Ok(mode) => mode,
        Err(error) => {
            return Err(error);
        },
    };
    let placeholder_record = AuthorityRecordId::new(0);
    let inserted = control.management_mut().insert_exact(
        id,
        request.fingerprint(),
        ManageOutcome::applied(placeholder_record, operation),
    );
    if inserted.is_err() {
        return Err(AuthorityRecordSealError::InvalidNormalizedGraph);
    }
    if let SessionManagement::Retire(retirement) = operation {
        if let Err(error) = control.retire(retirement, id) {
            return Err(AuthorityRecordSealError::LedgerRetirement { retirement, error });
        }
    }
    seen.insert(id.get());
    *current = resulting_mode;
    *current_frontier = next_frontier;
    entries.push(NormalizedManagementRecord { request, resulting_mode });
    Ok(())
}

/// One published management request and the outcome it was answered with.
#[derive(Clone, Copy, Debug, PartialEq, Eq, Structural)]
pub struct ManagementRecord {
    pub request: ManageRequest,
    pub outcome: ManageOutcome,
}

/// Published body of a host management batch.
#[derive(Clone, Debug, PartialEq, Eq)]
pub struct ManagementBatchRecord {
    pub entries: Vec<ManagementRecord>,
    pub resulting_mode: SessionMode,
    pub preserved_frontier: SimMoment,
}

/// Published form of one normalized entry sealed by `record_id`.
pub open spec fn materialized_entry(
    record_id: AuthorityRecordId,
    entry: NormalizedManagementRecord,
) -> ManagementRecord {
    ManagementRecord {
        request: entry.request,
        outcome: ManageOutcome { record: record_id, operation: entry.request.operation },
    }
}

/// Every published management entry keeps its request and records an outcome
/// that cites the sealing record and the requested operation.
pub proof fn lemma_materialized_entries_cite_record(
    record_id: AuthorityRecordId,
    entries: Seq<NormalizedManagementRecord>,
)
    ensures
        ({
            let published = entries.map_values(
                |entry: NormalizedManagementRecord| materialized_entry(record_id, entry),
            );
            &&& published.len() == entries.len()
            &&& forall|i: int|
                0 <= i < entries.len() ==> {
                    &&& (#[trigger] published[i]).request == entries[i].request
                    &&& published[i].outcome.record == record_id
                    &&& published[i].outcome.operation == entries[i].request.operation
                }
        }),
{
}

/// Materializes a normalized management body once its record ID is known:
/// every outcome cites the sealing record.
pub fn materialize(record_id: AuthorityRecordId, normalized: NormalizedManagement) -> (r:
    ManagementBatchRecord)
    ensures
        r.entries@ == normalized.entries@.map_values(
            |entry: NormalizedManagementRecord| materialized_entry(record_id, entry),
        ),
        r.resulting_mode == normalized.resulting_mode,
        r.preserved_frontier == normalized.preserved_frontier,
{
    let mut entries: Vec<ManagementRecord> = Vec::new();
    let mut i: usize = 0;
    while i < normalized.entries.len()
        invariant
            i <= normalized.entries@.len(),
            entries@ == normalized.entries@.subrange(0, i as int).map_values(
                |entry: NormalizedManagementRecord| materialized_entry(record_id, entry),
            ),
        decreases normalized.entries@.len() - i,
    {
        let entry = normalized.entries[i];
        let outcome = ManageOutcome::applied(record_id, entry.request.operation());
        entries.push(ManagementRecord { request: entry.request, outcome });
        proof {
            assert(normalized.entries@.subrange(0, i + 1) =~= normalized.entries@.subrange(
                0,
                i as int,
            ).push(entry));
        }
        i = i + 1;
    }
    proof {
        assert(normalized.entries@.subrange(0, normalized.entries@.len() as int)
            =~= normalized.entries@);
    }
    ManagementBatchRecord {
        entries,
        resulting_mode: normalized.resulting_mode,
        preserved_frontier: normalized.preserved_frontier,
    }
}

/// Issues the next evidence generation of `actor` from the per-actor cursor.
pub fn next_evidence_generation(cursor: &mut BTreeMap<u64, u64>, actor: ActorId) -> (r: Result<
    EvidenceDeliveryGeneration,
    AuthorityRecordSealError,
>)
    ensures
        ({
            let current = if old(cursor)@.contains_key(actor.0) {
                old(cursor)@[actor.0]
            } else {
                0
            };
            if current == u64::MAX {
                r == Err::<EvidenceDeliveryGeneration, AuthorityRecordSealError>(
                    AuthorityRecordSealError::InvalidNormalizedGraph,
                ) && final(cursor)@ == old(cursor)@
            } else {
                r == Ok::<EvidenceDeliveryGeneration, AuthorityRecordSealError>(
                    EvidenceDeliveryGeneration((current + 1) as u64),
                ) && final(cursor)@ == old(cursor)@.insert(actor.0, (current + 1) as u64)
            }
        }),
{
    let current = match cursor.get(&actor.get()) {
        Some(value) => *value,
        None => 0,
    };
    if current == u64::MAX {
        return Err(AuthorityRecordSealError::InvalidNormalizedGraph);
    }
    let next = match EvidenceDeliveryGeneration::new(current + 1) {
        Some(next) => next,
        None => {
            return Err(AuthorityRecordSealError::InvalidNormalizedGraph);
        },
    };
    cursor.insert(actor.get(), next.get());
    Ok(next)
}

/// Value of the first binding of a command named `role`.
pub open spec fn first_binding(bindings: Seq<CommandBinding>, role: Seq<char>) -> Option<CommandValue>
    decreases bindings.len(),
{
    if bindings.len() == 0 {
        None
    } else if bindings[0].name@ == role {
        Some(bindings[0].value)
    } else {
        first_binding(bindings.drop_first(), role)
    }
}

/// Skipping bindings with other names leaves the first match unchanged.
proof fn lemma_first_binding_from(bindings: Seq<CommandBinding>, i: int, role: Seq<char>)
    requires
        0 <= i <= bindings.len(),
        forall|j: int| 0 <= j < i ==> #[trigger] bindings[j].name@ != role,
    ensures
        first_binding(bindings, role) == first_binding(bindings.subrange(i, bindings.len() as int), role),
    decreases i,
{
    if i > 0 {
        let rest = bindings.drop_first();
        assert forall|j: int| 0 <= j < i - 1 implies #[trigger] rest[j].name@ != role by {
            assert(rest[j] == bindings[j + 1]);
        }
        lemma_first_binding_from(rest, i - 1, role);
        assert(rest.subrange(i - 1, rest.len() as int) =~= bindings.subrange(i, bindings.len() as int));
    } else {
        assert(bindings.subrange(0, bindings.len() as int) =~= bindings);
    }
}

/// Value of the first binding named `role`.
fn find_binding(bindings: &[CommandBinding], role: &str) -> (r: Option<CommandValue>)
    ensures
        r == first_binding(bindings@, role@),
{
    let name = role.to_owned();
    let mut i: usize = 0;
    while i < bindings.len()
        invariant
            i <= bindings@.len(),
            name@ == role@,
            forall|j: int| 0 <= j < i ==> #[trigger] bindings@[j].name@ != role@,
        decreases bindings@.len() - i,
    {
        if bindings[i].name == name {
            proof {
                lemma_first_binding_from(bindings@, i as int, role@);
                assert(bindings@.subrange(i as int, bindings@.len() as int)[0] == bindings@[i as int]);
            }
            return Some(bindings[i].value);
        }
        i = i + 1;
    }
    proof {
        lemma_first_binding_from(bindings@, i as int, role@);
    }
    None
}

/// The actor bound to the command's first binding named `role`, if that
/// binding holds an actor.
pub fn actor_command_binding(bindings: &[CommandBinding], role: &str) -> (r: Option<ActorId>)
    ensures
        r == (match first_binding(bindings@, role@) {
            Some(CommandValue::Actor(actor)) => Some(actor),
            _ => None,
        }),
{
    match find_binding(bindings, role) {
        Some(CommandValue::Actor(actor)) => Some(actor),
        _ => None,
    }
}

/// The entity bound to the command's first binding named `role`, if that
/// binding holds an entity.
pub fn entity_command_binding(bindings: &[CommandBinding], role: &str) -> (r: Option<EntityId>)
    ensures
        r == (match first_binding(bindings@, role@) {
            Some(CommandValue::Entity(entity)) => Some(entity),
            _ => None,
        }),
{
    match find_binding(bindings, role) {
        Some(CommandValue::Entity(entity)) => Some(entity),
        _ => None,
    }
}

} // verus!
