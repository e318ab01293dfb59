//! Retirement frontiers: a ledger may permanently retire only a complete,
//! contiguous prefix of its sequence numbers that starts right after its
//! current frontier.

use std::collections::BTreeMap;
use vstd::prelude::*;

use crate::ids::ManagementRequestId;

verus! {

/// Why a retained terminal prefix could not advance.
#[derive(Clone, Copy, Debug, PartialEq, Eq, Structural)]
pub enum LedgerRetirementError {
    NotAdvancing { retired_through: u64, requested: u64 },
    Gap { missing: u64 },
    ManagementTargetNotBeforeRequest { target: ManagementRequestId, request: ManagementRequestId },
}

/// Whether `id` lies at or below the retirement frontier.
pub open spec fn frontier_covers(retired_through: Option<u64>, id: u64) -> bool {
    match retired_through {
        Some(frontier) => id <= frontier,
        None => false,
    }
}

/// First sequence number a retirement through `requested` must cover.
pub open spec fn spec_retirement_start(retired_through: Option<u64>, requested: u64) -> Result<
    u64,
    LedgerRetirementError,
> {
    match retired_through {
        None => Ok(0),
        Some(current) => if requested > current {
            Ok((current + 1) as u64)
        } else {
            Err(LedgerRetirementError::NotAdvancing { retired_through: current, requested })
        },
    }
}

/// Every sequence number in `start..=target` is retained.
pub open spec fn complete_range(dom: Set<u64>, start: u64, target: u64) -> bool {
    forall|k: u64| start <= k <= target ==> #[trigger] dom.contains(k)
}

/// `missing` is the least sequence number in `start..=target` that is not retained.
pub open spec fn is_first_missing(dom: Set<u64>, start: u64, target: u64, missing: u64) -> bool {
    &&& start <= missing <= target
    &&& !dom.contains(missing)
    &&& complete_range(dom, start, (missing - 1) as u64) || missing == start
}

/// The least sequence number in `start..=target` that is not retained.
pub open spec fn first_missing(dom: Set<u64>, start: u64, target: u64) -> u64 {
    choose|missing: u64| is_first_missing(dom, start, target, missing)
}

/// The exact answer of a prefix-retirement check on a ledger whose retained
/// sequence numbers are `dom` and whose frontier is `retired_through`.
pub open spec fn spec_prefix_retirement(
    retired_through: Option<u64>,
    dom: Set<u64>,
    target: u64,
) -> Result<(), LedgerRetirementError> {
    match spec_retirement_start(retired_through, target) {
        Err(error) => Err(error),
        Ok(start) => if complete_range(dom, start, target) {
            Ok(())
        } else {
            Err(LedgerRetirementError::Gap { missing: first_missing(dom, start, target) })
        },
    }
}

/// What remains of `entries` once everything through `target` has retired.
pub open spec fn retained_after<E>(entries: Map<u64, E>, target: u64) -> Map<u64, E> {
    entries.restrict(Set::new(|k: u64| k > target))
}

/// The least missing sequence number is unique.
pub proof fn lemma_first_missing(dom: Set<u64>, start: u64, target: u64, missing: u64)
    requires
        is_first_missing(dom, start, target, missing),
    ensures
        first_missing(dom, start, target) == missing,
{
    let other = first_missing(dom, start, target);
    assert(is_first_missing(dom, start, target, other));
    if other < missing {
        assert(dom.contains(other));
    } else if missing < other {
        assert(dom.contains(missing));
    }
}

/// When some sequence number in `start..=target` is missing, the least
/// missing one exists and is what `first_missing` names.
pub proof fn lemma_first_missing_exists(dom: Set<u64>, start: u64, target: u64, witness: u64)
    requires
        start <= witness <= target,
        !dom.contains(witness),
    ensures
        is_first_missing(dom, start, target, first_missing(dom, start, target)),
    decreases witness,
{
    if witness == start || complete_range(dom, start, (witness - 1) as u64) {
        assert(is_first_missing(dom, start, target, witness));
        lemma_first_missing(dom, start, target, witness);
    } else {
        let lower = choose|k: u64| start <= k <= (witness - 1) as u64 && !#[trigger] dom.contains(k);
        lemma_first_missing_exists(dom, start, target, lower);
    }
}

/// Computes the first sequence number a retirement through `requested` must cover.
pub fn retirement_start(retired_through: Option<u64>, requested: u64) -> (r: Result<
    u64,
    LedgerRetirementError,
>)
    ensures
        r == spec_retirement_start(retired_through, requested),
{
    match retired_through {
        None => Ok(0),
        Some(current) => if requested > current {
            Ok(current + 1)
        } else {
            Err(LedgerRetirementError::NotAdvancing { retired_through: current, requested })
        },
    }
}

/// Checks that every sequence number in `start..=target` is retained, and
/// reports the least one that is not.
pub fn check_complete_range<E>(entries: &BTreeMap<u64, E>, start: u64, target: u64) -> (r: Result<
    (),
    LedgerRetirementError,
>)
    requires
        start <= target,
    ensures
        r == (if complete_range(entries@.dom(), start, target) {
            Ok::<(), LedgerRetirementError>(())
        } else {
            Err(LedgerRetirementError::Gap { missing: first_missing(entries@.dom(), start, target) })
        }),
{
    let mut sequence = start;
    while sequence < target
        invariant
            start <= sequence <= target,
            forall|k: u64| start <= k < sequence ==> #[trigger] entries@.contains_key(k),
        decreases target - sequence,
    {
        if !entries.contains_key(&sequence) {
            proof {
                assert(is_first_missing(entries@.dom(), start, target, sequence));
                lemma_first_missing(entries@.dom(), start, target, sequence);
            }
            return Err(LedgerRetirementError::Gap { missing: sequence });
        }
        sequence = sequence + 1;
    }
    if !entries.contains_key(&target) {
        proof {
            assert(is_first_missing(entries@.dom(), start, target, target));
            lemma_first_missing(entries@.dom(), start, target, target);
        }
        return Err(LedgerRetirementError::Gap { missing: target });
    }
    Ok(())
}

/// Removes every retained sequence number in `start..=target`.
pub fn remove_range<E>(entries: &mut BTreeMap<u64, E>, start: u64, target: u64)
    requires
        start <= target,
    ensures
        final(entries)@ == old(entries)@.remove_keys(Set::new(|k: u64| start <= k <= target)),
{
    let mut sequence = start;
    while sequence < target
        invariant
            start <= sequence <= target,
            entries@ == old(entries)@.remove_keys(Set::new(|k: u64| start <= k < sequence)),
        decreases target - sequence,
    {
        entries.remove(&sequence);
        proof {
            assert(entries@ =~= old(entries)@.remove_keys(
                Set::new(|k: u64| start <= k < sequence + 1),
            ));
        }
        sequence = sequence + 1;
    }
    entries.remove(&target);
    proof {
        assert(entries@ =~= old(entries)@.remove_keys(Set::new(|k: u64| start <= k <= target)));
    }
}

} // verus!
