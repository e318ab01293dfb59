//! Event-contract check applied when a hard commit is finalized.

use vstd::prelude::*;

use crate::error::RuntimeError;
use crate::ids::{DefinitionId, EventRecordSpec};

verus! {

/// Checks that every event the program requires was emitted, reporting the
/// first required event, in declaration order, that was not.
pub fn validate_required_events(
    effect_program: DefinitionId,
    required: &[EventRecordSpec],
    emitted: &[EventRecordSpec],
) -> (r: Result<(), RuntimeError>)
    ensures
        (forall|i: int| 0 <= i < required@.len() ==> emitted@.contains(#[trigger] required@[i]))
            <==> r == Ok::<(), RuntimeError>(()),
        r matches Err(error) ==> exists|i: int|
            0 <= i < required@.len() && !emitted@.contains(required@[i]) && (forall|j: int|
                0 <= j < i ==> emitted@.contains(#[trigger] required@[j])) && error
                == (RuntimeError::RequiredEventMissing { effect_program, event: required@[i] }),
{
    let mut i: usize = 0;
    while i < required.len()
        invariant
            i <= required@.len(),
            forall|j: int| 0 <= j < i ==> emitted@.contains(#[trigger] required@[j]),
        decreases required@.len() - i,
    {
        let event = required[i];
        let mut k: usize = 0;
        let mut found = false;
        while k < emitted.len()
            invariant
                k <= emitted@.len(),
                found <==> (exists|m: int| 0 <= m < k && emitted@[m] == event),
            decreases emitted@.len() - k,
        {
            if emitted[k] == event {
                found = true;
            }
            k = k + 1;
        }
        if !found {
            return Err(RuntimeError::RequiredEventMissing { effect_program, event });
        }
        i = i + 1;
    }
    Ok(())
}

} // verus!
