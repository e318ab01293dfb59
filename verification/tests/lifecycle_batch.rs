use world_runtime::authority::lifecycle_mutation::{
    complete_lifecycle, finalize_lifecycle_mutations, request_lifecycle,
    LifecycleControlMutationRecord, LifecycleMutations, LifecycleWake,
};
use world_runtime::authority::seal::AuthorityRecordSealError;
use world_runtime::control::lifecycle::{
    LifecycleCause, LifecycleControlLedger, LifecycleGeneration, LifecycleRole,
    LifecycleWakeRequestOutcome,
};
use world_runtime::ids::{ActionOpportunityId, ActorId, EvidenceDeliveryId};
use world_runtime::kernel::SimMoment;

fn evidence(byte: u64) -> LifecycleCause {
    LifecycleCause::Evidence(EvidenceDeliveryId::new(byte))
}

fn moment(ticks: u64, microstep: u64) -> SimMoment {
    SimMoment::new(ticks, microstep)
}

#[test]
fn same_batch_requests_advance_one_generation_and_keep_the_latest_due() {
    let actor = ActorId::new(0x41);
    let mut mutations = LifecycleMutations::new();
    assert_eq!(
        request_lifecycle(&mut mutations, actor, LifecycleRole::Appraisal, &[evidence(3), evidence(1)], moment(5, 0)),
        Ok(())
    );
    assert_eq!(
        request_lifecycle(&mut mutations, actor, LifecycleRole::Appraisal, &[evidence(2), evidence(3)], moment(4, 7)),
        Ok(())
    );
    assert_eq!(
        request_lifecycle(&mut mutations, actor, LifecycleRole::Appraisal, &[], moment(9, 0)),
        Ok(())
    );

    let mut ledger = LifecycleControlLedger::default();
    let mut scheduled = Vec::new();
    let records = finalize_lifecycle_mutations(&mut ledger, mutations, &mut scheduled)
        .unwrap_or_else(|error| panic!("batch must finalize: {error:?}"));

    let generation = LifecycleGeneration::new(1);
    assert_eq!(
        scheduled,
        vec![LifecycleWake { role: LifecycleRole::Appraisal, actor, generation, due: moment(5, 0) }]
    );
    assert_eq!(records.len(), 1);
    assert_eq!(records[0].requested, vec![evidence(1), evidence(2), evidence(3)]);
    assert_eq!(records[0].completed, None);
    let record = ledger
        .get(actor, LifecycleRole::Appraisal)
        .unwrap_or_else(|| panic!("requested control must be retained"));
    assert_eq!(record.desired(), generation);
    assert_eq!(record.enqueued(), Some(generation));
}

#[test]
fn batch_requests_reject_a_cause_the_role_does_not_accept() {
    let mut mutations = LifecycleMutations::new();
    let wrong = LifecycleCause::AttemptResolved(ActionOpportunityId::new(7));
    assert_eq!(
        request_lifecycle(&mut mutations, ActorId::new(1), LifecycleRole::Appraisal, &[evidence(1), wrong], moment(1, 0)),
        Err(AuthorityRecordSealError::InvalidNormalizedGraph)
    );
}

#[test]
fn batch_completes_each_generation_at_most_once() {
    let actor = ActorId::new(2);
    let mut mutations = LifecycleMutations::new();
    let generation = LifecycleGeneration::new(1);
    assert_eq!(
        complete_lifecycle(&mut mutations, actor, LifecycleRole::Appraisal, generation, moment(1, 0)),
        Ok(())
    );
    assert_eq!(
        complete_lifecycle(&mut mutations, actor, LifecycleRole::Appraisal, generation, moment(1, 0)),
        Err(AuthorityRecordSealError::InvalidNormalizedGraph)
    );
}

#[test]
fn completion_with_new_causes_schedules_the_successor_at_the_later_due() {
    let actor = ActorId::new(3);
    let role = LifecycleRole::Appraisal;
    let mut ledger = LifecycleControlLedger::default();
    assert!(ledger.request(actor, role, &[evidence(10)]).is_ok());

    let mut mutations = LifecycleMutations::new();
    let first = LifecycleGeneration::new(1);
    let second = LifecycleGeneration::new(2);
    assert_eq!(request_lifecycle(&mut mutations, actor, role, &[evidence(11)], moment(8, 0)), Ok(()));
    assert_eq!(complete_lifecycle(&mut mutations, actor, role, first, moment(6, 2)), Ok(()));

    let mut scheduled = Vec::new();
    let records = finalize_lifecycle_mutations(&mut ledger, mutations, &mut scheduled)
        .unwrap_or_else(|error| panic!("completion batch must finalize: {error:?}"));
    assert_eq!(
        scheduled,
        vec![LifecycleWake { role, actor, generation: second, due: moment(8, 0) }]
    );
    assert_eq!(records[0].completed, Some(first));
    let record = ledger.get(actor, role).unwrap_or_else(|| panic!("control must remain retained"));
    assert_eq!(record.processed(), first);
    assert_eq!(record.desired(), second);
    assert_eq!(record.enqueued(), Some(second));
}

#[test]
fn completing_an_unknown_control_invalidates_the_batch() {
    let mut mutations = LifecycleMutations::new();
    let generation = LifecycleGeneration::new(1);
    assert_eq!(
        complete_lifecycle(&mut mutations, ActorId::new(4), LifecycleRole::IntentReview, generation, moment(1, 0)),
        Ok(())
    );
    let mut ledger = LifecycleControlLedger::default();
    let mut scheduled = Vec::new();
    assert_eq!(
        finalize_lifecycle_mutations(&mut ledger, mutations, &mut scheduled),
        Err(AuthorityRecordSealError::InvalidNormalizedGraph)
    );
    assert!(scheduled.is_empty());
}

#[test]
fn batch_mutations_finalize_in_actor_then_role_order() {
    let mut mutations = LifecycleMutations::new();
    let late_actor = ActorId::new(9);
    let early_actor = ActorId::new(5);
    assert_eq!(request_lifecycle(&mut mutations, late_actor, LifecycleRole::Appraisal, &[evidence(1)], moment(1, 0)), Ok(()));
    assert_eq!(request_lifecycle(&mut mutations, early_actor, LifecycleRole::Appraisal, &[evidence(2)], moment(1, 0)), Ok(()));
    let mut ledger = LifecycleControlLedger::default();
    let mut scheduled = Vec::new();
    let records = finalize_lifecycle_mutations(&mut ledger, mutations, &mut scheduled)
        .unwrap_or_else(|error| panic!("batch must finalize: {error:?}"));
    let actors: Vec<ActorId> = records.iter().map(|record| record.actor).collect();
    assert_eq!(actors, vec![early_actor, late_actor]);
    assert_eq!(scheduled.len(), 2);
    assert_eq!(scheduled[0].actor, early_actor);
}

#[test]
fn same_batch_dirty_causes_advance_one_generation_and_keep_the_latest_due() {
    let actor = ActorId::new(0x01);
    let initial = evidence(0x02);
    let first = evidence(0x03);
    let second = evidence(0x04);
    let mut ledger = LifecycleControlLedger::default();
    assert_eq!(
        ledger.request(actor, LifecycleRole::Appraisal, &[initial]),
        Ok(LifecycleWakeRequestOutcome::Enqueue { generation: LifecycleGeneration::new(1) })
    );

    let early = moment(2, 1);
    let late = moment(2, 4);
    let mut mutations = LifecycleMutations::new();
    request_lifecycle(&mut mutations, actor, LifecycleRole::Appraisal, &[second, first], early)
        .unwrap_or_else(|error| panic!("first same-batch request must be valid: {error:?}"));
    request_lifecycle(&mut mutations, actor, LifecycleRole::Appraisal, &[first], late)
        .unwrap_or_else(|error| panic!("duplicate same-batch cause must be valid: {error:?}"));
    complete_lifecycle(&mut mutations, actor, LifecycleRole::Appraisal, LifecycleGeneration::new(1), early)
        .unwrap_or_else(|error| panic!("current generation must complete: {error:?}"));

    let mut scheduled = Vec::new();
    let records = finalize_lifecycle_mutations(&mut ledger, mutations, &mut scheduled)
        .unwrap_or_else(|error| panic!("same-batch mutations must finalize: {error:?}"));

    let control = ledger
        .get(actor, LifecycleRole::Appraisal)
        .unwrap_or_else(|| panic!("lifecycle control must remain retained"));
    assert_eq!(control.desired(), LifecycleGeneration::new(2));
    assert_eq!(control.processed(), LifecycleGeneration::new(1));
    assert_eq!(control.enqueued(), Some(LifecycleGeneration::new(2)));
    assert_eq!(
        records.as_slice(),
        [LifecycleControlMutationRecord {
            actor,
            role: LifecycleRole::Appraisal,
            requested: vec![first, second],
            completed: Some(LifecycleGeneration::new(1)),
        }]
    );
    assert!(matches!(
        scheduled.as_slice(),
        [work] if work.actor == actor
            && work.role == LifecycleRole::Appraisal
            && work.generation == LifecycleGeneration::new(2)
            && work.due == late
    ));
}

#[test]
fn retained_lifecycle_record_reports_exactly_its_causes() {
    let mut ledger = LifecycleControlLedger::default();
    let actor = ActorId::new(0x5a);
    let _ = ledger.request(actor, LifecycleRole::Appraisal, &[evidence(1), evidence(2)]);
    let record = ledger
        .get(actor, LifecycleRole::Appraisal)
        .unwrap_or_else(|| panic!("requested role must be retained"));
    assert!(record.contains_cause(evidence(1)));
    assert!(record.contains_cause(evidence(2)));
    assert!(!record.contains_cause(evidence(3)));
}
