use world_runtime::control::appraisal::ContainmentAppraisal;
use world_runtime::control::opportunity::{
    ActionOpportunity, ActionOpportunityLedgerError, ActionOpportunityState,
    ActionOpportunityTransitionError, ActionOpportunityVersion,
};
use world_runtime::control::state::RuntimeControlState;
use world_runtime::ids::{
    ActionEvaluationInvocationId, ActionOpportunityId, ActorId, ContainmentAppraisalFingerprint,
    EntityId, EvidenceDeliveryId,
};

fn appraisal(item: u64, container: u64, material: u64) -> ContainmentAppraisal {
    ContainmentAppraisal {
        actor: ActorId::new(1),
        item: EntityId::new(item),
        believed_current_container: EntityId::new(container),
        source: EntityId::new(40),
        supporting_evidence: EvidenceDeliveryId::new(50),
        material: ContainmentAppraisalFingerprint::new(material),
    }
}

#[test]
fn appraisals_are_retained_by_subject_and_by_material() {
    let mut state = RuntimeControlState::empty();
    let first = appraisal(10, 20, 30);
    state.appraisals_mut().retain(first);
    assert_eq!(state.appraisals().get(ActorId::new(1), EntityId::new(10)), Some(first));
    assert_eq!(
        state.appraisals().find_material(ActorId::new(1), ContainmentAppraisalFingerprint::new(30)),
        Some(first)
    );
    assert_eq!(first.material_fingerprint(), ContainmentAppraisalFingerprint::new(30));
    assert_eq!(first.believed_current_container(), EntityId::new(20));

    let moved = appraisal(10, 21, 31);
    assert!(!state.appraisals_mut().retract_exact(moved));
    state.appraisals_mut().retain(moved);
    assert_eq!(state.appraisals().get(ActorId::new(1), EntityId::new(10)), Some(moved));
    assert!(!state.appraisals_mut().retract_exact(first));
    assert!(state.appraisals_mut().retract_exact(moved));
    assert_eq!(state.appraisals().get(ActorId::new(1), EntityId::new(10)), None);
    assert_eq!(
        state.appraisals().find_material(ActorId::new(1), ContainmentAppraisalFingerprint::new(31)),
        None
    );
}

#[test]
fn waiting_opportunity_reopens_for_a_visible_reinvocation() {
    let opportunity =
        ActionOpportunity::open(ActionOpportunityId::new(5), ActorId::new(2), 0);
    let mut state = RuntimeControlState::from_root(core::slice::from_ref(&opportunity));
    let first = ActionOpportunityVersion::initial();
    let invocation = ActionEvaluationInvocationId::new(8);
    let waiting = state
        .begin_action_evaluation(opportunity.id(), first, invocation)
        .unwrap_or_else(|error| panic!("open opportunity must begin waiting: {error:?}"))
        .clone();
    assert_eq!(waiting.state(), ActionOpportunityState::WaitingForEvaluation(invocation));

    let other = ActionEvaluationInvocationId::new(9);
    assert_eq!(
        state.reopen_action_evaluation(opportunity.id(), waiting.version(), other),
        Err(ActionOpportunityLedgerError::TransitionRejected {
            opportunity: opportunity.id(),
            error: ActionOpportunityTransitionError::InvocationMismatch {
                expected: invocation,
                supplied: other,
            },
        })
    );
    let reopened = state
        .reopen_action_evaluation(opportunity.id(), waiting.version(), invocation)
        .unwrap_or_else(|error| panic!("waiting opportunity must reopen: {error:?}"))
        .clone();
    assert_eq!(reopened.state(), ActionOpportunityState::Open);
    assert_eq!(reopened.evaluation_generation(), 1);
    assert_eq!(reopened.version().get(), waiting.version().get() + 1);
}
