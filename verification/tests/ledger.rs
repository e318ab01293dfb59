use world_runtime::control::command_ledger::{
    CommandLedgerInsertError, CommandLedgerLookup, CommandRequestLedger,
};
use world_runtime::control::lifecycle::{
    LifecycleCause, LifecycleControlError, LifecycleGeneration, LifecycleRole,
    LifecycleWakeRequestOutcome,
};
use world_runtime::control::opportunity::{
    ActionOpportunity, ActionOpportunityDisposition, ActionOpportunityLedgerError,
    ActionOpportunityState, ActionOpportunityTransitionError, ActionOpportunityVersion,
};
use world_runtime::control::request_ledger::{
    InputLedgerInsertError, InputRequestLedger, ManagementLedgerInsertError,
    ManagementRequestLedger, RequestLedgerLookup,
};
use world_runtime::control::retirement::LedgerRetirementError;
use world_runtime::control::state::RuntimeControlState;
use world_runtime::ids::{
    ActionEvaluationInvocationId, ActionOpportunityId, ActorId, AttemptRecordId,
    AuthorityRecordId, CapturedInputRecordId, CommandId, CommandRequestFingerprint, CommandSource,
    CommandTriggerId, EvidenceDeliveryId, InputId, InputRequestFingerprint,
    ManagementRequestFingerprint, ManagementRequestId,
};
use world_runtime::kernel::{
    AdmitOutcome, CommandAttemptOutcome, LedgerRetirement, ManageOutcome, SessionManagement,
    SimMoment, StableCommandRejection,
};

/// A command as the ledgers see it: source, source-local sequence and content digest.
#[derive(Clone, Copy)]
struct Command {
    source: CommandSource,
    id: CommandId,
    fingerprint: CommandRequestFingerprint,
}

fn command_with_actor(source_byte: u64, id: u64, actor_byte: u64) -> Command {
    Command {
        source: CommandSource::new(source_byte),
        id: CommandId::new(id),
        fingerprint: CommandRequestFingerprint::new(
            source_byte * 1_000_000 + id * 1_000 + actor_byte,
        ),
    }
}

fn command(source_byte: u64, id: u64) -> Command {
    command_with_actor(source_byte, id, 0)
}

fn moment(ticks: u64, microstep: u64) -> SimMoment {
    SimMoment::new(ticks, microstep)
}

fn captured(byte: u64) -> CapturedInputRecordId {
    CapturedInputRecordId::new(byte)
}

fn trigger(byte: u64) -> CommandTriggerId {
    CommandTriggerId::new(byte)
}

fn record(byte: u64) -> AuthorityRecordId {
    AuthorityRecordId::new(byte)
}

fn attempt_id(owner_byte: u64, index: u64) -> AttemptRecordId {
    AttemptRecordId::derive(AuthorityRecordId::new(owner_byte), index as u32)
}

fn input_fingerprint(id: u64, effective: SimMoment, command: Command) -> InputRequestFingerprint {
    InputRequestFingerprint::new(
        id * 1_000_000_000 + effective.ticks * 1_000_000 + effective.microstep * 1_000
            + command.fingerprint.get() % 1_000,
    )
}

fn management_fingerprint(id: u64, operation: SessionManagement) -> ManagementRequestFingerprint {
    let code = match operation {
        SessionManagement::Pause => 1,
        SessionManagement::Resume => 2,
        SessionManagement::Fail => 3,
        SessionManagement::Quarantine => 4,
        SessionManagement::SealAdmissionThrough(_) => 5,
        SessionManagement::Retire(_) => 6,
    };
    ManagementRequestFingerprint::new(id * 100 + code)
}

fn action_opportunity(actor_byte: u64, generation: u64) -> ActionOpportunity {
    ActionOpportunity::open(
        ActionOpportunityId::new(actor_byte * 1_000 + generation),
        ActorId::new(actor_byte),
        generation,
    )
}

fn evidence(byte: u64) -> LifecycleCause {
    LifecycleCause::Evidence(EvidenceDeliveryId::new(byte))
}

#[test]
fn action_opportunity_ledger_uses_exact_versioned_one_shot_consumption() {
    let opportunity = action_opportunity(0x11, 0);
    let id = opportunity.id();
    let mut state = RuntimeControlState::from_root(core::slice::from_ref(&opportunity));

    assert_eq!(state.action_opportunities().get(id), Some(&opportunity));
    let version_two = ActionOpportunityVersion::new(2).unwrap_or_else(|| panic!("version two must be valid"));
    assert_eq!(
        state
            .consume_action_opportunity(id, version_two, ActionOpportunityDisposition::ActionSubmitted)
            .map(|value| value.state()),
        Err(ActionOpportunityLedgerError::TransitionRejected {
            opportunity: id,
            error: ActionOpportunityTransitionError::StaleVersion {
                expected: version_two,
                actual: ActionOpportunityVersion::initial(),
            },
        })
    );
    assert_eq!(
        state.action_opportunities().get(id).map(ActionOpportunity::state),
        Some(ActionOpportunityState::Open)
    );

    let consumed = state
        .consume_action_opportunity(
            id,
            ActionOpportunityVersion::initial(),
            ActionOpportunityDisposition::ActionSubmitted,
        )
        .unwrap_or_else(|error| panic!("open opportunity must consume once: {error:?}"));
    assert_eq!(
        consumed.state(),
        ActionOpportunityState::Consumed(ActionOpportunityDisposition::ActionSubmitted)
    );
    let consumed_version = consumed.version();
    assert_eq!(consumed_version.get(), 2);
    assert_eq!(
        state
            .consume_action_opportunity(
                id,
                consumed_version,
                ActionOpportunityDisposition::NoApplicableAction,
            )
            .map(|value| value.state()),
        Err(ActionOpportunityLedgerError::TransitionRejected {
            opportunity: id,
            error: ActionOpportunityTransitionError::AlreadyConsumed {
                disposition: ActionOpportunityDisposition::ActionSubmitted,
            },
        })
    );
    let unknown = ActionOpportunityId::new(0x99);
    assert_eq!(
        state
            .consume_action_opportunity(
                unknown,
                ActionOpportunityVersion::initial(),
                ActionOpportunityDisposition::Failed,
            )
            .map(|value| value.state()),
        Err(ActionOpportunityLedgerError::UnknownOpportunity { opportunity: unknown })
    );
}

#[test]
fn waiting_opportunity_remains_the_actors_unique_active_opportunity() {
    let first = action_opportunity(0x12, 0);
    let second = action_opportunity(0x12, 1);
    let first_id = first.id();
    let second_id = second.id();
    let actor = first.actor();
    let invocation = ActionEvaluationInvocationId::new(0x41);
    let mut state = RuntimeControlState::from_root(core::slice::from_ref(&first));

    let waiting_version = state
        .begin_action_evaluation(first_id, first.version(), invocation)
        .unwrap_or_else(|error| panic!("open opportunity must begin waiting: {error:?}"))
        .version();
    assert!(matches!(
        state.open_action_opportunity(second),
        Err(ActionOpportunityLedgerError::ActorAlreadyHasActiveOpportunity {
            actor: actual,
            existing,
        }) if actual == actor && existing == first_id
    ));

    let reopened_version = state
        .resume_action_evaluation(first_id, waiting_version, invocation)
        .unwrap_or_else(|error| panic!("waiting opportunity must resume: {error:?}"))
        .version();
    state
        .consume_action_opportunity(first_id, reopened_version, ActionOpportunityDisposition::Failed)
        .unwrap_or_else(|error| panic!("resumed opportunity must consume: {error:?}"));
    assert_eq!(
        state
            .open_action_opportunity(second)
            .unwrap_or_else(|error| {
                panic!("a consumed predecessor must release actor uniqueness: {error:?}")
            })
            .id(),
        second_id
    );
}

#[test]
fn ledgers_are_separate_and_preserve_first_publication() {
    let input_id = InputId::new(0);
    let effective = moment(2, 3);
    let input_fp = input_fingerprint(0, effective, command(0x11, 7));
    let management_id = ManagementRequestId::new(0);
    let management_fp = management_fingerprint(0, SessionManagement::Pause);
    let input_outcome = AdmitOutcome::scheduled(record(0x21), effective);
    let management_outcome = ManageOutcome::applied(record(0x22), SessionManagement::Pause);
    let captured_id = captured(0x24);
    let trigger_id = trigger(0x25);
    let mut state = RuntimeControlState::default();

    assert_eq!(
        state.input_mut().insert_exact(input_id, input_fp, captured_id, trigger_id, input_outcome),
        Ok(())
    );
    assert_eq!(
        state.management_mut().insert_exact(management_id, management_fp, management_outcome),
        Ok(())
    );
    assert_eq!(
        state.input_mut().insert_exact(
            input_id,
            input_fp,
            captured(0x26),
            trigger(0x27),
            AdmitOutcome::scheduled(record(0x23), effective),
        ),
        Err(InputLedgerInsertError { id: input_id })
    );
    let retained_input = state
        .input()
        .get(input_id)
        .unwrap_or_else(|| panic!("published input must be retained"));
    assert_eq!(retained_input.captured(), captured_id);
    assert_eq!(retained_input.trigger(), trigger_id);
    assert_eq!(retained_input.outcome(), input_outcome);
    assert_eq!(
        state
            .management()
            .get(management_id)
            .unwrap_or_else(|| panic!("published management request must be retained"))
            .outcome(),
        management_outcome
    );
}

#[test]
fn command_ledger_is_source_scoped_and_never_overwrites() {
    let first = command(0x31, 4);
    let same_id_other_source = command(0x32, 4);
    let attempt = attempt_id(0x41, 0);
    let outcome = CommandAttemptOutcome::Rejected(StableCommandRejection::RequirementUnsatisfied);
    let mut ledger = CommandRequestLedger::default();

    assert_eq!(
        ledger.insert_exact(first.source, first.id, first.fingerprint, attempt, outcome),
        Ok(())
    );
    assert_eq!(
        ledger.insert_exact(
            same_id_other_source.source,
            same_id_other_source.id,
            same_id_other_source.fingerprint,
            attempt,
            outcome,
        ),
        Ok(())
    );
    assert_eq!(
        ledger.insert_exact(
            first.source,
            first.id,
            first.fingerprint,
            attempt,
            CommandAttemptOutcome::Accepted,
        ),
        Err(CommandLedgerInsertError::NotAbsent { source: first.source, id: first.id })
    );

    let retained = ledger
        .get(first.source, first.id)
        .unwrap_or_else(|| panic!("first command result must be retained"));
    assert_eq!(retained.exact_fingerprint(), Some(first.fingerprint));
    assert_eq!(retained.original_attempt(), attempt);
    assert_eq!(retained.outcome(), outcome);
}

#[test]
fn ledgers_classify_absent_exact_and_mismatched_reuse() {
    let input_id = InputId::new(3);
    let input_command = command(0x41, 5);
    let input_fp = input_fingerprint(3, moment(4, 0), input_command);
    let changed_fp = input_fingerprint(3, moment(4, 1), input_command);
    let input_outcome = AdmitOutcome::scheduled(record(0x42), moment(4, 0));
    let mut input = InputRequestLedger::default();

    assert_eq!(input.classify(input_id, input_fp), RequestLedgerLookup::Absent);
    input
        .insert_exact(input_id, input_fp, captured(0x43), trigger(0x44), input_outcome)
        .unwrap_or_else(|error| panic!("fixture input ID must be absent: {error:?}"));
    assert_eq!(
        input.classify(input_id, input_fp),
        RequestLedgerLookup::RetainedExact(input_outcome)
    );
    assert_eq!(input.classify(input_id, changed_fp), RequestLedgerLookup::IdReuseMismatch);

    let management_id = ManagementRequestId::new(6);
    let pause = management_fingerprint(6, SessionManagement::Pause);
    let resume = management_fingerprint(6, SessionManagement::Resume);
    let management_outcome = ManageOutcome::applied(record(0x45), SessionManagement::Pause);
    let mut management = ManagementRequestLedger::default();
    management
        .insert_exact(management_id, pause, management_outcome)
        .unwrap_or_else(|error| panic!("fixture management ID must be absent: {error:?}"));
    assert_eq!(
        management.classify(management_id, pause),
        RequestLedgerLookup::RetainedExact(management_outcome)
    );
    assert_eq!(management.classify(management_id, resume), RequestLedgerLookup::IdReuseMismatch);

    let fixture = command(0x46, 7);
    let changed_fingerprint = command(0x47, 7).fingerprint;
    let attempt = attempt_id(0x48, 0);
    let command_outcome =
        CommandAttemptOutcome::Rejected(StableCommandRejection::RequirementUnsatisfied);
    let mut commands = CommandRequestLedger::default();
    commands
        .insert_exact(fixture.source, fixture.id, fixture.fingerprint, attempt, command_outcome)
        .unwrap_or_else(|error| panic!("fixture command key must be absent: {error:?}"));
    assert_eq!(
        commands.classify(fixture.source, fixture.id, fixture.fingerprint),
        CommandLedgerLookup::RetainedExact { original_attempt: attempt, outcome: command_outcome }
    );
    assert_eq!(
        commands.classify(fixture.source, fixture.id, changed_fingerprint),
        CommandLedgerLookup::IdReuseMismatch { original_attempt: attempt }
    );
}

#[test]
fn command_collision_is_canonical_and_permanent() {
    let first = command_with_actor(0x51, 8, 0x61);
    let second = command_with_actor(0x51, 8, 0x62);
    let third = command_with_actor(0x51, 8, 0x63);
    let unrelated = command_with_actor(0x51, 8, 0x64);
    let attempt = attempt_id(0x71, 0);
    let mut ledger = CommandRequestLedger::default();

    ledger
        .insert_collision(
            first.source,
            first.id,
            &[third.fingerprint, first.fingerprint, second.fingerprint, first.fingerprint],
            attempt,
        )
        .unwrap_or_else(|error| panic!("distinct collision must be retained: {error:?}"));

    let mut expected = vec![first.fingerprint, second.fingerprint, third.fingerprint];
    expected.sort_unstable();
    let retained = ledger
        .get(first.source, first.id)
        .unwrap_or_else(|| panic!("collision must be retained"));
    assert_eq!(retained.original_attempt(), attempt);
    assert_eq!(
        retained.outcome(),
        CommandAttemptOutcome::Rejected(StableCommandRejection::IdCollision)
    );
    assert_eq!(
        retained.collision_fingerprints().unwrap_or_else(|| panic!("entry must be a collision")),
        expected.as_slice()
    );

    let collision = CommandLedgerLookup::RetainedCollision { original_attempt: attempt };
    for fingerprint in [first.fingerprint, second.fingerprint, unrelated.fingerprint] {
        assert_eq!(ledger.classify(first.source, first.id, fingerprint), collision);
    }
    assert_eq!(
        ledger.insert_exact(
            first.source,
            first.id,
            first.fingerprint,
            attempt_id(0x72, 0),
            CommandAttemptOutcome::Accepted,
        ),
        Err(CommandLedgerInsertError::NotAbsent { source: first.source, id: first.id })
    );
    assert_eq!(
        ledger.insert_collision(
            first.source,
            first.id,
            &[first.fingerprint, unrelated.fingerprint],
            attempt_id(0x73, 0),
        ),
        Err(CommandLedgerInsertError::NotAbsent { source: first.source, id: first.id })
    );
    assert_eq!(ledger.classify(first.source, first.id, unrelated.fingerprint), collision);
}

#[test]
fn collision_insertion_requires_two_distinct_fingerprints() {
    let fixture = command(0x52, 9);
    let attempt = attempt_id(0x74, 0);
    let mut ledger = CommandRequestLedger::default();

    for (fingerprints, distinct_count) in
        [(Vec::new(), 0), (vec![fixture.fingerprint, fixture.fingerprint], 1)]
    {
        assert_eq!(
            ledger.insert_collision(fixture.source, fixture.id, &fingerprints, attempt),
            Err(CommandLedgerInsertError::CollisionRequiresDistinctFingerprints {
                source: fixture.source,
                id: fixture.id,
                distinct_count,
            })
        );
    }
    assert_eq!(
        ledger.classify(fixture.source, fixture.id, fixture.fingerprint),
        CommandLedgerLookup::Absent
    );
    assert_eq!(
        ledger.insert_exact(
            fixture.source,
            fixture.id,
            fixture.fingerprint,
            attempt,
            CommandAttemptOutcome::Rejected(StableCommandRejection::IdCollision),
        ),
        Err(CommandLedgerInsertError::ExactCannotRepresentCollision {
            source: fixture.source,
            id: fixture.id,
        })
    );
    assert_eq!(
        ledger.classify(fixture.source, fixture.id, fixture.fingerprint),
        CommandLedgerLookup::Absent
    );
}

#[test]
fn retained_exact_never_becomes_a_collision() {
    let exact = command_with_actor(0x53, 10, 0x65);
    let changed = command_with_actor(0x53, 10, 0x66);
    let original_attempt = attempt_id(0x75, 0);
    let outcome = CommandAttemptOutcome::Rejected(StableCommandRejection::RequirementUnsatisfied);
    let mut ledger = CommandRequestLedger::default();
    ledger
        .insert_exact(exact.source, exact.id, exact.fingerprint, original_attempt, outcome)
        .unwrap_or_else(|error| panic!("exact entry must be new: {error:?}"));

    assert_eq!(
        ledger.insert_collision(
            exact.source,
            exact.id,
            &[exact.fingerprint, changed.fingerprint],
            attempt_id(0x76, 0),
        ),
        Err(CommandLedgerInsertError::NotAbsent { source: exact.source, id: exact.id })
    );
    assert_eq!(
        ledger.classify(exact.source, exact.id, exact.fingerprint),
        CommandLedgerLookup::RetainedExact { original_attempt, outcome }
    );
    assert_eq!(
        ledger.classify(exact.source, exact.id, changed.fingerprint),
        CommandLedgerLookup::IdReuseMismatch { original_attempt }
    );
    let retained = ledger
        .get(exact.source, exact.id)
        .unwrap_or_else(|| panic!("exact entry must remain"));
    assert_eq!(retained.exact_fingerprint(), Some(exact.fingerprint));
    assert_eq!(retained.collision_fingerprints(), None);
}

#[test]
fn singular_ledgers_retire_only_complete_terminal_prefixes() {
    let fixture = command(0x54, 11);
    let input_fp = input_fingerprint(0, moment(2, 0), fixture);
    let input_outcome = AdmitOutcome::scheduled(record(0x77), moment(2, 0));
    let mut input = InputRequestLedger::default();
    for sequence in [0, 2] {
        input
            .insert_exact(InputId::new(sequence), input_fp, captured(0x78), trigger(0x79), input_outcome)
            .unwrap_or_else(|error| panic!("input sequence must be new: {error:?}"));
    }
    assert_eq!(input.retire_through(InputId::new(2)), Err(LedgerRetirementError::Gap { missing: 1 }));
    assert_eq!(input.retired_through(), None);
    assert!(input.get(InputId::new(0)).is_some());
    assert!(input.get(InputId::new(2)).is_some());

    input
        .insert_exact(InputId::new(1), input_fp, captured(0x7a), trigger(0x7b), input_outcome)
        .unwrap_or_else(|error| panic!("missing input sequence must be new: {error:?}"));
    input
        .retire_through(InputId::new(1))
        .unwrap_or_else(|error| panic!("complete input prefix must retire: {error:?}"));
    assert_eq!(input.retired_through(), Some(InputId::new(1)));
    for sequence in [0, 1] {
        let id = InputId::new(sequence);
        assert_eq!(input.classify(id, input_fp), RequestLedgerLookup::Retired);
        assert_eq!(input.get(id), None);
        assert_eq!(
            input.insert_exact(id, input_fp, captured(0x7c), trigger(0x7d), input_outcome),
            Err(InputLedgerInsertError { id })
        );
    }
    assert_eq!(
        input.classify(InputId::new(2), input_fp),
        RequestLedgerLookup::RetainedExact(input_outcome)
    );
    input
        .retire_through(InputId::new(2))
        .unwrap_or_else(|error| panic!("next retained sequence must retire: {error:?}"));
    assert_eq!(input.retired_through(), Some(InputId::new(2)));
    assert_eq!(input.classify(InputId::new(2), input_fp), RequestLedgerLookup::Retired);
    assert_eq!(
        input.retire_through(InputId::new(1)),
        Err(LedgerRetirementError::NotAdvancing { retired_through: 2, requested: 1 })
    );

    let pause_id = ManagementRequestId::new(0);
    let pause = SessionManagement::Pause;
    let retire_id = ManagementRequestId::new(1);
    let retire = SessionManagement::Retire(LedgerRetirement::ManagementThrough(ManagementRequestId::new(0)));
    let mut management = ManagementRequestLedger::default();
    for (id, operation) in [(pause_id, pause), (retire_id, retire)] {
        management
            .insert_exact(
                id,
                management_fingerprint(id.get(), operation),
                ManageOutcome::applied(record(0x7e), operation),
            )
            .unwrap_or_else(|error| panic!("management sequence must be new: {error:?}"));
    }
    management
        .retire_through(ManagementRequestId::new(0))
        .unwrap_or_else(|error| panic!("complete management prefix must retire: {error:?}"));
    assert_eq!(management.retired_through(), Some(ManagementRequestId::new(0)));
    assert_eq!(
        management.classify(pause_id, management_fingerprint(0, pause)),
        RequestLedgerLookup::Retired
    );
    assert_eq!(
        management.classify(retire_id, management_fingerprint(1, retire)),
        RequestLedgerLookup::RetainedExact(ManageOutcome::applied(record(0x7e), retire))
    );

    let next_id = ManagementRequestId::new(2);
    let next = SessionManagement::Retire(LedgerRetirement::ManagementThrough(ManagementRequestId::new(1)));
    management
        .insert_exact(
            next_id,
            management_fingerprint(2, next),
            ManageOutcome::applied(record(0x7f), next),
        )
        .unwrap_or_else(|error| panic!("next management request must be new: {error:?}"));
    management
        .retire_through(ManagementRequestId::new(1))
        .unwrap_or_else(|error| panic!("next complete prefix must retire: {error:?}"));
    assert_eq!(
        management.classify(retire_id, management_fingerprint(1, retire)),
        RequestLedgerLookup::Retired
    );
    assert_eq!(
        management.classify(next_id, management_fingerprint(2, next)),
        RequestLedgerLookup::RetainedExact(ManageOutcome::applied(record(0x7f), next))
    );
}

#[test]
fn management_retirement_target_must_precede_the_carrying_request() {
    let prior_id = ManagementRequestId::new(0);
    let prior_fp = management_fingerprint(0, SessionManagement::Pause);
    let current_id = ManagementRequestId::new(1);
    let mut state = RuntimeControlState::default();
    state
        .management_mut()
        .insert_exact(
            prior_id,
            prior_fp,
            ManageOutcome::applied(record(0x80), SessionManagement::Pause),
        )
        .unwrap_or_else(|error| panic!("prior management request must be new: {error:?}"));

    assert_eq!(
        state.can_retire(LedgerRetirement::ManagementThrough(ManagementRequestId::new(0)), current_id),
        Ok(())
    );
    assert_eq!(
        state.retire(LedgerRetirement::ManagementThrough(current_id), current_id),
        Err(LedgerRetirementError::ManagementTargetNotBeforeRequest {
            target: current_id,
            request: current_id,
        })
    );
    assert_eq!(state.management().retired_through(), None);
    assert_eq!(
        state.management().classify(prior_id, prior_fp),
        RequestLedgerLookup::RetainedExact(ManageOutcome::applied(record(0x80), SessionManagement::Pause))
    );
}

#[test]
fn typed_control_retirement_advances_only_the_selected_frontier() {
    let input_id = InputId::new(0);
    let input_fp = input_fingerprint(0, moment(3, 0), command(0x80, 8));
    let input_outcome = AdmitOutcome::scheduled(record(0x81), moment(3, 0));
    let management_id = ManagementRequestId::new(0);
    let management_fp = management_fingerprint(0, SessionManagement::Pause);
    let fixture = command(0x82, 0);
    let mut state = RuntimeControlState::default();
    state
        .input_mut()
        .insert_exact(input_id, input_fp, captured(0x83), trigger(0x84), input_outcome)
        .unwrap_or_else(|error| panic!("input request must be new: {error:?}"));
    state
        .management_mut()
        .insert_exact(
            management_id,
            management_fp,
            ManageOutcome::applied(record(0x85), SessionManagement::Pause),
        )
        .unwrap_or_else(|error| panic!("management request must be new: {error:?}"));
    state
        .command_mut()
        .insert_exact(
            fixture.source,
            fixture.id,
            fixture.fingerprint,
            attempt_id(0x86, 0),
            CommandAttemptOutcome::Accepted,
        )
        .unwrap_or_else(|error| panic!("command request must be new: {error:?}"));

    let retirement = LedgerRetirement::InputThrough(input_id);
    assert_eq!(state.can_retire(retirement, management_id), Ok(()));
    state
        .retire(retirement, management_id)
        .unwrap_or_else(|error| panic!("selected input prefix must retire: {error:?}"));

    assert_eq!(state.input().retired_through(), Some(input_id));
    assert_eq!(state.management().retired_through(), None);
    assert_eq!(state.command().retired_through(fixture.source), None);
    assert_eq!(
        state.management().classify(management_id, management_fp),
        RequestLedgerLookup::RetainedExact(ManageOutcome::applied(record(0x85), SessionManagement::Pause))
    );
    assert!(state.command().get(fixture.source, fixture.id).is_some());
}

#[test]
fn command_retirement_is_contiguous_and_source_scoped() {
    let first_source = CommandSource::new(0x81);
    let second_source = CommandSource::new(0x82);
    let first_zero = command_with_actor(0x81, 0, 0x11);
    let first_two = command_with_actor(0x81, 2, 0x12);
    let second_zero = command_with_actor(0x82, 0, 0x13);
    let outcome = CommandAttemptOutcome::Accepted;
    let original_attempt = attempt_id(0x83, 0);
    let mut ledger = CommandRequestLedger::default();
    for fixture in [&first_zero, &first_two, &second_zero] {
        ledger
            .insert_exact(fixture.source, fixture.id, fixture.fingerprint, original_attempt, outcome)
            .unwrap_or_else(|error| panic!("command sequence must be new: {error:?}"));
    }

    assert_eq!(
        ledger.retire_through(first_source, CommandId::new(2)),
        Err(LedgerRetirementError::Gap { missing: 1 })
    );
    assert_eq!(ledger.retired_through(first_source), None);
    assert!(ledger.get(first_source, CommandId::new(0)).is_some());
    assert!(ledger.get(first_source, CommandId::new(2)).is_some());

    let first_one_a = command_with_actor(0x81, 1, 0x14);
    let first_one_b = command_with_actor(0x81, 1, 0x15);
    ledger
        .insert_collision(
            first_source,
            CommandId::new(1),
            &[first_one_b.fingerprint, first_one_a.fingerprint],
            attempt_id(0x84, 0),
        )
        .unwrap_or_else(|error| panic!("collision sequence must be new: {error:?}"));
    ledger
        .retire_through(first_source, CommandId::new(1))
        .unwrap_or_else(|error| panic!("complete command prefix must retire: {error:?}"));
    assert_eq!(ledger.retired_through(first_source), Some(CommandId::new(1)));
    for sequence in [0, 1] {
        assert_eq!(
            ledger.classify(first_source, CommandId::new(sequence), first_zero.fingerprint),
            CommandLedgerLookup::Retired
        );
        assert!(ledger.get(first_source, CommandId::new(sequence)).is_none());
    }
    assert_eq!(
        ledger.classify(first_source, first_two.id, first_two.fingerprint),
        CommandLedgerLookup::RetainedExact { original_attempt, outcome }
    );
    assert_eq!(
        ledger.classify(second_source, second_zero.id, second_zero.fingerprint),
        CommandLedgerLookup::RetainedExact { original_attempt, outcome }
    );
    assert_eq!(ledger.retired_through(second_source), None);
}

#[test]
fn every_ledger_iterates_in_protocol_key_order() {
    let mut input = InputRequestLedger::default();
    let mut management = ManagementRequestLedger::default();
    let first_command = command(0x51, 9);
    let second_command = command(0x50, 10);
    let attempt = attempt_id(0x61, 0);
    let input_fp = input_fingerprint(1, moment(1, 0), first_command);
    let management_fp = management_fingerprint(1, SessionManagement::Resume);

    for id in [InputId::new(8), InputId::new(1)] {
        input
            .insert_exact(
                id,
                input_fp,
                captured(0x64),
                trigger(0x65),
                AdmitOutcome::scheduled(record(0x62), moment(1, 0)),
            )
            .unwrap_or_else(|error| panic!("fixture input IDs are unique: {error:?}"));
    }
    for id in [ManagementRequestId::new(7), ManagementRequestId::new(1)] {
        management
            .insert_exact(
                id,
                management_fp,
                ManageOutcome::applied(record(0x63), SessionManagement::Resume),
            )
            .unwrap_or_else(|error| panic!("fixture management IDs are unique: {error:?}"));
    }
    let mut commands = CommandRequestLedger::default();
    for envelope in [&first_command, &second_command] {
        commands
            .insert_exact(
                envelope.source,
                envelope.id,
                envelope.fingerprint,
                attempt,
                CommandAttemptOutcome::Accepted,
            )
            .unwrap_or_else(|error| panic!("fixture command keys are unique: {error:?}"));
    }

    assert_eq!(input.iter().into_iter().map(|(id, _)| id.get()).collect::<Vec<_>>(), vec![1, 8]);
    assert_eq!(
        management.iter().into_iter().map(|(id, _)| id.get()).collect::<Vec<_>>(),
        vec![1, 7]
    );
    assert_eq!(
        commands
            .iter()
            .into_iter()
            .map(|((source, id), _)| (source, id.get()))
            .collect::<Vec<_>>(),
        vec![(second_command.source, 10), (first_command.source, 9)]
    );
}

#[test]
fn duplicate_errors_retain_the_conflicting_key() {
    let input = InputLedgerInsertError { id: InputId::new(3) };
    let management = ManagementLedgerInsertError { id: ManagementRequestId::new(4) };
    let command = CommandLedgerInsertError::NotAbsent {
        source: CommandSource::new(0x71),
        id: CommandId::new(5),
    };

    assert_eq!(input.id(), InputId::new(3));
    assert_eq!(management.id(), ManagementRequestId::new(4));
    assert_eq!(command.source(), CommandSource::new(0x71));
    assert_eq!(command.id(), CommandId::new(5));
}

#[test]
fn lifecycle_wake_batches_are_canonical_and_duplicate_safe() {
    let actor = ActorId::new(0x81);
    let first = evidence(0x82);
    let second = evidence(0x83);
    let generation = LifecycleGeneration::new(1);
    let mut state = RuntimeControlState::empty();

    assert_eq!(
        state.lifecycle_mut().request(actor, LifecycleRole::Appraisal, &[second, first, second]),
        Ok(LifecycleWakeRequestOutcome::Enqueue { generation })
    );
    let record = state
        .lifecycle()
        .get(actor, LifecycleRole::Appraisal)
        .unwrap_or_else(|| panic!("accepted wake must create actor-role control"));
    assert_eq!(record.desired(), generation);
    assert_eq!(record.processed(), LifecycleGeneration::initial());
    assert_eq!(record.enqueued(), Some(generation));
    assert_eq!(record.causes(generation), Some(vec![first, second]));

    assert_eq!(
        state.lifecycle_mut().request(actor, LifecycleRole::Appraisal, &[first, second]),
        Ok(LifecycleWakeRequestOutcome::Duplicate {
            desired: generation,
            enqueued: Some(generation),
        })
    );
    assert_eq!(
        state.lifecycle().get(actor, LifecycleRole::Appraisal).map(|record| record.desired()),
        Some(generation)
    );
}

#[test]
fn lifecycle_completion_enqueues_one_final_dirty_successor() {
    let actor = ActorId::new(0x91);
    let causes = [0x92, 0x93, 0x94].map(evidence);
    let mut state = RuntimeControlState::empty();

    assert_eq!(
        state.lifecycle_mut().request(actor, LifecycleRole::Appraisal, &causes[..1]),
        Ok(LifecycleWakeRequestOutcome::Enqueue { generation: LifecycleGeneration::new(1) })
    );
    assert_eq!(
        state.lifecycle_mut().request(actor, LifecycleRole::Appraisal, &causes[1..2]),
        Ok(LifecycleWakeRequestOutcome::Coalesced {
            enqueued: LifecycleGeneration::new(1),
            desired: LifecycleGeneration::new(2),
        })
    );
    assert_eq!(
        state.lifecycle_mut().request(actor, LifecycleRole::Appraisal, &causes[2..]),
        Ok(LifecycleWakeRequestOutcome::Coalesced {
            enqueued: LifecycleGeneration::new(1),
            desired: LifecycleGeneration::new(3),
        })
    );

    let completion = state
        .lifecycle_mut()
        .complete(actor, LifecycleRole::Appraisal, LifecycleGeneration::new(1))
        .unwrap_or_else(|error| panic!("enqueued generation must complete: {error:?}"));
    assert_eq!(completion.processed(), LifecycleGeneration::new(1));
    assert_eq!(completion.successor(), Some(LifecycleGeneration::new(3)));
    let record = state
        .lifecycle()
        .get(actor, LifecycleRole::Appraisal)
        .unwrap_or_else(|| panic!("control remains retained after completion"));
    assert_eq!(record.desired(), LifecycleGeneration::new(3));
    assert_eq!(record.processed(), LifecycleGeneration::new(1));
    assert_eq!(record.enqueued(), Some(LifecycleGeneration::new(3)));
    assert_eq!(
        record.enqueued_causes(LifecycleGeneration::new(3)),
        Some(vec![causes[1], causes[2]])
    );

    let successor = state
        .lifecycle_mut()
        .complete(actor, LifecycleRole::Appraisal, LifecycleGeneration::new(3))
        .unwrap_or_else(|error| panic!("final dirty generation must complete: {error:?}"));
    assert_eq!(successor.processed(), LifecycleGeneration::new(3));
    assert_eq!(successor.successor(), None);
}

#[test]
fn lifecycle_control_rejects_empty_or_role_incompatible_causes() {
    let actor = ActorId::new(0xa1);
    let cause = evidence(0xa2);
    let mut state = RuntimeControlState::empty();

    assert_eq!(
        state.lifecycle_mut().request(actor, LifecycleRole::Appraisal, &[]),
        Err(LifecycleControlError::EmptyCauseBatch)
    );
    assert_eq!(
        state.lifecycle_mut().request(actor, LifecycleRole::IntentReview, &[cause]),
        Err(LifecycleControlError::CauseRoleMismatch { role: LifecycleRole::IntentReview, cause })
    );
    assert!(state.lifecycle().get(actor, LifecycleRole::Appraisal).is_none());
    assert!(state.lifecycle().get(actor, LifecycleRole::IntentReview).is_none());
}
