use std::cmp::Ordering;

use std::collections::BTreeMap;

use world_runtime::authority::seal::{
    actor_command_binding, entity_command_binding, next_evidence_generation,
    compare_admit_requests, compare_manage_requests, ensure_work_population, is_strictly_sorted, local_u32, mark_once,
    mark_present, normalize_management, seal_admission_frontier,
    sort_manage_requests, transition_mode, AuthorityRecordSealError, NormalizedManagement,
};
use world_runtime::authority::seal::{map_containment_transition_error, ContainmentTransferSealError};
use world_runtime::authority::record::{
    seal_authority_record, AuthorityCursor, AuthorityCursorAdvanceError, AuthorityRecordBody,
    CumulativeAuthorityHash, DraftAuthorityRecord, SessionHead,
};
use world_runtime::authority::transition::{ContainmentTransitionError, DomainStateError};
use world_runtime::control::retirement::LedgerRetirementError;
use world_runtime::control::state::RuntimeControlState;
use world_runtime::ids::{
    EntityId, EvidenceDeliveryGeneration,
    ActorId, AuthorityRecordId, CommandId, CommandRequestFingerprint, CommandSource, InputId,
    InputRequestFingerprint, ManagementRequestFingerprint, ManagementRequestId,
};
use world_runtime::kernel::{
    CommandBinding, CommandValue,
    AdmitRequest, CommandEnvelope, LedgerRetirement, ManageOutcome, ManageRequest,
    SessionManagement, SimMoment,
};
use world_runtime::session::SessionMode;
use world_runtime::session::SessionMode::{Failed, Paused, Quarantined, Running};

fn moment(ticks: u64, microstep: u64) -> SimMoment {
    SimMoment::new(ticks, microstep)
}

fn manage(id: u64, operation: SessionManagement) -> ManageRequest {
    ManageRequest::new(
        ManagementRequestId::new(id),
        ManagementRequestFingerprint::new(1000 + id),
        operation,
    )
}

fn normalize(
    mode: SessionMode,
    control: RuntimeControlState,
    requests: Vec<ManageRequest>,
) -> Result<NormalizedManagement, AuthorityRecordSealError> {
    normalize_management(mode, moment(10, 0), control, None, None, requests)
}

fn admission(effective: SimMoment, source: u64, actor: u64, command: u64, input: u64) -> AdmitRequest {
    AdmitRequest {
        id: InputId::new(input),
        fingerprint: InputRequestFingerprint::new(input + 500),
        effective,
        command: CommandEnvelope {
            source: CommandSource::new(source),
            actor: ActorId::new(actor),
            id: CommandId::new(command),
            fingerprint: CommandRequestFingerprint::new(command + 900),
        },
    }
}

#[test]
fn mark_once_covers_each_position_exactly_once() {
    let mut coverage = vec![false, false, false];
    assert_eq!(mark_once(&mut coverage, 1), Ok(()));
    assert_eq!(coverage, vec![false, true, false]);
    assert_eq!(
        mark_once(&mut coverage, 1),
        Err(AuthorityRecordSealError::InvalidNormalizedGraph)
    );
    assert_eq!(
        mark_once(&mut coverage, 3),
        Err(AuthorityRecordSealError::InvalidNormalizedGraph)
    );
    assert_eq!(coverage, vec![false, true, false]);
}

#[test]
fn mark_present_accepts_repeated_positions_inside_the_range() {
    let mut coverage = vec![false, false];
    assert_eq!(mark_present(&mut coverage, 0), Ok(()));
    assert_eq!(mark_present(&mut coverage, 0), Ok(()));
    assert_eq!(coverage, vec![true, false]);
    assert_eq!(
        mark_present(&mut coverage, 2),
        Err(AuthorityRecordSealError::InvalidNormalizedGraph)
    );
}

#[test]
fn local_index_must_fit_u32() {
    assert_eq!(local_u32(0), Ok(0));
    assert_eq!(local_u32(u32::MAX as usize), Ok(u32::MAX));
    if usize::BITS > 32 {
        assert_eq!(
            local_u32(u32::MAX as usize + 1),
            Err(AuthorityRecordSealError::CollectionTooLarge)
        );
    }
}

#[test]
fn strictly_sorted_rejects_repeats_and_descents() {
    let fp = CommandRequestFingerprint::new;
    assert!(is_strictly_sorted(&[]));
    assert!(is_strictly_sorted(&[fp(4)]));
    assert!(is_strictly_sorted(&[fp(1), fp(2), fp(9)]));
    assert!(!is_strictly_sorted(&[fp(1), fp(1)]));
    assert!(!is_strictly_sorted(&[fp(1), fp(3), fp(2)]));
}

#[test]
fn management_requests_compare_by_id_fingerprint_then_operation() {
    let a = manage(1, SessionManagement::Resume);
    let b = manage(2, SessionManagement::Pause);
    assert_eq!(compare_manage_requests(&a, &b), Ordering::Less);
    assert_eq!(compare_manage_requests(&b, &a), Ordering::Greater);
    assert_eq!(compare_manage_requests(&a, &a), Ordering::Equal);

    let pause = manage(3, SessionManagement::Pause);
    let resume = manage(3, SessionManagement::Resume);
    assert_eq!(compare_manage_requests(&pause, &resume), Ordering::Less);

    let low = ManageRequest::new(
        ManagementRequestId::new(3),
        ManagementRequestFingerprint::new(1),
        SessionManagement::Fail,
    );
    assert_eq!(compare_manage_requests(&low, &pause), Ordering::Less);

    let early = manage(4, SessionManagement::SealAdmissionThrough(moment(2, 9)));
    let late = manage(4, SessionManagement::SealAdmissionThrough(moment(3, 0)));
    assert_eq!(compare_manage_requests(&early, &late), Ordering::Less);
}

#[test]
fn admission_requests_compare_by_effective_moment_first() {
    let first = admission(moment(1, 5), 9, 9, 9, 9);
    let second = admission(moment(2, 0), 1, 1, 1, 1);
    assert_eq!(compare_admit_requests(&first, &second), Ordering::Less);
    assert_eq!(compare_admit_requests(&second, &first), Ordering::Greater);
    assert_eq!(compare_admit_requests(&first, &first), Ordering::Equal);

    let by_source = admission(moment(1, 5), 8, 9, 9, 9);
    assert_eq!(compare_admit_requests(&by_source, &first), Ordering::Less);
    let by_input = admission(moment(1, 5), 9, 9, 9, 3);
    assert_eq!(compare_admit_requests(&by_input, &first), Ordering::Less);
}

#[test]
fn management_requests_sort_into_canonical_order() {
    let sorted = sort_manage_requests(vec![
        manage(3, SessionManagement::Pause),
        manage(1, SessionManagement::Resume),
        manage(2, SessionManagement::Fail),
    ]);
    let ids: Vec<u64> = sorted.iter().map(|request| request.id().get()).collect();
    assert_eq!(ids, vec![1, 2, 3]);
}

#[test]
fn mode_transitions_follow_the_management_table() {
    assert_eq!(transition_mode(Running, Some(Paused)), Ok(Paused));
    assert_eq!(transition_mode(Paused, Some(Running)), Ok(Running));
    assert_eq!(transition_mode(Paused, Some(Quarantined)), Ok(Quarantined));
    assert_eq!(transition_mode(Running, Some(Failed)), Ok(Failed));
    assert_eq!(transition_mode(Failed, None), Ok(Failed));
    assert_eq!(
        transition_mode(Quarantined, Some(Running)),
        Err(AuthorityRecordSealError::IllegalManagementTransition {
            current: Quarantined,
            requested: Running,
        })
    );
    assert_eq!(
        transition_mode(Failed, Some(Failed)),
        Err(AuthorityRecordSealError::IllegalManagementTransition {
            current: Failed,
            requested: Failed,
        })
    );
}

#[test]
fn admission_seal_must_advance_without_crossing_barriers() {
    let frontier = moment(5, 0);
    assert_eq!(
        seal_admission_frontier(frontier, moment(5, 0), None, None),
        Err(AuthorityRecordSealError::AdmissionFrontierNotAdvancing {
            current: frontier,
            requested: moment(5, 0),
        })
    );
    assert_eq!(
        seal_admission_frontier(frontier, moment(8, 0), None, Some(moment(7, 0))),
        Err(AuthorityRecordSealError::ActionEvaluationFrontierBlocked {
            blocked_at: moment(7, 0),
        })
    );
    assert_eq!(
        seal_admission_frontier(frontier, moment(8, 0), Some(moment(6, 3)), None),
        Err(AuthorityRecordSealError::AdmissionSealCrossesScheduledWork {
            requested: moment(8, 0),
            scheduled: moment(6, 3),
        })
    );
    assert_eq!(
        seal_admission_frontier(frontier, moment(8, 0), Some(moment(8, 0)), Some(moment(8, 0))),
        Ok(moment(8, 0))
    );
}

fn root_head() -> SessionHead {
    SessionHead {
        cursor: AuthorityCursor::root(),
        mode: SessionMode::Running,
        frontier: moment(10, 0),
        control: RuntimeControlState::empty(),
        least_due: None,
        blocked_at: None,
    }
}

#[test]
fn management_seal_materializes_current_record_outcome() {
    let head = root_head();
    let cursor = head.cursor;
    let record_id = AuthorityRecordId::new(77);
    let sealed = seal_authority_record(
        head,
        DraftAuthorityRecord::management(cursor, vec![manage(9, SessionManagement::Pause)]),
        record_id,
        CumulativeAuthorityHash(700),
    )
    .unwrap_or_else(|error| panic!("pause fixture must seal: {error:?}"));
    assert_eq!(sealed.expected_cursor(), cursor);
    assert_eq!(sealed.resulting_cursor().revision, 1);
    assert_eq!(sealed.record().header.revision, 1);
    assert_eq!(sealed.record().header.sequence, 1);
    assert_eq!(
        sealed.record().header.cumulative,
        sealed.resulting_cursor().cumulative
    );
    assert_eq!(sealed.record().header.id, record_id);
    assert_eq!(sealed.resulting_cursor().authority, Some(sealed.record().header.id));
    let management = match &sealed.record().body {
        AuthorityRecordBody::Management(management) => management,
        _ => panic!("management draft must produce a management body"),
    };
    assert_eq!(management.resulting_mode, SessionMode::Paused);
    let entry = management
        .entries
        .first()
        .unwrap_or_else(|| panic!("management batch must contain one entry"));
    assert_eq!(entry.outcome.record, sealed.record().header.id);
    assert_eq!(
        entry.outcome,
        ManageOutcome::applied(record_id, SessionManagement::Pause)
    );

    let head = root_head();
    let cursor = head.cursor;
    match seal_authority_record(
        head,
        DraftAuthorityRecord::management(cursor, vec![manage(10, SessionManagement::Resume)]),
        AuthorityRecordId::new(78),
        CumulativeAuthorityHash(780),
    ) {
        Err(error) => assert_eq!(
            error,
            AuthorityRecordSealError::IllegalManagementTransition {
                current: SessionMode::Running,
                requested: SessionMode::Running,
            }
        ),
        Ok(_) => panic!("resuming a running session must not seal"),
    }
}

#[test]
fn stale_draft_is_refused_with_both_cursors() {
    let head = root_head();
    let stale = AuthorityCursor {
        revision: 3,
        sequence: 3,
        authority: Some(AuthorityRecordId::new(5)),
        cumulative: CumulativeAuthorityHash(55),
    };
    match seal_authority_record(
        head,
        DraftAuthorityRecord::management(stale, vec![manage(9, SessionManagement::Pause)]),
        AuthorityRecordId::new(77),
        CumulativeAuthorityHash(770),
    ) {
        Err(error) => assert_eq!(
            error,
            AuthorityRecordSealError::StaleDraft { expected: stale, actual: AuthorityCursor::root() }
        ),
        Ok(_) => panic!("a stale draft must not seal"),
    }
}

#[test]
fn exhausted_cursor_cannot_advance() {
    let mut head = root_head();
    head.cursor = AuthorityCursor {
        revision: u64::MAX,
        sequence: 4,
        authority: None,
        cumulative: CumulativeAuthorityHash(0),
    };
    let cursor = head.cursor;
    match seal_authority_record(
        head,
        DraftAuthorityRecord::management(cursor, vec![manage(9, SessionManagement::Pause)]),
        AuthorityRecordId::new(77),
        CumulativeAuthorityHash(770),
    ) {
        Err(error) => assert_eq!(
            error,
            AuthorityRecordSealError::CursorAdvance(AuthorityCursorAdvanceError::RevisionExhausted)
        ),
        Ok(_) => panic!("an exhausted cursor must not seal"),
    }
    let cursor = AuthorityCursor {
        revision: 2,
        sequence: u64::MAX,
        authority: None,
        cumulative: CumulativeAuthorityHash(0),
    };
    assert_eq!(
        cursor.successor(AuthorityRecordId::new(1), CumulativeAuthorityHash(1)),
        Err(AuthorityCursorAdvanceError::SequenceExhausted)
    );
    let cursor = AuthorityCursor {
        revision: 2,
        sequence: 6,
        authority: Some(AuthorityRecordId::new(4)),
        cumulative: CumulativeAuthorityHash(44),
    };
    assert_eq!(
        cursor.successor(AuthorityRecordId::new(9), CumulativeAuthorityHash(99)),
        Ok(AuthorityCursor {
            revision: 3,
            sequence: 7,
            authority: Some(AuthorityRecordId::new(9)),
            cumulative: CumulativeAuthorityHash(99),
        })
    );
}

#[test]
fn sealed_record_chains_to_the_previous_authority() {
    let mut head = root_head();
    head.cursor = AuthorityCursor {
        revision: 4,
        sequence: 9,
        authority: Some(AuthorityRecordId::new(40)),
        cumulative: CumulativeAuthorityHash(400),
    };
    let cursor = head.cursor;
    let sealed = seal_authority_record(
        head,
        DraftAuthorityRecord::management(cursor, vec![manage(2, SessionManagement::Pause)]),
        AuthorityRecordId::new(41),
        CumulativeAuthorityHash(410),
    )
    .unwrap_or_else(|error| panic!("chained pause must seal: {error:?}"));
    assert_eq!(sealed.record().header.previous_authority, Some(AuthorityRecordId::new(40)));
    assert_eq!(sealed.record().header.previous_cumulative, CumulativeAuthorityHash(400));
    assert_eq!(sealed.resulting_cursor().cumulative, CumulativeAuthorityHash(410));
    assert_eq!(sealed.record().header.revision, 5);
    assert_eq!(sealed.record().header.sequence, 10);
    let record = sealed.into_record();
    assert_eq!(record.header.id, AuthorityRecordId::new(41));
}

#[test]
fn management_batch_is_input_permutation_invariant() {
    let pause = manage(1, SessionManagement::Pause);
    let resume = manage(2, SessionManagement::Resume);
    let forward = normalize(SessionMode::Running, RuntimeControlState::empty(), vec![pause, resume]);
    let reversed = normalize(SessionMode::Running, RuntimeControlState::empty(), vec![resume, pause]);
    assert_eq!(forward, reversed);
    let batch = forward.unwrap_or_else(|error| panic!("canonical batch must normalize: {error:?}"));
    assert_eq!(batch.entries.len(), 2);
    assert_eq!(batch.entries[0].resulting_mode, SessionMode::Paused);
    assert_eq!(batch.resulting_mode, SessionMode::Running);
}

#[test]
fn management_batch_rejects_empty_and_duplicate_requests() {
    assert_eq!(
        normalize(SessionMode::Running, RuntimeControlState::empty(), Vec::new()),
        Err(AuthorityRecordSealError::EmptyBatch)
    );
    let pause = manage(4, SessionManagement::Pause);
    let fail = manage(4, SessionManagement::Fail);
    assert_eq!(
        normalize(SessionMode::Running, RuntimeControlState::empty(), vec![pause, fail]),
        Err(AuthorityRecordSealError::DuplicateManagementRequest)
    );
}

#[test]
fn management_batch_rejects_a_retained_request() {
    let mut control = RuntimeControlState::empty();
    let outcome = ManageOutcome::applied(AuthorityRecordId::new(1), SessionManagement::Pause);
    assert!(control
        .management_mut()
        .insert_exact(ManagementRequestId::new(5), ManagementRequestFingerprint::new(1005), outcome)
        .is_ok());
    assert_eq!(
        normalize(SessionMode::Running, control, vec![manage(5, SessionManagement::Pause)]),
        Err(AuthorityRecordSealError::ManagementRequestAlreadyRetained)
    );
}

#[test]
fn management_seal_advances_the_frontier_only_forward() {
    let sealed = normalize_management(
        SessionMode::Paused,
        moment(10, 0),
        RuntimeControlState::empty(),
        None,
        None,
        vec![manage(1, SessionManagement::SealAdmissionThrough(moment(12, 0)))],
    )
    .unwrap_or_else(|error| panic!("advancing seal must normalize: {error:?}"));
    assert_eq!(sealed.resulting_mode, SessionMode::Paused);
    assert_eq!(sealed.preserved_frontier, moment(10, 0));

    assert_eq!(
        normalize_management(
            SessionMode::Running,
            moment(10, 0),
            RuntimeControlState::empty(),
            None,
            None,
            vec![
                manage(1, SessionManagement::SealAdmissionThrough(moment(12, 0))),
                manage(2, SessionManagement::SealAdmissionThrough(moment(11, 0))),
            ],
        ),
        Err(AuthorityRecordSealError::AdmissionFrontierNotAdvancing {
            current: moment(12, 0),
            requested: moment(11, 0),
        })
    );
    assert_eq!(
        normalize_management(
            SessionMode::Running,
            moment(10, 0),
            RuntimeControlState::empty(),
            None,
            Some(moment(11, 0)),
            vec![manage(1, SessionManagement::SealAdmissionThrough(moment(12, 0)))],
        ),
        Err(AuthorityRecordSealError::ActionEvaluationFrontierBlocked {
            blocked_at: moment(11, 0),
        })
    );
}

#[test]
fn management_retirement_applies_to_the_scratch_ledger() {
    let mut control = RuntimeControlState::empty();
    for id in 0..2 {
        let outcome = ManageOutcome::applied(AuthorityRecordId::new(1), SessionManagement::Pause);
        assert!(control
            .management_mut()
            .insert_exact(
                ManagementRequestId::new(id),
                ManagementRequestFingerprint::new(1000 + id),
                outcome,
            )
            .is_ok());
    }
    let retire = manage(
        3,
        SessionManagement::Retire(LedgerRetirement::ManagementThrough(ManagementRequestId::new(1))),
    );
    let normalized = normalize(SessionMode::Running, control, vec![retire])
        .unwrap_or_else(|error| panic!("complete prefix must retire: {error:?}"));
    assert_eq!(normalized.resulting_mode, SessionMode::Running);

    let gap = manage(
        3,
        SessionManagement::Retire(LedgerRetirement::ManagementThrough(ManagementRequestId::new(2))),
    );
    assert_eq!(
        normalize(SessionMode::Running, RuntimeControlState::empty(), vec![gap]),
        Err(AuthorityRecordSealError::LedgerRetirement {
            retirement: LedgerRetirement::ManagementThrough(ManagementRequestId::new(2)),
            error: LedgerRetirementError::Gap { missing: 0 },
        })
    );

    let itself = manage(
        3,
        SessionManagement::Retire(LedgerRetirement::ManagementThrough(ManagementRequestId::new(3))),
    );
    assert_eq!(
        normalize(SessionMode::Running, RuntimeControlState::empty(), vec![itself]),
        Err(AuthorityRecordSealError::LedgerRetirement {
            retirement: LedgerRetirement::ManagementThrough(ManagementRequestId::new(3)),
            error: LedgerRetirementError::ManagementTargetNotBeforeRequest {
                target: ManagementRequestId::new(3),
                request: ManagementRequestId::new(3),
            },
        })
    );
}

#[test]
fn work_population_stays_within_the_moment_maximum() {
    let at = moment(3, 1);
    assert_eq!(ensure_work_population(at, 2, 1, 3), Ok(()));
    assert_eq!(
        ensure_work_population(at, 2, 2, 3),
        Err(AuthorityRecordSealError::WorkPopulationExceeded { moment: at, maximum: 3, actual: 4 })
    );
    assert_eq!(
        ensure_work_population(at, usize::MAX, 1, u32::MAX),
        Err(AuthorityRecordSealError::CollectionTooLarge)
    );
}

#[test]
fn evidence_generations_count_up_per_actor() {
    let mut cursor = BTreeMap::new();
    let first = ActorId::new(1);
    let second = ActorId::new(2);
    assert_eq!(next_evidence_generation(&mut cursor, first), EvidenceDeliveryGeneration::new(1).ok_or(AuthorityRecordSealError::InvalidNormalizedGraph));
    assert_eq!(next_evidence_generation(&mut cursor, first), Ok(EvidenceDeliveryGeneration(2)));
    assert_eq!(next_evidence_generation(&mut cursor, second), Ok(EvidenceDeliveryGeneration(1)));
    assert_eq!(cursor.get(&1), Some(&2));

    cursor.insert(3, u64::MAX);
    assert_eq!(
        next_evidence_generation(&mut cursor, ActorId::new(3)),
        Err(AuthorityRecordSealError::InvalidNormalizedGraph)
    );
    assert_eq!(cursor.get(&3), Some(&u64::MAX));
    assert_eq!(EvidenceDeliveryGeneration::new(0), None);
}

#[test]
fn command_bindings_resolve_by_role_and_kind() {
    let bindings = vec![
        CommandBinding { name: "actor".to_owned(), value: CommandValue::Actor(ActorId::new(7)) },
        CommandBinding { name: "item".to_owned(), value: CommandValue::Entity(EntityId::new(8)) },
        CommandBinding { name: "item".to_owned(), value: CommandValue::Entity(EntityId::new(9)) },
    ];
    assert_eq!(actor_command_binding(&bindings, "actor"), Some(ActorId::new(7)));
    assert_eq!(entity_command_binding(&bindings, "item"), Some(EntityId::new(8)));
    assert_eq!(entity_command_binding(&bindings, "actor"), None);
    assert_eq!(actor_command_binding(&bindings, "item"), None);
    assert_eq!(entity_command_binding(&bindings, "destination"), None);
}

#[test]
fn refused_transfers_map_to_seal_errors() {
    let item = EntityId::new(1);
    assert_eq!(
        map_containment_transition_error(ContainmentTransitionError::ItemNotContained { item }),
        ContainmentTransferSealError::ItemNotContained
    );
    assert_eq!(
        map_containment_transition_error(ContainmentTransitionError::SourceMismatch {
            item,
            actual: EntityId::new(2),
            expected: EntityId::new(3),
        }),
        ContainmentTransferSealError::SourceMismatch { actual: EntityId::new(2), expected: EntityId::new(3) }
    );
    assert_eq!(
        map_containment_transition_error(ContainmentTransitionError::DestinationContainerMissing {
            container: EntityId::new(4),
        }),
        ContainmentTransferSealError::DestinationContainerMissing
    );
    assert_eq!(
        map_containment_transition_error(ContainmentTransitionError::SourceAuthorityMissing {
            actor: ActorId::new(5),
            container: EntityId::new(4),
        }),
        ContainmentTransferSealError::SourceAuthorityMissing
    );
    assert_eq!(
        map_containment_transition_error(ContainmentTransitionError::InvalidSuccessor(
            DomainStateError::ContainerCapacityExceeded {
                container: EntityId::new(4),
                capacity: 1,
                occupancy: 2,
            }
        )),
        ContainmentTransferSealError::DestinationCapacityExceeded
    );
    let duplicate = ContainmentTransitionError::DuplicateItemClaim { item };
    assert_eq!(
        map_containment_transition_error(duplicate),
        ContainmentTransferSealError::InvalidTransition(duplicate)
    );
}
