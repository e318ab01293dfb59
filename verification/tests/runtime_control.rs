use world_runtime::builtin::{
    require_event_permission, require_permission, validate_event_permission, BuiltinEffect,
    BuiltinRole,
};
use world_runtime::commit::validate_required_events;
use world_runtime::control::draft::{ReplayLevel, RuntimeControlDraft, RuntimeControlSource};
use world_runtime::control::ids::{IdIssuer, RuntimeControlIds};
use world_runtime::control::reservation::{AcquireReservationRequest, ReservationRuntime};
use world_runtime::control::schedule_key::WakeupScheduleKey;
use world_runtime::error::RuntimeError;
use world_runtime::ids::{
    DefinitionId, EventRecordSpec, ProcessInstanceId, ProvenanceKey, ReservationId,
    ScheduledWakeupId,
};
use world_runtime::model::{
    EffectKind, EffectOp, EventDeclaration, ModelError, ProcessInstanceRecord, ProcessLifecycle, ReservationHolder,
    ReservationRecord, ReservationState, ReservationTarget, RuntimeControlChange,
    RuntimeControlRecordPayload, SimulationTime, StaleWakeupReason, StagePermission,
    WakeupCancellationReason, WakeupConsumptionReason, WakeupOrderKey, WakeupTerminalTransition,
};

fn order(ticks: u64, sequence: u64) -> WakeupOrderKey {
    WakeupOrderKey { time: SimulationTime::from_ticks(ticks), phase: 0, priority: 0, sequence }
}

fn operation(kind: &str, permissions: Vec<StagePermission>, events: Vec<u64>) -> EffectOp {
    EffectOp {
        kind: EffectKind(kind.to_owned()),
        permissions,
        emitted_events: events
            .into_iter()
            .map(|event| EventDeclaration { spec: EventRecordSpec::new(event), roles: Vec::new() })
            .collect(),
    }
}

#[test]
fn issuers_start_at_one_and_stop_at_exhaustion() {
    let mut issuer = IdIssuer::new();
    assert_eq!(issuer.issue(), Some(1));
    assert_eq!(issuer.issue(), Some(2));
    assert_eq!(IdIssuer::starting_at(0), None);
    let mut last = IdIssuer::starting_at(u64::MAX).unwrap_or_else(|| panic!("nonzero start"));
    assert_eq!(last.issue(), Some(u64::MAX));
    assert_eq!(last.issue(), None);
    assert_eq!(last.issue(), None);
}

#[test]
fn store_recovery_continues_after_every_retained_identity() {
    assert_eq!(RuntimeControlIds::from_store(&[]), Ok(RuntimeControlIds::new()));
    let records = [
        RuntimeControlRecordPayload::Process(ProcessInstanceId::new(7)),
        RuntimeControlRecordPayload::Process(ProcessInstanceId::new(3)),
        RuntimeControlRecordPayload::Reservation(ReservationId::new(2)),
        RuntimeControlRecordPayload::ScheduledWakeup {
            id: ScheduledWakeupId::new(5),
            order: order(1, 9),
        },
    ];
    let mut ids = RuntimeControlIds::from_store(&records)
        .unwrap_or_else(|error| panic!("records must recover: {error:?}"));
    assert_eq!(ids.issue_process(), Ok(ProcessInstanceId::new(8)));
    assert_eq!(ids.issue_reservation(), Ok(ReservationId::new(3)));
    assert_eq!(ids.issue_wakeup(), Ok(ScheduledWakeupId::new(6)));
    let key = WakeupScheduleKey::new(SimulationTime::from_ticks(4), 2, -1);
    assert_eq!(
        ids.issue_order(key),
        Ok(WakeupOrderKey { time: SimulationTime::from_ticks(4), phase: 2, priority: -1, sequence: 10 })
    );
    assert_eq!(ids.next_wakeup_sequence, 11);
}

#[test]
fn store_recovery_rejects_an_identity_with_no_successor() {
    let records = [RuntimeControlRecordPayload::Reservation(ReservationId::new(u64::MAX))];
    assert_eq!(
        RuntimeControlIds::from_store(&records),
        Err(RuntimeError::Model(ModelError::RuntimeControlValueOverflow))
    );
    let wakeups = [RuntimeControlRecordPayload::ScheduledWakeup {
        id: ScheduledWakeupId::new(1),
        order: order(0, u64::MAX),
    }];
    assert_eq!(
        RuntimeControlIds::from_store(&wakeups),
        Err(RuntimeError::Model(ModelError::RuntimeControlValueOverflow))
    );
}

#[test]
fn exhausted_issuers_report_their_kind() {
    let mut ids = RuntimeControlIds::new();
    ids.process_ids = IdIssuer { next: None };
    ids.reservation_ids = IdIssuer { next: None };
    ids.wakeup_ids = IdIssuer { next: None };
    ids.next_wakeup_sequence = u64::MAX;
    assert_eq!(ids.issue_process(), Err(RuntimeError::ProcessInstanceIdExhausted));
    assert_eq!(ids.issue_reservation(), Err(RuntimeError::ReservationIdExhausted));
    assert_eq!(ids.issue_wakeup(), Err(RuntimeError::ScheduledWakeupIdExhausted));
    let key = WakeupScheduleKey::new(SimulationTime::from_ticks(1), 0, 0);
    assert_eq!(
        ids.issue_order(key),
        Err(RuntimeError::Model(ModelError::RuntimeControlValueOverflow))
    );
    assert_eq!(ids.next_wakeup_sequence, u64::MAX);
}

#[test]
fn schedule_key_keeps_its_parts() {
    let key = WakeupScheduleKey::new(SimulationTime::from_ticks(12), 3, -4);
    assert_eq!(key.time(), SimulationTime::from_ticks(12));
    assert_eq!(key.phase(), 3);
    assert_eq!(key.priority(), -4);
}

#[test]
fn reservation_acquisition_issues_a_held_reservation() {
    let mut ids = RuntimeControlIds::new();
    let request = AcquireReservationRequest::new(
        ReservationHolder(4),
        ReservationTarget(5),
        SimulationTime::from_ticks(6),
        Some(ProvenanceKey::new(7)),
    );
    let change = ReservationRuntime::acquire(&mut ids, request)
        .unwrap_or_else(|error| panic!("fresh issuer must acquire: {error:?}"));
    assert_eq!(
        change,
        RuntimeControlChange::AcquireReservation {
            reservation: ReservationRecord {
                id: ReservationId::new(1),
                holder: ReservationHolder(4),
                target: ReservationTarget(5),
                state: ReservationState::Held { acquired_at: SimulationTime::from_ticks(6) },
                provenance: Some(ProvenanceKey::new(7)),
            },
            updated_at: SimulationTime::from_ticks(6),
            provenance: Some(ProvenanceKey::new(7)),
        }
    );
    assert_eq!(ids.issue_reservation(), Ok(ReservationId::new(2)));

    ids.reservation_ids = IdIssuer { next: None };
    let again = AcquireReservationRequest::new(
        ReservationHolder(4),
        ReservationTarget(5),
        SimulationTime::from_ticks(6),
        None,
    );
    assert_eq!(
        ReservationRuntime::acquire(&mut ids, again),
        Err(RuntimeError::ReservationIdExhausted)
    );
}

#[test]
fn draft_appends_changes_in_order() {
    let at = SimulationTime::from_ticks(3);
    let mut draft = RuntimeControlDraft::new(RuntimeControlSource(1), at, ReplayLevel(2), None);
    let wakeup = ScheduledWakeupId::new(8);
    let process = ProcessInstanceRecord {
        id: ProcessInstanceId::new(4),
        lifecycle: ProcessLifecycle::Scheduled { wakeup },
        provenance: Some(ProvenanceKey::new(9)),
    };
    draft.create_process(at, process);
    draft.cancel_current_wakeup(&process.lifecycle, at);
    draft.cancel_current_wakeup(&ProcessLifecycle::Other(1), at);
    draft.consume_wakeup(wakeup, at, WakeupConsumptionReason(5));
    draft.skip_wakeup(wakeup, at, StaleWakeupReason(6));
    draft.cancel_wakeup(wakeup, at, WakeupCancellationReason::Other(2));
    assert_eq!(draft.source, RuntimeControlSource(1));
    assert_eq!(draft.replay_level, ReplayLevel(2));
    let changes = draft.into_transaction_coupled_changes().into_changes();
    assert_eq!(
        changes,
        vec![
            RuntimeControlChange::CreateProcess {
                process,
                updated_at: at,
                provenance: Some(ProvenanceKey::new(9)),
            },
            RuntimeControlChange::TransitionWakeup {
                wakeup,
                transition: WakeupTerminalTransition::Canceled {
                    at,
                    reason: WakeupCancellationReason::TargetCanceled,
                },
            },
            RuntimeControlChange::TransitionWakeup {
                wakeup,
                transition: WakeupTerminalTransition::Consumed {
                    at,
                    reason: WakeupConsumptionReason(5),
                },
            },
            RuntimeControlChange::TransitionWakeup {
                wakeup,
                transition: WakeupTerminalTransition::Skipped { at, reason: StaleWakeupReason(6) },
            },
            RuntimeControlChange::TransitionWakeup {
                wakeup,
                transition: WakeupTerminalTransition::Canceled {
                    at,
                    reason: WakeupCancellationReason::Other(2),
                },
            },
        ]
    );
}

#[test]
fn builtin_roles_and_effects_have_stable_names() {
    assert_eq!(BuiltinRole::Actor.as_str(), "actor");
    assert_eq!(BuiltinRole::Entity.as_str(), "entity");
    assert_eq!(BuiltinRole::Item.as_str(), "item");
    assert_eq!(BuiltinRole::Destination.as_str(), "destination");
    assert_eq!(
        BuiltinEffect::from_kind(&EffectKind("insert_entity".to_owned())),
        Some(BuiltinEffect::InsertEntity)
    );
    assert_eq!(
        BuiltinEffect::from_kind(&EffectKind("transfer_entity".to_owned())),
        Some(BuiltinEffect::TransferEntity)
    );
    assert_eq!(
        BuiltinEffect::from_kind(&EffectKind("record_event".to_owned())),
        Some(BuiltinEffect::RecordEvent)
    );
    assert_eq!(BuiltinEffect::from_kind(&EffectKind("teleport".to_owned())), None);
    assert_eq!(
        BuiltinEffect::from_operation(&operation("teleport", vec![], vec![])),
        Err(RuntimeError::MissingEffectHandler { kind: EffectKind("teleport".to_owned()) })
    );
    assert_eq!(
        BuiltinEffect::from_operation(&operation("record_event", vec![], vec![])),
        Ok(BuiltinEffect::RecordEvent)
    );
}

#[test]
fn permission_checks_name_the_missing_permission() {
    let quiet = operation("record_event", vec![], vec![]);
    let physical = operation("record_event", vec![StagePermission::EmitPhysicalEventRecord], vec![1]);
    let sensory = operation("record_event", vec![StagePermission::EmitSensoryEventRecord], vec![1]);
    let silent_emitter = operation("insert_entity", vec![StagePermission::MutatePhysical], vec![1]);

    assert_eq!(validate_event_permission(&physical), Ok(()));
    assert_eq!(validate_event_permission(&sensory), Ok(()));
    assert_eq!(
        validate_event_permission(&quiet),
        Err(RuntimeError::PermissionNotDeclared {
            operation: EffectKind("record_event".to_owned()),
            permission: StagePermission::EmitPhysicalEventRecord,
        })
    );
    assert_eq!(require_event_permission(&quiet), Ok(()));
    assert_eq!(
        require_event_permission(&silent_emitter),
        Err(RuntimeError::PermissionNotDeclared {
            operation: EffectKind("insert_entity".to_owned()),
            permission: StagePermission::EmitPhysicalEventRecord,
        })
    );
    assert_eq!(require_permission(&silent_emitter, StagePermission::MutatePhysical), Ok(()));
    assert_eq!(
        require_permission(&quiet, StagePermission::MutatePhysical),
        Err(RuntimeError::PermissionNotDeclared {
            operation: EffectKind("record_event".to_owned()),
            permission: StagePermission::MutatePhysical,
        })
    );
}

#[test]
fn required_events_report_the_first_missing_one() {
    let program = DefinitionId::new(40);
    let spec = EventRecordSpec::new;
    assert_eq!(validate_required_events(program, &[], &[]), Ok(()));
    assert_eq!(validate_required_events(program, &[spec(1), spec(2)], &[spec(2), spec(1)]), Ok(()));
    assert_eq!(
        validate_required_events(program, &[spec(1), spec(3), spec(4)], &[spec(1)]),
        Err(RuntimeError::RequiredEventMissing { effect_program: program, event: spec(3) })
    );
}

#[test]
fn model_failures_wrap_into_runtime_errors() {
    assert_eq!(
        RuntimeError::from_model(ModelError::RuntimeControlValueOverflow),
        RuntimeError::Model(ModelError::RuntimeControlValueOverflow)
    );
}

#[test]
fn effect_operations_report_their_declared_events() {
    let op = operation("record_event", vec![StagePermission::EmitSensoryEventRecord], vec![4, 6]);
    assert!(op.emits_event(EventRecordSpec::new(6)));
    assert!(!op.emits_event(EventRecordSpec::new(5)));
    assert!(!op.emits_no_events());
    assert!(operation("insert_entity", vec![], vec![]).emits_no_events());
    assert!(op.requires_permission(StagePermission::EmitSensoryEventRecord));
    assert!(!op.requires_permission(StagePermission::MutatePhysical));
}

#[test]
fn draft_records_process_updates_and_wakeup_schedules() {
    let at = SimulationTime::from_ticks(2);
    let mut draft = RuntimeControlDraft::new(RuntimeControlSource(3), at, ReplayLevel(0), None);
    let process = ProcessInstanceRecord {
        id: ProcessInstanceId::new(1),
        lifecycle: ProcessLifecycle::Other(4),
        provenance: None,
    };
    let wakeup = world_runtime::model::ScheduledWakeupRecord {
        id: ScheduledWakeupId::new(2),
        order: order(9, 1),
        provenance: Some(ProvenanceKey::new(5)),
    };
    draft.update_process(at, process);
    draft.schedule_wakeup(at, wakeup);
    assert_eq!(
        draft.changes,
        vec![
            RuntimeControlChange::UpdateProcess { process, updated_at: at, provenance: None },
            RuntimeControlChange::ScheduleWakeup {
                wakeup,
                updated_at: at,
                provenance: Some(ProvenanceKey::new(5)),
            },
        ]
    );
}
