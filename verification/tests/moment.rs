use world_runtime::authority::lifecycle_mutation::LifecycleControlMutationRecord;
use world_runtime::authority::moment::{
    materialize_moment, verify_normalized_moment, CommandDeliveryRecord, DeliveryResolutionRecord,
    MomentTransitionRecords, NormalizedAttemptRecord, NormalizedAttemptResolution,
    NormalizedAttemptSubject, NormalizedDeliveryResolution, NormalizedMomentBatch,
    NormalizedSchedulerInsertion, PostCommitDispatch, PreparedPostCommitDispatch,
    ReactionEnvelopeRecord, RecordedCommandResolution, ScheduledWork, SchedulerInsertionRecord,
};
use world_runtime::control::lifecycle::{LifecycleCause, LifecycleRole};
use world_runtime::authority::seal::AuthorityRecordSealError;
use world_runtime::authority::transition::ContainmentTransferDelta;
use world_runtime::ids::{
    ActionOpportunityId, ActorId, AttemptRecordId, AuthorityRecordId, CommandId,
    CommandRequestFingerprint, CommandSource, CommitRecordId, EntityId, EvidenceDeliveryId,
    ReactionEnvelopeId,
};
use world_runtime::kernel::{CommandAttemptOutcome, CommandEnvelope, SimMoment, StableCommandRejection};

fn command(id: u64, fingerprint: u64) -> CommandEnvelope {
    CommandEnvelope {
        source: CommandSource::new(1),
        actor: ActorId::new(2),
        id: CommandId::new(id),
        fingerprint: CommandRequestFingerprint::new(fingerprint),
    }
}

fn delta(item: u64) -> ContainmentTransferDelta {
    ContainmentTransferDelta {
        actor: ActorId::new(2),
        item: EntityId::new(item),
        expected_source: EntityId::new(30),
        destination: EntityId::new(31),
    }
}

fn no_transitions() -> MomentTransitionRecords {
    MomentTransitionRecords {
        action_opportunity_transitions: Vec::new(),
        action_evaluation_invocation_openings: Vec::new(),
        action_evaluation_invocation_transitions: Vec::new(),
        action_opportunity_openings: Vec::new(),
        evidence_routing: Vec::new(),
        evidence_assimilations: Vec::new(),
        appraisal_transitions: Vec::new(),
        intent_adoptions: Vec::new(),
        intent_transitions: Vec::new(),
        activity_starts: Vec::new(),
        activity_transitions: Vec::new(),
        activity_terminal_transitions: Vec::new(),
        lifecycle_control_mutations: Vec::new(),
        relocation_attempts: Vec::new(),
        relocation_process_transitions: Vec::new(),
        resolution_evidence: Vec::new(),
    }
}

fn prior_attempt(index: u32) -> AttemptRecordId {
    AttemptRecordId::derive(AuthorityRecordId::new(2), index)
}

/// One accepted command, one two-way collision and one post-commit delivery.
fn complete_batch() -> NormalizedMomentBatch {
    NormalizedMomentBatch {
        moment: SimMoment::new(4, 0),
        resulting_frontier: 8,
        consumed_keys: vec![3, 4, 5, 7],
        command_deliveries: vec![
            CommandDeliveryRecord { scheduler_key: 5, command: command(10, 100) },
            CommandDeliveryRecord { scheduler_key: 3, command: command(11, 200) },
            CommandDeliveryRecord { scheduler_key: 7, command: command(11, 300) },
        ],
        post_commit_deliveries: vec![4],
        lifecycle_deliveries: Vec::new(),
        action_ready_deliveries: Vec::new(),
        action_evaluation_deliveries: Vec::new(),
        attempt_resolved_deliveries: Vec::new(),
        relocation_process_deliveries: Vec::new(),
        attempts: vec![
            NormalizedAttemptRecord {
                subject: NormalizedAttemptSubject::EvaluatedCommand(command(10, 100)),
                resolution: NormalizedAttemptResolution::Accepted { commit: 0 },
            },
            NormalizedAttemptRecord {
                subject: NormalizedAttemptSubject::CommandIdCollision {
                    source: CommandSource::new(1),
                    command: CommandId::new(11),
                    fingerprints: vec![
                        CommandRequestFingerprint::new(200),
                        CommandRequestFingerprint::new(300),
                    ],
                },
                resolution: NormalizedAttemptResolution::CommandIdCollision,
            },
        ],
        commits: vec![delta(20)],
        containment_delta: vec![delta(20)],
        reactions: Vec::new(),
        scheduler_insertions: Vec::new(),
        transitions: no_transitions(),
        resolutions: vec![
            NormalizedDeliveryResolution::NewCommand { delivery: 0, attempt: 0 },
            NormalizedDeliveryResolution::NewCollision { delivery: 1, attempt: 1 },
            NormalizedDeliveryResolution::NewCollision { delivery: 2, attempt: 1 },
            NormalizedDeliveryResolution::PostCommitConsumed { delivery: 0 },
        ],
    }
}

fn invalid() -> Result<(), AuthorityRecordSealError> {
    Err(AuthorityRecordSealError::InvalidNormalizedGraph)
}

#[test]
fn complete_moment_graph_is_accepted() {
    assert_eq!(verify_normalized_moment(&complete_batch()), Ok(()));
}

#[test]
fn moment_graph_accepts_resolutions_in_any_order() {
    let mut batch = complete_batch();
    batch.resolutions.reverse();
    assert_eq!(verify_normalized_moment(&batch), Ok(()));
}

#[test]
fn moment_graph_requires_one_resolution_per_delivery() {
    let mut batch = complete_batch();
    batch.resolutions.pop();
    assert_eq!(verify_normalized_moment(&batch), invalid());

    let mut batch = complete_batch();
    batch.resolutions[3] = NormalizedDeliveryResolution::RetiredCommand { delivery: 0 };
    assert_eq!(verify_normalized_moment(&batch), invalid());

    let mut batch = complete_batch();
    batch.resolutions[3] = NormalizedDeliveryResolution::PostCommitConsumed { delivery: 1 };
    assert_eq!(verify_normalized_moment(&batch), invalid());
}

#[test]
fn moment_graph_requires_new_command_to_match_its_attempt() {
    let mut batch = complete_batch();
    batch.attempts[0].subject = NormalizedAttemptSubject::EvaluatedCommand(command(10, 101));
    assert_eq!(verify_normalized_moment(&batch), invalid());

    let mut batch = complete_batch();
    batch.resolutions[0] = NormalizedDeliveryResolution::NewCommand { delivery: 0, attempt: 2 };
    assert_eq!(verify_normalized_moment(&batch), invalid());
}

#[test]
fn moment_graph_requires_every_attempt_and_collision_content_to_be_consumed() {
    let mut batch = complete_batch();
    batch.resolutions[0] = NormalizedDeliveryResolution::RetainedCommand {
        delivery: 0,
        original_attempt: prior_attempt(3),
        original_outcome: CommandAttemptOutcome::Accepted,
    };
    assert_eq!(verify_normalized_moment(&batch), invalid());

    let mut batch = complete_batch();
    batch.resolutions[2] = NormalizedDeliveryResolution::RetiredCommand { delivery: 2 };
    assert_eq!(verify_normalized_moment(&batch), invalid());
}

#[test]
fn moment_graph_rejects_malformed_or_repeated_attempts() {
    let mut batch = complete_batch();
    batch.attempts[0].resolution = NormalizedAttemptResolution::CommandIdCollision;
    assert_eq!(verify_normalized_moment(&batch), invalid());

    let mut batch = complete_batch();
    batch.attempts[1].subject = NormalizedAttemptSubject::CommandIdCollision {
        source: CommandSource::new(1),
        command: CommandId::new(11),
        fingerprints: vec![CommandRequestFingerprint::new(300), CommandRequestFingerprint::new(200)],
    };
    assert_eq!(verify_normalized_moment(&batch), invalid());

    let mut batch = complete_batch();
    batch.attempts[0].subject = NormalizedAttemptSubject::EvaluatedCommand(command(11, 100));
    batch.command_deliveries[0].command = command(11, 100);
    assert_eq!(verify_normalized_moment(&batch), invalid());
}

#[test]
fn moment_graph_requires_commits_to_match_accepted_attempts() {
    let mut batch = complete_batch();
    batch.attempts[0].resolution = NormalizedAttemptResolution::Rejected(StableCommandRejection::Conflict);
    assert_eq!(verify_normalized_moment(&batch), invalid());

    let mut batch = complete_batch();
    batch.attempts[0].resolution = NormalizedAttemptResolution::Accepted { commit: 1 };
    assert_eq!(verify_normalized_moment(&batch), invalid());

    let mut batch = complete_batch();
    batch.containment_delta = vec![delta(21)];
    assert_eq!(verify_normalized_moment(&batch), invalid());
}

#[test]
fn moment_graph_requires_sorted_consumed_keys() {
    let mut batch = complete_batch();
    batch.consumed_keys = vec![3, 5, 4, 7];
    assert_eq!(verify_normalized_moment(&batch), invalid());

    let mut batch = complete_batch();
    batch.consumed_keys = vec![3, 4, 5, 8];
    assert_eq!(verify_normalized_moment(&batch), invalid());
}

#[test]
fn materialized_moment_derives_local_record_identities() {
    let record = AuthorityRecordId::new(9);
    let published = materialize_moment(record, complete_batch());
    let first_commit = CommitRecordId::derive(record, 0);
    let first = AttemptRecordId::derive(record, 0);
    let second = AttemptRecordId::derive(record, 1);
    assert_eq!(first, AttemptRecordId { record, index: 0 });
    assert_eq!(published.commits.len(), 1);
    assert_eq!(published.commits[0].id, first_commit);
    assert_eq!(published.commits[0].delta, delta(20));
    assert_eq!(published.attempts.len(), 2);
    assert_eq!(published.attempts[0].id, first);
    assert_eq!(
        published.attempts[0].resolution,
        RecordedCommandResolution::Accepted { commit: first_commit }
    );
    assert_eq!(published.attempts[1].id, second);
    assert_eq!(published.attempts[1].resolution, RecordedCommandResolution::CommandIdCollision);
    match &published.attempts[1].subject {
        NormalizedAttemptSubject::CommandIdCollision { fingerprints, .. } => assert_eq!(
            fingerprints,
            &vec![CommandRequestFingerprint::new(200), CommandRequestFingerprint::new(300)]
        ),
        _ => panic!("collision subject must be kept"),
    }
    assert_eq!(
        published.resolutions,
        vec![
            DeliveryResolutionRecord::NewCommand { delivery: 0, attempt: first },
            DeliveryResolutionRecord::NewCollision { delivery: 1, attempt: second },
            DeliveryResolutionRecord::NewCollision { delivery: 2, attempt: second },
            DeliveryResolutionRecord::PostCommitConsumed { delivery: 0 },
        ]
    );
    assert_eq!(published.consumed_keys, vec![3, 4, 5, 7]);
    assert_eq!(published.containment_delta, vec![delta(20)]);
    assert_eq!(published.moment, SimMoment::new(4, 0));
    assert_eq!(published.resulting_frontier, 8);
}

#[test]
fn materialized_moment_names_reactions_in_post_commit_dispatches() {
    let record = AuthorityRecordId::new(11);
    let mut batch = complete_batch();
    batch.reactions = vec![500, 501];
    let opportunity = ActionOpportunityId::new(6);
    batch.scheduler_insertions = vec![
        NormalizedSchedulerInsertion::PostCommit {
            scheduler_key: 40,
            reaction: 1,
            dispatch: PreparedPostCommitDispatch { content: 77 },
        },
        NormalizedSchedulerInsertion::ActionCommand {
            scheduler_key: 41,
            opportunity,
            effective: SimMoment::new(5, 0),
            command: command(12, 400),
        },
        NormalizedSchedulerInsertion::Lifecycle { scheduler_key: 42, work: 9 },
        NormalizedSchedulerInsertion::PostCommit {
            scheduler_key: 43,
            reaction: 0,
            dispatch: PreparedPostCommitDispatch { content: 78 },
        },
    ];
    let published = materialize_moment(record, batch);
    assert_eq!(
        published.reactions,
        vec![
            ReactionEnvelopeRecord { id: ReactionEnvelopeId::derive(record, 0), reaction: 500 },
            ReactionEnvelopeRecord { id: ReactionEnvelopeId::derive(record, 1), reaction: 501 },
        ]
    );
    assert_eq!(
        published.scheduler_insertions,
        vec![
            SchedulerInsertionRecord {
                scheduler_key: 40,
                work: ScheduledWork::PostCommit(PostCommitDispatch {
                    reaction: ReactionEnvelopeId::derive(record, 1),
                    content: 77,
                }),
            },
            SchedulerInsertionRecord {
                scheduler_key: 41,
                work: ScheduledWork::Command {
                    opportunity,
                    effective: SimMoment::new(5, 0),
                    command: command(12, 400),
                },
            },
            SchedulerInsertionRecord { scheduler_key: 42, work: ScheduledWork::Lifecycle(9) },
            SchedulerInsertionRecord {
                scheduler_key: 43,
                work: ScheduledWork::PostCommit(PostCommitDispatch {
                    reaction: ReactionEnvelopeId::derive(record, 0),
                    content: 78,
                }),
            },
        ]
    );
}

#[test]
fn materialized_moment_carries_transition_records_unchanged() {
    let mut batch = complete_batch();
    batch.transitions.intent_transitions = vec![3, 1, 2];
    batch.transitions.resolution_evidence = vec![8];
    batch.transitions.lifecycle_control_mutations = vec![LifecycleControlMutationRecord {
        actor: ActorId::new(2),
        role: LifecycleRole::Appraisal,
        requested: vec![LifecycleCause::Evidence(EvidenceDeliveryId::new(4))],
        completed: None,
    }];
    let published = materialize_moment(AuthorityRecordId::new(12), batch);
    assert_eq!(published.transitions.intent_transitions, vec![3, 1, 2]);
    assert_eq!(published.transitions.resolution_evidence, vec![8]);
    assert_eq!(published.transitions.lifecycle_control_mutations.len(), 1);
    assert_eq!(
        published.transitions.lifecycle_control_mutations[0].requested,
        vec![LifecycleCause::Evidence(EvidenceDeliveryId::new(4))]
    );
    assert!(published.transitions.activity_starts.is_empty());
}

#[test]
fn materialized_moment_keeps_retained_resolutions() {
    let mut batch = complete_batch();
    batch.resolutions[3] = NormalizedDeliveryResolution::PostCommitConsumed { delivery: 0 };
    batch.resolutions.push(NormalizedDeliveryResolution::RetainedCollision {
        delivery: 3,
        original_attempt: prior_attempt(12),
    });
    let published = materialize_moment(AuthorityRecordId::new(5), batch);
    assert_eq!(
        published.resolutions[4],
        DeliveryResolutionRecord::RetainedCollision { delivery: 3, original_attempt: prior_attempt(12) }
    );
}
