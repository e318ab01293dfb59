//! The moment batch of an authority record: the check that its delivery graph
//! is complete before it is sealed, and its materialization under the
//! identity of the record that publishes it.

use vstd::prelude::*;

use crate::authority::seal::{AuthorityRecordSealError, is_strictly_sorted, mark_once, mark_present};
use crate::authority::transition::ContainmentTransferDelta;
use crate::control::command_ledger::strictly_increasing;
use crate::authority::lifecycle_mutation::LifecycleControlMutationRecord;
use crate::ids::{
    ActionOpportunityId, AttemptRecordId, AuthorityRecordId, CommandId, CommandRequestFingerprint,
    CommandSource, CommitRecordId, ReactionEnvelopeId,
};
use crate::kernel::{CommandAttemptOutcome, CommandEnvelope, SimMoment, StableCommandRejection};

verus! {

/// One consumed command delivery: the scheduler key it was queued under and
/// the command it carried.
#[derive(Clone, Copy, Debug, PartialEq, Eq, Structural)]
pub struct CommandDeliveryRecord {
    pub scheduler_key: u64,
    pub command: CommandEnvelope,
}

/// What one attempt of a moment is about.
#[derive(Clone, Debug)]
pub enum NormalizedAttemptSubject {
    /// A command that was evaluated on its own.
    EvaluatedCommand(CommandEnvelope),
    /// Several distinct commands that reused one command ID in one moment;
    /// `fingerprints` lists their contents in strictly increasing order.
    CommandIdCollision {
        source: CommandSource,
        command: CommandId,
        fingerprints: Vec<CommandRequestFingerprint>,
    },
}

/// Mathematical form of an attempt subject.
pub enum AttemptSubjectView {
    EvaluatedCommand(CommandEnvelope),
    CommandIdCollision {
        source: CommandSource,
        command: CommandId,
        fingerprints: Seq<CommandRequestFingerprint>,
    },
}

impl View for NormalizedAttemptSubject {
    type V = AttemptSubjectView;

    open spec fn view(&self) -> AttemptSubjectView {
        match self {
            NormalizedAttemptSubject::EvaluatedCommand(c) => AttemptSubjectView::EvaluatedCommand(*c),
            NormalizedAttemptSubject::CommandIdCollision { source, command, fingerprints } => {
                AttemptSubjectView::CommandIdCollision {
                    source: *source,
                    command: *command,
                    fingerprints: fingerprints@,
                }
            },
        }
    }
}

/// How one attempt of a moment was resolved; an accepted attempt names the
/// position of its commit in the same batch.
#[derive(Clone, Copy, Debug, PartialEq, Eq, Structural)]
pub enum NormalizedAttemptResolution {
    Accepted { commit: u32 },
    Rejected(StableCommandRejection),
    CommandIdCollision,
}

/// One attempt of a moment batch, before it has a record identity.
#[derive(Clone, Debug)]
pub struct NormalizedAttemptRecord {
    pub subject: NormalizedAttemptSubject,
    pub resolution: NormalizedAttemptResolution,
}

/// Mathematical form of an attempt.
pub struct NormalizedAttemptView {
    pub subject: AttemptSubjectView,
    pub resolution: NormalizedAttemptResolution,
}

impl View for NormalizedAttemptRecord {
    type V = NormalizedAttemptView;

    open spec fn view(&self) -> NormalizedAttemptView {
        NormalizedAttemptView { subject: self.subject@, resolution: self.resolution }
    }
}

/// How one consumed delivery of a moment was resolved. `delivery` is the
/// position of the delivery in the list of its kind; `attempt` the position
/// of a new attempt in the same batch.
#[derive(Clone, Copy, Debug, PartialEq, Eq, Structural)]
pub enum NormalizedDeliveryResolution {
    NewCommand { delivery: u32, attempt: u32 },
    RetainedCommand {
        delivery: u32,
        original_attempt: AttemptRecordId,
        original_outcome: CommandAttemptOutcome,
    },
    CommandIdReuseMismatch { delivery: u32, original_attempt: AttemptRecordId },
    NewCollision { delivery: u32, attempt: u32 },
    RetainedCollision { delivery: u32, original_attempt: AttemptRecordId },
    RetiredCommand { delivery: u32 },
    PostCommitConsumed { delivery: u32 },
    ActionReadyConsumed { delivery: u32 },
    ActionEvaluationConsumed { delivery: u32 },
    AttemptResolvedConsumed { delivery: u32 },
    LifecycleConsumed { delivery: u32 },
    RelocationProcessCompleted { delivery: u32 },
    ObsoleteRelocationWake { delivery: u32 },
}

/// The delivery lists of a moment batch.
#[derive(Clone, Copy, Debug, PartialEq, Eq, Structural)]
pub enum DeliveryKind {
    Command,
    PostCommit,
    Lifecycle,
    ActionReady,
    ActionEvaluation,
    AttemptResolved,
    RelocationProcess,
}

/// The list a resolution consumes from.
pub open spec fn delivery_kind(r: NormalizedDeliveryResolution) -> DeliveryKind {
    match r {
        NormalizedDeliveryResolution::NewCommand { .. }
        | NormalizedDeliveryResolution::RetainedCommand { .. }
        | NormalizedDeliveryResolution::CommandIdReuseMismatch { .. }
        | NormalizedDeliveryResolution::NewCollision { .. }
        | NormalizedDeliveryResolution::RetainedCollision { .. }
        | NormalizedDeliveryResolution::RetiredCommand { .. } => DeliveryKind::Command,
        NormalizedDeliveryResolution::PostCommitConsumed { .. } => DeliveryKind::PostCommit,
        NormalizedDeliveryResolution::ActionReadyConsumed { .. } => DeliveryKind::ActionReady,
        NormalizedDeliveryResolution::ActionEvaluationConsumed { .. } => DeliveryKind::ActionEvaluation,
        NormalizedDeliveryResolution::AttemptResolvedConsumed { .. } => DeliveryKind::AttemptResolved,
        NormalizedDeliveryResolution::LifecycleConsumed { .. } => DeliveryKind::Lifecycle,
        NormalizedDeliveryResolution::RelocationProcessCompleted { .. }
        | NormalizedDeliveryResolution::ObsoleteRelocationWake { .. } => DeliveryKind::RelocationProcess,
    }
}

/// The position of the delivery a resolution consumes, in the list of its kind.
pub open spec fn delivery_index(r: NormalizedDeliveryResolution) -> u32 {
    match r {
        NormalizedDeliveryResolution::NewCommand { delivery, .. } => delivery,
        NormalizedDeliveryResolution::RetainedCommand { delivery, .. } => delivery,
        NormalizedDeliveryResolution::CommandIdReuseMismatch { delivery, .. } => delivery,
        NormalizedDeliveryResolution::NewCollision { delivery, .. } => delivery,
        NormalizedDeliveryResolution::RetainedCollision { delivery, .. } => delivery,
        NormalizedDeliveryResolution::RetiredCommand { delivery } => delivery,
        NormalizedDeliveryResolution::PostCommitConsumed { delivery } => delivery,
        NormalizedDeliveryResolution::ActionReadyConsumed { delivery } => delivery,
        NormalizedDeliveryResolution::ActionEvaluationConsumed { delivery } => delivery,
        NormalizedDeliveryResolution::AttemptResolvedConsumed { delivery } => delivery,
        NormalizedDeliveryResolution::LifecycleConsumed { delivery } => delivery,
        NormalizedDeliveryResolution::RelocationProcessCompleted { delivery } => delivery,
        NormalizedDeliveryResolution::ObsoleteRelocationWake { delivery } => delivery,
    }
}

/// Whether a resolution opens the new attempt at position `a`.
pub open spec fn opens_attempt(r: NormalizedDeliveryResolution, a: int) -> bool {
    match r {
        NormalizedDeliveryResolution::NewCommand { attempt, .. } => attempt == a,
        NormalizedDeliveryResolution::NewCollision { attempt, .. } => attempt == a,
        _ => false,
    }
}

/// The command ID an attempt subject is about, by source.
pub open spec fn attempt_identity(s: AttemptSubjectView) -> (u64, u64) {
    match s {
        AttemptSubjectView::EvaluatedCommand(c) => (c.source.0, c.id.0),
        AttemptSubjectView::CommandIdCollision { source, command, .. } => (source.0, command.0),
    }
}

/// An evaluated command is accepted or rejected; a collision is resolved as a
/// collision of at least two contents, listed in strictly increasing order.
pub open spec fn attempt_well_formed(a: NormalizedAttemptView) -> bool {
    match a.subject {
        AttemptSubjectView::EvaluatedCommand(_) => !(a.resolution is CommandIdCollision),
        AttemptSubjectView::CommandIdCollision { fingerprints, .. } => {
            &&& a.resolution is CommandIdCollision
            &&& fingerprints.len() >= 2
            &&& strictly_increasing(fingerprints)
        },
    }
}

/// Whether a collision subject names the source and ID of `c` and lists its content.
pub open spec fn collision_names(s: AttemptSubjectView, c: CommandEnvelope) -> bool {
    match s {
        AttemptSubjectView::CommandIdCollision { source, command, fingerprints } => {
            &&& source == c.source
            &&& command == c.id
            &&& fingerprints.contains(c.fingerprint)
        },
        _ => false,
    }
}

/// The contents a collision subject lists; none for an evaluated command.
pub open spec fn subject_fingerprints(s: AttemptSubjectView) -> Seq<CommandRequestFingerprint> {
    match s {
        AttemptSubjectView::CommandIdCollision { fingerprints, .. } => fingerprints,
        _ => Seq::empty(),
    }
}

/// An accepted resolution names a commit position below `n`.
pub open spec fn commit_within(r: NormalizedAttemptResolution, n: nat) -> bool {
    match r {
        NormalizedAttemptResolution::Accepted { commit } => commit < n,
        _ => true,
    }
}

/// Whether a resolution accepts with the commit at position `c`.
pub open spec fn accepts_commit(r: NormalizedAttemptResolution, c: int) -> bool {
    match r {
        NormalizedAttemptResolution::Accepted { commit } => commit == c,
        _ => false,
    }
}

/// Whether the scheduler keys are in non-decreasing order.
pub open spec fn keys_sorted(s: Seq<u64>) -> bool {
    forall|i: int, j: int| 0 <= i <= j < s.len() ==> s[i] <= s[j]
}

/// The transition and evidence records of a moment, which publishing carries
/// through unchanged. Each record whose type belongs to another component
/// (opportunities, invocations, evidence, appraisals, intents, activities,
/// relocation) is held by the handle under which that component keeps it.
pub struct MomentTransitionRecords {
    pub action_opportunity_transitions: Vec<u64>,
    pub action_evaluation_invocation_openings: Vec<u64>,
    pub action_evaluation_invocation_transitions: Vec<u64>,
    pub action_opportunity_openings: Vec<u64>,
    pub evidence_routing: Vec<u64>,
    pub evidence_assimilations: Vec<u64>,
    pub appraisal_transitions: Vec<u64>,
    pub intent_adoptions: Vec<u64>,
    pub intent_transitions: Vec<u64>,
    pub activity_starts: Vec<u64>,
    pub activity_transitions: Vec<u64>,
    pub activity_terminal_transitions: Vec<u64>,
    pub lifecycle_control_mutations: Vec<LifecycleControlMutationRecord>,
    pub relocation_attempts: Vec<u64>,
    pub relocation_process_transitions: Vec<u64>,
    pub resolution_evidence: Vec<u64>,
}

/// A post-commit dispatch before the reaction it serves has an identity;
/// `content` is what the dispatch delivers.
#[derive(Clone, Copy, Debug, PartialEq, Eq, Structural)]
pub struct PreparedPostCommitDispatch {
    pub content: u64,
}

/// A post-commit dispatch naming the reaction it serves.
#[derive(Clone, Copy, Debug, PartialEq, Eq, Structural)]
pub struct PostCommitDispatch {
    pub reaction: ReactionEnvelopeId,
    pub content: u64,
}

/// Work a moment schedules, before its reactions have identities. A
/// post-commit insertion names its reaction by position in the batch; the
/// other kinds carry the handle of the work they schedule.
#[derive(Clone, Copy, Debug, PartialEq, Eq, Structural)]
pub enum NormalizedSchedulerInsertion {
    PostCommit { scheduler_key: u64, reaction: u32, dispatch: PreparedPostCommitDispatch },
    ActionCommand {
        scheduler_key: u64,
        opportunity: ActionOpportunityId,
        effective: SimMoment,
        command: CommandEnvelope,
    },
    AttemptResolved { scheduler_key: u64, resolved: u64 },
    RelocationProcess { scheduler_key: u64, wake: u64 },
    Lifecycle { scheduler_key: u64, work: u64 },
    ActionReady { scheduler_key: u64, ready: u64 },
    ActionEvaluation { scheduler_key: u64, work: u64 },
}

/// Work scheduled by a published moment.
#[derive(Clone, Copy, Debug, PartialEq, Eq, Structural)]
pub enum ScheduledWork {
    PostCommit(PostCommitDispatch),
    Command { opportunity: ActionOpportunityId, effective: SimMoment, command: CommandEnvelope },
    AttemptResolved(u64),
    Process(u64),
    Lifecycle(u64),
    ActionReady(u64),
    ActionEvaluation(u64),
}

/// One scheduler insertion of a published moment.
#[derive(Clone, Copy, Debug, PartialEq, Eq, Structural)]
pub struct SchedulerInsertionRecord {
    pub scheduler_key: u64,
    pub work: ScheduledWork,
}

/// Mathematical form of a moment batch.
pub struct NormalizedMomentView {

    pub moment: SimMoment,
    pub resulting_frontier: u64,
    pub consumed_keys: Seq<u64>,
    pub command_deliveries: Seq<CommandDeliveryRecord>,
    pub post_commit_deliveries: Seq<u64>,
    pub lifecycle_deliveries: Seq<u64>,
    pub action_ready_deliveries: Seq<u64>,
    pub action_evaluation_deliveries: Seq<u64>,
    pub attempt_resolved_deliveries: Seq<u64>,
    pub relocation_process_deliveries: Seq<u64>,
    pub attempts: Seq<NormalizedAttemptView>,
    pub commits: Seq<ContainmentTransferDelta>,
    pub containment_delta: Seq<ContainmentTransferDelta>,
    pub reactions: Seq<u64>,
    pub scheduler_insertions: Seq<NormalizedSchedulerInsertion>,
    pub resolutions: Seq<NormalizedDeliveryResolution>,
    pub transitions: MomentTransitionRecords,
}

impl NormalizedMomentView {
    /// The number of deliveries of kind `k`.
    pub open spec fn delivery_count(self, k: DeliveryKind) -> int {
        match k {
            DeliveryKind::Command => self.command_deliveries.len() as int,
            DeliveryKind::PostCommit => self.post_commit_deliveries.len() as int,
            DeliveryKind::Lifecycle => self.lifecycle_deliveries.len() as int,
            DeliveryKind::ActionReady => self.action_ready_deliveries.len() as int,
            DeliveryKind::ActionEvaluation => self.action_evaluation_deliveries.len() as int,
            DeliveryKind::AttemptResolved => self.attempt_resolved_deliveries.len() as int,
            DeliveryKind::RelocationProcess => self.relocation_process_deliveries.len() as int,
        }
    }

    /// The number of deliveries of every kind together.
    pub open spec fn total_deliveries(self) -> int {
        (self.command_deliveries.len() + self.post_commit_deliveries.len()
            + self.lifecycle_deliveries.len() + self.action_ready_deliveries.len()
            + self.action_evaluation_deliveries.len() + self.attempt_resolved_deliveries.len()
            + self.relocation_process_deliveries.len()) as int
    }

    /// The scheduler keys of all deliveries: command, lifecycle, post-commit,
    /// action-ready, action-evaluation, attempt-resolved, then relocation.
    pub open spec fn delivery_keys(self) -> Seq<u64> {
        self.command_deliveries.map_values(|d: CommandDeliveryRecord| d.scheduler_key)
            + self.lifecycle_deliveries + self.post_commit_deliveries
            + self.action_ready_deliveries + self.action_evaluation_deliveries
            + self.attempt_resolved_deliveries + self.relocation_process_deliveries
    }

    /// A resolution consumes a delivery that exists; a new command opens an
    /// attempt about exactly that command, a new collision an attempt whose
    /// collision names it.
    pub open spec fn resolution_sound(self, r: NormalizedDeliveryResolution) -> bool {
        &&& delivery_index(r) < self.delivery_count(delivery_kind(r))
        &&& match r {
            NormalizedDeliveryResolution::NewCommand { delivery, attempt } => {
                &&& attempt < self.attempts.len()
                &&& self.attempts[attempt as int].subject == AttemptSubjectView::EvaluatedCommand(
                    self.command_deliveries[delivery as int].command,
                )
            },
            NormalizedDeliveryResolution::NewCollision { delivery, attempt } => {
                &&& attempt < self.attempts.len()
                &&& collision_names(
                    self.attempts[attempt as int].subject,
                    self.command_deliveries[delivery as int].command,
                )
            },
            _ => true,
        }
    }

    /// Some resolution consumes delivery `d` of kind `k`.
    pub open spec fn covers(self, k: DeliveryKind, d: int) -> bool {
        exists|i: int|
            0 <= i < self.resolutions.len() && delivery_kind(#[trigger] self.resolutions[i]) == k
                && delivery_index(self.resolutions[i]) == d
    }

    /// The resolutions of the attempts, in order.
    pub open spec fn attempt_resolutions(self) -> Seq<NormalizedAttemptResolution> {
        self.attempts.map_values(|a: NormalizedAttemptView| a.resolution)
    }

    /// Some resolution opens the attempt at position `a`.
    pub open spec fn attempt_opened(self, a: int) -> bool {
        exists|i: int| 0 <= i < self.resolutions.len() && opens_attempt(#[trigger] self.resolutions[i], a)
    }

    /// Some attempt is accepted with the commit at position `c`.
    pub open spec fn commit_claimed(self, c: int) -> bool {
        exists|a: int| 0 <= a < self.attempts.len() && accepts_commit(#[trigger] self.attempts[a].resolution, c)
    }

    /// Some new collision of attempt `a` consumes a delivery with content `f`.
    pub open spec fn collision_covers(self, a: int, f: CommandRequestFingerprint) -> bool {
        exists|i: int|
            0 <= i < self.resolutions.len() && self.collides_on(#[trigger] self.resolutions[i], a, f)
    }

    /// Whether `r` is a new collision of attempt `a` consuming a delivery with content `f`.
    pub open spec fn collides_on(self, r: NormalizedDeliveryResolution, a: int, f: CommandRequestFingerprint) -> bool {
        match r {
            NormalizedDeliveryResolution::NewCollision { delivery, attempt } => {
                &&& attempt == a
                &&& self.command_deliveries[delivery as int].command.fingerprint == f
            },
            _ => false,
        }
    }

    /// The delivery graph of the batch is complete: every delivery is
    /// consumed by exactly one sound resolution, attempts are well formed,
    /// distinct and all opened, each collision content is consumed, commits
    /// and accepted attempts correspond, the containment delta is the commit
    /// list, and the consumed keys are the delivery keys in sorted order.
    pub open spec fn graph_complete(self) -> bool {
        &&& self.resolutions.len() == self.total_deliveries()
        &&& forall|a: int| 0 <= a < self.attempts.len() ==> attempt_well_formed(#[trigger] self.attempts[a])
        &&& forall|a: int, b: int|
            0 <= a < b < self.attempts.len() ==> attempt_identity(#[trigger] self.attempts[a].subject)
                != attempt_identity(#[trigger] self.attempts[b].subject)
        &&& forall|i: int| 0 <= i < self.resolutions.len() ==> self.resolution_sound(#[trigger] self.resolutions[i])
        &&& forall|i: int, j: int|
            0 <= i < j < self.resolutions.len() ==> !(delivery_kind(#[trigger] self.resolutions[i])
                == delivery_kind(#[trigger] self.resolutions[j]) && delivery_index(self.resolutions[i])
                == delivery_index(self.resolutions[j]))
        &&& forall|k: DeliveryKind, d: int| 0 <= d < self.delivery_count(k) ==> #[trigger] self.covers(k, d)
        &&& forall|a: int| 0 <= a < self.attempts.len() ==> #[trigger] self.attempt_opened(a)
        &&& forall|a: int, j: int|
            0 <= a < self.attempts.len() && 0 <= j < subject_fingerprints(self.attempts[a].subject).len()
                ==> #[trigger] self.collision_covers(a, subject_fingerprints(self.attempts[a].subject)[j])
        &&& forall|a: int|
            0 <= a < self.attempts.len() ==> commit_within(#[trigger] self.attempts[a].resolution, self.commits.len())
        &&& forall|c: int| 0 <= c < self.commits.len() ==> #[trigger] self.commit_claimed(c)
        &&& self.containment_delta == self.commits
        &&& keys_sorted(self.consumed_keys)
        &&& self.consumed_keys.to_multiset() == self.delivery_keys().to_multiset()
    }
}

/// The resolved moment of an authority record, before it has a record identity.
pub struct NormalizedMomentBatch {
    pub moment: SimMoment,
    pub resulting_frontier: u64,
    pub consumed_keys: Vec<u64>,
    pub command_deliveries: Vec<CommandDeliveryRecord>,
    pub post_commit_deliveries: Vec<u64>,
    pub lifecycle_deliveries: Vec<u64>,
    pub action_ready_deliveries: Vec<u64>,
    pub action_evaluation_deliveries: Vec<u64>,
    pub attempt_resolved_deliveries: Vec<u64>,
    pub relocation_process_deliveries: Vec<u64>,
    pub attempts: Vec<NormalizedAttemptRecord>,
    pub commits: Vec<ContainmentTransferDelta>,
    pub containment_delta: Vec<ContainmentTransferDelta>,
    pub reactions: Vec<u64>,
    pub scheduler_insertions: Vec<NormalizedSchedulerInsertion>,
    pub resolutions: Vec<NormalizedDeliveryResolution>,
    pub transitions: MomentTransitionRecords,
}

impl View for NormalizedMomentBatch {
    type V = NormalizedMomentView;

    open spec fn view(&self) -> NormalizedMomentView {
        NormalizedMomentView {
            moment: self.moment,
            resulting_frontier: self.resulting_frontier,
            consumed_keys: self.consumed_keys@,
            command_deliveries: self.command_deliveries@,
            post_commit_deliveries: self.post_commit_deliveries@,
            lifecycle_deliveries: self.lifecycle_deliveries@,
            action_ready_deliveries: self.action_ready_deliveries@,
            action_evaluation_deliveries: self.action_evaluation_deliveries@,
            attempt_resolved_deliveries: self.attempt_resolved_deliveries@,
            relocation_process_deliveries: self.relocation_process_deliveries@,
            attempts: self.attempts@.map_values(|a: NormalizedAttemptRecord| a@),
            commits: self.commits@,
            containment_delta: self.containment_delta@,
            reactions: self.reactions@,
            scheduler_insertions: self.scheduler_insertions@,
            resolutions: self.resolutions@,
            transitions: self.transitions,
        }
    }
}

/// Whether the delivery graph of a moment batch is complete.
pub open spec fn normalized_graph_complete(b: NormalizedMomentView) -> bool {
    b.graph_complete()
}

/// Appends the keys of `src` to `dst`.
fn append_keys(dst: &mut Vec<u64>, src: &Vec<u64>)
    ensures
        final(dst)@ == old(dst)@ + src@,
{
    let ghost start = dst@;
    let mut i: usize = 0;
    while i < src.len()
        invariant
            i <= src@.len(),
            dst@ == start + src@.subrange(0, i as int),
        decreases src@.len() - i,
    {
        dst.push(src[i]);
        i = i + 1;
        proof {
            assert(dst@ =~= start + src@.subrange(0, i as int));
        }
    }
    proof {
        assert(src@.subrange(0, i as int) =~= src@);
    }
}

/// The scheduler keys of the command deliveries, in order.
fn command_keys(deliveries: &Vec<CommandDeliveryRecord>) -> (r: Vec<u64>)
    ensures
        r@ == deliveries@.map_values(|d: CommandDeliveryRecord| d.scheduler_key),
{
    let mut r: Vec<u64> = Vec::new();
    let mut i: usize = 0;
    while i < deliveries.len()
        invariant
            i <= deliveries@.len(),
            r@ == deliveries@.subrange(0, i as int).map_values(|d: CommandDeliveryRecord| d.scheduler_key),
        decreases deliveries@.len() - i,
    {
        r.push(deliveries[i].scheduler_key);
        i = i + 1;
        proof {
            assert(r@ =~= deliveries@.subrange(0, i as int).map_values(
                |d: CommandDeliveryRecord| d.scheduler_key,
            ));
        }
    }
    proof {
        assert(deliveries@.subrange(0, i as int) =~= deliveries@);
    }
    r
}

/// The keys of `keys` in non-decreasing order.
fn sort_keys(keys: &Vec<u64>) -> (r: Vec<u64>)
    ensures
        keys_sorted(r@),
        r@.to_multiset() == keys@.to_multiset(),
{
    let mut r: Vec<u64> = Vec::new();
    let mut i: usize = 0;
    proof {
        assert(keys@.subrange(0, 0) =~= Seq::<u64>::empty());
        assert(r@ =~= Seq::<u64>::empty());
    }
    while i < keys.len()
        invariant
            i <= keys@.len(),
            keys_sorted(r@),
            r@.to_multiset() == keys@.subrange(0, i as int).to_multiset(),
        decreases keys@.len() - i,
    {
        let key = keys[i];
        let mut p: usize = 0;
        while p < r.len() && r[p] <= key
            invariant
                p <= r@.len(),
                forall|q: int| 0 <= q < p ==> r@[q] <= key,
            decreases r@.len() - p,
        {
            p = p + 1;
        }
        let ghost before = r@;
        r.insert(p, key);
        proof {
            assert forall|a: int, b: int| 0 <= a <= b < r@.len() implies r@[a] <= r@[b] by {
                if a < p as int && b > p as int {
                    assert(before[a] <= before[b - 1]);
                } else if a > p as int {
                    assert(before[a - 1] <= before[b - 1]);
                } else if b < p as int {
                    assert(before[a] <= before[b]);
                } else if a == p as int && b > p as int {
                    assert(p < before.len() && before[p as int] > key);
                    assert(before[p as int] <= before[b - 1]);
                }
            }
            assert(keys@.subrange(0, i + 1) =~= keys@.subrange(0, i as int).push(key));
            vstd::seq_lib::to_multiset_insert(before, p as int, key);
            vstd::seq_lib::to_multiset_build(keys@.subrange(0, i as int), key);
        }
        i = i + 1;
    }
    proof {
        assert(keys@.subrange(0, i as int) =~= keys@);
    }
    r
}

/// Two sequences of keys in non-decreasing order that hold the same keys are equal.
pub proof fn lemma_sorted_keys_unique(a: Seq<u64>, b: Seq<u64>)
    requires
        keys_sorted(a),
        keys_sorted(b),
        a.to_multiset() == b.to_multiset(),
    ensures
        a == b,
    decreases a.len(),
{
    broadcast use vstd::seq_lib::group_to_multiset_ensures;

    assert(a.len() == a.to_multiset().len());
    assert(b.len() == b.to_multiset().len());
    if a.len() > 0 {
        let n = a.len() - 1;
        assert(a.to_multiset().count(b[n]) > 0);
        assert(a.contains(b[n]));
        assert(b.to_multiset().count(a[n]) > 0);
        assert(b.contains(a[n]));
        assert(a[n] == b[n]);
        assert(a.remove(n) =~= a.drop_last());
        assert(b.remove(n) =~= b.drop_last());
        lemma_sorted_keys_unique(a.drop_last(), b.drop_last());
        assert(a =~= a.drop_last().push(a[n]));
        assert(b =~= b.drop_last().push(b[n]));
    }
}

impl NormalizedMomentView {
    /// No two resolutions consume the same delivery of kind `k`.
    pub open spec fn kind_consumed_at_most_once(self, k: DeliveryKind) -> bool {
        forall|i: int, j: int|
            0 <= i < j < self.resolutions.len() && delivery_kind(#[trigger] self.resolutions[i]) == k
                && delivery_kind(#[trigger] self.resolutions[j]) == k ==> delivery_index(self.resolutions[i])
                != delivery_index(self.resolutions[j])
    }

    /// Every delivery of kind `k` is consumed.
    pub open spec fn kind_covered(self, k: DeliveryKind) -> bool {
        forall|d: int| 0 <= d < self.delivery_count(k) ==> #[trigger] self.covers(k, d)
    }

    /// Every resolution consumes a delivery that exists.
    pub open spec fn resolutions_in_range(self) -> bool {
        forall|i: int|
            0 <= i < self.resolutions.len() ==> delivery_index(#[trigger] self.resolutions[i])
                < self.delivery_count(delivery_kind(self.resolutions[i]))
    }
}

/// The list and position a resolution consumes.
fn resolution_slot(r: &NormalizedDeliveryResolution) -> (s: (DeliveryKind, u32))
    ensures
        s.0 == delivery_kind(*r),
        s.1 == delivery_index(*r),
{
    match *r {
        NormalizedDeliveryResolution::NewCommand { delivery, .. } => (DeliveryKind::Command, delivery),
        NormalizedDeliveryResolution::RetainedCommand { delivery, .. } => (DeliveryKind::Command, delivery),
        NormalizedDeliveryResolution::CommandIdReuseMismatch { delivery, .. } => (DeliveryKind::Command, delivery),
        NormalizedDeliveryResolution::NewCollision { delivery, .. } => (DeliveryKind::Command, delivery),
        NormalizedDeliveryResolution::RetainedCollision { delivery, .. } => (DeliveryKind::Command, delivery),
        NormalizedDeliveryResolution::RetiredCommand { delivery } => (DeliveryKind::Command, delivery),
        NormalizedDeliveryResolution::PostCommitConsumed { delivery } => (DeliveryKind::PostCommit, delivery),
        NormalizedDeliveryResolution::ActionReadyConsumed { delivery } => (DeliveryKind::ActionReady, delivery),
        NormalizedDeliveryResolution::ActionEvaluationConsumed { delivery } => {
            (DeliveryKind::ActionEvaluation, delivery)
        },
        NormalizedDeliveryResolution::AttemptResolvedConsumed { delivery } => {
            (DeliveryKind::AttemptResolved, delivery)
        },
        NormalizedDeliveryResolution::LifecycleConsumed { delivery } => (DeliveryKind::Lifecycle, delivery),
        NormalizedDeliveryResolution::RelocationProcessCompleted { delivery } => {
            (DeliveryKind::RelocationProcess, delivery)
        },
        NormalizedDeliveryResolution::ObsoleteRelocationWake { delivery } => {
            (DeliveryKind::RelocationProcess, delivery)
        },
    }
}

/// The number of deliveries of kind `k` in the batch.
fn delivery_count_of(batch: &NormalizedMomentBatch, k: DeliveryKind) -> (n: usize)
    ensures
        n == batch@.delivery_count(k),
{
    match k {
        DeliveryKind::Command => batch.command_deliveries.len(),
        DeliveryKind::PostCommit => batch.post_commit_deliveries.len(),
        DeliveryKind::Lifecycle => batch.lifecycle_deliveries.len(),
        DeliveryKind::ActionReady => batch.action_ready_deliveries.len(),
        DeliveryKind::ActionEvaluation => batch.action_evaluation_deliveries.len(),
        DeliveryKind::AttemptResolved => batch.attempt_resolved_deliveries.len(),
        DeliveryKind::RelocationProcess => batch.relocation_process_deliveries.len(),
    }
}

/// Whether there is exactly one resolution per delivery, by count.
fn resolution_count_matches(batch: &NormalizedMomentBatch) -> (r: bool)
    ensures
        r == (batch@.resolutions.len() == batch@.total_deliveries()),
{
    let total: u128 = batch.command_deliveries.len() as u128 + batch.post_commit_deliveries.len() as u128
        + batch.lifecycle_deliveries.len() as u128 + batch.action_ready_deliveries.len() as u128
        + batch.action_evaluation_deliveries.len() as u128
        + batch.attempt_resolved_deliveries.len() as u128
        + batch.relocation_process_deliveries.len() as u128;
    batch.resolutions.len() as u128 == total
}

/// The source and command ID an attempt is about.
fn subject_identity(s: &NormalizedAttemptSubject) -> (r: (u64, u64))
    ensures
        r == attempt_identity(s@),
{
    match s {
        NormalizedAttemptSubject::EvaluatedCommand(c) => (c.source.0, c.id.0),
        NormalizedAttemptSubject::CommandIdCollision { source, command, .. } => (source.0, command.0),
    }
}

/// Whether one attempt pairs its subject with a matching resolution.
fn attempt_shape_ok(a: &NormalizedAttemptRecord) -> (r: bool)
    ensures
        r == attempt_well_formed(a@),
{
    match &a.subject {
        NormalizedAttemptSubject::EvaluatedCommand(_) => match a.resolution {
            NormalizedAttemptResolution::CommandIdCollision => false,
            _ => true,
        },
        NormalizedAttemptSubject::CommandIdCollision { fingerprints, .. } => {
            let collision = match a.resolution {
                NormalizedAttemptResolution::CommandIdCollision => true,
                _ => false,
            };
            collision && fingerprints.len() >= 2 && is_strictly_sorted(fingerprints.as_slice())
        },
    }
}

/// Whether every attempt is well formed and no two are about the same command ID.
fn attempts_well_formed(batch: &NormalizedMomentBatch) -> (r: bool)
    ensures
        r == ((forall|a: int| 0 <= a < batch@.attempts.len() ==> attempt_well_formed(#[trigger] batch@.attempts[a]))
            && (forall|a: int, b: int|
            0 <= a < b < batch@.attempts.len() ==> attempt_identity(#[trigger] batch@.attempts[a].subject)
                != attempt_identity(#[trigger] batch@.attempts[b].subject))),
{
    let n = batch.attempts.len();
    let mut i: usize = 0;
    while i < n
        invariant
            i <= n,
            n == batch@.attempts.len(),
            forall|a: int| 0 <= a < i ==> attempt_well_formed(#[trigger] batch@.attempts[a]),
            forall|a: int, b: int|
                0 <= a < b < i ==> attempt_identity(#[trigger] batch@.attempts[a].subject)
                    != attempt_identity(#[trigger] batch@.attempts[b].subject),
        decreases n - i,
    {
        assert(batch@.attempts[i as int] == batch.attempts@[i as int]@);
        if !attempt_shape_ok(&batch.attempts[i]) {
            return false;
        }
        let id = subject_identity(&batch.attempts[i].subject);
        let mut j: usize = 0;
        while j < i
            invariant
                j <= i < n,
                n == batch@.attempts.len(),
                id == attempt_identity(batch@.attempts[i as int].subject),
                forall|a: int| 0 <= a < j ==> attempt_identity(#[trigger] batch@.attempts[a].subject) != id,
            decreases i - j,
        {
            assert(batch@.attempts[j as int] == batch.attempts@[j as int]@);
            let other = subject_identity(&batch.attempts[j].subject);
            if other.0 == id.0 && other.1 == id.1 {
                assert(attempt_identity(batch@.attempts[j as int].subject) == attempt_identity(
                    batch@.attempts[i as int].subject,
                ));
                return false;
            }
            j = j + 1;
        }
        i = i + 1;
    }
    true
}

/// Whether `fingerprints` lists `f`.
fn lists_fingerprint(fingerprints: &Vec<CommandRequestFingerprint>, f: CommandRequestFingerprint) -> (r: bool)
    ensures
        r == fingerprints@.contains(f),
{
    let mut i: usize = 0;
    while i < fingerprints.len()
        invariant
            i <= fingerprints@.len(),
            forall|j: int| 0 <= j < i ==> fingerprints@[j] != f,
        decreases fingerprints@.len() - i,
    {
        if fingerprints[i].0 == f.0 {
            assert(fingerprints@[i as int] == f);
            return true;
        }
        i = i + 1;
    }
    false
}

/// Whether one resolution is sound in the batch.
fn resolution_is_sound(batch: &NormalizedMomentBatch, r: NormalizedDeliveryResolution) -> (ok: bool)
    ensures
        ok == batch@.resolution_sound(r),
{
    let (kind, index) = resolution_slot(&r);
    if index as usize >= delivery_count_of(batch, kind) {
        return false;
    }
    match r {
        NormalizedDeliveryResolution::NewCommand { delivery, attempt } => {
            if attempt as usize >= batch.attempts.len() {
                return false;
            }
            assert(batch@.attempts[attempt as int] == batch.attempts@[attempt as int]@);
            let c = batch.command_deliveries[delivery as usize].command;
            match &batch.attempts[attempt as usize].subject {
                NormalizedAttemptSubject::EvaluatedCommand(e) => *e == c,
                _ => false,
            }
        },
        NormalizedDeliveryResolution::NewCollision { delivery, attempt } => {
            if attempt as usize >= batch.attempts.len() {
                return false;
            }
            assert(batch@.attempts[attempt as int] == batch.attempts@[attempt as int]@);
            let c = batch.command_deliveries[delivery as usize].command;
            match &batch.attempts[attempt as usize].subject {
                NormalizedAttemptSubject::CommandIdCollision { source, command, fingerprints } => {
                    source.0 == c.source.0 && command.0 == c.id.0 && lists_fingerprint(
                        fingerprints,
                        c.fingerprint,
                    )
                },
                _ => false,
            }
        },
        _ => true,
    }
}

/// Whether every resolution is sound in the batch.
fn resolutions_sound(batch: &NormalizedMomentBatch) -> (r: bool)
    ensures
        r == forall|i: int| 0 <= i < batch@.resolutions.len() ==> batch@.resolution_sound(#[trigger] batch@.resolutions[i]),
{
    let mut i: usize = 0;
    while i < batch.resolutions.len()
        invariant
            i <= batch@.resolutions.len(),
            forall|j: int| 0 <= j < i ==> batch@.resolution_sound(#[trigger] batch@.resolutions[j]),
        decreases batch@.resolutions.len() - i,
    {
        if !resolution_is_sound(batch, batch.resolutions[i]) {
            return false;
        }
        i = i + 1;
    }
    true
}

/// Whether every delivery of kind `k` is consumed by exactly one resolution.
fn kind_consumed_once(batch: &NormalizedMomentBatch, k: DeliveryKind) -> (r: bool)
    requires
        batch@.resolutions_in_range(),
    ensures
        r == (batch@.kind_consumed_at_most_once(k) && batch@.kind_covered(k)),
{
    let ghost b = batch@;
    let count = delivery_count_of(batch, k);
    let mut coverage: Vec<bool> = vec![false; count];
    let mut i: usize = 0;
    while i < batch.resolutions.len()
        invariant
            b == batch@,
            b.resolutions_in_range(),
            i <= b.resolutions.len(),
            count == b.delivery_count(k),
            coverage@.len() == count,
            forall|d: int|
                0 <= d < count ==> #[trigger] coverage@[d] == exists|j: int|
                    0 <= j < i && delivery_kind(#[trigger] b.resolutions[j]) == k && delivery_index(
                        b.resolutions[j],
                    ) == d,
            forall|j: int, l: int|
                0 <= j < l < i && delivery_kind(#[trigger] b.resolutions[j]) == k && delivery_kind(
                    #[trigger] b.resolutions[l],
                ) == k ==> delivery_index(b.resolutions[j]) != delivery_index(b.resolutions[l]),
        decreases b.resolutions.len() - i,
    {
        let (kind, index) = resolution_slot(&batch.resolutions[i]);
        if kind == k {
            assert(b.resolutions[i as int] == batch.resolutions@[i as int]);
            assert(index < count);
            let ghost before = coverage@;
            match mark_once(coverage.as_mut_slice(), index) {
                Ok(()) => {
                    assert forall|d: int|
                        0 <= d < count implies #[trigger] coverage@[d] == exists|j: int|
                            0 <= j < i + 1 && delivery_kind(#[trigger] b.resolutions[j]) == k
                                && delivery_index(b.resolutions[j]) == d by {
                        if d == index as int {
                            assert(delivery_kind(b.resolutions[i as int]) == k);
                        } else {
                            assert(coverage@[d] == before[d]);
                        }
                    }
                },
                Err(_) => {
                    let ghost j = choose|j: int|
                        0 <= j < i && delivery_kind(#[trigger] b.resolutions[j]) == k && delivery_index(
                            b.resolutions[j],
                        ) == index as int;
                    assert(delivery_kind(b.resolutions[j]) == k && delivery_kind(b.resolutions[i as int]) == k);
                    return false;
                },
            }
        } else {
            assert forall|d: int|
                0 <= d < count implies #[trigger] coverage@[d] == exists|j: int|
                    0 <= j < i + 1 && delivery_kind(#[trigger] b.resolutions[j]) == k && delivery_index(
                        b.resolutions[j],
                    ) == d by {
                if exists|j: int|
                    0 <= j < i + 1 && delivery_kind(#[trigger] b.resolutions[j]) == k && delivery_index(
                        b.resolutions[j],
                    ) == d {
                    let j = choose|j: int|
                        0 <= j < i + 1 && delivery_kind(#[trigger] b.resolutions[j]) == k && delivery_index(
                            b.resolutions[j],
                        ) == d;
                    assert(j != i);
                }
            }
        }
        i = i + 1;
    }
    let mut d: usize = 0;
    while d < count
        invariant
            b == batch@,
            d <= count,
            count == b.delivery_count(k),
            coverage@.len() == count,
            forall|e: int|
                0 <= e < count ==> #[trigger] coverage@[e] == exists|j: int|
                    0 <= j < b.resolutions.len() && delivery_kind(#[trigger] b.resolutions[j]) == k
                        && delivery_index(b.resolutions[j]) == e,
            forall|e: int| 0 <= e < d ==> #[trigger] b.covers(k, e),
            b.kind_consumed_at_most_once(k),
        decreases count - d,
    {
        if !coverage[d] {
            assert(!b.covers(k, d as int));
            return false;
        }
        assert(b.covers(k, d as int));
        d = d + 1;
    }
    true
}

/// The attempt a resolution opens, if it opens one.
fn opened_attempt(r: NormalizedDeliveryResolution) -> (a: Option<u32>)
    ensures
        forall|p: int| opens_attempt(r, p) <==> (a matches Some(x) && x == p),
{
    match r {
        NormalizedDeliveryResolution::NewCommand { attempt, .. } => Some(attempt),
        NormalizedDeliveryResolution::NewCollision { attempt, .. } => Some(attempt),
        _ => None,
    }
}

/// Whether every attempt is opened by some resolution.
fn attempts_opened(batch: &NormalizedMomentBatch) -> (r: bool)
    ensures
        r == forall|a: int| 0 <= a < batch@.attempts.len() ==> #[trigger] batch@.attempt_opened(a),
{
    let ghost b = batch@;
    let n = batch.attempts.len();
    let mut coverage: Vec<bool> = vec![false; n];
    let mut i: usize = 0;
    while i < batch.resolutions.len()
        invariant
            b == batch@,
            i <= b.resolutions.len(),
            n == b.attempts.len(),
            coverage@.len() == n,
            forall|a: int|
                0 <= a < n ==> #[trigger] coverage@[a] == exists|j: int|
                    0 <= j < i && opens_attempt(#[trigger] b.resolutions[j], a),
        decreases b.resolutions.len() - i,
    {
        let ghost before = coverage@;
        assert(b.resolutions[i as int] == batch.resolutions@[i as int]);
        match opened_attempt(batch.resolutions[i]) {
            Some(a) => {
                if (a as usize) < n {
                    let _ = mark_present(coverage.as_mut_slice(), a);
                }
            },
            None => {},
        }
        assert forall|a: int|
            0 <= a < n implies #[trigger] coverage@[a] == exists|j: int|
                0 <= j < i + 1 && opens_attempt(#[trigger] b.resolutions[j], a) by {
            if opens_attempt(b.resolutions[i as int], a) {
                assert(coverage@[a]);
            } else {
                assert(coverage@[a] == before[a]);
                if exists|j: int| 0 <= j < i + 1 && opens_attempt(#[trigger] b.resolutions[j], a) {
                    let j = choose|j: int| 0 <= j < i + 1 && opens_attempt(#[trigger] b.resolutions[j], a);
                    assert(j != i);
                }
            }
        }
        i = i + 1;
    }
    let mut a: usize = 0;
    while a < n
        invariant
            b == batch@,
            a <= n,
            n == b.attempts.len(),
            coverage@.len() == n,
            forall|x: int|
                0 <= x < n ==> #[trigger] coverage@[x] == exists|j: int|
                    0 <= j < b.resolutions.len() && opens_attempt(#[trigger] b.resolutions[j], x),
            forall|x: int| 0 <= x < a ==> #[trigger] b.attempt_opened(x),
        decreases n - a,
    {
        if !coverage[a] {
            assert(!b.attempt_opened(a as int));
            return false;
        }
        assert(b.attempt_opened(a as int));
        a = a + 1;
    }
    true
}

/// Whether some new collision of attempt `a` consumes a delivery with content `f`.
fn collision_covered(batch: &NormalizedMomentBatch, a: usize, f: CommandRequestFingerprint) -> (r: bool)
    requires
        batch@.resolutions_in_range(),
    ensures
        r == batch@.collision_covers(a as int, f),
{
    let ghost b = batch@;
    let mut i: usize = 0;
    while i < batch.resolutions.len()
        invariant
            b == batch@,
            b.resolutions_in_range(),
            i <= b.resolutions.len(),
            forall|j: int| 0 <= j < i ==> !b.collides_on(#[trigger] b.resolutions[j], a as int, f),
        decreases b.resolutions.len() - i,
    {
        assert(b.resolutions[i as int] == batch.resolutions@[i as int]);
        match batch.resolutions[i] {
            NormalizedDeliveryResolution::NewCollision { delivery, attempt } => {
                assert(delivery_index(b.resolutions[i as int]) < b.delivery_count(DeliveryKind::Command));
                if attempt as usize == a && batch.command_deliveries[delivery as usize].command.fingerprint.0
                    == f.0 {
                    assert(b.collides_on(b.resolutions[i as int], a as int, f));
                    return true;
                }
            },
            _ => {},
        }
        i = i + 1;
    }
    false
}

/// Whether every content a collision attempt lists is consumed by one of its new collisions.
fn collisions_covered(batch: &NormalizedMomentBatch) -> (r: bool)
    requires
        batch@.resolutions_in_range(),
    ensures
        r == forall|a: int, j: int|
            0 <= a < batch@.attempts.len() && 0 <= j < subject_fingerprints(batch@.attempts[a].subject).len()
                ==> #[trigger] batch@.collision_covers(a, subject_fingerprints(batch@.attempts[a].subject)[j]),
{
    let ghost b = batch@;
    let mut a: usize = 0;
    while a < batch.attempts.len()
        invariant
            b == batch@,
            b.resolutions_in_range(),
            a <= b.attempts.len(),
            forall|x: int, j: int|
                0 <= x < a && 0 <= j < subject_fingerprints(b.attempts[x].subject).len()
                    ==> #[trigger] b.collision_covers(x, subject_fingerprints(b.attempts[x].subject)[j]),
        decreases b.attempts.len() - a,
    {
        assert(b.attempts[a as int] == batch.attempts@[a as int]@);
        match &batch.attempts[a].subject {
            NormalizedAttemptSubject::CommandIdCollision { fingerprints, .. } => {
                let mut j: usize = 0;
                while j < fingerprints.len()
                    invariant
                        b == batch@,
                        b.resolutions_in_range(),
                        a < b.attempts.len(),
                        subject_fingerprints(b.attempts[a as int].subject) == fingerprints@,
                        j <= fingerprints@.len(),
                        forall|x: int, l: int|
                            0 <= x < a && 0 <= l < subject_fingerprints(b.attempts[x].subject).len()
                                ==> #[trigger] b.collision_covers(x, subject_fingerprints(b.attempts[x].subject)[l]),
                        forall|l: int| 0 <= l < j ==> #[trigger] b.collision_covers(a as int, fingerprints@[l]),
                    decreases fingerprints@.len() - j,
                {
                    if !collision_covered(batch, a, fingerprints[j]) {
                        return false;
                    }
                    j = j + 1;
                }
                assert forall|x: int, l: int|
                    0 <= x < a + 1 && 0 <= l < subject_fingerprints(b.attempts[x].subject).len()
                        implies #[trigger] b.collision_covers(x, subject_fingerprints(b.attempts[x].subject)[l]) by {
                    if x == a as int {
                        assert(b.collision_covers(a as int, fingerprints@[l]));
                    }
                }
            },
            _ => {
                assert(subject_fingerprints(b.attempts[a as int].subject).len() == 0);
            },
        }
        a = a + 1;
    }
    true
}

/// Whether accepted attempts name commits that exist and every commit is claimed.
fn commits_claimed(batch: &NormalizedMomentBatch) -> (r: bool)
    ensures
        r == ((forall|a: int|
            0 <= a < batch@.attempts.len() ==> commit_within(
                #[trigger] batch@.attempts[a].resolution,
                batch@.commits.len(),
            )) && (forall|c: int| 0 <= c < batch@.commits.len() ==> #[trigger] batch@.commit_claimed(c))),
{
    let ghost b = batch@;
    let n = batch.commits.len();
    let mut coverage: Vec<bool> = vec![false; n];
    let mut a: usize = 0;
    while a < batch.attempts.len()
        invariant
            b == batch@,
            a <= b.attempts.len(),
            n == b.commits.len(),
            coverage@.len() == n,
            forall|x: int| 0 <= x < a ==> commit_within(#[trigger] b.attempts[x].resolution, n as nat),
            forall|c: int|
                0 <= c < n ==> #[trigger] coverage@[c] == exists|x: int|
                    0 <= x < a && accepts_commit(#[trigger] b.attempts[x].resolution, c),
        decreases b.attempts.len() - a,
    {
        let ghost before = coverage@;
        assert(b.attempts[a as int] == batch.attempts@[a as int]@);
        match batch.attempts[a].resolution {
            NormalizedAttemptResolution::Accepted { commit } => {
                if mark_present(coverage.as_mut_slice(), commit).is_err() {
                    return false;
                }
            },
            _ => {},
        }
        assert forall|c: int|
            0 <= c < n implies #[trigger] coverage@[c] == exists|x: int|
                0 <= x < a + 1 && accepts_commit(#[trigger] b.attempts[x].resolution, c) by {
            if accepts_commit(b.attempts[a as int].resolution, c) {
                assert(coverage@[c]);
            } else {
                assert(coverage@[c] == before[c]);
                if exists|x: int| 0 <= x < a + 1 && accepts_commit(#[trigger] b.attempts[x].resolution, c) {
                    let x = choose|x: int| 0 <= x < a + 1 && accepts_commit(#[trigger] b.attempts[x].resolution, c);
                    assert(x != a);
                }
            }
        }
        a = a + 1;
    }
    let mut c: usize = 0;
    while c < n
        invariant
            b == batch@,
            c <= n,
            n == b.commits.len(),
            coverage@.len() == n,
            forall|x: int| 0 <= x < b.attempts.len() ==> commit_within(#[trigger] b.attempts[x].resolution, n as nat),
            forall|e: int|
                0 <= e < n ==> #[trigger] coverage@[e] == exists|x: int|
                    0 <= x < b.attempts.len() && accepts_commit(#[trigger] b.attempts[x].resolution, e),
            forall|e: int| 0 <= e < c ==> #[trigger] b.commit_claimed(e),
        decreases n - c,
    {
        if !coverage[c] {
            assert(!b.commit_claimed(c as int));
            return false;
        }
        assert(b.commit_claimed(c as int));
        c = c + 1;
    }
    true
}

/// Whether two lists of containment deltas are equal.
fn same_deltas(a: &Vec<ContainmentTransferDelta>, b: &Vec<ContainmentTransferDelta>) -> (r: bool)
    ensures
        r == (a@ == b@),
{
    if a.len() != b.len() {
        return false;
    }
    let mut i: usize = 0;
    while i < a.len()
        invariant
            i <= a@.len(),
            a@.len() == b@.len(),
            forall|j: int| 0 <= j < i ==> a@[j] == b@[j],
        decreases a@.len() - i,
    {
        if a[i] != b[i] {
            return false;
        }
        i = i + 1;
    }
    assert(a@ =~= b@);
    true
}

/// Whether two lists of scheduler keys are equal.
fn same_keys(a: &Vec<u64>, b: &Vec<u64>) -> (r: bool)
    ensures
        r == (a@ == b@),
{
    if a.len() != b.len() {
        return false;
    }
    let mut i: usize = 0;
    while i < a.len()
        invariant
            i <= a@.len(),
            a@.len() == b@.len(),
            forall|j: int| 0 <= j < i ==> a@[j] == b@[j],
        decreases a@.len() - i,
    {
        if a[i] != b[i] {
            return false;
        }
        i = i + 1;
    }
    assert(a@ =~= b@);
    true
}

/// Whether the consumed keys are the delivery keys in sorted order.
fn consumed_keys_match(batch: &NormalizedMomentBatch) -> (r: bool)
    ensures
        r == (keys_sorted(batch@.consumed_keys) && batch@.consumed_keys.to_multiset()
            == batch@.delivery_keys().to_multiset()),
{
    let mut keys = command_keys(&batch.command_deliveries);
    append_keys(&mut keys, &batch.lifecycle_deliveries);
    append_keys(&mut keys, &batch.post_commit_deliveries);
    append_keys(&mut keys, &batch.action_ready_deliveries);
    append_keys(&mut keys, &batch.action_evaluation_deliveries);
    append_keys(&mut keys, &batch.attempt_resolved_deliveries);
    append_keys(&mut keys, &batch.relocation_process_deliveries);
    assert(keys@ == batch@.delivery_keys());
    let sorted = sort_keys(&keys);
    let r = same_keys(&sorted, &batch.consumed_keys);
    proof {
        if keys_sorted(batch@.consumed_keys) && batch@.consumed_keys.to_multiset()
            == batch@.delivery_keys().to_multiset() {
            lemma_sorted_keys_unique(sorted@, batch@.consumed_keys);
        }
    }
    r
}

/// Checks that the delivery graph of a moment batch is complete: every
/// delivery is consumed once by a sound resolution, every attempt is well
/// formed, distinct and opened, every collision content is consumed, commits
/// and accepted attempts correspond, the containment delta is the commit
/// list and the consumed keys are the sorted delivery keys.
pub fn verify_normalized_moment(batch: &NormalizedMomentBatch) -> (r: Result<(), AuthorityRecordSealError>)
    ensures
        r is Ok <==> normalized_graph_complete(batch@),
        r is Err ==> r == Err::<(), AuthorityRecordSealError>(AuthorityRecordSealError::InvalidNormalizedGraph),
{
    let ghost b = batch@;
    if !resolution_count_matches(batch) || !attempts_well_formed(batch) || !resolutions_sound(batch) {
        return Err(AuthorityRecordSealError::InvalidNormalizedGraph);
    }
    assert(b.resolutions_in_range()) by {
        assert forall|i: int| 0 <= i < b.resolutions.len() implies delivery_index(#[trigger] b.resolutions[i])
            < b.delivery_count(delivery_kind(b.resolutions[i])) by {
            assert(b.resolution_sound(b.resolutions[i]));
        }
    }
    let kinds = [
        DeliveryKind::Command,
        DeliveryKind::PostCommit,
        DeliveryKind::Lifecycle,
        DeliveryKind::ActionReady,
        DeliveryKind::ActionEvaluation,
        DeliveryKind::AttemptResolved,
        DeliveryKind::RelocationProcess,
    ];
    let mut k: usize = 0;
    while k < 7
        invariant
            b == batch@,
            b.resolutions_in_range(),
            k <= 7,
            kinds@ == seq![
                DeliveryKind::Command,
                DeliveryKind::PostCommit,
                DeliveryKind::Lifecycle,
                DeliveryKind::ActionReady,
                DeliveryKind::ActionEvaluation,
                DeliveryKind::AttemptResolved,
                DeliveryKind::RelocationProcess,
            ],
            forall|x: int|
                0 <= x < k ==> b.kind_consumed_at_most_once(#[trigger] kinds@[x]) && b.kind_covered(kinds@[x]),
        decreases 7 - k,
    {
        if !kind_consumed_once(batch, kinds[k]) {
            return Err(AuthorityRecordSealError::InvalidNormalizedGraph);
        }
        k = k + 1;
    }
    assert forall|kind: DeliveryKind| b.kind_consumed_at_most_once(kind) && b.kind_covered(kind) by {
        let x: int = match kind {
            DeliveryKind::Command => 0,
            DeliveryKind::PostCommit => 1,
            DeliveryKind::Lifecycle => 2,
            DeliveryKind::ActionReady => 3,
            DeliveryKind::ActionEvaluation => 4,
            DeliveryKind::AttemptResolved => 5,
            DeliveryKind::RelocationProcess => 6,
        };
        assert(kinds@[x] == kind);
    }
    if !attempts_opened(batch) || !collisions_covered(batch) || !commits_claimed(batch) || !same_deltas(
        &batch.containment_delta,
        &batch.commits,
    ) || !consumed_keys_match(batch) {
        return Err(AuthorityRecordSealError::InvalidNormalizedGraph);
    }
    assert forall|i: int, j: int|
        0 <= i < j < b.resolutions.len() implies !(delivery_kind(#[trigger] b.resolutions[i]) == delivery_kind(
            #[trigger] b.resolutions[j],
        ) && delivery_index(b.resolutions[i]) == delivery_index(b.resolutions[j])) by {
        assert(b.kind_consumed_at_most_once(delivery_kind(b.resolutions[i])));
    }
    assert forall|kind: DeliveryKind, d: int| 0 <= d < b.delivery_count(kind) implies #[trigger] b.covers(kind, d) by {
        assert(b.kind_covered(kind));
    }
    Ok(())
}

/// The identity of the commit at local position `index` of `record`.
pub open spec fn commit_id(record: AuthorityRecordId, index: int) -> CommitRecordId {
    CommitRecordId { record, index: index as u32 }
}

/// The identity of the attempt at local position `index` of `record`.
pub open spec fn attempt_id(record: AuthorityRecordId, index: int) -> AttemptRecordId {
    AttemptRecordId { record, index: index as u32 }
}

/// The identity of the reaction at local position `index` of `record`.
pub open spec fn reaction_id(record: AuthorityRecordId, index: int) -> ReactionEnvelopeId {
    ReactionEnvelopeId { record, index: index as u32 }
}

/// How a published attempt was resolved; an accepted attempt names its commit record.
#[derive(Clone, Copy, Debug, PartialEq, Eq, Structural)]
pub enum RecordedCommandResolution {
    Accepted { commit: CommitRecordId },
    Rejected(StableCommandRejection),
    CommandIdCollision,
}

/// One published attempt.
#[derive(Clone, Debug)]
pub struct AttemptRecord {
    pub id: AttemptRecordId,
    pub subject: NormalizedAttemptSubject,
    pub resolution: RecordedCommandResolution,
}

/// Mathematical form of a published attempt.
pub struct AttemptRecordView {
    pub id: AttemptRecordId,
    pub subject: AttemptSubjectView,
    pub resolution: RecordedCommandResolution,
}

impl View for AttemptRecord {
    type V = AttemptRecordView;

    open spec fn view(&self) -> AttemptRecordView {
        AttemptRecordView { id: self.id, subject: self.subject@, resolution: self.resolution }
    }
}

/// One published containment commit.
#[derive(Clone, Copy, Debug, PartialEq, Eq, Structural)]
pub struct ContainmentTransferCommitRecord {
    pub id: CommitRecordId,
    pub delta: ContainmentTransferDelta,
}

/// One published reaction envelope: its identity and the reaction it carries.
#[derive(Clone, Copy, Debug, PartialEq, Eq, Structural)]
pub struct ReactionEnvelopeRecord {
    pub id: ReactionEnvelopeId,
    pub reaction: u64,
}

/// How a published delivery was resolved; new attempts are named by their record identity.
#[derive(Clone, Copy, Debug, PartialEq, Eq, Structural)]
pub enum DeliveryResolutionRecord {
    NewCommand { delivery: u32, attempt: AttemptRecordId },
    RetainedCommand {
        delivery: u32,
        original_attempt: AttemptRecordId,
        original_outcome: CommandAttemptOutcome,
    },
    CommandIdReuseMismatch { delivery: u32, original_attempt: AttemptRecordId },
    NewCollision { delivery: u32, attempt: AttemptRecordId },
    RetainedCollision { delivery: u32, original_attempt: AttemptRecordId },
    RetiredCommand { delivery: u32 },
    PostCommitConsumed { delivery: u32 },
    ActionReadyConsumed { delivery: u32 },
    ActionEvaluationConsumed { delivery: u32 },
    AttemptResolvedConsumed { delivery: u32 },
    LifecycleConsumed { delivery: u32 },
    RelocationProcessCompleted { delivery: u32 },
    ObsoleteRelocationWake { delivery: u32 },
}

/// The published moment of an authority record.
pub struct MomentBatchRecord {
    pub moment: SimMoment,
    pub resulting_frontier: u64,
    pub consumed_keys: Vec<u64>,
    pub command_deliveries: Vec<CommandDeliveryRecord>,
    pub post_commit_deliveries: Vec<u64>,
    pub lifecycle_deliveries: Vec<u64>,
    pub action_ready_deliveries: Vec<u64>,
    pub action_evaluation_deliveries: Vec<u64>,
    pub attempt_resolved_deliveries: Vec<u64>,
    pub relocation_process_deliveries: Vec<u64>,
    pub transitions: MomentTransitionRecords,
    pub attempts: Vec<AttemptRecord>,
    pub commits: Vec<ContainmentTransferCommitRecord>,
    pub containment_delta: Vec<ContainmentTransferDelta>,
    pub reactions: Vec<ReactionEnvelopeRecord>,
    pub scheduler_insertions: Vec<SchedulerInsertionRecord>,
    pub resolutions: Vec<DeliveryResolutionRecord>,
}

/// Mathematical form of a published moment.
pub struct MomentRecordView {
    pub moment: SimMoment,
    pub resulting_frontier: u64,
    pub consumed_keys: Seq<u64>,
    pub command_deliveries: Seq<CommandDeliveryRecord>,
    pub post_commit_deliveries: Seq<u64>,
    pub lifecycle_deliveries: Seq<u64>,
    pub action_ready_deliveries: Seq<u64>,
    pub action_evaluation_deliveries: Seq<u64>,
    pub attempt_resolved_deliveries: Seq<u64>,
    pub relocation_process_deliveries: Seq<u64>,
    pub transitions: MomentTransitionRecords,
    pub attempts: Seq<AttemptRecordView>,
    pub commits: Seq<ContainmentTransferCommitRecord>,
    pub containment_delta: Seq<ContainmentTransferDelta>,
    pub reactions: Seq<ReactionEnvelopeRecord>,
    pub scheduler_insertions: Seq<SchedulerInsertionRecord>,
    pub resolutions: Seq<DeliveryResolutionRecord>,
}

impl View for MomentBatchRecord {
    type V = MomentRecordView;

    open spec fn view(&self) -> MomentRecordView {
        MomentRecordView {
            moment: self.moment,
            resulting_frontier: self.resulting_frontier,
            consumed_keys: self.consumed_keys@,
            command_deliveries: self.command_deliveries@,
            post_commit_deliveries: self.post_commit_deliveries@,
            lifecycle_deliveries: self.lifecycle_deliveries@,
            action_ready_deliveries: self.action_ready_deliveries@,
            action_evaluation_deliveries: self.action_evaluation_deliveries@,
            attempt_resolved_deliveries: self.attempt_resolved_deliveries@,
            relocation_process_deliveries: self.relocation_process_deliveries@,
            transitions: self.transitions,
            attempts: self.attempts@.map_values(|a: AttemptRecord| a@),
            commits: self.commits@,
            containment_delta: self.containment_delta@,
            reactions: self.reactions@,
            scheduler_insertions: self.scheduler_insertions@,
            resolutions: self.resolutions@,
        }
    }
}

/// An attempt resolution under the identity of `record`.
pub open spec fn recorded_resolution(
    record: AuthorityRecordId,
    r: NormalizedAttemptResolution,
) -> RecordedCommandResolution {
    match r {
        NormalizedAttemptResolution::Accepted { commit } => RecordedCommandResolution::Accepted {
            commit: commit_id(record, commit as int),
        },
        NormalizedAttemptResolution::Rejected(reason) => RecordedCommandResolution::Rejected(reason),
        NormalizedAttemptResolution::CommandIdCollision => RecordedCommandResolution::CommandIdCollision,
    }
}

/// A scheduler insertion under the identity of `record`: a post-commit
/// dispatch names the identity of its reaction.
pub open spec fn recorded_insertion(
    record: AuthorityRecordId,
    n: NormalizedSchedulerInsertion,
) -> SchedulerInsertionRecord {
    match n {
        NormalizedSchedulerInsertion::PostCommit { scheduler_key, reaction, dispatch } => SchedulerInsertionRecord {
            scheduler_key,
            work: ScheduledWork::PostCommit(
                PostCommitDispatch { reaction: reaction_id(record, reaction as int), content: dispatch.content },
            ),
        },
        NormalizedSchedulerInsertion::ActionCommand { scheduler_key, opportunity, effective, command } => {
            SchedulerInsertionRecord {
                scheduler_key,
                work: ScheduledWork::Command { opportunity, effective, command },
            }
        },
        NormalizedSchedulerInsertion::AttemptResolved { scheduler_key, resolved } => SchedulerInsertionRecord {
            scheduler_key,
            work: ScheduledWork::AttemptResolved(resolved),
        },
        NormalizedSchedulerInsertion::RelocationProcess { scheduler_key, wake } => SchedulerInsertionRecord {
            scheduler_key,
            work: ScheduledWork::Process(wake),
        },
        NormalizedSchedulerInsertion::Lifecycle { scheduler_key, work } => SchedulerInsertionRecord {
            scheduler_key,
            work: ScheduledWork::Lifecycle(work),
        },
        NormalizedSchedulerInsertion::ActionReady { scheduler_key, ready } => SchedulerInsertionRecord {
            scheduler_key,
            work: ScheduledWork::ActionReady(ready),
        },
        NormalizedSchedulerInsertion::ActionEvaluation { scheduler_key, work } => SchedulerInsertionRecord {
            scheduler_key,
            work: ScheduledWork::ActionEvaluation(work),
        },
    }
}

/// A delivery resolution under the identity of `record`.
pub open spec fn recorded_delivery_resolution(
    record: AuthorityRecordId,
    r: NormalizedDeliveryResolution,
) -> DeliveryResolutionRecord {
    match r {
        NormalizedDeliveryResolution::NewCommand { delivery, attempt } => DeliveryResolutionRecord::NewCommand {
            delivery,
            attempt: attempt_id(record, attempt as int),
        },
        NormalizedDeliveryResolution::RetainedCommand { delivery, original_attempt, original_outcome } => {
            DeliveryResolutionRecord::RetainedCommand { delivery, original_attempt, original_outcome }
        },
        NormalizedDeliveryResolution::CommandIdReuseMismatch { delivery, original_attempt } => {
            DeliveryResolutionRecord::CommandIdReuseMismatch { delivery, original_attempt }
        },
        NormalizedDeliveryResolution::NewCollision { delivery, attempt } => DeliveryResolutionRecord::NewCollision {
            delivery,
            attempt: attempt_id(record, attempt as int),
        },
        NormalizedDeliveryResolution::RetainedCollision { delivery, original_attempt } => {
            DeliveryResolutionRecord::RetainedCollision { delivery, original_attempt }
        },
        NormalizedDeliveryResolution::RetiredCommand { delivery } => DeliveryResolutionRecord::RetiredCommand {
            delivery,
        },
        NormalizedDeliveryResolution::PostCommitConsumed { delivery } => {
            DeliveryResolutionRecord::PostCommitConsumed { delivery }
        },
        NormalizedDeliveryResolution::ActionReadyConsumed { delivery } => {
            DeliveryResolutionRecord::ActionReadyConsumed { delivery }
        },
        NormalizedDeliveryResolution::ActionEvaluationConsumed { delivery } => {
            DeliveryResolutionRecord::ActionEvaluationConsumed { delivery }
        },
        NormalizedDeliveryResolution::AttemptResolvedConsumed { delivery } => {
            DeliveryResolutionRecord::AttemptResolvedConsumed { delivery }
        },
        NormalizedDeliveryResolution::LifecycleConsumed { delivery } => {
            DeliveryResolutionRecord::LifecycleConsumed { delivery }
        },
        NormalizedDeliveryResolution::RelocationProcessCompleted { delivery } => {
            DeliveryResolutionRecord::RelocationProcessCompleted { delivery }
        },
        NormalizedDeliveryResolution::ObsoleteRelocationWake { delivery } => {
            DeliveryResolutionRecord::ObsoleteRelocationWake { delivery }
        },
    }
}

/// The published form of a moment batch under the identity of `record`:
/// deliveries, keys, transition and evidence records and the containment
/// delta are kept; the commit, the attempt and the reaction at position `i`
/// get the identities derived from `record` and `i`; accepted attempts,
/// new-attempt resolutions and post-commit dispatches name those identities;
/// every list keeps its length and order.
pub open spec fn materialized_moment(record: AuthorityRecordId, b: NormalizedMomentView) -> MomentRecordView {
    MomentRecordView {
        moment: b.moment,
        resulting_frontier: b.resulting_frontier,
        consumed_keys: b.consumed_keys,
        command_deliveries: b.command_deliveries,
        post_commit_deliveries: b.post_commit_deliveries,
        lifecycle_deliveries: b.lifecycle_deliveries,
        action_ready_deliveries: b.action_ready_deliveries,
        action_evaluation_deliveries: b.action_evaluation_deliveries,
        attempt_resolved_deliveries: b.attempt_resolved_deliveries,
        relocation_process_deliveries: b.relocation_process_deliveries,
        transitions: b.transitions,
        attempts: Seq::new(
            b.attempts.len(),
            |i: int|
                AttemptRecordView {
                    id: attempt_id(record, i),
                    subject: b.attempts[i].subject,
                    resolution: recorded_resolution(record, b.attempts[i].resolution),
                },
        ),
        commits: Seq::new(
            b.commits.len(),
            |i: int| ContainmentTransferCommitRecord { id: commit_id(record, i), delta: b.commits[i] },
        ),
        containment_delta: b.containment_delta,
        reactions: Seq::new(
            b.reactions.len(),
            |i: int| ReactionEnvelopeRecord { id: reaction_id(record, i), reaction: b.reactions[i] },
        ),
        scheduler_insertions: b.scheduler_insertions.map_values(
            |n: NormalizedSchedulerInsertion| recorded_insertion(record, n),
        ),
        resolutions: b.resolutions.map_values(|r: NormalizedDeliveryResolution| recorded_delivery_resolution(record, r)),
    }
}

/// An attempt resolution under the identity of `record`.
fn record_resolution(record: AuthorityRecordId, r: NormalizedAttemptResolution) -> (out: RecordedCommandResolution)
    ensures
        out == recorded_resolution(record, r),
{
    match r {
        NormalizedAttemptResolution::Accepted { commit } => RecordedCommandResolution::Accepted {
            commit: CommitRecordId::derive(record, commit),
        },
        NormalizedAttemptResolution::Rejected(reason) => RecordedCommandResolution::Rejected(reason),
        NormalizedAttemptResolution::CommandIdCollision => RecordedCommandResolution::CommandIdCollision,
    }
}

/// A scheduler insertion under the identity of `record`.
fn record_insertion(record: AuthorityRecordId, n: NormalizedSchedulerInsertion) -> (out: SchedulerInsertionRecord)
    ensures
        out == recorded_insertion(record, n),
{
    match n {
        NormalizedSchedulerInsertion::PostCommit { scheduler_key, reaction, dispatch } => SchedulerInsertionRecord {
            scheduler_key,
            work: ScheduledWork::PostCommit(
                PostCommitDispatch {
                    reaction: ReactionEnvelopeId::derive(record, reaction),
                    content: dispatch.content,
                },
            ),
        },
        NormalizedSchedulerInsertion::ActionCommand { scheduler_key, opportunity, effective, command } => {
            SchedulerInsertionRecord {
                scheduler_key,
                work: ScheduledWork::Command { opportunity, effective, command },
            }
        },
        NormalizedSchedulerInsertion::AttemptResolved { scheduler_key, resolved } => SchedulerInsertionRecord {
            scheduler_key,
            work: ScheduledWork::AttemptResolved(resolved),
        },
        NormalizedSchedulerInsertion::RelocationProcess { scheduler_key, wake } => SchedulerInsertionRecord {
            scheduler_key,
            work: ScheduledWork::Process(wake),
        },
        NormalizedSchedulerInsertion::Lifecycle { scheduler_key, work } => SchedulerInsertionRecord {
            scheduler_key,
            work: ScheduledWork::Lifecycle(work),
        },
        NormalizedSchedulerInsertion::ActionReady { scheduler_key, ready } => SchedulerInsertionRecord {
            scheduler_key,
            work: ScheduledWork::ActionReady(ready),
        },
        NormalizedSchedulerInsertion::ActionEvaluation { scheduler_key, work } => SchedulerInsertionRecord {
            scheduler_key,
            work: ScheduledWork::ActionEvaluation(work),
        },
    }
}

/// A delivery resolution under the identity of `record`.
fn record_delivery_resolution(
    record: AuthorityRecordId,
    r: NormalizedDeliveryResolution,
) -> (out: DeliveryResolutionRecord)
    ensures
        out == recorded_delivery_resolution(record, r),
{
    match r {
        NormalizedDeliveryResolution::NewCommand { delivery, attempt } => DeliveryResolutionRecord::NewCommand {
            delivery,
            attempt: AttemptRecordId::derive(record, attempt),
        },
        NormalizedDeliveryResolution::RetainedCommand { delivery, original_attempt, original_outcome } => {
            DeliveryResolutionRecord::RetainedCommand { delivery, original_attempt, original_outcome }
        },
        NormalizedDeliveryResolution::CommandIdReuseMismatch { delivery, original_attempt } => {
            DeliveryResolutionRecord::CommandIdReuseMismatch { delivery, original_attempt }
        },
        NormalizedDeliveryResolution::NewCollision { delivery, attempt } => DeliveryResolutionRecord::NewCollision {
            delivery,
            attempt: AttemptRecordId::derive(record, attempt),
        },
        NormalizedDeliveryResolution::RetainedCollision { delivery, original_attempt } => {
            DeliveryResolutionRecord::RetainedCollision { delivery, original_attempt }
        },
        NormalizedDeliveryResolution::RetiredCommand { delivery } => DeliveryResolutionRecord::RetiredCommand {
            delivery,
        },
        NormalizedDeliveryResolution::PostCommitConsumed { delivery } => {
            DeliveryResolutionRecord::PostCommitConsumed { delivery }
        },
        NormalizedDeliveryResolution::ActionReadyConsumed { delivery } => {
            DeliveryResolutionRecord::ActionReadyConsumed { delivery }
        },
        NormalizedDeliveryResolution::ActionEvaluationConsumed { delivery } => {
            DeliveryResolutionRecord::ActionEvaluationConsumed { delivery }
        },
        NormalizedDeliveryResolution::AttemptResolvedConsumed { delivery } => {
            DeliveryResolutionRecord::AttemptResolvedConsumed { delivery }
        },
        NormalizedDeliveryResolution::LifecycleConsumed { delivery } => {
            DeliveryResolutionRecord::LifecycleConsumed { delivery }
        },
        NormalizedDeliveryResolution::RelocationProcessCompleted { delivery } => {
            DeliveryResolutionRecord::RelocationProcessCompleted { delivery }
        },
        NormalizedDeliveryResolution::ObsoleteRelocationWake { delivery } => {
            DeliveryResolutionRecord::ObsoleteRelocationWake { delivery }
        },
    }
}

/// Publishes a moment batch under the identity of `record_id`: commits, new
/// attempts and reactions get the identities derived from their positions,
/// scheduler insertions and resolutions name those identities, and every
/// other part is kept as it is.
pub fn materialize_moment(record_id: AuthorityRecordId, batch: NormalizedMomentBatch) -> (r: MomentBatchRecord)
    requires
        batch@.commits.len() <= 0x1_0000_0000,
        batch@.attempts.len() <= 0x1_0000_0000,
        batch@.reactions.len() <= 0x1_0000_0000,
    ensures
        r@ == materialized_moment(record_id, batch@),
{
    let ghost b = batch@;
    let NormalizedMomentBatch {
        moment,
        resulting_frontier,
        consumed_keys,
        command_deliveries,
        post_commit_deliveries,
        lifecycle_deliveries,
        action_ready_deliveries,
        action_evaluation_deliveries,
        attempt_resolved_deliveries,
        relocation_process_deliveries,
        attempts: mut pending,
        commits: normalized_commits,
        containment_delta,
        reactions: normalized_reactions,
        scheduler_insertions: normalized_insertions,
        resolutions: normalized_resolutions,
        transitions,
    } = batch;
    let ghost expected = materialized_moment(record_id, b);

    let mut commits: Vec<ContainmentTransferCommitRecord> = Vec::new();
    let mut i: usize = 0;
    while i < normalized_commits.len()
        invariant
            expected == materialized_moment(record_id, b),
            normalized_commits@ == b.commits,
            b.commits.len() <= 0x1_0000_0000,
            i <= b.commits.len(),
            commits@ == expected.commits.subrange(0, i as int),
        decreases b.commits.len() - i,
    {
        commits.push(
            ContainmentTransferCommitRecord {
                id: CommitRecordId::derive(record_id, i as u32),
                delta: normalized_commits[i],
            },
        );
        i = i + 1;
        proof {
            assert(commits@ =~= expected.commits.subrange(0, i as int));
        }
    }

    let mut attempts: Vec<AttemptRecord> = Vec::new();
    let n = pending.len();
    let mut i: usize = 0;
    while i < n
        invariant
            expected == materialized_moment(record_id, b),
            n == b.attempts.len(),
            n <= 0x1_0000_0000,
            i <= n,
            pending@.len() == n - i,
            attempts@.len() == i,
            pending@.map_values(|a: NormalizedAttemptRecord| a@) == b.attempts.subrange(i as int, n as int),
            attempts@.map_values(|a: AttemptRecord| a@) == expected.attempts.subrange(0, i as int),
        decreases n - i,
    {
        let ghost before = pending@;
        let ghost prior = attempts@;
        let ghost k = i as int;
        assert(before.map_values(|a: NormalizedAttemptRecord| a@)[0] == b.attempts[k]);
        let item = pending.remove(0);
        assert(item@ == b.attempts[k]);
        let NormalizedAttemptRecord { subject, resolution } = item;
        let record = AttemptRecord {
            id: AttemptRecordId::derive(record_id, i as u32),
            subject,
            resolution: record_resolution(record_id, resolution),
        };
        assert(record@ == expected.attempts[k]);
        attempts.push(record);
        i = i + 1;
        proof {
            let pv = pending@.map_values(|a: NormalizedAttemptRecord| a@);
            assert forall|j: int| 0 <= j < pv.len() implies #[trigger] pv[j] == b.attempts.subrange(
                k + 1,
                n as int,
            )[j] by {
                assert(pending@[j] == before[j + 1]);
                assert(before.map_values(|a: NormalizedAttemptRecord| a@)[j + 1] == b.attempts.subrange(
                    k,
                    n as int,
                )[j + 1]);
            }
            assert(pending@.map_values(|a: NormalizedAttemptRecord| a@) =~= b.attempts.subrange(k + 1, n as int));
            assert(attempts@ == prior.push(record));
            let av = attempts@.map_values(|a: AttemptRecord| a@);
            assert forall|j: int| 0 <= j < k + 1 implies #[trigger] av[j] == expected.attempts.subrange(0, k + 1)[j] by {
                if j < k {
                    assert(attempts@[j] == prior[j]);
                    assert(prior.map_values(|a: AttemptRecord| a@)[j] == expected.attempts.subrange(0, k)[j]);
                }
            }
            assert(attempts@.map_values(|a: AttemptRecord| a@) =~= expected.attempts.subrange(0, k + 1));
        }
    }

    let mut reactions: Vec<ReactionEnvelopeRecord> = Vec::new();
    let mut i: usize = 0;
    while i < normalized_reactions.len()
        invariant
            expected == materialized_moment(record_id, b),
            normalized_reactions@ == b.reactions,
            b.reactions.len() <= 0x1_0000_0000,
            i <= b.reactions.len(),
            reactions@ == expected.reactions.subrange(0, i as int),
        decreases b.reactions.len() - i,
    {
        reactions.push(
            ReactionEnvelopeRecord {
                id: ReactionEnvelopeId::derive(record_id, i as u32),
                reaction: normalized_reactions[i],
            },
        );
        i = i + 1;
        proof {
            assert(reactions@ =~= expected.reactions.subrange(0, i as int));
        }
    }

    let mut scheduler_insertions: Vec<SchedulerInsertionRecord> = Vec::new();
    let mut i: usize = 0;
    while i < normalized_insertions.len()
        invariant
            expected == materialized_moment(record_id, b),
            normalized_insertions@ == b.scheduler_insertions,
            i <= b.scheduler_insertions.len(),
            scheduler_insertions@ == expected.scheduler_insertions.subrange(0, i as int),
        decreases b.scheduler_insertions.len() - i,
    {
        scheduler_insertions.push(record_insertion(record_id, normalized_insertions[i]));
        i = i + 1;
        proof {
            assert(scheduler_insertions@ =~= expected.scheduler_insertions.subrange(0, i as int));
        }
    }

    let mut resolutions: Vec<DeliveryResolutionRecord> = Vec::new();
    let mut i: usize = 0;
    while i < normalized_resolutions.len()
        invariant
            expected == materialized_moment(record_id, b),
            normalized_resolutions@ == b.resolutions,
            i <= b.resolutions.len(),
            resolutions@ == expected.resolutions.subrange(0, i as int),
        decreases b.resolutions.len() - i,
    {
        resolutions.push(record_delivery_resolution(record_id, normalized_resolutions[i]));
        i = i + 1;
        proof {
            assert(resolutions@ =~= expected.resolutions.subrange(0, i as int));
        }
    }
    proof {
        assert(commits@ =~= expected.commits);
        assert(expected.attempts.subrange(0, n as int) =~= expected.attempts);
        assert(reactions@ =~= expected.reactions);
        assert(scheduler_insertions@ =~= expected.scheduler_insertions);
        assert(resolutions@ =~= expected.resolutions);
    }
    MomentBatchRecord {
        moment,
        resulting_frontier,
        consumed_keys,
        command_deliveries,
        post_commit_deliveries,
        lifecycle_deliveries,
        action_ready_deliveries,
        action_evaluation_deliveries,
        attempt_resolved_deliveries,
        relocation_process_deliveries,
        transitions,
        attempts,
        commits,
        containment_delta,
        reactions,
        scheduler_insertions,
        resolutions,
    }
}

/// The commit an accepted published attempt names, if it is accepted.
pub open spec fn recorded_commit(r: RecordedCommandResolution) -> Option<CommitRecordId> {
    match r {
        RecordedCommandResolution::Accepted { commit } => Some(commit),
        _ => None,
    }
}

/// The new attempt a published delivery resolution names, if it names one.
pub open spec fn recorded_new_attempt(r: DeliveryResolutionRecord) -> Option<AttemptRecordId> {
    match r {
        DeliveryResolutionRecord::NewCommand { attempt, .. } => Some(attempt),
        DeliveryResolutionRecord::NewCollision { attempt, .. } => Some(attempt),
        _ => None,
    }
}

/// A moment batch whose delivery graph is complete is published with every
/// reference resolved: each accepted attempt names a commit record of the
/// same record, and each new-attempt resolution names an attempt record of it.
pub proof fn lemma_complete_moment_references_resolve(record: AuthorityRecordId, b: NormalizedMomentView)
    requires
        normalized_graph_complete(b),
    ensures
        forall|a: int|
            0 <= a < materialized_moment(record, b).attempts.len() && #[trigger] recorded_commit(
                materialized_moment(record, b).attempts[a].resolution,
            ) is Some ==> exists|c: int|
                0 <= c < materialized_moment(record, b).commits.len() && #[trigger] materialized_moment(
                    record,
                    b,
                ).commits[c].id == recorded_commit(materialized_moment(record, b).attempts[a].resolution)->0,
        forall|i: int|
            0 <= i < materialized_moment(record, b).resolutions.len() && #[trigger] recorded_new_attempt(
                materialized_moment(record, b).resolutions[i],
            ) is Some ==> exists|a: int|
                0 <= a < materialized_moment(record, b).attempts.len() && #[trigger] materialized_moment(
                    record,
                    b,
                ).attempts[a].id == recorded_new_attempt(materialized_moment(record, b).resolutions[i])->0,
{
    let m = materialized_moment(record, b);
    assert forall|a: int|
        0 <= a < m.attempts.len() && #[trigger] recorded_commit(m.attempts[a].resolution) is Some implies exists|c: int|
            0 <= c < m.commits.len() && #[trigger] m.commits[c].id == recorded_commit(m.attempts[a].resolution)->0 by {
        assert(commit_within(b.attempts[a].resolution, b.commits.len()));
        match b.attempts[a].resolution {
            NormalizedAttemptResolution::Accepted { commit } => {
                assert(m.commits[commit as int].id == recorded_commit(m.attempts[a].resolution)->0);
            },
            _ => {},
        }
    }
    assert forall|i: int|
        0 <= i < m.resolutions.len() && #[trigger] recorded_new_attempt(m.resolutions[i]) is Some implies exists|a: int|
            0 <= a < m.attempts.len() && #[trigger] m.attempts[a].id == recorded_new_attempt(m.resolutions[i])->0 by {
        assert(b.resolution_sound(b.resolutions[i]));
        match b.resolutions[i] {
            NormalizedDeliveryResolution::NewCommand { attempt, .. } => {
                assert(m.attempts[attempt as int].id == recorded_new_attempt(m.resolutions[i])->0);
            },
            NormalizedDeliveryResolution::NewCollision { attempt, .. } => {
                assert(m.attempts[attempt as int].id == recorded_new_attempt(m.resolutions[i])->0);
            },
            _ => {},
        }
    }
}

/// In a complete moment graph every attempt's resolution is of its subject's
/// kind: a command-ID collision is resolved as a collision over at least two
/// contents in strictly increasing order, and an evaluated command is either
/// accepted or rejected.
pub proof fn lemma_complete_graph_pairs_subjects_with_resolutions(b: NormalizedMomentView)
    requires
        normalized_graph_complete(b),
    ensures
        forall|a: int|
            0 <= a < b.attempts.len() ==> match #[trigger] b.attempts[a].subject {
                AttemptSubjectView::CommandIdCollision { fingerprints, .. } => {
                    &&& b.attempts[a].resolution == NormalizedAttemptResolution::CommandIdCollision
                    &&& fingerprints.len() >= 2
                    &&& forall|i: int, j: int|
                        0 <= i < j < fingerprints.len() ==> fingerprints[i].0 < fingerprints[j].0
                },
                AttemptSubjectView::EvaluatedCommand(_) => {
                    ||| b.attempts[a].resolution matches NormalizedAttemptResolution::Accepted { .. }
                    ||| b.attempts[a].resolution matches NormalizedAttemptResolution::Rejected(_)
                },
            },
{
    assert forall|a: int| 0 <= a < b.attempts.len() implies match #[trigger] b.attempts[a].subject {
        AttemptSubjectView::CommandIdCollision { fingerprints, .. } => {
            &&& b.attempts[a].resolution == NormalizedAttemptResolution::CommandIdCollision
            &&& fingerprints.len() >= 2
            &&& forall|i: int, j: int|
                0 <= i < j < fingerprints.len() ==> fingerprints[i].0 < fingerprints[j].0
        },
        AttemptSubjectView::EvaluatedCommand(_) => {
            ||| b.attempts[a].resolution matches NormalizedAttemptResolution::Accepted { .. }
            ||| b.attempts[a].resolution matches NormalizedAttemptResolution::Rejected(_)
        },
    } by {
        assert(attempt_well_formed(b.attempts[a]));
    }
}

/// A resolution that consumes delivery `d` of kind `k` in a complete graph.
proof fn lemma_covering_resolution(b: NormalizedMomentView, k: DeliveryKind, d: int) -> (i: int)
    requires
        normalized_graph_complete(b),
        0 <= d < b.delivery_count(k),
    ensures
        0 <= i < b.resolutions.len(),
        delivery_kind(b.resolutions[i]) == k,
        delivery_index(b.resolutions[i]) == d,
{
    assert(b.covers(k, d));
    choose|i: int|
        0 <= i < b.resolutions.len() && delivery_kind(#[trigger] b.resolutions[i]) == k && delivery_index(
            b.resolutions[i],
        ) == d
}

/// What a complete moment graph guarantees, stated on the batch itself:
/// one resolution per delivery; each delivery of every list consumed by a
/// resolution of its own kind, and no delivery consumed twice by the same
/// kind; consumed keys in non-decreasing order, one per delivery; the
/// containment delta equal to the commit list; every accepted attempt naming
/// an existing commit and every commit claimed by an accepted attempt; and a
/// new command opening an attempt about exactly the delivered command.
#[verifier::spinoff_prover]
#[verifier::rlimit(40)]
pub proof fn lemma_complete_graph_guarantees(b: NormalizedMomentView)
    requires
        normalized_graph_complete(b),
    ensures
        b.resolutions.len() == b.command_deliveries.len() + b.post_commit_deliveries.len()
            + b.lifecycle_deliveries.len() + b.action_ready_deliveries.len()
            + b.action_evaluation_deliveries.len() + b.attempt_resolved_deliveries.len()
            + b.relocation_process_deliveries.len(),
        b.consumed_keys.len() == b.resolutions.len(),
        forall|i: int, j: int|
            0 <= i <= j < b.consumed_keys.len() ==> #[trigger] b.consumed_keys[i] <= #[trigger] b.consumed_keys[j],
        b.containment_delta == b.commits,
        forall|d: u32|
            d < b.post_commit_deliveries.len() ==> #[trigger] b.resolutions.contains(
                NormalizedDeliveryResolution::PostCommitConsumed { delivery: d },
            ),
        forall|d: u32|
            d < b.lifecycle_deliveries.len() ==> #[trigger] b.resolutions.contains(
                NormalizedDeliveryResolution::LifecycleConsumed { delivery: d },
            ),
        forall|d: u32|
            d < b.action_ready_deliveries.len() ==> #[trigger] b.resolutions.contains(
                NormalizedDeliveryResolution::ActionReadyConsumed { delivery: d },
            ),
        forall|d: u32|
            d < b.action_evaluation_deliveries.len() ==> #[trigger] b.resolutions.contains(
                NormalizedDeliveryResolution::ActionEvaluationConsumed { delivery: d },
            ),
        forall|d: u32|
            d < b.attempt_resolved_deliveries.len() ==> #[trigger] b.resolutions.contains(
                NormalizedDeliveryResolution::AttemptResolvedConsumed { delivery: d },
            ),
        forall|d: u32|
            d < b.relocation_process_deliveries.len() ==> #[trigger] b.resolutions.contains(
                NormalizedDeliveryResolution::RelocationProcessCompleted { delivery: d },
            ) || #[trigger] b.resolutions.contains(
                NormalizedDeliveryResolution::ObsoleteRelocationWake { delivery: d },
            ),
        forall|i: int, j: int|
            0 <= i < j < b.resolutions.len() ==> #[trigger] b.resolutions[i] != #[trigger] b.resolutions[j],
        forall|a: int|
            0 <= a < b.attempts.len() && #[trigger] b.attempts[a].resolution is Accepted
                ==> b.attempts[a].resolution->commit < b.commits.len(),
        forall|c: u32|
            c < b.commits.len() ==> #[trigger] b.attempt_resolutions().contains(
                NormalizedAttemptResolution::Accepted { commit: c },
            ),
        forall|i: int|
            0 <= i < b.resolutions.len() && #[trigger] b.resolutions[i] is NewCommand ==> {
                let delivery = b.resolutions[i]->NewCommand_delivery;
                let attempt = b.resolutions[i]->NewCommand_attempt;
                &&& delivery < b.command_deliveries.len()
                &&& attempt < b.attempts.len()
                &&& b.attempts[attempt as int].subject == AttemptSubjectView::EvaluatedCommand(
                    b.command_deliveries[delivery as int].command,
                )
            },
{
    assert(b.consumed_keys.len() == b.resolutions.len()) by {
        vstd::seq_lib::to_multiset_len(b.consumed_keys);
        vstd::seq_lib::to_multiset_len(b.delivery_keys());
    }
    assert forall|d: u32| d < b.post_commit_deliveries.len() implies #[trigger] b.resolutions.contains(
        NormalizedDeliveryResolution::PostCommitConsumed { delivery: d },
    ) by {
        let i = lemma_covering_resolution(b, DeliveryKind::PostCommit, d as int);
        assert(b.resolutions[i] == (NormalizedDeliveryResolution::PostCommitConsumed { delivery: d }));
    }
    assert forall|d: u32| d < b.lifecycle_deliveries.len() implies #[trigger] b.resolutions.contains(
        NormalizedDeliveryResolution::LifecycleConsumed { delivery: d },
    ) by {
        let i = lemma_covering_resolution(b, DeliveryKind::Lifecycle, d as int);
        assert(b.resolutions[i] == (NormalizedDeliveryResolution::LifecycleConsumed { delivery: d }));
    }
    assert forall|d: u32| d < b.action_ready_deliveries.len() implies #[trigger] b.resolutions.contains(
        NormalizedDeliveryResolution::ActionReadyConsumed { delivery: d },
    ) by {
        let i = lemma_covering_resolution(b, DeliveryKind::ActionReady, d as int);
        assert(b.resolutions[i] == (NormalizedDeliveryResolution::ActionReadyConsumed { delivery: d }));
    }
    assert forall|d: u32| d < b.action_evaluation_deliveries.len() implies #[trigger] b.resolutions.contains(
        NormalizedDeliveryResolution::ActionEvaluationConsumed { delivery: d },
    ) by {
        let i = lemma_covering_resolution(b, DeliveryKind::ActionEvaluation, d as int);
        assert(b.resolutions[i] == (NormalizedDeliveryResolution::ActionEvaluationConsumed { delivery: d }));
    }
    assert forall|d: u32| d < b.attempt_resolved_deliveries.len() implies #[trigger] b.resolutions.contains(
        NormalizedDeliveryResolution::AttemptResolvedConsumed { delivery: d },
    ) by {
        let i = lemma_covering_resolution(b, DeliveryKind::AttemptResolved, d as int);
        assert(b.resolutions[i] == (NormalizedDeliveryResolution::AttemptResolvedConsumed { delivery: d }));
    }
    assert forall|d: u32| d < b.relocation_process_deliveries.len() implies #[trigger] b.resolutions.contains(
        NormalizedDeliveryResolution::RelocationProcessCompleted { delivery: d },
    ) || #[trigger] b.resolutions.contains(NormalizedDeliveryResolution::ObsoleteRelocationWake { delivery: d }) by {
        let i = lemma_covering_resolution(b, DeliveryKind::RelocationProcess, d as int);
        assert(b.resolutions[i] == (NormalizedDeliveryResolution::RelocationProcessCompleted { delivery: d })
            || b.resolutions[i] == (NormalizedDeliveryResolution::ObsoleteRelocationWake { delivery: d }));
    }
    assert forall|a: int|
        0 <= a < b.attempts.len() && #[trigger] b.attempts[a].resolution is Accepted implies b.attempts[a].resolution->commit
        < b.commits.len() by {
        assert(commit_within(b.attempts[a].resolution, b.commits.len()));
    }
    assert forall|c: u32| c < b.commits.len() implies #[trigger] b.attempt_resolutions().contains(NormalizedAttemptResolution::Accepted { commit: c }) by {
        assert(b.commit_claimed(c as int));
        let a = choose|a: int| 0 <= a < b.attempts.len() && accepts_commit(#[trigger] b.attempts[a].resolution, c as int);
        assert(b.attempt_resolutions()[a] == (NormalizedAttemptResolution::Accepted {
            commit: c,
        }));
    }
    assert forall|i: int| 0 <= i < b.resolutions.len() && #[trigger] b.resolutions[i] is NewCommand implies {
        let delivery = b.resolutions[i]->NewCommand_delivery;
        let attempt = b.resolutions[i]->NewCommand_attempt;
        &&& delivery < b.command_deliveries.len()
        &&& attempt < b.attempts.len()
        &&& b.attempts[attempt as int].subject == AttemptSubjectView::EvaluatedCommand(
            b.command_deliveries[delivery as int].command,
        )
    } by {
        assert(b.resolution_sound(b.resolutions[i]));
    }
}

/// What publishing a moment under `record` gives, stated on the batch: every
/// list keeps its length; the commit, the attempt and the reaction at
/// position `i` are identified by `record` and `i` and keep their delta,
/// subject and payload; an accepted attempt names the commit record at its
/// commit position; a post-commit insertion keeps its key and content and
/// names the reaction record at its reaction position; new-attempt
/// resolutions name the attempt record at their attempt position; keys,
/// deliveries, the containment delta and the transition records are kept.
pub proof fn lemma_materialized_moment_identities(record: AuthorityRecordId, b: NormalizedMomentView)
    ensures
        ({
            let m = materialized_moment(record, b);
            &&& m.commits.len() == b.commits.len()
            &&& m.attempts.len() == b.attempts.len()
            &&& m.reactions.len() == b.reactions.len()
            &&& m.scheduler_insertions.len() == b.scheduler_insertions.len()
            &&& m.resolutions.len() == b.resolutions.len()
            &&& forall|i: int|
                0 <= i < b.commits.len() ==> (#[trigger] m.commits[i]).id == (CommitRecordId {
                    record,
                    index: i as u32,
                }) && m.commits[i].delta == b.commits[i]
            &&& forall|i: int|
                0 <= i < b.attempts.len() ==> (#[trigger] m.attempts[i]).id == (AttemptRecordId {
                    record,
                    index: i as u32,
                }) && m.attempts[i].subject == b.attempts[i].subject && match b.attempts[i].resolution {
                    NormalizedAttemptResolution::Accepted { commit } => m.attempts[i].resolution
                        == (RecordedCommandResolution::Accepted {
                        commit: CommitRecordId { record, index: commit },
                    }),
                    NormalizedAttemptResolution::Rejected(reason) => m.attempts[i].resolution
                        == RecordedCommandResolution::Rejected(reason),
                    NormalizedAttemptResolution::CommandIdCollision => m.attempts[i].resolution
                        == RecordedCommandResolution::CommandIdCollision,
                }
            &&& forall|i: int|
                0 <= i < b.reactions.len() ==> (#[trigger] m.reactions[i]).id == (ReactionEnvelopeId {
                    record,
                    index: i as u32,
                }) && m.reactions[i].reaction == b.reactions[i]
            &&& forall|i: int|
                0 <= i < b.scheduler_insertions.len() ==> match b.scheduler_insertions[i] {
                    NormalizedSchedulerInsertion::PostCommit { scheduler_key, reaction, dispatch } => (
                    #[trigger] m.scheduler_insertions[i]) == (SchedulerInsertionRecord {
                        scheduler_key,
                        work: ScheduledWork::PostCommit(
                            PostCommitDispatch {
                                reaction: ReactionEnvelopeId { record, index: reaction },
                                content: dispatch.content,
                            },
                        ),
                    }),
                    _ => m.scheduler_insertions[i].scheduler_key == insertion_key(b.scheduler_insertions[i]),
                }
            &&& forall|i: int|
                0 <= i < b.resolutions.len() ==> match b.resolutions[i] {
                    NormalizedDeliveryResolution::NewCommand { delivery, attempt } => (
                    #[trigger] m.resolutions[i]) == (DeliveryResolutionRecord::NewCommand {
                        delivery,
                        attempt: AttemptRecordId { record, index: attempt },
                    }),
                    NormalizedDeliveryResolution::NewCollision { delivery, attempt } => m.resolutions[i]
                        == (DeliveryResolutionRecord::NewCollision {
                        delivery,
                        attempt: AttemptRecordId { record, index: attempt },
                    }),
                    _ => true,
                }
            &&& m.consumed_keys == b.consumed_keys
            &&& m.command_deliveries == b.command_deliveries
            &&& m.containment_delta == b.containment_delta
            &&& m.transitions == b.transitions
        }),
{
}

/// The scheduler key of a normalized insertion.
pub open spec fn insertion_key(n: NormalizedSchedulerInsertion) -> u64 {
    match n {
        NormalizedSchedulerInsertion::PostCommit { scheduler_key, .. } => scheduler_key,
        NormalizedSchedulerInsertion::ActionCommand { scheduler_key, .. } => scheduler_key,
        NormalizedSchedulerInsertion::AttemptResolved { scheduler_key, .. } => scheduler_key,
        NormalizedSchedulerInsertion::RelocationProcess { scheduler_key, .. } => scheduler_key,
        NormalizedSchedulerInsertion::Lifecycle { scheduler_key, .. } => scheduler_key,
        NormalizedSchedulerInsertion::ActionReady { scheduler_key, .. } => scheduler_key,
        NormalizedSchedulerInsertion::ActionEvaluation { scheduler_key, .. } => scheduler_key,
    }
}

} // verus!
