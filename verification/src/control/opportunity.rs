//! Durable action opportunities: one-shot, versioned records of an actor's
//! chance to act, and the ledger that indexes them by identity and keeps
//! each actor's active opportunity unique.

use std::collections::BTreeMap;
use vstd::prelude::*;
use vstd::set_lib::lemma_set_empty_equivalency_len;

use crate::control::request_ledger::ordered_keys;
use crate::ids::{ActionEvaluationInvocationId, ActionOpportunityId, ActorId};

verus! {

/// How a consumed opportunity ended.
#[derive(Clone, Copy, Debug, PartialEq, Eq, Structural, PartialOrd, Ord, Hash)]
pub enum ActionOpportunityDisposition {
    ActionSubmitted,
    NoApplicableAction,
    Failed,
}

/// Lifecycle state of one opportunity.
#[derive(Clone, Copy, Debug, PartialEq, Eq, Structural, PartialOrd, Ord, Hash)]
pub enum ActionOpportunityState {
    Open,
    WaitingForEvaluation(ActionEvaluationInvocationId),
    Consumed(ActionOpportunityDisposition),
}

/// Optimistic-concurrency version of one opportunity; never zero.
#[derive(Clone, Copy, Debug, PartialEq, Eq, Structural, PartialOrd, Ord, Hash)]
pub struct ActionOpportunityVersion(pub u64);

impl ActionOpportunityVersion {
    /// The version of a freshly opened opportunity.
    pub fn initial() -> (r: Self)
        ensures
            r.0 == 1,
    {
        ActionOpportunityVersion(1)
    }

    /// A version with the given nonzero value.
    pub fn new(value: u64) -> (r: Option<Self>)
        ensures
            r == (if value == 0 {
                None::<ActionOpportunityVersion>
            } else {
                Some(ActionOpportunityVersion(value))
            }),
    {
        if value == 0 {
            None
        } else {
            Some(ActionOpportunityVersion(value))
        }
    }

    /// Raw value of the version.
    pub fn get(self) -> (r: u64)
        ensures
            r == self.0,
    {
        self.0
    }
}

/// Why an opportunity refused a transition.
#[derive(Clone, Copy, Debug, PartialEq, Eq, Structural)]
pub enum ActionOpportunityTransitionError {
    StaleVersion { expected: ActionOpportunityVersion, actual: ActionOpportunityVersion },
    AlreadyConsumed { disposition: ActionOpportunityDisposition },
    NotOpen,
    NotWaiting,
    InvocationMismatch {
        expected: ActionEvaluationInvocationId,
        supplied: ActionEvaluationInvocationId,
    },
    VersionExhausted,
}

/// One actor's durable chance to act.
#[derive(Clone, Copy, Debug, PartialEq, Eq, Structural)]
pub struct ActionOpportunity {
    pub id: ActionOpportunityId,
    pub actor: ActorId,
    pub generation: u64,
    pub evaluation_generation: u64,
    pub version: ActionOpportunityVersion,
    pub state: ActionOpportunityState,
}

/// The opportunity has not been consumed.
pub open spec fn is_active(opportunity: ActionOpportunity) -> bool {
    !(opportunity.state is Consumed)
}

/// Shared guard of every transition: consumed opportunities are final and
/// the caller must name the current version.
pub open spec fn transition_guard(
    opportunity: ActionOpportunity,
    expected: ActionOpportunityVersion,
) -> Option<ActionOpportunityTransitionError> {
    match opportunity.state {
        ActionOpportunityState::Consumed(disposition) => Some(
            ActionOpportunityTransitionError::AlreadyConsumed { disposition },
        ),
        _ => if opportunity.version != expected {
            Some(
                ActionOpportunityTransitionError::StaleVersion {
                    expected,
                    actual: opportunity.version,
                },
            )
        } else if opportunity.version.0 == u64::MAX {
            Some(ActionOpportunityTransitionError::VersionExhausted)
        } else {
            None
        },
    }
}

/// `opportunity` moved to `state` and advanced its version by one.
pub open spec fn advanced(
    opportunity: ActionOpportunity,
    state: ActionOpportunityState,
    evaluation_generation: u64,
) -> ActionOpportunity {
    ActionOpportunity {
        version: ActionOpportunityVersion((opportunity.version.0 + 1) as u64),
        state,
        evaluation_generation,
        ..opportunity
    }
}

/// Exact result of consuming an open opportunity.
pub open spec fn spec_consume(
    opportunity: ActionOpportunity,
    expected: ActionOpportunityVersion,
    disposition: ActionOpportunityDisposition,
) -> Result<ActionOpportunity, ActionOpportunityTransitionError> {
    match transition_guard(opportunity, expected) {
        Some(error) => Err(error),
        None => if opportunity.state is Open {
            Ok(
                advanced(
                    opportunity,
                    ActionOpportunityState::Consumed(disposition),
                    opportunity.evaluation_generation,
                ),
            )
        } else {
            Err(ActionOpportunityTransitionError::NotOpen)
        },
    }
}

/// Exact result of handing an open opportunity to a deferred evaluation.
pub open spec fn spec_begin_evaluation(
    opportunity: ActionOpportunity,
    expected: ActionOpportunityVersion,
    invocation: ActionEvaluationInvocationId,
) -> Result<ActionOpportunity, ActionOpportunityTransitionError> {
    match transition_guard(opportunity, expected) {
        Some(error) => Err(error),
        None => if opportunity.state is Open {
            Ok(
                advanced(
                    opportunity,
                    ActionOpportunityState::WaitingForEvaluation(invocation),
                    opportunity.evaluation_generation,
                ),
            )
        } else {
            Err(ActionOpportunityTransitionError::NotOpen)
        },
    }
}

/// Exact result of returning a waiting opportunity to `Open`; `reinvoke`
/// starts a new evaluation generation.
pub open spec fn spec_release_evaluation(
    opportunity: ActionOpportunity,
    expected: ActionOpportunityVersion,
    invocation: ActionEvaluationInvocationId,
    reinvoke: bool,
) -> Result<ActionOpportunity, ActionOpportunityTransitionError> {
    match transition_guard(opportunity, expected) {
        Some(error) => Err(error),
        None => match opportunity.state {
            ActionOpportunityState::WaitingForEvaluation(waiting) => if waiting != invocation {
                Err(
                    ActionOpportunityTransitionError::InvocationMismatch {
                        expected: waiting,
                        supplied: invocation,
                    },
                )
            } else if reinvoke && opportunity.evaluation_generation == u64::MAX {
                Err(ActionOpportunityTransitionError::VersionExhausted)
            } else {
                Ok(
                    advanced(
                        opportunity,
                        ActionOpportunityState::Open,
                        if reinvoke {
                            (opportunity.evaluation_generation + 1) as u64
                        } else {
                            opportunity.evaluation_generation
                        },
                    ),
                )
            },
            _ => Err(ActionOpportunityTransitionError::NotWaiting),
        },
    }
}

/// Returning a waiting opportunity to `Open` advances its version by one and
/// keeps its identity; a plain resume stays in the same evaluation generation,
/// and only a visible reinvocation starts the next one. Both succeed or fail
/// together unless the generation is exhausted.
pub proof fn lemma_release_evaluation_generations(
    opportunity: ActionOpportunity,
    expected: ActionOpportunityVersion,
    invocation: ActionEvaluationInvocationId,
)
    ensures
        match spec_release_evaluation(opportunity, expected, invocation, false) {
            Ok(next) => {
                &&& next.evaluation_generation == opportunity.evaluation_generation
                &&& next.state == ActionOpportunityState::Open
                &&& next.version.0 == opportunity.version.0 + 1
                &&& next.id == opportunity.id
                &&& next.actor == opportunity.actor
            },
            Err(_) => true,
        },
        match spec_release_evaluation(opportunity, expected, invocation, true) {
            Ok(next) => {
                &&& next.evaluation_generation == opportunity.evaluation_generation + 1
                &&& next.state == ActionOpportunityState::Open
                &&& next.version.0 == opportunity.version.0 + 1
                &&& next.id == opportunity.id
                &&& next.actor == opportunity.actor
            },
            Err(_) => true,
        },
        opportunity.evaluation_generation < u64::MAX ==> (spec_release_evaluation(
            opportunity,
            expected,
            invocation,
            false,
        ) is Ok <==> spec_release_evaluation(opportunity, expected, invocation, true) is Ok),
        spec_release_evaluation(opportunity, expected, invocation, true) is Ok ==> spec_release_evaluation(
            opportunity,
            expected,
            invocation,
            false,
        ) is Ok,
{
}

/// The one-shot lifecycle of an opportunity. Every transition needs the
/// expected version, which must not be exhausted, and advances it by one while
/// keeping identity, actor and generation. Consuming and beginning an
/// evaluation need an open opportunity; consuming records its disposition
/// and beginning waits for the invocation, both in the same evaluation
/// generation; releasing needs the opportunity to wait for exactly that
/// invocation. A consumed opportunity admits no transition.
pub proof fn lemma_opportunity_one_shot(
    o: ActionOpportunity,
    expected: ActionOpportunityVersion,
    disposition: ActionOpportunityDisposition,
    invocation: ActionEvaluationInvocationId,
    reinvoke: bool,
)
    ensures
        spec_consume(o, expected, disposition) is Ok <==> (o.state == ActionOpportunityState::Open
            && o.version == expected && o.version.0 < u64::MAX),
        spec_begin_evaluation(o, expected, invocation) is Ok <==> (o.state == ActionOpportunityState::Open
            && o.version == expected && o.version.0 < u64::MAX),
        spec_release_evaluation(o, expected, invocation, reinvoke) is Ok <==> (o.state
            == ActionOpportunityState::WaitingForEvaluation(invocation) && o.version == expected
            && o.version.0 < u64::MAX && (reinvoke ==> o.evaluation_generation < u64::MAX)),
        match spec_consume(o, expected, disposition) {
            Ok(next) => {
                &&& next.state == ActionOpportunityState::Consumed(disposition)
                &&& next.version.0 == o.version.0 + 1
                &&& next.evaluation_generation == o.evaluation_generation
                &&& next.id == o.id && next.actor == o.actor && next.generation == o.generation
            },
            Err(_) => true,
        },
        match spec_begin_evaluation(o, expected, invocation) {
            Ok(next) => {
                &&& next.state == ActionOpportunityState::WaitingForEvaluation(invocation)
                &&& next.version.0 == o.version.0 + 1
                &&& next.evaluation_generation == o.evaluation_generation
                &&& next.id == o.id && next.actor == o.actor && next.generation == o.generation
            },
            Err(_) => true,
        },
        match spec_release_evaluation(o, expected, invocation, reinvoke) {
            Ok(next) => next.generation == o.generation,
            Err(_) => true,
        },
        o.state is Consumed ==> {
            &&& spec_consume(o, expected, disposition) is Err
            &&& spec_begin_evaluation(o, expected, invocation) is Err
            &&& spec_release_evaluation(o, expected, invocation, reinvoke) is Err
        },
{
}

impl ActionOpportunity {
    /// A freshly opened opportunity at the initial version.
    pub fn open(id: ActionOpportunityId, actor: ActorId, generation: u64) -> (r: Self)
        ensures
            r == (ActionOpportunity {
                id,
                actor,
                generation,
                evaluation_generation: 0,
                version: ActionOpportunityVersion(1),
                state: ActionOpportunityState::Open,
            }),
    {
        ActionOpportunity {
            id,
            actor,
            generation,
            evaluation_generation: 0,
            version: ActionOpportunityVersion(1),
            state: ActionOpportunityState::Open,
        }
    }

    /// Identity of the opportunity.
    pub fn id(&self) -> (r: ActionOpportunityId)
        ensures
            r == self.id,
    {
        self.id
    }

    /// Actor the opportunity belongs to.
    pub fn actor(&self) -> (r: ActorId)
        ensures
            r == self.actor,
    {
        self.actor
    }

    /// Current version.
    pub fn version(&self) -> (r: ActionOpportunityVersion)
        ensures
            r == self.version,
    {
        self.version
    }

    /// Current lifecycle state.
    pub fn state(&self) -> (r: ActionOpportunityState)
        ensures
            r == self.state,
    {
        self.state
    }

    /// Evaluation generation; advances on each visible re-invocation.
    pub fn evaluation_generation(&self) -> (r: u64)
        ensures
            r == self.evaluation_generation,
    {
        self.evaluation_generation
    }

    fn guard(&self, expected: ActionOpportunityVersion) -> (r: Option<
        ActionOpportunityTransitionError,
    >)
        ensures
            r == transition_guard(*self, expected),
    {
        match self.state {
            ActionOpportunityState::Consumed(disposition) => Some(
                ActionOpportunityTransitionError::AlreadyConsumed { disposition },
            ),
            _ => if self.version != expected {
                Some(
                    ActionOpportunityTransitionError::StaleVersion {
                        expected,
                        actual: self.version,
                    },
                )
            } else if self.version.0 == u64::MAX {
                Some(ActionOpportunityTransitionError::VersionExhausted)
            } else {
                None
            },
        }
    }

    /// Consumes an open opportunity exactly once.
    pub fn consume(
        &self,
        expected: ActionOpportunityVersion,
        disposition: ActionOpportunityDisposition,
    ) -> (r: Result<ActionOpportunity, ActionOpportunityTransitionError>)
        ensures
            r == spec_consume(*self, expected, disposition),
    {
        if let Some(error) = self.guard(expected) {
            return Err(error);
        }
        match self.state {
            ActionOpportunityState::Open => Ok(
                ActionOpportunity {
                    version: ActionOpportunityVersion(self.version.0 + 1),
                    state: ActionOpportunityState::Consumed(disposition),
                    ..*self
                },
            ),
            _ => Err(ActionOpportunityTransitionError::NotOpen),
        }
    }

    /// Hands an open opportunity to the deferred evaluation `invocation`.
    pub fn begin_evaluation(
        &self,
        expected: ActionOpportunityVersion,
        invocation: ActionEvaluationInvocationId,
    ) -> (r: Result<ActionOpportunity, ActionOpportunityTransitionError>)
        ensures
            r == spec_begin_evaluation(*self, expected, invocation),
    {
        if let Some(error) = self.guard(expected) {
            return Err(error);
        }
        match self.state {
            ActionOpportunityState::Open => Ok(
                ActionOpportunity {
                    version: ActionOpportunityVersion(self.version.0 + 1),
                    state: ActionOpportunityState::WaitingForEvaluation(invocation),
                    ..*self
                },
            ),
            _ => Err(ActionOpportunityTransitionError::NotOpen),
        }
    }

    fn release_evaluation(
        &self,
        expected: ActionOpportunityVersion,
        invocation: ActionEvaluationInvocationId,
        reinvoke: bool,
    ) -> (r: Result<ActionOpportunity, ActionOpportunityTransitionError>)
        ensures
            r == spec_release_evaluation(*self, expected, invocation, reinvoke),
    {
        if let Some(error) = self.guard(expected) {
            return Err(error);
        }
        match self.state {
            ActionOpportunityState::WaitingForEvaluation(waiting) => {
                if waiting != invocation {
                    return Err(
                        ActionOpportunityTransitionError::InvocationMismatch {
                            expected: waiting,
                            supplied: invocation,
                        },
                    );
                }
                let evaluation_generation = if reinvoke {
                    if self.evaluation_generation == u64::MAX {
                        return Err(ActionOpportunityTransitionError::VersionExhausted);
                    }
                    self.evaluation_generation + 1
                } else {
                    self.evaluation_generation
                };
                Ok(
                    ActionOpportunity {
                        version: ActionOpportunityVersion(self.version.0 + 1),
                        state: ActionOpportunityState::Open,
                        evaluation_generation,
                        ..*self
                    },
                )
            },
            _ => Err(ActionOpportunityTransitionError::NotWaiting),
        }
    }

    /// Returns a waiting opportunity to `Open` within the same evaluation generation.
    pub fn resume_evaluation(
        &self,
        expected: ActionOpportunityVersion,
        invocation: ActionEvaluationInvocationId,
    ) -> (r: Result<ActionOpportunity, ActionOpportunityTransitionError>)
        ensures
            r == spec_release_evaluation(*self, expected, invocation, false),
    {
        self.release_evaluation(expected, invocation, false)
    }

    /// Returns a waiting opportunity to `Open` for a new, visible evaluation generation.
    pub fn reopen_for_visible_reinvocation(
        &self,
        expected: ActionOpportunityVersion,
        invocation: ActionEvaluationInvocationId,
    ) -> (r: Result<ActionOpportunity, ActionOpportunityTransitionError>)
        ensures
            r == spec_release_evaluation(*self, expected, invocation, true),
    {
        self.release_evaluation(expected, invocation, true)
    }
}

/// Why an action opportunity could not complete its one-shot transition.
#[derive(Clone, Copy, Debug, PartialEq, Eq, Structural)]
pub enum ActionOpportunityLedgerError {
    DuplicateOpportunity { opportunity: ActionOpportunityId },
    ActorAlreadyHasActiveOpportunity { actor: ActorId, existing: ActionOpportunityId },
    UnknownOpportunity { opportunity: ActionOpportunityId },
    TransitionRejected { opportunity: ActionOpportunityId, error: ActionOpportunityTransitionError },
}

/// One requested transition of a retained opportunity.
#[derive(Clone, Copy, Debug, PartialEq, Eq, Structural)]
pub enum OpportunityStep {
    Consume(ActionOpportunityDisposition),
    BeginEvaluation(ActionEvaluationInvocationId),
    ResumeEvaluation(ActionEvaluationInvocationId),
    ReopenForVisibleReinvocation(ActionEvaluationInvocationId),
}

/// Exact result of applying `step` to `opportunity`.
pub open spec fn spec_step(
    opportunity: ActionOpportunity,
    expected: ActionOpportunityVersion,
    step: OpportunityStep,
) -> Result<ActionOpportunity, ActionOpportunityTransitionError> {
    match step {
        OpportunityStep::Consume(disposition) => spec_consume(opportunity, expected, disposition),
        OpportunityStep::BeginEvaluation(invocation) => spec_begin_evaluation(
            opportunity,
            expected,
            invocation,
        ),
        OpportunityStep::ResumeEvaluation(invocation) => spec_release_evaluation(
            opportunity,
            expected,
            invocation,
            false,
        ),
        OpportunityStep::ReopenForVisibleReinvocation(invocation) => spec_release_evaluation(
            opportunity,
            expected,
            invocation,
            true,
        ),
    }
}

/// Every successful step keeps identity, actor and opening generation,
/// advances the version by exactly one, never revives a consumed
/// opportunity, and leaves an opportunity active unless it consumes it.
pub proof fn lemma_step_is_one_shot(
    opportunity: ActionOpportunity,
    expected: ActionOpportunityVersion,
    step: OpportunityStep,
)
    ensures
        !is_active(opportunity) ==> spec_step(opportunity, expected, step) is Err,
        spec_step(opportunity, expected, step) matches Ok(next) ==> {
            &&& next.id == opportunity.id
            &&& next.actor == opportunity.actor
            &&& next.generation == opportunity.generation
            &&& opportunity.version == expected
            &&& next.version.0 == opportunity.version.0 + 1
            &&& (is_active(next) <==> !(step is Consume))
        },
{
}

/// What each step does to the evaluation state: consuming records its
/// disposition, beginning an evaluation waits for its invocation, resuming
/// reopens in the same evaluation generation and a visible reinvocation
/// reopens in the next one; no step but a reinvocation changes the
/// evaluation generation.
pub proof fn lemma_step_evaluation_generations(
    opportunity: ActionOpportunity,
    expected: ActionOpportunityVersion,
    step: OpportunityStep,
)
    ensures
        match spec_step(opportunity, expected, step) {
            Ok(next) => match step {
                OpportunityStep::Consume(disposition) => next.state == ActionOpportunityState::Consumed(
                    disposition,
                ) && next.evaluation_generation == opportunity.evaluation_generation,
                OpportunityStep::BeginEvaluation(invocation) => next.state
                    == ActionOpportunityState::WaitingForEvaluation(invocation)
                    && next.evaluation_generation == opportunity.evaluation_generation,
                OpportunityStep::ResumeEvaluation(invocation) => opportunity.state
                    == ActionOpportunityState::WaitingForEvaluation(invocation) && next.state
                    == ActionOpportunityState::Open && next.evaluation_generation
                    == opportunity.evaluation_generation,
                OpportunityStep::ReopenForVisibleReinvocation(invocation) => opportunity.state
                    == ActionOpportunityState::WaitingForEvaluation(invocation) && next.state
                    == ActionOpportunityState::Open && next.evaluation_generation
                    == opportunity.evaluation_generation + 1,
            },
            Err(_) => true,
        },
{
}

/// Abstract state of the opportunity ledger.
pub struct OpportunityLedgerView {
    pub entries: Map<u64, ActionOpportunity>,
}

impl OpportunityLedgerView {
    /// Every opportunity is indexed by its own identity.
    pub open spec fn wf(self) -> bool {
        forall|k: u64| #[trigger] self.entries.contains_key(k) ==> self.entries[k].id.0 == k
    }

    /// No actor holds two active opportunities.
    pub open spec fn unique_active(self) -> bool {
        forall|a: u64, b: u64|
            #![trigger self.entries.contains_key(a), self.entries.contains_key(b)]
            self.entries.contains_key(a) && self.entries.contains_key(b) && a != b
                && self.entries[a].actor == self.entries[b].actor ==> !is_active(self.entries[a])
                || !is_active(self.entries[b])
    }

    /// `existing` is the least-identity active opportunity of `actor`.
    pub open spec fn is_first_active(self, actor: ActorId, existing: u64) -> bool {
        &&& self.entries.contains_key(existing)
        &&& self.entries[existing].actor == actor
        &&& is_active(self.entries[existing])
        &&& forall|k: u64| #[trigger] self.entries.contains_key(k) && k < existing
            && self.entries[k].actor == actor ==> !is_active(self.entries[k])
    }

    /// `actor` holds some active opportunity.
    pub open spec fn has_active(self, actor: ActorId) -> bool {
        exists|k: u64| #[trigger] self.entries.contains_key(k) && self.entries[k].actor == actor
            && is_active(self.entries[k])
    }

    /// Exact result of applying `step` to the retained opportunity `id`.
    pub open spec fn step(
        self,
        id: ActionOpportunityId,
        expected: ActionOpportunityVersion,
        step: OpportunityStep,
    ) -> Result<ActionOpportunity, ActionOpportunityLedgerError> {
        if !self.entries.contains_key(id.0) {
            Err(ActionOpportunityLedgerError::UnknownOpportunity { opportunity: id })
        } else {
            match spec_step(self.entries[id.0], expected, step) {
                Ok(next) => Ok(next),
                Err(error) => Err(
                    ActionOpportunityLedgerError::TransitionRejected { opportunity: id, error },
                ),
            }
        }
    }
}

/// Durable action opportunities indexed by their identity.
#[derive(Clone, Debug)]
pub struct ActionOpportunityLedger {
    entries: BTreeMap<u64, ActionOpportunity>,
}

impl View for ActionOpportunityLedger {
    type V = OpportunityLedgerView;

    closed spec fn view(&self) -> OpportunityLedgerView {
        OpportunityLedgerView { entries: self.entries@ }
    }
}

impl Default for ActionOpportunityLedger {
    fn default() -> (r: Self)
        ensures
            r@.entries == Map::<u64, ActionOpportunity>::empty(),
            r@.wf(),
            r@.unique_active(),
    {
        ActionOpportunityLedger { entries: BTreeMap::new() }
    }
}

impl ActionOpportunityLedger {
    /// No opportunity is retained.
    pub fn is_empty(&self) -> (r: bool)
        ensures
            r == (self@.entries == Map::<u64, ActionOpportunity>::empty()),
    {
        proof {
            lemma_set_empty_equivalency_len(self@.entries.dom());
        }
        let r = self.entries.len() == 0;
        proof {
            if r {
                assert(self@.entries =~= Map::<u64, ActionOpportunity>::empty());
            }
        }
        r
    }

    /// Indexes the opportunities of a checked initial root, whose identities are distinct.
    pub fn from_root(opportunities: &[ActionOpportunity]) -> (r: Self)
        requires
            forall|i: int, j: int|
                0 <= i < j < opportunities@.len() ==> opportunities@[i].id != opportunities@[j].id,
        ensures
            r@.wf(),
            forall|k: u64| #[trigger] r@.entries.contains_key(k) <==> exists|i: int|
                0 <= i < opportunities@.len() && opportunities@[i].id.0 == k,
            forall|i: int| 0 <= i < opportunities@.len() ==> #[trigger] r@.entries[opportunities@[i].id.0]
                == opportunities@[i],
    {
        let mut entries: BTreeMap<u64, ActionOpportunity> = BTreeMap::new();
        let mut i: usize = 0;
        while i < opportunities.len()
            invariant
                i <= opportunities@.len(),
                forall|a: int, b: int|
                    0 <= a < b < opportunities@.len() ==> opportunities@[a].id != opportunities@[b].id,
                forall|k: u64| #[trigger] entries@.contains_key(k) ==> entries@[k].id.0 == k,
                forall|k: u64| #[trigger] entries@.contains_key(k) <==> exists|j: int|
                    0 <= j < i && opportunities@[j].id.0 == k,
                forall|j: int| 0 <= j < i ==> #[trigger] entries@[opportunities@[j].id.0]
                    == opportunities@[j],
            decreases opportunities@.len() - i,
        {
            let opportunity = opportunities[i];
            let ghost before = entries@;
            entries.insert(opportunity.id.get(), opportunity);
            proof {
                assert forall|k: u64| #[trigger] entries@.contains_key(k) <==> exists|j: int|
                    0 <= j < i + 1 && opportunities@[j].id.0 == k by {
                    if k == opportunity.id.0 {
                        assert(opportunities@[i as int].id.0 == k);
                    } else if entries@.contains_key(k) {
                        assert(before.contains_key(k));
                    }
                }
                assert forall|j: int| 0 <= j < i + 1 implies #[trigger] entries@[opportunities@[j].id.0]
                    == opportunities@[j] by {
                    if j < i {
                        assert(opportunities@[j].id != opportunities@[i as int].id);
                        assert(opportunities@[j].id.0 != opportunities@[i as int].id.0);
                    }
                }
            }
            i = i + 1;
        }
        ActionOpportunityLedger { entries }
    }

    /// The retained opportunity `id`, if any.
    pub fn get(&self, id: ActionOpportunityId) -> (r: Option<&ActionOpportunity>)
        ensures
            match r {
                Some(opportunity) => self@.entries.contains_key(id.0) && *opportunity
                    == self@.entries[id.0],
                None => !self@.entries.contains_key(id.0),
            },
    {
        self.entries.get(&id.get())
    }

    /// Finds the least-identity active opportunity of `actor`.
    fn first_active(&self, actor: ActorId) -> (r: Option<ActionOpportunityId>)
        requires
            self@.wf(),
        ensures
            match r {
                Some(existing) => self@.is_first_active(actor, existing.0),
                None => !self@.has_active(actor),
            },
    {
        let keys = ordered_keys(&self.entries);
        let mut i: usize = 0;
        while i < keys.len()
            invariant
                i <= keys@.len(),
                self@.wf(),
                keys@.to_set() == self.entries@.dom(),
                forall|a: int, b: int| 0 <= a < b < keys@.len() ==> keys@[a] < keys@[b],
                forall|j: int| 0 <= j < i ==> !(self.entries@[#[trigger] keys@[j]].actor == actor
                    && is_active(self.entries@[keys@[j]])),
            decreases keys@.len() - i,
        {
            let key = keys[i];
            assert(keys@.to_set().contains(keys@[i as int]));
            let opportunity = self.entries.get(&key).unwrap();
            let active = match opportunity.state {
                ActionOpportunityState::Consumed(_) => false,
                _ => true,
            };
            if opportunity.actor == actor && active {
                proof {
                    assert forall|k: u64| #[trigger] self@.entries.contains_key(k) && k < key
                        && self@.entries[k].actor == actor implies !is_active(self@.entries[k]) by {
                        assert(keys@.to_set().contains(k));
                        let j = choose|j: int| 0 <= j < keys@.len() && keys@[j] == k;
                        if j >= i {
                            if j > i {
                                assert(keys@[i as int] < keys@[j]);
                            }
                        }
                    }
                }
                return Some(opportunity.id);
            }
            i = i + 1;
        }
        proof {
            if self@.has_active(actor) {
                let k = choose|k: u64| #[trigger] self@.entries.contains_key(k)
                    && self@.entries[k].actor == actor && is_active(self@.entries[k]);
                assert(keys@.to_set().contains(k));
                let j = choose|j: int| 0 <= j < keys@.len() && keys@[j] == k;
                assert(!(self.entries@[keys@[j]].actor == actor && is_active(
                    self.entries@[keys@[j]],
                )));
            }
        }
        None
    }

    /// Opens `opportunity` unless its identity is taken or its actor already
    /// holds an active opportunity.
    pub fn open(&mut self, opportunity: ActionOpportunity) -> (r: Result<
        &ActionOpportunity,
        ActionOpportunityLedgerError,
    >)
        requires
            old(self)@.wf(),
        ensures
            final(self)@.wf(),
            old(self)@.unique_active() && is_active(opportunity) ==> final(self)@.unique_active(),
            old(self)@.entries.contains_key(opportunity.id.0) ==> r == Err::<
                &ActionOpportunity,
                ActionOpportunityLedgerError,
            >(ActionOpportunityLedgerError::DuplicateOpportunity { opportunity: opportunity.id }),
            !old(self)@.entries.contains_key(opportunity.id.0) && old(self)@.has_active(
                opportunity.actor,
            ) ==> (r matches Err(ActionOpportunityLedgerError::ActorAlreadyHasActiveOpportunity {
                actor,
                existing,
            }) && actor == opportunity.actor && old(self)@.is_first_active(actor, existing.0)),
            r is Ok <==> !old(self)@.entries.contains_key(opportunity.id.0) && !old(self)@.has_active(
                opportunity.actor,
            ),
            r matches Ok(opened) ==> *opened == opportunity && final(self)@.entries == old(
                self,
            )@.entries.insert(opportunity.id.0, opportunity),
            r is Err ==> final(self)@ == old(self)@,
    {
        let id = opportunity.id.get();
        if self.entries.contains_key(&id) {
            return Err(
                ActionOpportunityLedgerError::DuplicateOpportunity { opportunity: opportunity.id },
            );
        }
        if let Some(existing) = self.first_active(opportunity.actor) {
            return Err(
                ActionOpportunityLedgerError::ActorAlreadyHasActiveOpportunity {
                    actor: opportunity.actor,
                    existing,
                },
            );
        }
        self.entries.insert(id, opportunity);
        proof {
            assert forall|a: u64, b: u64|
                #![trigger self@.entries.contains_key(a), self@.entries.contains_key(b)]
                old(self)@.unique_active() && self@.entries.contains_key(a) && self@.entries.contains_key(b)
                    && a != b && self@.entries[a].actor == self@.entries[b].actor implies !is_active(
                self@.entries[a],
            ) || !is_active(self@.entries[b]) by {
                if a == id {
                    assert(old(self)@.entries.contains_key(b));
                } else if b == id {
                    assert(old(self)@.entries.contains_key(a));
                } else {
                    assert(old(self)@.entries.contains_key(a));
                    assert(old(self)@.entries.contains_key(b));
                }
            }
        }
        Ok(self.entries.get(&id).unwrap())
    }

    /// Applies one guarded step to the retained opportunity `id` and installs its successor.
    pub fn transition(
        &mut self,
        id: ActionOpportunityId,
        expected_version: ActionOpportunityVersion,
        step: OpportunityStep,
    ) -> (r: Result<&ActionOpportunity, ActionOpportunityLedgerError>)
        requires
            old(self)@.wf(),
        ensures
            final(self)@.wf(),
            old(self)@.unique_active() ==> final(self)@.unique_active(),
            match old(self)@.step(id, expected_version, step) {
                Ok(next) => r matches Ok(installed) && *installed == next && final(self)@.entries
                    == old(self)@.entries.insert(id.0, next),
                Err(error) => r == Err::<&ActionOpportunity, ActionOpportunityLedgerError>(error)
                    && final(self)@ == old(self)@,
            },
    {
        let current = match self.entries.get(&id.get()) {
            Some(current) => *current,
            None => return Err(ActionOpportunityLedgerError::UnknownOpportunity { opportunity: id }),
        };
        let successor = match step {
            OpportunityStep::Consume(disposition) => current.consume(expected_version, disposition),
            OpportunityStep::BeginEvaluation(invocation) => current.begin_evaluation(
                expected_version,
                invocation,
            ),
            OpportunityStep::ResumeEvaluation(invocation) => current.resume_evaluation(
                expected_version,
                invocation,
            ),
            OpportunityStep::ReopenForVisibleReinvocation(invocation) => current.reopen_for_visible_reinvocation(
                expected_version,
                invocation,
            ),
        };
        let successor = match successor {
            Ok(successor) => successor,
            Err(error) => return Err(
                ActionOpportunityLedgerError::TransitionRejected { opportunity: id, error },
            ),
        };
        proof {
            lemma_step_is_one_shot(current, expected_version, step);
        }
        self.entries.insert(id.get(), successor);
        proof {
            assert forall|a: u64, b: u64|
                #![trigger self@.entries.contains_key(a), self@.entries.contains_key(b)]
                old(self)@.unique_active() && self@.entries.contains_key(a) && self@.entries.contains_key(b)
                    && a != b && self@.entries[a].actor == self@.entries[b].actor implies !is_active(
                self@.entries[a],
            ) || !is_active(self@.entries[b]) by {
                assert(old(self)@.entries.contains_key(a));
                assert(old(self)@.entries.contains_key(b));
            }
        }
        Ok(self.entries.get(&id.get()).unwrap())
    }

    /// Consumes the retained opportunity `id` exactly once.
    pub fn consume(
        &mut self,
        id: ActionOpportunityId,
        expected_version: ActionOpportunityVersion,
        disposition: ActionOpportunityDisposition,
    ) -> (r: Result<&ActionOpportunity, ActionOpportunityLedgerError>)
        requires
            old(self)@.wf(),
        ensures
            final(self)@.wf(),
            old(self)@.unique_active() ==> final(self)@.unique_active(),
            match old(self)@.step(id, expected_version, OpportunityStep::Consume(disposition)) {
                Ok(next) => r matches Ok(installed) && *installed == next && final(self)@.entries
                    == old(self)@.entries.insert(id.0, next),
                Err(error) => r == Err::<&ActionOpportunity, ActionOpportunityLedgerError>(error)
                    && final(self)@ == old(self)@,
            },
    {
        self.transition(id, expected_version, OpportunityStep::Consume(disposition))
    }

    /// Hands the retained open opportunity `id` to the evaluation `invocation`.
    pub fn begin_evaluation(
        &mut self,
        id: ActionOpportunityId,
        expected_version: ActionOpportunityVersion,
        invocation: ActionEvaluationInvocationId,
    ) -> (r: Result<&ActionOpportunity, ActionOpportunityLedgerError>)
        requires
            old(self)@.wf(),
        ensures
            final(self)@.wf(),
            old(self)@.unique_active() ==> final(self)@.unique_active(),
            match old(self)@.step(id, expected_version, OpportunityStep::BeginEvaluation(invocation)) {
                Ok(next) => r matches Ok(installed) && *installed == next && final(self)@.entries
                    == old(self)@.entries.insert(id.0, next),
                Err(error) => r == Err::<&ActionOpportunity, ActionOpportunityLedgerError>(error)
                    && final(self)@ == old(self)@,
            },
    {
        self.transition(id, expected_version, OpportunityStep::BeginEvaluation(invocation))
    }

    /// Returns the waiting opportunity `id` to `Open` in the same evaluation generation.
    pub fn resume_evaluation(
        &mut self,
        id: ActionOpportunityId,
        expected_version: ActionOpportunityVersion,
        invocation: ActionEvaluationInvocationId,
    ) -> (r: Result<&ActionOpportunity, ActionOpportunityLedgerError>)
        requires
            old(self)@.wf(),
        ensures
            final(self)@.wf(),
            old(self)@.unique_active() ==> final(self)@.unique_active(),
            match old(self)@.step(id, expected_version, OpportunityStep::ResumeEvaluation(invocation)) {
                Ok(next) => r matches Ok(installed) && *installed == next && final(self)@.entries
                    == old(self)@.entries.insert(id.0, next),
                Err(error) => r == Err::<&ActionOpportunity, ActionOpportunityLedgerError>(error)
                    && final(self)@ == old(self)@,
            },
    {
        self.transition(id, expected_version, OpportunityStep::ResumeEvaluation(invocation))
    }

    /// Returns the waiting opportunity `id` to `Open` for a new evaluation generation.
    pub fn reopen_for_visible_reinvocation(
        &mut self,
        id: ActionOpportunityId,
        expected_version: ActionOpportunityVersion,
        invocation: ActionEvaluationInvocationId,
    ) -> (r: Result<&ActionOpportunity, ActionOpportunityLedgerError>)
        requires
            old(self)@.wf(),
        ensures
            final(self)@.wf(),
            old(self)@.unique_active() ==> final(self)@.unique_active(),
            match old(self)@.step(
                id,
                expected_version,
                OpportunityStep::ReopenForVisibleReinvocation(invocation),
            ) {
                Ok(next) => r matches Ok(installed) && *installed == next && final(self)@.entries
                    == old(self)@.entries.insert(id.0, next),
                Err(error) => r == Err::<&ActionOpportunity, ActionOpportunityLedgerError>(error)
                    && final(self)@ == old(self)@,
            },
    {
        self.transition(
            id,
            expected_version,
            OpportunityStep::ReopenForVisibleReinvocation(invocation),
        )
    }
}

} // verus!
