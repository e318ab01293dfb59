//! Authoritative retained request state installed by published records.

use vstd::prelude::*;

use crate::control::appraisal::{
    AppraisalLedgerView, ContainmentAppraisal, ContainmentAppraisalLedger,
};
use crate::control::command_ledger::{CommandLedgerEntry, CommandLedgerView, CommandRequestLedger};
use crate::control::lifecycle::{LifecycleControlLedger, LifecycleLedgerView, LifecycleRecordView};
use crate::control::opportunity::{
    ActionOpportunity, ActionOpportunityDisposition, ActionOpportunityLedger,
    ActionOpportunityLedgerError, ActionOpportunityVersion, OpportunityLedgerView, OpportunityStep,
};
use crate::control::request_ledger::{
    InputLedgerEntry, InputRequestLedger, ManagementLedgerEntry, ManagementRequestLedger,
    RequestLedgerView,
};
use crate::control::retirement::LedgerRetirementError;
use crate::ids::{ActionEvaluationInvocationId, ActionOpportunityId, ManagementRequestId};
use crate::kernel::LedgerRetirement;

verus! {

/// Abstract state of the runtime control ledgers.
pub struct RuntimeControlView {
    pub input: RequestLedgerView<InputLedgerEntry>,
    pub management: RequestLedgerView<ManagementLedgerEntry>,
    pub command: CommandLedgerView,
    pub action_opportunities: OpportunityLedgerView,
    pub lifecycle: LifecycleLedgerView,
    pub appraisals: AppraisalLedgerView,
}

impl RuntimeControlView {
    /// Every ledger satisfies its own invariant.
    pub open spec fn wf(self) -> bool {
        &&& self.input.wf()
        &&& self.management.wf()
        &&& self.command.wf()
        &&& self.action_opportunities.wf()
        &&& self.lifecycle.wf()
    }

    /// Exact answer of a typed retirement carried by management request `current`.
    pub open spec fn retirement(
        self,
        retirement: LedgerRetirement,
        current: ManagementRequestId,
    ) -> Result<(), LedgerRetirementError> {
        match retirement {
            LedgerRetirement::InputThrough(target) => self.input.retirement(target.0),
            LedgerRetirement::ManagementThrough(target) => if target.0 >= current.0 {
                Err(
                    LedgerRetirementError::ManagementTargetNotBeforeRequest {
                        target,
                        request: current,
                    },
                )
            } else {
                self.management.retirement(target.0)
            },
            LedgerRetirement::CommandThrough { source, command } => self.command.retirement(
                source.0,
                command.0,
            ),
        }
    }

    /// State after a successful typed retirement: only the selected frontier moves.
    pub open spec fn retired(self, retirement: LedgerRetirement) -> Self {
        match retirement {
            LedgerRetirement::InputThrough(target) => RuntimeControlView {
                input: self.input.retired(target.0),
                ..self
            },
            LedgerRetirement::ManagementThrough(target) => RuntimeControlView {
                management: self.management.retired(target.0),
                ..self
            },
            LedgerRetirement::CommandThrough { source, command } => RuntimeControlView {
                command: self.command.retired(source.0, command.0),
                ..self
            },
        }
    }
}

/// Authoritative retained request state installed by published records.
#[derive(Debug)]
pub struct RuntimeControlState {
    input: InputRequestLedger,
    management: ManagementRequestLedger,
    command: CommandRequestLedger,
    action_opportunities: ActionOpportunityLedger,
    lifecycle: LifecycleControlLedger,
    appraisals: ContainmentAppraisalLedger,
}

impl View for RuntimeControlState {
    type V = RuntimeControlView;

    closed spec fn view(&self) -> RuntimeControlView {
        RuntimeControlView {
            input: self.input@,
            management: self.management@,
            command: self.command@,
            action_opportunities: self.action_opportunities@,
            lifecycle: self.lifecycle@,
            appraisals: self.appraisals@,
        }
    }
}

impl Default for RuntimeControlState {
    fn default() -> (r: Self)
        ensures
            r@.wf(),
            r.is_empty_view(),
    {
        RuntimeControlState {
            input: InputRequestLedger::default(),
            management: ManagementRequestLedger::default(),
            command: CommandRequestLedger::default(),
            action_opportunities: ActionOpportunityLedger::default(),
            lifecycle: LifecycleControlLedger::default(),
            appraisals: ContainmentAppraisalLedger::default(),
        }
    }
}

impl RuntimeControlState {
    /// No ledger retains anything and no frontier has moved.
    pub open spec fn is_empty_view(&self) -> bool {
        &&& self.is_empty_except_opportunities()
        &&& self@.action_opportunities.entries == Map::<u64, ActionOpportunity>::empty()
    }

    /// Every ledger but the opportunity ledger is empty and no frontier has moved.
    pub open spec fn is_empty_except_opportunities(&self) -> bool {
        &&& self@.input.retired_through is None
        &&& self@.input.entries == Map::<u64, InputLedgerEntry>::empty()
        &&& self@.management.retired_through is None
        &&& self@.management.entries == Map::<u64, ManagementLedgerEntry>::empty()
        &&& self@.command.retired_through == Map::<u64, u64>::empty()
        &&& self@.command.entries == Map::<(u64, u64), CommandLedgerEntry>::empty()
        &&& self@.lifecycle.entries == Map::<(u64, u64), LifecycleRecordView>::empty()
        &&& self@.appraisals.entries == Map::<(u64, u64), ContainmentAppraisal>::empty()
        &&& self@.appraisals.by_material == Map::<(u64, u64), ContainmentAppraisal>::empty()
    }

    /// Control state of a checked initial root: only its opportunities are retained.
    pub fn from_root(opportunities: &[ActionOpportunity]) -> (r: Self)
        requires
            forall|i: int, j: int|
                0 <= i < j < opportunities@.len() ==> opportunities@[i].id != opportunities@[j].id,
        ensures
            r@.wf(),
            forall|k: u64| #[trigger] r@.action_opportunities.entries.contains_key(k) <==> exists|i: int|
                0 <= i < opportunities@.len() && opportunities@[i].id.0 == k,
            forall|i: int| 0 <= i < opportunities@.len() ==> #[trigger] r@.action_opportunities.entries[opportunities@[i].id.0]
                == opportunities@[i],
            r.is_empty_except_opportunities(),
    {
        RuntimeControlState {
            input: InputRequestLedger::default(),
            management: ManagementRequestLedger::default(),
            command: CommandRequestLedger::default(),
            action_opportunities: ActionOpportunityLedger::from_root(opportunities),
            lifecycle: LifecycleControlLedger::default(),
            appraisals: ContainmentAppraisalLedger::default(),
        }
    }
}

impl RuntimeControlState {
    /// Control state that retains nothing.
    pub fn empty() -> (r: Self)
        ensures
            r@.wf(),
            r.is_empty_view(),
    {
        RuntimeControlState::default()
    }

    /// Whether every ledger is empty and no frontier has moved.
    pub fn is_empty(&self) -> (r: bool)
        ensures
            r == self.is_empty_view(),
    {
        self.input.retired_through().is_none() && self.input.is_empty()
            && self.management.retired_through().is_none() && self.management.is_empty()
            && self.command.is_empty() && self.action_opportunities.is_empty()
            && self.lifecycle.is_empty() && self.appraisals.is_empty()
    }

    /// The input ledger.
    pub fn input(&self) -> (r: &InputRequestLedger)
        ensures
            r@ == self@.input,
    {
        &self.input
    }

    /// The management ledger.
    pub fn management(&self) -> (r: &ManagementRequestLedger)
        ensures
            r@ == self@.management,
    {
        &self.management
    }

    /// The command ledger.
    pub fn command(&self) -> (r: &CommandRequestLedger)
        ensures
            r@ == self@.command,
    {
        &self.command
    }

    /// The action-opportunity ledger.
    pub fn action_opportunities(&self) -> (r: &ActionOpportunityLedger)
        ensures
            r@ == self@.action_opportunities,
    {
        &self.action_opportunities
    }

    /// The lifecycle control ledger.
    pub fn lifecycle(&self) -> (r: &LifecycleControlLedger)
        ensures
            r@ == self@.lifecycle,
    {
        &self.lifecycle
    }

    /// The containment appraisal ledger.
    pub fn appraisals(&self) -> (r: &ContainmentAppraisalLedger)
        ensures
            r@ == self@.appraisals,
    {
        &self.appraisals
    }

    /// Mutable access to the input ledger alone.
    pub fn input_mut(&mut self) -> (r: &mut InputRequestLedger)
        ensures
            r@ == old(self)@.input,
            final(self)@ == (RuntimeControlView { input: final(r)@, ..old(self)@ }),
    {
        &mut self.input
    }

    /// Mutable access to the management ledger alone.
    pub fn management_mut(&mut self) -> (r: &mut ManagementRequestLedger)
        ensures
            r@ == old(self)@.management,
            final(self)@ == (RuntimeControlView { management: final(r)@, ..old(self)@ }),
    {
        &mut self.management
    }

    /// Mutable access to the command ledger alone.
    pub fn command_mut(&mut self) -> (r: &mut CommandRequestLedger)
        ensures
            r@ == old(self)@.command,
            final(self)@ == (RuntimeControlView { command: final(r)@, ..old(self)@ }),
    {
        &mut self.command
    }

    /// Mutable access to the lifecycle control ledger alone.
    pub fn lifecycle_mut(&mut self) -> (r: &mut LifecycleControlLedger)
        ensures
            r@ == old(self)@.lifecycle,
            final(self)@ == (RuntimeControlView { lifecycle: final(r)@, ..old(self)@ }),
    {
        &mut self.lifecycle
    }

    /// Mutable access to the containment appraisal ledger alone.
    pub fn appraisals_mut(&mut self) -> (r: &mut ContainmentAppraisalLedger)
        ensures
            r@ == old(self)@.appraisals,
            final(self)@ == (RuntimeControlView { appraisals: final(r)@, ..old(self)@ }),
    {
        &mut self.appraisals
    }

    /// Consumes a retained action opportunity exactly once.
    pub fn consume_action_opportunity(
        &mut self,
        id: ActionOpportunityId,
        expected_version: ActionOpportunityVersion,
        disposition: ActionOpportunityDisposition,
    ) -> (r: Result<&ActionOpportunity, ActionOpportunityLedgerError>)
        requires
            old(self)@.wf(),
        ensures
            final(self)@.wf(),
            old(self)@.action_opportunities.unique_active() ==> final(self)@.action_opportunities.unique_active(),
            match old(self)@.action_opportunities.step(id, expected_version, OpportunityStep::Consume(disposition)) {
                Ok(next) => r matches Ok(installed) && *installed == next && final(self)@ == (RuntimeControlView {
                    action_opportunities: OpportunityLedgerView {
                        entries: old(self)@.action_opportunities.entries.insert(id.0, next),
                    },
                    ..old(self)@
                }),
                Err(error) => r == Err::<&ActionOpportunity, ActionOpportunityLedgerError>(error)
                    && final(self)@ == old(self)@,
            },
    {
        self.action_opportunities.consume(id, expected_version, disposition)
    }

    /// Opens a new action opportunity unless its identity is taken or its
    /// actor already holds an active one.
    pub fn open_action_opportunity(&mut self, opportunity: ActionOpportunity) -> (r: Result<
        &ActionOpportunity,
        ActionOpportunityLedgerError,
    >)
        requires
            old(self)@.wf(),
        ensures
            final(self)@.wf(),
            old(self)@.action_opportunities.unique_active() && !(opportunity.state is Consumed)
                ==> final(self)@.action_opportunities.unique_active(),
            old(self)@.action_opportunities.entries.contains_key(opportunity.id.0) ==> r == Err::<
                &ActionOpportunity,
                ActionOpportunityLedgerError,
            >(ActionOpportunityLedgerError::DuplicateOpportunity { opportunity: opportunity.id }),
            !old(self)@.action_opportunities.entries.contains_key(opportunity.id.0) && old(
                self,
            )@.action_opportunities.has_active(opportunity.actor) ==> (r matches Err(
                ActionOpportunityLedgerError::ActorAlreadyHasActiveOpportunity { actor, existing },
            ) && actor == opportunity.actor && old(self)@.action_opportunities.is_first_active(
                actor,
                existing.0,
            )),
            r is Ok <==> !old(self)@.action_opportunities.entries.contains_key(opportunity.id.0)
                && !old(self)@.action_opportunities.has_active(opportunity.actor),
            r matches Ok(opened) ==> *opened == opportunity && final(self)@ == (RuntimeControlView {
                action_opportunities: OpportunityLedgerView {
                    entries: old(self)@.action_opportunities.entries.insert(opportunity.id.0, opportunity),
                },
                ..old(self)@
            }),
            r is Err ==> final(self)@ == old(self)@,
    {
        self.action_opportunities.open(opportunity)
    }

    /// Hands a retained open opportunity to the deferred evaluation `invocation`.
    pub fn begin_action_evaluation(
        &mut self,
        id: ActionOpportunityId,
        expected_version: ActionOpportunityVersion,
        invocation: ActionEvaluationInvocationId,
    ) -> (r: Result<&ActionOpportunity, ActionOpportunityLedgerError>)
        requires
            old(self)@.wf(),
        ensures
            final(self)@.wf(),
            old(self)@.action_opportunities.unique_active() ==> final(self)@.action_opportunities.unique_active(),
            match old(self)@.action_opportunities.step(id, expected_version, OpportunityStep::BeginEvaluation(invocation)) {
                Ok(next) => r matches Ok(installed) && *installed == next && final(self)@ == (RuntimeControlView {
                    action_opportunities: OpportunityLedgerView {
                        entries: old(self)@.action_opportunities.entries.insert(id.0, next),
                    },
                    ..old(self)@
                }),
                Err(error) => r == Err::<&ActionOpportunity, ActionOpportunityLedgerError>(error)
                    && final(self)@ == old(self)@,
            },
    {
        self.action_opportunities.begin_evaluation(id, expected_version, invocation)
    }

    /// Returns a waiting opportunity to `Open` in the same evaluation generation.
    pub fn resume_action_evaluation(
        &mut self,
        id: ActionOpportunityId,
        expected_version: ActionOpportunityVersion,
        invocation: ActionEvaluationInvocationId,
    ) -> (r: Result<&ActionOpportunity, ActionOpportunityLedgerError>)
        requires
            old(self)@.wf(),
        ensures
            final(self)@.wf(),
            old(self)@.action_opportunities.unique_active() ==> final(self)@.action_opportunities.unique_active(),
            match old(self)@.action_opportunities.step(id, expected_version, OpportunityStep::ResumeEvaluation(invocation)) {
                Ok(next) => r matches Ok(installed) && *installed == next && final(self)@ == (RuntimeControlView {
                    action_opportunities: OpportunityLedgerView {
                        entries: old(self)@.action_opportunities.entries.insert(id.0, next),
                    },
                    ..old(self)@
                }),
                Err(error) => r == Err::<&ActionOpportunity, ActionOpportunityLedgerError>(error)
                    && final(self)@ == old(self)@,
            },
    {
        self.action_opportunities.resume_evaluation(id, expected_version, invocation)
    }

    /// Returns a waiting opportunity to `Open` for a new evaluation generation.
    pub fn reopen_action_evaluation(
        &mut self,
        id: ActionOpportunityId,
        expected_version: ActionOpportunityVersion,
        invocation: ActionEvaluationInvocationId,
    ) -> (r: Result<&ActionOpportunity, ActionOpportunityLedgerError>)
        requires
            old(self)@.wf(),
        ensures
            final(self)@.wf(),
            old(self)@.action_opportunities.unique_active() ==> final(self)@.action_opportunities.unique_active(),
            match old(self)@.action_opportunities.step(
                id,
                expected_version,
                OpportunityStep::ReopenForVisibleReinvocation(invocation),
            ) {
                Ok(next) => r matches Ok(installed) && *installed == next && final(self)@ == (RuntimeControlView {
                    action_opportunities: OpportunityLedgerView {
                        entries: old(self)@.action_opportunities.entries.insert(id.0, next),
                    },
                    ..old(self)@
                }),
                Err(error) => r == Err::<&ActionOpportunity, ActionOpportunityLedgerError>(error)
                    && final(self)@ == old(self)@,
            },
    {
        self.action_opportunities.reopen_for_visible_reinvocation(id, expected_version, invocation)
    }

    /// Checks a typed retirement carried by management request `current_management_request`.
    pub fn can_retire(
        &self,
        retirement: LedgerRetirement,
        current_management_request: ManagementRequestId,
    ) -> (r: Result<(), LedgerRetirementError>)
        ensures
            r == self@.retirement(retirement, current_management_request),
    {
        match retirement {
            LedgerRetirement::InputThrough(target) => self.input.can_retire_through(target),
            LedgerRetirement::ManagementThrough(target) => {
                if target.get() >= current_management_request.get() {
                    Err(
                        LedgerRetirementError::ManagementTargetNotBeforeRequest {
                            target,
                            request: current_management_request,
                        },
                    )
                } else {
                    self.management.can_retire_through(target)
                }
            },
            LedgerRetirement::CommandThrough { source, command } => self.command.can_retire_through(
                source,
                command,
            ),
        }
    }

    /// Applies a typed retirement; only the selected ledger's frontier moves.
    pub fn retire(
        &mut self,
        retirement: LedgerRetirement,
        current_management_request: ManagementRequestId,
    ) -> (r: Result<(), LedgerRetirementError>)
        requires
            old(self)@.wf(),
        ensures
            final(self)@.wf(),
            r == old(self)@.retirement(retirement, current_management_request),
            r is Ok ==> final(self)@ == old(self)@.retired(retirement),
            r is Err ==> final(self)@ == old(self)@,
    {
        if let Err(error) = self.can_retire(retirement, current_management_request) {
            return Err(error);
        }
        match retirement {
            LedgerRetirement::InputThrough(target) => self.input.retire_through(target),
            LedgerRetirement::ManagementThrough(target) => self.management.retire_through(target),
            LedgerRetirement::CommandThrough { source, command } => self.command.retire_through(
                source,
                command,
            ),
        }
    }
}

} // verus!
