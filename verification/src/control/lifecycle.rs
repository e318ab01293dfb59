//! Actor-local scheduling control for the coalescing lifecycle roles.
//!
//! Each `(actor, role)` pair keeps a generation cursor: `desired` advances
//! once per batch of genuinely new causes, `processed` records the last
//! completed generation, and at most one generation is enqueued at a time.
//! Causes arriving while a generation is enqueued coalesce into the next one.

use std::collections::BTreeMap;
use vstd::prelude::*;
use vstd::set_lib::lemma_set_empty_equivalency_len;

use crate::ids::{
    ActionOpportunityId, ActorId, ContainmentAppraisalFingerprint, EvidenceDeliveryId, IntentId,
};

verus! {

/// Monotone generation of one actor-role lifecycle cursor.
#[derive(Clone, Copy, Debug, PartialEq, Eq, Structural, PartialOrd, Ord, Hash)]
pub struct LifecycleGeneration(pub u64);

impl LifecycleGeneration {
    /// The generation before any request.
    pub fn initial() -> (r: Self)
        ensures
            r.0 == 0,
    {
        LifecycleGeneration(0)
    }

    /// Wraps a raw generation.
    pub fn new(value: u64) -> (r: Self)
        ensures
            r.0 == value,
    {
        LifecycleGeneration(value)
    }

    /// Raw value of the generation.
    pub fn get(self) -> (r: u64)
        ensures
            r == self.0,
    {
        self.0
    }

    /// The next generation, unless the cursor is exhausted.
    pub fn checked_next(self) -> (r: Option<Self>)
        ensures
            r == (if self.0 == u64::MAX {
                None::<LifecycleGeneration>
            } else {
                Some(LifecycleGeneration((self.0 + 1) as u64))
            }),
    {
        if self.0 == u64::MAX {
            None
        } else {
            Some(LifecycleGeneration(self.0 + 1))
        }
    }
}

/// Coalescing lifecycle role of an actor.
#[derive(Clone, Copy, Debug, PartialEq, Eq, Structural, PartialOrd, Ord, Hash)]
pub enum LifecycleRole {
    Appraisal,
    IntentReview,
    ActivityInitialization,
    ActivityAdvance,
}

/// Why a lifecycle role must run again.
#[derive(Clone, Copy, Debug, PartialEq, Eq, Structural, PartialOrd, Ord, Hash)]
pub enum LifecycleCause {
    Evidence(EvidenceDeliveryId),
    Appraisal { generation: LifecycleGeneration, material: ContainmentAppraisalFingerprint },
    Intent { intent: IntentId, version: u64 },
    AttemptResolved(ActionOpportunityId),
}

/// Each role accepts exactly one family of causes.
pub open spec fn role_accepts(role: LifecycleRole, cause: LifecycleCause) -> bool {
    match role {
        LifecycleRole::Appraisal => cause is Evidence,
        LifecycleRole::IntentReview => cause is Appraisal,
        LifecycleRole::ActivityInitialization => cause is Intent,
        LifecycleRole::ActivityAdvance => cause is AttemptResolved,
    }
}

/// Each family of causes wakes exactly one role: delivered evidence wakes
/// appraisal, an appraisal wakes intent review, an intent wakes activity
/// initialization and a resolved attempt wakes activity advancement.
pub proof fn lemma_cause_family_wakes_one_role(role: LifecycleRole, cause: LifecycleCause)
    ensures
        cause is Evidence ==> (role_accepts(role, cause) <==> role == LifecycleRole::Appraisal),
        cause is Appraisal ==> (role_accepts(role, cause) <==> role == LifecycleRole::IntentReview),
        cause is Intent ==> (role_accepts(role, cause) <==> role == LifecycleRole::ActivityInitialization),
        cause is AttemptResolved ==> (role_accepts(role, cause) <==> role == LifecycleRole::ActivityAdvance),
{
}

/// Stable numeric code of a role, used in ledger keys.
pub open spec fn role_code(role: LifecycleRole) -> u64 {
    match role {
        LifecycleRole::Appraisal => 0,
        LifecycleRole::IntentReview => 1,
        LifecycleRole::ActivityInitialization => 2,
        LifecycleRole::ActivityAdvance => 3,
    }
}

impl LifecycleRole {
    /// Whether this role is woken by `cause`.
    pub fn accepts(self, cause: LifecycleCause) -> (r: bool)
        ensures
            r == role_accepts(self, cause),
    {
        match (self, cause) {
            (LifecycleRole::Appraisal, LifecycleCause::Evidence(_)) => true,
            (LifecycleRole::IntentReview, LifecycleCause::Appraisal { .. }) => true,
            (LifecycleRole::ActivityInitialization, LifecycleCause::Intent { .. }) => true,
            (LifecycleRole::ActivityAdvance, LifecycleCause::AttemptResolved(_)) => true,
            _ => false,
        }
    }

    /// Stable numeric code of the role.
    pub fn code(self) -> (r: u64)
        ensures
            r == role_code(self),
    {
        match self {
            LifecycleRole::Appraisal => 0,
            LifecycleRole::IntentReview => 1,
            LifecycleRole::ActivityInitialization => 2,
            LifecycleRole::ActivityAdvance => 3,
        }
    }
}

/// Sort key of a cause: variant first, then its fields in order.
pub open spec fn cause_key(cause: LifecycleCause) -> (u64, u64, u64) {
    match cause {
        LifecycleCause::Evidence(delivery) => (0, delivery.0, 0),
        LifecycleCause::Appraisal { generation, material } => (1, generation.0, material.0),
        LifecycleCause::Intent { intent, version } => (2, intent.0, version),
        LifecycleCause::AttemptResolved(opportunity) => (3, opportunity.0, 0),
    }
}

/// Canonical strict order of causes.
pub open spec fn cause_lt(a: LifecycleCause, b: LifecycleCause) -> bool {
    let x = cause_key(a);
    let y = cause_key(b);
    x.0 < y.0 || (x.0 == y.0 && (x.1 < y.1 || (x.1 == y.1 && x.2 < y.2)))
}

/// Causes in strictly increasing canonical order, hence without repetition.
pub open spec fn causes_sorted(s: Seq<LifecycleCause>) -> bool {
    forall|i: int, j: int| 0 <= i < j < s.len() ==> cause_lt(#[trigger] s[i], #[trigger] s[j])
}

/// `s` is the canonical form of the cause set `set`.
pub open spec fn is_canonical_causes(s: Seq<LifecycleCause>, set: Set<LifecycleCause>) -> bool {
    causes_sorted(s) && s.to_set() == set
}

/// The canonical sequence of a cause set.
pub open spec fn canonical_batch(set: Set<LifecycleCause>) -> Seq<LifecycleCause> {
    choose|s: Seq<LifecycleCause>| is_canonical_causes(s, set)
}

/// Two canonical sequences of the same causes are equal.
pub proof fn lemma_canonical_causes_unique(a: Seq<LifecycleCause>, b: Seq<LifecycleCause>)
    requires
        causes_sorted(a),
        causes_sorted(b),
        a.to_set() == b.to_set(),
    ensures
        a == b,
    decreases a.len(),
{
    if a.len() == 0 {
        if b.len() > 0 {
            assert(b.to_set().contains(b[0]));
        }
        assert(a =~= b);
    } else {
        assert(a.to_set().contains(a[0]));
        assert(b.len() > 0);
        assert(b.to_set().contains(b[0]));
        assert(b.contains(a[0]));
        assert(a.contains(b[0]));
        let i = choose|i: int| 0 <= i < b.len() && b[i] == a[0];
        let j = choose|j: int| 0 <= j < a.len() && a[j] == b[0];
        lemma_cause_order_total(a[0], b[0]);
        if a[0] != b[0] {
            if cause_lt(a[0], b[0]) {
                assert(i > 0);
                assert(cause_lt(b[0], b[i]));
                lemma_cause_lt_asymmetric_transitive(a[0], b[0]);
            } else {
                assert(j > 0);
                assert(cause_lt(a[0], a[j]));
                lemma_cause_lt_asymmetric_transitive(b[0], a[0]);
            }
        }
        let ra = a.drop_first();
        let rb = b.drop_first();
        assert forall|x: LifecycleCause| ra.to_set().contains(x) <==> rb.to_set().contains(x) by {
            if ra.to_set().contains(x) {
                let k = choose|k: int| 0 <= k < ra.len() && ra[k] == x;
                assert(a[k + 1] == x);
                assert(cause_lt(a[0], x));
                assert(a.to_set().contains(x));
                assert(b.contains(x));
                let m = choose|m: int| 0 <= m < b.len() && b[m] == x;
                lemma_cause_order_total(a[0], x);
                assert(m != 0);
                assert(rb[m - 1] == x);
            }
            if rb.to_set().contains(x) {
                let k = choose|k: int| 0 <= k < rb.len() && rb[k] == x;
                assert(b[k + 1] == x);
                assert(cause_lt(b[0], x));
                assert(b.to_set().contains(x));
                assert(a.contains(x));
                let m = choose|m: int| 0 <= m < a.len() && a[m] == x;
                lemma_cause_order_total(b[0], x);
                assert(m != 0);
                assert(ra[m - 1] == x);
            }
        }
        assert(ra.to_set() =~= rb.to_set());
        lemma_canonical_causes_unique(ra, rb);
        assert(a.len() == b.len());
        assert forall|i: int| 0 <= i < a.len() implies a[i] == b[i] by {
            if i > 0 {
                assert(a[i] == ra[i - 1]);
                assert(b[i] == rb[i - 1]);
            }
        }
        assert(a =~= b);
    }
}

/// The canonical order admits no cycle of length two.
proof fn lemma_cause_lt_asymmetric_transitive(a: LifecycleCause, b: LifecycleCause)
    requires
        cause_lt(a, b),
    ensures
        !cause_lt(b, a),
{
}

/// `s` with `x` put in its canonical place.
pub open spec fn canonical_insert(s: Seq<LifecycleCause>, x: LifecycleCause) -> Seq<LifecycleCause>
    decreases s.len(),
{
    if s.len() == 0 {
        seq![x]
    } else if cause_lt(x, s[0]) {
        seq![x] + s
    } else if x == s[0] {
        s
    } else {
        seq![s[0]] + canonical_insert(s.drop_first(), x)
    }
}

/// Putting a cause in its canonical place keeps the sequence canonical.
proof fn lemma_canonical_insert(s: Seq<LifecycleCause>, x: LifecycleCause)
    requires
        causes_sorted(s),
    ensures
        causes_sorted(canonical_insert(s, x)),
        canonical_insert(s, x).to_set() == s.to_set().insert(x),
    decreases s.len(),
{
    let t = canonical_insert(s, x);
    if s.len() == 0 {
        assert(t.to_set() =~= s.to_set().insert(x)) by {
            assert(t[0] == x);
        }
    } else if cause_lt(x, s[0]) {
        assert forall|i: int, j: int| 0 <= i < j < t.len() implies cause_lt(#[trigger] t[i], #[trigger] t[j]) by {
            if i == 0 {
                assert(t[j] == s[j - 1]);
                if j - 1 > 0 {
                    assert(cause_lt(s[0], s[j - 1]));
                }
            } else {
                assert(t[i] == s[i - 1] && t[j] == s[j - 1]);
            }
        }
        assert forall|c: LifecycleCause| t.to_set().contains(c) <==> s.to_set().insert(x).contains(c) by {
            if t.contains(c) {
                let k = choose|k: int| 0 <= k < t.len() && t[k] == c;
                if k > 0 {
                    assert(s[k - 1] == c);
                }
            }
            if s.contains(c) {
                let k = choose|k: int| 0 <= k < s.len() && s[k] == c;
                assert(t[k + 1] == c);
            }
            if c == x {
                assert(t[0] == c);
            }
        }
        assert(t.to_set() =~= s.to_set().insert(x));
    } else if x == s[0] {
        assert(s.to_set().contains(x));
        assert(t.to_set() =~= s.to_set().insert(x));
    } else {
        let rest = s.drop_first();
        assert forall|i: int, j: int| 0 <= i < j < rest.len() implies cause_lt(#[trigger] rest[i], #[trigger] rest[j]) by {
            assert(rest[i] == s[i + 1] && rest[j] == s[j + 1]);
        }
        lemma_canonical_insert(rest, x);
        let u = canonical_insert(rest, x);
        lemma_cause_order_total(x, s[0]);
        assert(cause_lt(s[0], x));
        assert forall|i: int, j: int| 0 <= i < j < t.len() implies cause_lt(#[trigger] t[i], #[trigger] t[j]) by {
            if i == 0 {
                assert(t[j] == u[j - 1]);
                assert(u.to_set().contains(u[j - 1]));
                assert(s.to_set().insert(x).contains(u[j - 1]) || rest.to_set().insert(x).contains(u[j - 1]));
                if u[j - 1] != x {
                    assert(rest.to_set().contains(u[j - 1]));
                    let k = choose|k: int| 0 <= k < rest.len() && rest[k] == u[j - 1];
                    assert(s[k + 1] == u[j - 1]);
                }
            } else {
                assert(t[i] == u[i - 1] && t[j] == u[j - 1]);
            }
        }
        assert forall|c: LifecycleCause| t.to_set().contains(c) <==> s.to_set().insert(x).contains(c) by {
            if t.contains(c) {
                let k = choose|k: int| 0 <= k < t.len() && t[k] == c;
                if k > 0 {
                    assert(u[k - 1] == c);
                    assert(u.to_set().contains(c));
                    if c != x {
                        assert(rest.to_set().contains(c));
                        let m = choose|m: int| 0 <= m < rest.len() && rest[m] == c;
                        assert(s[m + 1] == c);
                    }
                }
            }
            if s.contains(c) {
                let k = choose|k: int| 0 <= k < s.len() && s[k] == c;
                if k == 0 {
                    assert(t[0] == c);
                } else {
                    assert(rest[k - 1] == c);
                    assert(rest.to_set().insert(x).contains(c));
                    assert(u.to_set().contains(c));
                    let m = choose|m: int| 0 <= m < u.len() && u[m] == c;
                    assert(t[m + 1] == c);
                }
            }
            if c == x {
                assert(rest.to_set().insert(x).contains(c));
                assert(u.to_set().contains(c));
                let m = choose|m: int| 0 <= m < u.len() && u[m] == c;
                assert(t[m + 1] == c);
            }
        }
        assert(t.to_set() =~= s.to_set().insert(x));
    }
}

/// Every finite set of causes has a canonical sequence.
pub proof fn lemma_canonical_exists(set: Set<LifecycleCause>)
    requires
        set.finite(),
    ensures
        is_canonical_causes(canonical_batch(set), set),
    decreases set.len(),
{
    if set.len() == 0 {
        let empty = Seq::<LifecycleCause>::empty();
        assert(set =~= Set::<LifecycleCause>::empty());
        assert(empty.to_set() =~= set);
        assert(is_canonical_causes(empty, set));
    } else {
        let x = set.choose();
        let smaller = set.remove(x);
        lemma_canonical_exists(smaller);
        let s = canonical_batch(smaller);
        lemma_canonical_insert(s, x);
        assert(smaller.insert(x) =~= set);
        assert(is_canonical_causes(canonical_insert(s, x), set));
    }
}

/// A canonical sequence of a set is its canonical batch.
pub proof fn lemma_canonical_batch(s: Seq<LifecycleCause>, set: Set<LifecycleCause>)
    requires
        is_canonical_causes(s, set),
    ensures
        canonical_batch(set) == s,
{
    let c = canonical_batch(set);
    assert(is_canonical_causes(c, set));
    lemma_canonical_causes_unique(c, s);
}

/// Distinct causes are ordered one way or the other.
pub proof fn lemma_cause_order_total(a: LifecycleCause, b: LifecycleCause)
    ensures
        a != b ==> cause_lt(a, b) || cause_lt(b, a),
        !(cause_lt(a, b) && cause_lt(b, a)),
        !cause_lt(a, a),
{
}

fn cause_key_of(cause: &LifecycleCause) -> (r: (u64, u64, u64))
    ensures
        r == cause_key(*cause),
{
    match cause {
        LifecycleCause::Evidence(delivery) => (0, delivery.get(), 0),
        LifecycleCause::Appraisal { generation, material } => (1, generation.get(), material.get()),
        LifecycleCause::Intent { intent, version } => (2, intent.get(), *version),
        LifecycleCause::AttemptResolved(opportunity) => (3, opportunity.get(), 0),
    }
}

fn cause_less(a: &LifecycleCause, b: &LifecycleCause) -> (r: bool)
    ensures
        r == cause_lt(*a, *b),
{
    let x = cause_key_of(a);
    let y = cause_key_of(b);
    x.0 < y.0 || (x.0 == y.0 && (x.1 < y.1 || (x.1 == y.1 && x.2 < y.2)))
}

/// Sorts and deduplicates causes into their canonical order.
pub fn canonical_causes(causes: &[LifecycleCause]) -> (r: Vec<LifecycleCause>)
    ensures
        is_canonical_causes(r@, causes@.to_set()),
{
    let mut out: Vec<LifecycleCause> = Vec::new();
    let mut i: usize = 0;
    while i < causes.len()
        invariant
            i <= causes@.len(),
            causes_sorted(out@),
            out@.to_set() == causes@.subrange(0, i as int).to_set(),
        decreases causes@.len() - i,
    {
        let cause = causes[i];
        let mut position: usize = 0;
        while position < out.len() && cause_less(&out[position], &cause)
            invariant
                position <= out@.len(),
                forall|j: int| 0 <= j < position ==> cause_lt(#[trigger] out@[j], cause),
            decreases out@.len() - position,
        {
            position = position + 1;
        }
        let ghost before = out@;
        proof {
            assert(causes@.subrange(0, i + 1) =~= causes@.subrange(0, i as int).push(cause));
            causes@.subrange(0, i as int).lemma_push_to_set_commute(cause);
        }
        if position < out.len() && out[position] == cause {
            proof {
                assert(out@.to_set().contains(cause));
                assert(out@.to_set().insert(cause) =~= out@.to_set());
            }
        } else {
            proof {
                if position < before.len() {
                    lemma_cause_order_total(before[position as int], cause);
                    assert(cause_lt(cause, before[position as int]));
                }
            }
            out.insert(position, cause);
            proof {
                assert forall|a: int, b: int| 0 <= a < b < out@.len() implies cause_lt(
                    #[trigger] out@[a],
                    #[trigger] out@[b],
                ) by {
                    if b < position {
                        assert(out@[a] == before[a]);
                        assert(out@[b] == before[b]);
                    } else if b == position {
                        assert(out@[a] == before[a]);
                    } else if a < position {
                        assert(out@[a] == before[a]);
                        assert(out@[b] == before[b - 1]);
                        assert(cause_lt(before[a], cause));
                        assert(cause_lt(cause, before[position as int]));
                        if b - 1 > position {
                            assert(cause_lt(before[position as int], before[b - 1]));
                        }
                    } else if a == position {
                        assert(out@[b] == before[b - 1]);
                        if b - 1 > position {
                            assert(cause_lt(before[position as int], before[b - 1]));
                        }
                    } else {
                        assert(out@[a] == before[a - 1]);
                        assert(out@[b] == before[b - 1]);
                    }
                }
                assert forall|x: LifecycleCause| out@.to_set().contains(x) <==> before.to_set().insert(
                    cause,
                ).contains(x) by {
                    if out@.to_set().contains(x) {
                        let k = choose|k: int| 0 <= k < out@.len() && out@[k] == x;
                        if k < position {
                            assert(before[k] == x);
                        } else if k > position {
                            assert(before[k - 1] == x);
                        }
                    }
                    if before.to_set().contains(x) {
                        let k = choose|k: int| 0 <= k < before.len() && before[k] == x;
                        if k < position {
                            assert(out@[k] == x);
                        } else {
                            assert(out@[k + 1] == x);
                        }
                    }
                    if x == cause {
                        assert(out@[position as int] == x);
                    }
                }
                assert(out@.to_set() =~= before.to_set().insert(cause));
            }
        }
        i = i + 1;
    }
    proof {
        assert(causes@.subrange(0, causes@.len() as int) =~= causes@);
    }
    out
}

/// Why actor-local lifecycle scheduling control rejected a transition.
#[derive(Clone, Copy, Debug, PartialEq, Eq, Structural)]
pub enum LifecycleControlError {
    EmptyCauseBatch,
    CauseRoleMismatch { role: LifecycleRole, cause: LifecycleCause },
    GenerationOverflow { actor: ActorId, role: LifecycleRole },
    UnknownControl { actor: ActorId, role: LifecycleRole },
    EnqueuedGenerationMismatch {
        actor: ActorId,
        role: LifecycleRole,
        expected: Option<LifecycleGeneration>,
        supplied: LifecycleGeneration,
    },
}

/// Result of accepting one canonical batch of lifecycle wake causes.
#[derive(Clone, Copy, Debug, PartialEq, Eq, Structural)]
pub enum LifecycleWakeRequestOutcome {
    Duplicate { desired: LifecycleGeneration, enqueued: Option<LifecycleGeneration> },
    Enqueue { generation: LifecycleGeneration },
    Coalesced { enqueued: LifecycleGeneration, desired: LifecycleGeneration },
}

/// Result of sealing one successfully processed lifecycle generation.
#[derive(Clone, Copy, Debug, PartialEq, Eq, Structural)]
pub struct LifecycleCompletionOutcome {
    pub processed: LifecycleGeneration,
    pub successor: Option<LifecycleGeneration>,
}

impl LifecycleCompletionOutcome {
    /// The generation that completed.
    pub fn processed(self) -> (r: LifecycleGeneration)
        ensures
            r == self.processed,
    {
        self.processed
    }

    /// The dirty generation enqueued in its place, if any.
    pub fn successor(self) -> (r: Option<LifecycleGeneration>)
        ensures
            r == self.successor,
    {
        self.successor
    }
}

/// Abstract state of one actor-role cursor. `causes[i]` holds the causes
/// first retained by generation `i + 1`.
pub struct LifecycleRecordView {
    pub desired: LifecycleGeneration,
    pub processed: LifecycleGeneration,
    pub enqueued: Option<LifecycleGeneration>,
    pub causes: Seq<Seq<LifecycleCause>>,
}

impl LifecycleRecordView {
    /// The cursor before any request.
    pub open spec fn initial() -> Self {
        LifecycleRecordView {
            desired: LifecycleGeneration(0),
            processed: LifecycleGeneration(0),
            enqueued: None,
            causes: Seq::empty(),
        }
    }

    /// `cause` is retained by some generation.
    pub open spec fn retains(self, cause: LifecycleCause) -> bool {
        exists|g: int| 0 <= g < self.causes.len() && #[trigger] self.causes[g].contains(cause)
    }

    /// Cursor invariant: one nonempty canonical cause batch per generation,
    /// no cause retained twice, and exactly one enqueued generation whenever
    /// the desired generation is ahead of the processed one.
    pub open spec fn wf(self) -> bool {
        &&& self.causes.len() == self.desired.0
        &&& forall|g: int| 0 <= g < self.causes.len() ==> causes_sorted(#[trigger] self.causes[g])
            && self.causes[g].len() > 0
        &&& forall|g: int, h: int, c: LifecycleCause|
            0 <= g < self.causes.len() && 0 <= h < self.causes.len() && g != h
                && #[trigger] self.causes[g].contains(c) ==> !#[trigger] self.causes[h].contains(c)
        &&& self.processed.0 <= self.desired.0
        &&& (self.enqueued is None <==> self.processed == self.desired)
        &&& (self.enqueued matches Some(e) ==> self.processed.0 < e.0 <= self.desired.0)
    }

    /// Causes accumulated by the generations after `processed` through `generation`.
    pub open spec fn pending_causes(self, generation: LifecycleGeneration) -> Seq<LifecycleCause> {
        self.causes.subrange(self.processed.0 as int, generation.0 as int).flatten()
    }
}

/// Generation cursor and retained causes for one actor and lifecycle role.
#[derive(Debug)]
pub struct LifecycleControlRecord {
    desired: LifecycleGeneration,
    processed: LifecycleGeneration,
    enqueued: Option<LifecycleGeneration>,
    causes: Vec<Vec<LifecycleCause>>,
}

impl View for LifecycleControlRecord {
    type V = LifecycleRecordView;

    closed spec fn view(&self) -> LifecycleRecordView {
        LifecycleRecordView {
            desired: self.desired,
            processed: self.processed,
            enqueued: self.enqueued,
            causes: self.causes@.map_values(|batch: Vec<LifecycleCause>| batch@),
        }
    }
}

fn copy_causes(batch: &Vec<LifecycleCause>) -> (r: Vec<LifecycleCause>)
    ensures
        r@ == batch@,
{
    let mut out: Vec<LifecycleCause> = Vec::new();
    let mut i: usize = 0;
    while i < batch.len()
        invariant
            i <= batch@.len(),
            out@ == batch@.subrange(0, i as int),
        decreases batch@.len() - i,
    {
        out.push(batch[i]);
        proof {
            assert(out@ =~= batch@.subrange(0, i + 1));
        }
        i = i + 1;
    }
    proof {
        assert(out@ =~= batch@);
    }
    out
}

impl LifecycleControlRecord {
    fn new() -> (r: Self)
        ensures
            r@ == LifecycleRecordView::initial(),
    {
        let r = LifecycleControlRecord {
            desired: LifecycleGeneration(0),
            processed: LifecycleGeneration(0),
            enqueued: None,
            causes: Vec::new(),
        };
        proof {
            assert(r@.causes =~= Seq::<Seq<LifecycleCause>>::empty());
        }
        r
    }

    /// Latest generation that retained new causes.
    pub fn desired(&self) -> (r: LifecycleGeneration)
        ensures
            r == self@.desired,
    {
        self.desired
    }

    /// Last completed generation.
    pub fn processed(&self) -> (r: LifecycleGeneration)
        ensures
            r == self@.processed,
    {
        self.processed
    }

    /// Generation currently enqueued for processing, if any.
    pub fn enqueued(&self) -> (r: Option<LifecycleGeneration>)
        ensures
            r == self@.enqueued,
    {
        self.enqueued
    }

    /// Causes first retained by `generation`, in canonical order.
    pub fn causes(&self, generation: LifecycleGeneration) -> (r: Option<Vec<LifecycleCause>>)
        requires
            self@.wf(),
        ensures
            match r {
                Some(batch) => 1 <= generation.0 <= self@.desired.0 && batch@ == self@.causes[generation.0 - 1],
                None => !(1 <= generation.0 <= self@.desired.0),
            },
    {
        if generation.0 == 0 || generation.0 > self.desired.0 {
            return None;
        }
        assert(self@.causes.len() == self.causes@.len());
        let length = self.causes.len();
        assert(generation.0 - 1 < length);
        let index = (generation.0 - 1) as usize;
        let batch = copy_causes(&self.causes[index]);
        assert(self@.causes[index as int] == self.causes@[index as int]@);
        Some(batch)
    }

    /// Causes the enqueued `generation` must process: everything retained
    /// after the processed generation through `generation`.
    pub fn enqueued_causes(&self, generation: LifecycleGeneration) -> (r: Option<Vec<LifecycleCause>>)
        requires
            self@.wf(),
        ensures
            match r {
                Some(batch) => self@.enqueued == Some(generation) && batch@ == self@.pending_causes(generation),
                None => self@.enqueued != Some(generation),
            },
    {
        if self.enqueued != Some(generation) {
            return None;
        }
        let ghost view = self@;
        let mut out: Vec<LifecycleCause> = Vec::new();
        let mut g: u64 = self.processed.0;
        assert(view.causes.len() == self.causes@.len());
        while g < generation.0
            invariant
                view == self@,
                view.causes.len() == self.causes@.len(),
                view.wf(),
                view.enqueued == Some(generation),
                view.processed.0 <= g <= generation.0,
                out@ == view.causes.subrange(view.processed.0 as int, g as int).flatten(),
            decreases generation.0 - g,
        {
            let length = self.causes.len();
            assert(g < length);
            let batch = &self.causes[g as usize];
            assert(view.causes[g as int] == batch@);
            let mut k: usize = 0;
            let ghost prefix = out@;
            while k < batch.len()
                invariant
                    k <= batch@.len(),
                    view.causes[g as int] == batch@,
                    out@ == prefix + batch@.subrange(0, k as int),
                decreases batch@.len() - k,
            {
                out.push(batch[k]);
                proof {
                    assert(out@ =~= prefix + batch@.subrange(0, k + 1));
                }
                k = k + 1;
            }
            proof {
                let range = view.causes.subrange(view.processed.0 as int, g as int);
                assert(batch@.subrange(0, batch@.len() as int) =~= batch@);
                assert(view.causes.subrange(view.processed.0 as int, g + 1) =~= range.push(batch@));
                range.lemma_flatten_push(batch@);
            }
            g = g + 1;
        }
        Some(out)
    }

    /// Whether any retained generation still holds `cause`.
    pub fn contains_cause(&self, cause: LifecycleCause) -> (r: bool)
        ensures
            r == self@.retains(cause),
    {
        let mut g: usize = 0;
        assert(self@.causes.len() == self.causes@.len());
        while g < self.causes.len()
            invariant
                g <= self.causes@.len(),
                self@.causes.len() == self.causes@.len(),
                forall|h: int| 0 <= h < g ==> !(#[trigger] self@.causes[h]).contains(cause),
            decreases self.causes@.len() - g,
        {
            let batch = &self.causes[g];
            assert(self@.causes[g as int] == batch@);
            let mut k: usize = 0;
            while k < batch.len()
                invariant
                    k <= batch@.len(),
                    g < self@.causes.len(),
                    self@.causes[g as int] == batch@,
                    forall|j: int| 0 <= j < k ==> batch@[j] != cause,
                decreases batch@.len() - k,
            {
                if batch[k] == cause {
                    proof {
                        assert(batch@[k as int] == cause);
                        assert(self@.causes[g as int].contains(cause));
                    }
                    return true;
                }
                k = k + 1;
            }
            assert(!self@.causes[g as int].contains(cause));
            g = g + 1;
        }
        false
    }
}

/// The least cause of a canonical batch that `role` does not accept.
fn first_rejected(role: LifecycleRole, canonical: &Vec<LifecycleCause>) -> (r: Option<LifecycleCause>)
    requires
        causes_sorted(canonical@),
    ensures
        match r {
            Some(cause) => canonical@.contains(cause) && !role_accepts(role, cause) && forall|c: LifecycleCause|
                #[trigger] canonical@.contains(c) && !role_accepts(role, c) ==> !cause_lt(c, cause),
            None => forall|c: LifecycleCause| #[trigger] canonical@.contains(c) ==> role_accepts(role, c),
        },
{
    let mut i: usize = 0;
    while i < canonical.len()
        invariant
            i <= canonical@.len(),
            causes_sorted(canonical@),
            forall|j: int| 0 <= j < i ==> role_accepts(role, #[trigger] canonical@[j]),
        decreases canonical@.len() - i,
    {
        if !role.accepts(canonical[i]) {
            proof {
                let cause = canonical@[i as int];
                assert forall|c: LifecycleCause| #[trigger] canonical@.contains(c) && !role_accepts(
                    role,
                    c,
                ) implies !cause_lt(c, cause) by {
                    let k = choose|k: int| 0 <= k < canonical@.len() && canonical@[k] == c;
                    if k > i {
                        assert(cause_lt(cause, c));
                        lemma_cause_order_total(c, cause);
                    }
                }
            }
            return Some(canonical[i]);
        }
        i = i + 1;
    }
    None
}

/// Abstract state of the lifecycle control ledger.
pub struct LifecycleLedgerView {
    pub entries: Map<(u64, u64), LifecycleRecordView>,
}

/// Ledger key of one actor-role cursor.
pub open spec fn control_key(actor: ActorId, role: LifecycleRole) -> (u64, u64) {
    (actor.0, role_code(role))
}

impl LifecycleLedgerView {
    /// Every retained cursor satisfies its invariant.
    pub open spec fn wf(self) -> bool {
        forall|key: (u64, u64)| #[trigger] self.entries.contains_key(key) ==> self.entries[key].wf()
    }

    /// The cursor of `key`, or the initial cursor if none is retained.
    pub open spec fn record(self, key: (u64, u64)) -> LifecycleRecordView {
        if self.entries.contains_key(key) {
            self.entries[key]
        } else {
            LifecycleRecordView::initial()
        }
    }
}

/// Every requested cause is already retained by the cursor.
pub open spec fn all_retained(record: LifecycleRecordView, causes: Set<LifecycleCause>) -> bool {
    forall|c: LifecycleCause| #[trigger] causes.contains(c) ==> record.retains(c)
}

/// Requested causes that the cursor does not retain yet.
pub open spec fn fresh_causes(record: LifecycleRecordView, causes: Set<LifecycleCause>) -> Set<
    LifecycleCause,
> {
    causes.filter(|c: LifecycleCause| !record.retains(c))
}

/// The cursor after retaining one new canonical batch.
pub open spec fn requested_record(
    record: LifecycleRecordView,
    batch: Seq<LifecycleCause>,
) -> LifecycleRecordView {
    let desired = LifecycleGeneration((record.desired.0 + 1) as u64);
    LifecycleRecordView {
        desired,
        processed: record.processed,
        enqueued: match record.enqueued {
            Some(enqueued) => Some(enqueued),
            None => Some(desired),
        },
        causes: record.causes.push(batch),
    }
}

/// The cursor after completing its enqueued `generation`.
pub open spec fn completed_record(
    record: LifecycleRecordView,
    generation: LifecycleGeneration,
) -> LifecycleRecordView {
    LifecycleRecordView {
        processed: generation,
        enqueued: if record.desired.0 > generation.0 {
            Some(record.desired)
        } else {
            None
        },
        ..record
    }
}

/// Exact answer and successor ledger of a request whose causes form the
/// nonempty set `set`, every cause of which the role accepts.
pub open spec fn request_step(
    view: LifecycleLedgerView,
    actor: ActorId,
    role: LifecycleRole,
    set: Set<LifecycleCause>,
) -> (Result<LifecycleWakeRequestOutcome, LifecycleControlError>, LifecycleLedgerView) {
    let key = control_key(actor, role);
    let record = view.record(key);
    if all_retained(record, set) {
        (
            Ok(
                LifecycleWakeRequestOutcome::Duplicate {
                    desired: record.desired,
                    enqueued: record.enqueued,
                },
            ),
            view,
        )
    } else if record.desired.0 == u64::MAX {
        (Err(LifecycleControlError::GenerationOverflow { actor, role }), view)
    } else {
        let next = requested_record(record, canonical_batch(fresh_causes(record, set)));
        (
            match record.enqueued {
                Some(enqueued) => Ok(
                    LifecycleWakeRequestOutcome::Coalesced { enqueued, desired: next.desired },
                ),
                None => Ok(LifecycleWakeRequestOutcome::Enqueue { generation: next.desired }),
            },
            LifecycleLedgerView { entries: view.entries.insert(key, next) },
        )
    }
}

/// Exact answer and successor ledger of completing `generation`.
pub open spec fn complete_step(
    view: LifecycleLedgerView,
    actor: ActorId,
    role: LifecycleRole,
    generation: LifecycleGeneration,
) -> (Result<LifecycleCompletionOutcome, LifecycleControlError>, LifecycleLedgerView) {
    let key = control_key(actor, role);
    if !view.entries.contains_key(key) {
        (Err(LifecycleControlError::UnknownControl { actor, role }), view)
    } else if view.entries[key].enqueued != Some(generation) {
        (
            Err(
                LifecycleControlError::EnqueuedGenerationMismatch {
                    actor,
                    role,
                    expected: view.entries[key].enqueued,
                    supplied: generation,
                },
            ),
            view,
        )
    } else {
        let next = completed_record(view.entries[key], generation);
        (
            Ok(LifecycleCompletionOutcome { processed: generation, successor: next.enqueued }),
            LifecycleLedgerView { entries: view.entries.insert(key, next) },
        )
    }
}

/// A successful lifecycle request retains every requested cause and never
/// loses one already retained; it starts at most one new generation, keeps
/// the processed generation, and enqueues the new generation only when none
/// was enqueued; a request whose causes are all retained changes nothing.
pub proof fn lemma_request_retains_causes(
    view: LifecycleLedgerView,
    actor: ActorId,
    role: LifecycleRole,
    set: Set<LifecycleCause>,
)
    requires
        set.finite(),
    ensures
        ({
            let key = control_key(actor, role);
            let (r, after) = request_step(view, actor, role, set);
            let before = view.record(key);
            let next = after.record(key);
            r is Ok ==> {
                &&& forall|c: LifecycleCause| #[trigger] set.contains(c) ==> exists|g: int|
                    0 <= g < next.causes.len() && #[trigger] next.causes[g].contains(c)
                &&& forall|g: int| 0 <= g < before.causes.len() ==> #[trigger] next.causes[g] == before.causes[g]
                &&& next.causes.len() == before.causes.len() || next.causes.len() == before.causes.len() + 1
                &&& next.desired.0 == before.desired.0 || next.desired.0 == before.desired.0 + 1
                &&& next.processed == before.processed
                &&& (before.enqueued is Some ==> next.enqueued == before.enqueued)
                &&& (before.enqueued is None && next.desired != before.desired ==> next.enqueued == Some(
                    next.desired,
                ))
                &&& forall|other: (u64, u64)| other != key ==> #[trigger] after.record(other) == view.record(
                    other,
                )
            }
        }),
        ({
            let key = control_key(actor, role);
            let before = view.record(key);
            (forall|c: LifecycleCause| #[trigger] set.contains(c) ==> exists|g: int|
                0 <= g < before.causes.len() && #[trigger] before.causes[g].contains(c))
                ==> request_step(view, actor, role, set).1 == view
        }),
{
    let key = control_key(actor, role);
    let record = view.record(key);
    if !all_retained(record, set) && record.desired.0 != u64::MAX {
        let fresh = fresh_causes(record, set);
        lemma_canonical_exists(fresh);
        let batch = canonical_batch(fresh);
        let next = requested_record(record, batch);
        let after = request_step(view, actor, role, set).1;
        assert(after.record(key) == next);
        assert forall|c: LifecycleCause| #[trigger] set.contains(c) implies exists|g: int|
            0 <= g < next.causes.len() && #[trigger] next.causes[g].contains(c) by {
            if record.retains(c) {
                let g = choose|g: int| 0 <= g < record.causes.len() && #[trigger] record.causes[g].contains(c);
                assert(next.causes[g] == record.causes[g]);
            } else {
                assert(fresh.contains(c));
                assert(batch.to_set().contains(c));
                assert(next.causes[record.causes.len() as int] == batch);
            }
        }
    }
    let before = view.record(key);
    if forall|c: LifecycleCause| #[trigger] set.contains(c) ==> exists|g: int|
        0 <= g < before.causes.len() && #[trigger] before.causes[g].contains(c) {
        assert(all_retained(before, set));
    }
}

/// Completing the enqueued generation marks it processed; work requested
/// after it was enqueued is enqueued again as the desired generation, and
/// otherwise nothing stays enqueued. Completing any other generation is
/// refused and changes nothing.
pub proof fn lemma_completion_reenqueues_later_work(
    view: LifecycleLedgerView,
    actor: ActorId,
    role: LifecycleRole,
    generation: LifecycleGeneration,
)
    ensures
        ({
            let key = control_key(actor, role);
            let (r, after) = complete_step(view, actor, role, generation);
            &&& r is Ok <==> (view.entries.contains_key(key) && view.entries[key].enqueued == Some(generation))
            &&& r is Err ==> after == view
            &&& r is Ok ==> {
                let before = view.entries[key];
                let next = after.entries[key];
                &&& next.processed == generation
                &&& next.desired == before.desired
                &&& next.causes == before.causes
                &&& (before.desired.0 > generation.0 ==> next.enqueued == Some(before.desired))
                &&& (before.desired.0 <= generation.0 ==> next.enqueued is None)
                &&& r->Ok_0.successor == next.enqueued
                &&& r->Ok_0.processed == generation
            }
        }),
{
}

/// Actor-local scheduling state for the concrete coalescing lifecycle roles.
#[derive(Debug)]
pub struct LifecycleControlLedger {
    entries: BTreeMap<(u64, u64), LifecycleControlRecord>,
}

impl View for LifecycleControlLedger {
    type V = LifecycleLedgerView;

    closed spec fn view(&self) -> LifecycleLedgerView {
        LifecycleLedgerView {
            entries: self.entries@.map_values(|record: LifecycleControlRecord| record@),
        }
    }
}

impl Default for LifecycleControlLedger {
    fn default() -> (r: Self)
        ensures
            r@.entries == Map::<(u64, u64), LifecycleRecordView>::empty(),
            r@.wf(),
    {
        let r = LifecycleControlLedger { entries: BTreeMap::new() };
        proof {
            assert(r@.entries =~= Map::<(u64, u64), LifecycleRecordView>::empty());
        }
        r
    }
}

impl LifecycleControlLedger {
    /// The cursor of `actor` and `role`, if any request created it.
    pub fn get(&self, actor: ActorId, role: LifecycleRole) -> (r: Option<&LifecycleControlRecord>)
        ensures
            match r {
                Some(record) => self@.entries.contains_key(control_key(actor, role)) && record@
                    == self@.entries[control_key(actor, role)],
                None => !self@.entries.contains_key(control_key(actor, role)),
            },
    {
        self.entries.get(&(actor.get(), role.code()))
    }

    /// No cursor is retained.
    pub fn is_empty(&self) -> (r: bool)
        ensures
            r == (self@.entries == Map::<(u64, u64), LifecycleRecordView>::empty()),
    {
        assert(self@.entries.dom() =~= self.entries@.dom());
        proof {
            lemma_set_empty_equivalency_len(self@.entries.dom());
        }
        let r = self.entries.len() == 0;
        proof {
            if r {
                assert(self@.entries =~= Map::<(u64, u64), LifecycleRecordView>::empty());
            }
        }
        r
    }

    /// Accepts one batch of wake causes for `actor` and `role`: rejects an
    /// empty batch or a cause the role does not accept, reports a batch whose
    /// causes are all retained as a duplicate, and otherwise retains the new
    /// causes as the next generation, enqueuing it unless one is already
    /// enqueued.
    pub fn request(&mut self, actor: ActorId, role: LifecycleRole, causes: &[LifecycleCause]) -> (r:
        Result<LifecycleWakeRequestOutcome, LifecycleControlError>)
        requires
            old(self)@.wf(),
        ensures
            final(self)@.wf(),
            causes@.len() == 0 ==> r == Err::<LifecycleWakeRequestOutcome, LifecycleControlError>(
                LifecycleControlError::EmptyCauseBatch,
            ),
            causes@.len() > 0 && (exists|c: LifecycleCause| #[trigger] causes@.contains(c)
                && !role_accepts(role, c)) ==> (r matches Err(
                LifecycleControlError::CauseRoleMismatch { role: rejected_role, cause },
            ) && rejected_role == role && causes@.contains(cause) && !role_accepts(role, cause)
                && forall|c: LifecycleCause| #[trigger] causes@.contains(c) && !role_accepts(role, c)
                ==> !cause_lt(c, cause)),
            (r is Err || r matches Ok(LifecycleWakeRequestOutcome::Duplicate { .. }))
                ==> final(self)@ == old(self)@,
            causes@.len() > 0 && (forall|c: LifecycleCause| #[trigger] causes@.contains(c)
                ==> role_accepts(role, c)) ==> r == request_step(
                old(self)@,
                actor,
                role,
                causes@.to_set(),
            ).0 && final(self)@ == request_step(old(self)@, actor, role, causes@.to_set()).1,
            causes@.len() > 0 && (forall|c: LifecycleCause| #[trigger] causes@.contains(c)
                ==> role_accepts(role, c)) ==> {
                let key = control_key(actor, role);
                let record = old(self)@.record(key);
                let set = causes@.to_set();
                if all_retained(record, set) {
                    r == Ok::<LifecycleWakeRequestOutcome, LifecycleControlError>(
                        LifecycleWakeRequestOutcome::Duplicate {
                            desired: record.desired,
                            enqueued: record.enqueued,
                        },
                    )
                } else if record.desired.0 == u64::MAX {
                    r == Err::<LifecycleWakeRequestOutcome, LifecycleControlError>(
                        LifecycleControlError::GenerationOverflow { actor, role },
                    )
                } else {
                    let desired = LifecycleGeneration((record.desired.0 + 1) as u64);
                    &&& r == match record.enqueued {
                        Some(enqueued) => Ok::<
                            LifecycleWakeRequestOutcome,
                            LifecycleControlError,
                        >(LifecycleWakeRequestOutcome::Coalesced { enqueued, desired }),
                        None => Ok(LifecycleWakeRequestOutcome::Enqueue { generation: desired }),
                    }
                    &&& final(self)@.entries.contains_key(key)
                    &&& final(self)@.entries.remove(key) == old(self)@.entries.remove(key)
                    &&& final(self)@.entries[key] == requested_record(
                        record,
                        final(self)@.entries[key].causes.last(),
                    )
                    &&& is_canonical_causes(
                        final(self)@.entries[key].causes.last(),
                        fresh_causes(record, set),
                    )
                }
            },
    {
        if causes.len() == 0 {
            return Err(LifecycleControlError::EmptyCauseBatch);
        }
        let canonical = canonical_causes(causes);
        if let Some(cause) = first_rejected(role, &canonical) {
            proof {
                assert(canonical@.to_set().contains(cause));
                assert(causes@.to_set().contains(cause));
                assert forall|c: LifecycleCause| #[trigger] causes@.contains(c) && !role_accepts(
                    role,
                    c,
                ) implies !cause_lt(c, cause) by {
                    assert(causes@.to_set().contains(c));
                    assert(canonical@.to_set().contains(c));
                }
            }
            return Err(LifecycleControlError::CauseRoleMismatch { role, cause });
        }
        proof {
            assert forall|c: LifecycleCause| #[trigger] causes@.contains(c) implies role_accepts(role, c) by {
                assert(causes@.to_set().contains(c));
                assert(canonical@.to_set().contains(c));
            }
        }
        let key = (actor.get(), role.code());
        let ghost old_view = self@;
        let ghost set = causes@.to_set();
        let existed = self.entries.contains_key(&key);
        let mut record = match self.entries.remove(&key) {
            Some(record) => record,
            None => LifecycleControlRecord::new(),
        };
        let ghost rv = record@;
        proof {
            assert(rv == old_view.record(key));
            assert(rv.wf());
            assert(self@.entries =~= old_view.entries.remove(key));
        }
        let mut fresh: Vec<LifecycleCause> = Vec::new();
        let mut k: usize = 0;
        while k < canonical.len()
            invariant
                k <= canonical@.len(),
                record@ == rv,
                is_canonical_causes(canonical@, set),
                causes_sorted(fresh@),
                fresh@.to_set() == canonical@.subrange(0, k as int).to_set().filter(
                    |c: LifecycleCause| !rv.retains(c),
                ),
                forall|a: int, b: int| 0 <= a < fresh@.len() && k <= b < canonical@.len() ==> cause_lt(
                    #[trigger] fresh@[a],
                    #[trigger] canonical@[b],
                ),
            decreases canonical@.len() - k,
        {
            let cause = canonical[k];
            let ghost before = fresh@;
            let retained = record.contains_cause(cause);
            proof {
                assert(canonical@.subrange(0, k + 1) =~= canonical@.subrange(0, k as int).push(cause));
                canonical@.subrange(0, k as int).lemma_push_to_set_commute(cause);
            }
            if !retained {
                fresh.push(cause);
                proof {
                    before.lemma_push_to_set_commute(cause);
                    assert(fresh@.to_set() =~= canonical@.subrange(0, k + 1).to_set().filter(
                        |c: LifecycleCause| !rv.retains(c),
                    ));
                    assert forall|a: int, b: int| 0 <= a < b < fresh@.len() implies cause_lt(
                        #[trigger] fresh@[a],
                        #[trigger] fresh@[b],
                    ) by {
                        if b == fresh@.len() - 1 {
                            assert(fresh@[b] == canonical@[k as int]);
                            assert(fresh@[a] == before[a]);
                        } else {
                            assert(fresh@[a] == before[a]);
                            assert(fresh@[b] == before[b]);
                        }
                    }
                    assert forall|a: int, b: int| 0 <= a < fresh@.len() && k + 1 <= b < canonical@.len()
                        implies cause_lt(#[trigger] fresh@[a], #[trigger] canonical@[b]) by {
                        if a == fresh@.len() - 1 {
                            assert(fresh@[a] == canonical@[k as int]);
                        } else {
                            assert(fresh@[a] == before[a]);
                        }
                    }
                }
            } else {
                proof {
                    assert(fresh@.to_set() =~= canonical@.subrange(0, k + 1).to_set().filter(
                        |c: LifecycleCause| !rv.retains(c),
                    ));
                }
            }
            k = k + 1;
        }
        proof {
            assert(canonical@.subrange(0, canonical@.len() as int) =~= canonical@);
            assert(fresh@.to_set() == fresh_causes(rv, set));
        }
        if fresh.len() == 0 {
            proof {
                assert forall|c: LifecycleCause| #[trigger] set.contains(c) implies rv.retains(c) by {
                    if !rv.retains(c) {
                        assert(fresh_causes(rv, set).contains(c));
                        assert(fresh@.to_set().contains(c));
                    }
                }
                if !existed {
                    assert(canonical@.len() > 0) by {
                        assert(causes@.to_set().contains(causes@[0]));
                        assert(canonical@.to_set().contains(causes@[0]));
                    }
                    assert(set.contains(causes@[0]));
                    assert(rv.retains(causes@[0]));
                }
            }
            let outcome = LifecycleWakeRequestOutcome::Duplicate {
                desired: record.desired,
                enqueued: record.enqueued,
            };
            self.entries.insert(key, record);
            proof {
                assert(self@.entries =~= old_view.entries);
            }
            return Ok(outcome);
        }
        proof {
            assert(fresh@.to_set().contains(fresh@[0]));
            assert(!all_retained(rv, set)) by {
                assert(set.contains(fresh@[0]) && !rv.retains(fresh@[0]));
            }
        }
        let desired = match record.desired.checked_next() {
            Some(desired) => desired,
            None => {
                proof {
                    assert(existed);
                }
                self.entries.insert(key, record);
                proof {
                    assert(self@.entries =~= old_view.entries);
                }
                return Err(LifecycleControlError::GenerationOverflow { actor, role });
            },
        };
        let ghost batch = fresh@;
        record.desired = desired;
        record.causes.push(fresh);
        let outcome = match record.enqueued {
            Some(enqueued) => LifecycleWakeRequestOutcome::Coalesced { enqueued, desired },
            None => {
                record.enqueued = Some(desired);
                LifecycleWakeRequestOutcome::Enqueue { generation: desired }
            },
        };
        proof {
            let nv = requested_record(rv, batch);
            assert(record@.causes =~= rv.causes.push(batch));
            assert(record@ == nv);
            assert forall|g: int, h: int, c: LifecycleCause|
                0 <= g < nv.causes.len() && 0 <= h < nv.causes.len() && g != h
                    && #[trigger] nv.causes[g].contains(c) implies !#[trigger] nv.causes[h].contains(c) by {
                if g == rv.causes.len() {
                    if nv.causes[h].contains(c) {
                        assert(rv.causes[h].contains(c));
                        assert(rv.retains(c));
                        assert(batch.to_set().contains(c));
                    }
                } else if h == rv.causes.len() {
                    assert(rv.causes[g].contains(c));
                    assert(rv.retains(c));
                    if batch.contains(c) {
                        assert(batch.to_set().contains(c));
                    }
                } else {
                    assert(nv.causes[g] == rv.causes[g]);
                    assert(nv.causes[h] == rv.causes[h]);
                }
            }
            assert(nv.wf());
        }
        self.entries.insert(key, record);
        proof {
            lemma_canonical_batch(batch, fresh_causes(rv, set));
            assert(self@.entries =~= old_view.entries.insert(key, requested_record(rv, batch)));
            assert(self@.entries.remove(key) =~= old_view.entries.remove(key));
            assert(self@.entries[key].causes.last() == batch);
        }
        Ok(outcome)
    }

    /// Seals the enqueued `generation` of `actor` and `role` as processed and
    /// enqueues the latest desired generation if causes arrived meanwhile.
    pub fn complete(&mut self, actor: ActorId, role: LifecycleRole, generation: LifecycleGeneration) -> (r:
        Result<LifecycleCompletionOutcome, LifecycleControlError>)
        requires
            old(self)@.wf(),
        ensures
            final(self)@.wf(),
            r == complete_step(old(self)@, actor, role, generation).0,
            final(self)@ == complete_step(old(self)@, actor, role, generation).1,
            ({
                let key = control_key(actor, role);
                if !old(self)@.entries.contains_key(key) {
                    r == Err::<LifecycleCompletionOutcome, LifecycleControlError>(
                        LifecycleControlError::UnknownControl { actor, role },
                    ) && final(self)@ == old(self)@
                } else if old(self)@.entries[key].enqueued != Some(generation) {
                    r == Err::<LifecycleCompletionOutcome, LifecycleControlError>(
                        LifecycleControlError::EnqueuedGenerationMismatch {
                            actor,
                            role,
                            expected: old(self)@.entries[key].enqueued,
                            supplied: generation,
                        },
                    ) && final(self)@ == old(self)@
                } else {
                    let record = old(self)@.entries[key];
                    &&& r == Ok::<LifecycleCompletionOutcome, LifecycleControlError>(
                        LifecycleCompletionOutcome {
                            processed: generation,
                            successor: completed_record(record, generation).enqueued,
                        },
                    )
                    &&& final(self)@.entries == old(self)@.entries.insert(
                        key,
                        completed_record(record, generation),
                    )
                }
            }),
    {
        let key = (actor.get(), role.code());
        let ghost old_view = self@;
        let mut record = match self.entries.remove(&key) {
            Some(record) => record,
            None => {
                proof {
                    assert(self@.entries =~= old_view.entries);
                }
                return Err(LifecycleControlError::UnknownControl { actor, role });
            },
        };
        let ghost rv = record@;
        if record.enqueued != Some(generation) {
            let expected = record.enqueued;
            self.entries.insert(key, record);
            proof {
                assert(self@.entries =~= old_view.entries);
            }
            return Err(
                LifecycleControlError::EnqueuedGenerationMismatch {
                    actor,
                    role,
                    expected,
                    supplied: generation,
                },
            );
        }
        record.processed = generation;
        let successor = if record.desired.0 > generation.0 {
            Some(record.desired)
        } else {
            None
        };
        record.enqueued = successor;
        proof {
            assert(record@ == completed_record(rv, generation));
        }
        self.entries.insert(key, record);
        proof {
            assert(self@.entries =~= old_view.entries.insert(key, completed_record(rv, generation)));
        }
        Ok(LifecycleCompletionOutcome { processed: generation, successor })
    }
}

} // verus!
