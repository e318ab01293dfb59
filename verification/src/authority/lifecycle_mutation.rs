//! Lifecycle effects that one sealed moment batch collects per actor and
//! role, and their application to the lifecycle control ledger in
//! canonical order.

use std::collections::BTreeMap;
use vstd::prelude::*;

use crate::authority::seal::AuthorityRecordSealError;
use crate::control::command_ledger::{key_lt, ordered_pair_keys};
use crate::control::lifecycle::{
    canonical_batch, canonical_causes, complete_step, control_key, is_canonical_causes,
    lemma_canonical_batch, lemma_canonical_exists, request_step, role_accepts, LifecycleCause, LifecycleControlLedger,
    LifecycleGeneration, LifecycleLedgerView, LifecycleRole, LifecycleWakeRequestOutcome,
};
use crate::ids::ActorId;
use crate::kernel::SimMoment;

verus! {

/// The later of two moments.
pub open spec fn later_moment(a: SimMoment, b: SimMoment) -> SimMoment {
    if a.before(b) {
        b
    } else {
        a
    }
}

/// Lifecycle effects of one batch for one actor and role: the causes it
/// requests (canonical), the latest moment at which they are due, and the
/// generation it completes with the moment its successor is due.
#[derive(Debug)]
pub struct PendingLifecycleMutation {
    pub actor: ActorId,
    pub role: LifecycleRole,
    pub requested: Vec<LifecycleCause>,
    pub request_due: Option<SimMoment>,
    pub completed: Option<LifecycleGeneration>,
    pub completion_due: Option<SimMoment>,
}

/// Abstract value of a pending mutation.
pub struct PendingMutationView {
    pub actor: ActorId,
    pub role: LifecycleRole,
    pub requested: Seq<LifecycleCause>,
    pub request_due: Option<SimMoment>,
    pub completed: Option<LifecycleGeneration>,
    pub completion_due: Option<SimMoment>,
}

impl View for PendingLifecycleMutation {
    type V = PendingMutationView;

    open spec fn view(&self) -> PendingMutationView {
        PendingMutationView {
            actor: self.actor,
            role: self.role,
            requested: self.requested@,
            request_due: self.request_due,
            completed: self.completed,
            completion_due: self.completion_due,
        }
    }
}

/// A mutation of `actor` and `role` that asks for nothing yet.
pub open spec fn empty_mutation(actor: ActorId, role: LifecycleRole) -> PendingMutationView {
    PendingMutationView {
        actor,
        role,
        requested: Seq::empty(),
        request_due: None,
        completed: None,
        completion_due: None,
    }
}

/// Abstract state of a batch's lifecycle mutations, keyed by actor and role.
pub struct MutationsView {
    pub entries: Map<(u64, u64), PendingMutationView>,
}

impl MutationsView {
    /// Each entry sits under its own actor and role, and requests a
    /// canonical set of causes that its role accepts.
    pub open spec fn wf(self) -> bool {
        forall|key: (u64, u64)| #[trigger]
            self.entries.contains_key(key) ==> {
                let m = self.entries[key];
                &&& key == control_key(m.actor, m.role)
                &&& is_canonical_causes(m.requested, m.requested.to_set())
                &&& forall|c: LifecycleCause| #[trigger]
                    m.requested.contains(c) ==> role_accepts(m.role, c)
            }
    }

    /// The mutation of `actor` and `role`, or an empty one.
    pub open spec fn mutation(self, actor: ActorId, role: LifecycleRole) -> PendingMutationView {
        let key = control_key(actor, role);
        if self.entries.contains_key(key) {
            self.entries[key]
        } else {
            empty_mutation(actor, role)
        }
    }
}

/// Lifecycle mutations collected while sealing one moment batch.
#[derive(Debug)]
pub struct LifecycleMutations {
    entries: BTreeMap<(u64, u64), PendingLifecycleMutation>,
}

impl View for LifecycleMutations {
    type V = MutationsView;

    closed spec fn view(&self) -> MutationsView {
        MutationsView {
            entries: self.entries@.map_values(|m: PendingLifecycleMutation| m@),
        }
    }
}

impl LifecycleMutations {
    /// No mutation collected yet.
    pub fn new() -> (r: Self)
        ensures
            r@.entries == Map::<(u64, u64), PendingMutationView>::empty(),
            r@.wf(),
    {
        let r = LifecycleMutations { entries: BTreeMap::new() };
        proof {
            assert(r@.entries =~= Map::<(u64, u64), PendingMutationView>::empty());
        }
        r
    }

    /// Removes the mutation of `actor` and `role`, or makes an empty one.
    fn take(&mut self, actor: ActorId, role: LifecycleRole) -> (r: PendingLifecycleMutation)
        requires
            old(self)@.wf(),
        ensures
            r@ == old(self)@.mutation(actor, role),
            final(self)@.entries == old(self)@.entries.remove(control_key(actor, role)),
            final(self)@.wf(),
    {
        let key = (actor.get(), role.code());
        let ghost before = self@;
        let r = match self.entries.remove(&key) {
            Some(mutation) => mutation,
            None => PendingLifecycleMutation {
                actor,
                role,
                requested: Vec::new(),
                request_due: None,
                completed: None,
                completion_due: None,
            },
        };
        proof {
            assert(self@.entries =~= before.entries.remove(key));
            if before.entries.contains_key(key) {
                let m = before.entries[key];
                assert(key == control_key(m.actor, m.role));
                assert(m.actor.0 == actor.0);
                assert(m.role == role) by {
                    assert(crate::control::lifecycle::role_code(m.role) == crate::control::lifecycle::role_code(role));
                }
            } else {
                assert(r@.requested =~= Seq::<LifecycleCause>::empty());
            }
        }
        r
    }

    /// Puts back a mutation under its own actor and role.
    fn put(&mut self, mutation: PendingLifecycleMutation)
        requires
            old(self)@.wf(),
            is_canonical_causes(mutation@.requested, mutation@.requested.to_set()),
            forall|c: LifecycleCause| #[trigger]
                mutation@.requested.contains(c) ==> role_accepts(mutation@.role, c),
        ensures
            final(self)@.entries == old(self)@.entries.insert(
                control_key(mutation@.actor, mutation@.role),
                mutation@,
            ),
            final(self)@.wf(),
    {
        let key = (mutation.actor.get(), mutation.role.code());
        let ghost before = self@;
        let ghost value = mutation@;
        self.entries.insert(key, mutation);
        proof {
            assert(self@.entries =~= before.entries.insert(key, value));
        }
    }
}

/// The later of two moments.
fn later(a: SimMoment, b: SimMoment) -> (r: SimMoment)
    ensures
        r == later_moment(a, b),
{
    if a.precedes(b) {
        b
    } else {
        a
    }
}

/// Mutation of `actor` and `role` after also requesting `causes` due at `due`.
pub open spec fn with_request(
    m: PendingMutationView,
    causes: Set<LifecycleCause>,
    due: SimMoment,
) -> PendingMutationView {
    PendingMutationView {
        requested: canonical_batch(m.requested.to_set().union(causes)),
        request_due: Some(
            match m.request_due {
                Some(current) => later_moment(current, due),
                None => due,
            },
        ),
        ..m
    }
}

/// Collects `causes` for `actor` and `role`, due no earlier than `due`: an
/// empty list asks for nothing, and a cause the role does not accept makes
/// the batch invalid.
pub fn request_lifecycle(
    mutations: &mut LifecycleMutations,
    actor: ActorId,
    role: LifecycleRole,
    causes: &[LifecycleCause],
    due: SimMoment,
) -> (r: Result<(), AuthorityRecordSealError>)
    requires
        old(mutations)@.wf(),
    ensures
        final(mutations)@.wf(),
        causes@.len() == 0 ==> r == Ok::<(), AuthorityRecordSealError>(()) && final(mutations)@
            == old(mutations)@,
        causes@.len() > 0 && (exists|c: LifecycleCause| #[trigger] causes@.contains(c)
            && !role_accepts(role, c)) ==> r == Err::<(), AuthorityRecordSealError>(
            AuthorityRecordSealError::InvalidNormalizedGraph,
        ) && final(mutations)@ == old(mutations)@,
        causes@.len() > 0 && (forall|c: LifecycleCause| #[trigger] causes@.contains(c)
            ==> role_accepts(role, c)) ==> r == Ok::<(), AuthorityRecordSealError>(())
            && final(mutations)@.entries == old(mutations)@.entries.insert(
            control_key(actor, role),
            with_request(old(mutations)@.mutation(actor, role), causes@.to_set(), due),
        ),
{
    if causes.len() == 0 {
        return Ok(());
    }
    let mut i: usize = 0;
    while i < causes.len()
        invariant
            i <= causes@.len(),
            mutations@ == old(mutations)@,
            old(mutations)@.wf(),
            forall|j: int| 0 <= j < i ==> role_accepts(role, #[trigger] causes@[j]),
        decreases causes@.len() - i,
    {
        if !role.accepts(causes[i]) {
            proof {
                assert(causes@.contains(causes@[i as int]));
            }
            return Err(AuthorityRecordSealError::InvalidNormalizedGraph);
        }
        i = i + 1;
    }
    let mut mutation = mutations.take(actor, role);
    let ghost before = mutation@;
    let mut combined: Vec<LifecycleCause> = Vec::new();
    let mut k: usize = 0;
    while k < mutation.requested.len()
        invariant
            k <= mutation.requested@.len(),
            mutation@ == before,
            combined@ == mutation.requested@.subrange(0, k as int),
        decreases mutation.requested@.len() - k,
    {
        combined.push(mutation.requested[k]);
        proof {
            assert(combined@ =~= mutation.requested@.subrange(0, k + 1));
        }
        k = k + 1;
    }
    let mut k: usize = 0;
    while k < causes.len()
        invariant
            k <= causes@.len(),
            combined@ == before.requested + causes@.subrange(0, k as int),
        decreases causes@.len() - k,
    {
        combined.push(causes[k]);
        proof {
            assert(combined@ =~= before.requested + causes@.subrange(0, k + 1));
        }
        k = k + 1;
    }
    proof {
        assert(mutation.requested@.subrange(0, mutation.requested@.len() as int) =~= mutation.requested@);
        assert(causes@.subrange(0, causes@.len() as int) =~= causes@);
    }
    let canonical = canonical_causes(&combined);
    proof {
        assert(combined@.to_set() =~= before.requested.to_set().union(causes@.to_set())) by {
            assert forall|c: LifecycleCause| combined@.to_set().contains(c) <==> before.requested.to_set().union(
                causes@.to_set(),
            ).contains(c) by {
                if combined@.contains(c) {
                    let j = choose|j: int| 0 <= j < combined@.len() && combined@[j] == c;
                    if j < before.requested.len() {
                        assert(before.requested[j] == c);
                    } else {
                        assert(causes@[j - before.requested.len()] == c);
                    }
                }
                if before.requested.contains(c) {
                    let j = choose|j: int| 0 <= j < before.requested.len() && before.requested[j] == c;
                    assert(combined@[j] == c);
                }
                if causes@.contains(c) {
                    let j = choose|j: int| 0 <= j < causes@.len() && causes@[j] == c;
                    assert(combined@[before.requested.len() + j] == c);
                }
            }
        }
        lemma_canonical_batch(canonical@, combined@.to_set());
        assert forall|c: LifecycleCause| #[trigger] canonical@.contains(c) implies role_accepts(role, c) by {
            assert(canonical@.to_set().contains(c));
            assert(combined@.to_set().contains(c));
            if before.requested.contains(c) {
            } else {
                let j = choose|j: int| 0 <= j < causes@.len() && causes@[j] == c;
                assert(role_accepts(role, causes@[j]));
            }
        }
    }
    mutation.requested = canonical;
    mutation.request_due = Some(
        match mutation.request_due {
            Some(current) => later(current, due),
            None => due,
        },
    );
    mutations.put(mutation);
    Ok(())
}

/// Requests for one actor and role within one batch accumulate: two
/// requests leave the mutation asking for the union of their causes, due at
/// the later of their moments, exactly as one request for both would.
pub proof fn lemma_batch_requests_accumulate(
    m: PendingMutationView,
    first: Set<LifecycleCause>,
    first_due: SimMoment,
    second: Set<LifecycleCause>,
    second_due: SimMoment,
)
    requires
        first.finite(),
        second.finite(),
    ensures
        with_request(with_request(m, first, first_due), second, second_due) == with_request(
            m,
            first.union(second),
            later_moment(first_due, second_due),
        ),
{
    let once = m.requested.to_set().union(first);
    vstd::seq_lib::seq_to_set_is_finite(m.requested);
    lemma_canonical_exists(once);
    assert(canonical_batch(once).to_set() == once);
    assert(once.union(second) =~= m.requested.to_set().union(first.union(second)));
}

/// Mutation after completing `generation` with its successor due at `due`.
pub open spec fn with_completion(
    m: PendingMutationView,
    generation: LifecycleGeneration,
    due: SimMoment,
) -> PendingMutationView {
    PendingMutationView { completed: Some(generation), completion_due: Some(due), ..m }
}

/// Records that the batch completes `generation` of `actor` and `role`,
/// with any successor due at `due`; a second completion in one batch makes
/// it invalid.
pub fn complete_lifecycle(
    mutations: &mut LifecycleMutations,
    actor: ActorId,
    role: LifecycleRole,
    generation: LifecycleGeneration,
    due: SimMoment,
) -> (r: Result<(), AuthorityRecordSealError>)
    requires
        old(mutations)@.wf(),
    ensures
        final(mutations)@.wf(),
        ({
            let m = old(mutations)@.mutation(actor, role);
            if m.completed is Some {
                r == Err::<(), AuthorityRecordSealError>(
                    AuthorityRecordSealError::InvalidNormalizedGraph,
                ) && final(mutations)@.entries == old(mutations)@.entries.insert(
                    control_key(actor, role),
                    PendingMutationView { completed: Some(generation), ..m },
                )
            } else {
                r == Ok::<(), AuthorityRecordSealError>(()) && final(mutations)@.entries
                    == old(mutations)@.entries.insert(
                    control_key(actor, role),
                    with_completion(m, generation, due),
                )
            }
        }),
{
    let mut mutation = mutations.take(actor, role);
    let previous = mutation.completed;
    mutation.completed = Some(generation);
    if previous.is_some() {
        mutations.put(mutation);
        return Err(AuthorityRecordSealError::InvalidNormalizedGraph);
    }
    mutation.completion_due = Some(due);
    mutations.put(mutation);
    Ok(())
}

/// Pair keys in strictly increasing order.
pub open spec fn pairs_sorted(s: Seq<(u64, u64)>) -> bool {
    forall|i: int, j: int| 0 <= i < j < s.len() ==> key_lt(s[i], s[j])
}

/// The keys of a batch's mutations in canonical (actor, role) order.
pub open spec fn ordered_mutation_keys(dom: Set<(u64, u64)>) -> Seq<(u64, u64)> {
    choose|s: Seq<(u64, u64)>| pairs_sorted(s) && s.to_set() == dom
}

/// Two increasing key sequences with the same keys are equal.
proof fn lemma_pairs_sorted_unique(a: Seq<(u64, u64)>, b: Seq<(u64, u64)>)
    requires
        pairs_sorted(a),
        pairs_sorted(b),
        a.to_set() == b.to_set(),
    ensures
        a == b,
    decreases a.len(),
{
    if a.len() == 0 {
        if b.len() > 0 {
            assert(b.to_set().contains(b[0]));
        }
        assert(a =~= b);
    } else {
        assert(a.to_set().contains(a[0]));
        assert(b.to_set().contains(b[0]));
        assert(b.contains(a[0]));
        assert(a.contains(b[0]));
        let i = choose|i: int| 0 <= i < b.len() && b[i] == a[0];
        let j = choose|j: int| 0 <= j < a.len() && a[j] == b[0];
        if a[0] != b[0] {
            if key_lt(a[0], b[0]) {
                assert(i > 0 && key_lt(b[0], b[i]));
            } else {
                assert(j > 0 && key_lt(a[0], a[j]));
            }
        }
        let ra = a.drop_first();
        let rb = b.drop_first();
        assert forall|x: (u64, u64)| ra.to_set().contains(x) <==> rb.to_set().contains(x) by {
            if ra.to_set().contains(x) {
                let k = choose|k: int| 0 <= k < ra.len() && ra[k] == x;
                assert(a[k + 1] == x && key_lt(a[0], x));
                assert(a.to_set().contains(x));
                let m = choose|m: int| 0 <= m < b.len() && b[m] == x;
                assert(m != 0);
                assert(rb[m - 1] == x);
            }
            if rb.to_set().contains(x) {
                let k = choose|k: int| 0 <= k < rb.len() && rb[k] == x;
                assert(b[k + 1] == x && key_lt(b[0], x));
                assert(b.to_set().contains(x));
                let m = choose|m: int| 0 <= m < a.len() && a[m] == x;
                assert(m != 0);
                assert(ra[m - 1] == x);
            }
        }
        assert(ra.to_set() =~= rb.to_set());
        lemma_pairs_sorted_unique(ra, rb);
        assert forall|k: int| 0 <= k < a.len() implies a[k] == b[k] by {
            if k > 0 {
                assert(a[k] == ra[k - 1]);
                assert(b[k] == rb[k - 1]);
            }
        }
        assert(a =~= b);
    }
}

/// `s` with `x` put in its increasing place.
pub open spec fn pair_insert(s: Seq<(u64, u64)>, x: (u64, u64)) -> Seq<(u64, u64)>
    decreases s.len(),
{
    if s.len() == 0 {
        seq![x]
    } else if key_lt(x, s[0]) {
        seq![x] + s
    } else if x == s[0] {
        s
    } else {
        seq![s[0]] + pair_insert(s.drop_first(), x)
    }
}

/// Putting a key in its place keeps the sequence increasing.
proof fn lemma_pair_insert(s: Seq<(u64, u64)>, x: (u64, u64))
    requires
        pairs_sorted(s),
    ensures
        pairs_sorted(pair_insert(s, x)),
        pair_insert(s, x).to_set() == s.to_set().insert(x),
    decreases s.len(),
{
    let t = pair_insert(s, x);
    if s.len() == 0 {
        assert(t.to_set() =~= s.to_set().insert(x)) by {
            assert(t[0] == x);
        }
    } else if key_lt(x, s[0]) {
        assert forall|i: int, j: int| 0 <= i < j < t.len() implies key_lt(t[i], t[j]) by {
            if i == 0 {
                assert(t[j] == s[j - 1]);
                if j - 1 > 0 {
                    assert(key_lt(s[0], s[j - 1]));
                }
            } else {
                assert(t[i] == s[i - 1] && t[j] == s[j - 1]);
            }
        }
        assert forall|c: (u64, u64)| t.to_set().contains(c) <==> s.to_set().insert(x).contains(c) by {
            if t.contains(c) {
                let k = choose|k: int| 0 <= k < t.len() && t[k] == c;
                if k > 0 {
                    assert(s[k - 1] == c);
                }
            }
            if s.contains(c) {
                let k = choose|k: int| 0 <= k < s.len() && s[k] == c;
                assert(t[k + 1] == c);
            }
            if c == x {
                assert(t[0] == c);
            }
        }
        assert(t.to_set() =~= s.to_set().insert(x));
    } else if x == s[0] {
        assert(s.to_set().contains(x));
        assert(t.to_set() =~= s.to_set().insert(x));
    } else {
        let rest = s.drop_first();
        assert forall|i: int, j: int| 0 <= i < j < rest.len() implies key_lt(rest[i], rest[j]) by {
            assert(rest[i] == s[i + 1] && rest[j] == s[j + 1]);
        }
        lemma_pair_insert(rest, x);
        let u = pair_insert(rest, x);
        assert(key_lt(s[0], x));
        assert forall|i: int, j: int| 0 <= i < j < t.len() implies key_lt(t[i], t[j]) by {
            if i == 0 {
                assert(t[j] == u[j - 1]);
                assert(u.to_set().contains(u[j - 1]));
                if u[j - 1] != x {
                    assert(rest.to_set().contains(u[j - 1]));
                    let k = choose|k: int| 0 <= k < rest.len() && rest[k] == u[j - 1];
                    assert(s[k + 1] == u[j - 1]);
                }
            } else {
                assert(t[i] == u[i - 1] && t[j] == u[j - 1]);
            }
        }
        assert forall|c: (u64, u64)| t.to_set().contains(c) <==> s.to_set().insert(x).contains(c) by {
            if t.contains(c) {
                let k = choose|k: int| 0 <= k < t.len() && t[k] == c;
                if k > 0 {
                    assert(u[k - 1] == c);
                    assert(u.to_set().contains(c));
                    if c != x {
                        assert(rest.to_set().contains(c));
                        let m = choose|m: int| 0 <= m < rest.len() && rest[m] == c;
                        assert(s[m + 1] == c);
                    }
                }
            }
            if s.contains(c) {
                let k = choose|k: int| 0 <= k < s.len() && s[k] == c;
                if k == 0 {
                    assert(t[0] == c);
                } else {
                    assert(rest[k - 1] == c);
                    assert(rest.to_set().insert(x).contains(c));
                    assert(u.to_set().contains(c));
                    let m = choose|m: int| 0 <= m < u.len() && u[m] == c;
                    assert(t[m + 1] == c);
                }
            }
            if c == x {
                assert(rest.to_set().insert(x).contains(c));
                assert(u.to_set().contains(c));
                let m = choose|m: int| 0 <= m < u.len() && u[m] == c;
                assert(t[m + 1] == c);
            }
        }
        assert(t.to_set() =~= s.to_set().insert(x));
    }
}

/// Every finite set of keys has an increasing listing.
proof fn lemma_ordered_keys_exist(dom: Set<(u64, u64)>)
    requires
        dom.finite(),
    ensures
        pairs_sorted(ordered_mutation_keys(dom)),
        ordered_mutation_keys(dom).to_set() == dom,
    decreases dom.len(),
{
    if dom.len() == 0 {
        let empty = Seq::<(u64, u64)>::empty();
        assert(dom =~= Set::<(u64, u64)>::empty());
        assert(empty.to_set() =~= dom);
        assert(pairs_sorted(empty));
    } else {
        let x = dom.choose();
        let smaller = dom.remove(x);
        lemma_ordered_keys_exist(smaller);
        let s = ordered_mutation_keys(smaller);
        lemma_pair_insert(s, x);
        assert(smaller.insert(x) =~= dom);
        assert(pairs_sorted(pair_insert(s, x)) && pair_insert(s, x).to_set() == dom);
    }
}

/// A lifecycle run that a sealed batch schedules: `role` for `actor` at
/// `generation`, due at `due`.
#[derive(Clone, Copy, Debug, PartialEq, Eq, Structural)]
pub struct LifecycleWake {
    pub role: LifecycleRole,
    pub actor: ActorId,
    pub generation: LifecycleGeneration,
    pub due: SimMoment,
}

/// Published lifecycle mutation of one actor and role.
#[derive(Debug, PartialEq, Eq)]
pub struct LifecycleControlMutationRecord {
    pub actor: ActorId,
    pub role: LifecycleRole,
    pub requested: Vec<LifecycleCause>,
    pub completed: Option<LifecycleGeneration>,
}

/// Abstract value of a published lifecycle mutation.
pub struct MutationRecordView {
    pub actor: ActorId,
    pub role: LifecycleRole,
    pub requested: Seq<LifecycleCause>,
    pub completed: Option<LifecycleGeneration>,
}

impl View for LifecycleControlMutationRecord {
    type V = MutationRecordView;

    open spec fn view(&self) -> MutationRecordView {
        MutationRecordView {
            actor: self.actor,
            role: self.role,
            requested: self.requested@,
            completed: self.completed,
        }
    }
}

/// The published form of a pending mutation.
pub open spec fn mutation_record(m: PendingMutationView) -> MutationRecordView {
    MutationRecordView {
        actor: m.actor,
        role: m.role,
        requested: m.requested,
        completed: m.completed,
    }
}

/// Progress of applying a batch's mutations: whether one failed, the
/// ledger so far, the wakes scheduled and the records published.
pub struct FinalizeScan {
    pub failed: bool,
    pub ledger: LifecycleLedgerView,
    pub wakes: Seq<LifecycleWake>,
    pub records: Seq<MutationRecordView>,
}

/// Ledger and wakes after the request part of `m`, and whether it failed.
pub open spec fn request_part(
    ledger: LifecycleLedgerView,
    wakes: Seq<LifecycleWake>,
    m: PendingMutationView,
) -> (bool, LifecycleLedgerView, Seq<LifecycleWake>) {
    if m.requested.len() == 0 {
        (false, ledger, wakes)
    } else {
        let (answer, next) = request_step(ledger, m.actor, m.role, m.requested.to_set());
        match answer {
            Err(_) => (true, next, wakes),
            Ok(LifecycleWakeRequestOutcome::Enqueue { generation }) => match m.request_due {
                None => (true, next, wakes),
                Some(due) => (
                    false,
                    next,
                    wakes.push(LifecycleWake { role: m.role, actor: m.actor, generation, due }),
                ),
            },
            Ok(_) => (false, next, wakes),
        }
    }
}

/// Ledger and wakes after the completion part of `m`, and whether it failed.
pub open spec fn completion_part(
    ledger: LifecycleLedgerView,
    wakes: Seq<LifecycleWake>,
    m: PendingMutationView,
) -> (bool, LifecycleLedgerView, Seq<LifecycleWake>) {
    match m.completed {
        None => (false, ledger, wakes),
        Some(generation) => {
            let (answer, next) = complete_step(ledger, m.actor, m.role, generation);
            match answer {
                Err(_) => (true, next, wakes),
                Ok(outcome) => match outcome.successor {
                    None => (false, next, wakes),
                    Some(successor) => match m.completion_due {
                        None => (true, next, wakes),
                        Some(completion_due) => {
                            let due = match m.request_due {
                                Some(request_due) => later_moment(request_due, completion_due),
                                None => completion_due,
                            };
                            (
                                false,
                                next,
                                wakes.push(
                                    LifecycleWake {
                                        role: m.role,
                                        actor: m.actor,
                                        generation: successor,
                                        due,
                                    },
                                ),
                            )
                        },
                    },
                },
            }
        },
    }
}

/// One pending mutation applied to the scan.
pub open spec fn finalize_step(scan: FinalizeScan, m: PendingMutationView) -> FinalizeScan {
    if scan.failed {
        scan
    } else {
        let (failed, ledger, wakes) = request_part(scan.ledger, scan.wakes, m);
        if failed {
            FinalizeScan { failed: true, ledger, wakes, records: scan.records }
        } else {
            let (failed, ledger, wakes) = completion_part(ledger, wakes, m);
            if failed {
                FinalizeScan { failed: true, ledger, wakes, records: scan.records }
            } else {
                FinalizeScan { failed: false, ledger, wakes, records: scan.records.push(mutation_record(m)) }
            }
        }
    }
}

/// Pending mutations applied in order.
pub open spec fn finalize_scan(start: FinalizeScan, ms: Seq<PendingMutationView>) -> FinalizeScan
    decreases ms.len(),
{
    if ms.len() == 0 {
        start
    } else {
        finalize_step(finalize_scan(start, ms.drop_last()), ms.last())
    }
}

/// A batch's mutations in canonical (actor, role) order.
pub open spec fn ordered_mutations(mutations: MutationsView) -> Seq<PendingMutationView> {
    ordered_mutation_keys(mutations.entries.dom()).map_values(
        |key: (u64, u64)| mutations.entries[key],
    )
}

/// Exact result of applying all of a batch's mutations to `ledger`, with
/// `wakes` already scheduled.
pub open spec fn finalized(
    ledger: LifecycleLedgerView,
    wakes: Seq<LifecycleWake>,
    mutations: MutationsView,
) -> FinalizeScan {
    finalize_scan(
        FinalizeScan { failed: false, ledger, wakes, records: Seq::empty() },
        ordered_mutations(mutations),
    )
}

/// Once a prefix fails, the rest of the batch changes nothing.
proof fn lemma_finalize_failure_sticks(start: FinalizeScan, ms: Seq<PendingMutationView>, k: int)
    requires
        0 <= k <= ms.len(),
        finalize_scan(start, ms.subrange(0, k)).failed,
    ensures
        finalize_scan(start, ms) == finalize_scan(start, ms.subrange(0, k)),
    decreases ms.len() - k,
{
    if k < ms.len() {
        assert(ms.subrange(0, k + 1).drop_last() =~= ms.subrange(0, k));
        lemma_finalize_failure_sticks(start, ms, k + 1);
    } else {
        assert(ms.subrange(0, k) =~= ms);
    }
}

/// Published views of a list of records.
pub open spec fn record_views(records: Seq<LifecycleControlMutationRecord>) -> Seq<MutationRecordView> {
    records.map_values(|record: LifecycleControlMutationRecord| record@)
}

/// Applies one pending mutation: its request, then its completion, then
/// publishes its record.
fn finalize_one(
    ledger: &mut LifecycleControlLedger,
    m: &PendingLifecycleMutation,
    scheduled: &mut Vec<LifecycleWake>,
    records: &mut Vec<LifecycleControlMutationRecord>,
) -> (r: Result<(), AuthorityRecordSealError>)
    requires
        old(ledger)@.wf(),
        is_canonical_causes(m@.requested, m@.requested.to_set()),
        forall|c: LifecycleCause| #[trigger] m@.requested.contains(c) ==> role_accepts(m@.role, c),
    ensures
        final(ledger)@.wf(),
        ({
            let step = finalize_step(
                FinalizeScan {
                    failed: false,
                    ledger: old(ledger)@,
                    wakes: old(scheduled)@,
                    records: record_views(old(records)@),
                },
                m@,
            );
            &&& final(ledger)@ == step.ledger
            &&& final(scheduled)@ == step.wakes
            &&& record_views(final(records)@) == step.records
            &&& (r is Err <==> step.failed)
            &&& (r is Err ==> r == Err::<(), AuthorityRecordSealError>(
                AuthorityRecordSealError::InvalidNormalizedGraph,
            ))
        }),
{
    let requested = m.requested.clone();
    proof {
        assert(requested@ =~= m.requested@);
    }
    if requested.len() > 0 {
        match ledger.request(m.actor, m.role, &requested) {
            Err(_) => {
                return Err(AuthorityRecordSealError::InvalidNormalizedGraph);
            },
            Ok(LifecycleWakeRequestOutcome::Enqueue { generation }) => match m.request_due {
                None => {
                    return Err(AuthorityRecordSealError::InvalidNormalizedGraph);
                },
                Some(due) => {
                    scheduled.push(LifecycleWake { role: m.role, actor: m.actor, generation, due });
                },
            },
            Ok(_) => {},
        }
    }
    if let Some(generation) = m.completed {
        match ledger.complete(m.actor, m.role, generation) {
            Err(_) => {
                return Err(AuthorityRecordSealError::InvalidNormalizedGraph);
            },
            Ok(outcome) => {
                if let Some(successor) = outcome.successor() {
                    match m.completion_due {
                        None => {
                            return Err(AuthorityRecordSealError::InvalidNormalizedGraph);
                        },
                        Some(completion_due) => {
                            let due = match m.request_due {
                                Some(request_due) => later(request_due, completion_due),
                                None => completion_due,
                            };
                            scheduled.push(
                                LifecycleWake {
                                    role: m.role,
                                    actor: m.actor,
                                    generation: successor,
                                    due,
                                },
                            );
                        },
                    }
                }
            },
        }
    }
    let ghost before = old(records)@;
    records.push(
        LifecycleControlMutationRecord {
            actor: m.actor,
            role: m.role,
            requested,
            completed: m.completed,
        },
    );
    proof {
        assert(record_views(records@) =~= record_views(before).push(mutation_record(m@)));
    }
    Ok(())
}

/// Applies a batch's lifecycle mutations to the ledger in canonical
/// (actor, role) order, appending the wakes it schedules to `scheduled`
/// and returning the published records; any inconsistency makes the whole
/// batch invalid.
pub fn finalize_lifecycle_mutations(
    ledger: &mut LifecycleControlLedger,
    mutations: LifecycleMutations,
    scheduled: &mut Vec<LifecycleWake>,
) -> (r: Result<Vec<LifecycleControlMutationRecord>, AuthorityRecordSealError>)
    requires
        old(ledger)@.wf(),
        mutations@.wf(),
    ensures
        final(ledger)@.wf(),
        ({
            let scan = finalized(old(ledger)@, old(scheduled)@, mutations@);
            &&& final(ledger)@ == scan.ledger
            &&& final(scheduled)@ == scan.wakes
            &&& match r {
                Ok(records) => !scan.failed && record_views(records@) == scan.records,
                Err(error) => scan.failed && error == AuthorityRecordSealError::InvalidNormalizedGraph,
            }
        }),
{
    let keys = ordered_pair_keys(&mutations.entries);
    let ghost view = mutations@;
    let ghost ms = ordered_mutations(view);
    let ghost start = FinalizeScan {
        failed: false,
        ledger: old(ledger)@,
        wakes: old(scheduled)@,
        records: Seq::empty(),
    };
    proof {
        assert(view.entries.dom() =~= mutations.entries@.dom());
        let chosen = ordered_mutation_keys(view.entries.dom());
        assert(pairs_sorted(keys@));
        assert(pairs_sorted(chosen) && chosen.to_set() == view.entries.dom());
        lemma_pairs_sorted_unique(keys@, chosen);
        assert(ms.len() == keys@.len());
        assert(ms.subrange(0, 0) =~= Seq::<PendingMutationView>::empty());
    }
    let mut records: Vec<LifecycleControlMutationRecord> = Vec::new();
    let mut i: usize = 0;
    proof {
        assert(record_views(records@) =~= Seq::<MutationRecordView>::empty());
    }
    while i < keys.len()
        invariant
            i <= keys@.len(),
            mutations@ == view,
            view.wf(),
            start == (FinalizeScan {
                failed: false,
                ledger: old(ledger)@,
                wakes: old(scheduled)@,
                records: Seq::empty(),
            }),
            ms == ordered_mutations(view),
            keys@.to_set() == view.entries.dom(),
            ms == keys@.map_values(|key: (u64, u64)| view.entries[key]),
            ledger@.wf(),
            ({
                let scan = finalize_scan(start, ms.subrange(0, i as int));
                &&& !scan.failed
                &&& ledger@ == scan.ledger
                &&& scheduled@ == scan.wakes
                &&& record_views(records@) == scan.records
            }),
        decreases keys@.len() - i,
    {
        let key = keys[i];
        proof {
            assert(keys@.to_set().contains(key));
            assert(view.entries.contains_key(key));
            assert(ms.subrange(0, i + 1).drop_last() =~= ms.subrange(0, i as int));
            assert(ms.subrange(0, i + 1).last() == view.entries[key]);
        }
        let m = match mutations.entries.get(&key) {
            Some(m) => m,
            None => {
                return Err(AuthorityRecordSealError::InvalidNormalizedGraph);
            },
        };
        proof {
            assert(m@ == view.entries[key]);
        }
        let ghost prefix = finalize_scan(start, ms.subrange(0, i as int));
        proof {
            assert(prefix == FinalizeScan {
                failed: false,
                ledger: ledger@,
                wakes: scheduled@,
                records: record_views(records@),
            });
        }
        let step = finalize_one(ledger, m, scheduled, &mut records);
        proof {
            assert(finalize_scan(start, ms.subrange(0, i + 1)) == finalize_step(prefix, m@));
        }
        if step.is_err() {
            proof {
                lemma_finalize_failure_sticks(start, ms, i + 1);
            }
            return Err(AuthorityRecordSealError::InvalidNormalizedGraph);
        }
        i = i + 1;
    }
    proof {
        assert(ms.subrange(0, ms.len() as int) =~= ms);
    }
    Ok(records)
}

/// Key of the actor-role cursor that a pending mutation touches.
pub open spec fn mutation_key(m: PendingMutationView) -> (u64, u64) {
    control_key(m.actor, m.role)
}

/// One mutation touches only its own cursor, and advances its desired
/// generation by at most one.
proof fn lemma_step_touches_one_cursor(scan: FinalizeScan, m: PendingMutationView)
    ensures
        forall|k: (u64, u64)|
            k != mutation_key(m) ==> #[trigger] finalize_step(scan, m).ledger.record(k)
                == scan.ledger.record(k),
        finalize_step(scan, m).ledger.record(mutation_key(m)).desired.0 <= scan.ledger.record(
            mutation_key(m),
        ).desired.0 + 1,
{
    let key = mutation_key(m);
    if !scan.failed {
        let (f1, l1, w1) = request_part(scan.ledger, scan.wakes, m);
        assert forall|k: (u64, u64)| k != key implies #[trigger] l1.record(k) == scan.ledger.record(k) by {
            if m.requested.len() > 0 {
                let (answer, next) = request_step(scan.ledger, m.actor, m.role, m.requested.to_set());
                assert(next.entries.contains_key(k) == scan.ledger.entries.contains_key(k));
            }
        }
        assert(l1.record(key).desired.0 <= scan.ledger.record(key).desired.0 + 1);
        if !f1 {
            let (f2, l2, w2) = completion_part(l1, w1, m);
            assert forall|k: (u64, u64)| k != key implies #[trigger] l2.record(k) == l1.record(k) by {
                if m.completed is Some {
                    let (answer, next) = complete_step(l1, m.actor, m.role, m.completed.unwrap());
                    assert(next.entries.contains_key(k) == l1.entries.contains_key(k));
                }
            }
            assert(l2.record(key).desired == l1.record(key).desired);
        }
    }
}

/// Mutations with distinct keys, applied in order, advance each cursor's
/// desired generation by at most one, and leave untouched cursors alone.
proof fn lemma_scan_generations(start: FinalizeScan, ms: Seq<PendingMutationView>)
    requires
        forall|i: int, j: int| 0 <= i < j < ms.len() ==> mutation_key(#[trigger] ms[i]) != mutation_key(
            #[trigger] ms[j],
        ),
    ensures
        forall|k: (u64, u64)| #[trigger]
            finalize_scan(start, ms).ledger.record(k).desired.0 <= start.ledger.record(k).desired.0
                + 1,
        forall|k: (u64, u64)|
            (forall|i: int| 0 <= i < ms.len() ==> mutation_key(#[trigger] ms[i]) != k)
                ==> #[trigger] finalize_scan(start, ms).ledger.record(k) == start.ledger.record(k),
    decreases ms.len(),
{
    if ms.len() > 0 {
        let prefix = ms.drop_last();
        let m = ms.last();
        assert forall|i: int, j: int| 0 <= i < j < prefix.len() implies mutation_key(#[trigger] prefix[i])
            != mutation_key(#[trigger] prefix[j]) by {
            assert(prefix[i] == ms[i] && prefix[j] == ms[j]);
        }
        lemma_scan_generations(start, prefix);
        let before = finalize_scan(start, prefix);
        lemma_step_touches_one_cursor(before, m);
        assert forall|i: int| 0 <= i < prefix.len() implies mutation_key(#[trigger] prefix[i])
            != mutation_key(m) by {
            assert(prefix[i] == ms[i]);
            assert(ms[ms.len() - 1] == m);
        }
        assert(before.ledger.record(mutation_key(m)) == start.ledger.record(mutation_key(m)));
        assert forall|k: (u64, u64)|
            (forall|i: int| 0 <= i < ms.len() ==> mutation_key(#[trigger] ms[i]) != k) implies #[trigger]
            finalize_scan(start, ms).ledger.record(k) == start.ledger.record(k) by {
            assert(mutation_key(ms[ms.len() - 1]) != k);
            assert forall|i: int| 0 <= i < prefix.len() implies mutation_key(#[trigger] prefix[i]) != k by {
                assert(prefix[i] == ms[i]);
            }
        }
    }
}

/// Sealing one batch advances each actor-role cursor by at most one
/// generation, however many of the batch's causes it received: all of a
/// batch's requests for one actor and role coalesce into one request.
pub proof fn lemma_batch_advances_at_most_one_generation(
    ledger: LifecycleLedgerView,
    wakes: Seq<LifecycleWake>,
    mutations: MutationsView,
)
    requires
        mutations.wf(),
        mutations.entries.dom().finite(),
    ensures
        forall|k: (u64, u64)| #[trigger]
            finalized(ledger, wakes, mutations).ledger.record(k).desired.0 <= ledger.record(k).desired.0
                + 1,
{
    let dom = mutations.entries.dom();
    lemma_ordered_keys_exist(dom);
    let keys = ordered_mutation_keys(dom);
    let ms = ordered_mutations(mutations);
    assert forall|i: int, j: int| 0 <= i < j < ms.len() implies mutation_key(#[trigger] ms[i])
        != mutation_key(#[trigger] ms[j]) by {
        assert(key_lt(keys[i], keys[j]));
        assert(keys.to_set().contains(keys[i]) && keys.to_set().contains(keys[j]));
        assert(mutation_key(ms[i]) == keys[i]);
        assert(mutation_key(ms[j]) == keys[j]);
    }
    lemma_scan_generations(
        FinalizeScan { failed: false, ledger, wakes, records: Seq::empty() },
        ms,
    );
}

} // verus!
