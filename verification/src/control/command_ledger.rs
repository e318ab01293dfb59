//! Source-scoped command ledger: terminal command results keyed by
//! `(source, sequence)`, with one retirement frontier per source.

use std::collections::BTreeMap;
use vstd::prelude::*;
use vstd::set_lib::lemma_set_empty_equivalency_len;
use vstd::std_specs::btree::increasing_seq;
use vstd::std_specs::cmp::OrdSpec;
use vstd::std_specs::iter::IteratorSpec;

use crate::control::retirement::{
    complete_range, first_missing, is_first_missing, lemma_first_missing, retirement_start,
    spec_prefix_retirement, LedgerRetirementError,
};
use crate::ids::{AttemptRecordId, CommandId, CommandRequestFingerprint, CommandSource};
use crate::kernel::{CommandAttemptOutcome, StableCommandRejection};

verus! {

/// Closed result of one source-scoped command-ledger lookup.
#[derive(Clone, Copy, Debug, PartialEq, Eq, Structural)]
pub enum CommandLedgerLookup {
    Absent,
    Retired,
    RetainedExact { original_attempt: AttemptRecordId, outcome: CommandAttemptOutcome },
    RetainedCollision { original_attempt: AttemptRecordId },
    IdReuseMismatch { original_attempt: AttemptRecordId },
}

/// Retained terminal state of one source-scoped command sequence.
#[derive(Clone, Debug, PartialEq, Eq)]
pub enum CommandLedgerEntry {
    Exact {
        fingerprint: CommandRequestFingerprint,
        original_attempt: AttemptRecordId,
        outcome: CommandAttemptOutcome,
    },
    Collision { fingerprints: Vec<CommandRequestFingerprint>, original_attempt: AttemptRecordId },
}

/// Attempt record that first resolved the entry's command sequence.
pub open spec fn entry_attempt(entry: CommandLedgerEntry) -> AttemptRecordId {
    match entry {
        CommandLedgerEntry::Exact { original_attempt, .. } => original_attempt,
        CommandLedgerEntry::Collision { original_attempt, .. } => original_attempt,
    }
}

/// Outcome an entry answers with: a collision is always an ID-collision rejection.
pub open spec fn entry_outcome(entry: CommandLedgerEntry) -> CommandAttemptOutcome {
    match entry {
        CommandLedgerEntry::Exact { outcome, .. } => outcome,
        CommandLedgerEntry::Collision { .. } => CommandAttemptOutcome::Rejected(
            StableCommandRejection::IdCollision,
        ),
    }
}

impl CommandLedgerEntry {
    /// Attempt record that first resolved this command sequence.
    pub fn original_attempt(&self) -> (r: AttemptRecordId)
        ensures
            r == entry_attempt(*self),
    {
        match self {
            CommandLedgerEntry::Exact { original_attempt, .. } => *original_attempt,
            CommandLedgerEntry::Collision { original_attempt, .. } => *original_attempt,
        }
    }

    /// Same as [`CommandLedgerEntry::original_attempt`].
    pub fn attempt(&self) -> (r: AttemptRecordId)
        ensures
            r == entry_attempt(*self),
    {
        self.original_attempt()
    }

    /// Outcome this entry answers every replay with.
    pub fn outcome(&self) -> (r: CommandAttemptOutcome)
        ensures
            r == entry_outcome(*self),
    {
        match self {
            CommandLedgerEntry::Exact { outcome, .. } => *outcome,
            CommandLedgerEntry::Collision { .. } => CommandAttemptOutcome::Rejected(
                StableCommandRejection::IdCollision,
            ),
        }
    }

    /// The single accepted fingerprint of an exact entry.
    pub fn exact_fingerprint(&self) -> (r: Option<CommandRequestFingerprint>)
        ensures
            r == (match *self {
                CommandLedgerEntry::Exact { fingerprint, .. } => Some(fingerprint),
                CommandLedgerEntry::Collision { .. } => None::<CommandRequestFingerprint>,
            }),
    {
        match self {
            CommandLedgerEntry::Exact { fingerprint, .. } => Some(*fingerprint),
            CommandLedgerEntry::Collision { .. } => None,
        }
    }

    /// The canonical distinct fingerprints of a collision entry.
    pub fn collision_fingerprints(&self) -> (r: Option<&[CommandRequestFingerprint]>)
        ensures
            match *self {
                CommandLedgerEntry::Exact { .. } => r is None,
                CommandLedgerEntry::Collision { fingerprints, .. } => r is Some && r->0@
                    == fingerprints@,
            },
    {
        match self {
            CommandLedgerEntry::Exact { .. } => None,
            CommandLedgerEntry::Collision { fingerprints, .. } => Some(fingerprints.as_slice()),
        }
    }
}

/// Invalid insertion into the source-scoped command ledger.
#[derive(Clone, Copy, Debug, PartialEq, Eq, Structural)]
pub enum CommandLedgerInsertError {
    NotAbsent { source: CommandSource, id: CommandId },
    CollisionRequiresDistinctFingerprints {
        source: CommandSource,
        id: CommandId,
        distinct_count: usize,
    },
    ExactCannotRepresentCollision { source: CommandSource, id: CommandId },
}

impl CommandLedgerInsertError {
    /// Source of the rejected insertion.
    pub fn source(self) -> (r: CommandSource)
        ensures
            r == (match self {
                CommandLedgerInsertError::NotAbsent { source, .. } => source,
                CommandLedgerInsertError::CollisionRequiresDistinctFingerprints { source, .. } => source,
                CommandLedgerInsertError::ExactCannotRepresentCollision { source, .. } => source,
            }),
    {
        match self {
            CommandLedgerInsertError::NotAbsent { source, .. } => source,
            CommandLedgerInsertError::CollisionRequiresDistinctFingerprints { source, .. } => source,
            CommandLedgerInsertError::ExactCannotRepresentCollision { source, .. } => source,
        }
    }

    /// Command sequence of the rejected insertion.
    pub fn id(self) -> (r: CommandId)
        ensures
            r == (match self {
                CommandLedgerInsertError::NotAbsent { id, .. } => id,
                CommandLedgerInsertError::CollisionRequiresDistinctFingerprints { id, .. } => id,
                CommandLedgerInsertError::ExactCannotRepresentCollision { id, .. } => id,
            }),
    {
        match self {
            CommandLedgerInsertError::NotAbsent { id, .. } => id,
            CommandLedgerInsertError::CollisionRequiresDistinctFingerprints { id, .. } => id,
            CommandLedgerInsertError::ExactCannotRepresentCollision { id, .. } => id,
        }
    }
}

/// Fingerprints in strictly increasing order, hence without repetition.
pub open spec fn strictly_increasing(s: Seq<CommandRequestFingerprint>) -> bool {
    forall|i: int, j: int| 0 <= i < j < s.len() ==> s[i].0 < s[j].0
}

/// `s` is the canonical form of the fingerprint set `set`.
pub open spec fn is_canonical_fingerprints(
    s: Seq<CommandRequestFingerprint>,
    set: Set<CommandRequestFingerprint>,
) -> bool {
    strictly_increasing(s) && s.to_set() == set
}

proof fn lemma_strictly_increasing_cardinality(s: Seq<CommandRequestFingerprint>)
    requires
        strictly_increasing(s),
    ensures
        s.to_set().len() == s.len(),
{
    assert(s.no_duplicates()) by {
        assert forall|i: int, j: int| 0 <= i < s.len() && 0 <= j < s.len() && i != j implies s[i]
            != s[j] by {
            if i < j {
                assert(s[i].0 < s[j].0);
            } else {
                assert(s[j].0 < s[i].0);
            }
        }
    }
    s.unique_seq_to_set();
}

/// Sorts and deduplicates fingerprints into their canonical order.
pub fn canonical_fingerprints(fingerprints: &[CommandRequestFingerprint]) -> (r: Vec<
    CommandRequestFingerprint,
>)
    ensures
        is_canonical_fingerprints(r@, fingerprints@.to_set()),
        r@.len() == fingerprints@.to_set().len(),
{
    let mut out: Vec<CommandRequestFingerprint> = Vec::new();
    let mut i: usize = 0;
    while i < fingerprints.len()
        invariant
            i <= fingerprints@.len(),
            strictly_increasing(out@),
            out@.to_set() == fingerprints@.subrange(0, i as int).to_set(),
        decreases fingerprints@.len() - i,
    {
        let fingerprint = fingerprints[i];
        let mut position: usize = 0;
        while position < out.len() && out[position].0 < fingerprint.0
            invariant
                position <= out@.len(),
                forall|j: int| 0 <= j < position ==> out@[j].0 < fingerprint.0,
            decreases out@.len() - position,
        {
            position = position + 1;
        }
        let ghost before = out@;
        proof {
            assert(fingerprints@.subrange(0, i + 1) =~= fingerprints@.subrange(0, i as int).push(
                fingerprint,
            ));
            fingerprints@.subrange(0, i as int).lemma_push_to_set_commute(fingerprint);
        }
        if position < out.len() && out[position].0 == fingerprint.0 {
            proof {
                assert(out@[position as int] == fingerprint);
                assert(out@.to_set().contains(fingerprint));
                assert(out@.to_set().insert(fingerprint) =~= out@.to_set());
            }
        } else {
            out.insert(position, fingerprint);
            proof {
                assert forall|a: int, b: int| 0 <= a < b < out@.len() implies out@[a].0
                    < out@[b].0 by {
                    if b < position {
                    } else if b == position {
                    } else if a < position {
                        assert(out@[b] == before[b - 1]);
                        if position < before.len() {
                            assert(before[position as int].0 > fingerprint.0);
                            assert(before[position as int].0 <= before[b - 1].0);
                        }
                    } else if a == position {
                        assert(out@[b] == before[b - 1]);
                        assert(before[position as int].0 > fingerprint.0);
                        assert(before[position as int].0 <= before[b - 1].0);
                    } else {
                        assert(out@[a] == before[a - 1]);
                        assert(out@[b] == before[b - 1]);
                    }
                }
                assert forall|x: CommandRequestFingerprint| out@.to_set().contains(x) <==> before.to_set().insert(
                    fingerprint,
                ).contains(x) by {
                    if out@.to_set().contains(x) {
                        let k = choose|k: int| 0 <= k < out@.len() && out@[k] == x;
                        if k < position {
                            assert(before[k] == x);
                        } else if k > position {
                            assert(before[k - 1] == x);
                        }
                    }
                    if before.to_set().contains(x) {
                        let k = choose|k: int| 0 <= k < before.len() && before[k] == x;
                        if k < position {
                            assert(out@[k] == x);
                        } else {
                            assert(out@[k + 1] == x);
                        }
                    }
                    if x == fingerprint {
                        assert(out@[position as int] == x);
                    }
                }
                assert(out@.to_set() =~= before.to_set().insert(fingerprint));
            }
        }
        i = i + 1;
    }
    proof {
        assert(fingerprints@.subrange(0, fingerprints@.len() as int) =~= fingerprints@);
        lemma_strictly_increasing_cardinality(out@);
    }
    out
}

/// Abstract state of the command ledger.
pub struct CommandLedgerView {
    pub retired_through: Map<u64, u64>,
    pub entries: Map<(u64, u64), CommandLedgerEntry>,
}

/// Sequence numbers of `source` that the entries retain.
pub open spec fn source_dom(entries: Map<(u64, u64), CommandLedgerEntry>, source: u64) -> Set<u64> {
    Set::new(|id: u64| entries.contains_key((source, id)))
}

impl CommandLedgerView {
    /// No retained entry lies at or below its source's frontier.
    pub open spec fn wf(self) -> bool {
        forall|key: (u64, u64)| #[trigger]
            self.entries.contains_key(key) ==> !self.is_retired(key.0, key.1)
    }

    /// The frontier of `source`, if any.
    pub open spec fn frontier(self, source: u64) -> Option<u64> {
        if self.retired_through.contains_key(source) {
            Some(self.retired_through[source])
        } else {
            None
        }
    }

    /// `(source, id)` is permanently retired.
    pub open spec fn is_retired(self, source: u64, id: u64) -> bool {
        self.retired_through.contains_key(source) && id <= self.retired_through[source]
    }

    /// `(source, id)` is neither retired nor retained.
    pub open spec fn is_vacant(self, source: u64, id: u64) -> bool {
        !self.is_retired(source, id) && !self.entries.contains_key((source, id))
    }

    /// Answer of a retirement of `source` through `target`.
    pub open spec fn retirement(self, source: u64, target: u64) -> Result<(), LedgerRetirementError> {
        spec_prefix_retirement(self.frontier(source), source_dom(self.entries, source), target)
    }

    /// State after a successful retirement of `source` through `target`.
    pub open spec fn retired(self, source: u64, target: u64) -> Self {
        CommandLedgerView {
            retired_through: self.retired_through.insert(source, target),
            entries: self.entries.restrict(
                Set::new(|key: (u64, u64)| key.0 != source || key.1 > target),
            ),
        }
    }

    /// Exact classification of a command request.
    pub open spec fn lookup(self, source: u64, id: u64, fingerprint: CommandRequestFingerprint) -> CommandLedgerLookup {
        if self.is_retired(source, id) {
            CommandLedgerLookup::Retired
        } else if !self.entries.contains_key((source, id)) {
            CommandLedgerLookup::Absent
        } else {
            match self.entries[(source, id)] {
                CommandLedgerEntry::Exact { fingerprint: retained, original_attempt, outcome } =>
                    if retained == fingerprint {
                    CommandLedgerLookup::RetainedExact { original_attempt, outcome }
                } else {
                    CommandLedgerLookup::IdReuseMismatch { original_attempt }
                },
                CommandLedgerEntry::Collision { original_attempt, .. } =>
                    CommandLedgerLookup::RetainedCollision { original_attempt },
            }
        }
    }
}

/// Typed retained command state and retirement frontiers scoped by source.
#[derive(Clone, Debug)]
pub struct CommandRequestLedger {
    retired_through: BTreeMap<u64, u64>,
    entries: BTreeMap<(u64, u64), CommandLedgerEntry>,
}

impl View for CommandRequestLedger {
    type V = CommandLedgerView;

    closed spec fn view(&self) -> CommandLedgerView {
        CommandLedgerView { retired_through: self.retired_through@, entries: self.entries@ }
    }
}

impl Default for CommandRequestLedger {
    fn default() -> (r: Self)
        ensures
            r@.retired_through == Map::<u64, u64>::empty(),
            r@.entries == Map::<(u64, u64), CommandLedgerEntry>::empty(),
            r@.wf(),
    {
        CommandRequestLedger { retired_through: BTreeMap::new(), entries: BTreeMap::new() }
    }
}

/// `a` precedes `b` in `(source, sequence)` order.
pub open spec fn key_lt(a: (u64, u64), b: (u64, u64)) -> bool {
    a.0 < b.0 || (a.0 == b.0 && a.1 < b.1)
}

/// Lists the pair keys of a map in increasing order.
pub fn ordered_pair_keys<V>(entries: &BTreeMap<(u64, u64), V>) -> (r: Vec<(u64, u64)>)
    ensures
        r@.to_set() == entries@.dom(),
        forall|i: int, j: int| 0 <= i < j < r@.len() ==> key_lt(r@[i], r@[j]),
{
    let mut out: Vec<(u64, u64)> = Vec::new();
    let iter = entries.iter();
    let ghost s = iter.remaining();
    let ghost m = entries@;
    for (key, _value) in it: iter
        invariant
            it.seq() == s,
            out@.len() == it.index(),
            forall|i: int| 0 <= i < out@.len() ==> out@[i] == *s[i].0,
    {
        out.push(*key);
    }
    proof {
        let keys = s.map_values(|kv: (&(u64, u64), &V)| *kv.0);
        assert(increasing_seq(keys));
        assert forall|k: (u64, u64)| m.contains_key(k) implies out@.contains(k) by {
            assert(s.contains((&k, &m[k])));
            let i = choose|i: int| 0 <= i < s.len() && s[i] == (&k, &m[k]);
            assert(out@[i] == k);
        }
        assert forall|i: int| 0 <= i < out@.len() implies m.contains_key(#[trigger] out@[i]) by {
            assert(m.contains_key(*s[i].0));
        }
        assert forall|i: int, j: int| 0 <= i < j < out@.len() implies key_lt(out@[i], out@[j]) by {
            assert(keys[i] == out@[i]);
            assert(keys[j] == out@[j]);
            assert(keys[i].cmp_spec(&keys[j]) is Less);
        }
        assert(out@.to_set() =~= m.dom());
    }
    out
}

fn check_source_range(
    entries: &BTreeMap<(u64, u64), CommandLedgerEntry>,
    source: u64,
    start: u64,
    target: u64,
) -> (r: Result<(), LedgerRetirementError>)
    requires
        start <= target,
    ensures
        r == (if complete_range(source_dom(entries@, source), start, target) {
            Ok::<(), LedgerRetirementError>(())
        } else {
            Err(
                LedgerRetirementError::Gap {
                    missing: first_missing(source_dom(entries@, source), start, target),
                },
            )
        }),
{
    let ghost dom = source_dom(entries@, source);
    let mut sequence = start;
    while sequence < target
        invariant
            start <= sequence <= target,
            dom == source_dom(entries@, source),
            forall|k: u64| start <= k < sequence ==> #[trigger] dom.contains(k),
        decreases target - sequence,
    {
        if !entries.contains_key(&(source, sequence)) {
            proof {
                assert(!dom.contains(sequence));
                assert(is_first_missing(dom, start, target, sequence));
                lemma_first_missing(dom, start, target, sequence);
            }
            return Err(LedgerRetirementError::Gap { missing: sequence });
        }
        assert(dom.contains(sequence));
        sequence = sequence + 1;
    }
    if !entries.contains_key(&(source, target)) {
        proof {
            assert(!dom.contains(target));
            assert(is_first_missing(dom, start, target, target));
            lemma_first_missing(dom, start, target, target);
        }
        return Err(LedgerRetirementError::Gap { missing: target });
    }
    assert(dom.contains(target));
    Ok(())
}

fn remove_source_range(
    entries: &mut BTreeMap<(u64, u64), CommandLedgerEntry>,
    source: u64,
    start: u64,
    target: u64,
)
    requires
        start <= target,
    ensures
        final(entries)@ == old(entries)@.remove_keys(
            Set::new(|key: (u64, u64)| key.0 == source && start <= key.1 <= target),
        ),
{
    let mut sequence = start;
    while sequence < target
        invariant
            start <= sequence <= target,
            entries@ == old(entries)@.remove_keys(
                Set::new(|key: (u64, u64)| key.0 == source && start <= key.1 < sequence),
            ),
        decreases target - sequence,
    {
        entries.remove(&(source, sequence));
        proof {
            assert(entries@ =~= old(entries)@.remove_keys(
                Set::new(|key: (u64, u64)| key.0 == source && start <= key.1 < sequence + 1),
            ));
        }
        sequence = sequence + 1;
    }
    entries.remove(&(source, target));
    proof {
        assert(entries@ =~= old(entries)@.remove_keys(
            Set::new(|key: (u64, u64)| key.0 == source && start <= key.1 <= target),
        ));
    }
}

impl CommandRequestLedger {
    /// No entry is retained and no source frontier has moved.
    pub fn is_empty(&self) -> (r: bool)
        ensures
            r == (self@.entries == Map::<(u64, u64), CommandLedgerEntry>::empty()
                && self@.retired_through == Map::<u64, u64>::empty()),
    {
        proof {
            lemma_set_empty_equivalency_len(self@.entries.dom());
            lemma_set_empty_equivalency_len(self@.retired_through.dom());
        }
        let r = self.entries.len() == 0 && self.retired_through.len() == 0;
        proof {
            if r {
                assert(self@.entries =~= Map::<(u64, u64), CommandLedgerEntry>::empty());
                assert(self@.retired_through =~= Map::<u64, u64>::empty());
            }
        }
        r
    }

    /// The retirement frontier of `source`, if any.
    pub fn retired_through(&self, source: CommandSource) -> (r: Option<CommandId>)
        ensures
            r == (match self@.frontier(source.0) {
                Some(f) => Some(CommandId(f)),
                None => None::<CommandId>,
            }),
    {
        match self.retired_through.get(&source.get()) {
            Some(frontier) => Some(CommandId::new(*frontier)),
            None => None,
        }
    }

    /// The retained entry for `(source, id)`, if any.
    pub fn get(&self, source: CommandSource, id: CommandId) -> (r: Option<&CommandLedgerEntry>)
        ensures
            match r {
                Some(entry) => self@.entries.contains_key((source.0, id.0)) && *entry
                    == self@.entries[(source.0, id.0)],
                None => !self@.entries.contains_key((source.0, id.0)),
            },
    {
        self.entries.get(&(source.get(), id.get()))
    }

    /// Classifies a command as absent, retired, an exact replay, an ID reuse or
    /// a retained collision.
    pub fn classify(
        &self,
        source: CommandSource,
        id: CommandId,
        fingerprint: CommandRequestFingerprint,
    ) -> (r: CommandLedgerLookup)
        ensures
            r == self@.lookup(source.0, id.0, fingerprint),
    {
        if self.is_retired(source, id) {
            return CommandLedgerLookup::Retired;
        }
        match self.get(source, id) {
            None => CommandLedgerLookup::Absent,
            Some(entry) => match entry {
                CommandLedgerEntry::Exact { fingerprint: retained, original_attempt, outcome } => {
                    if *retained == fingerprint {
                        CommandLedgerLookup::RetainedExact {
                            original_attempt: *original_attempt,
                            outcome: *outcome,
                        }
                    } else {
                        CommandLedgerLookup::IdReuseMismatch { original_attempt: *original_attempt }
                    }
                },
                CommandLedgerEntry::Collision { original_attempt, .. } => {
                    CommandLedgerLookup::RetainedCollision { original_attempt: *original_attempt }
                },
            },
        }
    }

    /// Retains the first exact result of `(source, id)`; never overwrites.
    pub fn insert_exact(
        &mut self,
        source: CommandSource,
        id: CommandId,
        fingerprint: CommandRequestFingerprint,
        attempt: AttemptRecordId,
        outcome: CommandAttemptOutcome,
    ) -> (r: Result<(), CommandLedgerInsertError>)
        requires
            old(self)@.wf(),
        ensures
            final(self)@.wf(),
            r == (if outcome == CommandAttemptOutcome::Rejected(StableCommandRejection::IdCollision) {
                Err(CommandLedgerInsertError::ExactCannotRepresentCollision { source, id })
            } else if !old(self)@.is_vacant(source.0, id.0) {
                Err(CommandLedgerInsertError::NotAbsent { source, id })
            } else {
                Ok::<(), CommandLedgerInsertError>(())
            }),
            r is Ok ==> final(self)@ == (CommandLedgerView {
                retired_through: old(self)@.retired_through,
                entries: old(self)@.entries.insert(
                    (source.0, id.0),
                    CommandLedgerEntry::Exact { fingerprint, original_attempt: attempt, outcome },
                ),
            }),
            r is Err ==> final(self)@ == old(self)@,
    {
        if outcome == CommandAttemptOutcome::Rejected(StableCommandRejection::IdCollision) {
            return Err(CommandLedgerInsertError::ExactCannotRepresentCollision { source, id });
        }
        if self.is_retired(source, id) {
            return Err(CommandLedgerInsertError::NotAbsent { source, id });
        }
        if self.entries.contains_key(&(source.get(), id.get())) {
            return Err(CommandLedgerInsertError::NotAbsent { source, id });
        }
        self.entries.insert(
            (source.get(), id.get()),
            CommandLedgerEntry::Exact { fingerprint, original_attempt: attempt, outcome },
        );
        Ok(())
    }

    /// Retains a permanent ID collision over the canonical distinct fingerprints.
    pub fn insert_collision(
        &mut self,
        source: CommandSource,
        id: CommandId,
        fingerprints: &[CommandRequestFingerprint],
        original_attempt: AttemptRecordId,
    ) -> (r: Result<(), CommandLedgerInsertError>)
        requires
            old(self)@.wf(),
        ensures
            final(self)@.wf(),
            r == (if fingerprints@.to_set().len() < 2 {
                Err(
                    CommandLedgerInsertError::CollisionRequiresDistinctFingerprints {
                        source,
                        id,
                        distinct_count: fingerprints@.to_set().len() as usize,
                    },
                )
            } else if !old(self)@.is_vacant(source.0, id.0) {
                Err(CommandLedgerInsertError::NotAbsent { source, id })
            } else {
                Ok::<(), CommandLedgerInsertError>(())
            }),
            r is Ok ==> {
                &&& final(self)@.retired_through == old(self)@.retired_through
                &&& final(self)@.entries.contains_key((source.0, id.0))
                &&& final(self)@.entries.remove((source.0, id.0)) == old(self)@.entries
                &&& match final(self)@.entries[(source.0, id.0)] {
                    CommandLedgerEntry::Collision { fingerprints: retained, original_attempt: attempt } =>
                        attempt == original_attempt && is_canonical_fingerprints(
                        retained@,
                        fingerprints@.to_set(),
                    ),
                    CommandLedgerEntry::Exact { .. } => false,
                }
            },
            r is Err ==> final(self)@ == old(self)@,
    {
        let canonical = canonical_fingerprints(fingerprints);
        if canonical.len() < 2 {
            return Err(
                CommandLedgerInsertError::CollisionRequiresDistinctFingerprints {
                    source,
                    id,
                    distinct_count: canonical.len(),
                },
            );
        }
        if self.is_retired(source, id) {
            return Err(CommandLedgerInsertError::NotAbsent { source, id });
        }
        if self.entries.contains_key(&(source.get(), id.get())) {
            return Err(CommandLedgerInsertError::NotAbsent { source, id });
        }
        let ghost before = self.entries@;
        self.entries.insert(
            (source.get(), id.get()),
            CommandLedgerEntry::Collision { fingerprints: canonical, original_attempt },
        );
        proof {
            assert(self.entries@.remove((source.0, id.0)) =~= before);
            assert forall|key: (u64, u64)| #[trigger] self@.entries.contains_key(key) implies !self@.is_retired(
                key.0,
                key.1,
            ) by {
                if key != (source.0, id.0) {
                    assert(old(self)@.entries.contains_key(key));
                    assert(!old(self)@.is_retired(key.0, key.1));
                } else {
                    assert(!old(self)@.is_retired(source.0, id.0));
                }
            }
        }
        Ok(())
    }

    /// Permanently retires the complete prefix of `source` through `target`.
    pub fn retire_through(&mut self, source: CommandSource, target: CommandId) -> (r: Result<
        (),
        LedgerRetirementError,
    >)
        requires
            old(self)@.wf(),
        ensures
            final(self)@.wf(),
            r == old(self)@.retirement(source.0, target.0),
            r is Ok ==> final(self)@ == old(self)@.retired(source.0, target.0),
            r is Err ==> final(self)@ == old(self)@,
    {
        if let Err(error) = self.can_retire_through(source, target) {
            return Err(error);
        }
        let current = match self.retired_through.get(&source.get()) {
            Some(frontier) => Some(*frontier),
            None => None,
        };
        let start = match retirement_start(current, target.get()) {
            Ok(start) => start,
            Err(error) => return Err(error),
        };
        let ghost before = self@;
        remove_source_range(&mut self.entries, source.get(), start, target.get());
        self.retired_through.insert(source.get(), target.get());
        proof {
            let after = before.retired(source.0, target.0);
            assert forall|key: (u64, u64)| self.entries@.contains_key(key) <==> after.entries.contains_key(key) by {
                if key.0 == source.0 && key.1 <= target.0 && before.entries.contains_key(key) {
                    assert(!before.is_retired(key.0, key.1));
                }
            }
            assert(self.entries@ =~= after.entries);
            assert(self@.retired_through =~= after.retired_through);
        }
        Ok(())
    }

    /// Checks that `source` can retire the complete prefix through `target`.
    pub fn can_retire_through(&self, source: CommandSource, target: CommandId) -> (r: Result<
        (),
        LedgerRetirementError,
    >)
        ensures
            r == self@.retirement(source.0, target.0),
    {
        let current = match self.retired_through.get(&source.get()) {
            Some(frontier) => Some(*frontier),
            None => None,
        };
        match retirement_start(current, target.get()) {
            Err(error) => Err(error),
            Ok(start) => check_source_range(&self.entries, source.get(), start, target.get()),
        }
    }

    /// Retained entries in increasing `(source, sequence)` order.
    pub fn iter(&self) -> (r: Vec<((CommandSource, CommandId), &CommandLedgerEntry)>)
        ensures
            forall|i: int| 0 <= i < r@.len() ==> self@.entries.contains_key(
                (#[trigger] r@[i].0.0.0, r@[i].0.1.0),
            ) && *r@[i].1 == self@.entries[(r@[i].0.0.0, r@[i].0.1.0)],
            forall|key: (u64, u64)| #[trigger] self@.entries.contains_key(key) ==> exists|i: int|
                0 <= i < r@.len() && r@[i].0.0.0 == key.0 && r@[i].0.1.0 == key.1,
            forall|i: int, j: int| 0 <= i < j < r@.len() ==> key_lt(
                (r@[i].0.0.0, r@[i].0.1.0),
                (r@[j].0.0.0, r@[j].0.1.0),
            ),
    {
        let keys = ordered_pair_keys(&self.entries);
        let mut out: Vec<((CommandSource, CommandId), &CommandLedgerEntry)> = Vec::new();
        let mut i: usize = 0;
        while i < keys.len()
            invariant
                i <= keys@.len(),
                out@.len() == i,
                keys@.to_set() == self.entries@.dom(),
                forall|j: int| 0 <= j < i ==> (out@[j].0.0.0, out@[j].0.1.0) == keys@[j]
                    && self.entries@.contains_key(keys@[j]) && *out@[j].1 == self.entries@[keys@[j]],
            decreases keys@.len() - i,
        {
            let key = keys[i];
            assert(keys@.to_set().contains(keys@[i as int]));
            let entry = self.entries.get(&key).unwrap();
            out.push(((CommandSource::new(key.0), CommandId::new(key.1)), entry));
            i = i + 1;
        }
        proof {
            assert forall|i: int, j: int| 0 <= i < j < out@.len() implies key_lt(
                (out@[i].0.0.0, out@[i].0.1.0),
                (out@[j].0.0.0, out@[j].0.1.0),
            ) by {
                assert((out@[i].0.0.0, out@[i].0.1.0) == keys@[i]);
                assert((out@[j].0.0.0, out@[j].0.1.0) == keys@[j]);
            }
            assert forall|key: (u64, u64)| #[trigger] self@.entries.contains_key(key) implies exists|i: int|
                0 <= i < out@.len() && out@[i].0.0.0 == key.0 && out@[i].0.1.0 == key.1 by {
                assert(keys@.to_set().contains(key));
                let i = choose|i: int| 0 <= i < keys@.len() && keys@[i] == key;
                assert((out@[i].0.0.0, out@[i].0.1.0) == keys@[i]);
            }
            assert forall|i: int| 0 <= i < out@.len() implies self@.entries.contains_key(
                (#[trigger] out@[i].0.0.0, out@[i].0.1.0),
            ) && *out@[i].1 == self@.entries[(out@[i].0.0.0, out@[i].0.1.0)] by {
                assert((out@[i].0.0.0, out@[i].0.1.0) == keys@[i]);
            }
        }
        out
    }

    fn is_retired(&self, source: CommandSource, id: CommandId) -> (r: bool)
        ensures
            r == self@.is_retired(source.0, id.0),
    {
        match self.retired_through.get(&source.get()) {
            Some(frontier) => id.get() <= *frontier,
            None => false,
        }
    }
}

/// Reading the command ledger after publishing a command's result: before,
/// a vacant `(source, id)` classifies as absent; after an exact result, the
/// same content replays that attempt and outcome and any other content is an
/// ID reuse naming that attempt; after a collision, every content classifies
/// as the retained collision of its attempt; every other key classifies as
/// before either way.
pub proof fn lemma_command_ledger_read_after_write(
    ledger: CommandLedgerView,
    source: u64,
    id: u64,
    fingerprint: CommandRequestFingerprint,
    other: CommandRequestFingerprint,
    attempt: AttemptRecordId,
    outcome: CommandAttemptOutcome,
    collision: Vec<CommandRequestFingerprint>,
    probe_source: u64,
    probe_id: u64,
)
    requires
        ledger.is_vacant(source, id),
    ensures
        ledger.lookup(source, id, fingerprint) == CommandLedgerLookup::Absent,
        ({
            let after = CommandLedgerView {
                retired_through: ledger.retired_through,
                entries: ledger.entries.insert(
                    (source, id),
                    CommandLedgerEntry::Exact { fingerprint, original_attempt: attempt, outcome },
                ),
            };
            &&& after.lookup(source, id, fingerprint) == (CommandLedgerLookup::RetainedExact {
                original_attempt: attempt,
                outcome,
            })
            &&& other != fingerprint ==> after.lookup(source, id, other) == (CommandLedgerLookup::IdReuseMismatch {
                original_attempt: attempt,
            })
            &&& (probe_source, probe_id) != (source, id) ==> after.lookup(probe_source, probe_id, other)
                == ledger.lookup(probe_source, probe_id, other)
        }),
        ({
            let after = CommandLedgerView {
                retired_through: ledger.retired_through,
                entries: ledger.entries.insert(
                    (source, id),
                    CommandLedgerEntry::Collision { fingerprints: collision, original_attempt: attempt },
                ),
            };
            &&& after.lookup(source, id, other) == (CommandLedgerLookup::RetainedCollision {
                original_attempt: attempt,
            })
            &&& (probe_source, probe_id) != (source, id) ==> after.lookup(probe_source, probe_id, other)
                == ledger.lookup(probe_source, probe_id, other)
        }),
{
}

/// Retiring one source of the command ledger is permanent for that source
/// and leaves the others alone: every ID of `source` through `target`
/// classifies as retired whatever its content, later IDs of `source` and
/// every ID of another source classify as before.
pub proof fn lemma_command_retirement_is_per_source(
    ledger: CommandLedgerView,
    source: u64,
    target: u64,
    probe_source: u64,
    probe_id: u64,
    fingerprint: CommandRequestFingerprint,
)
    requires
        ledger.wf(),
        ledger.retirement(source, target) is Ok,
    ensures
        probe_source == source && probe_id <= target ==> ledger.retired(source, target).lookup(
            probe_source,
            probe_id,
            fingerprint,
        ) == CommandLedgerLookup::Retired,
        probe_source != source || probe_id > target ==> ledger.retired(source, target).lookup(
            probe_source,
            probe_id,
            fingerprint,
        ) == ledger.lookup(probe_source, probe_id, fingerprint),
{
    if probe_source == source && probe_id > target && ledger.is_retired(source, probe_id) {
        assert(ledger.frontier(source) == Some(ledger.retired_through[source]));
        assert(ledger.retired_through[source] < target);
    }
}

} // verus!
