//! The two singular host-request ledgers: retained input outcomes and
//! retained session-management outcomes, each with a permanent non-reuse
//! frontier.

use std::collections::BTreeMap;
use vstd::prelude::*;
use vstd::set_lib::lemma_set_empty_equivalency_len;
use vstd::std_specs::btree::increasing_seq;
use vstd::std_specs::iter::IteratorSpec;
use vstd::std_specs::cmp::OrdSpec;

use crate::control::retirement::{
    check_complete_range, complete_range, first_missing, frontier_covers, is_first_missing,
    lemma_first_missing_exists, remove_range, retained_after, retirement_start, spec_prefix_retirement,
    spec_retirement_start, LedgerRetirementError,
};
use crate::ids::{
    CapturedInputRecordId, CommandTriggerId, InputId, InputRequestFingerprint,
    ManagementRequestFingerprint, ManagementRequestId,
};
use crate::kernel::{AdmitOutcome, ManageOutcome};

verus! {

/// Classification shared by the two singular host-request ledgers.
#[derive(Clone, Copy, Debug, PartialEq, Eq)]
pub enum RequestLedgerLookup<T> {
    Absent,
    Retired,
    RetainedExact(T),
    IdReuseMismatch,
}

/// Retained result of one published input request.
#[derive(Clone, Copy, Debug, PartialEq, Eq, Structural)]
pub struct InputLedgerEntry {
    pub fingerprint: InputRequestFingerprint,
    pub captured: CapturedInputRecordId,
    pub trigger: CommandTriggerId,
    pub outcome: AdmitOutcome,
}

impl InputLedgerEntry {
    /// Digest of the request this entry answered.
    pub fn fingerprint(self) -> (r: InputRequestFingerprint)
        ensures
            r == self.fingerprint,
    {
        self.fingerprint
    }

    /// Captured-input record that published the request.
    pub fn captured(self) -> (r: CapturedInputRecordId)
        ensures
            r == self.captured,
    {
        self.captured
    }

    /// Scheduler trigger that carries the admitted command.
    pub fn trigger(self) -> (r: CommandTriggerId)
        ensures
            r == self.trigger,
    {
        self.trigger
    }

    /// Retained admission outcome.
    pub fn outcome(self) -> (r: AdmitOutcome)
        ensures
            r == self.outcome,
    {
        self.outcome
    }
}

/// Retained result of one published session-management request.
#[derive(Clone, Copy, Debug, PartialEq, Eq, Structural)]
pub struct ManagementLedgerEntry {
    pub fingerprint: ManagementRequestFingerprint,
    pub outcome: ManageOutcome,
}

impl ManagementLedgerEntry {
    /// Digest of the request this entry answered.
    pub fn fingerprint(self) -> (r: ManagementRequestFingerprint)
        ensures
            r == self.fingerprint,
    {
        self.fingerprint
    }

    /// Retained management outcome.
    pub fn outcome(self) -> (r: ManageOutcome)
        ensures
            r == self.outcome,
    {
        self.outcome
    }
}

/// Insertion of an input ID that is already retained or permanently retired.
#[derive(Clone, Copy, Debug, PartialEq, Eq, Structural)]
pub struct InputLedgerInsertError {
    pub id: InputId,
}

impl InputLedgerInsertError {
    /// The conflicting input ID.
    pub fn id(self) -> (r: InputId)
        ensures
            r == self.id,
    {
        self.id
    }
}

/// Insertion of a management ID that is already retained or permanently retired.
#[derive(Clone, Copy, Debug, PartialEq, Eq, Structural)]
pub struct ManagementLedgerInsertError {
    pub id: ManagementRequestId,
}

impl ManagementLedgerInsertError {
    /// The conflicting management ID.
    pub fn id(self) -> (r: ManagementRequestId)
        ensures
            r == self.id,
    {
        self.id
    }
}

/// Abstract state of a singular request ledger: its frontier and its
/// retained entries keyed by sequence number.
pub struct RequestLedgerView<E> {
    pub retired_through: Option<u64>,
    pub entries: Map<u64, E>,
}

impl<E> RequestLedgerView<E> {
    /// No retained entry lies at or below the frontier.
    pub open spec fn wf(self) -> bool {
        forall|k: u64| #[trigger]
            self.entries.contains_key(k) ==> !frontier_covers(self.retired_through, k)
    }

    /// `id` is permanently retired.
    pub open spec fn is_retired(self, id: u64) -> bool {
        frontier_covers(self.retired_through, id)
    }

    /// `id` can be inserted: it is neither retired nor retained.
    pub open spec fn is_vacant(self, id: u64) -> bool {
        !self.is_retired(id) && !self.entries.contains_key(id)
    }

    /// Answer of a retirement through `target`.
    pub open spec fn retirement(self, target: u64) -> Result<(), LedgerRetirementError> {
        spec_prefix_retirement(self.retired_through, self.entries.dom(), target)
    }

    /// State after a successful retirement through `target`.
    pub open spec fn retired(self, target: u64) -> Self {
        RequestLedgerView { retired_through: Some(target), entries: retained_after(self.entries, target) }
    }
}

/// Exact classification of an input request against the ledger.
pub open spec fn input_lookup(
    ledger: RequestLedgerView<InputLedgerEntry>,
    id: u64,
    fingerprint: InputRequestFingerprint,
) -> RequestLedgerLookup<AdmitOutcome> {
    if ledger.is_retired(id) {
        RequestLedgerLookup::Retired
    } else if !ledger.entries.contains_key(id) {
        RequestLedgerLookup::Absent
    } else if ledger.entries[id].fingerprint == fingerprint {
        RequestLedgerLookup::RetainedExact(ledger.entries[id].outcome)
    } else {
        RequestLedgerLookup::IdReuseMismatch
    }
}

/// Exact classification of a management request against the ledger.
pub open spec fn management_lookup(
    ledger: RequestLedgerView<ManagementLedgerEntry>,
    id: u64,
    fingerprint: ManagementRequestFingerprint,
) -> RequestLedgerLookup<ManageOutcome> {
    if ledger.is_retired(id) {
        RequestLedgerLookup::Retired
    } else if !ledger.entries.contains_key(id) {
        RequestLedgerLookup::Absent
    } else if ledger.entries[id].fingerprint == fingerprint {
        RequestLedgerLookup::RetainedExact(ledger.entries[id].outcome)
    } else {
        RequestLedgerLookup::IdReuseMismatch
    }
}

/// Lists the keys of a map in increasing order.
pub fn ordered_keys<E>(entries: &BTreeMap<u64, E>) -> (r: Vec<u64>)
    ensures
        r@.to_set() == entries@.dom(),
        r@.len() == entries@.dom().len(),
        forall|i: int, j: int| 0 <= i < j < r@.len() ==> r@[i] < r@[j],
{
    let mut out: Vec<u64> = Vec::new();
    let iter = entries.iter();
    let ghost s = iter.remaining();
    let ghost m = entries@;
    for (key, _value) in it: iter
        invariant
            it.seq() == s,
            out@.len() == it.index(),
            forall|i: int| 0 <= i < out@.len() ==> out@[i] == *s[i].0,
    {
        out.push(*key);
    }
    proof {
        let keys = s.map_values(|kv: (&u64, &E)| *kv.0);
        assert(increasing_seq(keys));
        assert forall|k: u64| m.contains_key(k) implies out@.contains(k) by {
            assert(s.contains((&k, &m[k])));
            let i = choose|i: int| 0 <= i < s.len() && s[i] == (&k, &m[k]);
            assert(out@[i] == k);
        }
        assert forall|i: int| 0 <= i < out@.len() implies m.contains_key(#[trigger] out@[i]) by {
            assert(m.contains_key(*s[i].0));
        }
        assert forall|i: int, j: int| 0 <= i < j < out@.len() implies out@[i] < out@[j] by {
            assert(keys[i] == out@[i]);
            assert(keys[j] == out@[j]);
            assert(keys[i].cmp_spec(&keys[j]) is Less);
        }
        assert(out@.to_set() =~= m.dom());
        assert(out@.no_duplicates()) by {
            assert forall|i: int, j: int| 0 <= i < out@.len() && 0 <= j < out@.len() && i != j
                implies out@[i] != out@[j] by {
                if i < j {
                    assert(out@[i] < out@[j]);
                } else {
                    assert(out@[j] < out@[i]);
                }
            }
        }
        out@.unique_seq_to_set();
    }
    out
}

/// Retained input outcomes plus a permanent non-reuse frontier.
#[derive(Clone, Debug)]
pub struct InputRequestLedger {
    retired_through: Option<u64>,
    entries: BTreeMap<u64, InputLedgerEntry>,
}

impl View for InputRequestLedger {
    type V = RequestLedgerView<InputLedgerEntry>;

    closed spec fn view(&self) -> RequestLedgerView<InputLedgerEntry> {
        RequestLedgerView { retired_through: self.retired_through, entries: self.entries@ }
    }
}

impl Default for InputRequestLedger {
    fn default() -> (r: Self)
        ensures
            r@.retired_through is None,
            r@.entries == Map::<u64, InputLedgerEntry>::empty(),
            r@.wf(),
    {
        InputRequestLedger { retired_through: None, entries: BTreeMap::new() }
    }
}

impl InputRequestLedger {
    /// No entry is retained.
    pub fn is_empty(&self) -> (r: bool)
        ensures
            r == (self@.entries == Map::<u64, InputLedgerEntry>::empty()),
    {
        proof {
            lemma_set_empty_equivalency_len(self@.entries.dom());
        }
        let r = self.entries.len() == 0;
        proof {
            if r {
                assert(self@.entries =~= Map::<u64, InputLedgerEntry>::empty());
            }
        }
        r
    }

    /// The permanent non-reuse frontier, if any prefix has retired.
    pub fn retired_through(&self) -> (r: Option<InputId>)
        ensures
            r == (match self@.retired_through {
                Some(f) => Some(InputId(f)),
                None => None::<InputId>,
            }),
    {
        match self.retired_through {
            Some(frontier) => Some(InputId::new(frontier)),
            None => None,
        }
    }

    /// The retained entry for `id`, if any.
    pub fn get(&self, id: InputId) -> (r: Option<InputLedgerEntry>)
        ensures
            r == (if self@.entries.contains_key(id.0) {
                Some(self@.entries[id.0])
            } else {
                None::<InputLedgerEntry>
            }),
    {
        match self.entries.get(&id.get()) {
            Some(entry) => Some(*entry),
            None => None,
        }
    }

    /// Classifies a request as absent, retired, an exact replay or an ID reuse.
    pub fn classify(&self, id: InputId, fingerprint: InputRequestFingerprint) -> (r:
        RequestLedgerLookup<AdmitOutcome>)
        ensures
            r == input_lookup(self@, id.0, fingerprint),
    {
        if self.is_retired(id) {
            return RequestLedgerLookup::Retired;
        }
        match self.get(id) {
            None => RequestLedgerLookup::Absent,
            Some(entry) => if entry.fingerprint() == fingerprint {
                RequestLedgerLookup::RetainedExact(entry.outcome())
            } else {
                RequestLedgerLookup::IdReuseMismatch
            },
        }
    }

    /// Retains the first publication of `id`; never overwrites and never
    /// reuses a retired ID.
    pub fn insert_exact(
        &mut self,
        id: InputId,
        fingerprint: InputRequestFingerprint,
        captured: CapturedInputRecordId,
        trigger: CommandTriggerId,
        outcome: AdmitOutcome,
    ) -> (r: Result<(), InputLedgerInsertError>)
        requires
            old(self)@.wf(),
        ensures
            final(self)@.wf(),
            r == (if old(self)@.is_vacant(id.0) {
                Ok::<(), InputLedgerInsertError>(())
            } else {
                Err(InputLedgerInsertError { id })
            }),
            r is Ok ==> final(self)@ == (RequestLedgerView {
                retired_through: old(self)@.retired_through,
                entries: old(self)@.entries.insert(
                    id.0,
                    InputLedgerEntry { fingerprint, captured, trigger, outcome },
                ),
            }),
            r is Err ==> final(self)@ == old(self)@,
    {
        if self.is_retired(id) {
            return Err(InputLedgerInsertError { id });
        }
        if self.entries.contains_key(&id.get()) {
            return Err(InputLedgerInsertError { id });
        }
        self.entries.insert(id.get(), InputLedgerEntry { fingerprint, captured, trigger, outcome });
        Ok(())
    }

    /// Checks that every sequence number from the frontier through `target`
    /// is retained.
    pub fn can_retire_through(&self, target: InputId) -> (r: Result<(), LedgerRetirementError>)
        ensures
            r == self@.retirement(target.0),
    {
        match retirement_start(self.retired_through, target.get()) {
            Err(error) => Err(error),
            Ok(start) => check_complete_range(&self.entries, start, target.get()),
        }
    }

    /// Permanently retires the complete prefix through `target` and drops its payloads.
    pub fn retire_through(&mut self, target: InputId) -> (r: Result<(), LedgerRetirementError>)
        requires
            old(self)@.wf(),
        ensures
            final(self)@.wf(),
            r == old(self)@.retirement(target.0),
            r is Ok ==> final(self)@ == old(self)@.retired(target.0),
            r is Err ==> final(self)@ == old(self)@,
    {
        if let Err(error) = self.can_retire_through(target) {
            return Err(error);
        }
        let start = match retirement_start(self.retired_through, target.get()) {
            Ok(start) => start,
            Err(error) => return Err(error),
        };
        let ghost before = self.entries@;
        remove_range(&mut self.entries, start, target.get());
        self.retired_through = Some(target.get());
        proof {
            assert(self.entries@ =~= retained_after(before, target.0));
        }
        Ok(())
    }

    /// Whether `id` lies at or below the permanent retirement frontier.
    pub fn is_retired(&self, id: InputId) -> (r: bool)
        ensures
            r == self@.is_retired(id.0),
    {
        match self.retired_through {
            Some(frontier) => id.get() <= frontier,
            None => false,
        }
    }

    /// Retained entries in increasing ID order.
    pub fn iter(&self) -> (r: Vec<(InputId, InputLedgerEntry)>)
        ensures
            r@.len() == self@.entries.dom().len(),
            forall|i: int| 0 <= i < r@.len() ==> #[trigger] self@.entries.contains_key(r@[i].0.0)
                && self@.entries[r@[i].0.0] == r@[i].1,
            forall|k: u64| #[trigger] self@.entries.contains_key(k) ==> exists|i: int|
                0 <= i < r@.len() && r@[i].0.0 == k,
            forall|i: int, j: int| 0 <= i < j < r@.len() ==> r@[i].0.0 < r@[j].0.0,
    {
        let keys = ordered_keys(&self.entries);
        let mut out: Vec<(InputId, InputLedgerEntry)> = Vec::new();
        let mut i: usize = 0;
        while i < keys.len()
            invariant
                i <= keys@.len(),
                out@.len() == i,
                keys@.to_set() == self.entries@.dom(),
                forall|j: int| 0 <= j < i ==> out@[j].0.0 == keys@[j] && self.entries@.contains_key(
                    keys@[j],
                ) && self.entries@[keys@[j]] == out@[j].1,
            decreases keys@.len() - i,
        {
            let key = keys[i];
            assert(keys@.to_set().contains(keys@[i as int]));
            let entry = match self.entries.get(&key) {
                Some(entry) => *entry,
                None => {
                    assert(false);
                    return out;
                },
            };
            out.push((InputId::new(key), entry));
            i = i + 1;
        }
        proof {
            assert forall|i: int| 0 <= i < out@.len() implies #[trigger] self@.entries.contains_key(
                out@[i].0.0,
            ) && self@.entries[out@[i].0.0] == out@[i].1 by {
                assert(out@[i].0.0 == keys@[i]);
            }
            assert forall|i: int, j: int| 0 <= i < j < out@.len() implies out@[i].0.0
                < out@[j].0.0 by {
                assert(out@[i].0.0 == keys@[i]);
                assert(out@[j].0.0 == keys@[j]);
            }
            assert forall|k: u64| #[trigger] self@.entries.contains_key(k) implies exists|i: int|
                0 <= i < out@.len() && out@[i].0.0 == k by {
                assert(keys@.to_set().contains(k));
                let i = choose|i: int| 0 <= i < keys@.len() && keys@[i] == k;
                assert(out@[i].0.0 == k);
            }
        }
        out
    }
}

/// Retained management outcomes plus a permanent non-reuse frontier.
#[derive(Clone, Debug)]
pub struct ManagementRequestLedger {
    retired_through: Option<u64>,
    entries: BTreeMap<u64, ManagementLedgerEntry>,
}

impl View for ManagementRequestLedger {
    type V = RequestLedgerView<ManagementLedgerEntry>;

    closed spec fn view(&self) -> RequestLedgerView<ManagementLedgerEntry> {
        RequestLedgerView { retired_through: self.retired_through, entries: self.entries@ }
    }
}

impl Default for ManagementRequestLedger {
    fn default() -> (r: Self)
        ensures
            r@.retired_through is None,
            r@.entries == Map::<u64, ManagementLedgerEntry>::empty(),
            r@.wf(),
    {
        ManagementRequestLedger { retired_through: None, entries: BTreeMap::new() }
    }
}

impl ManagementRequestLedger {
    /// No entry is retained.
    pub fn is_empty(&self) -> (r: bool)
        ensures
            r == (self@.entries == Map::<u64, ManagementLedgerEntry>::empty()),
    {
        proof {
            lemma_set_empty_equivalency_len(self@.entries.dom());
        }
        let r = self.entries.len() == 0;
        proof {
            if r {
                assert(self@.entries =~= Map::<u64, ManagementLedgerEntry>::empty());
            }
        }
        r
    }

    /// The permanent non-reuse frontier, if any prefix has retired.
    pub fn retired_through(&self) -> (r: Option<ManagementRequestId>)
        ensures
            r == (match self@.retired_through {
                Some(f) => Some(ManagementRequestId(f)),
                None => None::<ManagementRequestId>,
            }),
    {
        match self.retired_through {
            Some(frontier) => Some(ManagementRequestId::new(frontier)),
            None => None,
        }
    }

    /// The retained entry for `id`, if any.
    pub fn get(&self, id: ManagementRequestId) -> (r: Option<ManagementLedgerEntry>)
        ensures
            r == (if self@.entries.contains_key(id.0) {
                Some(self@.entries[id.0])
            } else {
                None::<ManagementLedgerEntry>
            }),
    {
        match self.entries.get(&id.get()) {
            Some(entry) => Some(*entry),
            None => None,
        }
    }

    /// Classifies a request as absent, retired, an exact replay or an ID reuse.
    pub fn classify(&self, id: ManagementRequestId, fingerprint: ManagementRequestFingerprint) -> (r:
        RequestLedgerLookup<ManageOutcome>)
        ensures
            r == management_lookup(self@, id.0, fingerprint),
    {
        if self.is_retired(id) {
            return RequestLedgerLookup::Retired;
        }
        match self.get(id) {
            None => RequestLedgerLookup::Absent,
            Some(entry) => if entry.fingerprint() == fingerprint {
                RequestLedgerLookup::RetainedExact(entry.outcome())
            } else {
                RequestLedgerLookup::IdReuseMismatch
            },
        }
    }

    /// Retains the first publication of `id`; never overwrites and never
    /// reuses a retired ID.
    pub fn insert_exact(
        &mut self,
        id: ManagementRequestId,
        fingerprint: ManagementRequestFingerprint,
        outcome: ManageOutcome,
    ) -> (r: Result<(), ManagementLedgerInsertError>)
        requires
            old(self)@.wf(),
        ensures
            final(self)@.wf(),
            r == (if old(self)@.is_vacant(id.0) {
                Ok::<(), ManagementLedgerInsertError>(())
            } else {
                Err(ManagementLedgerInsertError { id })
            }),
            r is Ok ==> final(self)@ == (RequestLedgerView {
                retired_through: old(self)@.retired_through,
                entries: old(self)@.entries.insert(
                    id.0,
                    ManagementLedgerEntry { fingerprint, outcome },
                ),
            }),
            r is Err ==> final(self)@ == old(self)@,
    {
        if self.is_retired(id) {
            return Err(ManagementLedgerInsertError { id });
        }
        if self.entries.contains_key(&id.get()) {
            return Err(ManagementLedgerInsertError { id });
        }
        self.entries.insert(id.get(), ManagementLedgerEntry { fingerprint, outcome });
        Ok(())
    }

    /// Checks that every sequence number from the frontier through `target`
    /// is retained.
    pub fn can_retire_through(&self, target: ManagementRequestId) -> (r: Result<(), LedgerRetirementError>)
        ensures
            r == self@.retirement(target.0),
    {
        match retirement_start(self.retired_through, target.get()) {
            Err(error) => Err(error),
            Ok(start) => check_complete_range(&self.entries, start, target.get()),
        }
    }

    /// Permanently retires the complete prefix through `target` and drops its payloads.
    pub fn retire_through(&mut self, target: ManagementRequestId) -> (r: Result<(), LedgerRetirementError>)
        requires
            old(self)@.wf(),
        ensures
            final(self)@.wf(),
            r == old(self)@.retirement(target.0),
            r is Ok ==> final(self)@ == old(self)@.retired(target.0),
            r is Err ==> final(self)@ == old(self)@,
    {
        if let Err(error) = self.can_retire_through(target) {
            return Err(error);
        }
        let start = match retirement_start(self.retired_through, target.get()) {
            Ok(start) => start,
            Err(error) => return Err(error),
        };
        let ghost before = self.entries@;
        remove_range(&mut self.entries, start, target.get());
        self.retired_through = Some(target.get());
        proof {
            assert(self.entries@ =~= retained_after(before, target.0));
        }
        Ok(())
    }

    /// Whether `id` lies at or below the permanent retirement frontier.
    pub fn is_retired(&self, id: ManagementRequestId) -> (r: bool)
        ensures
            r == self@.is_retired(id.0),
    {
        match self.retired_through {
            Some(frontier) => id.get() <= frontier,
            None => false,
        }
    }

    /// Retained entries in increasing ID order.
    pub fn iter(&self) -> (r: Vec<(ManagementRequestId, ManagementLedgerEntry)>)
        ensures
            r@.len() == self@.entries.dom().len(),
            forall|i: int| 0 <= i < r@.len() ==> #[trigger] self@.entries.contains_key(r@[i].0.0)
                && self@.entries[r@[i].0.0] == r@[i].1,
            forall|k: u64| #[trigger] self@.entries.contains_key(k) ==> exists|i: int|
                0 <= i < r@.len() && r@[i].0.0 == k,
            forall|i: int, j: int| 0 <= i < j < r@.len() ==> r@[i].0.0 < r@[j].0.0,
    {
        let keys = ordered_keys(&self.entries);
        let mut out: Vec<(ManagementRequestId, ManagementLedgerEntry)> = Vec::new();
        let mut i: usize = 0;
        while i < keys.len()
            invariant
                i <= keys@.len(),
                out@.len() == i,
                keys@.to_set() == self.entries@.dom(),
                forall|j: int| 0 <= j < i ==> out@[j].0.0 == keys@[j] && self.entries@.contains_key(
                    keys@[j],
                ) && self.entries@[keys@[j]] == out@[j].1,
            decreases keys@.len() - i,
        {
            let key = keys[i];
            assert(keys@.to_set().contains(keys@[i as int]));
            let entry = match self.entries.get(&key) {
                Some(entry) => *entry,
                None => {
                    assert(false);
                    return out;
                },
            };
            out.push((ManagementRequestId::new(key), entry));
            i = i + 1;
        }
        proof {
            assert forall|i: int| 0 <= i < out@.len() implies #[trigger] self@.entries.contains_key(
                out@[i].0.0,
            ) && self@.entries[out@[i].0.0] == out@[i].1 by {
                assert(out@[i].0.0 == keys@[i]);
            }
            assert forall|i: int, j: int| 0 <= i < j < out@.len() implies out@[i].0.0
                < out@[j].0.0 by {
                assert(out@[i].0.0 == keys@[i]);
                assert(out@[j].0.0 == keys@[j]);
            }
            assert forall|k: u64| #[trigger] self@.entries.contains_key(k) implies exists|i: int|
                0 <= i < out@.len() && out@[i].0.0 == k by {
                assert(keys@.to_set().contains(k));
                let i = choose|i: int| 0 <= i < keys@.len() && keys@[i] == k;
                assert(out@[i].0.0 == k);
            }
        }
        out
    }
}

/// Reading a request ledger after publishing a request: before, a vacant ID
/// classifies as absent; after, the same content classifies as an exact
/// replay of the published outcome, any other content as an ID reuse, and
/// every other ID classifies as before.
pub proof fn lemma_input_ledger_read_after_write(
    ledger: RequestLedgerView<InputLedgerEntry>,
    id: u64,
    entry: InputLedgerEntry,
    other: InputRequestFingerprint,
    probe: u64,
)
    requires
        ledger.is_vacant(id),
    ensures
        input_lookup(ledger, id, entry.fingerprint) == RequestLedgerLookup::<AdmitOutcome>::Absent,
        ({
            let after = RequestLedgerView {
                retired_through: ledger.retired_through,
                entries: ledger.entries.insert(id, entry),
            };
            &&& input_lookup(after, id, entry.fingerprint) == RequestLedgerLookup::RetainedExact(entry.outcome)
            &&& other != entry.fingerprint ==> input_lookup(after, id, other)
                == RequestLedgerLookup::<AdmitOutcome>::IdReuseMismatch
            &&& probe != id ==> input_lookup(after, probe, other) == input_lookup(ledger, probe, other)
        }),
{
}

/// The same law for the management request ledger.
pub proof fn lemma_management_ledger_read_after_write(
    ledger: RequestLedgerView<ManagementLedgerEntry>,
    id: u64,
    entry: ManagementLedgerEntry,
    other: ManagementRequestFingerprint,
    probe: u64,
)
    requires
        ledger.is_vacant(id),
    ensures
        management_lookup(ledger, id, entry.fingerprint) == RequestLedgerLookup::<ManageOutcome>::Absent,
        ({
            let after = RequestLedgerView {
                retired_through: ledger.retired_through,
                entries: ledger.entries.insert(id, entry),
            };
            &&& management_lookup(after, id, entry.fingerprint) == RequestLedgerLookup::RetainedExact(
                entry.outcome,
            )
            &&& other != entry.fingerprint ==> management_lookup(after, id, other)
                == RequestLedgerLookup::<ManageOutcome>::IdReuseMismatch
            &&& probe != id ==> management_lookup(after, probe, other) == management_lookup(ledger, probe, other)
        }),
{
}

/// Retirement of a request ledger only moves forward over a complete prefix
/// and is permanent: it succeeds only when `target` lies beyond the frontier
/// and every ID after the frontier through `target` is retained; afterwards
/// every ID through `target` classifies as retired whatever its content, no
/// entry through `target` is kept, and every later ID keeps its entry.
pub proof fn lemma_input_retirement_is_permanent(
    ledger: RequestLedgerView<InputLedgerEntry>,
    target: u64,
    id: u64,
    fingerprint: InputRequestFingerprint,
)
    requires
        ledger.retirement(target) is Ok,
    ensures
        match ledger.retired_through {
            Some(frontier) => frontier < target,
            None => true,
        },
        forall|k: u64|
            #![trigger ledger.entries.contains_key(k)]
            (match ledger.retired_through {
                Some(frontier) => frontier < k,
                None => true,
            }) && k <= target ==> ledger.entries.contains_key(k),
        id <= target ==> input_lookup(ledger.retired(target), id, fingerprint)
            == RequestLedgerLookup::<AdmitOutcome>::Retired,
        id <= target ==> !ledger.retired(target).entries.contains_key(id),
        id > target ==> ledger.retired(target).entries.contains_key(id) == ledger.entries.contains_key(id)
            && (ledger.entries.contains_key(id) ==> ledger.retired(target).entries[id] == ledger.entries[id]),
{
    let start = spec_retirement_start(ledger.retired_through, target)->Ok_0;
    assert forall|k: u64|
        #![trigger ledger.entries.contains_key(k)]
        (match ledger.retired_through {
            Some(frontier) => frontier < k,
            None => true,
        }) && k <= target implies ledger.entries.contains_key(k) by {
        assert(start <= k);
        assert(ledger.entries.dom().contains(k));
    }
}

/// A retirement that does not move past the frontier is refused as such, and
/// a refused gap names the least ID after the frontier that is not retained.
pub proof fn lemma_input_retirement_refusals(ledger: RequestLedgerView<InputLedgerEntry>, target: u64)
    ensures
        match ledger.retired_through {
            Some(frontier) => target <= frontier ==> ledger.retirement(target) == Err::<(), LedgerRetirementError>(
                LedgerRetirementError::NotAdvancing { retired_through: frontier, requested: target },
            ),
            None => true,
        },
        match ledger.retirement(target) {
            Err(LedgerRetirementError::Gap { missing }) => {
                &&& missing <= target
                &&& !ledger.entries.contains_key(missing)
                &&& match ledger.retired_through {
                    Some(frontier) => frontier < missing,
                    None => true,
                }
                &&& forall|k: u64|
                    #![trigger ledger.entries.contains_key(k)]
                    (match ledger.retired_through {
                        Some(frontier) => frontier < k,
                        None => true,
                    }) && k < missing ==> ledger.entries.contains_key(k)
            },
            _ => true,
        },
{
    match spec_retirement_start(ledger.retired_through, target) {
        Ok(start) => {
            let dom = ledger.entries.dom();
            if !complete_range(dom, start, target) {
                let w = choose|k: u64| start <= k <= target && !#[trigger] dom.contains(k);
                lemma_first_missing_exists(dom, start, target, w);
                let missing = first_missing(dom, start, target);
                assert(is_first_missing(dom, start, target, missing));
                assert forall|k: u64|
                    #![trigger ledger.entries.contains_key(k)]
                    (match ledger.retired_through {
                        Some(frontier) => frontier < k,
                        None => true,
                    }) && k < missing implies ledger.entries.contains_key(k) by {
                    assert(start <= k);
                    assert(dom.contains(k));
                }
            }
        },
        Err(_) => {},
    }
}

} // verus!
