//! Latest derived containment appraisal retained per actor and subject,
//! with a secondary index by material content.

use std::collections::BTreeMap;
use vstd::prelude::*;
use vstd::set_lib::lemma_set_empty_equivalency_len;

use crate::ids::{ActorId, ContainmentAppraisalFingerprint, EntityId, EvidenceDeliveryId};

verus! {

/// An actor's appraisal of where an item is contained.
#[derive(Clone, Copy, Debug, PartialEq, Eq, Structural)]
pub struct ContainmentAppraisal {
    pub actor: ActorId,
    pub item: EntityId,
    pub believed_current_container: EntityId,
    pub source: EntityId,
    pub supporting_evidence: EvidenceDeliveryId,
    pub material: ContainmentAppraisalFingerprint,
}

impl ContainmentAppraisal {
    /// Appraising actor.
    pub fn actor(&self) -> (r: ActorId)
        ensures
            r == self.actor,
    {
        self.actor
    }

    /// Appraised item.
    pub fn item(&self) -> (r: EntityId)
        ensures
            r == self.item,
    {
        self.item
    }

    /// Container the actor believes currently holds the item.
    pub fn believed_current_container(&self) -> (r: EntityId)
        ensures
            r == self.believed_current_container,
    {
        self.believed_current_container
    }

    /// Evidence the appraisal rests on.
    pub fn supporting_evidence(&self) -> (r: EvidenceDeliveryId)
        ensures
            r == self.supporting_evidence,
    {
        self.supporting_evidence
    }

    /// Digest of the appraisal's material content.
    pub fn material_fingerprint(&self) -> (r: ContainmentAppraisalFingerprint)
        ensures
            r == self.material,
    {
        self.material
    }
}

/// Abstract state of the appraisal ledger.
pub struct AppraisalLedgerView {
    pub entries: Map<(u64, u64), ContainmentAppraisal>,
    pub by_material: Map<(u64, u64), ContainmentAppraisal>,
}

/// Subject key of an appraisal.
pub open spec fn subject_key(appraisal: ContainmentAppraisal) -> (u64, u64) {
    (appraisal.actor.0, appraisal.item.0)
}

/// Material key of an appraisal.
pub open spec fn material_key(appraisal: ContainmentAppraisal) -> (u64, u64) {
    (appraisal.actor.0, appraisal.material.0)
}

/// Latest derived containment appraisal retained per actor and subject.
#[derive(Clone, Debug)]
pub struct ContainmentAppraisalLedger {
    entries: BTreeMap<(u64, u64), ContainmentAppraisal>,
    by_material: BTreeMap<(u64, u64), ContainmentAppraisal>,
}

impl View for ContainmentAppraisalLedger {
    type V = AppraisalLedgerView;

    closed spec fn view(&self) -> AppraisalLedgerView {
        AppraisalLedgerView { entries: self.entries@, by_material: self.by_material@ }
    }
}

impl Default for ContainmentAppraisalLedger {
    fn default() -> (r: Self)
        ensures
            r@.entries == Map::<(u64, u64), ContainmentAppraisal>::empty(),
            r@.by_material == Map::<(u64, u64), ContainmentAppraisal>::empty(),
    {
        ContainmentAppraisalLedger { entries: BTreeMap::new(), by_material: BTreeMap::new() }
    }
}

impl ContainmentAppraisalLedger {
    /// The appraisal retained for `actor` and `item`, if any.
    pub fn get(&self, actor: ActorId, item: EntityId) -> (r: Option<ContainmentAppraisal>)
        ensures
            r == (if self@.entries.contains_key((actor.0, item.0)) {
                Some(self@.entries[(actor.0, item.0)])
            } else {
                None::<ContainmentAppraisal>
            }),
    {
        match self.entries.get(&(actor.get(), item.get())) {
            Some(appraisal) => Some(*appraisal),
            None => None,
        }
    }

    /// The appraisal retained for `actor` with material content `material`, if any.
    pub fn find_material(&self, actor: ActorId, material: ContainmentAppraisalFingerprint) -> (r:
        Option<ContainmentAppraisal>)
        ensures
            r == (if self@.by_material.contains_key((actor.0, material.0)) {
                Some(self@.by_material[(actor.0, material.0)])
            } else {
                None::<ContainmentAppraisal>
            }),
    {
        match self.by_material.get(&(actor.get(), material.get())) {
            Some(appraisal) => Some(*appraisal),
            None => None,
        }
    }

    /// Retains `appraisal` as the latest for its subject and its material content.
    pub fn retain(&mut self, appraisal: ContainmentAppraisal)
        ensures
            final(self)@.entries == old(self)@.entries.insert(subject_key(appraisal), appraisal),
            final(self)@.by_material == old(self)@.by_material.insert(
                material_key(appraisal),
                appraisal,
            ),
    {
        self.entries.insert((appraisal.actor.get(), appraisal.item.get()), appraisal);
        self.by_material.insert((appraisal.actor.get(), appraisal.material.get()), appraisal);
    }

    /// Retracts `expected` only if it is exactly the retained appraisal of its subject.
    pub fn retract_exact(&mut self, expected: ContainmentAppraisal) -> (r: bool)
        ensures
            r == (old(self)@.entries.contains_key(subject_key(expected)) && old(
                self,
            )@.entries[subject_key(expected)] == expected),
            r ==> final(self)@.entries == old(self)@.entries.remove(subject_key(expected))
                && final(self)@.by_material == old(self)@.by_material.remove(material_key(expected)),
            !r ==> final(self)@ == old(self)@,
    {
        let key = (expected.actor.get(), expected.item.get());
        match self.entries.get(&key) {
            Some(retained) => {
                if *retained != expected {
                    return false;
                }
            },
            None => return false,
        }
        self.entries.remove(&key);
        self.by_material.remove(&(expected.actor.get(), expected.material.get()));
        true
    }

    /// Nothing is retained in either index.
    pub fn is_empty(&self) -> (r: bool)
        ensures
            r == (self@.entries == Map::<(u64, u64), ContainmentAppraisal>::empty()
                && self@.by_material == Map::<(u64, u64), ContainmentAppraisal>::empty()),
    {
        proof {
            lemma_set_empty_equivalency_len(self@.entries.dom());
            lemma_set_empty_equivalency_len(self@.by_material.dom());
        }
        let r = self.entries.len() == 0 && self.by_material.len() == 0;
        proof {
            if r {
                assert(self@.entries =~= Map::<(u64, u64), ContainmentAppraisal>::empty());
                assert(self@.by_material =~= Map::<(u64, u64), ContainmentAppraisal>::empty());
            }
        }
        r
    }
}

/// Reading the appraisal ledger after retaining `appraisal`: its actor and
/// item find it, its actor and material content find it, other actors'
/// appraisals are untouched, and retracting exactly it afterwards succeeds
/// and leaves its actor and item with nothing retained.
pub proof fn lemma_appraisal_read_after_retain(
    view: AppraisalLedgerView,
    appraisal: ContainmentAppraisal,
    actor: u64,
    key: u64,
)
    ensures
        ({
            let after = AppraisalLedgerView {
                entries: view.entries.insert(subject_key(appraisal), appraisal),
                by_material: view.by_material.insert(material_key(appraisal), appraisal),
            };
            &&& after.entries.contains_key((appraisal.actor.0, appraisal.item.0))
            &&& after.entries[(appraisal.actor.0, appraisal.item.0)] == appraisal
            &&& after.by_material.contains_key((appraisal.actor.0, appraisal.material.0))
            &&& after.by_material[(appraisal.actor.0, appraisal.material.0)] == appraisal
            &&& actor != appraisal.actor.0 ==> after.entries.contains_key((actor, key))
                == view.entries.contains_key((actor, key)) && after.entries[(actor, key)] == view.entries[(
                actor,
                key,
            )] && after.by_material.contains_key((actor, key)) == view.by_material.contains_key((actor, key))
            &&& after.entries.contains_key(subject_key(appraisal)) && after.entries[subject_key(appraisal)]
                == appraisal
            &&& !after.entries.remove(subject_key(appraisal)).contains_key((appraisal.actor.0, appraisal.item.0))
        }),
{
}

} // verus!
