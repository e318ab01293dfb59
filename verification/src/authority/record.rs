//! Authority cursors and the sealing of a record draft against a session head.

use vstd::prelude::*;

use crate::authority::moment::MomentBatchRecord;
use crate::authority::seal::{
    AuthorityRecordSealError, ManagementBatchRecord, NormalizedManagementRecord, materialize,
    materialized_entry, normalize_management, normalized_management,
};
use crate::control::state::RuntimeControlState;
use crate::ids::AuthorityRecordId;
use crate::kernel::{ManageRequest, SimMoment};
use crate::session::SessionMode;

verus! {

/// Digest of a chain of published records up to and including one record.
#[derive(Clone, Copy, Debug, PartialEq, Eq, Structural)]
pub struct CumulativeAuthorityHash(pub u64);

/// Position of a session in its chain of published authority records: the
/// number of records published so far (`revision`), the sequence number of
/// the last one, its identity and the digest of the chain through it.
#[derive(Clone, Copy, Debug, PartialEq, Eq, Structural)]
pub struct AuthorityCursor {
    pub revision: u64,
    pub sequence: u64,
    pub authority: Option<AuthorityRecordId>,
    pub cumulative: CumulativeAuthorityHash,
}

/// Why a cursor has no successor.
#[derive(Clone, Copy, Debug, PartialEq, Eq, Structural)]
pub enum AuthorityCursorAdvanceError {
    RevisionExhausted,
    SequenceExhausted,
}

impl AuthorityCursor {
    /// The cursor of a session that has published nothing.
    pub fn root() -> (r: Self)
        ensures
            r == (AuthorityCursor {
                revision: 0,
                sequence: 0,
                authority: None,
                cumulative: CumulativeAuthorityHash(0),
            }),
    {
        AuthorityCursor { revision: 0, sequence: 0, authority: None, cumulative: CumulativeAuthorityHash(0) }
    }

    /// The cursor after this one publishes the record `id` with chain digest
    /// `cumulative`, if the counters allow it.
    pub open spec fn successor_spec(self, id: AuthorityRecordId, cumulative: CumulativeAuthorityHash) -> Result<
        AuthorityCursor,
        AuthorityCursorAdvanceError,
    > {
        if self.revision == u64::MAX {
            Err(AuthorityCursorAdvanceError::RevisionExhausted)
        } else if self.sequence == u64::MAX {
            Err(AuthorityCursorAdvanceError::SequenceExhausted)
        } else {
            Ok(
                AuthorityCursor {
                    revision: (self.revision + 1) as u64,
                    sequence: (self.sequence + 1) as u64,
                    authority: Some(id),
                    cumulative,
                },
            )
        }
    }

    /// The cursor after this one publishes the record `id` with chain digest `cumulative`.
    pub fn successor(&self, id: AuthorityRecordId, cumulative: CumulativeAuthorityHash) -> (r: Result<
        AuthorityCursor,
        AuthorityCursorAdvanceError,
    >)
        ensures
            r == self.successor_spec(id, cumulative),
    {
        if self.revision == u64::MAX {
            Err(AuthorityCursorAdvanceError::RevisionExhausted)
        } else if self.sequence == u64::MAX {
            Err(AuthorityCursorAdvanceError::SequenceExhausted)
        } else {
            Ok(
                AuthorityCursor {
                    revision: self.revision + 1,
                    sequence: self.sequence + 1,
                    authority: Some(id),
                    cumulative,
                },
            )
        }
    }
}

/// Publishing one record advances the cursor by exactly one revision and one
/// sequence number and names the new record and its chain digest; only an
/// exhausted revision or sequence counter refuses to advance.
pub proof fn lemma_cursor_advances_by_one(
    cursor: AuthorityCursor,
    id: AuthorityRecordId,
    cumulative: CumulativeAuthorityHash,
)
    ensures
        cursor.successor_spec(id, cumulative) is Err <==> (cursor.revision == u64::MAX || cursor.sequence
            == u64::MAX),
        match cursor.successor_spec(id, cumulative) {
            Ok(next) => {
                &&& next.revision == cursor.revision + 1
                &&& next.sequence == cursor.sequence + 1
                &&& next.authority == Some(id)
                &&& next.cumulative == cumulative
            },
            Err(_) => true,
        },
{
}

/// Header of a published record: its place in the chain, its identity and
/// the chain digests before and through it.
#[derive(Clone, Copy, Debug, PartialEq, Eq, Structural)]
pub struct AuthorityRecordHeader {
    pub revision: u64,
    pub sequence: u64,
    pub previous_authority: Option<AuthorityRecordId>,
    pub previous_cumulative: CumulativeAuthorityHash,
    pub id: AuthorityRecordId,
    pub cumulative: CumulativeAuthorityHash,
}

/// What a published record carries.
pub enum AuthorityRecordBody {
    Management(ManagementBatchRecord),
    Moment(MomentBatchRecord),
}

/// One published authority record.
pub struct AuthorityRecord {
    pub header: AuthorityRecordHeader,
    pub body: AuthorityRecordBody,
}

/// What the session is when a draft is sealed: its cursor, its mode and
/// admission frontier, its retained control state, the earliest scheduled
/// work and the least frontier at which a pending action evaluation blocks.
pub struct SessionHead {
    pub cursor: AuthorityCursor,
    pub mode: SessionMode,
    pub frontier: SimMoment,
    pub control: RuntimeControlState,
    pub least_due: Option<SimMoment>,
    pub blocked_at: Option<SimMoment>,
}

/// A host management batch drafted against the cursor it expects to extend.
pub struct DraftAuthorityRecord {
    pub expected_cursor: AuthorityCursor,
    pub requests: Vec<ManageRequest>,
}

impl DraftAuthorityRecord {
    /// A management draft of `requests` against `expected_cursor`.
    pub fn management(expected_cursor: AuthorityCursor, requests: Vec<ManageRequest>) -> (r: Self)
        ensures
            r.expected_cursor == expected_cursor,
            r.requests@ == requests@,
    {
        DraftAuthorityRecord { expected_cursor, requests }
    }
}

/// A sealed record with the cursor it extends and the cursor it produces.
pub struct SealedAuthorityRecord {
    expected_cursor: AuthorityCursor,
    resulting_cursor: AuthorityCursor,
    record: AuthorityRecord,
}

impl SealedAuthorityRecord {
    /// The cursor the record extends.
    pub closed spec fn expected_cursor_spec(&self) -> AuthorityCursor {
        self.expected_cursor
    }

    /// The cursor after the record is published.
    pub closed spec fn resulting_cursor_spec(&self) -> AuthorityCursor {
        self.resulting_cursor
    }

    /// The sealed record.
    pub closed spec fn record_spec(&self) -> AuthorityRecord {
        self.record
    }

    /// The header of the record.
    pub closed spec fn header_spec(&self) -> AuthorityRecordHeader {
        self.record.header
    }

    /// The management body of the record, if it carries one.
    pub closed spec fn management_spec(&self) -> Option<(Seq<crate::authority::seal::ManagementRecord>, SessionMode, SimMoment)> {
        match &self.record.body {
            AuthorityRecordBody::Management(m) => Some((m.entries@, m.resulting_mode, m.preserved_frontier)),
            _ => None,
        }
    }

    /// The cursor the record extends.
    pub fn expected_cursor(&self) -> (r: AuthorityCursor)
        ensures
            r == self.expected_cursor_spec(),
    {
        self.expected_cursor
    }

    /// The cursor after the record is published.
    pub fn resulting_cursor(&self) -> (r: AuthorityCursor)
        ensures
            r == self.resulting_cursor_spec(),
    {
        self.resulting_cursor
    }

    /// The sealed record.
    pub fn record(&self) -> (r: &AuthorityRecord)
        ensures
            *r == self.record_spec(),
            r.header == self.header_spec(),
            self.management_spec() == (match &r.body {
                AuthorityRecordBody::Management(m) => Some((m.entries@, m.resulting_mode, m.preserved_frontier)),
                _ => None,
            }),
    {
        &self.record
    }

    /// The sealed record, taken out: the same record that `record` borrows.
    pub fn into_record(self) -> (r: AuthorityRecord)
        ensures
            r == self.record_spec(),
            r.header == self.header_spec(),
            self.management_spec() == (match &r.body {
                AuthorityRecordBody::Management(m) => Some((m.entries@, m.resulting_mode, m.preserved_frontier)),
                _ => None,
            }),
    {
        self.record
    }
}

/// Seals a management draft against `head` as the record `record_id`, whose
/// chain digest is `cumulative`.
///
/// A draft that does not extend the head's cursor is stale; a cursor whose
/// counters are exhausted cannot advance; otherwise the batch is normalized
/// against the head and published under `record_id`, whose header takes the
/// next revision and sequence and names the head's last record and digest,
/// and the resulting cursor is the successor of the head's cursor.
pub fn seal_authority_record(
    head: SessionHead,
    draft: DraftAuthorityRecord,
    record_id: AuthorityRecordId,
    cumulative: CumulativeAuthorityHash,
) -> (r: Result<SealedAuthorityRecord, AuthorityRecordSealError>)
    requires
        head.control@.wf(),
    ensures
        draft.expected_cursor != head.cursor ==> r == Err::<SealedAuthorityRecord, AuthorityRecordSealError>(
            AuthorityRecordSealError::StaleDraft { expected: draft.expected_cursor, actual: head.cursor },
        ),
        draft.expected_cursor == head.cursor ==> match head.cursor.successor_spec(record_id, cumulative) {
            Err(advance) => r == Err::<SealedAuthorityRecord, AuthorityRecordSealError>(
                AuthorityRecordSealError::CursorAdvance(advance),
            ),
            Ok(next) => match normalized_management(
                head.mode,
                head.frontier,
                head.control@,
                head.least_due,
                head.blocked_at,
                draft.requests@,
            ) {
                Err(error) => r == Err::<SealedAuthorityRecord, AuthorityRecordSealError>(error),
                Ok((entries, mode)) => r matches Ok(sealed) && sealed.expected_cursor_spec() == head.cursor
                    && sealed.resulting_cursor_spec() == next && sealed.header_spec() == (AuthorityRecordHeader {
                    revision: next.revision,
                    sequence: next.sequence,
                    previous_authority: head.cursor.authority,
                    previous_cumulative: head.cursor.cumulative,
                    id: record_id,
                    cumulative,
                }) && sealed.management_spec() == Some(
                    (
                        entries.map_values(
                            |entry: NormalizedManagementRecord| materialized_entry(record_id, entry),
                        ),
                        mode,
                        head.frontier,
                    ),
                ),
            },
        },
{
    let SessionHead { cursor, mode, frontier, control, least_due, blocked_at } = head;
    let DraftAuthorityRecord { expected_cursor, requests } = draft;
    if expected_cursor != cursor {
        return Err(AuthorityRecordSealError::StaleDraft { expected: expected_cursor, actual: cursor });
    }
    let next = match cursor.successor(record_id, cumulative) {
        Ok(next) => next,
        Err(advance) => {
            return Err(AuthorityRecordSealError::CursorAdvance(advance));
        },
    };
    let normalized = match normalize_management(mode, frontier, control, least_due, blocked_at, requests) {
        Ok(normalized) => normalized,
        Err(error) => {
            return Err(error);
        },
    };
    let body = materialize(record_id, normalized);
    let header = AuthorityRecordHeader {
        revision: next.revision,
        sequence: next.sequence,
        previous_authority: cursor.authority,
        previous_cumulative: cursor.cumulative,
        id: record_id,
        cumulative,
    };
    Ok(
        SealedAuthorityRecord {
            expected_cursor,
            resulting_cursor: next,
            record: AuthorityRecord { header, body: AuthorityRecordBody::Management(body) },
        },
    )
}

} // verus!
