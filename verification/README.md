# world-runtime

Verified runtime-control core of a headless, turn-based world simulation.
The library is written in Verus: every function states its behaviour in
`requires` / `ensures` clauses over mathematical views, and the laws that
relate several operations are proof functions.

Layout:

- `src/control/` — retained request ledgers (input, management, command)
  with permanent retirement frontiers, action opportunities, lifecycle
  scheduling cursors, containment appraisals, identity issuers, reservations
  and runtime-control drafts.
- `src/authority/` — sealing of authority records:
  - `record.rs`: authority cursors and `seal_authority_record`, which refuses
    a stale draft or an exhausted cursor, normalizes a host management batch
    against the session head and publishes it with the successor cursor;
  - `seal.rs`: canonical ordering and normalization of management batches,
    their materialization, coverage marks and the other sealing checks;
  - `moment.rs`: the completeness check of a moment batch's delivery graph
    (`verify_normalized_moment`) and its materialization under a record
    identity (`materialize_moment`), which derives the identities of commits,
    attempts and reactions, names them in resolutions and post-commit
    dispatches, and carries the transition and evidence records through;
  - `lifecycle_mutation.rs`, `transition.rs`: lifecycle mutation batches and
    the all-or-nothing containment and relocation transitions.
- `src/effects.rs`, `src/builtin.rs`, `src/validation.rs`, `src/commit.rs` —
  validation and staging of the built-in effect operations, event emission and
  the event contract of a hard commit.
- `tests/` — executable tests of the library.
- `app/` — the host-facing error type with readable messages.

Scope and models:

- The simulation's domain types (action opportunities, containers and
  containment, actor positions, commands and their envelopes, effect staging)
  live in the world model crates, which this library does not depend on. The
  types here are the library's own models of them, holding as plain values
  what the runtime logic reads. For instance `ActionOpportunity` keeps the
  identity, actor, generation and state that the ledger and its transitions
  read, but not the sponsor and interaction scope; `DomainState` checks
  container capacity and reports the first overfull container.
- Identities that the runtime derives by hashing canonical content (record
  identities, cumulative chain digests, request fingerprints) are taken as
  given values: callers supply the identity and chain digest of a record to
  `seal_authority_record`, its identity to `materialize_moment`, and the
  fingerprint to `ManageRequest::new`. Identities that a record derives
  for its commits, attempts and reactions (`CommitRecordId`,
  `AttemptRecordId`, `ReactionEnvelopeId`) are the record and the local
  position.
- Scheduled work and the transition and evidence records of a moment belong
  to the scheduler, intent, activity, evidence and relocation components; a
  moment holds them by the handles under which those components keep them
  (lifecycle mutations are held as records of this library).
- Authority cursors count revisions and sequence numbers and name the last
  record and the chain digest through it. Drafts carry host management
  batches; moment batches are checked and materialized once they are
  normalized.
- Management batches cover pausing, resuming, quarantine, failure, admission
  sealing and ledger retirement; resolving a pending action evaluation is not
  part of `SessionManagement`. Management requests are put in canonical order
  by identity and operation rank.
- Moment normalization itself, the action, relocation, evidence-routing and
  scheduler consequence checks of a moment, relocation interactions and the
  admission of action evaluations are not part of this library: they rest on
  the scheduler, relocation, action-evaluation and world-model components,
  which it does not include.
