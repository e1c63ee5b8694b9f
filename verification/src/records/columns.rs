//! Column encodings of identities, lifecycle states and outcomes, and the
//! mapping of store failures to domain errors.

use vstd::prelude::*;

use crate::challenge::WriteupState;
use crate::events::SubmissionOutcome;
use crate::identity::{EventState, TeamId, UserId};
use crate::scoring::CompetitorId;
use crate::text::{owned, same_text};
use crate::{DomainError, DomainResult};

verus! {

/// Server-side passkey ceremony class.
#[derive(Debug, Clone, Copy, PartialEq, Eq, Structural)]
pub enum PasskeyFlowKind {
    /// An authenticated account is enrolling a new credential.
    Registration,
    /// A browser is proving possession of an existing credential.
    Authentication,
}

impl PasskeyFlowKind {
    /// Stable column key.
    pub fn as_str(self) -> (key: &'static str)
        ensures
            key@ == (match self {
                PasskeyFlowKind::Registration => "registration"@,
                PasskeyFlowKind::Authentication => "authentication"@,
            }),
    {
        match self {
            PasskeyFlowKind::Registration => "registration",
            PasskeyFlowKind::Authentication => "authentication",
        }
    }
}

/// The stable column key of a submission outcome.
pub open spec fn outcome_key_of(outcome: SubmissionOutcome) -> Seq<char> {
    match outcome {
        SubmissionOutcome::Correct => "correct"@,
        SubmissionOutcome::Incorrect => "incorrect"@,
        SubmissionOutcome::Partial => "partial"@,
        SubmissionOutcome::Pending => "pending"@,
        SubmissionOutcome::Discarded => "discarded"@,
        SubmissionOutcome::RateLimited => "rate_limited"@,
        SubmissionOutcome::OwnFlag => "own_flag"@,
        SubmissionOutcome::Duplicate => "duplicate"@,
        SubmissionOutcome::Expired => "expired"@,
    }
}

/// Stable column key of a submission outcome.
pub fn outcome_key(outcome: SubmissionOutcome) -> (key: &'static str)
    ensures
        key@ == outcome_key_of(outcome),
{
    match outcome {
        SubmissionOutcome::Correct => "correct",
        SubmissionOutcome::Incorrect => "incorrect",
        SubmissionOutcome::Partial => "partial",
        SubmissionOutcome::Pending => "pending",
        SubmissionOutcome::Discarded => "discarded",
        SubmissionOutcome::RateLimited => "rate_limited",
        SubmissionOutcome::OwnFlag => "own_flag",
        SubmissionOutcome::Duplicate => "duplicate",
        SubmissionOutcome::Expired => "expired",
    }
}

/// The stable column key of a writeup state.
pub open spec fn writeup_state_key_of(state: WriteupState) -> Seq<char> {
    match state {
        WriteupState::Draft => "draft"@,
        WriteupState::Submitted => "submitted"@,
        WriteupState::ChangesRequested => "changes_requested"@,
        WriteupState::Approved => "approved"@,
        WriteupState::Published => "published"@,
    }
}

/// Stable column key of a writeup state.
pub fn writeup_state_key(state: WriteupState) -> (key: &'static str)
    ensures
        key@ == writeup_state_key_of(state),
{
    match state {
        WriteupState::Draft => "draft",
        WriteupState::Submitted => "submitted",
        WriteupState::ChangesRequested => "changes_requested",
        WriteupState::Approved => "approved",
        WriteupState::Published => "published",
    }
}

/// Distinct writeup states have distinct column keys, so a key reads back as
/// the state it was written from.
pub proof fn lemma_writeup_keys_distinct(a: WriteupState, b: WriteupState)
    ensures
        writeup_state_key_of(a) == writeup_state_key_of(b) ==> a == b,
{
    reveal_strlit("draft");
    reveal_strlit("submitted");
    reveal_strlit("changes_requested");
    reveal_strlit("approved");
    reveal_strlit("published");
    if writeup_state_key_of(a) == writeup_state_key_of(b) {
        assert(writeup_state_key_of(a).len() == writeup_state_key_of(b).len());
        assert(writeup_state_key_of(a)[0] == writeup_state_key_of(b)[0]);
    }
}

/// Reads a writeup state from its column key.
pub fn parse_writeup_state(key: &str) -> (r: DomainResult<WriteupState>)
    ensures
        forall|state: WriteupState| writeup_state_key_of(state) == key@ ==> r == Ok::<WriteupState, DomainError>(state),
        (forall|state: WriteupState| writeup_state_key_of(state) != key@) ==> (r matches Err(
            DomainError::Unavailable(m),
        ) && m@ == "writeup contains an invalid lifecycle state"@),
{
    proof {
        reveal_strlit("draft");
        reveal_strlit("submitted");
        reveal_strlit("changes_requested");
        reveal_strlit("approved");
        reveal_strlit("published");
    }
    let states = [
        WriteupState::Draft,
        WriteupState::Submitted,
        WriteupState::ChangesRequested,
        WriteupState::Approved,
        WriteupState::Published,
    ];
    let mut i: usize = 0;
    while i < 5
        invariant
            states@ == seq![
                WriteupState::Draft,
                WriteupState::Submitted,
                WriteupState::ChangesRequested,
                WriteupState::Approved,
                WriteupState::Published,
            ],
            i <= 5,
            forall|k: int| 0 <= k < i ==> writeup_state_key_of(#[trigger] states@[k]) != key@,
        decreases 5 - i,
    {
        if crate::text::same_text(writeup_state_key(states[i]), key) {
            proof {
                assert forall|state: WriteupState| writeup_state_key_of(state) == key@ implies state == states@[i as int] by {
                    lemma_writeup_keys_distinct(state, states@[i as int]);
                }
            }
            return Ok(states[i]);
        }
        i = i + 1;
    }
    proof {
        assert forall|state: WriteupState| writeup_state_key_of(state) != key@ by {
            match state {
                WriteupState::Draft => assert(writeup_state_key_of(states@[0]) != key@),
                WriteupState::Submitted => assert(writeup_state_key_of(states@[1]) != key@),
                WriteupState::ChangesRequested => assert(writeup_state_key_of(states@[2]) != key@),
                WriteupState::Approved => assert(writeup_state_key_of(states@[3]) != key@),
                WriteupState::Published => assert(writeup_state_key_of(states@[4]) != key@),
            }
        }
    }
    Err(DomainError::Unavailable(owned("writeup contains an invalid lifecycle state")))
}

/// The stable column key of an event state.
pub open spec fn event_state_key_of(state: EventState) -> Seq<char> {
    match state {
        EventState::Draft => "draft"@,
        EventState::Scheduled => "scheduled"@,
        EventState::Live => "live"@,
        EventState::Paused => "paused"@,
        EventState::Ended => "ended"@,
        EventState::Archived => "archived"@,
    }
}

/// Stable column key of an event state.
pub fn event_state_key(state: EventState) -> (key: &'static str)
    ensures
        key@ == event_state_key_of(state),
{
    match state {
        EventState::Draft => "draft",
        EventState::Scheduled => "scheduled",
        EventState::Live => "live",
        EventState::Paused => "paused",
        EventState::Ended => "ended",
        EventState::Archived => "archived",
    }
}

/// Distinct event states have distinct column keys, so a key reads back as
/// the state it was written from.
pub proof fn lemma_event_keys_distinct(a: EventState, b: EventState)
    ensures
        event_state_key_of(a) == event_state_key_of(b) ==> a == b,
{
    reveal_strlit("draft");
    reveal_strlit("scheduled");
    reveal_strlit("live");
    reveal_strlit("paused");
    reveal_strlit("ended");
    reveal_strlit("archived");
    if event_state_key_of(a) == event_state_key_of(b) {
        assert(event_state_key_of(a).len() == event_state_key_of(b).len());
        assert(event_state_key_of(a)[0] == event_state_key_of(b)[0]);
    }
}

/// Reads an event state from its column key.
pub fn parse_event_state(key: &str) -> (r: DomainResult<EventState>)
    ensures
        forall|state: EventState| event_state_key_of(state) == key@ ==> r == Ok::<EventState, DomainError>(state),
        (forall|state: EventState| event_state_key_of(state) != key@) ==> (r matches Err(DomainError::Unavailable(m))
            && m@ == "postgres event contains an invalid lifecycle state"@),
{
    proof {
        reveal_strlit("draft");
        reveal_strlit("scheduled");
        reveal_strlit("live");
        reveal_strlit("paused");
        reveal_strlit("ended");
        reveal_strlit("archived");
    }
    let states = [
        EventState::Draft,
        EventState::Scheduled,
        EventState::Live,
        EventState::Paused,
        EventState::Ended,
        EventState::Archived,
    ];
    let mut i: usize = 0;
    while i < 6
        invariant
            states@ == seq![
                EventState::Draft,
                EventState::Scheduled,
                EventState::Live,
                EventState::Paused,
                EventState::Ended,
                EventState::Archived,
            ],
            i <= 6,
            forall|k: int| 0 <= k < i ==> event_state_key_of(#[trigger] states@[k]) != key@,
        decreases 6 - i,
    {
        if crate::text::same_text(event_state_key(states[i]), key) {
            proof {
                assert forall|state: EventState| event_state_key_of(state) == key@ implies state == states@[i as int] by {
                    lemma_event_keys_distinct(state, states@[i as int]);
                }
            }
            return Ok(states[i]);
        }
        i = i + 1;
    }
    proof {
        assert forall|state: EventState| event_state_key_of(state) != key@ by {
            match state {
                EventState::Draft => assert(event_state_key_of(states@[0]) != key@),
                EventState::Scheduled => assert(event_state_key_of(states@[1]) != key@),
                EventState::Live => assert(event_state_key_of(states@[2]) != key@),
                EventState::Paused => assert(event_state_key_of(states@[3]) != key@),
                EventState::Ended => assert(event_state_key_of(states@[4]) != key@),
                EventState::Archived => assert(event_state_key_of(states@[5]) != key@),
            }
        }
    }
    Err(DomainError::Unavailable(owned("postgres event contains an invalid lifecycle state")))
}

/// The (user, team) columns that store a competitor: exactly one is set.
pub open spec fn columns_of(competitor: CompetitorId) -> (Option<u128>, Option<u128>) {
    match competitor {
        CompetitorId::User(user) => (Some(user.0), None),
        CompetitorId::Team(team) => (None, Some(team.0)),
    }
}

/// The (user, team) columns that store a competitor.
pub fn competitor_columns(competitor: CompetitorId) -> (columns: (Option<u128>, Option<u128>))
    ensures
        columns == columns_of(competitor),
{
    match competitor {
        CompetitorId::User(user) => (Some(user.0), None),
        CompetitorId::Team(team) => (None, Some(team.0)),
    }
}

/// The kind key and identifier of a competitor.
pub fn competitor_identity(competitor: CompetitorId) -> (identity: (&'static str, u128))
    ensures
        match competitor {
            CompetitorId::User(user) => identity.0@ == "user"@ && identity.1 == user.0,
            CompetitorId::Team(team) => identity.0@ == "team"@ && identity.1 == team.0,
        },
{
    match competitor {
        CompetitorId::User(user) => ("user", user.0),
        CompetitorId::Team(team) => ("team", team.0),
    }
}

/// Reads an instance's competitor binding back from its columns; exactly
/// one column must be set.
pub fn competitor_from_columns(user_id: Option<u128>, team_id: Option<u128>) -> (r: DomainResult<CompetitorId>)
    ensures
        match (user_id, team_id) {
            (Some(user), None) => r == Ok::<CompetitorId, DomainError>(CompetitorId::User(UserId(user))),
            (None, Some(team)) => r == Ok::<CompetitorId, DomainError>(CompetitorId::Team(TeamId(team))),
            _ => r matches Err(DomainError::Unavailable(m)) && m@ == "instance contains an invalid competitor binding"@,
        },
{
    match (user_id, team_id) {
        (Some(user), None) => Ok(CompetitorId::User(UserId(user))),
        (None, Some(team)) => Ok(CompetitorId::Team(TeamId(team))),
        _ => Err(DomainError::Unavailable(owned("instance contains an invalid competitor binding"))),
    }
}

/// Storing a competitor in its columns and reading it back gives it back.
pub proof fn lemma_competitor_columns_round_trip(competitor: CompetitorId)
    ensures
        match columns_of(competitor) {
            (Some(user), None) => CompetitorId::User(UserId(user)) == competitor,
            (None, Some(team)) => CompetitorId::Team(TeamId(team)) == competitor,
            _ => false,
        },
{
}

/// The competitor credited by a manual submission: its team when one is
/// recorded, else its user.
pub fn review_competitor(user_id: Option<u128>, team_id: Option<u128>) -> (r: DomainResult<CompetitorId>)
    ensures
        match (user_id, team_id) {
            (_, Some(team)) => r == Ok::<CompetitorId, DomainError>(CompetitorId::Team(TeamId(team))),
            (Some(user), None) => r == Ok::<CompetitorId, DomainError>(CompetitorId::User(UserId(user))),
            (None, None) => r matches Err(DomainError::Unavailable(m)) && m@
                == "manual submission contains no competitor identity"@,
        },
{
    match (user_id, team_id) {
        (_, Some(team)) => Ok(CompetitorId::Team(TeamId(team))),
        (Some(user), None) => Ok(CompetitorId::User(UserId(user))),
        (None, None) => Err(DomainError::Unavailable(owned("manual submission contains no competitor identity"))),
    }
}

/// The kind key and identifier of a reviewed record's competitor: its team
/// when one is recorded, else its user.
pub fn review_competitor_identity(user_id: Option<u128>, team_id: Option<u128>, resource: &str) -> (r: DomainResult<(String, u128)>)
    ensures
        match (user_id, team_id) {
            (_, Some(team)) => r matches Ok((kind, id)) && kind@ == "team"@ && id == team,
            (Some(user), None) => r matches Ok((kind, id)) && kind@ == "user"@ && id == user,
            (None, None) => r matches Err(DomainError::Unavailable(m)) && m@ == resource@
                + " contains no competitor identity"@,
        },
{
    match (user_id, team_id) {
        (_, Some(team)) => Ok((owned("team"), team)),
        (Some(user), None) => Ok((owned("user"), user)),
        (None, None) => Err(DomainError::Unavailable(owned(resource).concat(" contains no competitor identity"))),
    }
}

/// The kind key and identifier of a writeup's author; exactly one column
/// must be set.
pub fn writeup_competitor(user_id: Option<u128>, team_id: Option<u128>) -> (r: DomainResult<(String, u128)>)
    ensures
        match (user_id, team_id) {
            (Some(user), None) => r matches Ok((kind, id)) && kind@ == "user"@ && id == user,
            (None, Some(team)) => r matches Ok((kind, id)) && kind@ == "team"@ && id == team,
            _ => r matches Err(DomainError::Unavailable(m)) && m@ == "writeup contains an invalid competitor identity"@,
        },
{
    match (user_id, team_id) {
        (Some(user), None) => Ok((owned("user"), user)),
        (None, Some(team)) => Ok((owned("team"), team)),
        _ => Err(DomainError::Unavailable(owned("writeup contains an invalid competitor identity"))),
    }
}

/// The error for an unavailable store: `postgres <scope>: <description>`.
pub fn unavailable(scope: &str, description: &str) -> (error: DomainError)
    ensures
        error matches DomainError::Unavailable(m) && m@ == "postgres "@ + scope@ + ": "@ + description@,
{
    DomainError::Unavailable(owned("postgres ").concat(scope).concat(": ").concat(description))
}

/// Whether a database error code reports a unique-constraint violation
/// (SQLSTATE `23505`).
pub fn is_unique_violation(code: Option<&str>) -> (unique: bool)
    ensures
        unique == (code matches Some(c) && c@ == "23505"@),
{
    match code {
        Some(c) => same_text(c, "23505"),
        None => false,
    }
}

/// Maps a failed write: a unique-constraint violation becomes the given
/// conflict, anything else an unavailable store.
pub fn conflict_or_unavailable(code: Option<&str>, conflict: &str, scope: &str, description: &str) -> (error: DomainError)
    ensures
        (code matches Some(c) && c@ == "23505"@) ==> (error matches DomainError::Conflict(m) && m@ == conflict@),
        !(code matches Some(c) && c@ == "23505"@) ==> (error matches DomainError::Unavailable(m) && m@ == "postgres "@
            + scope@ + ": "@ + description@),
{
    if is_unique_violation(code) {
        DomainError::Conflict(owned(conflict))
    } else {
        unavailable(scope, description)
    }
}

} // verus!
