//! Organizations, events, people, teams, divisions, and brackets.
//!
//! Instants are `i64` microseconds since the Unix epoch (UTC); identifiers
//! are the 128 bits of a UUID.

use vstd::prelude::*;
use vstd::string::StringExecFns;

use crate::text::{blank, is_blank, owned};
use crate::{DomainError, DomainResult};

verus! {

/// Whether 128 bits (big-endian) carry the fields of a version 7 UUID: the
/// version nibble is 7 and the variant bits are `10`.
pub open spec fn is_uuid_v7(bits: u128) -> bool {
    &&& (bits >> 76u128) & 0xfu128 == 7u128
    &&& (bits >> 62u128) & 0x3u128 == 2u128
}

/// Calls `uuid::Uuid::now_v7` and returns its 128 bits. The crate sets the
/// version and variant fields of every value it returns, which is what the
/// contract states; the timestamp and the random bits depend on the clock and
/// on randomness, and nothing is stated of them.
#[verifier::external_body]
pub(crate) fn fresh_uuid_v7() -> (bits: u128)
    ensures
        is_uuid_v7(bits),
{
    uuid::Uuid::now_v7().as_u128()
}

/// Strongly typed identifier for OrganizationId: the UUID's 128 bits, big-endian.
#[derive(Debug, Clone, Copy, PartialEq, Eq, Structural, PartialOrd, Ord, Hash)]
pub struct OrganizationId(pub u128);

impl OrganizationId {
    /// Generates a time-sortable UUIDv7 identifier.
    pub fn new() -> (id: Self)
        ensures
            is_uuid_v7(id.0),
    {
        OrganizationId(fresh_uuid_v7())
    }
}

/// Strongly typed identifier for EventId: the UUID's 128 bits, big-endian.
#[derive(Debug, Clone, Copy, PartialEq, Eq, Structural, PartialOrd, Ord, Hash)]
pub struct EventId(pub u128);

impl EventId {
    /// Generates a time-sortable UUIDv7 identifier.
    pub fn new() -> (id: Self)
        ensures
            is_uuid_v7(id.0),
    {
        EventId(fresh_uuid_v7())
    }
}

/// Strongly typed identifier for UserId: the UUID's 128 bits, big-endian.
#[derive(Debug, Clone, Copy, PartialEq, Eq, Structural, PartialOrd, Ord, Hash)]
pub struct UserId(pub u128);

impl UserId {
    /// Generates a time-sortable UUIDv7 identifier.
    pub fn new() -> (id: Self)
        ensures
            is_uuid_v7(id.0),
    {
        UserId(fresh_uuid_v7())
    }
}

/// Strongly typed identifier for TeamId: the UUID's 128 bits, big-endian.
#[derive(Debug, Clone, Copy, PartialEq, Eq, Structural, PartialOrd, Ord, Hash)]
pub struct TeamId(pub u128);

impl TeamId {
    /// Generates a time-sortable UUIDv7 identifier.
    pub fn new() -> (id: Self)
        ensures
            is_uuid_v7(id.0),
    {
        TeamId(fresh_uuid_v7())
    }
}

/// Strongly typed identifier for DivisionId: the UUID's 128 bits, big-endian.
#[derive(Debug, Clone, Copy, PartialEq, Eq, Structural, PartialOrd, Ord, Hash)]
pub struct DivisionId(pub u128);

impl DivisionId {
    /// Generates a time-sortable UUIDv7 identifier.
    pub fn new() -> (id: Self)
        ensures
            is_uuid_v7(id.0),
    {
        DivisionId(fresh_uuid_v7())
    }
}

/// Strongly typed identifier for BracketId: the UUID's 128 bits, big-endian.
#[derive(Debug, Clone, Copy, PartialEq, Eq, Structural, PartialOrd, Ord, Hash)]
pub struct BracketId(pub u128);

impl BracketId {
    /// Generates a time-sortable UUIDv7 identifier.
    pub fn new() -> (id: Self)
        ensures
            is_uuid_v7(id.0),
    {
        BracketId(fresh_uuid_v7())
    }
}

/// Strongly typed identifier for ChallengeId: the UUID's 128 bits, big-endian.
#[derive(Debug, Clone, Copy, PartialEq, Eq, Structural, PartialOrd, Ord, Hash)]
pub struct ChallengeId(pub u128);

impl ChallengeId {
    /// Generates a time-sortable UUIDv7 identifier.
    pub fn new() -> (id: Self)
        ensures
            is_uuid_v7(id.0),
    {
        ChallengeId(fresh_uuid_v7())
    }
}

/// Strongly typed identifier for ObjectiveId: the UUID's 128 bits, big-endian.
#[derive(Debug, Clone, Copy, PartialEq, Eq, Structural, PartialOrd, Ord, Hash)]
pub struct ObjectiveId(pub u128);

impl ObjectiveId {
    /// Generates a time-sortable UUIDv7 identifier.
    pub fn new() -> (id: Self)
        ensures
            is_uuid_v7(id.0),
    {
        ObjectiveId(fresh_uuid_v7())
    }
}

/// Strongly typed identifier for SubmissionId: the UUID's 128 bits, big-endian.
#[derive(Debug, Clone, Copy, PartialEq, Eq, Structural, PartialOrd, Ord, Hash)]
pub struct SubmissionId(pub u128);

impl SubmissionId {
    /// Generates a time-sortable UUIDv7 identifier.
    pub fn new() -> (id: Self)
        ensures
            is_uuid_v7(id.0),
    {
        SubmissionId(fresh_uuid_v7())
    }
}

/// Strongly typed identifier for InstanceId: the UUID's 128 bits, big-endian.
#[derive(Debug, Clone, Copy, PartialEq, Eq, Structural, PartialOrd, Ord, Hash)]
pub struct InstanceId(pub u128);

impl InstanceId {
    /// Generates a time-sortable UUIDv7 identifier.
    pub fn new() -> (id: Self)
        ensures
            is_uuid_v7(id.0),
    {
        InstanceId(fresh_uuid_v7())
    }
}

/// Strongly typed identifier for FlowId: the UUID's 128 bits, big-endian.
#[derive(Debug, Clone, Copy, PartialEq, Eq, Structural, PartialOrd, Ord, Hash)]
pub struct FlowId(pub u128);

impl FlowId {
    /// Generates a time-sortable UUIDv7 identifier.
    pub fn new() -> (id: Self)
        ensures
            is_uuid_v7(id.0),
    {
        FlowId(fresh_uuid_v7())
    }
}

/// Strongly typed identifier for PluginId: the UUID's 128 bits, big-endian.
#[derive(Debug, Clone, Copy, PartialEq, Eq, Structural, PartialOrd, Ord, Hash)]
pub struct PluginId(pub u128);

impl PluginId {
    /// Generates a time-sortable UUIDv7 identifier.
    pub fn new() -> (id: Self)
        ensures
            is_uuid_v7(id.0),
    {
        PluginId(fresh_uuid_v7())
    }
}

/// Strongly typed identifier for TokenId: the UUID's 128 bits, big-endian.
#[derive(Debug, Clone, Copy, PartialEq, Eq, Structural, PartialOrd, Ord, Hash)]
pub struct TokenId(pub u128);

impl TokenId {
    /// Generates a time-sortable UUIDv7 identifier.
    pub fn new() -> (id: Self)
        ensures
            is_uuid_v7(id.0),
    {
        TokenId(fresh_uuid_v7())
    }
}

/// Strongly typed identifier for NotificationId: the UUID's 128 bits, big-endian.
#[derive(Debug, Clone, Copy, PartialEq, Eq, Structural, PartialOrd, Ord, Hash)]
pub struct NotificationId(pub u128);

impl NotificationId {
    /// Generates a time-sortable UUIDv7 identifier.
    pub fn new() -> (id: Self)
        ensures
            is_uuid_v7(id.0),
    {
        NotificationId(fresh_uuid_v7())
    }
}

/// Strongly typed identifier for WriteupId: the UUID's 128 bits, big-endian.
#[derive(Debug, Clone, Copy, PartialEq, Eq, Structural, PartialOrd, Ord, Hash)]
pub struct WriteupId(pub u128);

impl WriteupId {
    /// Generates a time-sortable UUIDv7 identifier.
    pub fn new() -> (id: Self)
        ensures
            is_uuid_v7(id.0),
    {
        WriteupId(fresh_uuid_v7())
    }
}

/// Strongly typed identifier for SurveyResponseId: the UUID's 128 bits, big-endian.
#[derive(Debug, Clone, Copy, PartialEq, Eq, Structural, PartialOrd, Ord, Hash)]
pub struct SurveyResponseId(pub u128);

impl SurveyResponseId {
    /// Generates a time-sortable UUIDv7 identifier.
    pub fn new() -> (id: Self)
        ensures
            is_uuid_v7(id.0),
    {
        SurveyResponseId(fresh_uuid_v7())
    }
}


/// Custom profile field value after schema validation.
#[derive(Debug, Clone, PartialEq, Eq)]
pub enum CustomValue {
    /// Short or long text.
    Text(String),
    /// Boolean choice.
    Boolean(bool),
    /// Integer quantity.
    Integer(i64),
    /// A selected list of stable option keys.
    Options(Vec<String>),
}

/// Root tenant boundary.
#[derive(Debug, Clone, PartialEq, Eq)]
pub struct Organization {
    /// Identifier.
    pub id: OrganizationId,
    /// Display name.
    pub name: String,
    /// URL-safe tenant key.
    pub slug: String,
    /// Creation instant.
    pub created_at: i64,
}

/// Participation policy for an event.
#[derive(Debug, Clone, Copy, PartialEq, Eq, Structural)]
pub enum ParticipationMode {
    /// Each user scores independently.
    Individual,
    /// Members score through a team.
    Team,
    /// The event permits both identities on explicitly compatible objectives.
    Hybrid,
}

/// Event lifecycle.
#[derive(Debug, Clone, Copy, PartialEq, Eq, Structural)]
pub enum EventState {
    /// Organizer-only configuration.
    Draft,
    /// Visible before its start instant.
    Scheduled,
    /// Accepting gameplay actions.
    Live,
    /// Temporarily not accepting gameplay actions.
    Paused,
    /// Immutable competition result.
    Ended,
    /// Hidden from normal navigation while retained.
    Archived,
}

/// The variant name of an event state, as its `Debug` output shows it.
pub open spec fn event_state_name(state: EventState) -> Seq<char> {
    match state {
        EventState::Draft => "Draft"@,
        EventState::Scheduled => "Scheduled"@,
        EventState::Live => "Live"@,
        EventState::Paused => "Paused"@,
        EventState::Ended => "Ended"@,
        EventState::Archived => "Archived"@,
    }
}

/// Organizer-requested lifecycle moves. Repeating the current state is
/// idempotent; ended and archived events never become writable again.
pub open spec fn event_transition_allowed(from: EventState, to: EventState) -> bool {
    ||| from == to
    ||| match (from, to) {
        (EventState::Draft, EventState::Scheduled) => true,
        (EventState::Draft, EventState::Live) => true,
        (EventState::Draft, EventState::Archived) => true,
        (EventState::Scheduled, EventState::Draft) => true,
        (EventState::Scheduled, EventState::Live) => true,
        (EventState::Scheduled, EventState::Archived) => true,
        (EventState::Live, EventState::Paused) => true,
        (EventState::Live, EventState::Ended) => true,
        (EventState::Paused, EventState::Live) => true,
        (EventState::Paused, EventState::Ended) => true,
        (EventState::Ended, EventState::Archived) => true,
        _ => false,
    }
}

impl EventState {
    /// The variant name used in lifecycle messages.
    pub fn name(self) -> (name: &'static str)
        ensures
            name@ == event_state_name(self),
    {
        proof {
            reveal_strlit("Draft");
            reveal_strlit("Scheduled");
            reveal_strlit("Live");
            reveal_strlit("Paused");
            reveal_strlit("Ended");
            reveal_strlit("Archived");
        }
        match self {
            EventState::Draft => "Draft",
            EventState::Scheduled => "Scheduled",
            EventState::Live => "Live",
            EventState::Paused => "Paused",
            EventState::Ended => "Ended",
            EventState::Archived => "Archived",
        }
    }

    /// Validates an organizer-requested lifecycle transition. Repeating the
    /// current state is idempotent; historical events never become writable.
    pub fn transition_to(self, next: Self) -> (r: DomainResult<Self>)
        ensures
            event_transition_allowed(self, next) ==> r == Ok::<Self, DomainError>(next),
            !event_transition_allowed(self, next) ==> (r matches Err(DomainError::Conflict(m))
                && m@ == "event cannot transition from "@ + event_state_name(self) + " to "@
                + event_state_name(next)),
    {
        let allowed = self == next || match (self, next) {
            (EventState::Draft, EventState::Scheduled)
            | (EventState::Draft, EventState::Live)
            | (EventState::Draft, EventState::Archived)
            | (EventState::Scheduled, EventState::Draft)
            | (EventState::Scheduled, EventState::Live)
            | (EventState::Scheduled, EventState::Archived)
            | (EventState::Live, EventState::Paused)
            | (EventState::Live, EventState::Ended)
            | (EventState::Paused, EventState::Live)
            | (EventState::Paused, EventState::Ended)
            | (EventState::Ended, EventState::Archived) => true,
            _ => false,
        };
        if allowed {
            Ok(next)
        } else {
            let message = owned("event cannot transition from ").concat(self.name()).concat(
                " to ",
            ).concat(next.name());
            Err(DomainError::Conflict(message))
        }
    }
}

/// A competition, workshop, or hybrid activity.
#[derive(Debug, Clone, PartialEq, Eq)]
pub struct Event {
    /// Identifier.
    pub id: EventId,
    /// Owning organization.
    pub organization_id: OrganizationId,
    /// Display name.
    pub name: String,
    /// URL-safe event key.
    pub slug: String,
    /// Current lifecycle state.
    pub state: EventState,
    /// Scoring identity policy.
    pub participation: ParticipationMode,
    /// Scheduled start, if any.
    pub starts_at: Option<i64>,
    /// Scheduled end, if any.
    pub ends_at: Option<i64>,
    /// Maximum team size. `None` is unlimited.
    pub team_size_limit: Option<u16>,
    /// Enabled game-mode identifiers, each listed once.
    pub modes: Vec<String>,
}

/// Whether an optional schedule puts the end at or before the start.
pub open spec fn inverted_schedule(starts_at: Option<i64>, ends_at: Option<i64>) -> bool {
    match (starts_at, ends_at) {
        (Some(start), Some(end)) => end <= start,
        _ => false,
    }
}

/// Whether an instant lies inside an optional `[start, end)` window.
pub open spec fn within_window(starts_at: Option<i64>, ends_at: Option<i64>, now: i64) -> bool {
    &&& (starts_at matches Some(start) ==> now >= start)
    &&& (ends_at matches Some(end) ==> now < end)
}

impl Event {
    /// Validates lifecycle scheduling and mode availability.
    pub fn validate(&self) -> (r: DomainResult<()>)
        ensures
            blank(self.name@) || blank(self.slug@) ==> (r matches Err(DomainError::Validation(m))
                && m@ == "event name and slug are required"@),
            !blank(self.name@) && !blank(self.slug@) && self.modes@.len() == 0 ==> (r matches Err(
                DomainError::Validation(m),
            ) && m@ == "event must enable at least one game mode"@),
            !blank(self.name@) && !blank(self.slug@) && self.modes@.len() > 0 && inverted_schedule(
                self.starts_at,
                self.ends_at,
            ) ==> (r matches Err(DomainError::Validation(m)) && m@
                == "event end must be after its start"@),
            r is Ok <==> !blank(self.name@) && !blank(self.slug@) && self.modes@.len() > 0
                && !inverted_schedule(self.starts_at, self.ends_at),
    {
        if is_blank(self.name.as_str()) || is_blank(self.slug.as_str()) {
            return Err(DomainError::Validation(owned("event name and slug are required")));
        }
        if self.modes.len() == 0 {
            return Err(DomainError::Validation(owned("event must enable at least one game mode")));
        }
        if let (Some(start), Some(end)) = (self.starts_at, self.ends_at) {
            if end <= start {
                return Err(DomainError::Validation(owned("event end must be after its start")));
            }
        }
        Ok(())
    }

    /// Returns whether gameplay is accepted at an instant.
    pub fn accepts_gameplay_at(&self, now: i64) -> (accepts: bool)
        ensures
            accepts == (self.state == EventState::Live && within_window(
                self.starts_at,
                self.ends_at,
                now,
            )),
    {
        let after_start = match self.starts_at {
            Some(start) => now >= start,
            None => true,
        };
        let before_end = match self.ends_at {
            Some(end) => now < end,
            None => true,
        };
        self.state == EventState::Live && after_start && before_end
    }
}

/// Player or operator account.
#[derive(Debug, Clone, PartialEq, Eq)]
pub struct User {
    /// Identifier.
    pub id: UserId,
    /// Owning organization.
    pub organization_id: OrganizationId,
    /// Unique normalized email.
    pub email: String,
    /// Public display name.
    pub display_name: String,
    /// Whether email ownership has been verified.
    pub email_verified: bool,
    /// Whether authentication is blocked.
    pub disabled: bool,
    /// Typed custom data, keyed by field name, each key listed once.
    pub custom_fields: Vec<(String, CustomValue)>,
    /// Account creation instant.
    pub created_at: i64,
}

/// Membership responsibilities.
#[derive(Debug, Clone, Copy, PartialEq, Eq, Structural)]
pub struct TeamMember {
    /// Member account.
    pub user_id: UserId,
    /// Captain can manage membership.
    pub captain: bool,
    /// Membership creation instant.
    pub joined_at: i64,
}

/// A player collective within an organization.
#[derive(Debug, Clone, PartialEq, Eq)]
pub struct Team {
    /// Identifier.
    pub id: TeamId,
    /// Owning organization.
    pub organization_id: OrganizationId,
    /// Display name.
    pub name: String,
    /// Join-code digest; plaintext codes are never persisted.
    pub invite_code_digest: Vec<u8>,
    /// Team membership, one entry per member.
    pub members: Vec<TeamMember>,
    /// Typed custom data, keyed by field name.
    pub custom_fields: Vec<(String, CustomValue)>,
    /// Creation instant.
    pub created_at: i64,
}

/// Whether a user appears among the members.
pub open spec fn is_member(members: Seq<TeamMember>, user: UserId) -> bool {
    exists|i: int| 0 <= i < members.len() && (#[trigger] members[i]).user_id == user
}

/// Whether any member is captain.
pub open spec fn has_captain(members: Seq<TeamMember>) -> bool {
    exists|i: int| 0 <= i < members.len() && (#[trigger] members[i]).captain
}

/// No user appears twice among the members.
pub open spec fn distinct_members(members: Seq<TeamMember>) -> bool {
    forall|i: int, j: int|
        0 <= i < j < members.len() ==> (#[trigger] members[i]).user_id != (#[trigger] members[j]).user_id
}

/// At most one member is captain.
pub open spec fn at_most_one_captain(members: Seq<TeamMember>) -> bool {
    forall|i: int, j: int|
        0 <= i < members.len() && 0 <= j < members.len() && (#[trigger] members[i]).captain
            && (#[trigger] members[j]).captain ==> i == j
}

impl Team {
    /// The membership entry of a user, if any.
    pub fn member(&self, user_id: UserId) -> (found: Option<TeamMember>)
        ensures
            found is None <==> !is_member(self.members@, user_id),
            found matches Some(m) ==> m.user_id == user_id && self.members@.contains(m),
    {
        let mut i: usize = 0;
        while i < self.members.len()
            invariant
                i <= self.members.len(),
                forall|k: int| 0 <= k < i ==> (#[trigger] self.members@[k]).user_id != user_id,
            decreases self.members.len() - i,
        {
            if self.members[i].user_id == user_id {
                return Some(self.members[i]);
            }
            i = i + 1;
        }
        None
    }

    fn any_captain(&self) -> (found: bool)
        ensures
            found == has_captain(self.members@),
    {
        let mut i: usize = 0;
        while i < self.members.len()
            invariant
                i <= self.members.len(),
                forall|k: int| 0 <= k < i ==> !(#[trigger] self.members@[k]).captain,
            decreases self.members.len() - i,
        {
            if self.members[i].captain {
                return true;
            }
            i = i + 1;
        }
        false
    }

    /// Adds a member while preserving the event's size and single-captain rules.
    pub fn add_member(&mut self, user_id: UserId, captain: bool, size_limit: Option<u16>, joined_at: i64) -> (r: DomainResult<()>)
        ensures
            is_member(old(self).members@, user_id) ==> (r matches Err(DomainError::Conflict(m)) && m@
                == "user is already a member"@),
            !is_member(old(self).members@, user_id) && (size_limit matches Some(limit)
                && old(self).members@.len() >= limit) ==> (r matches Err(
                DomainError::LimitExceeded(m),
            ) && m@ == "team size limit"@),
            !is_member(old(self).members@, user_id) && !(size_limit matches Some(limit)
                && old(self).members@.len() >= limit) && captain && has_captain(old(self).members@)
                ==> (r matches Err(DomainError::Conflict(m)) && m@ == "team already has a captain"@),
            r is Ok <==> !is_member(old(self).members@, user_id) && !(size_limit matches Some(limit)
                && old(self).members@.len() >= limit) && !(captain && has_captain(old(self).members@)),
            r is Ok ==> final(self).members@ == old(self).members@.push(
                TeamMember { user_id, captain, joined_at },
            ),
            r is Err ==> final(self).members@ == old(self).members@,
            final(self).id == old(self).id,
            final(self).organization_id == old(self).organization_id,
            final(self).name == old(self).name,
            final(self).invite_code_digest == old(self).invite_code_digest,
            final(self).custom_fields == old(self).custom_fields,
            final(self).created_at == old(self).created_at,
    {
        if self.member(user_id).is_some() {
            return Err(DomainError::Conflict(owned("user is already a member")));
        }
        if let Some(limit) = size_limit {
            if self.members.len() >= limit as usize {
                return Err(DomainError::LimitExceeded(owned("team size limit")));
            }
        }
        if captain && self.any_captain() {
            return Err(DomainError::Conflict(owned("team already has a captain")));
        }
        self.members.push(TeamMember { user_id, captain, joined_at });
        Ok(())
    }

    /// Transfers captaincy atomically to an existing member.
    pub fn transfer_captain(&mut self, target: UserId) -> (r: DomainResult<()>)
        ensures
            r is Ok <==> is_member(old(self).members@, target),
            r is Err ==> r == Err::<(), DomainError>(DomainError::NotFound) && final(self).members@
                == old(self).members@,
            final(self).members@.len() == old(self).members@.len(),
            r is Ok ==> final(self).members@ == captain_transferred(old(self).members@, target),
            final(self).id == old(self).id,
            final(self).organization_id == old(self).organization_id,
            final(self).name == old(self).name,
            final(self).invite_code_digest == old(self).invite_code_digest,
            final(self).custom_fields == old(self).custom_fields,
            final(self).created_at == old(self).created_at,
    {
        if self.member(target).is_none() {
            return Err(DomainError::NotFound);
        }
        let ghost before = self.members@;
        let mut i: usize = 0;
        while i < self.members.len()
            invariant
                i <= self.members.len(),
                self.members@.len() == before.len(),
                forall|k: int|
                    0 <= k < i ==> (#[trigger] self.members@[k]) == (TeamMember {
                        captain: before[k].user_id == target,
                        ..before[k]
                    }),
                forall|k: int| i <= k < before.len() ==> (#[trigger] self.members@[k]) == before[k],
                self.id == old(self).id,
                self.organization_id == old(self).organization_id,
                self.name == old(self).name,
                self.invite_code_digest == old(self).invite_code_digest,
                self.custom_fields == old(self).custom_fields,
                self.created_at == old(self).created_at,
            decreases self.members.len() - i,
        {
            let mut member = self.members[i];
            member.captain = member.user_id == target;
            self.members.set(i, member);
            i = i + 1;
        }
        assert(self.members@ =~= captain_transferred(before, target));
        Ok(())
    }
}

/// The membership after handing captaincy to `target`: every member keeps
/// its entry, and exactly the entries of `target` are captain.
pub open spec fn captain_transferred(members: Seq<TeamMember>, target: UserId) -> Seq<TeamMember> {
    Seq::new(
        members.len(),
        |i: int| TeamMember { captain: members[i].user_id == target, ..members[i] },
    )
}

/// Captain transfer preserves exactly one captain: on a team whose members
/// are distinct, handing captaincy to a member leaves that member as the
/// only captain.
pub proof fn lemma_transfer_leaves_one_captain(members: Seq<TeamMember>, target: UserId)
    requires
        distinct_members(members),
        is_member(members, target),
    ensures
        has_captain(captain_transferred(members, target)),
        at_most_one_captain(captain_transferred(members, target)),
        forall|i: int|
            0 <= i < members.len() && (#[trigger] captain_transferred(members, target)[i]).captain
                ==> members[i].user_id == target,
        distinct_members(captain_transferred(members, target)),
{
    let after = captain_transferred(members, target);
    let k = choose|k: int| 0 <= k < members.len() && (#[trigger] members[k]).user_id == target;
    assert(after[k].captain);
    assert forall|i: int, j: int|
        0 <= i < after.len() && 0 <= j < after.len() && (#[trigger] after[i]).captain
            && (#[trigger] after[j]).captain implies i == j by {
        if i < j {
            assert(members[i].user_id != members[j].user_id);
        } else if j < i {
            assert(members[j].user_id != members[i].user_id);
        }
    }
    assert forall|i: int, j: int| 0 <= i < j < after.len() implies (#[trigger] after[i]).user_id
        != (#[trigger] after[j]).user_id by {
        assert(members[i].user_id != members[j].user_id);
    }
}

/// Adding a member keeps the team's rules: members stay distinct and there
/// is never more than one captain.
pub proof fn lemma_add_member_keeps_team_rules(
    members: Seq<TeamMember>,
    user_id: UserId,
    captain: bool,
    joined_at: i64,
)
    requires
        distinct_members(members),
        at_most_one_captain(members),
        !is_member(members, user_id),
        !(captain && has_captain(members)),
    ensures
        distinct_members(members.push(TeamMember { user_id, captain, joined_at })),
        at_most_one_captain(members.push(TeamMember { user_id, captain, joined_at })),
{
    let m = TeamMember { user_id, captain, joined_at };
    let after = members.push(m);
    assert forall|i: int, j: int| 0 <= i < j < after.len() implies (#[trigger] after[i]).user_id
        != (#[trigger] after[j]).user_id by {
        if j == members.len() {
            assert(after[i] == members[i]);
        } else {
            assert(after[i] == members[i] && after[j] == members[j]);
        }
    }
    assert forall|i: int, j: int|
        0 <= i < after.len() && 0 <= j < after.len() && (#[trigger] after[i]).captain
            && (#[trigger] after[j]).captain implies i == j by {
        if i == members.len() && j < members.len() {
            assert(after[j] == members[j]);
        } else if j == members.len() && i < members.len() {
            assert(after[i] == members[i]);
        } else if i < members.len() && j < members.len() {
            assert(after[i] == members[i] && after[j] == members[j]);
        }
    }
}

/// Scoreboard classification such as student or professional.
#[derive(Debug, Clone, PartialEq, Eq)]
pub struct Division {
    /// Identifier.
    pub id: DivisionId,
    /// Event boundary.
    pub event_id: EventId,
    /// Display name.
    pub name: String,
    /// Stable ordering.
    pub position: i32,
}

/// Tournament grouping and advancement policy.
#[derive(Debug, Clone, PartialEq, Eq)]
pub struct Bracket {
    /// Identifier.
    pub id: BracketId,
    /// Event boundary.
    pub event_id: EventId,
    /// Display name.
    pub name: String,
    /// Number of entrants advanced from this bracket.
    pub advancement_slots: u16,
}

} // verus!
