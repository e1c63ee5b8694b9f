//! Versioned events emitted for every meaningful state transition.

use vstd::prelude::*;

use crate::identity::{
    fresh_uuid_v7, ChallengeId, EventId, FlowId, InstanceId, NotificationId, OrganizationId,
    SubmissionId, SurveyResponseId, TeamId, UserId, WriteupId,
};
use crate::scoring::CompetitorId;

verus! {

/// Immutable event envelope used by local and durable buses.
#[derive(Debug, Clone, PartialEq)]
pub struct EventEnvelope {
    /// Globally unique idempotency key (UUID bits).
    pub id: u128,
    /// Schema version for the event payload.
    pub schema_version: u16,
    /// Owning organization, absent only for pre-tenant platform events such as
    /// a failed login against an unknown organization key.
    pub organization_id: Option<OrganizationId>,
    /// Optional event scope.
    pub event_id: Option<EventId>,
    /// Correlation ID spanning a command and its effects (UUID bits).
    pub correlation_id: u128,
    /// Actor, absent for system ticks.
    pub actor_id: Option<UserId>,
    /// Authoritative occurrence instant, microseconds since the Unix epoch.
    pub occurred_at: i64,
    /// Typed event body.
    pub event: DomainEvent,
}

impl EventEnvelope {
    /// Wraps a domain event in a v1 envelope with a fresh identifier.
    pub fn new(
        organization_id: OrganizationId,
        event_id: Option<EventId>,
        actor_id: Option<UserId>,
        correlation_id: u128,
        occurred_at: i64,
        event: DomainEvent,
    ) -> (envelope: Self)
        ensures
            envelope.schema_version == 1,
            envelope.organization_id == Some(organization_id),
            envelope.event_id == event_id,
            envelope.correlation_id == correlation_id,
            envelope.actor_id == actor_id,
            envelope.occurred_at == occurred_at,
            envelope.event == event,
    {
        EventEnvelope {
            id: fresh_uuid_v7(),
            schema_version: 1,
            organization_id: Some(organization_id),
            event_id,
            correlation_id,
            actor_id,
            occurred_at,
            event,
        }
    }

    /// Wraps a pre-tenant platform event without inventing an organization ID.
    pub fn new_platform(correlation_id: u128, occurred_at: i64, event: DomainEvent) -> (envelope: Self)
        ensures
            envelope.schema_version == 1,
            envelope.organization_id is None,
            envelope.event_id is None,
            envelope.correlation_id == correlation_id,
            envelope.actor_id is None,
            envelope.occurred_at == occurred_at,
            envelope.event == event,
    {
        EventEnvelope {
            id: fresh_uuid_v7(),
            schema_version: 1,
            organization_id: None,
            event_id: None,
            correlation_id,
            actor_id: None,
            occurred_at,
            event,
        }
    }

    /// Stable dotted event key used for subscriptions and automation triggers.
    pub fn kind(&self) -> (key: &'static str)
        ensures
            key@ == event_kind(self.event),
    {
        self.event.kind()
    }
}

/// Public event schema. Variants carry identifiers rather than secrets.
#[derive(Debug, Clone, PartialEq)]
pub enum DomainEvent {
    /// User identity created.
    UserCreated { user_id: UserId },
    /// Successful authentication.
    AuthenticationSucceeded { user_id: UserId, method: String },
    /// Failed authentication, deliberately without credential material.
    AuthenticationFailed {
        identity_hint: String,
        method: String,
    },
    /// Programmatic API credential lifecycle changed.
    ApiTokenChanged { token_id: u128, state: String },
    /// OAuth2 confidential-client lifecycle changed.
    OAuthClientChanged { client_id: u128, state: String },
    /// OpenID Connect provider lifecycle changed.
    OidcProviderChanged { provider_id: u128, state: String },
    /// SAML identity-provider lifecycle changed.
    SamlProviderChanged { provider_id: u128, state: String },
    /// Account-owned passkey lifecycle changed.
    PasskeyChanged { credential_id: u128, state: String },
    /// Event lifecycle or configuration changed.
    EventChanged { event_id: EventId },
    /// Team created.
    TeamCreated { team_id: TeamId },
    /// Team membership changed.
    TeamMembershipChanged { team_id: TeamId, user_id: UserId },
    /// Challenge lifecycle/configuration changed.
    ChallengeChanged { challenge_id: ChallengeId },
    /// A competitor revealed a hint and paid its one-time cost.
    HintUnlocked {
        challenge_id: ChallengeId,
        hint_id: u32,
        competitor: CompetitorId,
    },
    /// Player writeup draft or organizer review state changed.
    WriteupChanged {
        writeup_id: WriteupId,
        challenge_id: ChallengeId,
        state: String,
    },
    /// A competitor submitted or updated a post-solve survey.
    SurveySubmitted {
        response_id: SurveyResponseId,
        challenge_id: ChallengeId,
        competitor: CompetitorId,
    },
    /// Submission recorded.
    SubmissionReceived {
        submission_id: SubmissionId,
        challenge_id: ChallengeId,
        competitor: CompetitorId,
        outcome: SubmissionOutcome,
    },
    /// An organizer accepted or discarded a pending manual submission.
    SubmissionReviewed {
        submission_id: SubmissionId,
        challenge_id: ChallengeId,
        competitor: CompetitorId,
        accepted: bool,
    },
    /// First valid solve.
    FirstBlood {
        challenge_id: ChallengeId,
        competitor: CompetitorId,
    },
    /// Score ledger changed.
    ScoreChanged {
        competitor: CompetitorId,
        delta: i64,
    },
    /// Scoreboard visibility/freeze changed.
    ScoreboardControlChanged { frozen: bool, hidden: bool },
    /// KotH scoring tick completed.
    KothTickCompleted { tick: u64 },
    /// A&D tick completed.
    AttackDefenseTickCompleted { tick: u64 },
    /// Orchestrated instance lifecycle changed.
    InstanceChanged {
        instance_id: InstanceId,
        state: String,
    },
    /// Instance flag rotated; the secret value is never included.
    FlagRotated { instance_id: InstanceId, tick: u64 },
    /// Automation version activated.
    AutomationActivated { flow_id: FlowId, version: u32 },
    /// Automation execution completed.
    AutomationExecuted {
        flow_id: FlowId,
        version: u32,
        success: bool,
    },
    /// Operator configuration changed.
    ConfigurationChanged { keys: Vec<String> },
    /// Notification created.
    NotificationCreated { notification_id: NotificationId },
    /// Plugin lifecycle or grants changed.
    PluginChanged { plugin: String, state: String },
    /// Security/integrity review signal.
    IntegritySignal { signal: String, severity: u8 },
}

/// The stable dotted key of each event.
pub open spec fn event_kind(event: DomainEvent) -> Seq<char> {
    match event {
        DomainEvent::UserCreated { .. } => "identity.user.created"@,
        DomainEvent::AuthenticationSucceeded { .. } => "auth.succeeded"@,
        DomainEvent::AuthenticationFailed { .. } => "auth.failed"@,
        DomainEvent::ApiTokenChanged { .. } => "auth.api_token.changed"@,
        DomainEvent::OAuthClientChanged { .. } => "auth.oauth_client.changed"@,
        DomainEvent::OidcProviderChanged { .. } => "auth.oidc_provider.changed"@,
        DomainEvent::SamlProviderChanged { .. } => "auth.saml_provider.changed"@,
        DomainEvent::PasskeyChanged { .. } => "auth.passkey.changed"@,
        DomainEvent::EventChanged { .. } => "event.changed"@,
        DomainEvent::TeamCreated { .. } => "identity.team.created"@,
        DomainEvent::TeamMembershipChanged { .. } => "identity.team.membership_changed"@,
        DomainEvent::ChallengeChanged { .. } => "challenge.changed"@,
        DomainEvent::HintUnlocked { .. } => "challenge.hint.unlocked"@,
        DomainEvent::WriteupChanged { .. } => "challenge.writeup.changed"@,
        DomainEvent::SurveySubmitted { .. } => "challenge.survey.submitted"@,
        DomainEvent::SubmissionReceived { .. } => "submission.received"@,
        DomainEvent::SubmissionReviewed { .. } => "submission.reviewed"@,
        DomainEvent::FirstBlood { .. } => "submission.first_blood"@,
        DomainEvent::ScoreChanged { .. } => "score.changed"@,
        DomainEvent::ScoreboardControlChanged { .. } => "scoreboard.control_changed"@,
        DomainEvent::KothTickCompleted { .. } => "koth.tick.completed"@,
        DomainEvent::AttackDefenseTickCompleted { .. } => "attack_defense.tick.completed"@,
        DomainEvent::InstanceChanged { .. } => "instance.changed"@,
        DomainEvent::FlagRotated { .. } => "instance.flag_rotated"@,
        DomainEvent::AutomationActivated { .. } => "automation.activated"@,
        DomainEvent::AutomationExecuted { .. } => "automation.executed"@,
        DomainEvent::ConfigurationChanged { .. } => "configuration.changed"@,
        DomainEvent::NotificationCreated { .. } => "notification.created"@,
        DomainEvent::PluginChanged { .. } => "plugin.changed"@,
        DomainEvent::IntegritySignal { .. } => "integrity.signal"@,
    }
}

impl DomainEvent {
    /// Stable key independent of serialization details.
    pub fn kind(&self) -> (key: &'static str)
        ensures
            key@ == event_kind(*self),
    {
        match self {
            DomainEvent::UserCreated { .. } => "identity.user.created",
            DomainEvent::AuthenticationSucceeded { .. } => "auth.succeeded",
            DomainEvent::AuthenticationFailed { .. } => "auth.failed",
            DomainEvent::ApiTokenChanged { .. } => "auth.api_token.changed",
            DomainEvent::OAuthClientChanged { .. } => "auth.oauth_client.changed",
            DomainEvent::OidcProviderChanged { .. } => "auth.oidc_provider.changed",
            DomainEvent::SamlProviderChanged { .. } => "auth.saml_provider.changed",
            DomainEvent::PasskeyChanged { .. } => "auth.passkey.changed",
            DomainEvent::EventChanged { .. } => "event.changed",
            DomainEvent::TeamCreated { .. } => "identity.team.created",
            DomainEvent::TeamMembershipChanged { .. } => "identity.team.membership_changed",
            DomainEvent::ChallengeChanged { .. } => "challenge.changed",
            DomainEvent::HintUnlocked { .. } => "challenge.hint.unlocked",
            DomainEvent::WriteupChanged { .. } => "challenge.writeup.changed",
            DomainEvent::SurveySubmitted { .. } => "challenge.survey.submitted",
            DomainEvent::SubmissionReceived { .. } => "submission.received",
            DomainEvent::SubmissionReviewed { .. } => "submission.reviewed",
            DomainEvent::FirstBlood { .. } => "submission.first_blood",
            DomainEvent::ScoreChanged { .. } => "score.changed",
            DomainEvent::ScoreboardControlChanged { .. } => "scoreboard.control_changed",
            DomainEvent::KothTickCompleted { .. } => "koth.tick.completed",
            DomainEvent::AttackDefenseTickCompleted { .. } => "attack_defense.tick.completed",
            DomainEvent::InstanceChanged { .. } => "instance.changed",
            DomainEvent::FlagRotated { .. } => "instance.flag_rotated",
            DomainEvent::AutomationActivated { .. } => "automation.activated",
            DomainEvent::AutomationExecuted { .. } => "automation.executed",
            DomainEvent::ConfigurationChanged { .. } => "configuration.changed",
            DomainEvent::NotificationCreated { .. } => "notification.created",
            DomainEvent::PluginChanged { .. } => "plugin.changed",
            DomainEvent::IntegritySignal { .. } => "integrity.signal",
        }
    }
}

/// Stable submission result for API, audit, event, and integration consumers.
#[derive(Debug, Clone, Copy, PartialEq, Eq, Structural)]
pub enum SubmissionOutcome {
    /// Accepted correct solution.
    Correct,
    /// Rejected solution.
    Incorrect,
    /// Partial credit or checker result.
    Partial,
    /// Queued for manual verification.
    Pending,
    /// Organizer discarded it.
    Discarded,
    /// Attempt budget was exceeded.
    RateLimited,
    /// Attack flag belongs to the submitting team.
    OwnFlag,
    /// Attack flag was previously accepted.
    Duplicate,
    /// Rotating flag is outside its validity window.
    Expired,
}

} // verus!
