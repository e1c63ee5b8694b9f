use kitsune::authz::{AuthorizationTarget, GrantScope, Permission, Role, RoleGrant, is_allowed};
use kitsune::challenge::{
    AnswerOutcome, AnswerRule, SurveyQuestion, WriteupState, validate_survey_answers,
};
use kitsune::config::{BrandingConfig, Entitlements, FeatureFlags, RuntimeProfile};
use kitsune::identity::{
    EventId, EventState, Event, OrganizationId, ParticipationMode, Team, TeamId, UserId,
};
use kitsune::instances::InstanceState;
use kitsune::scoring::{
    CompetitorId, ScoreEntry, ScoreReason, ScoringRule, ScoringStrategy, scoreboard,
};
use kitsune::DomainError;

#[test]
fn event_grant_does_not_escape_its_event() {
    let user = UserId::new();
    let organization = OrganizationId::new();
    let event = EventId::new();
    let grant = RoleGrant {
        user_id: user,
        role: Role::organizer(),
        scope: GrantScope {
            organization_id: organization,
            event_id: Some(event),
            team_id: None,
        },
    };
    assert!(is_allowed(
        user,
        std::slice::from_ref(&grant),
        Permission::ChallengeManage,
        AuthorizationTarget {
            organization_id: organization,
            event_id: Some(event),
            team_id: None,
        }
    ));
    assert!(!is_allowed(
        user,
        &[grant],
        Permission::ChallengeManage,
        AuthorizationTarget {
            organization_id: organization,
            event_id: Some(EventId::new()),
            team_id: None,
        }
    ));
}

#[test]
fn player_role_cannot_manage_challenges() {
    let user = UserId::new();
    let organization = OrganizationId::new();
    let grant = RoleGrant {
        user_id: user,
        role: Role::player(),
        scope: GrantScope { organization_id: organization, event_id: None, team_id: None },
    };
    let target = AuthorizationTarget { organization_id: organization, event_id: None, team_id: None };
    assert!(is_allowed(user, std::slice::from_ref(&grant), Permission::ChallengeRead, target));
    assert!(!is_allowed(user, std::slice::from_ref(&grant), Permission::ChallengeManage, target));
    assert!(!is_allowed(UserId::new(), &[grant], Permission::ChallengeRead, target));
}

#[test]
fn exact_flags_are_trimmed_and_optionally_case_insensitive() {
    let rule = AnswerRule::exact("FOX{Spark}", true);
    assert_eq!(
        rule.evaluate("  fox{spark}  ").expect("evaluate"),
        AnswerOutcome::Correct
    );
    assert!(!format!("{rule:?}").contains("FOX{Spark}"));
}

#[test]
fn exact_flags_respect_case_when_sensitive() {
    let rule = AnswerRule::exact("FOX{Spark}", false);
    assert_eq!(rule.evaluate("fox{spark}").expect("evaluate"), AnswerOutcome::Incorrect);
    assert_eq!(rule.evaluate(" FOX{Spark}\n").expect("evaluate"), AnswerOutcome::Correct);
}

#[test]
fn regex_flags_are_anchorable_and_bounded() {
    let rule = AnswerRule::Regex {
        pattern: r"^kit\{[0-9]{3}\}$".into(),
        case_insensitive: false,
    };
    assert_eq!(
        rule.evaluate("kit{123}").expect("evaluate"),
        AnswerOutcome::Correct
    );
    assert_eq!(
        rule.evaluate("xkit{123}").expect("evaluate"),
        AnswerOutcome::Incorrect
    );
}

#[test]
fn invalid_and_oversized_patterns_are_refused() {
    let broken = AnswerRule::Regex { pattern: "kit{(".into(), case_insensitive: false };
    match broken.validate() {
        Err(DomainError::Validation(message)) => assert!(message.starts_with("invalid regex: ")),
        other => panic!("unexpected {other:?}"),
    }
    let oversized = AnswerRule::Regex { pattern: "a".repeat(2049), case_insensitive: false };
    assert_eq!(oversized.validate(), Err(DomainError::Validation("regex is too large".into())));
    assert!(oversized.evaluate("a").is_err());
}

#[test]
fn manual_and_dynamic_rules_defer_the_decision() {
    assert_eq!(AnswerRule::Manual.evaluate("anything").expect("evaluate"), AnswerOutcome::PendingReview);
    assert_eq!(
        AnswerRule::Dynamic.evaluate("anything").expect("evaluate"),
        AnswerOutcome::RequiresDynamicVerification
    );
    let choice = AnswerRule::Choice { value: "B".into() };
    assert_eq!(choice.evaluate("B").expect("evaluate"), AnswerOutcome::Correct);
    assert_eq!(choice.evaluate(" B").expect("evaluate"), AnswerOutcome::Incorrect);
}

#[test]
fn writeup_lifecycle_separates_author_and_reviewer_control() {
    assert_eq!(
        WriteupState::Draft.author_transition(true),
        Ok(WriteupState::Submitted)
    );
    assert_eq!(
        WriteupState::Submitted.review_transition(WriteupState::Approved),
        Ok(WriteupState::Approved)
    );
    assert_eq!(
        WriteupState::Approved.review_transition(WriteupState::Published),
        Ok(WriteupState::Published)
    );
    assert!(WriteupState::Submitted.author_transition(false).is_err());
    assert!(
        WriteupState::Submitted
            .review_transition(WriteupState::Published)
            .is_err()
    );
}

#[test]
fn survey_validation_enforces_schema_and_ranges() {
    let questions = vec![SurveyQuestion {
        key: "difficulty".into(),
        prompt: "How difficult?".into(),
        range: Some((1, 5)),
        required: true,
    }];
    assert!(validate_survey_answers(&questions, &[]).is_err());
    assert!(validate_survey_answers(&questions, &[("difficulty".into(), 6)]).is_err());
    assert!(validate_survey_answers(&questions, &[("difficulty".into(), 4)]).is_ok());
}

#[test]
fn survey_validation_names_the_problem() {
    let questions = vec![SurveyQuestion {
        key: "difficulty".into(),
        prompt: "How difficult?".into(),
        range: Some((1, 5)),
        required: true,
    }];
    assert_eq!(
        validate_survey_answers(&questions, &[]),
        Err(DomainError::Validation("survey question 'difficulty' is required".into()))
    );
    assert_eq!(
        validate_survey_answers(&questions, &[("difficulty".into(), 6)]),
        Err(DomainError::Validation("survey answer 'difficulty' must be between 1 and 5".into()))
    );
    assert!(validate_survey_answers(&questions, &[("unknown".into(), 1), ("difficulty".into(), 3)]).is_err());
}

#[test]
fn debranding_is_free_but_nudged_without_entitlement() {
    let branding = BrandingConfig {
        enabled: false,
        ..BrandingConfig::default()
    };
    assert!(branding.show_support_nudge(&Entitlements::default()));
    assert!(!branding.show_support_nudge(&Entitlements { white_label: true }));
}

#[test]
fn custom_logo_requires_white_label() {
    let branding = BrandingConfig {
        custom_logo_url: Some("https://cdn.example.test/logo.svg".into()),
        ..BrandingConfig::default()
    };
    assert_eq!(branding.effective_custom_logo(&Entitlements::default()), None);
    assert_eq!(
        branding.effective_custom_logo(&Entitlements { white_label: true }),
        Some("https://cdn.example.test/logo.svg")
    );
}

#[test]
fn lean_profile_enables_only_jeopardy() {
    let flags = FeatureFlags::for_profile(RuntimeProfile::Lean);
    assert!(flags.jeopardy);
    assert!(!flags.koth && !flags.attack_defense && !flags.workshop);
    assert_eq!(FeatureFlags::default(), flags);
}

fn team() -> Team {
    Team {
        id: TeamId::new(),
        organization_id: OrganizationId::new(),
        name: "Foxes".into(),
        invite_code_digest: vec![1],
        members: Vec::new(),
        custom_fields: Vec::new(),
        created_at: 1_700_000_000_000_000,
    }
}

#[test]
fn captain_transfer_preserves_exactly_one_captain() {
    let first = UserId::new();
    let second = UserId::new();
    let mut team = team();
    team.add_member(first, true, Some(2), 1_700_000_000_000_000)
        .expect("first member");
    team.add_member(second, false, Some(2), 1_700_000_000_000_001)
        .expect("second member");
    team.transfer_captain(second).expect("transfer");
    assert!(!team.member(first).expect("first").captain);
    assert!(team.member(second).expect("second").captain);
}

#[test]
fn team_membership_respects_size_and_uniqueness() {
    let first = UserId::new();
    let mut team = team();
    team.add_member(first, true, Some(1), 1).expect("first member");
    assert!(team.add_member(first, false, Some(3), 2).is_err());
    assert!(team.add_member(UserId::new(), false, Some(1), 3).is_err());
    assert!(team.transfer_captain(UserId::new()).is_err());
    assert_eq!(team.members.len(), 1);
}

fn night_hunt(starts_at: Option<i64>, ends_at: Option<i64>) -> Event {
    Event {
        id: EventId::new(),
        organization_id: OrganizationId::new(),
        name: "Night Hunt".into(),
        slug: "night-hunt".into(),
        state: EventState::Scheduled,
        participation: ParticipationMode::Team,
        starts_at,
        ends_at,
        team_size_limit: Some(4),
        modes: vec!["jeopardy".into()],
    }
}

#[test]
fn event_rejects_inverted_schedule() {
    let now = 1_700_000_000_000_000;
    let event = night_hunt(Some(now), Some(now));
    assert!(event.validate().is_err());
}

#[test]
fn event_accepts_gameplay_only_while_live_in_window() {
    let mut event = night_hunt(Some(100), Some(200));
    assert!(event.validate().is_ok());
    assert!(!event.accepts_gameplay_at(150));
    event.state = EventState::Live;
    assert!(event.accepts_gameplay_at(100));
    assert!(event.accepts_gameplay_at(199));
    assert!(!event.accepts_gameplay_at(200));
    assert!(!event.accepts_gameplay_at(99));
}

#[test]
fn event_lifecycle_prevents_reopening_history() {
    assert_eq!(
        EventState::Draft.transition_to(EventState::Live),
        Ok(EventState::Live)
    );
    assert_eq!(
        EventState::Paused.transition_to(EventState::Live),
        Ok(EventState::Live)
    );
    assert!(EventState::Ended.transition_to(EventState::Live).is_err());
    assert!(
        EventState::Archived
            .transition_to(EventState::Draft)
            .is_err()
    );
}

#[test]
fn event_transition_error_names_both_states() {
    assert_eq!(
        EventState::Ended.transition_to(EventState::Live),
        Err(DomainError::Conflict("event cannot transition from Ended to Live".into()))
    );
}

#[test]
fn lifecycle_requires_cleanup_before_deletion() {
    assert_eq!(
        InstanceState::Ready.transition(InstanceState::Unhealthy),
        Ok(InstanceState::Unhealthy)
    );
    assert!(
        InstanceState::Ready
            .transition(InstanceState::Deleted)
            .is_err()
    );
    assert_eq!(
        InstanceState::Stopping.transition(InstanceState::Deleted),
        Ok(InstanceState::Deleted)
    );
}

#[test]
fn instance_keys_and_flag_acceptance() {
    assert_eq!(InstanceState::Ready.as_str(), "ready");
    assert_eq!(InstanceState::Failed.as_str(), "failed");
    assert!(InstanceState::Ready.accepts_flags());
    assert!(InstanceState::Unhealthy.accepts_flags());
    assert!(!InstanceState::Stopping.accepts_flags());
}

#[test]
fn dynamic_decay_is_monotonic_and_floored() {
    let scoring = ScoringRule::Dynamic {
        initial: 500,
        minimum: 100,
        decay: 50,
    };
    let values: Vec<_> = (0..=100)
        .map(|solves| scoring.solve_value(solves).expect("score"))
        .collect();
    assert_eq!(values[0], 500);
    assert_eq!(values[50], 100);
    assert_eq!(values[100], 100);
    assert!(values.windows(2).all(|pair| pair[0] >= pair[1]));
}

#[test]
fn dynamic_decay_follows_a_quadratic_curve() {
    let scoring = ScoringRule::Dynamic { initial: 500, minimum: 100, decay: 50 };
    assert_eq!(scoring.solve_value(25), Ok(400));
    assert_eq!(scoring.solve_value(10), Ok(484));
    assert_eq!(scoring.solve_value(1), Ok(500));
    assert_eq!(ScoringRule::Static { points: 42 }.solve_value(7), Ok(42));
}

#[test]
fn invalid_scoring_rules_are_refused() {
    let inverted = ScoringRule::Dynamic { initial: 100, minimum: 500, decay: 50 };
    assert!(inverted.validate().is_err());
    assert!(inverted.solve_value(0).is_err());
    let plugin = ScoringRule::Plugin { plugin: "p".into(), strategy: "s".into() };
    assert!(matches!(plugin.solve_value(0), Err(DomainError::Unavailable(_))));
}

fn adjustment(competitor: CompetitorId, event: EventId, sequence: u64, points: i64, at: i64) -> ScoreEntry {
    ScoreEntry {
        event_id: event,
        competitor,
        division_id: None,
        sequence,
        points,
        reason: ScoreReason::Adjustment {
            reason: "test".into(),
        },
        occurred_at: at,
        hidden_by_freeze: false,
    }
}

#[test]
fn tie_break_prefers_earliest_to_reach() {
    let event = EventId::new();
    let early = CompetitorId::User(UserId::new());
    let late = CompetitorId::User(UserId::new());
    let now = 1_700_000_000_000_000;
    let entries = vec![
        adjustment(late, event, 2, 100, now + 1_000_000),
        adjustment(early, event, 1, 100, now),
    ];
    assert_eq!(scoreboard(&entries, None, true)[0].competitor, early);
}

#[test]
fn scoreboard_ranks_by_total_and_hides_frozen_entries() {
    let event = EventId::new();
    let leader = CompetitorId::Team(TeamId::new());
    let other = CompetitorId::Team(TeamId::new());
    let mut frozen = adjustment(other, event, 3, 500, 30);
    frozen.hidden_by_freeze = true;
    let entries = vec![adjustment(leader, event, 1, 300, 10), adjustment(other, event, 2, 200, 20), frozen];
    let public = scoreboard(&entries, None, false);
    assert_eq!(public.len(), 2);
    assert_eq!(public[0].competitor, leader);
    assert_eq!(public[0].score, 300);
    assert_eq!(public[1].score, 200);
    let organizer = scoreboard(&entries, None, true);
    assert_eq!(organizer[0].competitor, other);
    assert_eq!(organizer[0].score, 700);
    assert_eq!(organizer[0].reached_at, 30);
}
