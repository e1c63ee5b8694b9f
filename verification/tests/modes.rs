use std::collections::BTreeMap;

use kitsune::challenge::{
    AnswerRule, Challenge, ChallengeKind, ChallengeState, Hint, VisibilityRule,
};
use kitsune::events::SubmissionOutcome;
use kitsune::identity::{ChallengeId, EventId, ObjectiveId, OrganizationId, SubmissionId, TeamId, UserId};
use kitsune::modes::attack_defense::{
    AttackDefenseMode, AttackDefenseService, AttackDefenseState, CheckerResult, FlagClaim,
    FlagIssuer,
};
use kitsune::modes::jeopardy::{JeopardyCommand, JeopardyMode, JeopardyState};
use kitsune::modes::koth::{KothMode, KothObjective, KothState};
use kitsune::modes::workshop::{WorkshopMode, WorkshopState};
use kitsune::scoring::{CompetitorId, ScoreReason, ScoringRule};
use kitsune::DomainError;
use base64::Engine;
use sha2::Digest;

fn challenge(event_id: EventId) -> (Challenge, Vec<AnswerRule>) {
    let challenge = Challenge {
        id: ChallengeId::new(),
        event_id,
        name: "Foxfire".into(),
        category: "crypto".into(),
        description: "Recover the spark".into(),
        kind: ChallengeKind::StaticFlag,
        state: ChallengeState::Published,
        scoring: ScoringRule::Dynamic {
            initial: 500,
            minimum: 100,
            decay: 50,
        },
        visibility: VisibilityRule::default(),
        tags: Vec::new(),
        hints: vec![Hint {
            id: 1,
            content: "Watch the nonce".into(),
            cost: 10,
        }],
        max_attempts: Some(3),
        writeups_enabled: true,
        survey: Vec::new(),
    };
    let answers = vec![AnswerRule::exact("KIT{spark}", false)];
    (challenge, answers)
}

const NOW: i64 = 1_700_000_000_000_000;

#[test]
fn jeopardy_awards_first_blood_once() {
    let event = EventId::new();
    let (challenge, answers) = challenge(event);
    let id = challenge.id;
    let mut state = JeopardyState::default();
    state
        .apply(
            event,
            JeopardyCommand::UpsertChallenge { challenge, answers },
            NOW,
        )
        .expect("author");
    let first = state
        .apply(
            event,
            JeopardyCommand::Submit {
                competitor: CompetitorId::Team(TeamId::new()),
                challenge_id: id,
                answer: "KIT{spark}".into(),
                division: None,
                score_sequence: 1,
                first_blood_bonus: 25,
            },
            NOW,
        )
        .expect("submit");
    let second = state
        .apply(
            event,
            JeopardyCommand::Submit {
                competitor: CompetitorId::Team(TeamId::new()),
                challenge_id: id,
                answer: "KIT{spark}".into(),
                division: None,
                score_sequence: 3,
                first_blood_bonus: 25,
            },
            NOW,
        )
        .expect("submit");
    assert!(first.first_blood);
    assert_eq!(first.scores.len(), 2);
    assert!(!second.first_blood);
    assert_eq!(second.scores.len(), 1);
}

#[test]
fn jeopardy_counts_failures_and_refuses_repeat_solves() {
    let event = EventId::new();
    let (challenge, answers) = challenge(event);
    let id = challenge.id;
    let mut state = JeopardyState::default();
    state.apply(event, JeopardyCommand::UpsertChallenge { challenge, answers }, NOW).expect("author");
    let team = CompetitorId::Team(TeamId::new());
    let submit = |answer: &str| JeopardyCommand::Submit {
        competitor: team,
        challenge_id: id,
        answer: answer.into(),
        division: None,
        score_sequence: 10,
        first_blood_bonus: 0,
    };
    let wrong = state.apply(event, submit("KIT{nope}"), NOW).expect("wrong");
    assert_eq!(wrong.outcome, Some(SubmissionOutcome::Incorrect));
    assert!(wrong.scores.is_empty());
    let right = state.apply(event, submit("KIT{spark}"), NOW).expect("right");
    assert_eq!(right.outcome, Some(SubmissionOutcome::Correct));
    assert_eq!(right.scores[0].points, 500);
    assert!(matches!(state.apply(event, submit("KIT{spark}"), NOW), Err(DomainError::Conflict(_))));
}

#[test]
fn jeopardy_hint_is_unlocked_once() {
    let event = EventId::new();
    let (challenge, answers) = challenge(event);
    let id = challenge.id;
    let mut state = JeopardyState::default();
    state.apply(event, JeopardyCommand::UpsertChallenge { challenge, answers }, NOW).expect("author");
    let team = CompetitorId::Team(TeamId::new());
    let unlock = JeopardyCommand::UnlockHint { competitor: team, challenge_id: id, hint_id: 1, score_sequence: 7 };
    let first = state.apply(event, unlock.clone(), NOW).expect("unlock");
    assert_eq!(first.scores.len(), 1);
    assert_eq!(first.scores[0].points, -10);
    assert_eq!(first.scores[0].reason, ScoreReason::Hint { challenge_id: id, hint_id: 1 });
    assert_eq!(
        state.apply(event, unlock, NOW),
        Err(DomainError::Conflict("hint already unlocked".into()))
    );
}

#[test]
fn jeopardy_public_state_drops_answer_rules() {
    let event = EventId::new();
    let (challenge, answers) = challenge(event);
    let mut state = JeopardyState::default();
    state.apply(event, JeopardyCommand::UpsertChallenge { challenge, answers }, NOW).expect("author");
    assert_eq!(state.answers.len(), 1);
    let public = JeopardyMode.public_state(state);
    assert!(public.answers.is_empty());
    assert_eq!(public.challenges.len(), 1);
    assert_eq!(JeopardyMode.key(), "jeopardy");
    assert_eq!(JeopardyMode.admin_controls(), vec!["publish", "hide", "freeze", "unfreeze", "recalculate"]);
    assert_eq!(
        JeopardyMode.refuse_untyped(),
        DomainError::Validation("Jeopardy commands require the secret-aware typed service".into())
    );
}

fn web_service() -> AttackDefenseService {
    AttackDefenseService {
        key: "web".into(),
        name: "Web".into(),
        instance_template: "web:v1".into(),
        attack_points: 10,
        defense_points: 5,
        sla_points: 3,
    }
}

#[test]
fn attack_flags_reject_own_duplicate_and_expired() {
    let attacker = TeamId::new();
    let victim = TeamId::new();
    let issuer = FlagIssuer::new("x".repeat(32)).expect("issuer");
    let mut state = AttackDefenseState {
        services: vec![web_service()],
        teams: vec![attacker, victim],
        tick: 4,
        expiry_window: 1,
        ..AttackDefenseState::default()
    };
    let flag = issuer.issue(&FlagClaim {
        owner: victim,
        service: "web".into(),
        tick: 4,
    });
    assert_eq!(
        state.submit_flag(&issuer, attacker, &flag).expect("flag").0,
        SubmissionOutcome::Correct
    );
    assert_eq!(
        state.submit_flag(&issuer, attacker, &flag).expect("flag").0,
        SubmissionOutcome::Duplicate
    );
    let own = issuer.issue(&FlagClaim {
        owner: attacker,
        service: "web".into(),
        tick: 4,
    });
    assert_eq!(
        state.submit_flag(&issuer, attacker, &own).expect("flag").0,
        SubmissionOutcome::OwnFlag
    );
    let expired = issuer.issue(&FlagClaim {
        owner: victim,
        service: "web".into(),
        tick: 1,
    });
    assert_eq!(
        state
            .submit_flag(&issuer, attacker, &expired)
            .expect("flag")
            .0,
        SubmissionOutcome::Expired
    );
}

#[test]
fn flag_issuer_needs_a_long_secret() {
    assert_eq!(
        FlagIssuer::new("x".repeat(31)).err(),
        Some(DomainError::Validation("flag issuer secret must be at least 32 bytes".into()))
    );
    assert!(FlagIssuer::new("x".repeat(32)).is_ok());
}

#[test]
fn issued_flags_read_back_and_resist_tampering() {
    let issuer = FlagIssuer::new("k".repeat(40)).expect("issuer");
    let owner = TeamId(0x0123_4567_89ab_cdef_0123_4567_89ab_cdef);
    let claim = FlagClaim { owner, service: "web".into(), tick: 12 };
    let flag = issuer.issue(&claim);
    assert!(flag.starts_with("KIT{"));
    assert_eq!(issuer.verify(&flag), Ok(claim.clone()));
    let mut tampered = flag.clone();
    tampered.push('A');
    assert_eq!(issuer.verify(&tampered), Err(DomainError::Forbidden));
    let other = FlagIssuer::new("z".repeat(40)).expect("other issuer");
    assert_eq!(other.verify(&flag), Err(DomainError::Forbidden));
    assert_eq!(issuer.verify("KIT{not-a-flag"), Err(DomainError::Forbidden));
    assert_eq!(issuer.verify("flag"), Err(DomainError::Forbidden));
}

#[test]
fn issued_flag_body_is_owner_service_tick() {
    let issuer = FlagIssuer::new("k".repeat(40)).expect("issuer");
    let owner = TeamId(0x0123_4567_89ab_cdef_0123_4567_89ab_cdef);
    let flag = issuer.issue(&FlagClaim { owner, service: "web".into(), tick: 12 });
    let inner = flag.strip_prefix("KIT{").expect("prefix");
    let (body, _tag) = inner.split_once("}.").expect("separator");
    let decoded = base64::engine::general_purpose::URL_SAFE_NO_PAD.decode(body).expect("base64");
    assert_eq!(
        String::from_utf8(decoded).expect("utf8"),
        "01234567-89ab-cdef-0123-456789abcdef:web:12"
    );
}

#[test]
fn unknown_teams_and_services_are_refused() {
    let attacker = TeamId::new();
    let victim = TeamId::new();
    let issuer = FlagIssuer::new("x".repeat(32)).expect("issuer");
    let mut state = AttackDefenseState {
        services: vec![web_service()],
        teams: vec![attacker],
        tick: 4,
        expiry_window: 1,
        ..AttackDefenseState::default()
    };
    let flag = issuer.issue(&FlagClaim { owner: victim, service: "web".into(), tick: 4 });
    assert_eq!(state.submit_flag(&issuer, attacker, &flag), Err(DomainError::Forbidden));
    state.teams.push(victim);
    let unknown = issuer.issue(&FlagClaim { owner: victim, service: "db".into(), tick: 4 });
    assert_eq!(state.submit_flag(&issuer, attacker, &unknown).expect("flag").0, SubmissionOutcome::Incorrect);
    assert!(state.accepted_flags.is_empty());
}

#[test]
fn accepted_flag_marks_its_owner_compromised() {
    let attacker = TeamId::new();
    let victim = TeamId::new();
    let issuer = FlagIssuer::new("x".repeat(32)).expect("issuer");
    let mut state = AttackDefenseState {
        services: vec![web_service()],
        teams: vec![attacker, victim],
        tick: 4,
        expiry_window: 1,
        ..AttackDefenseState::default()
    };
    let flag = issuer.issue(&FlagClaim { owner: victim, service: "web".into(), tick: 3 });
    let (outcome, claim) = state.submit_flag(&issuer, attacker, &flag).expect("flag");
    assert_eq!(outcome, SubmissionOutcome::Correct);
    assert_eq!(claim.expect("claim").tick, 3);
    assert_eq!(state.compromised, vec![(3, "web".to_string(), victim)]);
    assert_eq!(state.accepted_flags, vec![sha2::Sha256::digest(flag.as_bytes()).to_vec()]);
}

#[test]
fn completed_tick_scores_defense_and_sla() {
    let attacker = TeamId::new();
    let victim = TeamId::new();
    let event = EventId::new();
    let mut state = AttackDefenseState {
        services: vec![web_service()],
        teams: vec![attacker, victim],
        tick: 4,
        expiry_window: 1,
        compromised: vec![(4, "web".into(), victim)],
        ..AttackDefenseState::default()
    };
    let checks = vec![
        CheckerResult { team_id: attacker, service: "web".into(), healthy: true, message: "ok".into() },
        CheckerResult { team_id: victim, service: "web".into(), healthy: true, message: "ok".into() },
        CheckerResult { team_id: victim, service: "web".into(), healthy: false, message: "down".into() },
    ];
    let scores = state.complete_tick(event, &checks, 100, NOW).expect("tick");
    assert_eq!(scores.len(), 3);
    assert_eq!((scores[0].reason.clone(), scores[0].points, scores[0].sequence), (ScoreReason::Defense, 5, 100));
    assert_eq!((scores[1].reason.clone(), scores[1].points, scores[1].sequence), (ScoreReason::Sla, 3, 101));
    assert_eq!(scores[2].competitor, CompetitorId::Team(victim));
    assert_eq!((scores[2].reason.clone(), scores[2].sequence), (ScoreReason::Sla, 102));
    assert_eq!(state.tick, 5);
}

#[test]
fn completed_tick_rejects_unknown_checks_without_advancing() {
    let team = TeamId::new();
    let mut state = AttackDefenseState {
        services: vec![web_service()],
        teams: vec![team],
        tick: 9,
        ..AttackDefenseState::default()
    };
    let stranger = vec![CheckerResult { team_id: TeamId::new(), service: "web".into(), healthy: true, message: String::new() }];
    assert_eq!(
        state.complete_tick(EventId::new(), &stranger, 0, NOW),
        Err(DomainError::Validation("checker team is unknown".into()))
    );
    let unknown = vec![CheckerResult { team_id: team, service: "mail".into(), healthy: true, message: String::new() }];
    assert_eq!(
        state.complete_tick(EventId::new(), &unknown, 0, NOW),
        Err(DomainError::Validation("checker service is unknown".into()))
    );
    assert_eq!(state.tick, 9);
}

#[test]
fn attack_defense_public_state_drops_flag_digests() {
    let state = AttackDefenseState {
        accepted_flags: vec![vec![1, 2, 3]],
        tick: 2,
        ..AttackDefenseState::default()
    };
    let public = AttackDefenseMode.public_state(state);
    assert!(public.accepted_flags.is_empty());
    assert_eq!(public.tick, 2);
    assert_eq!(AttackDefenseMode.key(), "attack_defense");
    assert_eq!(AttackDefenseMode.admin_controls().len(), 5);
}

#[test]
fn koth_claims_need_the_proof_and_score_each_tick() {
    let objective = ObjectiveId::new();
    let event = EventId::new();
    let mut state = KothState::default();
    state.objectives.insert(
        objective.0,
        KothObjective {
            id: objective,
            name: "Summit".into(),
            points_per_tick: 7,
            claim_digest: sha2::Sha256::digest(b"proof-of-summit").to_vec(),
        },
    );
    let team = TeamId::new();
    assert_eq!(state.claim(ObjectiveId::new(), team, "x", NOW), Err(DomainError::NotFound));
    assert_eq!(state.claim(objective, team, "wrong", NOW), Err(DomainError::Forbidden));
    assert_eq!(state.claim(objective, team, "  proof-of-summit\n", NOW), Ok(true));
    assert_eq!(state.claim(objective, team, "proof-of-summit", NOW + 1), Ok(false));
    let scores = KothMode.apply(&mut state, event, "tick", Some(40), NOW + 2).expect("tick");
    assert_eq!(scores.len(), 1);
    assert_eq!(scores[0].points, 7);
    assert_eq!(scores[0].sequence, 40);
    assert_eq!(scores[0].reason, ScoreReason::KothTick { objective: "Summit".into() });
    assert_eq!(state.tick, 1);
    assert_eq!(
        KothMode.apply(&mut state, event, "claim", Some(41), NOW),
        Err(DomainError::Validation("unknown KotH command".into()))
    );
    assert_eq!(
        KothMode.apply(&mut state, event, "tick", None, NOW),
        Err(DomainError::Validation("score_sequence is required".into()))
    );
    assert_eq!(state.tick, 1);
}

#[test]
fn workshop_completes_without_score_entries() {
    let mode = WorkshopMode;
    let user = UserId::new();
    let mut state = WorkshopState {
        lessons: vec!["intro".into()],
        progress: BTreeMap::new(),
    };
    let user_id = uuid::Uuid::from_u128(user.0).to_string();
    let transition = mode
        .apply(&mut state, "complete_lesson", Some(&user_id), Some("intro"))
        .expect("complete");
    assert!(transition.scores.is_empty());
    assert_eq!(transition.completed, true);
}

#[test]
fn workshop_rejects_unknown_commands_users_and_lessons() {
    let mode = WorkshopMode;
    let mut state = WorkshopState::new(vec!["intro".into()]);
    let user = UserId::new();
    let user_id = uuid::Uuid::from_u128(user.0).to_string();
    assert_eq!(
        mode.apply(&mut state, "skip_lesson", Some(&user_id), Some("intro")).err(),
        Some(DomainError::Validation("unknown workshop command".into()))
    );
    assert_eq!(
        mode.apply(&mut state, "complete_lesson", Some("not-a-uuid"), Some("intro")).err(),
        Some(DomainError::Validation("valid user_id is required".into()))
    );
    assert_eq!(
        mode.apply(&mut state, "complete_lesson", Some(&user_id), Some("advanced")).err(),
        Some(DomainError::Validation("known lesson is required".into()))
    );
    assert!(state.progress.is_empty());
    let first = mode.apply(&mut state, "complete_lesson", Some(&user_id), Some("intro")).expect("first");
    let again = mode.apply(&mut state, "complete_lesson", Some(&user_id), Some("intro")).expect("again");
    assert!(first.completed);
    assert!(!again.completed);
    assert_eq!(state.progress.values().next().expect("progress").len(), 1);
    assert!(state.progress.contains_key(&user.0));
    assert_eq!(mode.public_state(&state), vec!["intro".to_string()]);
}

#[test]
fn identifier_generation_is_unique() {
    assert_ne!(OrganizationId::new(), OrganizationId::new());
}

#[test]
fn generated_identifiers_are_version_seven() {
    for bits in [OrganizationId::new().0, EventId::new().0, SubmissionId::new().0] {
        assert_eq!((bits >> 76) & 0xf, 7);
        assert_eq!((bits >> 62) & 0x3, 2);
    }
}

#[test]
fn koth_public_state_hides_claim_digests() {
    let first = ObjectiveId(2);
    let second = ObjectiveId(1);
    let mut state = KothState::default();
    for (id, name) in [(first, "Summit"), (second, "Ridge")] {
        state.objectives.insert(
            id.0,
            KothObjective {
                id,
                name: name.into(),
                points_per_tick: 3,
                claim_digest: sha2::Sha256::digest(b"proof").to_vec(),
            },
        );
    }
    let team = TeamId::new();
    assert_eq!(state.claim(first, team, "proof", NOW), Ok(true));
    let public = KothMode.public_state(&state);
    assert_eq!(public.len(), 2);
    assert_eq!(public[0].id, second);
    assert_eq!(public[0].holder, None);
    assert_eq!(public[1].name, "Summit");
    assert_eq!(public[1].holder.expect("held").team_id, team);
    assert_eq!(public[1].holder.expect("held").claimed_at, NOW);
}

#[test]
fn jeopardy_commands_replay_deterministically() {
    let event = EventId::new();
    let (challenge, answers) = challenge(event);
    let id = challenge.id;
    let mut state = JeopardyState::default();
    state.apply(event, JeopardyCommand::UpsertChallenge { challenge, answers }, NOW).expect("author");
    let team = CompetitorId::Team(TeamId::new());
    for answer in ["KIT{wrong}", "KIT{spark}"] {
        let command = JeopardyCommand::Submit {
            competitor: team,
            challenge_id: id,
            answer: answer.into(),
            division: None,
            score_sequence: 7,
            first_blood_bonus: 25,
        };
        let mut replica = state.clone();
        let original = state.apply(event, command.clone(), NOW);
        let replayed = replica.apply(event, command, NOW);
        assert_eq!(original, replayed);
        assert_eq!(state, replica);
    }
}
