use kitsune::challenge::{AnswerRule, ChallengeKind, VisibilityRule, WriteupState};
use kitsune::encoding::parse_u64;
use kitsune::events::SubmissionOutcome;
use kitsune::identity::{ChallengeId, DivisionId, EventId, EventState, InstanceId, OrganizationId, TeamId, UserId};
use kitsune::records::{
    binding_matches, check_issuance_replay, client_secret_accepted, resolve_bound, validate_connection_shape,
    IssuanceRequest, StoredIssuance, MAXIMUM_CONNECTION_BYTES,
    admit_submission, challenge_visible_to, settle_submission, validate_instance_template, check_submission_replay, federated_login, validate_self_disable, FederatedLogin,
    captain_replacement, page_rows, validate_audit_range, validate_consumer_key, validate_event_scope,
    validate_grant_narrowing,
    next_aggregate_version, replayed_version,
    contains_sensitive_key, JsonShape,
    conflict_or_unavailable, enforce_team_size, expected_generation, is_unique_violation, next_flag_generation, participant, registration_open, saved_writeup_state, unavailable, writeup_body, writeup_review,
    AnswerCheck, PasskeyFlowKind, PluginAnswerDecision, SolveAward, VerifiedPluginAnswer,
    attempts_after, check_answer, competitor_columns, competitor_from_columns,
    competitor_identity, dynamic_answer_outcome, dynamic_flag_digest, event_state_key,
    hint_column_id, hint_record_from_row, hint_unlock, normalize_email, outcome_key,
    parse_event_state, parse_writeup_state, remaining_attempts, require_distinct_teams,
    review_competitor, review_competitor_identity, review_note, review_outcome, review_target,
    solve_award, tally_question, validate_event_window, validate_issue_fields, validate_key,
    verify_plugin_answer, writeup_competitor, writeup_state_key,
};
use kitsune::scoring::{CompetitorId, ScoringRule};
use kitsune::DomainError;
use sha2::Digest;

#[test]
fn emails_are_trimmed_and_lowercased() {
    assert_eq!(normalize_email("  Player@Example.Test \n"), "player@example.test");
    assert_eq!(normalize_email("ÉLAN@Example.Test"), "élan@example.test");
    assert_eq!(normalize_email("  Fox+CTF@Example.Test "), "fox+ctf@example.test");
    let once = normalize_email("  Fox+CTF@Example.Test ");
    assert_eq!(normalize_email(&once), once);
}

#[test]
fn column_keys_read_back() {
    for state in [
        WriteupState::Draft,
        WriteupState::Submitted,
        WriteupState::ChangesRequested,
        WriteupState::Approved,
        WriteupState::Published,
    ] {
        assert_eq!(parse_writeup_state(writeup_state_key(state)), Ok(state));
    }
    for state in [
        EventState::Draft,
        EventState::Scheduled,
        EventState::Live,
        EventState::Paused,
        EventState::Ended,
        EventState::Archived,
    ] {
        assert_eq!(parse_event_state(event_state_key(state)), Ok(state));
    }
    assert_eq!(writeup_state_key(WriteupState::ChangesRequested), "changes_requested");
    assert_eq!(
        parse_writeup_state("Draft"),
        Err(DomainError::Unavailable("writeup contains an invalid lifecycle state".into()))
    );
    assert_eq!(
        parse_event_state("running"),
        Err(DomainError::Unavailable("postgres event contains an invalid lifecycle state".into()))
    );
    assert_eq!(outcome_key(SubmissionOutcome::RateLimited), "rate_limited");
    assert_eq!(outcome_key(SubmissionOutcome::OwnFlag), "own_flag");
    assert_eq!(PasskeyFlowKind::Registration.as_str(), "registration");
    assert_eq!(PasskeyFlowKind::Authentication.as_str(), "authentication");
}

#[test]
fn competitor_columns_round_trip() {
    let user = CompetitorId::User(UserId(7));
    let team = CompetitorId::Team(TeamId(9));
    assert_eq!(competitor_columns(user), (Some(7), None));
    assert_eq!(competitor_columns(team), (None, Some(9)));
    let (u, t) = competitor_columns(user);
    assert_eq!(competitor_from_columns(u, t), Ok(user));
    let (u, t) = competitor_columns(team);
    assert_eq!(competitor_from_columns(u, t), Ok(team));
    assert_eq!(competitor_identity(team), ("team", 9));
    assert_eq!(
        competitor_from_columns(Some(1), Some(2)),
        Err(DomainError::Unavailable("instance contains an invalid competitor binding".into()))
    );
    assert!(competitor_from_columns(None, None).is_err());
}

#[test]
fn reviewed_records_prefer_the_team() {
    assert_eq!(review_competitor(Some(1), Some(2)), Ok(CompetitorId::Team(TeamId(2))));
    assert_eq!(review_competitor(Some(1), None), Ok(CompetitorId::User(UserId(1))));
    assert_eq!(
        review_competitor(None, None),
        Err(DomainError::Unavailable("manual submission contains no competitor identity".into()))
    );
    assert_eq!(review_competitor_identity(Some(1), Some(2), "writeup"), Ok(("team".to_string(), 2)));
    assert_eq!(
        review_competitor_identity(None, None, "writeup"),
        Err(DomainError::Unavailable("writeup contains no competitor identity".into()))
    );
    assert_eq!(writeup_competitor(Some(3), None), Ok(("user".to_string(), 3)));
    assert_eq!(
        writeup_competitor(Some(3), Some(4)),
        Err(DomainError::Unavailable("writeup contains an invalid competitor identity".into()))
    );
}

#[test]
fn manual_review_decisions() {
    assert_eq!(review_note(None), Ok(None));
    assert_eq!(review_note(Some("   ")), Ok(None));
    assert_eq!(review_note(Some("  looks good ")), Ok(Some("looks good")));
    assert_eq!(
        review_note(Some(&"n".repeat(10_001))),
        Err(DomainError::Validation("manual review note cannot exceed 10000 bytes".into()))
    );
    assert_eq!(
        review_target("correct", Some(1), None),
        Err(DomainError::Conflict("manual submission has already been reviewed".into()))
    );
    assert_eq!(review_target("pending", Some(1), None), Ok(CompetitorId::User(UserId(1))));
    assert_eq!(review_outcome(true, false), Ok(SubmissionOutcome::Correct));
    assert_eq!(review_outcome(false, true), Ok(SubmissionOutcome::Discarded));
    assert_eq!(
        review_outcome(true, true),
        Err(DomainError::Conflict("challenge is already solved".into()))
    );
}

#[test]
fn distinct_teams_are_required() {
    let team = TeamId::new();
    assert_eq!(
        require_distinct_teams(team, team),
        Err(DomainError::Validation("source and target teams must differ".into()))
    );
    assert_eq!(require_distinct_teams(team, TeamId::new()), Ok(()));
}

#[test]
fn attempt_budgets() {
    assert_eq!(remaining_attempts(None, 99), Ok(None));
    assert_eq!(remaining_attempts(Some(3), 1), Ok(Some(2)));
    assert_eq!(
        remaining_attempts(Some(3), 3),
        Err(DomainError::LimitExceeded("challenge attempt budget exhausted".into()))
    );
    assert_eq!(
        remaining_attempts(Some(3), 5),
        Err(DomainError::LimitExceeded("challenge attempt budget exhausted".into()))
    );
    assert_eq!(
        remaining_attempts(Some(0), 0),
        Err(DomainError::LimitExceeded("challenge attempt budget exhausted".into()))
    );
    assert_eq!(
        remaining_attempts(Some(3), i64::from(i32::MAX) + 1),
        Err(DomainError::LimitExceeded("challenge attempts".into()))
    );
    assert_eq!(attempts_after(SubmissionOutcome::Incorrect, Some(2)), Some(1));
    assert_eq!(attempts_after(SubmissionOutcome::Pending, Some(2)), Some(2));
    assert_eq!(attempts_after(SubmissionOutcome::Incorrect, None), None);
}

#[test]
fn event_window_gates_gameplay() {
    assert_eq!(validate_event_window("live", Some(10), Some(20), 10), Ok(()));
    let closed = Err(DomainError::Conflict("event is not accepting submissions".into()));
    assert_eq!(validate_event_window("live", Some(10), Some(20), 20), closed);
    assert_eq!(validate_event_window("live", Some(10), None, 9), closed);
    assert_eq!(validate_event_window("paused", None, None, 0), closed);
}

#[test]
fn answer_rules_decide_in_order() {
    let exact = AnswerRule::exact("KIT{a}", false);
    assert_eq!(
        check_answer(&[AnswerRule::Manual, exact.clone()], "KIT{a}"),
        Ok(AnswerCheck::Decided(SubmissionOutcome::Correct))
    );
    assert_eq!(
        check_answer(&[exact.clone(), AnswerRule::Manual], "KIT{b}"),
        Ok(AnswerCheck::Decided(SubmissionOutcome::Pending))
    );
    assert_eq!(check_answer(&[exact.clone()], "KIT{b}"), Ok(AnswerCheck::Decided(SubmissionOutcome::Incorrect)));
    assert_eq!(check_answer(&[AnswerRule::Dynamic, exact], "KIT{a}"), Ok(AnswerCheck::NeedsDynamicVerification));
    assert_eq!(check_answer(&[], "x"), Ok(AnswerCheck::Decided(SubmissionOutcome::Incorrect)));
    let broken = AnswerRule::Regex { pattern: "(".into(), case_insensitive: false };
    assert!(matches!(check_answer(&[broken], "x"), Err(DomainError::Validation(_))));
}

#[test]
fn dynamic_answers_compare_trimmed_digests() {
    let stored = sha2::Sha256::digest(b"kit{issued-foxfire-4f263a12}").to_vec();
    assert_eq!(dynamic_answer_outcome(&stored, " kit{issued-foxfire-4f263a12}\n"), SubmissionOutcome::Correct);
    assert_eq!(dynamic_answer_outcome(&stored, "kit{other}"), SubmissionOutcome::Incorrect);
    assert_eq!(dynamic_flag_digest("  kit{issued-foxfire-4f263a12} "), Ok(stored));
    let invalid = Err(DomainError::Validation("dynamic flags must contain 16 to 512 printable bytes".into()));
    assert_eq!(dynamic_flag_digest("kit{short}"), invalid);
    assert_eq!(dynamic_flag_digest("kit{control\u{7}character}"), invalid);
}

#[test]
fn plugin_answers_must_stay_bound() {
    let kind = ChallengeKind::Plugin { plugin: "forge".into(), kind: "circuit".into() };
    let digest: [u8; 32] = sha2::Sha256::digest(b"answer").into();
    let verified = VerifiedPluginAnswer {
        plugin: "forge",
        kind: "circuit",
        challenge_updated_at: 55,
        answer_digest: digest,
        decision: PluginAnswerDecision::Correct,
    };
    assert_eq!(verify_plugin_answer(&kind, 55, " answer ", Some(&verified)), Ok(SubmissionOutcome::Correct));
    assert_eq!(
        verify_plugin_answer(&kind, 56, "answer", Some(&verified)),
        Err(DomainError::Conflict("plugin challenge changed during answer verification".into()))
    );
    assert_eq!(
        verify_plugin_answer(&kind, 55, "answer", None),
        Err(DomainError::Unavailable("plugin answer verifier is not enabled".into()))
    );
    assert_eq!(
        verify_plugin_answer(&ChallengeKind::StaticFlag, 55, "answer", Some(&verified)),
        Err(DomainError::Validation("plugin verifier does not match the challenge type".into()))
    );
}

#[test]
fn solve_awards_bonus_only_first_blood() {
    let rule = ScoringRule::Dynamic { initial: 500, minimum: 100, decay: 50 };
    assert_eq!(
        solve_award(&rule, 0, 50),
        Ok(SolveAward { solve_points: 500, bonus: 50, first_blood: true, awarded_points: 550 })
    );
    assert_eq!(
        solve_award(&rule, 25, 50),
        Ok(SolveAward { solve_points: 400, bonus: 0, first_blood: false, awarded_points: 400 })
    );
    assert_eq!(
        solve_award(&rule, 0, -5),
        Ok(SolveAward { solve_points: 500, bonus: 0, first_blood: true, awarded_points: 500 })
    );
    assert_eq!(
        solve_award(&ScoringRule::Static { points: i64::MAX }, 0, 10).map(|award| award.awarded_points),
        Ok(i64::MAX)
    );
    assert_eq!(solve_award(&rule, -1, 0), Err(DomainError::Unavailable("negative solve count".into())));
}

#[test]
fn hint_unlocks_charge_once() {
    let first = hint_unlock(1, 10, "Watch the nonce".into(), false);
    assert_eq!((first.charged, first.score_delta, first.replayed), (10, Some(-10), false));
    assert_eq!(first.hint.content.as_deref(), Some("Watch the nonce"));
    let again = hint_unlock(1, 10, "Watch the nonce".into(), true);
    assert_eq!((again.charged, again.score_delta, again.replayed), (0, None, true));
    let free = hint_unlock(2, 0, "Free".into(), false);
    assert_eq!(free.score_delta, None);
    assert_eq!(hint_column_id(5), Ok(5));
    assert_eq!(
        hint_column_id(u32::MAX),
        Err(DomainError::Validation("hint identifier is too large".into()))
    );
    assert_eq!(
        hint_record_from_row(-1, 3, None, false).err(),
        Some(DomainError::Unavailable("negative hint identifier".into()))
    );
    assert_eq!(hint_record_from_row(4, 3, None, false).map(|hint| hint.id), Ok(4));
}

#[test]
fn orchestration_keys_and_issue_fields() {
    assert_eq!(validate_key("kitsune-event/pwnbox-player-7", "orchestrator", 64), Ok(()));
    assert_eq!(
        validate_key("bad key", "template", 160),
        Err(DomainError::Validation("template contains unsupported characters or exceeds its bound".into()))
    );
    assert!(validate_key("", "template", 160).is_err());
    assert!(validate_key(&"a".repeat(65), "orchestrator", 64).is_err());
    let now = 1_700_000_000_000_000;
    let hour = 3_600_000_000;
    assert_eq!(validate_issue_fields(now, "kubernetes", "pwnbox-v1", "kitsune-event/pwnbox-player-7", now + hour), Ok(()));
    assert_eq!(
        validate_issue_fields(now, "kubernetes", "pwnbox-v1", "  ", now + hour),
        Err(DomainError::Validation("provider identifier must contain 1 to 240 printable characters".into()))
    );
    assert_eq!(
        validate_issue_fields(now, "kubernetes", "pwnbox-v1", "container-1", now + 59_000_000),
        Err(DomainError::Validation("instance TTL must be between one minute and thirty days".into()))
    );
    assert_eq!(
        validate_issue_fields(-1, "kubernetes", "pwnbox-v1", "container-1", hour),
        Err(DomainError::Validation("instance timestamp must be after the Unix epoch".into()))
    );
}

#[test]
fn survey_questions_tally_their_answers() {
    let responses = vec![
        vec![("difficulty".to_string(), 4), ("fun".to_string(), 5)],
        vec![("fun".to_string(), 2)],
        vec![("difficulty".to_string(), 2)],
    ];
    let tally = tally_question("difficulty", &responses);
    assert_eq!(tally.responses, 2);
    assert_eq!(tally.total, 6);
    assert_eq!(tally.minimum, Some(2));
    assert_eq!(tally.maximum, Some(4));
    let none = tally_question("missing", &responses);
    assert_eq!((none.responses, none.minimum, none.maximum), (0, None, None));
}

#[test]
fn decimal_text_parses_within_range() {
    assert_eq!(parse_u64("18446744073709551615"), Some(u64::MAX));
    assert_eq!(parse_u64("18446744073709551616"), None);
    assert_eq!(parse_u64("+12"), Some(12));
    assert_eq!(parse_u64(""), None);
    assert_eq!(parse_u64("1a"), None);
}

#[test]
fn store_errors_map_unique_violations_to_conflicts() {
    assert_eq!(unavailable("auth", "pool closed"), DomainError::Unavailable("postgres auth: pool closed".into()));
    assert!(is_unique_violation(Some("23505")));
    assert!(!is_unique_violation(Some("23503")));
    assert!(!is_unique_violation(None));
    assert_eq!(
        conflict_or_unavailable(Some("23505"), "identity already exists", "auth", "duplicate key"),
        DomainError::Conflict("identity already exists".into())
    );
    assert_eq!(
        conflict_or_unavailable(None, "identity already exists", "auth", "timeout"),
        DomainError::Unavailable("postgres auth: timeout".into())
    );
}

#[test]
fn participation_picks_the_competitor() {
    let actor = UserId(5);
    let need = "join a team before registering";
    assert_eq!(participant("individual", actor, Some(9), need), Ok(CompetitorId::User(actor)));
    assert_eq!(participant("team", actor, Some(9), need), Ok(CompetitorId::Team(TeamId(9))));
    assert_eq!(participant("team", actor, None, need), Err(DomainError::Validation(need.into())));
    assert_eq!(participant("hybrid", actor, None, need), Ok(CompetitorId::User(actor)));
    assert_eq!(participant("hybrid", actor, Some(9), need), Ok(CompetitorId::Team(TeamId(9))));
    assert_eq!(
        participant("solo", actor, None, need),
        Err(DomainError::Unavailable("event contains an invalid participation mode".into()))
    );
    assert_eq!(enforce_team_size(4, Some(4)), Ok(()));
    assert_eq!(
        enforce_team_size(5, Some(4)),
        Err(DomainError::Validation("team exceeds this event's size limit".into()))
    );
    assert_eq!(enforce_team_size(500, None), Ok(()));
    assert_eq!(registration_open("live"), Ok(()));
    assert_eq!(registration_open("ended"), Err(DomainError::Conflict("event registration is closed".into())));
    assert!(registration_open("archived").is_err());
}

#[test]
fn writeups_are_bounded_and_follow_their_lifecycle() {
    assert_eq!(writeup_body("  draft  ", false), Ok("draft"));
    assert_eq!(
        writeup_body("   ", false),
        Err(DomainError::Validation("writeup must contain 1 to 100000 bytes".into()))
    );
    assert_eq!(
        writeup_body("too short", true),
        Err(DomainError::Validation("submitted writeup must contain at least 20 bytes".into()))
    );
    assert!(writeup_body(&"w".repeat(100_001), false).is_err());
    assert_eq!(saved_writeup_state(None, true), Ok(WriteupState::Submitted));
    assert_eq!(saved_writeup_state(None, false), Ok(WriteupState::Draft));
    assert_eq!(saved_writeup_state(Some("changes_requested"), true), Ok(WriteupState::Submitted));
    assert!(matches!(saved_writeup_state(Some("approved"), false), Err(DomainError::Conflict(_))));
    assert!(matches!(saved_writeup_state(Some("bogus"), false), Err(DomainError::Unavailable(_))));
    assert_eq!(
        writeup_review("submitted", WriteupState::ChangesRequested, Some("  ")),
        Err(DomainError::Validation("feedback is required when requesting changes".into()))
    );
    assert_eq!(
        writeup_review("submitted", WriteupState::ChangesRequested, Some(" add detail ")),
        Ok((WriteupState::ChangesRequested, Some("add detail")))
    );
    assert_eq!(writeup_review("submitted", WriteupState::Approved, None), Ok((WriteupState::Approved, None)));
    assert!(matches!(writeup_review("draft", WriteupState::Approved, None), Err(DomainError::Conflict(_))));
    assert_eq!(
        writeup_review("submitted", WriteupState::Approved, Some(&"f".repeat(10_001))),
        Err(DomainError::Validation("writeup feedback cannot exceed 10000 bytes".into()))
    );
}

#[test]
fn flag_rotation_checks_state_lease_and_generation() {
    assert_eq!(expected_generation(3), Ok(3));
    assert_eq!(
        expected_generation(u64::MAX),
        Err(DomainError::Validation("flag generation is too large".into()))
    );
    assert_eq!(next_flag_generation("ready", 100, 50, 3, 3), Ok((4, 4)));
    assert_eq!(next_flag_generation("unhealthy", 100, 50, 0, 0), Ok((1, 1)));
    assert_eq!(
        next_flag_generation("ready", 50, 50, 3, 3),
        Err(DomainError::Conflict("only an unexpired ready or unhealthy instance can rotate its flag".into()))
    );
    assert!(next_flag_generation("stopping", 100, 50, 3, 3).is_err());
    assert_eq!(
        next_flag_generation("ready", 100, 50, 4, 3),
        Err(DomainError::Conflict("instance flag generation changed during rotation".into()))
    );
    assert_eq!(
        next_flag_generation("ready", 100, 50, i64::MAX, i64::MAX),
        Err(DomainError::LimitExceeded("flag generation exhausted".into()))
    );
    assert_eq!(
        next_flag_generation("ready", 100, 50, -5, -5),
        Err(DomainError::Unavailable("stored flag generation is invalid".into()))
    );
}

#[test]
fn credential_keys_are_found_at_any_depth() {
    let clean = JsonShape::Object(vec![
        ("host".into(), JsonShape::Scalar),
        ("ports".into(), JsonShape::Array(vec![JsonShape::Scalar])),
    ]);
    assert!(!contains_sensitive_key(&clean));
    let nested = JsonShape::Object(vec![(
        "auth".into(),
        JsonShape::Array(vec![JsonShape::Object(vec![("Token".into(), JsonShape::Scalar)])]),
    )]);
    assert!(contains_sensitive_key(&nested));
    assert!(contains_sensitive_key(&JsonShape::Object(vec![("PASSWORD".into(), JsonShape::Scalar)])));
    assert!(!contains_sensitive_key(&JsonShape::Object(vec![("passwords".into(), JsonShape::Scalar)])));
    assert!(!contains_sensitive_key(&JsonShape::Scalar));
}

#[test]
fn command_receipts_replay_only_the_same_command() {
    let payload = br#"{"name":"Kitsune Test"}"#;
    let digest = sha2::Sha256::digest(payload).to_vec();
    assert_eq!(replayed_version("identity.user.create", &digest, 4, "identity.user.create", payload), Ok(4));
    let reused = Err(DomainError::Conflict("idempotency key was used for a different command".into()));
    assert_eq!(replayed_version("identity.user.create", &digest, 4, "identity.user.update", payload), reused);
    assert_eq!(replayed_version("identity.user.create", &digest, 4, "identity.user.create", b"{}"), reused);
    assert_eq!(
        replayed_version("identity.user.create", &digest, -1, "identity.user.create", payload),
        Err(DomainError::Conflict("invalid stored version".into()))
    );
    assert_eq!(next_aggregate_version(None), Ok((1, 1)));
    assert_eq!(next_aggregate_version(Some(41)), Ok((42, 42)));
    assert_eq!(
        next_aggregate_version(Some(u64::MAX)),
        Err(DomainError::Validation("aggregate version is too large".into()))
    );
}

#[test]
fn pages_scopes_and_keys_are_bounded() {
    let refusal = "audit page limit must be between 1 and 250";
    assert_eq!(page_rows(1, 250, refusal), Ok(2));
    assert_eq!(page_rows(250, 250, refusal), Ok(251));
    assert_eq!(page_rows(0, 250, refusal), Err(DomainError::Validation(refusal.into())));
    assert_eq!(page_rows(101, 100, "notification page limit must be between 1 and 100").err(),
        Some(DomainError::Validation("notification page limit must be between 1 and 100".into())));
    assert_eq!(validate_audit_range(Some(5), Some(4)), Err(DomainError::Validation("audit occurrence range is inverted".into())));
    assert_eq!(validate_audit_range(Some(4), Some(4)), Ok(()));
    assert_eq!(validate_audit_range(Some(9), None), Ok(()));
    assert_eq!(validate_consumer_key("mailer"), Ok(()));
    assert_eq!(
        validate_consumer_key("  "),
        Err(DomainError::Validation("consumer key must contain 1 to 120 characters".into()))
    );
    assert!(validate_consumer_key(&"c".repeat(121)).is_err());
    assert_eq!(
        validate_grant_narrowing(true, true, false),
        Err(DomainError::Validation("platform authority cannot be narrowed to event or team scope".into()))
    );
    assert_eq!(validate_grant_narrowing(true, false, false), Ok(()));
    assert_eq!(validate_grant_narrowing(false, true, true), Ok(()));
    assert_eq!(validate_event_scope(2, 2, "token event scope contains an unknown event"), Ok(()));
    assert_eq!(
        validate_event_scope(1, 2, "token event scope contains an unknown event"),
        Err(DomainError::Validation("token event scope contains an unknown event".into()))
    );
}

#[test]
fn transferred_captains_need_a_replacement() {
    let member = UserId(1);
    let other = UserId(2);
    assert_eq!(captain_replacement(member, true, Some(other)), Ok(Some(other)));
    assert_eq!(
        captain_replacement(member, true, None),
        Err(DomainError::Validation("a source-team replacement captain is required".into()))
    );
    assert_eq!(
        captain_replacement(member, true, Some(member)),
        Err(DomainError::Validation("replacement captain must be another source-team member".into()))
    );
    assert_eq!(
        captain_replacement(member, false, Some(other)),
        Err(DomainError::Validation("replacement captain is only valid when transferring the captain".into()))
    );
    assert_eq!(captain_replacement(member, false, None), Ok(None));
}

#[test]
fn federated_logins_link_or_provision_by_policy() {
    assert_eq!(federated_login(Some(true), true, false), Ok(FederatedLogin::LinkExisting));
    let unlinked = Err(DomainError::Conflict(
        "verified email belongs to an account that is not linked to this provider".into(),
    ));
    assert_eq!(federated_login(Some(false), true, true), unlinked);
    assert_eq!(federated_login(Some(true), false, true), unlinked);
    assert_eq!(federated_login(None, false, false), Err(DomainError::Forbidden));
    assert_eq!(federated_login(None, false, true), Ok(FederatedLogin::ProvisionPlayer));
}

#[test]
fn retried_submissions_must_match_the_stored_one() {
    let actor = UserId(3);
    let digest = sha2::Sha256::digest(b"KIT{spark}").to_vec();
    assert_eq!(check_submission_replay(Some(3), false, Some(7), Some(&digest), actor, 7, " KIT{spark} "), Ok(()));
    assert_eq!(check_submission_replay(None, true, Some(7), Some(&digest), actor, 7, "KIT{spark}"), Ok(()));
    assert_eq!(
        check_submission_replay(Some(4), false, Some(7), Some(&digest), actor, 7, "KIT{spark}"),
        Err(DomainError::Conflict("idempotency key is already in use".into()))
    );
    assert_eq!(
        check_submission_replay(Some(3), false, Some(8), Some(&digest), actor, 7, "KIT{spark}"),
        Err(DomainError::Conflict("idempotency key belongs to another challenge".into()))
    );
    assert_eq!(
        check_submission_replay(Some(3), false, Some(7), None, actor, 7, "KIT{spark}"),
        Err(DomainError::Conflict("idempotency key was used with a different answer".into()))
    );
    assert_eq!(
        validate_self_disable(actor, actor, true),
        Err(DomainError::Conflict("an organizer cannot disable their own active account".into()))
    );
    assert_eq!(validate_self_disable(actor, UserId(9), true), Ok(()));
    assert_eq!(validate_self_disable(actor, actor, false), Ok(()));
}

#[test]
fn hidden_challenges_read_as_missing() {
    let rule = VisibilityRule {
        visible_from: Some(100),
        visible_until: Some(200),
        division_ids: vec![DivisionId(7)],
        prerequisites: vec![ChallengeId(3)],
    };
    let solves = [ChallengeId(3), ChallengeId(4)];
    assert_eq!(challenge_visible_to("published", &rule, 150, Some(DivisionId(7)), &solves), Ok(()));
    assert_eq!(challenge_visible_to("scheduled", &rule, 100, Some(DivisionId(7)), &solves), Ok(()));
    assert_eq!(challenge_visible_to("draft", &rule, 150, Some(DivisionId(7)), &solves), Err(DomainError::NotFound));
    assert_eq!(challenge_visible_to("published", &rule, 200, Some(DivisionId(7)), &solves), Err(DomainError::NotFound));
    assert_eq!(challenge_visible_to("published", &rule, 150, None, &solves), Err(DomainError::NotFound));
    assert_eq!(challenge_visible_to("published", &rule, 150, Some(DivisionId(7)), &[ChallengeId(4)]), Err(DomainError::NotFound));
    assert_eq!(challenge_visible_to("published", &VisibilityRule::default(), 0, None, &[]), Ok(()));
}

#[test]
fn instances_follow_the_challenge_template() {
    let kind = ChallengeKind::DynamicInstance { template: "web-basic".to_string() };
    assert_eq!(validate_instance_template(&kind, "web-basic"), Ok(()));
    assert_eq!(
        validate_instance_template(&kind, "web-advanced"),
        Err(DomainError::Conflict("instance template no longer matches the challenge".into()))
    );
    assert_eq!(
        validate_instance_template(&ChallengeKind::StaticFlag, "web-basic"),
        Err(DomainError::Validation("instances can only be issued for dynamic challenges".into()))
    );
}

#[test]
fn submissions_are_admitted_in_check_order() {
    let open = VisibilityRule::default();
    assert_eq!(admit_submission("published", &open, 0, None, &[], false, Some(3), 1), Ok(Some(2)));
    assert_eq!(admit_submission("published", &open, 0, None, &[], false, None, 9), Ok(None));
    assert_eq!(admit_submission("draft", &open, 0, None, &[], true, Some(3), 3), Err(DomainError::NotFound));
    assert_eq!(
        admit_submission("published", &open, 0, None, &[], true, Some(3), 3),
        Err(DomainError::Conflict("challenge is already solved".into()))
    );
    assert_eq!(
        admit_submission("scheduled", &open, 0, None, &[], false, Some(3), 3),
        Err(DomainError::LimitExceeded("challenge attempt budget exhausted".into()))
    );
}

#[test]
fn evaluated_submissions_settle_their_budget() {
    assert_eq!(settle_submission(SubmissionOutcome::Incorrect, false, Some(2)), Ok(Some(1)));
    assert_eq!(settle_submission(SubmissionOutcome::Correct, false, Some(2)), Ok(Some(2)));
    assert_eq!(settle_submission(SubmissionOutcome::Pending, false, None), Ok(None));
    assert_eq!(
        settle_submission(SubmissionOutcome::Pending, true, Some(2)),
        Err(DomainError::Conflict("a manual submission is already awaiting review".into()))
    );
}

#[test]
fn budget_is_exhausted_once_failures_reach_the_maximum() {
    for failed in [3, 4, 40] {
        assert_eq!(
            remaining_attempts(Some(3), failed),
            Err(DomainError::LimitExceeded("challenge attempt budget exhausted".into()))
        );
    }
    assert_eq!(remaining_attempts(Some(3), 2), Ok(Some(1)));
}

#[test]
fn sign_in_flows_are_bound_to_their_browser() {
    assert!(binding_matches(&[1, 2, 3], &[1, 2, 3]));
    assert!(!binding_matches(&[1, 2, 3], &[1, 2]));
    assert_eq!(resolve_bound(Some((vec![7u8; 32], "flow")), &[7u8; 32]), Some("flow"));
    assert_eq!(resolve_bound(Some((vec![7u8; 32], "flow")), &[8u8; 32]), None);
    assert_eq!(resolve_bound::<&str>(None, &[7u8; 32]), None);
}

#[test]
fn client_secrets_need_a_client_and_its_digest() {
    let stored = [5u8; 32];
    assert!(client_secret_accepted(Some(&stored), &[5u8; 32]));
    assert!(!client_secret_accepted(Some(&stored), &[6u8; 32]));
    assert!(!client_secret_accepted(None, &[0u8; 32]));
    assert!(!client_secret_accepted(None, &[5u8; 32]));
}

#[test]
fn issuance_retries_replay_only_the_same_issuance() {
    let team = TeamId(9);
    let digest = [3u8; 32];
    let stored = StoredIssuance {
        organization_id: 1,
        id: 2,
        event_id: 3,
        challenge_id: Some(4),
        user_id: None,
        team_id: Some(team.0),
        orchestrator: "docker",
        provider_id: Some("container-1"),
        template: "web-basic",
        expires_at: 1_000,
        flag_digest: Some(&digest),
    };
    let request = IssuanceRequest {
        organization_id: OrganizationId(1),
        instance_id: InstanceId(2),
        event_id: EventId(3),
        challenge_id: ChallengeId(4),
        competitor: CompetitorId::Team(team),
        orchestrator: "docker",
        provider_id: "container-1",
        template: "web-basic",
        expires_at: 1_000,
    };
    let different = Err(DomainError::Conflict("idempotency key belongs to a different instance issuance".into()));
    assert_eq!(check_issuance_replay(&stored, &request, true, &digest), Ok(()));
    assert_eq!(check_issuance_replay(&stored, &request, false, &digest), different);
    assert_eq!(check_issuance_replay(&stored, &request, true, &[4u8; 32]), different);
    let other = IssuanceRequest { template: "web-advanced", ..request };
    assert_eq!(check_issuance_replay(&stored, &other, true, &digest), different);
    let unready = StoredIssuance { flag_digest: None, ..stored };
    assert_eq!(
        check_issuance_replay(&unready, &request, true, &digest),
        Err(DomainError::Conflict("idempotency key belongs to an unready lease".into()))
    );
    let broken = StoredIssuance { user_id: Some(8), flag_digest: Some(&digest), ..unready };
    assert_eq!(
        check_issuance_replay(&broken, &request, true, &digest),
        Err(DomainError::Unavailable("instance contains an invalid competitor binding".into()))
    );
}

#[test]
fn connection_documents_are_small_credential_free_objects() {
    let object = JsonShape::Object(vec![("host".to_string(), JsonShape::Scalar)]);
    assert_eq!(validate_connection_shape(&object, 20), Ok(()));
    assert_eq!(
        validate_connection_shape(&JsonShape::Array(vec![]), 2),
        Err(DomainError::Validation("instance connection must be a JSON object".into()))
    );
    assert_eq!(
        validate_connection_shape(&object, MAXIMUM_CONNECTION_BYTES + 1),
        Err(DomainError::LimitExceeded("instance connection document is too large".into()))
    );
    let secret = JsonShape::Object(vec![("password".to_string(), JsonShape::Scalar)]);
    assert_eq!(
        validate_connection_shape(&secret, 20),
        Err(DomainError::Validation("instance connection must not contain credentials or flags".into()))
    );
}
