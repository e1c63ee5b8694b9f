//! Rules that the persistence layer applies around its queries: column
//! encodings of identities and lifecycle states, record integrity checks,
//! attempt budgets, answer verification decisions, solve awards, account
//! and instance checks, writeups, surveys and command receipts.

pub mod columns;
pub mod accounts;
pub mod gameplay;
pub mod instances;
pub mod engagement;
pub mod outbox;

pub use self::columns::{
    PasskeyFlowKind, outcome_key, writeup_state_key, parse_writeup_state, event_state_key, parse_event_state, competitor_columns, competitor_identity, competitor_from_columns, review_competitor, review_competitor_identity, writeup_competitor, unavailable, is_unique_violation, conflict_or_unavailable,
};
pub use self::accounts::{
    normalize_email, binding_matches, resolve_bound, client_secret_accepted, LocalAccount, TotpCredential, PublicOidcProvider, VerifiedOidcIdentity, OidcAccount, PasskeyAccount, PublicSamlProvider, VerifiedSamlIdentity, SamlAccount, validate_grant_narrowing, validate_event_scope, FederatedLogin, federated_login, validate_self_disable,
};
pub use self::gameplay::{
    require_distinct_teams, remaining_attempts, attempts_after, validate_event_window, challenge_visible_to, admit_submission, settle_submission, AnswerCheck, check_answer, dynamic_answer_outcome, PluginAnswerDecision, VerifiedPluginAnswer, verify_plugin_answer, SolveAward, solve_award, HintRecord, hint_record_from_row, hint_column_id, HintUnlock, hint_unlock, review_note, review_target, review_outcome, participant, enforce_team_size, registration_open, captain_replacement, check_submission_replay,
};
pub use self::instances::{
    validate_instance_template, StoredIssuance, IssuanceRequest, check_issuance_replay, validate_actorless_timestamp, validate_key, MINIMUM_TTL_MICROS, MAXIMUM_TTL_MICROS, validate_issue_fields, dynamic_flag_digest, expected_generation, next_flag_generation, JsonShape, contains_sensitive_key, MAXIMUM_CONNECTION_BYTES, validate_connection_shape,
};
pub use self::engagement::{
    SurveyTally, tally_question, writeup_body, saved_writeup_state, writeup_review,
};
pub use self::outbox::{
    replayed_version, next_aggregate_version, page_rows, validate_audit_range, validate_consumer_key,
};
