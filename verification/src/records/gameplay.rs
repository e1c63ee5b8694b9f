//! Gameplay rules around submissions: event windows, attempt budgets,
//! answer decisions, solve awards, hints, manual review and team rosters.

use vstd::prelude::*;

use vstd::utf8::encode_utf8;
use crate::challenge::{AnswerOutcome, AnswerRule, ChallengeKind, VisibilityRule, answer_outcome, visibility_allows};
use crate::digest::{constant_time_eq, sha256, sha256_digest};
use crate::events::SubmissionOutcome;
use crate::identity::{ChallengeId, DivisionId, TeamId, UserId};
use crate::scoring::{CompetitorId, ScoringRule, rule_error, rule_valid, saturating, saturating_add, solve_points, ScoringStrategy};
use crate::text::{byte_len, owned, same_text, trim, trimmed};
use crate::{DomainError, DomainResult};
use crate::records::columns::review_competitor;

verus! {

/// Refuses a merge or transfer of a team into itself.
pub fn require_distinct_teams(source: TeamId, target: TeamId) -> (r: DomainResult<()>)
    ensures
        source == target ==> (r matches Err(DomainError::Validation(m)) && m@ == "source and target teams must differ"@),
        source != target ==> r is Ok,
{
    if source == target {
        Err(DomainError::Validation(owned("source and target teams must differ")))
    } else {
        Ok(())
    }
}

/// A mathematical integer clamped into the `i32` range.
pub open spec fn clamp_i32(x: int) -> i32 {
    if x < i32::MIN {
        i32::MIN
    } else if x > i32::MAX {
        i32::MAX
    } else {
        x as i32
    }
}

/// What the attempt budget answers: no limit gives `None`; a failure count
/// outside `i32` is refused, and so is a budget that failures have reached
/// or passed; otherwise the attempts left, `max - failed` saturated to
/// `i32`, which is positive.
pub open spec fn attempts_left(max_attempts: Option<i32>, failed_attempts: i64, r: DomainResult<Option<i32>>) -> bool {
    match max_attempts {
        None => r == Ok::<Option<i32>, DomainError>(None),
        Some(max) => if failed_attempts < i32::MIN || failed_attempts > i32::MAX {
            r matches Err(DomainError::LimitExceeded(m)) && m@ == "challenge attempts"@
        } else if failed_attempts >= max {
            r matches Err(DomainError::LimitExceeded(m)) && m@ == "challenge attempt budget exhausted"@
        } else {
            r == Ok::<Option<i32>, DomainError>(Some(clamp_i32(max - failed_attempts)))
        },
    }
}

/// Incorrect attempts left under a challenge's attempt limit, or `None`
/// when it has none. An exhausted budget is refused.
pub fn remaining_attempts(max_attempts: Option<i32>, failed_attempts: i64) -> (r: DomainResult<Option<i32>>)
    ensures
        attempts_left(max_attempts, failed_attempts, r),
{
    let max = match max_attempts {
        Some(max) => max,
        None => return Ok(None),
    };
    if failed_attempts < i32::MIN as i64 || failed_attempts > i32::MAX as i64 {
        return Err(DomainError::LimitExceeded(owned("challenge attempts")));
    }
    if failed_attempts >= max as i64 {
        return Err(DomainError::LimitExceeded(owned("challenge attempt budget exhausted")));
    }
    let wide: i64 = max as i64 - failed_attempts;
    let remaining: i32 = if wide > i32::MAX as i64 {
        i32::MAX
    } else {
        wide as i32
    };
    Ok(Some(remaining))
}

/// Attempts left after a submission: an incorrect answer uses one up.
pub fn attempts_after(outcome: SubmissionOutcome, remaining: Option<i32>) -> (after: Option<i32>)
    requires
        outcome == SubmissionOutcome::Incorrect && remaining is Some ==> remaining.unwrap() > i32::MIN,
    ensures
        after == (match remaining {
            Some(left) => Some(if outcome == SubmissionOutcome::Incorrect { (left - 1) as i32 } else { left }),
            None => None,
        }),
{
    match remaining {
        Some(left) => if outcome == SubmissionOutcome::Incorrect {
            Some(left - 1)
        } else {
            Some(left)
        },
        None => None,
    }
}

/// Whether an event accepts gameplay at `now`: it is live, has started and
/// has not ended.
pub open spec fn accepting_submissions(state: Seq<char>, starts_at: Option<i64>, ends_at: Option<i64>, now: i64) -> bool {
    &&& state == "live"@
    &&& !(starts_at matches Some(start) && now < start)
    &&& !(ends_at matches Some(end) && now >= end)
}

/// Refuses gameplay outside a live event's window.
pub fn validate_event_window(event_state: &str, starts_at: Option<i64>, ends_at: Option<i64>, now: i64) -> (r: DomainResult<()>)
    ensures
        accepting_submissions(event_state@, starts_at, ends_at, now) ==> r is Ok,
        !accepting_submissions(event_state@, starts_at, ends_at, now) ==> (r matches Err(DomainError::Conflict(m))
            && m@ == "event is not accepting submissions"@),
{
    let not_started = match starts_at {
        Some(start) => now < start,
        None => false,
    };
    let ended = match ends_at {
        Some(end) => now >= end,
        None => false,
    };
    if !crate::text::same_text(event_state, "live") || not_started || ended {
        return Err(DomainError::Conflict(owned("event is not accepting submissions")));
    }
    Ok(())
}

/// Whether a stored challenge is open to a competitor: it is published or
/// scheduled, and its visibility rule admits the competitor's division and
/// solved challenges at `now`.
pub open spec fn challenge_open_to(
    state: Seq<char>,
    rule: VisibilityRule,
    now: i64,
    division: Option<DivisionId>,
    solves: Seq<ChallengeId>,
) -> bool {
    &&& (state == "published"@ || state == "scheduled"@)
    &&& visibility_allows(rule, now, division, solves)
}

/// Hides a challenge that a competitor may not see; a hidden challenge is
/// reported as missing.
pub fn challenge_visible_to(
    state: &str,
    rule: &VisibilityRule,
    now: i64,
    division: Option<DivisionId>,
    solves: &[ChallengeId],
) -> (r: DomainResult<()>)
    ensures
        challenge_open_to(state@, *rule, now, division, solves@) ==> r is Ok,
        !challenge_open_to(state@, *rule, now, division, solves@) ==> r matches Err(DomainError::NotFound),
{
    if !(same_text(state, "published") || same_text(state, "scheduled")) {
        return Err(DomainError::NotFound);
    }
    if rule.allows(now, division, solves) {
        Ok(())
    } else {
        Err(DomainError::NotFound)
    }
}

/// What a challenge's answer rules decide about an answer before any
/// outside verifier is consulted.
#[derive(Debug, Clone, Copy, PartialEq, Eq, Structural)]
pub enum AnswerCheck {
    /// The rules decide the outcome.
    Decided(SubmissionOutcome),
    /// A per-identity dynamic flag must be compared.
    NeedsDynamicVerification,
}

/// The rules' decision, read in order from `rules` with `pending` noting an
/// earlier manual-review rule: the first correct or dynamic rule decides;
/// else a manual rule leaves the answer pending and otherwise it is
/// incorrect. `None` when a rule fails to evaluate first.
pub open spec fn answer_check(rules: Seq<AnswerRule>, answer: Seq<char>, pending: bool) -> Option<AnswerCheck>
    decreases rules.len(),
{
    if rules.len() == 0 {
        Some(AnswerCheck::Decided(if pending { SubmissionOutcome::Pending } else { SubmissionOutcome::Incorrect }))
    } else {
        match answer_outcome(rules[0], answer) {
            None => None,
            Some(AnswerOutcome::Correct) => Some(AnswerCheck::Decided(SubmissionOutcome::Correct)),
            Some(AnswerOutcome::RequiresDynamicVerification) => Some(AnswerCheck::NeedsDynamicVerification),
            Some(AnswerOutcome::PendingReview) => answer_check(rules.drop_first(), answer, true),
            Some(AnswerOutcome::Incorrect) => answer_check(rules.drop_first(), answer, pending),
        }
    }
}

/// Evaluates an answer against a challenge's rules in order.
pub fn check_answer(rules: &[AnswerRule], answer: &str) -> (r: DomainResult<AnswerCheck>)
    ensures
        match answer_check(rules@, answer@, false) {
            Some(check) => r == Ok::<AnswerCheck, DomainError>(check),
            None => r matches Err(DomainError::Validation(_)),
        },
{
    let mut pending = false;
    let mut i: usize = 0;
    assert(rules@.skip(0) =~= rules@);
    while i < rules.len()
        invariant
            i <= rules@.len(),
            answer_check(rules@, answer@, false) == answer_check(rules@.skip(i as int), answer@, pending),
        decreases rules.len() - i,
    {
        let ghost rest = rules@.skip(i as int);
        assert(rest[0] == rules@[i as int]);
        assert(rest.drop_first() =~= rules@.skip(i + 1));
        match rules[i].evaluate(answer) {
            Err(error) => return Err(error),
            Ok(AnswerOutcome::Correct) => return Ok(AnswerCheck::Decided(SubmissionOutcome::Correct)),
            Ok(AnswerOutcome::RequiresDynamicVerification) => return Ok(AnswerCheck::NeedsDynamicVerification),
            Ok(AnswerOutcome::PendingReview) => {
                pending = true;
            },
            Ok(AnswerOutcome::Incorrect) => {},
        }
        i = i + 1;
    }
    Ok(AnswerCheck::Decided(if pending { SubmissionOutcome::Pending } else { SubmissionOutcome::Incorrect }))
}

/// The digest a dynamic answer is compared by: SHA-256 of the trimmed answer.
pub open spec fn trimmed_digest(answer: Seq<char>) -> Seq<u8> {
    sha256(encode_utf8(trimmed(answer)))
}

/// Compares an answer with the digest of the competitor's live instance flag.
pub fn dynamic_answer_outcome(stored_digest: &[u8], answer: &str) -> (outcome: SubmissionOutcome)
    ensures
        outcome == (if stored_digest@ == trimmed_digest(answer@) {
            SubmissionOutcome::Correct
        } else {
            SubmissionOutcome::Incorrect
        }),
{
    let submitted = sha256_digest(trim(answer).as_bytes());
    if constant_time_eq(stored_digest, submitted.as_slice()) {
        SubmissionOutcome::Correct
    } else {
        SubmissionOutcome::Incorrect
    }
}

/// Narrow decision returned by a plugin verifier.
#[derive(Debug, Clone, Copy, PartialEq, Eq, Structural)]
pub enum PluginAnswerDecision {
    /// Reject the answer.
    Incorrect,
    /// Accept the answer.
    Correct,
}

/// Process-local verifier attestation checked again under the challenge lock.
pub struct VerifiedPluginAnswer<'a> {
    /// Plugin name read from the challenge before invocation.
    pub plugin: &'a str,
    /// Plugin challenge kind read before invocation.
    pub kind: &'a str,
    /// Challenge revision (microseconds) that supplied plugin configuration.
    pub challenge_updated_at: i64,
    /// Digest of the exact normalized answer passed to the component.
    pub answer_digest: [u8; 32],
    /// Component decision.
    pub decision: PluginAnswerDecision,
}

/// Whether an attestation is bound to this plugin challenge revision and
/// this answer.
pub open spec fn plugin_binding_matches(
    plugin: Seq<char>,
    kind: Seq<char>,
    challenge_updated_at: i64,
    answer: Seq<char>,
    verification: VerifiedPluginAnswer,
) -> bool {
    &&& plugin == verification.plugin@
    &&& kind == verification.kind@
    &&& challenge_updated_at == verification.challenge_updated_at
    &&& trimmed_digest(answer) == verification.answer_digest@
}

/// Accepts a plugin verifier's decision only when it is bound to the
/// challenge's plugin, kind and revision and to the exact answer.
pub fn verify_plugin_answer(
    challenge_kind: &ChallengeKind,
    challenge_updated_at: i64,
    answer: &str,
    verification: Option<&VerifiedPluginAnswer>,
) -> (r: DomainResult<SubmissionOutcome>)
    ensures
        match verification {
            None => r matches Err(DomainError::Unavailable(m)) && m@ == "plugin answer verifier is not enabled"@,
            Some(v) => match challenge_kind {
                ChallengeKind::Plugin { plugin, kind } => if plugin_binding_matches(plugin@, kind@, challenge_updated_at, answer@, *v) {
                    r == Ok::<SubmissionOutcome, DomainError>(match v.decision {
                        PluginAnswerDecision::Incorrect => SubmissionOutcome::Incorrect,
                        PluginAnswerDecision::Correct => SubmissionOutcome::Correct,
                    })
                } else {
                    r matches Err(DomainError::Conflict(m)) && m@ == "plugin challenge changed during answer verification"@
                },
                _ => r matches Err(DomainError::Validation(m)) && m@ == "plugin verifier does not match the challenge type"@,
            },
        },
{
    let verification = match verification {
        Some(verification) => verification,
        None => return Err(DomainError::Unavailable(owned("plugin answer verifier is not enabled"))),
    };
    let (plugin, kind) = match challenge_kind {
        ChallengeKind::Plugin { plugin, kind } => (plugin, kind),
        _ => return Err(DomainError::Validation(owned("plugin verifier does not match the challenge type"))),
    };
    let submitted = sha256_digest(trim(answer).as_bytes());
    let binding_matches = crate::text::same_text(plugin.as_str(), verification.plugin)
        && crate::text::same_text(kind.as_str(), verification.kind)
        && challenge_updated_at == verification.challenge_updated_at
        && constant_time_eq(submitted.as_slice(), verification.answer_digest.as_slice());
    if !binding_matches {
        return Err(DomainError::Conflict(owned("plugin challenge changed during answer verification")));
    }
    Ok(match verification.decision {
        PluginAnswerDecision::Incorrect => SubmissionOutcome::Incorrect,
        PluginAnswerDecision::Correct => SubmissionOutcome::Correct,
    })
}

/// Points and flags of an accepted solve.
#[derive(Debug, Clone, Copy, PartialEq, Eq, Structural)]
pub struct SolveAward {
    /// Points for the solve itself.
    pub solve_points: i64,
    /// First-blood bonus (zero unless this is the first solve).
    pub bonus: i64,
    /// Whether this is the challenge's first accepted solve.
    pub first_blood: bool,
    /// Total points awarded, saturating.
    pub awarded_points: i64,
}

/// The award for a solve after `prior_solves` earlier ones, when the rule
/// gives points: the rule's points, plus the event's first-blood bonus
/// (never negative) for the first solve, summed with saturation.
pub open spec fn award_for(scoring: ScoringRule, prior_solves: u64, first_blood_bonus: i64) -> Option<SolveAward> {
    match solve_points(scoring, prior_solves) {
        None => None,
        Some(points) => {
            let first_blood = prior_solves == 0;
            let bonus: i64 = if first_blood && first_blood_bonus > 0 { first_blood_bonus } else { 0 };
            Some(SolveAward { solve_points: points, bonus, first_blood, awarded_points: saturating(points + bonus) })
        },
    }
}

/// The award for a solve after `prior_solves` earlier ones. A negative
/// count is refused; a failing rule is refused as `solve_value` refuses it.
pub fn solve_award(scoring: &ScoringRule, prior_solves: i64, first_blood_bonus: i64) -> (r: DomainResult<SolveAward>)
    requires
        prior_solves >= 0 ==> scoring.solve_value_defined(prior_solves as u64),
    ensures
        prior_solves < 0 ==> (r matches Err(DomainError::Unavailable(m)) && m@ == "negative solve count"@),
        prior_solves >= 0 ==> match award_for(*scoring, prior_solves as u64, first_blood_bonus) {
            None => r is Err,
            Some(award) => r == Ok::<SolveAward, DomainError>(award),
        },
        prior_solves >= 0 && !rule_valid(*scoring) ==> (r matches Err(DomainError::Validation(m)) && m@ == rule_error(
            *scoring,
        )),
        prior_solves >= 0 && rule_valid(*scoring) && scoring is Plugin ==> (r matches Err(DomainError::Unavailable(m))
            && m@ == "plugin strategy requires the plugin host"@),
{
    if prior_solves < 0 {
        return Err(DomainError::Unavailable(owned("negative solve count")));
    }
    let points = match scoring.solve_value(prior_solves as u64) {
        Ok(points) => points,
        Err(error) => return Err(error),
    };
    let first_blood = prior_solves == 0;
    let bonus: i64 = if first_blood {
        if first_blood_bonus > 0 { first_blood_bonus } else { 0 }
    } else {
        0
    };
    Ok(SolveAward { solve_points: points, bonus, first_blood, awarded_points: saturating_add(points, bonus) })
}

/// Only the first solve of a challenge carries first blood and a bonus;
/// later solves earn the rule's points alone.
pub proof fn lemma_bonus_only_for_first_solve(scoring: ScoringRule, prior_solves: u64, first_blood_bonus: i64)
    requires
        prior_solves > 0,
        award_for(scoring, prior_solves, first_blood_bonus) is Some,
    ensures
        !award_for(scoring, prior_solves, first_blood_bonus).unwrap().first_blood,
        award_for(scoring, prior_solves, first_blood_bonus).unwrap().bonus == 0,
        award_for(scoring, prior_solves, first_blood_bonus).unwrap().awarded_points
            == award_for(scoring, prior_solves, first_blood_bonus).unwrap().solve_points,
{
}

/// Player-safe hint state. Content is absent until the competitor unlocks it.
#[derive(Debug, Clone, PartialEq, Eq)]
pub struct HintRecord {
    /// Challenge-local hint identifier.
    pub id: u32,
    /// One-time score cost.
    pub cost: i64,
    /// Revealed content.
    pub content: Option<String>,
    /// Competitor unlock state.
    pub unlocked: bool,
}

/// Reads a hint row; identifiers are stored as non-negative `i32`.
pub fn hint_record_from_row(id: i32, cost: i64, content: Option<String>, unlocked: bool) -> (r: DomainResult<HintRecord>)
    ensures
        id < 0 ==> (r matches Err(DomainError::Unavailable(m)) && m@ == "negative hint identifier"@),
        id >= 0 ==> r == Ok::<HintRecord, DomainError>(HintRecord { id: id as u32, cost, content, unlocked }),
{
    if id < 0 {
        return Err(DomainError::Unavailable(owned("negative hint identifier")));
    }
    Ok(HintRecord { id: id as u32, cost, content, unlocked })
}

/// The stored column value of a hint identifier.
pub fn hint_column_id(hint_id: u32) -> (r: DomainResult<i32>)
    ensures
        hint_id > i32::MAX ==> (r matches Err(DomainError::Validation(m)) && m@ == "hint identifier is too large"@),
        hint_id <= i32::MAX ==> r == Ok::<i32, DomainError>(hint_id as i32),
{
    if hint_id > i32::MAX as u32 {
        return Err(DomainError::Validation(owned("hint identifier is too large")));
    }
    Ok(hint_id as i32)
}

/// The decision of a hint unlock once the hint and the competitor's earlier
/// unlock are known.
#[derive(Debug, Clone, PartialEq, Eq)]
pub struct HintUnlock {
    /// The unlocked hint, content revealed.
    pub hint: HintRecord,
    /// Points charged by this request.
    pub charged: i64,
    /// The negative score entry to record, if any.
    pub score_delta: Option<i64>,
    /// Whether the hint was already unlocked (nothing is recorded again).
    pub replayed: bool,
}

/// Unlocks a hint: a repeated unlock is replayed free of charge; a first
/// unlock charges the hint's cost, as a negative score entry when positive.
pub fn hint_unlock(hint_id: u32, cost: i64, content: String, already_unlocked: bool) -> (unlock: HintUnlock)
    ensures
        unlock.hint == (HintRecord { id: hint_id, cost, content: Some(content), unlocked: true }),
        unlock.replayed == already_unlocked,
        unlock.charged == (if already_unlocked { 0 } else { cost }),
        unlock.score_delta == (if !already_unlocked && cost > 0 { Some((-cost) as i64) } else { None::<i64> }),
{
    let hint = HintRecord { id: hint_id, cost, content: Some(content), unlocked: true };
    if already_unlocked {
        return HintUnlock { hint, charged: 0, score_delta: None, replayed: true };
    }
    let score_delta = if cost > 0 { Some(-cost) } else { None };
    HintUnlock { hint, charged: cost, score_delta, replayed: false }
}

/// The note stored with a manual review: trimmed, absent when blank, and
/// at most 10000 bytes.
pub fn review_note(note: Option<&str>) -> (r: DomainResult<Option<&str>>)
    ensures
        match note {
            None => r == Ok::<Option<&str>, DomainError>(None),
            Some(text) => if trimmed(text@).len() == 0 {
                r == Ok::<Option<&str>, DomainError>(None)
            } else if byte_len(trimmed(text@)) > 10_000 {
                r matches Err(DomainError::Validation(m)) && m@ == "manual review note cannot exceed 10000 bytes"@
            } else {
                r matches Ok(Some(kept)) && kept@ == trimmed(text@)
            },
        },
{
    let text = match note {
        Some(text) => trim(text),
        None => return Ok(None),
    };
    if text.is_empty() {
        return Ok(None);
    }
    if text.len() > 10_000 {
        return Err(DomainError::Validation(owned("manual review note cannot exceed 10000 bytes")));
    }
    Ok(Some(text))
}

/// The competitor of a manual submission under review; only a pending
/// submission can be reviewed.
pub fn review_target(outcome: &str, user_id: Option<u128>, team_id: Option<u128>) -> (r: DomainResult<CompetitorId>)
    ensures
        outcome@ != "pending"@ ==> (r matches Err(DomainError::Conflict(m)) && m@
            == "manual submission has already been reviewed"@),
        outcome@ == "pending"@ ==> match (user_id, team_id) {
            (_, Some(team)) => r == Ok::<CompetitorId, DomainError>(CompetitorId::Team(TeamId(team))),
            (Some(user), None) => r == Ok::<CompetitorId, DomainError>(CompetitorId::User(UserId(user))),
            (None, None) => r matches Err(DomainError::Unavailable(m)) && m@
                == "manual submission contains no competitor identity"@,
        },
{
    if !crate::text::same_text(outcome, "pending") {
        return Err(DomainError::Conflict(owned("manual submission has already been reviewed")));
    }
    review_competitor(user_id, team_id)
}

/// The outcome of a review: an accepted submission becomes correct unless
/// the competitor already solved the challenge; a refused one is discarded.
pub fn review_outcome(accepted: bool, already_solved: bool) -> (r: DomainResult<SubmissionOutcome>)
    ensures
        accepted && already_solved ==> (r matches Err(DomainError::Conflict(m)) && m@ == "challenge is already solved"@),
        accepted && !already_solved ==> r == Ok::<SubmissionOutcome, DomainError>(SubmissionOutcome::Correct),
        !accepted ==> r == Ok::<SubmissionOutcome, DomainError>(SubmissionOutcome::Discarded),
{
    if accepted && already_solved {
        return Err(DomainError::Conflict(owned("challenge is already solved")));
    }
    Ok(if accepted { SubmissionOutcome::Correct } else { SubmissionOutcome::Discarded })
}

/// The competitor an actor plays as under an event's participation mode
/// (`individual`, `team` or `hybrid`), given the actor's team, if any.
/// A team event without a team is refused with `team_required`.
pub fn participant(participation: &str, actor: UserId, team_id: Option<u128>, team_required: &str) -> (r: DomainResult<CompetitorId>)
    ensures
        participation@ == "individual"@ ==> r == Ok::<CompetitorId, DomainError>(CompetitorId::User(actor)),
        participation@ == "team"@ ==> match team_id {
            Some(team) => r == Ok::<CompetitorId, DomainError>(CompetitorId::Team(TeamId(team))),
            None => r matches Err(DomainError::Validation(m)) && m@ == team_required@,
        },
        participation@ == "hybrid"@ ==> r == Ok::<CompetitorId, DomainError>(match team_id {
            Some(team) => CompetitorId::Team(TeamId(team)),
            None => CompetitorId::User(actor),
        }),
        participation@ != "individual"@ && participation@ != "team"@ && participation@ != "hybrid"@ ==> (r matches Err(
            DomainError::Unavailable(m),
        ) && m@ == "event contains an invalid participation mode"@),
{
    proof {
        reveal_strlit("individual");
        reveal_strlit("team");
        reveal_strlit("hybrid");
        assert("team"@.len() != "individual"@.len() && "hybrid"@.len() != "individual"@.len());
        assert("hybrid"@.len() != "team"@.len());
    }
    if same_text(participation, "individual") {
        Ok(CompetitorId::User(actor))
    } else if same_text(participation, "team") {
        match team_id {
            Some(team) => Ok(CompetitorId::Team(TeamId(team))),
            None => Err(DomainError::Validation(owned(team_required))),
        }
    } else if same_text(participation, "hybrid") {
        Ok(match team_id {
            Some(team) => CompetitorId::Team(TeamId(team)),
            None => CompetitorId::User(actor),
        })
    } else {
        Err(DomainError::Unavailable(owned("event contains an invalid participation mode")))
    }
}

/// Refuses a team larger than an event's size limit.
pub fn enforce_team_size(members: i64, limit: Option<i16>) -> (r: DomainResult<()>)
    ensures
        (limit matches Some(l) && members > l) ==> (r matches Err(DomainError::Validation(m)) && m@
            == "team exceeds this event's size limit"@),
        !(limit matches Some(l) && members > l) ==> r is Ok,
{
    match limit {
        Some(l) => if members > l as i64 {
            Err(DomainError::Validation(owned("team exceeds this event's size limit")))
        } else {
            Ok(())
        },
        None => Ok(()),
    }
}

/// Refuses registration for an ended or archived event.
pub fn registration_open(event_state: &str) -> (r: DomainResult<()>)
    ensures
        (event_state@ == "ended"@ || event_state@ == "archived"@) ==> (r matches Err(DomainError::Conflict(m)) && m@
            == "event registration is closed"@),
        !(event_state@ == "ended"@ || event_state@ == "archived"@) ==> r is Ok,
{
    if same_text(event_state, "ended") || same_text(event_state, "archived") {
        Err(DomainError::Conflict(owned("event registration is closed")))
    } else {
        Ok(())
    }
}

/// The replacement captain a member transfer needs: a transferred captain
/// must name another member to take over, and only a captain may.
/// Answers the replacement to check for membership, if any.
pub fn captain_replacement(member: UserId, member_is_captain: bool, replacement: Option<UserId>) -> (r: DomainResult<Option<UserId>>)
    ensures
        member_is_captain && replacement is None ==> (r matches Err(DomainError::Validation(m)) && m@
            == "a source-team replacement captain is required"@),
        member_is_captain && replacement == Some(member) ==> (r matches Err(DomainError::Validation(m)) && m@
            == "replacement captain must be another source-team member"@),
        member_is_captain && (replacement matches Some(other) && other != member) ==> r == Ok::<
            Option<UserId>,
            DomainError,
        >(replacement),
        !member_is_captain && replacement is Some ==> (r matches Err(DomainError::Validation(m)) && m@
            == "replacement captain is only valid when transferring the captain"@),
        !member_is_captain && replacement is None ==> r == Ok::<Option<UserId>, DomainError>(None),
{
    if member_is_captain {
        let other = match replacement {
            Some(other) => other,
            None => return Err(DomainError::Validation(owned("a source-team replacement captain is required"))),
        };
        if other == member {
            return Err(DomainError::Validation(owned("replacement captain must be another source-team member")));
        }
        Ok(Some(other))
    } else if replacement.is_some() {
        Err(DomainError::Validation(owned("replacement captain is only valid when transferring the captain")))
    } else {
        Ok(None)
    }
}

/// Checks that a stored submission may answer a retried request: it was
/// made by the actor or the actor's team, for the same challenge, with the
/// same trimmed answer.
pub fn check_submission_replay(
    stored_user: Option<u128>,
    actor_in_team: bool,
    stored_challenge: Option<u128>,
    stored_digest: Option<&[u8]>,
    actor: UserId,
    challenge: u128,
    answer: &str,
) -> (r: DomainResult<()>)
    ensures
        stored_user != Some(actor.0) && !actor_in_team ==> (r matches Err(DomainError::Conflict(m)) && m@
            == "idempotency key is already in use"@),
        !(stored_user != Some(actor.0) && !actor_in_team) && stored_challenge != Some(challenge) ==> (r matches Err(
            DomainError::Conflict(m),
        ) && m@ == "idempotency key belongs to another challenge"@),
        !(stored_user != Some(actor.0) && !actor_in_team) && stored_challenge == Some(challenge) && !(stored_digest matches Some(
            d,
        ) && d@ == trimmed_digest(answer@)) ==> (r matches Err(DomainError::Conflict(m)) && m@
            == "idempotency key was used with a different answer"@),
        !(stored_user != Some(actor.0) && !actor_in_team) && stored_challenge == Some(challenge) && (stored_digest matches Some(
            d,
        ) && d@ == trimmed_digest(answer@)) ==> r is Ok,
{
    if stored_user != Some(actor.0) && !actor_in_team {
        return Err(DomainError::Conflict(owned("idempotency key is already in use")));
    }
    if stored_challenge != Some(challenge) {
        return Err(DomainError::Conflict(owned("idempotency key belongs to another challenge")));
    }
    let submitted = sha256_digest(trim(answer).as_bytes());
    let matches = match stored_digest {
        Some(stored) => constant_time_eq(stored, submitted.as_slice()),
        None => false,
    };
    if !matches {
        return Err(DomainError::Conflict(owned("idempotency key was used with a different answer")));
    }
    Ok(())
}

/// Admits a submission once the competitor is known, in the order the
/// checks are made: the challenge must be open to the competitor, not
/// already solved by it, and within its attempt budget. Answers the
/// attempts left.
pub fn admit_submission(
    challenge_state: &str,
    visibility: &VisibilityRule,
    now: i64,
    division: Option<DivisionId>,
    solves: &[ChallengeId],
    already_solved: bool,
    max_attempts: Option<i32>,
    failed_attempts: i64,
) -> (r: DomainResult<Option<i32>>)
    ensures
        !challenge_open_to(challenge_state@, *visibility, now, division, solves@) ==> r matches Err(DomainError::NotFound),
        challenge_open_to(challenge_state@, *visibility, now, division, solves@) && already_solved ==> (r matches Err(
            DomainError::Conflict(m),
        ) && m@ == "challenge is already solved"@),
        challenge_open_to(challenge_state@, *visibility, now, division, solves@) && !already_solved ==> attempts_left(
            max_attempts,
            failed_attempts,
            r,
        ),
{
    match challenge_visible_to(challenge_state, visibility, now, division, solves) {
        Ok(()) => {},
        Err(error) => return Err(error),
    }
    if already_solved {
        return Err(DomainError::Conflict(owned("challenge is already solved")));
    }
    remaining_attempts(max_attempts, failed_attempts)
}

/// Settles an evaluated submission: a submission awaiting review is refused
/// while another of the competitor's is still awaiting review; otherwise
/// answers the attempts left after it.
pub fn settle_submission(outcome: SubmissionOutcome, pending_exists: bool, remaining: Option<i32>) -> (r: DomainResult<Option<i32>>)
    requires
        outcome == SubmissionOutcome::Incorrect && remaining is Some ==> remaining.unwrap() > i32::MIN,
    ensures
        outcome == SubmissionOutcome::Pending && pending_exists ==> (r matches Err(DomainError::Conflict(m)) && m@
            == "a manual submission is already awaiting review"@),
        !(outcome == SubmissionOutcome::Pending && pending_exists) ==> r == Ok::<Option<i32>, DomainError>(
            match remaining {
                Some(left) => Some(if outcome == SubmissionOutcome::Incorrect { (left - 1) as i32 } else { left }),
                None => None,
            },
        ),
{
    if outcome == SubmissionOutcome::Pending && pending_exists {
        return Err(DomainError::Conflict(owned("a manual submission is already awaiting review")));
    }
    Ok(attempts_after(outcome, remaining))
}

} // verus!
