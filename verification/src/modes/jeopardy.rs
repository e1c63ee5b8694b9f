//! Jeopardy mode: challenges, answer checking, solves, attempts and hints.

use std::collections::{BTreeMap, BTreeSet};

use vstd::prelude::*;

use crate::challenge::{
    AnswerOutcome, AnswerRule, Challenge, Hint, answer_outcome, answer_rule_valid, challenge_problem,
};
use crate::events::SubmissionOutcome;
use crate::identity::{ChallengeId, DivisionId, EventId};
use crate::scoring::{
    CompetitorId, ScoreEntry, ScoreReason, ScoringStrategy, competitor_key, decay_fits,
    rule_error, rule_valid, solve_points,
};
use crate::text::owned;
use crate::{DomainError, DomainResult};

verus! {

/// Jeopardy mode aggregate. Challenges are keyed by their identifier bits,
/// competitors by their ordering key.
#[derive(Debug, Clone, PartialEq)]
pub struct JeopardyState {
    /// Challenges by identifier.
    pub challenges: BTreeMap<u128, Challenge>,
    /// Answer rules by challenge.
    pub answers: BTreeMap<u128, Vec<AnswerRule>>,
    /// Solving competitors by challenge.
    pub solves: BTreeMap<u128, BTreeSet<(u8, u128)>>,
    /// Failed attempts by challenge and competitor.
    pub failures: BTreeMap<(u128, u8, u128), u32>,
    /// Unlocked hints: challenge, hint and competitor.
    pub hint_unlocks: BTreeSet<(u128, u32, u8, u128)>,
}

impl JeopardyState {
    /// An empty Jeopardy state.
    pub fn new() -> (state: Self)
        ensures
            state.challenges@ == Map::<u128, Challenge>::empty(),
            state.answers@ == Map::<u128, Vec<AnswerRule>>::empty(),
            state.solves@ == Map::<u128, BTreeSet<(u8, u128)>>::empty(),
            state.failures@ == Map::<(u128, u8, u128), u32>::empty(),
            state.hint_unlocks@ == Set::<(u128, u32, u8, u128)>::empty(),
    {
        JeopardyState {
            challenges: BTreeMap::new(),
            answers: BTreeMap::new(),
            solves: BTreeMap::new(),
            failures: BTreeMap::new(),
            hint_unlocks: BTreeSet::new(),
        }
    }
}

impl Default for JeopardyState {
    fn default() -> (state: Self)
        ensures
            state.challenges@ == Map::<u128, Challenge>::empty(),
            state.answers@ == Map::<u128, Vec<AnswerRule>>::empty(),
            state.solves@ == Map::<u128, BTreeSet<(u8, u128)>>::empty(),
            state.failures@ == Map::<(u128, u8, u128), u32>::empty(),
            state.hint_unlocks@ == Set::<(u128, u32, u8, u128)>::empty(),
    {
        JeopardyState::new()
    }
}

/// Type-safe Jeopardy commands used by services before JSON adaptation.
#[derive(Debug, Clone)]
pub enum JeopardyCommand {
    /// Publish or replace an authored challenge.
    UpsertChallenge {
        /// Challenge.
        challenge: Challenge,
        /// Answer rules stored separately from the public challenge.
        answers: Vec<AnswerRule>,
    },
    /// Submit an answer.
    Submit {
        /// Competitor.
        competitor: CompetitorId,
        /// Challenge.
        challenge_id: ChallengeId,
        /// User-supplied answer.
        answer: String,
        /// Division snapshot.
        division: Option<DivisionId>,
        /// Event score sequence start.
        score_sequence: u64,
        /// Optional first-blood bonus.
        first_blood_bonus: i64,
    },
    /// Spend points to unlock a hint.
    UnlockHint {
        /// Competitor.
        competitor: CompetitorId,
        /// Challenge.
        challenge_id: ChallengeId,
        /// Hint key.
        hint_id: u32,
        /// Event score sequence.
        score_sequence: u64,
    },
}

/// Command result with a stable submission outcome.
#[derive(Debug, Clone, PartialEq)]
pub struct JeopardyResult {
    /// Submission result when applicable.
    pub outcome: Option<SubmissionOutcome>,
    /// Appended score entries.
    pub scores: Vec<ScoreEntry>,
    /// First blood was awarded.
    pub first_blood: bool,
}

/// Whether every answer rule passes validation.
pub open spec fn all_rules_valid(rules: Seq<AnswerRule>) -> bool {
    forall|i: int| 0 <= i < rules.len() ==> answer_rule_valid(#[trigger] rules[i])
}

/// Evaluating every rule in order: whether any accepted the answer, and
/// whether any asked for review; `None` when a rule fails to evaluate.
pub open spec fn rules_verdict(rules: Seq<AnswerRule>, answer: Seq<char>) -> Option<(bool, bool)>
    decreases rules.len(),
{
    if rules.len() == 0 {
        Some((false, false))
    } else {
        match rules_verdict(rules.drop_last(), answer) {
            None => None,
            Some((correct, pending)) => match answer_outcome(rules[rules.len() - 1], answer) {
                None => None,
                Some(outcome) => Some(
                    (correct || outcome == AnswerOutcome::Correct, pending || outcome
                        == AnswerOutcome::PendingReview),
                ),
            },
        }
    }
}

/// The competitors that solved a challenge (none when unrecorded).
pub open spec fn solvers(state: JeopardyState, challenge: u128) -> Set<(u8, u128)> {
    if state.solves@.contains_key(challenge) {
        state.solves@[challenge]@
    } else {
        Set::empty()
    }
}

/// The recorded failures of a competitor on a challenge (zero when unrecorded).
pub open spec fn failures_of(state: JeopardyState, key: (u128, u8, u128)) -> u32 {
    if state.failures@.contains_key(key) {
        state.failures@[key]
    } else {
        0
    }
}

/// The solve map records exactly `solved` for the challenge and is
/// otherwise unchanged.
pub open spec fn solves_now(old: JeopardyState, new: JeopardyState, challenge: u128, solved: Set<(u8, u128)>) -> bool {
    &&& new.solves@.contains_key(challenge)
    &&& new.solves@[challenge]@ == solved
    &&& new.solves@.remove(challenge) == old.solves@.remove(challenge)
}

/// The first hint with an identifier.
pub open spec fn find_hint(hints: Seq<Hint>, hint_id: u32) -> Option<Hint>
    decreases hints.len(),
{
    if hints.len() == 0 {
        None
    } else if hints[0].id == hint_id {
        Some(hints[0])
    } else {
        find_hint(hints.drop_first(), hint_id)
    }
}

/// `u32::saturating_add` of one.
pub open spec fn saturating_increment(value: u32) -> u32 {
    if value == u32::MAX {
        u32::MAX
    } else {
        (value + 1) as u32
    }
}

/// The score entries of a correct submission: the solve, then the
/// first-blood bonus when this is the first solve and the bonus is non-zero.
pub open spec fn solve_entries(
    event_id: EventId,
    competitor: CompetitorId,
    challenge_id: ChallengeId,
    division: Option<DivisionId>,
    score_sequence: u64,
    points: i64,
    first_blood: bool,
    first_blood_bonus: i64,
    now: i64,
) -> Seq<ScoreEntry> {
    let solve = ScoreEntry {
        event_id,
        competitor,
        division_id: division,
        sequence: score_sequence,
        points,
        reason: ScoreReason::Solve { challenge_id },
        occurred_at: now,
        hidden_by_freeze: false,
    };
    let bonus = ScoreEntry {
        event_id,
        competitor,
        division_id: division,
        sequence: if score_sequence == u64::MAX { u64::MAX } else { (score_sequence + 1) as u64 },
        points: first_blood_bonus,
        reason: ScoreReason::FirstBlood { challenge_id },
        occurred_at: now,
        hidden_by_freeze: false,
    };
    if first_blood && first_blood_bonus != 0 {
        seq![solve, bonus]
    } else {
        seq![solve]
    }
}

/// A result without outcome, scores or first blood.
pub open spec fn quiet_result(result: JeopardyResult) -> bool {
    result.outcome is None && result.scores@.len() == 0 && !result.first_blood
}

/// A submission result with an outcome and no scores.
pub open spec fn unscored_result(result: JeopardyResult, outcome: SubmissionOutcome) -> bool {
    result.outcome == Some(outcome) && result.scores@.len() == 0 && !result.first_blood
}

/// Effect of authoring a challenge.
pub open spec fn upsert_effect(
    old: JeopardyState,
    new: JeopardyState,
    event_id: EventId,
    challenge: Challenge,
    answers: Vec<AnswerRule>,
    r: DomainResult<JeopardyResult>,
) -> bool {
    let k = challenge.id.0;
    match challenge_problem(challenge) {
        Some(message) => r matches Err(DomainError::Validation(m)) && m@ == message && new == old,
        None => if challenge.event_id != event_id {
            r matches Err(DomainError::Validation(m)) && m@ == "event mismatch"@ && new == old
        } else if !all_rules_valid(answers@) {
            r matches Err(DomainError::Validation(_)) && new == old
        } else {
            &&& r matches Ok(result) && quiet_result(result)
            &&& new.challenges@ == old.challenges@.insert(k, challenge)
            &&& new.answers@ == old.answers@.insert(k, answers)
            &&& new.solves == old.solves
            &&& new.failures == old.failures
            &&& new.hint_unlocks == old.hint_unlocks
        },
    }
}

/// Effect of a submission.
pub open spec fn submit_effect(
    old: JeopardyState,
    new: JeopardyState,
    event_id: EventId,
    competitor: CompetitorId,
    challenge_id: ChallengeId,
    answer: Seq<char>,
    division: Option<DivisionId>,
    score_sequence: u64,
    first_blood_bonus: i64,
    now: i64,
    r: DomainResult<JeopardyResult>,
) -> bool {
    let k = challenge_id.0;
    let c = competitor_key(competitor);
    let fk = (k, c.0, c.1);
    if !old.challenges@.contains_key(k) {
        r == Err::<JeopardyResult, DomainError>(DomainError::NotFound) && new == old
    } else {
        let challenge = old.challenges@[k];
        let solved = solvers(old, k);
        let failed = failures_of(old, fk);
        &&& new.challenges == old.challenges
        &&& new.answers == old.answers
        &&& new.hint_unlocks == old.hint_unlocks
        &&& if solved.contains(c) {
            &&& r matches Err(DomainError::Conflict(m)) && m@ == "competitor already solved challenge"@
            &&& solves_now(old, new, k, solved)
            &&& new.failures == old.failures
        } else if challenge.max_attempts matches Some(maximum) && failed >= maximum {
            &&& r matches Ok(result) && unscored_result(result, SubmissionOutcome::RateLimited)
            &&& solves_now(old, new, k, solved)
            &&& new.failures@ == old.failures@.insert(fk, failed)
        } else if !old.answers@.contains_key(k) {
            &&& r matches Err(DomainError::Unavailable(m)) && m@ == "answer rules absent"@
            &&& solves_now(old, new, k, solved)
            &&& new.failures@ == old.failures@.insert(fk, failed)
        } else {
            match rules_verdict(old.answers@[k]@, answer) {
                None => {
                    &&& r matches Err(DomainError::Validation(_))
                    &&& solves_now(old, new, k, solved)
                    &&& new.failures@ == old.failures@.insert(fk, failed)
                },
                Some((correct, pending)) => if pending && !correct {
                    &&& r matches Ok(result) && unscored_result(result, SubmissionOutcome::Pending)
                    &&& solves_now(old, new, k, solved)
                    &&& new.failures@ == old.failures@.insert(fk, failed)
                } else if !correct {
                    &&& r matches Ok(result) && unscored_result(result, SubmissionOutcome::Incorrect)
                    &&& solves_now(old, new, k, solved)
                    &&& new.failures@ == old.failures@.insert(fk, saturating_increment(failed))
                } else {
                    let first_blood = solved.len() == 0;
                    match solve_points(challenge.scoring, solved.len() as u64) {
                        None => {
                            &&& r is Err
                            &&& !rule_valid(challenge.scoring) ==> (r matches Err(DomainError::Validation(m)) && m@
                                == rule_error(challenge.scoring))
                            &&& rule_valid(challenge.scoring) && challenge.scoring is Plugin ==> (r matches Err(
                                DomainError::Unavailable(m),
                            ) && m@ == "plugin strategy requires the plugin host"@)
                            &&& solves_now(old, new, k, solved)
                            &&& new.failures@ == old.failures@.insert(fk, failed)
                        },
                        Some(points) => {
                            &&& r matches Ok(result) && result.outcome == Some(SubmissionOutcome::Correct)
                                && result.first_blood == first_blood && result.scores@ == solve_entries(
                                event_id,
                                competitor,
                                challenge_id,
                                division,
                                score_sequence,
                                points,
                                first_blood,
                                first_blood_bonus,
                                now,
                            )
                            &&& solves_now(old, new, k, solved.insert(c))
                            &&& new.failures@ == old.failures@.insert(fk, failed)
                        },
                    }
                },
            }
        }
    }
}

/// Effect of unlocking a hint.
pub open spec fn unlock_effect(
    old: JeopardyState,
    new: JeopardyState,
    event_id: EventId,
    competitor: CompetitorId,
    challenge_id: ChallengeId,
    hint_id: u32,
    score_sequence: u64,
    now: i64,
    r: DomainResult<JeopardyResult>,
) -> bool {
    let k = challenge_id.0;
    let c = competitor_key(competitor);
    let key = (k, hint_id, c.0, c.1);
    if !old.challenges@.contains_key(k) {
        r == Err::<JeopardyResult, DomainError>(DomainError::NotFound) && new == old
    } else {
        match find_hint(old.challenges@[k].hints@, hint_id) {
            None => r == Err::<JeopardyResult, DomainError>(DomainError::NotFound) && new == old,
            Some(hint) => if old.hint_unlocks@.contains(key) {
                r matches Err(DomainError::Conflict(m)) && m@ == "hint already unlocked"@ && new == old
            } else {
                &&& r matches Ok(result) && result.outcome is None && !result.first_blood
                    && result.scores@ == (if hint.cost != 0 {
                    seq![
                        ScoreEntry {
                            event_id,
                            competitor,
                            division_id: None,
                            sequence: score_sequence,
                            points: (-hint.cost) as i64,
                            reason: ScoreReason::Hint { challenge_id, hint_id },
                            occurred_at: now,
                            hidden_by_freeze: false,
                        },
                    ]
                } else {
                    Seq::<ScoreEntry>::empty()
                })
                &&& new.hint_unlocks@ == old.hint_unlocks@.insert(key)
                &&& new.challenges == old.challenges
                &&& new.answers == old.answers
                &&& new.solves == old.solves
                &&& new.failures == old.failures
            },
        }
    }
}

/// Effect of any Jeopardy command.
pub open spec fn apply_effect(
    old: JeopardyState,
    new: JeopardyState,
    event_id: EventId,
    command: JeopardyCommand,
    now: i64,
    r: DomainResult<JeopardyResult>,
) -> bool {
    match command {
        JeopardyCommand::UpsertChallenge { challenge, answers } => upsert_effect(
            old,
            new,
            event_id,
            challenge,
            answers,
            r,
        ),
        JeopardyCommand::Submit {
            competitor,
            challenge_id,
            answer,
            division,
            score_sequence,
            first_blood_bonus,
        } => submit_effect(
            old,
            new,
            event_id,
            competitor,
            challenge_id,
            answer@,
            division,
            score_sequence,
            first_blood_bonus,
            now,
            r,
        ),
        JeopardyCommand::UnlockHint { competitor, challenge_id, hint_id, score_sequence } => unlock_effect(
            old,
            new,
            event_id,
            competitor,
            challenge_id,
            hint_id,
            score_sequence,
            now,
            r,
        ),
    }
}

/// Whether a submission will be accepted and scored: the challenge exists,
/// the competitor has not solved it, its attempt budget is not spent, and
/// its answer rules accept the answer.
pub open spec fn submission_accepted(
    state: JeopardyState,
    competitor: CompetitorId,
    challenge_id: ChallengeId,
    answer: Seq<char>,
) -> bool {
    let k = challenge_id.0;
    let c = competitor_key(competitor);
    &&& state.challenges@.contains_key(k)
    &&& !solvers(state, k).contains(c)
    &&& !(state.challenges@[k].max_attempts matches Some(maximum) && failures_of(state, (k, c.0, c.1)) >= maximum)
    &&& state.answers@.contains_key(k)
    &&& rules_verdict(state.answers@[k]@, answer) matches Some((correct, _)) && correct
}

/// What a command needs of the state so that it cannot overflow: scoring an
/// accepted answer needs its decay arithmetic to fit, and unlocking a hint
/// needs its cost to be negatable. Other submissions need nothing.
pub open spec fn command_defined(state: JeopardyState, command: JeopardyCommand) -> bool {
    match command {
        JeopardyCommand::Submit { competitor, challenge_id, answer, .. } => submission_accepted(
            state,
            competitor,
            challenge_id,
            answer@,
        ) ==> (rule_valid(state.challenges@[challenge_id.0].scoring) ==> decay_fits(
            state.challenges@[challenge_id.0].scoring,
            solvers(state, challenge_id.0).len() as u64,
        )),
        JeopardyCommand::UnlockHint { challenge_id, hint_id, .. } => state.challenges@.contains_key(
            challenge_id.0,
        ) ==> (find_hint(state.challenges@[challenge_id.0].hints@, hint_id) matches Some(hint)
            ==> hint.cost != i64::MIN),
        _ => true,
    }
}

/// The integer keys of the Jeopardy collections are totally ordered.
proof fn lemma_keys_ordered()
    ensures
        vstd::laws_cmp::obeys_cmp::<u128>(),
        vstd::laws_cmp::obeys_cmp::<(u8, u128)>(),
        vstd::laws_cmp::obeys_cmp::<(u128, u8, u128)>(),
        vstd::laws_cmp::obeys_cmp::<(u128, u32, u8, u128)>(),
{
    assert(vstd::laws_cmp::obeys_cmp::<u8>());
    assert(vstd::laws_cmp::obeys_cmp::<u32>());
    assert(vstd::laws_cmp::obeys_cmp::<u128>());
}

fn quiet() -> (result: JeopardyResult)
    ensures
        quiet_result(result),
{
    JeopardyResult { outcome: None, scores: Vec::new(), first_blood: false }
}

fn unscored(outcome: SubmissionOutcome) -> (result: JeopardyResult)
    ensures
        unscored_result(result, outcome),
{
    JeopardyResult { outcome: Some(outcome), scores: Vec::new(), first_blood: false }
}

fn validate_rules(answers: &Vec<AnswerRule>) -> (r: DomainResult<()>)
    ensures
        r is Ok <==> all_rules_valid(answers@),
        r is Err ==> r matches Err(DomainError::Validation(_)),
{
    let mut i: usize = 0;
    while i < answers.len()
        invariant
            i <= answers.len(),
            forall|k: int| 0 <= k < i ==> answer_rule_valid(#[trigger] answers@[k]),
        decreases answers.len() - i,
    {
        match answers[i].validate() {
            Ok(()) => {},
            Err(error) => {
                assert(!answer_rule_valid(answers@[i as int]));
                return Err(error);
            },
        }
        i = i + 1;
    }
    Ok(())
}

fn evaluate_rules(rules: &Vec<AnswerRule>, answer: &str) -> (r: DomainResult<(bool, bool)>)
    ensures
        match rules_verdict(rules@, answer@) {
            Some(verdict) => r == Ok::<(bool, bool), DomainError>(verdict),
            None => r matches Err(DomainError::Validation(_)),
        },
{
    let mut correct = false;
    let mut pending = false;
    let mut i: usize = 0;
    while i < rules.len()
        invariant
            i <= rules.len(),
            rules_verdict(rules@.take(i as int), answer@) == Some((correct, pending)),
        decreases rules.len() - i,
    {
        proof {
            assert(rules@.take(i + 1).drop_last() =~= rules@.take(i as int));
        }
        match rules[i].evaluate(answer) {
            Ok(outcome) => {
                pending = pending || outcome == AnswerOutcome::PendingReview;
                correct = correct || outcome == AnswerOutcome::Correct;
            },
            Err(error) => {
                proof {
                    lemma_verdict_fails_from(rules@, answer@, i as int);
                }
                return Err(error);
            },
        }
        i = i + 1;
    }
    assert(rules@.take(rules@.len() as int) =~= rules@);
    Ok((correct, pending))
}

proof fn lemma_verdict_fails_from(rules: Seq<AnswerRule>, answer: Seq<char>, i: int)
    requires
        0 <= i < rules.len(),
        rules_verdict(rules.take(i + 1), answer) is None,
    ensures
        rules_verdict(rules, answer) is None,
    decreases rules.len() - i,
{
    if i + 1 < rules.len() {
        assert(rules.take(i + 2).drop_last() =~= rules.take(i + 1));
        lemma_verdict_fails_from(rules, answer, i + 1);
    } else {
        assert(rules.take(i + 1) =~= rules);
    }
}

fn hint_by_id(hints: &Vec<Hint>, hint_id: u32) -> (found: Option<&Hint>)
    ensures
        match find_hint(hints@, hint_id) {
            Some(hint) => found matches Some(h) && *h == hint,
            None => found is None,
        },
{
    let mut i: usize = 0;
    assert(hints@.subrange(0, hints@.len() as int) =~= hints@);
    while i < hints.len()
        invariant
            i <= hints.len(),
            find_hint(hints@, hint_id) == find_hint(hints@.subrange(i as int, hints@.len() as int), hint_id),
        decreases hints.len() - i,
    {
        proof {
            let rest = hints@.subrange(i as int, hints@.len() as int);
            assert(rest.drop_first() =~= hints@.subrange(i + 1, hints@.len() as int));
        }
        if hints[i].id == hint_id {
            return Some(&hints[i]);
        }
        i = i + 1;
    }
    None
}

impl JeopardyState {
    fn upsert_challenge(&mut self, event_id: EventId, challenge: Challenge, answers: Vec<AnswerRule>) -> (r: DomainResult<JeopardyResult>)
        ensures
            upsert_effect(*old(self), *final(self), event_id, challenge, answers, r),
    {
        match challenge.validate() {
            Ok(()) => {},
            Err(error) => return Err(error),
        }
        if challenge.event_id != event_id {
            return Err(DomainError::Validation(owned("event mismatch")));
        }
        match validate_rules(&answers) {
            Ok(()) => {},
            Err(error) => return Err(error),
        }
        proof {
            lemma_keys_ordered();
        }
        let k = challenge.id.0;
        self.answers.insert(k, answers);
        self.challenges.insert(k, challenge);
        Ok(quiet())
    }

    fn submit(
        &mut self,
        event_id: EventId,
        competitor: CompetitorId,
        challenge_id: ChallengeId,
        answer: String,
        division: Option<DivisionId>,
        score_sequence: u64,
        first_blood_bonus: i64,
        now: i64,
    ) -> (r: DomainResult<JeopardyResult>)
        requires
            command_defined(
                *old(self),
                JeopardyCommand::Submit {
                    competitor,
                    challenge_id,
                    answer,
                    division,
                    score_sequence,
                    first_blood_bonus,
                },
            ),
        ensures
            submit_effect(
                *old(self),
                *final(self),
                event_id,
                competitor,
                challenge_id,
                answer@,
                division,
                score_sequence,
                first_blood_bonus,
                now,
                r,
            ),
    {
        proof {
            lemma_keys_ordered();
        }
        let k = challenge_id.0;
        let challenge = match self.challenges.get(&k) {
            Some(challenge) => challenge,
            None => return Err(DomainError::NotFound),
        };
        let c = competitor.key();
        let fk = (k, c.0, c.1);
        let (already, count) = match self.solves.get(&k) {
            Some(set) => (set.contains(&c), set.len()),
            None => (false, 0usize),
        };
        if !self.solves.contains_key(&k) {
            self.solves.insert(k, BTreeSet::new());
        }
        assert(self.solves@.remove(k) =~= old(self).solves@.remove(k));
        if already {
            return Err(DomainError::Conflict(owned("competitor already solved challenge")));
        }
        let failed: u32 = match self.failures.get(&fk) {
            Some(value) => *value,
            None => 0,
        };
        self.failures.insert(fk, failed);
        if let Some(maximum) = challenge.max_attempts {
            if failed >= maximum {
                return Ok(unscored(SubmissionOutcome::RateLimited));
            }
        }
        let rules = match self.answers.get(&k) {
            Some(rules) => rules,
            None => return Err(DomainError::Unavailable(owned("answer rules absent"))),
        };
        let (correct, pending) = match evaluate_rules(rules, answer.as_str()) {
            Ok(verdict) => verdict,
            Err(error) => return Err(error),
        };
        if pending && !correct {
            return Ok(unscored(SubmissionOutcome::Pending));
        }
        if !correct {
            self.failures.insert(fk, failed.saturating_add(1));
            assert(self.failures@ =~= old(self).failures@.insert(fk, saturating_increment(failed)));
            return Ok(unscored(SubmissionOutcome::Incorrect));
        }
        let first_blood = count == 0;
        let points = match challenge.scoring.solve_value(count as u64) {
            Ok(points) => points,
            Err(error) => return Err(error),
        };
        let mut solved = match self.solves.remove(&k) {
            Some(set) => set,
            None => BTreeSet::new(),
        };
        solved.insert(c);
        self.solves.insert(k, solved);
        assert(self.solves@.remove(k) =~= old(self).solves@.remove(k));
        let mut scores: Vec<ScoreEntry> = Vec::new();
        scores.push(
            ScoreEntry {
                event_id,
                competitor,
                division_id: division,
                sequence: score_sequence,
                points,
                reason: ScoreReason::Solve { challenge_id },
                occurred_at: now,
                hidden_by_freeze: false,
            },
        );
        if first_blood && first_blood_bonus != 0 {
            scores.push(
                ScoreEntry {
                    event_id,
                    competitor,
                    division_id: division,
                    sequence: score_sequence.saturating_add(1),
                    points: first_blood_bonus,
                    reason: ScoreReason::FirstBlood { challenge_id },
                    occurred_at: now,
                    hidden_by_freeze: false,
                },
            );
        }
        assert(scores@ =~= solve_entries(
            event_id,
            competitor,
            challenge_id,
            division,
            score_sequence,
            points,
            first_blood,
            first_blood_bonus,
            now,
        ));
        Ok(JeopardyResult { outcome: Some(SubmissionOutcome::Correct), scores, first_blood })
    }

    fn unlock_hint(
        &mut self,
        event_id: EventId,
        competitor: CompetitorId,
        challenge_id: ChallengeId,
        hint_id: u32,
        score_sequence: u64,
        now: i64,
    ) -> (r: DomainResult<JeopardyResult>)
        requires
            command_defined(
                *old(self),
                JeopardyCommand::UnlockHint { competitor, challenge_id, hint_id, score_sequence },
            ),
        ensures
            unlock_effect(*old(self), *final(self), event_id, competitor, challenge_id, hint_id, score_sequence, now, r),
    {
        proof {
            lemma_keys_ordered();
        }
        let k = challenge_id.0;
        let challenge = match self.challenges.get(&k) {
            Some(challenge) => challenge,
            None => return Err(DomainError::NotFound),
        };
        let hint = match hint_by_id(&challenge.hints, hint_id) {
            Some(hint) => hint,
            None => return Err(DomainError::NotFound),
        };
        let c = competitor.key();
        if self.hint_unlocks.contains(&(k, hint_id, c.0, c.1)) {
            return Err(DomainError::Conflict(owned("hint already unlocked")));
        }
        self.hint_unlocks.insert((k, hint_id, c.0, c.1));
        let mut scores: Vec<ScoreEntry> = Vec::new();
        if hint.cost != 0 {
            scores.push(
                ScoreEntry {
                    event_id,
                    competitor,
                    division_id: None,
                    sequence: score_sequence,
                    points: -hint.cost,
                    reason: ScoreReason::Hint { challenge_id, hint_id },
                    occurred_at: now,
                    hidden_by_freeze: false,
                },
            );
        }
        Ok(JeopardyResult { outcome: None, scores, first_blood: false })
    }

    /// Applies a typed Jeopardy command and preserves solve/attempt invariants.
    pub fn apply(&mut self, event_id: EventId, command: JeopardyCommand, now: i64) -> (r: DomainResult<JeopardyResult>)
        requires
            command_defined(*old(self), command),
        ensures
            apply_effect(*old(self), *final(self), event_id, command, now, r),
    {
        match command {
            JeopardyCommand::UpsertChallenge { challenge, answers } => self.upsert_challenge(
                event_id,
                challenge,
                answers,
            ),
            JeopardyCommand::Submit {
                competitor,
                challenge_id,
                answer,
                division,
                score_sequence,
                first_blood_bonus,
            } => self.submit(
                event_id,
                competitor,
                challenge_id,
                answer,
                division,
                score_sequence,
                first_blood_bonus,
                now,
            ),
            JeopardyCommand::UnlockHint { competitor, challenge_id, hint_id, score_sequence } => self.unlock_hint(
                event_id,
                competitor,
                challenge_id,
                hint_id,
                score_sequence,
                now,
            ),
        }
    }
}

/// Solves are never lost: under every command, each challenge keeps every
/// competitor that had solved it.
pub proof fn lemma_solves_only_grow(
    old: JeopardyState,
    new: JeopardyState,
    event_id: EventId,
    command: JeopardyCommand,
    now: i64,
    r: DomainResult<JeopardyResult>,
    challenge: u128,
)
    requires
        apply_effect(old, new, event_id, command, now, r),
    ensures
        solvers(old, challenge).subset_of(solvers(new, challenge)),
{
    match command {
        JeopardyCommand::Submit { challenge_id, .. } => {
            let k = challenge_id.0;
            if old.challenges@.contains_key(k) && challenge != k {
                assert(old.solves@.remove(k).contains_key(challenge) == old.solves@.contains_key(challenge));
                assert(new.solves@.remove(k).contains_key(challenge) == new.solves@.contains_key(challenge));
                if old.solves@.contains_key(challenge) {
                    assert(old.solves@.remove(k)[challenge] == old.solves@[challenge]);
                    assert(new.solves@.remove(k)[challenge] == new.solves@[challenge]);
                }
            }
        },
        _ => {},
    }
}

/// A competitor solves a challenge at most once: a submission from a
/// competitor that already solved it is refused and scores nothing.
pub proof fn lemma_no_second_solve(
    old: JeopardyState,
    new: JeopardyState,
    event_id: EventId,
    competitor: CompetitorId,
    challenge_id: ChallengeId,
    answer: Seq<char>,
    division: Option<DivisionId>,
    score_sequence: u64,
    first_blood_bonus: i64,
    now: i64,
    r: DomainResult<JeopardyResult>,
)
    requires
        submit_effect(old, new, event_id, competitor, challenge_id, answer, division, score_sequence, first_blood_bonus, now, r),
        old.challenges@.contains_key(challenge_id.0),
        solvers(old, challenge_id.0).contains(competitor_key(competitor)),
    ensures
        r matches Err(DomainError::Conflict(_)),
        solvers(new, challenge_id.0) == solvers(old, challenge_id.0),
{
}

/// First blood is awarded once: once anyone has solved a challenge, no
/// later submission on it earns first blood or its bonus, and a correct
/// submission records its competitor as a solver.
pub proof fn lemma_first_blood_once(
    old: JeopardyState,
    new: JeopardyState,
    event_id: EventId,
    competitor: CompetitorId,
    challenge_id: ChallengeId,
    answer: Seq<char>,
    division: Option<DivisionId>,
    score_sequence: u64,
    first_blood_bonus: i64,
    now: i64,
    r: DomainResult<JeopardyResult>,
)
    requires
        submit_effect(old, new, event_id, competitor, challenge_id, answer, division, score_sequence, first_blood_bonus, now, r),
        solvers(old, challenge_id.0).finite(),
    ensures
        solvers(old, challenge_id.0).len() > 0 ==> (r matches Ok(result) ==> !result.first_blood && result.scores@.len() <= 1),
        r matches Ok(result) && result.first_blood ==> solvers(old, challenge_id.0) == Set::<(u8, u128)>::empty(),
        r matches Ok(result) && result.outcome == Some(SubmissionOutcome::Correct) ==> solvers(new, challenge_id.0)
            == solvers(old, challenge_id.0).insert(competitor_key(competitor)),
{
    let k = challenge_id.0;
    if r matches Ok(result) && result.first_blood {
        assert(solvers(old, k).len() == 0);
        assert(solvers(old, k) =~= Set::<(u8, u128)>::empty()) by {
            if exists|x: (u8, u128)| solvers(old, k).contains(x) {
                let x = choose|x: (u8, u128)| solvers(old, k).contains(x);
                assert(solvers(old, k).remove(x).len() + 1 == solvers(old, k).len());
            }
        }
    }
}

/// A hint is charged once: unlocking a hint the competitor already holds
/// is refused, changes nothing and charges nothing.
pub proof fn lemma_hint_charged_once(
    old: JeopardyState,
    new: JeopardyState,
    event_id: EventId,
    competitor: CompetitorId,
    challenge_id: ChallengeId,
    hint_id: u32,
    score_sequence: u64,
    now: i64,
    r: DomainResult<JeopardyResult>,
)
    requires
        unlock_effect(old, new, event_id, competitor, challenge_id, hint_id, score_sequence, now, r),
        old.hint_unlocks@.contains(
            (challenge_id.0, hint_id, competitor_key(competitor).0, competitor_key(competitor).1),
        ),
    ensures
        r is Err,
        new == old,
{
}

/// Failed attempts are counted one by one and the attempt budget holds:
/// only an incorrect answer raises a competitor's failures, by one, and a
/// competitor that reached the budget is rate limited without evaluation.
pub proof fn lemma_attempt_budget(
    old: JeopardyState,
    new: JeopardyState,
    event_id: EventId,
    competitor: CompetitorId,
    challenge_id: ChallengeId,
    answer: Seq<char>,
    division: Option<DivisionId>,
    score_sequence: u64,
    first_blood_bonus: i64,
    now: i64,
    r: DomainResult<JeopardyResult>,
)
    requires
        submit_effect(old, new, event_id, competitor, challenge_id, answer, division, score_sequence, first_blood_bonus, now, r),
        old.challenges@.contains_key(challenge_id.0),
    ensures
        ({
            let key = (challenge_id.0, competitor_key(competitor).0, competitor_key(competitor).1);
            &&& failures_of(new, key) >= failures_of(old, key)
            &&& failures_of(new, key) > failures_of(old, key) ==> (r matches Ok(result) && result.outcome
                == Some(SubmissionOutcome::Incorrect) && failures_of(new, key) == failures_of(old, key) + 1)
            &&& (old.challenges@[challenge_id.0].max_attempts matches Some(maximum) && failures_of(old, key)
                >= maximum && !solvers(old, challenge_id.0).contains(competitor_key(competitor))) ==> (r matches Ok(
                result,
            ) && result.outcome == Some(SubmissionOutcome::RateLimited) && result.scores@.len() == 0)
        }),
{
}

/// A challenge's answer rules judge an answer as a whole: the verdict
/// exists exactly when every rule evaluates the answer; it is correct
/// exactly when some rule, wherever it stands, accepts the answer, and asks
/// for review exactly when some rule does.
pub proof fn lemma_verdict_is_any_rule(rules: Seq<AnswerRule>, answer: Seq<char>)
    ensures
        rules_verdict(rules, answer) is Some <==> forall|i: int| 0 <= i < rules.len() ==> (#[trigger] answer_outcome(
            rules[i],
            answer,
        )) is Some,
        rules_verdict(rules, answer) matches Some((correct, pending)) ==> {
            &&& correct <==> exists|i: int| 0 <= i < rules.len() && #[trigger] answer_outcome(rules[i], answer) == Some(
                AnswerOutcome::Correct,
            )
            &&& pending <==> exists|i: int| 0 <= i < rules.len() && #[trigger] answer_outcome(rules[i], answer) == Some(
                AnswerOutcome::PendingReview,
            )
        },
    decreases rules.len(),
{
    if rules.len() > 0 {
        let front = rules.drop_last();
        let n = rules.len() - 1;
        lemma_verdict_is_any_rule(front, answer);
        assert forall|i: int| 0 <= i < front.len() implies #[trigger] front[i] == rules[i] by {}
        if rules_verdict(rules, answer) is Some {
            assert forall|i: int| 0 <= i < rules.len() implies (#[trigger] answer_outcome(rules[i], answer)) is Some by {
                if i < n {
                    assert(front[i] == rules[i]);
                    assert(answer_outcome(front[i], answer) is Some);
                }
            }
        }
        if forall|i: int| 0 <= i < rules.len() ==> (#[trigger] answer_outcome(rules[i], answer)) is Some {
            assert forall|i: int| 0 <= i < front.len() implies (#[trigger] answer_outcome(front[i], answer)) is Some by {
                assert(front[i] == rules[i]);
                assert(answer_outcome(rules[i], answer) is Some);
            }
            assert(answer_outcome(rules[n], answer) is Some);
        }
        if let Some((correct, pending)) = rules_verdict(rules, answer) {
            let (c0, p0) = rules_verdict(front, answer).unwrap();
            let last = answer_outcome(rules[n], answer).unwrap();
            if correct {
                if !c0 {
                    assert(answer_outcome(rules[n], answer) == Some(AnswerOutcome::Correct));
                } else {
                    let i = choose|i: int| 0 <= i < front.len() && #[trigger] answer_outcome(front[i], answer) == Some(
                        AnswerOutcome::Correct,
                    );
                    assert(answer_outcome(rules[i], answer) == Some(AnswerOutcome::Correct));
                }
            }
            if exists|i: int| 0 <= i < rules.len() && #[trigger] answer_outcome(rules[i], answer) == Some(
                AnswerOutcome::Correct,
            ) {
                let i = choose|i: int| 0 <= i < rules.len() && #[trigger] answer_outcome(rules[i], answer) == Some(
                    AnswerOutcome::Correct,
                );
                if i < n {
                    assert(answer_outcome(front[i], answer) == Some(AnswerOutcome::Correct));
                }
            }
            if pending {
                if !p0 {
                    assert(answer_outcome(rules[n], answer) == Some(AnswerOutcome::PendingReview));
                } else {
                    let i = choose|i: int| 0 <= i < front.len() && #[trigger] answer_outcome(front[i], answer) == Some(
                        AnswerOutcome::PendingReview,
                    );
                    assert(answer_outcome(rules[i], answer) == Some(AnswerOutcome::PendingReview));
                }
            }
            if exists|i: int| 0 <= i < rules.len() && #[trigger] answer_outcome(rules[i], answer) == Some(
                AnswerOutcome::PendingReview,
            ) {
                let i = choose|i: int| 0 <= i < rules.len() && #[trigger] answer_outcome(rules[i], answer) == Some(
                    AnswerOutcome::PendingReview,
                );
                if i < n {
                    assert(answer_outcome(front[i], answer) == Some(AnswerOutcome::PendingReview));
                }
            }
        }
    }
}

/// An answer that some rule of the challenge accepts solves it: when the
/// challenge exists, the competitor has not solved it, its attempt budget is
/// not spent, every rule evaluates the answer and one of them accepts it,
/// the submission is correct, scores at least its solve entry, and records
/// the competitor as a solver. Only the scoring rule can refuse it.
pub proof fn lemma_accepting_rule_solves(
    old: JeopardyState,
    new: JeopardyState,
    event_id: EventId,
    competitor: CompetitorId,
    challenge_id: ChallengeId,
    answer: Seq<char>,
    division: Option<DivisionId>,
    score_sequence: u64,
    first_blood_bonus: i64,
    now: i64,
    r: DomainResult<JeopardyResult>,
    accepting: int,
)
    requires
        submit_effect(old, new, event_id, competitor, challenge_id, answer, division, score_sequence, first_blood_bonus, now, r),
        old.challenges@.contains_key(challenge_id.0),
        !solvers(old, challenge_id.0).contains(competitor_key(competitor)),
        !(old.challenges@[challenge_id.0].max_attempts matches Some(maximum) && failures_of(
            old,
            (challenge_id.0, competitor_key(competitor).0, competitor_key(competitor).1),
        ) >= maximum),
        old.answers@.contains_key(challenge_id.0),
        forall|i: int| 0 <= i < old.answers@[challenge_id.0]@.len() ==> (#[trigger] answer_outcome(
            old.answers@[challenge_id.0]@[i],
            answer,
        )) is Some,
        0 <= accepting < old.answers@[challenge_id.0]@.len(),
        answer_outcome(old.answers@[challenge_id.0]@[accepting], answer) == Some(AnswerOutcome::Correct),
        solve_points(old.challenges@[challenge_id.0].scoring, solvers(old, challenge_id.0).len() as u64) is Some,
    ensures
        r matches Ok(result) && result.outcome == Some(SubmissionOutcome::Correct) && result.scores@.len() >= 1
            && result.scores@[0].reason == (ScoreReason::Solve { challenge_id }) && result.scores@[0].competitor
            == competitor,
        solvers(new, challenge_id.0) == solvers(old, challenge_id.0).insert(competitor_key(competitor)),
{
    let rules = old.answers@[challenge_id.0]@;
    lemma_verdict_is_any_rule(rules, answer);
    assert(answer_outcome(rules[accepting], answer) == Some(AnswerOutcome::Correct));
}

/// Two Jeopardy states that hold the same challenges, answer rules, solves,
/// failures and hint unlocks.
pub open spec fn same_jeopardy_state(a: JeopardyState, b: JeopardyState) -> bool {
    &&& a.challenges@ == b.challenges@
    &&& a.answers@ == b.answers@
    &&& a.failures@ == b.failures@
    &&& a.hint_unlocks@ == b.hint_unlocks@
    &&& a.solves@.dom() == b.solves@.dom()
    &&& forall|k: u128| #[trigger] a.solves@.contains_key(k) ==> a.solves@[k]@ == b.solves@[k]@
}

/// Two command results that agree on success and, when successful, on the
/// outcome, the score entries and first blood.
pub open spec fn same_jeopardy_result(a: DomainResult<JeopardyResult>, b: DomainResult<JeopardyResult>) -> bool {
    &&& (a is Ok <==> b is Ok)
    &&& (a matches Ok(x) ==> (b matches Ok(y) && x.outcome == y.outcome && x.scores@ == y.scores@
        && x.first_blood == y.first_blood))
}

/// Commands replay deterministically: applying the same command at the same
/// instant to the same state twice gives the same state and the same
/// result.
pub proof fn lemma_replay_is_deterministic(
    old: JeopardyState,
    first: JeopardyState,
    second: JeopardyState,
    event_id: EventId,
    command: JeopardyCommand,
    now: i64,
    r1: DomainResult<JeopardyResult>,
    r2: DomainResult<JeopardyResult>,
)
    requires
        apply_effect(old, first, event_id, command, now, r1),
        apply_effect(old, second, event_id, command, now, r2),
    ensures
        same_jeopardy_state(first, second),
        same_jeopardy_result(r1, r2),
{
    match command {
        JeopardyCommand::Submit { challenge_id, .. } => {
            let k = challenge_id.0;
            if old.challenges@.contains_key(k) {
                assert(first.solves@.dom() =~= second.solves@.dom()) by {
                    assert forall|j: u128| first.solves@.contains_key(j) implies second.solves@.contains_key(j) by {
                        if j != k {
                            assert(first.solves@.remove(k).contains_key(j));
                        }
                    }
                    assert forall|j: u128| second.solves@.contains_key(j) implies first.solves@.contains_key(j) by {
                        if j != k {
                            assert(second.solves@.remove(k).contains_key(j));
                        }
                    }
                }
                assert forall|j: u128| #[trigger] first.solves@.contains_key(j) implies first.solves@[j]@
                    == second.solves@[j]@ by {
                    if j != k {
                        assert(first.solves@.remove(k)[j] == first.solves@[j]);
                        assert(second.solves@.remove(k)[j] == second.solves@[j]);
                    }
                }
            }
        },
        _ => {},
    }
    if let (Ok(x), Ok(y)) = (r1, r2) {
        if x.scores@.len() == 0 && y.scores@.len() == 0 {
            assert(x.scores@ =~= y.scores@);
        }
    }
}

/// JSON adapter registration for Jeopardy; typed commands are used by the
/// API service.
pub struct JeopardyMode;

impl JeopardyMode {
    /// Stable registration key.
    pub fn key(&self) -> (key: &'static str)
        ensures
            key@ == "jeopardy"@,
    {
        "jeopardy"
    }

    /// Admin control keys offered by this mode.
    pub fn admin_controls(&self) -> (controls: Vec<&'static str>)
        ensures
            controls@.len() == 5,
            controls@[0]@ == "publish"@,
            controls@[1]@ == "hide"@,
            controls@[2]@ == "freeze"@,
            controls@[3]@ == "unfreeze"@,
            controls@[4]@ == "recalculate"@,
    {
        vec!["publish", "hide", "freeze", "unfreeze", "recalculate"]
    }

    /// The answer to an untyped JSON command: Jeopardy commands carry
    /// secrets and go through the typed service only.
    pub fn refuse_untyped(&self) -> (error: DomainError)
        ensures
            error matches DomainError::Validation(m) && m@ == "Jeopardy commands require the secret-aware typed service"@,
    {
        DomainError::Validation(owned("Jeopardy commands require the secret-aware typed service"))
    }

    /// The public view of a Jeopardy state: everything but the answer rules.
    pub fn public_state(&self, state: JeopardyState) -> (public: JeopardyState)
        ensures
            public.answers@ == Map::<u128, Vec<AnswerRule>>::empty(),
            public.challenges == state.challenges,
            public.solves == state.solves,
            public.failures == state.failures,
            public.hint_unlocks == state.hint_unlocks,
    {
        let mut public = state;
        public.answers = BTreeMap::new();
        public
    }
}

} // verus!
