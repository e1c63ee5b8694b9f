//! Challenge authoring and answer validation.

use vstd::prelude::*;
use vstd::string::StringExecFns;
use vstd::utf8::encode_utf8;

use crate::digest::{constant_time_eq, sha256, sha256_digest};
use crate::identity::{ChallengeId, DivisionId, EventId, within_window};
use crate::pattern::{CompiledPattern, check_syntax, regex_builds, regex_compiles, regex_finds};
use crate::scoring::{ScoringRule, rule_error, rule_valid};
use crate::text::{
    blank, i64_text, is_blank, owned, same_text, signed_decimal, to_lowercase, trim, trimmed,
    unicode_lowercase,
};
use crate::{DomainError, DomainResult};

verus! {

/// Challenge behavior implemented by core or a capability-bound plugin.
#[derive(Debug, Clone, PartialEq, Eq)]
pub enum ChallengeKind {
    /// Text answer validated by one or more policies.
    StaticFlag,
    /// One selected answer from declared choices.
    MultipleChoice { choices: Vec<String> },
    /// Per-identity orchestrated service.
    DynamicInstance { template: String },
    /// Downloadable artifact is the primary challenge material.
    FileBacked,
    /// Organizer-managed remote TCP/HTTP service.
    RemoteService { connection: String },
    /// Submission enters a review queue.
    ManualVerification,
    /// Component-provided type with a stable registration key.
    Plugin { plugin: String, kind: String },
}

/// Authoring lifecycle.
#[derive(Debug, Clone, Copy, PartialEq, Eq, Structural)]
pub enum ChallengeState {
    /// Only authors can see it.
    Draft,
    /// Testers and authors can see it.
    Testing,
    /// Visibility is controlled by the release window.
    Scheduled,
    /// Eligible players can see it.
    Published,
    /// Explicitly removed from players without deleting history.
    Hidden,
    /// Read-only historical content.
    Archived,
}

/// Visibility constraints evaluated in addition to lifecycle state.
#[derive(Debug, Clone, PartialEq, Eq)]
pub struct VisibilityRule {
    /// Earliest release instant.
    pub visible_from: Option<i64>,
    /// Hide instant.
    pub visible_until: Option<i64>,
    /// Empty means all divisions; each division listed once.
    pub division_ids: Vec<DivisionId>,
    /// All listed prerequisite challenges must be solved; each listed once.
    pub prerequisites: Vec<ChallengeId>,
}

impl Default for VisibilityRule {
    fn default() -> (rule: Self)
        ensures
            rule.visible_from is None,
            rule.visible_until is None,
            rule.division_ids@.len() == 0,
            rule.prerequisites@.len() == 0,
    {
        VisibilityRule {
            visible_from: None,
            visible_until: None,
            division_ids: Vec::new(),
            prerequisites: Vec::new(),
        }
    }
}

/// Whether a visibility rule admits a player context.
pub open spec fn visibility_allows(
    rule: VisibilityRule,
    at: i64,
    division: Option<DivisionId>,
    solves: Seq<ChallengeId>,
) -> bool {
    &&& within_window(rule.visible_from, rule.visible_until, at)
    &&& (rule.division_ids@.len() == 0 || (division matches Some(id) && rule.division_ids@.contains(id)))
    &&& forall|i: int| 0 <= i < rule.prerequisites@.len() ==> solves.contains(#[trigger] rule.prerequisites@[i])
}

fn contains_division(ids: &Vec<DivisionId>, id: DivisionId) -> (found: bool)
    ensures
        found == ids@.contains(id),
{
    let mut i: usize = 0;
    while i < ids.len()
        invariant
            i <= ids.len(),
            forall|k: int| 0 <= k < i ==> ids@[k] != id,
        decreases ids.len() - i,
    {
        if ids[i] == id {
            return true;
        }
        i = i + 1;
    }
    false
}

/// Whether a list of challenge identifiers holds one.
pub fn contains_challenge(ids: &[ChallengeId], id: ChallengeId) -> (found: bool)
    ensures
        found == ids@.contains(id),
{
    let mut i: usize = 0;
    while i < ids.len()
        invariant
            i <= ids.len(),
            forall|k: int| 0 <= k < i ==> ids@[k] != id,
        decreases ids.len() - i,
    {
        if ids[i] == id {
            return true;
        }
        i = i + 1;
    }
    false
}

impl VisibilityRule {
    /// Determines player visibility for a concrete context.
    pub fn allows(&self, at: i64, division: Option<DivisionId>, solves: &[ChallengeId]) -> (visible: bool)
        ensures
            visible == visibility_allows(*self, at, division, solves@),
    {
        let after_start = match self.visible_from {
            Some(start) => at >= start,
            None => true,
        };
        let before_end = match self.visible_until {
            Some(end) => at < end,
            None => true,
        };
        if !(after_start && before_end) {
            return false;
        }
        if self.division_ids.len() != 0 {
            match division {
                Some(id) => {
                    if !contains_division(&self.division_ids, id) {
                        return false;
                    }
                },
                None => {
                    return false;
                },
            }
        }
        let mut i: usize = 0;
        while i < self.prerequisites.len()
            invariant
                i <= self.prerequisites.len(),
                forall|k: int| 0 <= k < i ==> solves@.contains(#[trigger] self.prerequisites@[k]),
            decreases self.prerequisites.len() - i,
        {
            if !contains_challenge(solves, self.prerequisites[i]) {
                return false;
            }
            i = i + 1;
        }
        true
    }
}

/// Player-facing hint with an optional score cost.
#[derive(Debug, Clone, PartialEq, Eq)]
pub struct Hint {
    /// Stable ordering and key.
    pub id: u32,
    /// Hint body.
    pub content: String,
    /// Non-negative score cost.
    pub cost: i64,
}

/// A survey item offered after solve or writeup.
#[derive(Debug, Clone, PartialEq, Eq)]
pub struct SurveyQuestion {
    /// Stable key.
    pub key: String,
    /// Prompt.
    pub prompt: String,
    /// Allowed integer range, inclusive.
    pub range: Option<(i32, i32)>,
    /// Whether an answer is required.
    pub required: bool,
}

/// Player writeup lifecycle shared by the author and organizer review queue.
#[derive(Debug, Clone, Copy, PartialEq, Eq, Structural)]
pub enum WriteupState {
    /// Editable player work that has not entered review.
    Draft,
    /// Waiting for an organizer decision.
    Submitted,
    /// Organizer feedback requires another player revision.
    ChangesRequested,
    /// Accepted by an organizer but not publicly visible.
    Approved,
    /// Accepted and visible under the challenge's publication policy.
    Published,
}

/// The variant name of a writeup state, as its `Debug` output shows it.
pub open spec fn writeup_state_name(state: WriteupState) -> Seq<char> {
    match state {
        WriteupState::Draft => "Draft"@,
        WriteupState::Submitted => "Submitted"@,
        WriteupState::ChangesRequested => "ChangesRequested"@,
        WriteupState::Approved => "Approved"@,
        WriteupState::Published => "Published"@,
    }
}

/// Whether the author still controls a writeup.
pub open spec fn author_controls(state: WriteupState) -> bool {
    state == WriteupState::Draft || state == WriteupState::ChangesRequested
}

/// Organizer review moves.
pub open spec fn review_allowed(from: WriteupState, to: WriteupState) -> bool {
    match (from, to) {
        (WriteupState::Submitted, WriteupState::ChangesRequested) => true,
        (WriteupState::Submitted, WriteupState::Approved) => true,
        (WriteupState::Approved, WriteupState::ChangesRequested) => true,
        (WriteupState::Approved, WriteupState::Published) => true,
        _ => false,
    }
}

impl WriteupState {
    /// The variant name used in lifecycle messages.
    pub fn name(self) -> (name: &'static str)
        ensures
            name@ == writeup_state_name(self),
    {
        proof {
            reveal_strlit("Draft");
            reveal_strlit("Submitted");
            reveal_strlit("ChangesRequested");
            reveal_strlit("Approved");
            reveal_strlit("Published");
        }
        match self {
            WriteupState::Draft => "Draft",
            WriteupState::Submitted => "Submitted",
            WriteupState::ChangesRequested => "ChangesRequested",
            WriteupState::Approved => "Approved",
            WriteupState::Published => "Published",
        }
    }

    /// Validates an author-controlled transition.
    pub fn author_transition(self, submit: bool) -> (r: DomainResult<Self>)
        ensures
            author_controls(self) && !submit ==> r == Ok::<Self, DomainError>(self),
            author_controls(self) && submit ==> r == Ok::<Self, DomainError>(WriteupState::Submitted),
            !author_controls(self) ==> (r matches Err(DomainError::Conflict(m)) && m@
                == "writeup is locked while it is under organizer control"@),
    {
        match (self, submit) {
            (WriteupState::Draft, false) | (WriteupState::ChangesRequested, false) => Ok(self),
            (WriteupState::Draft, true) | (WriteupState::ChangesRequested, true) => Ok(
                WriteupState::Submitted,
            ),
            _ => Err(
                DomainError::Conflict(owned("writeup is locked while it is under organizer control")),
            ),
        }
    }

    /// Validates an organizer-controlled review transition.
    pub fn review_transition(self, next: Self) -> (r: DomainResult<Self>)
        ensures
            review_allowed(self, next) ==> r == Ok::<Self, DomainError>(next),
            !review_allowed(self, next) ==> (r matches Err(DomainError::Conflict(m)) && m@
                == "writeup cannot transition from "@ + writeup_state_name(self) + " to "@
                + writeup_state_name(next)),
    {
        let allowed = match (self, next) {
            (WriteupState::Submitted, WriteupState::ChangesRequested)
            | (WriteupState::Submitted, WriteupState::Approved)
            | (WriteupState::Approved, WriteupState::ChangesRequested)
            | (WriteupState::Approved, WriteupState::Published) => true,
            _ => false,
        };
        if allowed {
            Ok(next)
        } else {
            Err(
                DomainError::Conflict(
                    owned("writeup cannot transition from ").concat(self.name()).concat(
                        " to ",
                    ).concat(next.name()),
                ),
            )
        }
    }
}

/// Authors and organizers never share control: every state in which an
/// author can act is one in which organizers cannot, and the other way
/// round.
pub proof fn lemma_writeup_control_is_separated(state: WriteupState, next: WriteupState)
    ensures
        review_allowed(state, next) ==> !author_controls(state),
        author_controls(state) ==> !review_allowed(state, next),
{
}

/// The answer given for a question key: the first pair with that key.
pub open spec fn answer_for(answers: Seq<(String, i32)>, key: Seq<char>) -> Option<i32>
    decreases answers.len(),
{
    if answers.len() == 0 {
        None
    } else if answers[0].0@ == key {
        Some(answers[0].1)
    } else {
        answer_for(answers.drop_first(), key)
    }
}

/// Whether some answer names a key that no question has.
pub open spec fn has_unknown_answer(questions: Seq<SurveyQuestion>, answers: Seq<(String, i32)>) -> bool {
    exists|j: int|
        0 <= j < answers.len() && !(exists|k: int|
            0 <= k < questions.len() && (#[trigger] questions[k]).key@ == (#[trigger] answers[j]).0@)
}

/// What is wrong with the answer to one question, as its message.
pub open spec fn question_problem(question: SurveyQuestion, answers: Seq<(String, i32)>) -> Option<Seq<char>> {
    let answer = answer_for(answers, question.key@);
    if question.required && answer is None {
        Some("survey question '"@ + question.key@ + "' is required"@)
    } else {
        match (answer, question.range) {
            (Some(value), Some((minimum, maximum))) => if minimum <= value <= maximum {
                None
            } else {
                Some(
                    "survey answer '"@ + question.key@ + "' must be between "@ + signed_decimal(
                        minimum as int,
                    ) + " and "@ + signed_decimal(maximum as int),
                )
            },
            _ => None,
        }
    }
}

/// The problem of the first question, in order, whose answer is wrong.
pub open spec fn first_problem(questions: Seq<SurveyQuestion>, answers: Seq<(String, i32)>) -> Option<Seq<char>>
    decreases questions.len(),
{
    if questions.len() == 0 {
        None
    } else if question_problem(questions[0], answers) is Some {
        question_problem(questions[0], answers)
    } else {
        first_problem(questions.drop_first(), answers)
    }
}

fn lookup_answer(answers: &[(String, i32)], key: &str) -> (found: Option<i32>)
    ensures
        found == answer_for(answers@, key@),
{
    let mut i: usize = 0;
    assert(answers@.subrange(0, answers@.len() as int) =~= answers@);
    while i < answers.len()
        invariant
            i <= answers.len(),
            answer_for(answers@, key@) == answer_for(answers@.subrange(i as int, answers@.len() as int), key@),
        decreases answers.len() - i,
    {
        proof {
            let rest = answers@.subrange(i as int, answers@.len() as int);
            assert(rest.drop_first() =~= answers@.subrange(i + 1, answers@.len() as int));
        }
        if same_text(answers[i].0.as_str(), key) {
            return Some(answers[i].1);
        }
        i = i + 1;
    }
    None
}

fn known_question(questions: &[SurveyQuestion], key: &str) -> (known: bool)
    ensures
        known == exists|k: int| 0 <= k < questions@.len() && (#[trigger] questions@[k]).key@ == key@,
{
    let mut i: usize = 0;
    while i < questions.len()
        invariant
            i <= questions.len(),
            forall|k: int| 0 <= k < i ==> (#[trigger] questions@[k]).key@ != key@,
        decreases questions.len() - i,
    {
        if same_text(questions[i].key.as_str(), key) {
            return true;
        }
        i = i + 1;
    }
    false
}

fn check_question(question: &SurveyQuestion, answers: &[(String, i32)]) -> (problem: Option<String>)
    ensures
        match question_problem(*question, answers@) {
            Some(m) => problem matches Some(p) && p@ == m,
            None => problem is None,
        },
{
    let answer = lookup_answer(answers, question.key.as_str());
    if question.required && answer.is_none() {
        return Some(owned("survey question '").concat(question.key.as_str()).concat("' is required"));
    }
    if let (Some(value), Some((minimum, maximum))) = (answer, question.range) {
        if !(minimum <= value && value <= maximum) {
            let lower = i64_text(minimum as i64);
            let upper = i64_text(maximum as i64);
            return Some(
                owned("survey answer '").concat(question.key.as_str()).concat(
                    "' must be between ",
                ).concat(lower.as_str()).concat(" and ").concat(upper.as_str()),
            );
        }
    }
    None
}

/// Whether a response lists each question key once, as the map of answers
/// it stands for does.
pub open spec fn answer_keys_distinct(answers: Seq<(String, i32)>) -> bool {
    forall|i: int, j: int| 0 <= i < j < answers.len() ==> (#[trigger] answers[i]).0@ != (#[trigger] answers[j]).0@
}

/// Whether a question's answer is acceptable: a required question is
/// answered, and an answer to a ranged question lies within its range.
pub open spec fn answer_acceptable(question: SurveyQuestion, answers: Seq<(String, i32)>) -> bool {
    &&& question.required ==> answer_for(answers, question.key@) is Some
    &&& match (answer_for(answers, question.key@), question.range) {
        (Some(value), Some((lo, hi))) => lo <= value <= hi,
        _ => true,
    }
}

/// Whether every question's answer is acceptable.
pub open spec fn answers_acceptable(questions: Seq<SurveyQuestion>, answers: Seq<(String, i32)>) -> bool {
    forall|k: int| 0 <= k < questions.len() ==> answer_acceptable(#[trigger] questions[k], answers)
}

proof fn lemma_first_problem_none(questions: Seq<SurveyQuestion>, answers: Seq<(String, i32)>)
    ensures
        first_problem(questions, answers) is None <==> answers_acceptable(questions, answers),
    decreases questions.len(),
{
    if questions.len() > 0 {
        let rest = questions.drop_first();
        lemma_first_problem_none(rest, answers);
        assert(question_problem(questions[0], answers) is None <==> answer_acceptable(questions[0], answers));
        if answers_acceptable(rest, answers) && answer_acceptable(questions[0], answers) {
            assert forall|k: int| 0 <= k < questions.len() implies answer_acceptable(#[trigger] questions[k], answers) by {
                if k > 0 {
                    assert(questions[k] == rest[k - 1]);
                }
            }
        }
        if answers_acceptable(questions, answers) {
            assert forall|k: int| 0 <= k < rest.len() implies answer_acceptable(#[trigger] rest[k], answers) by {
                assert(rest[k] == questions[k + 1]);
            }
            assert(answer_acceptable(questions[0], answers));
        }
    }
}

/// On a response that lists each key once, the answer read for a key is the
/// value paired with it, and there is none when no pair has the key.
pub proof fn lemma_answer_for_is_the_entry(answers: Seq<(String, i32)>, key: Seq<char>, value: i32)
    requires
        answer_keys_distinct(answers),
    ensures
        answer_for(answers, key) == Some(value) <==> exists|j: int| 0 <= j < answers.len() && (#[trigger] answers[j]).0@
            == key && answers[j].1 == value,
        answer_for(answers, key) is None <==> forall|j: int| 0 <= j < answers.len() ==> (#[trigger] answers[j]).0@ != key,
    decreases answers.len(),
{
    if answers.len() > 0 {
        let rest = answers.drop_first();
        assert(answer_keys_distinct(rest)) by {
            assert forall|i: int, j: int| 0 <= i < j < rest.len() implies (#[trigger] rest[i]).0@ != (#[trigger] rest[j]).0@ by {
                assert(rest[i] == answers[i + 1] && rest[j] == answers[j + 1]);
            }
        }
        lemma_answer_for_is_the_entry(rest, key, value);
        assert forall|j: int| 0 < j < answers.len() implies #[trigger] answers[j] == rest[j - 1] by {}
        if answers[0].0@ == key {
            assert forall|j: int| 0 < j < answers.len() implies (#[trigger] answers[j]).0@ != key by {
                assert(answers[0].0@ != answers[j].0@);
            }
        } else {
            if exists|j: int| 0 <= j < answers.len() && (#[trigger] answers[j]).0@ == key && answers[j].1 == value {
                let j = choose|j: int| 0 <= j < answers.len() && (#[trigger] answers[j]).0@ == key && answers[j].1 == value;
                assert(rest[j - 1] == answers[j]);
            }
            if forall|j: int| 0 <= j < rest.len() ==> (#[trigger] rest[j]).0@ != key {
                assert forall|j: int| 0 <= j < answers.len() implies (#[trigger] answers[j]).0@ != key by {
                    if j > 0 {
                        assert(rest[j - 1] == answers[j]);
                    }
                }
            }
        }
    }
}

/// Validates a response against the authored integer survey schema: it is
/// accepted exactly when every answer names a known question, every
/// required question is answered, and every answer to a ranged question
/// lies within its range. The answers pair question keys with values; a
/// response stands for a map and lists each key once
/// (`answer_keys_distinct`), and one that names a key twice is read by its
/// first pair with that key.
pub fn validate_survey_answers(questions: &[SurveyQuestion], answers: &[(String, i32)]) -> (r: DomainResult<()>)
    ensures
        has_unknown_answer(questions@, answers@) ==> (r matches Err(DomainError::Validation(m)) && m@
            == "survey response contains an unknown question"@),
        !has_unknown_answer(questions@, answers@) ==> match first_problem(questions@, answers@) {
            Some(message) => r matches Err(DomainError::Validation(m)) && m@ == message,
            None => r is Ok,
        },
        r is Ok <==> (!has_unknown_answer(questions@, answers@) && answers_acceptable(questions@, answers@)),
{
    proof {
        lemma_first_problem_none(questions@, answers@);
    }
    let mut j: usize = 0;
    while j < answers.len()
        invariant
            j <= answers.len(),
            forall|t: int|
                0 <= t < j ==> exists|k: int|
                    0 <= k < questions@.len() && (#[trigger] questions@[k]).key@ == (#[trigger] answers@[t]).0@,
        decreases answers.len() - j,
    {
        if !known_question(questions, answers[j].0.as_str()) {
            return Err(DomainError::Validation(owned("survey response contains an unknown question")));
        }
        j = j + 1;
    }
    let mut i: usize = 0;
    assert(questions@.subrange(0, questions@.len() as int) =~= questions@);
    while i < questions.len()
        invariant
            i <= questions.len(),
            !has_unknown_answer(questions@, answers@),
            first_problem(questions@, answers@) == first_problem(
                questions@.subrange(i as int, questions@.len() as int),
                answers@,
            ),
        decreases questions.len() - i,
    {
        proof {
            let rest = questions@.subrange(i as int, questions@.len() as int);
            assert(rest.drop_first() =~= questions@.subrange(i + 1, questions@.len() as int));
            assert(rest[0] == questions@[i as int]);
        }
        match check_question(&questions[i], answers) {
            Some(message) => {
                return Err(DomainError::Validation(message));
            },
            None => {},
        }
        i = i + 1;
    }
    Ok(())
}

/// Fully authored challenge aggregate.
#[derive(Debug, Clone, PartialEq, Eq)]
pub struct Challenge {
    /// Identifier.
    pub id: ChallengeId,
    /// Parent event.
    pub event_id: EventId,
    /// Display name.
    pub name: String,
    /// Category column.
    pub category: String,
    /// Markdown description.
    pub description: String,
    /// Challenge behavior.
    pub kind: ChallengeKind,
    /// Lifecycle state.
    pub state: ChallengeState,
    /// Score policy.
    pub scoring: ScoringRule,
    /// Visibility and unlock constraints.
    pub visibility: VisibilityRule,
    /// Tags, each listed once.
    pub tags: Vec<String>,
    /// Available hints.
    pub hints: Vec<Hint>,
    /// Optional bounded failures per identity.
    pub max_attempts: Option<u32>,
    /// Whether player writeup submission is enabled.
    pub writeups_enabled: bool,
    /// Post-solve survey schema.
    pub survey: Vec<SurveyQuestion>,
}

/// Whether some hint has a negative cost.
pub open spec fn has_negative_hint(hints: Seq<Hint>) -> bool {
    exists|i: int| 0 <= i < hints.len() && (#[trigger] hints[i]).cost < 0
}

fn any_negative_hint(hints: &Vec<Hint>) -> (found: bool)
    ensures
        found == has_negative_hint(hints@),
{
    let mut i: usize = 0;
    while i < hints.len()
        invariant
            i <= hints.len(),
            forall|k: int| 0 <= k < i ==> (#[trigger] hints@[k]).cost >= 0,
        decreases hints.len() - i,
    {
        if hints[i].cost < 0 {
            assert(hints@[i as int].cost < 0);
            return true;
        }
        i = i + 1;
    }
    false
}

/// The first authoring rule a challenge breaks, as its message.
pub open spec fn challenge_problem(challenge: Challenge) -> Option<Seq<char>> {
    if blank(challenge.name@) || blank(challenge.category@) {
        Some("challenge name and category are required"@)
    } else if challenge.max_attempts == Some(0u32) {
        Some("max attempts must be positive"@)
    } else if has_negative_hint(challenge.hints@) {
        Some("hint cost cannot be negative"@)
    } else if challenge.visibility.prerequisites@.contains(challenge.id) {
        Some("challenge cannot require itself"@)
    } else if !rule_valid(challenge.scoring) {
        Some(rule_error(challenge.scoring))
    } else {
        None
    }
}

/// Whether a challenge can be seen by players in a context.
pub open spec fn challenge_visible(
    challenge: Challenge,
    at: i64,
    division: Option<DivisionId>,
    solves: Seq<ChallengeId>,
) -> bool {
    &&& (challenge.state == ChallengeState::Published || challenge.state == ChallengeState::Scheduled)
    &&& visibility_allows(challenge.visibility, at, division, solves)
}

impl Challenge {
    /// Validates authoring invariants before persistence.
    pub fn validate(&self) -> (r: DomainResult<()>)
        ensures
            match challenge_problem(*self) {
                Some(message) => r matches Err(DomainError::Validation(m)) && m@ == message,
                None => r is Ok,
            },
    {
        if is_blank(self.name.as_str()) || is_blank(self.category.as_str()) {
            return Err(DomainError::Validation(owned("challenge name and category are required")));
        }
        if self.max_attempts == Some(0u32) {
            return Err(DomainError::Validation(owned("max attempts must be positive")));
        }
        if any_negative_hint(&self.hints) {
            return Err(DomainError::Validation(owned("hint cost cannot be negative")));
        }
        if contains_challenge(self.visibility.prerequisites.as_slice(), self.id) {
            return Err(DomainError::Validation(owned("challenge cannot require itself")));
        }
        self.scoring.validate()
    }

    /// Player visibility including state and context rules.
    pub fn visible_to(&self, at: i64, division: Option<DivisionId>, solves: &[ChallengeId]) -> (visible: bool)
        ensures
            visible == challenge_visible(*self, at, division, solves@),
    {
        let listed = match self.state {
            ChallengeState::Published | ChallengeState::Scheduled => true,
            _ => false,
        };
        listed && self.visibility.allows(at, division, solves)
    }
}

/// Stored answer representation. Exact answers are one-way digests.
#[derive(Debug, Clone, PartialEq, Eq)]
pub enum AnswerRule {
    /// SHA-256 digest of a normalized answer.
    ExactDigest {
        /// Digest bytes.
        digest: Vec<u8>,
        /// Lowercase before hashing.
        case_insensitive: bool,
    },
    /// Bounded regular expression.
    Regex {
        /// Pattern.
        pattern: String,
        /// Case-insensitive matching.
        case_insensitive: bool,
    },
    /// Exact selected choice.
    Choice { value: String },
    /// Per-identity flag. Validation is delegated to the flag issuer.
    Dynamic,
    /// Organizer approval required.
    Manual,
}

/// Answer evaluation outcome.
#[derive(Debug, Clone, Copy, PartialEq, Eq, Structural)]
pub enum AnswerOutcome {
    /// Answer is correct.
    Correct,
    /// Answer is incorrect.
    Incorrect,
    /// Requires asynchronous manual review.
    PendingReview,
    /// Requires a dynamic issuer/verifier.
    RequiresDynamicVerification,
}

/// Longest accepted regex pattern, in bytes.
pub const MAX_PATTERN_BYTES: usize = 2048;

/// Program-size bound for evaluated regexes, in bytes.
pub const REGEX_SIZE_LIMIT: usize = 1048576;

/// The answer text that exact answers hash: trimmed, and lower-cased when
/// the rule is case-insensitive.
pub open spec fn normalized_answer(answer: Seq<char>, case_insensitive: bool) -> Seq<char> {
    if case_insensitive {
        unicode_lowercase(trimmed(answer))
    } else {
        trimmed(answer)
    }
}

/// The stored digest of an exact answer.
pub open spec fn answer_digest_of(answer: Seq<char>, case_insensitive: bool) -> Seq<u8> {
    sha256(encode_utf8(normalized_answer(answer, case_insensitive)))
}

/// Whether an authored rule passes validation.
pub open spec fn answer_rule_valid(rule: AnswerRule) -> bool {
    match rule {
        AnswerRule::Regex { pattern, .. } => encode_utf8(pattern@).len() as usize <= MAX_PATTERN_BYTES
            && regex_compiles(pattern@),
        _ => true,
    }
}

/// Whether a regex rule's pattern exceeds the size bound.
pub open spec fn pattern_too_large(rule: AnswerRule) -> bool {
    match rule {
        AnswerRule::Regex { pattern, .. } => encode_utf8(pattern@).len() as usize > MAX_PATTERN_BYTES,
        _ => false,
    }
}

/// The outcome of evaluating an answer against a rule, or `None` when the
/// evaluation fails (an invalid or unbuildable pattern).
pub open spec fn answer_outcome(rule: AnswerRule, answer: Seq<char>) -> Option<AnswerOutcome> {
    if !answer_rule_valid(rule) {
        None
    } else {
        match rule {
            AnswerRule::ExactDigest { digest, case_insensitive } => Some(
                if digest@ == answer_digest_of(answer, case_insensitive) {
                    AnswerOutcome::Correct
                } else {
                    AnswerOutcome::Incorrect
                },
            ),
            AnswerRule::Regex { pattern, case_insensitive } => if regex_builds(
                pattern@,
                case_insensitive,
                REGEX_SIZE_LIMIT,
                REGEX_SIZE_LIMIT,
            ) {
                Some(
                    if regex_finds(pattern@, case_insensitive, trimmed(answer)) {
                        AnswerOutcome::Correct
                    } else {
                        AnswerOutcome::Incorrect
                    },
                )
            } else {
                None
            },
            AnswerRule::Choice { value } => Some(
                if value@ == answer {
                    AnswerOutcome::Correct
                } else {
                    AnswerOutcome::Incorrect
                },
            ),
            AnswerRule::Dynamic => Some(AnswerOutcome::RequiresDynamicVerification),
            AnswerRule::Manual => Some(AnswerOutcome::PendingReview),
        }
    }
}

/// What each kind of rule makes of an answer, stated from the rule's own
/// fields: an exact rule compares its digest with the SHA-256 of the
/// trimmed answer, lower-cased first exactly when the rule ignores case; a
/// regex rule is built with the rule's own case policy and accepts exactly
/// when it matches the trimmed answer, and fails to evaluate when the
/// pattern does not validate or does not build with that policy; a choice accepts exactly its value;
/// a dynamic rule defers to dynamic verification and a manual one to review.
pub proof fn lemma_rule_outcomes(rule: AnswerRule, answer: Seq<char>)
    ensures
        rule matches AnswerRule::ExactDigest { digest, case_insensitive } ==> {
            let text = if case_insensitive { unicode_lowercase(trimmed(answer)) } else { trimmed(answer) };
            &&& answer_outcome(rule, answer) is Some
            &&& answer_outcome(rule, answer) == Some(AnswerOutcome::Correct) <==> digest@ == sha256(encode_utf8(text))
            &&& answer_outcome(rule, answer) == Some(AnswerOutcome::Incorrect) <==> digest@ != sha256(encode_utf8(text))
        },
        rule matches AnswerRule::Regex { pattern, case_insensitive } ==> {
            let evaluates = answer_rule_valid(rule) && regex_builds(
                pattern@,
                case_insensitive,
                REGEX_SIZE_LIMIT,
                REGEX_SIZE_LIMIT,
            );
            &&& answer_outcome(rule, answer) is Some <==> evaluates
            &&& answer_outcome(rule, answer) == Some(AnswerOutcome::Correct) <==> evaluates && regex_finds(
                pattern@,
                case_insensitive,
                trimmed(answer),
            )
            &&& answer_outcome(rule, answer) == Some(AnswerOutcome::Incorrect) <==> evaluates && !regex_finds(
                pattern@,
                case_insensitive,
                trimmed(answer),
            )
        },
        rule matches AnswerRule::Choice { value } ==> {
            &&& answer_outcome(rule, answer) == Some(AnswerOutcome::Correct) <==> value@ == answer
            &&& answer_outcome(rule, answer) == Some(AnswerOutcome::Incorrect) <==> value@ != answer
        },
        rule is Dynamic ==> answer_outcome(rule, answer) == Some(AnswerOutcome::RequiresDynamicVerification),
        rule is Manual ==> answer_outcome(rule, answer) == Some(AnswerOutcome::PendingReview),
{
}

/// SHA-256 of the normalized answer.
pub fn answer_digest(answer: &str, case_insensitive: bool) -> (digest: Vec<u8>)
    ensures
        digest@ == answer_digest_of(answer@, case_insensitive),
{
    let trimmed_answer = trim(answer);
    if case_insensitive {
        let lower = to_lowercase(trimmed_answer);
        sha256_digest(lower.as_str().as_bytes())
    } else {
        sha256_digest(trimmed_answer.as_bytes())
    }
}

impl AnswerRule {
    /// Creates an exact answer rule without retaining the plaintext.
    pub fn exact(answer: &str, case_insensitive: bool) -> (rule: Self)
        ensures
            rule == (AnswerRule::ExactDigest {
                digest: rule->ExactDigest_digest,
                case_insensitive,
            }),
            rule->ExactDigest_digest@ == answer_digest_of(answer@, case_insensitive),
    {
        AnswerRule::ExactDigest { digest: answer_digest(answer, case_insensitive), case_insensitive }
    }

    /// Validates safe bounds and syntax for authored patterns.
    pub fn validate(&self) -> (r: DomainResult<()>)
        ensures
            r is Ok <==> answer_rule_valid(*self),
            pattern_too_large(*self) ==> (r matches Err(DomainError::Validation(m)) && m@
                == "regex is too large"@),
            !pattern_too_large(*self) && !answer_rule_valid(*self) ==> (r matches Err(
                DomainError::Validation(m),
            ) && m@.take(15) == "invalid regex: "@),
    {
        match self {
            AnswerRule::Regex { pattern, .. } => {
                if pattern.as_str().len() > MAX_PATTERN_BYTES {
                    return Err(DomainError::Validation(owned("regex is too large")));
                }
                match check_syntax(pattern.as_str()) {
                    Ok(()) => Ok(()),
                    Err(error) => {
                        let message = owned("invalid regex: ").concat(error.as_str());
                        proof {
                            reveal_strlit("invalid regex: ");
                            assert(message@.take(15) =~= "invalid regex: "@);
                        }
                        Err(DomainError::Validation(message))
                    },
                }
            },
            _ => Ok(()),
        }
    }

    /// Evaluates an answer using constant-time digest comparison where possible.
    pub fn evaluate(&self, answer: &str) -> (r: DomainResult<AnswerOutcome>)
        ensures
            match answer_outcome(*self, answer@) {
                Some(outcome) => r == Ok::<AnswerOutcome, DomainError>(outcome),
                None => r matches Err(DomainError::Validation(_)),
            },
    {
        match self.validate() {
            Ok(()) => {},
            Err(error) => return Err(error),
        }
        match self {
            AnswerRule::ExactDigest { digest, case_insensitive } => {
                let submitted = answer_digest(answer, *case_insensitive);
                if constant_time_eq(digest.as_slice(), submitted.as_slice()) {
                    Ok(AnswerOutcome::Correct)
                } else {
                    Ok(AnswerOutcome::Incorrect)
                }
            },
            AnswerRule::Regex { pattern, case_insensitive } => {
                match CompiledPattern::build(
                    pattern.as_str(),
                    *case_insensitive,
                    REGEX_SIZE_LIMIT,
                    REGEX_SIZE_LIMIT,
                ) {
                    Ok(regex) => {
                        if regex.is_match(trim(answer)) {
                            Ok(AnswerOutcome::Correct)
                        } else {
                            Ok(AnswerOutcome::Incorrect)
                        }
                    },
                    Err(error) => Err(
                        DomainError::Validation(owned("invalid regex: ").concat(error.as_str())),
                    ),
                }
            },
            AnswerRule::Choice { value } => {
                if same_text(value.as_str(), answer) {
                    Ok(AnswerOutcome::Correct)
                } else {
                    Ok(AnswerOutcome::Incorrect)
                }
            },
            AnswerRule::Dynamic => Ok(AnswerOutcome::RequiresDynamicVerification),
            AnswerRule::Manual => Ok(AnswerOutcome::PendingReview),
        }
    }
}

/// The prerequisite graph: each challenge identifier mapped to the
/// prerequisites of the last challenge listed with it.
pub open spec fn prerequisite_map(challenges: Seq<Challenge>) -> Map<ChallengeId, Seq<ChallengeId>>
    decreases challenges.len(),
{
    if challenges.len() == 0 {
        Map::empty()
    } else {
        let last = challenges[challenges.len() - 1];
        prerequisite_map(challenges.drop_last()).insert(last.id, last.visibility.prerequisites@)
    }
}

/// Every prerequisite names a challenge of the graph.
pub open spec fn prerequisites_known(graph: Map<ChallengeId, Seq<ChallengeId>>) -> bool {
    forall|id: ChallengeId, k: int|
        graph.contains_key(id) && 0 <= k < graph[id].len() ==> graph.contains_key(#[trigger] graph[id][k])
}

/// A rank under which every prerequisite ranks strictly below the challenge
/// that requires it.
pub open spec fn ranked_by(graph: Map<ChallengeId, Seq<ChallengeId>>, rank: spec_fn(ChallengeId) -> nat) -> bool {
    forall|id: ChallengeId, k: int|
        graph.contains_key(id) && 0 <= k < graph[id].len() ==> rank(#[trigger] graph[id][k]) < rank(id)
}

/// The graph has no cycle: some rank orders every prerequisite first.
pub open spec fn acyclic(graph: Map<ChallengeId, Seq<ChallengeId>>) -> bool {
    exists|rank: spec_fn(ChallengeId) -> nat| #[trigger] ranked_by(graph, rank)
}

/// `nodes` lists the graph's identifiers once each, with the index of the
/// challenge whose prerequisites the graph keeps.
pub open spec fn nodes_represent(
    nodes: Seq<(ChallengeId, usize)>,
    challenges: Seq<Challenge>,
    graph: Map<ChallengeId, Seq<ChallengeId>>,
) -> bool {
    &&& forall|a: int, b: int| 0 <= a < b < nodes.len() ==> (#[trigger] nodes[a]).0 != (#[trigger] nodes[b]).0
    &&& forall|t: int|
        0 <= t < nodes.len() ==> (#[trigger] nodes[t]).1 < challenges.len() && graph.contains_key(nodes[t].0)
            && graph[nodes[t].0] == challenges[nodes[t].1 as int].visibility.prerequisites@
    &&& forall|id: ChallengeId| graph.contains_key(id) ==> exists|t: int| 0 <= t < nodes.len() && (#[trigger] nodes[t]).0 == id
}

fn find_node(nodes: &Vec<(ChallengeId, usize)>, id: ChallengeId) -> (found: Option<usize>)
    ensures
        found matches Some(t) ==> t < nodes@.len() && nodes@[t as int].0 == id,
        found is None ==> forall|t: int| 0 <= t < nodes@.len() ==> (#[trigger] nodes@[t]).0 != id,
{
    let mut i: usize = 0;
    while i < nodes.len()
        invariant
            i <= nodes.len(),
            forall|t: int| 0 <= t < i ==> (#[trigger] nodes@[t]).0 != id,
        decreases nodes.len() - i,
    {
        if nodes[i].0 == id {
            return Some(i);
        }
        i = i + 1;
    }
    None
}

fn graph_nodes(challenges: &[Challenge]) -> (nodes: Vec<(ChallengeId, usize)>)
    ensures
        nodes_represent(nodes@, challenges@, prerequisite_map(challenges@)),
{
    let mut nodes: Vec<(ChallengeId, usize)> = Vec::new();
    let mut i: usize = 0;
    while i < challenges.len()
        invariant
            i <= challenges.len(),
            nodes_represent(nodes@, challenges@, prerequisite_map(challenges@.take(i as int))),
        decreases challenges.len() - i,
    {
        let ghost before = nodes@;
        let ghost g0 = prerequisite_map(challenges@.take(i as int));
        let ghost g1 = prerequisite_map(challenges@.take(i + 1));
        proof {
            assert(challenges@.take(i + 1).drop_last() =~= challenges@.take(i as int));
            assert(g1 == g0.insert(challenges@[i as int].id, challenges@[i as int].visibility.prerequisites@));
        }
        let id = challenges[i].id;
        match find_node(&nodes, id) {
            Some(t) => {
                nodes.set(t, (id, i));
                proof {
                    assert forall|id2: ChallengeId| g1.contains_key(id2) implies exists|u: int|
                        0 <= u < nodes@.len() && (#[trigger] nodes@[u]).0 == id2 by {
                        if id2 != id {
                            let u = choose|u: int| 0 <= u < before.len() && (#[trigger] before[u]).0 == id2;
                            assert(nodes@[u].0 == id2);
                        } else {
                            assert(nodes@[t as int].0 == id2);
                        }
                    }
                    assert forall|a: int, b: int| 0 <= a < b < nodes@.len() implies (#[trigger] nodes@[a]).0
                        != (#[trigger] nodes@[b]).0 by {
                        assert(before[a].0 != before[b].0);
                    }
                }
            },
            None => {
                nodes.push((id, i));
                proof {
                    assert forall|id2: ChallengeId| g1.contains_key(id2) implies exists|u: int|
                        0 <= u < nodes@.len() && (#[trigger] nodes@[u]).0 == id2 by {
                        if id2 != id {
                            let u = choose|u: int| 0 <= u < before.len() && (#[trigger] before[u]).0 == id2;
                            assert(nodes@[u].0 == id2);
                        } else {
                            assert(nodes@[before.len() as int].0 == id2);
                        }
                    }
                    assert forall|a: int, b: int| 0 <= a < b < nodes@.len() implies (#[trigger] nodes@[a]).0
                        != (#[trigger] nodes@[b]).0 by {
                        if b < before.len() {
                            assert(before[a].0 != before[b].0);
                        }
                    }
                    assert forall|u: int| 0 <= u < nodes@.len() implies (#[trigger] nodes@[u]).1 < challenges@.len()
                        && g1.contains_key(nodes@[u].0) && g1[nodes@[u].0]
                        == challenges@[nodes@[u].1 as int].visibility.prerequisites@ by {
                        if u < before.len() {
                            assert(nodes@[u] == before[u]);
                        }
                    }
                }
            },
        }
        i = i + 1;
    }
    assert(challenges@.take(challenges@.len() as int) =~= challenges@);
    nodes
}

/// Some prerequisite of node `t` is a node that is not done.
pub open spec fn waits_on_undone(
    nodes: Seq<(ChallengeId, usize)>,
    challenges: Seq<Challenge>,
    done: Seq<bool>,
    t: int,
) -> bool {
    exists|k: int, u: int|
        0 <= k < challenges[nodes[t].1 as int].visibility.prerequisites@.len() && 0 <= u < nodes.len()
            && #[trigger] nodes[u].0 == #[trigger] challenges[nodes[t].1 as int].visibility.prerequisites@[k]
            && !done[u]
}

/// How many nodes are not done.
pub open spec fn undone_count(done: Seq<bool>) -> nat
    decreases done.len(),
{
    if done.len() == 0 {
        0
    } else {
        undone_count(done.drop_last()) + if done[done.len() - 1] { 0nat } else { 1nat }
    }
}

proof fn lemma_undone_count_mark(done: Seq<bool>, u: int)
    requires
        0 <= u < done.len(),
        !done[u],
    ensures
        undone_count(done.update(u, true)) + 1 == undone_count(done),
    decreases done.len(),
{
    let after = done.update(u, true);
    if u == done.len() - 1 {
        assert(after.drop_last() =~= done.drop_last());
    } else {
        lemma_undone_count_mark(done.drop_last(), u);
        assert(after.drop_last() =~= done.drop_last().update(u, true));
    }
}

proof fn lemma_stuck_nodes_unranked(
    graph: Map<ChallengeId, Seq<ChallengeId>>,
    nodes: Seq<(ChallengeId, usize)>,
    challenges: Seq<Challenge>,
    done: Seq<bool>,
    rank: spec_fn(ChallengeId) -> nat,
    bound: nat,
)
    requires
        nodes_represent(nodes, challenges, graph),
        done.len() == nodes.len(),
        ranked_by(graph, rank),
        forall|t: int| 0 <= t < nodes.len() && !done[t] ==> waits_on_undone(nodes, challenges, done, t),
    ensures
        forall|t: int| 0 <= t < nodes.len() && !done[t] ==> rank(#[trigger] nodes[t].0) >= bound,
    decreases bound,
{
    if bound > 0 {
        lemma_stuck_nodes_unranked(graph, nodes, challenges, done, rank, (bound - 1) as nat);
        assert forall|t: int| 0 <= t < nodes.len() && !done[t] implies rank(#[trigger] nodes[t].0) >= bound by {
            assert(waits_on_undone(nodes, challenges, done, t));
            let (k, u) = choose|k: int, u: int|
                0 <= k < challenges[nodes[t].1 as int].visibility.prerequisites@.len() && 0 <= u < nodes.len()
                    && #[trigger] nodes[u].0 == #[trigger] challenges[nodes[t].1 as int].visibility.prerequisites@[k]
                    && !done[u];
            let id = nodes[t].0;
            assert(graph[id] == challenges[nodes[t].1 as int].visibility.prerequisites@);
            assert(rank(graph[id][k]) < rank(id));
            assert(rank(nodes[u].0) >= bound - 1);
        }
    }
}

fn find_unknown_prerequisite(
    nodes: &Vec<(ChallengeId, usize)>,
    challenges: &[Challenge],
    Ghost(graph): Ghost<Map<ChallengeId, Seq<ChallengeId>>>,
) -> (unknown: bool)
    requires
        nodes_represent(nodes@, challenges@, graph),
    ensures
        unknown == !prerequisites_known(graph),
{
    let mut t: usize = 0;
    while t < nodes.len()
        invariant
            t <= nodes.len(),
            nodes_represent(nodes@, challenges@, graph),
            forall|a: int, k: int|
                0 <= a < t && 0 <= k < graph[nodes@[a].0].len() ==> graph.contains_key(#[trigger] graph[nodes@[a].0][k]),
        decreases nodes.len() - t,
    {
        let prerequisites = &challenges[nodes[t].1].visibility.prerequisites;
        let mut k: usize = 0;
        while k < prerequisites.len()
            invariant
                t < nodes.len(),
                k <= prerequisites.len(),
                nodes_represent(nodes@, challenges@, graph),
                prerequisites@ == graph[nodes@[t as int].0],
                forall|j: int| 0 <= j < k ==> graph.contains_key(#[trigger] prerequisites@[j]),
            decreases prerequisites.len() - k,
        {
            match find_node(&nodes, prerequisites[k]) {
                Some(_) => {},
                None => {
                    proof {
                        let id = nodes@[t as int].0;
                        assert(graph.contains_key(id));
                        assert(!graph.contains_key(graph[id][k as int]));
                    }
                    proof {
                        let id = nodes@[t as int].0;
                        assert(!prerequisites_known(graph));
                    }
                    return true;
                },
            }
            k = k + 1;
        }
        t = t + 1;
    }
    assert forall|id: ChallengeId, k: int| graph.contains_key(id) && 0 <= k < graph[id].len() implies graph.contains_key(
        #[trigger] graph[id][k],
    ) by {
        let a = choose|a: int| 0 <= a < nodes@.len() && (#[trigger] nodes@[a]).0 == id;
    }
    false
}

fn settle_nodes(
    nodes: &Vec<(ChallengeId, usize)>,
    challenges: &[Challenge],
    Ghost(graph): Ghost<Map<ChallengeId, Seq<ChallengeId>>>,
) -> (settled: (Vec<bool>, Ghost<Seq<nat>>))
    requires
        nodes_represent(nodes@, challenges@, graph),
        prerequisites_known(graph),
    ensures
        settled.0@.len() == nodes@.len(),
        settled.1@.len() == nodes@.len(),
        forall|u: int, k: int, w: int|
            0 <= u < nodes@.len() && settled.0@[u] && 0 <= k < graph[nodes@[u].0].len() && 0 <= w < nodes@.len()
                && #[trigger] nodes@[w].0 == #[trigger] graph[nodes@[u].0][k] ==> settled.0@[w] && settled.1@[w]
                < settled.1@[u],
        forall|u: int| 0 <= u < nodes@.len() && !settled.0@[u] ==> waits_on_undone(nodes@, challenges@, settled.0@, u),
{
    let mut done: Vec<bool> = Vec::new();
    let mut remaining: usize = 0;
    while done.len() < nodes.len()
        invariant
            done.len() <= nodes.len(),
            remaining == done.len(),
            remaining == undone_count(done@),
            forall|u: int| 0 <= u < done@.len() ==> !done@[u],
        decreases nodes.len() - done.len(),
    {
        let ghost before = done@;
        done.push(false);
        proof {
            assert(done@.drop_last() =~= before);
        }
        remaining = remaining + 1;
    }
    let ghost mut ranks: Seq<nat> = Seq::new(nodes@.len(), |u: int| 0nat);
    let ghost mut clock: nat = 0;
    let mut changed = true;
    while changed
        invariant
            nodes_represent(nodes@, challenges@, graph),
            prerequisites_known(graph),
            done@.len() == nodes@.len(),
            ranks.len() == nodes@.len(),
            remaining <= nodes@.len(),
            remaining == undone_count(done@),
            forall|u: int| 0 <= u < done@.len() && done@[u] ==> ranks[u] < clock,
            forall|u: int, k: int, w: int|
                0 <= u < nodes@.len() && done@[u] && 0 <= k < graph[nodes@[u].0].len() && 0 <= w < nodes@.len()
                    && #[trigger] nodes@[w].0 == #[trigger] graph[nodes@[u].0][k] ==> done@[w] && ranks[w] < ranks[u],
            !changed ==> forall|u: int| 0 <= u < nodes@.len() && !done@[u] ==> waits_on_undone(nodes@, challenges@, done@, u),
        decreases remaining + (if changed { 1int } else { 0int }),
    {
        let mut progress = false;
        let ghost remaining_before = remaining;
        let mut u: usize = 0;
        while u < nodes.len()
            invariant
                nodes_represent(nodes@, challenges@, graph),
                prerequisites_known(graph),
                done@.len() == nodes@.len(),
                ranks.len() == nodes@.len(),
                u <= nodes@.len(),
                remaining <= remaining_before,
                remaining_before <= nodes@.len(),
                progress ==> remaining < remaining_before,
                !progress ==> remaining == remaining_before,
                remaining == undone_count(done@),
                forall|v: int| 0 <= v < done@.len() && done@[v] ==> ranks[v] < clock,
                forall|v: int, k: int, w: int|
                    0 <= v < nodes@.len() && done@[v] && 0 <= k < graph[nodes@[v].0].len() && 0 <= w < nodes@.len()
                        && #[trigger] nodes@[w].0 == #[trigger] graph[nodes@[v].0][k] ==> done@[w] && ranks[w] < ranks[v],
                !progress ==> forall|v: int| 0 <= v < u && !done@[v] ==> waits_on_undone(nodes@, challenges@, done@, v),
            decreases nodes.len() - u,
        {
            if !done[u] {
                let prerequisites = &challenges[nodes[u].1].visibility.prerequisites;
                let mut ready = true;
                let mut k: usize = 0;
                while k < prerequisites.len() && ready
                    invariant
                        u < nodes@.len(),
                        k <= prerequisites.len(),
                        nodes_represent(nodes@, challenges@, graph),
                        prerequisites_known(graph),
                        done@.len() == nodes@.len(),
                        prerequisites@ == graph[nodes@[u as int].0],
                        prerequisites@ == challenges@[nodes@[u as int].1 as int].visibility.prerequisites@,
                        ready ==> forall|j: int, w: int|
                            0 <= j < k && 0 <= w < nodes@.len() && #[trigger] nodes@[w].0 == #[trigger] prerequisites@[j]
                                ==> done@[w],
                        !ready ==> waits_on_undone(nodes@, challenges@, done@, u as int),
                    decreases prerequisites.len() - k,
                {
                    let found = find_node(&nodes, prerequisites[k]);
                    match found {
                        Some(w) => {
                            if !done[w] {
                                ready = false;
                                proof {
                                    assert(nodes@[w as int].0 == challenges@[nodes@[u as int].1 as int].visibility.prerequisites@[k as int]);
                                }
                            } else {
                                proof {
                                    assert forall|j: int, w2: int|
                                        0 <= j < k + 1 && 0 <= w2 < nodes@.len() && #[trigger] nodes@[w2].0
                                            == #[trigger] prerequisites@[j] implies done@[w2] by {
                                        if j == k {
                                            if w2 != w {
                                                assert(nodes@[w2].0 == nodes@[w as int].0);
                                            }
                                        }
                                    }
                                }
                            }
                        },
                        None => {
                            proof {
                                let id = nodes@[u as int].0;
                                assert(graph.contains_key(graph[id][k as int]));
                                let w2 = choose|w2: int| 0 <= w2 < nodes@.len() && (#[trigger] nodes@[w2]).0 == graph[id][k as int];
                                assert(false);
                            }
                        },
                    }
                    k = k + 1;
                }
                if ready {
                    let ghost old_done = done@;
                    let ghost old_ranks = ranks;
                    proof {
                        lemma_undone_count_mark(done@, u as int);
                    }
                    done.set(u, true);
                    proof {
                        ranks = ranks.update(u as int, clock);
                        clock = clock + 1;
                    }
                    remaining = remaining - 1;
                    progress = true;
                    proof {
                        assert forall|v: int| 0 <= v < done@.len() && done@[v] implies ranks[v] < clock by {
                            if v != u {
                                assert(old_done[v]);
                            }
                        }
                        assert forall|v: int, k2: int, w: int|
                            0 <= v < nodes@.len() && done@[v] && 0 <= k2 < graph[nodes@[v].0].len() && 0 <= w
                                < nodes@.len() && #[trigger] nodes@[w].0 == #[trigger] graph[nodes@[v].0][k2] implies done@[w]
                            && ranks[w] < ranks[v] by {
                            if v == u {
                                assert(prerequisites@ == graph[nodes@[v].0]);
                                assert(old_done[w]);
                                assert(w != u);
                                assert(old_ranks[w] < clock - 1);
                            } else {
                                assert(old_done[v]);
                                assert(old_done[w] && old_ranks[w] < old_ranks[v]);
                                assert(w != u);
                            }
                        }
                    }
                }
            }
            u = u + 1;
        }
        changed = progress;
    }
    (done, Ghost(ranks))
}

/// Validates that the complete prerequisite graph refers only to known
/// challenges and is acyclic.
pub fn validate_prerequisite_graph(challenges: &[Challenge]) -> (r: DomainResult<()>)
    ensures
        !prerequisites_known(prerequisite_map(challenges@)) ==> (r matches Err(DomainError::Validation(m))
            && m@ == "prerequisite refers to an unknown challenge"@),
        prerequisites_known(prerequisite_map(challenges@)) && !acyclic(prerequisite_map(challenges@)) ==> (
        r matches Err(DomainError::Validation(m)) && m@ == "prerequisite graph contains a cycle"@),
        prerequisites_known(prerequisite_map(challenges@)) && acyclic(prerequisite_map(challenges@)) ==> r is Ok,
{
    let ghost graph = prerequisite_map(challenges@);
    let nodes = graph_nodes(challenges);
    if find_unknown_prerequisite(&nodes, challenges, Ghost(graph)) {
        return Err(DomainError::Validation(owned("prerequisite refers to an unknown challenge")));
    }
    let (done, Ghost(ranks)) = settle_nodes(&nodes, challenges, Ghost(graph));
    let mut all_done = true;
    let mut u: usize = 0;
    while u < done.len()
        invariant
            u <= done.len(),
            all_done == forall|v: int| 0 <= v < u ==> done@[v],
        decreases done.len() - u,
    {
        all_done = all_done && done[u];
        u = u + 1;
    }
    if all_done {
        proof {
            let rank = |id: ChallengeId| if exists|w: int| 0 <= w < nodes@.len() && (#[trigger] nodes@[w]).0 == id {
                ranks[choose|w: int| 0 <= w < nodes@.len() && (#[trigger] nodes@[w]).0 == id]
            } else {
                0nat
            };
            assert forall|id: ChallengeId, k: int| graph.contains_key(id) && 0 <= k < graph[id].len() implies rank(
                #[trigger] graph[id][k],
            ) < rank(id) by {
                let v = choose|w: int| 0 <= w < nodes@.len() && (#[trigger] nodes@[w]).0 == id;
                let d = graph[id][k];
                assert(graph.contains_key(d));
                let w = choose|w: int| 0 <= w < nodes@.len() && (#[trigger] nodes@[w]).0 == d;
                assert(done@[v]);
                assert(nodes@[w].0 == graph[nodes@[v].0][k]);
            }
            assert(ranked_by(graph, rank));
        }
        Ok(())
    } else {
        proof {
            if acyclic(graph) {
                let rank = choose|rank: spec_fn(ChallengeId) -> nat| #[trigger] ranked_by(graph, rank);
                let u = choose|u: int| 0 <= u < done@.len() && !done@[u];
                lemma_stuck_nodes_unranked(graph, nodes@, challenges@, done@, rank, rank(nodes@[u].0) + 1);
            }
        }
        Err(DomainError::Validation(owned("prerequisite graph contains a cycle")))
    }
}

} // verus!
