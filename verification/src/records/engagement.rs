//! Writeup bodies and reviews, and survey tallies.

use vstd::prelude::*;

use crate::challenge::{WriteupState, author_controls, review_allowed, writeup_state_name};
use crate::text::{byte_len, owned, same_text, trim, trimmed};
use crate::{DomainError, DomainResult};
use crate::records::columns::{lemma_writeup_keys_distinct, parse_writeup_state, writeup_state_key_of};

verus! {

/// The value a survey response gives a question: that of its first answer
/// under the question's key.
pub open spec fn answer_value(answers: Seq<(String, i32)>, key: Seq<char>) -> Option<i32>
    decreases answers.len(),
{
    if answers.len() == 0 {
        None
    } else if answers[0].0@ == key {
        Some(answers[0].1)
    } else {
        answer_value(answers.drop_first(), key)
    }
}

/// The values that the responses give a question, in response order.
pub open spec fn question_values(responses: Seq<Vec<(String, i32)>>, key: Seq<char>) -> Seq<i32>
    decreases responses.len(),
{
    if responses.len() == 0 {
        Seq::empty()
    } else {
        let before = question_values(responses.drop_last(), key);
        match answer_value(responses.last()@, key) {
            Some(value) => before.push(value),
            None => before,
        }
    }
}

/// The sum of a list of values.
pub open spec fn values_total(values: Seq<i32>) -> int
    decreases values.len(),
{
    if values.len() == 0 {
        0
    } else {
        values_total(values.drop_last()) + values.last()
    }
}

/// The least of a list of values, if any.
pub open spec fn values_min(values: Seq<i32>) -> Option<i32>
    decreases values.len(),
{
    if values.len() == 0 {
        None
    } else {
        match values_min(values.drop_last()) {
            Some(least) => Some(if values.last() < least { values.last() } else { least }),
            None => Some(values.last()),
        }
    }
}

/// The greatest of a list of values, if any.
pub open spec fn values_max(values: Seq<i32>) -> Option<i32>
    decreases values.len(),
{
    if values.len() == 0 {
        None
    } else {
        match values_max(values.drop_last()) {
            Some(greatest) => Some(if values.last() > greatest { values.last() } else { greatest }),
            None => Some(values.last()),
        }
    }
}

/// Aggregate of the responses to one survey question.
#[derive(Debug, Clone, Copy, PartialEq, Eq, Structural)]
pub struct SurveyTally {
    /// Number of responses that answered the question.
    pub responses: usize,
    /// Sum of the answered values.
    pub total: i128,
    /// Least answered value.
    pub minimum: Option<i32>,
    /// Greatest answered value.
    pub maximum: Option<i32>,
}

fn response_value(answers: &Vec<(String, i32)>, key: &str) -> (value: Option<i32>)
    ensures
        value == answer_value(answers@, key@),
{
    let mut i: usize = 0;
    assert(answers@.skip(0) =~= answers@);
    while i < answers.len()
        invariant
            i <= answers@.len(),
            answer_value(answers@, key@) == answer_value(answers@.skip(i as int), key@),
        decreases answers.len() - i,
    {
        let ghost rest = answers@.skip(i as int);
        assert(rest[0] == answers@[i as int]);
        assert(rest.drop_first() =~= answers@.skip(i + 1));
        if crate::text::same_text(answers[i].0.as_str(), key) {
            return Some(answers[i].1);
        }
        i = i + 1;
    }
    None
}

/// Tallies the responses to one survey question: how many answered it,
/// their sum, least and greatest value. Responses that skipped it are ignored.
pub fn tally_question(key: &str, responses: &[Vec<(String, i32)>]) -> (tally: SurveyTally)
    ensures
        tally.responses == question_values(responses@, key@).len(),
        tally.total == values_total(question_values(responses@, key@)),
        tally.minimum == values_min(question_values(responses@, key@)),
        tally.maximum == values_max(question_values(responses@, key@)),
{
    let mut count: usize = 0;
    let mut total: i128 = 0;
    let mut minimum: Option<i32> = None;
    let mut maximum: Option<i32> = None;
    let mut i: usize = 0;
    while i < responses.len()
        invariant
            i <= responses@.len(),
            count <= i,
            count == question_values(responses@.take(i as int), key@).len(),
            total == values_total(question_values(responses@.take(i as int), key@)),
            -(count as int) * 0x8000_0000 <= total <= (count as int) * 0x8000_0000,
            minimum == values_min(question_values(responses@.take(i as int), key@)),
            maximum == values_max(question_values(responses@.take(i as int), key@)),
        decreases responses.len() - i,
    {
        let ghost before = question_values(responses@.take(i as int), key@);
        proof {
            assert(responses@.take(i + 1).drop_last() =~= responses@.take(i as int));
            assert(responses@.take(i + 1).last() == responses@[i as int]);
        }
        match response_value(&responses[i], key) {
            Some(value) => {
                proof {
                    let after = before.push(value);
                    assert(after.drop_last() =~= before);
                    assert(-(count as int + 1) * 0x8000_0000 <= total + value <= (count as int + 1) * 0x8000_0000) by (nonlinear_arith)
                        requires
                            -(count as int) * 0x8000_0000 <= total <= (count as int) * 0x8000_0000,
                            -0x8000_0000 <= value < 0x8000_0000,
                    ;
                }
                count = count + 1;
                total = total + value as i128;
                minimum = match minimum {
                    Some(least) => Some(if value < least { value } else { least }),
                    None => Some(value),
                };
                maximum = match maximum {
                    Some(greatest) => Some(if value > greatest { value } else { greatest }),
                    None => Some(value),
                };
            },
            None => {},
        }
        i = i + 1;
    }
    proof {
        assert(responses@.take(responses@.len() as int) =~= responses@);
    }
    SurveyTally { responses: count, total, minimum, maximum }
}

/// The stored body of a writeup: trimmed, 1 to 100000 bytes, and at least
/// 20 bytes when it is submitted for review.
pub fn writeup_body(body: &str, submit: bool) -> (r: DomainResult<&str>)
    ensures
        trimmed(body@).len() == 0 || byte_len(trimmed(body@)) > 100_000 ==> (r matches Err(DomainError::Validation(m))
            && m@ == "writeup must contain 1 to 100000 bytes"@),
        !(trimmed(body@).len() == 0 || byte_len(trimmed(body@)) > 100_000) && submit && byte_len(trimmed(body@)) < 20
            ==> (r matches Err(DomainError::Validation(m)) && m@ == "submitted writeup must contain at least 20 bytes"@),
        !(trimmed(body@).len() == 0 || byte_len(trimmed(body@)) > 100_000) && !(submit && byte_len(trimmed(body@)) < 20)
            ==> (r matches Ok(kept) && kept@ == trimmed(body@)),
{
    let kept = trim(body);
    if kept.is_empty() || kept.len() > 100_000 {
        return Err(DomainError::Validation(owned("writeup must contain 1 to 100000 bytes")));
    }
    if submit && kept.len() < 20 {
        return Err(DomainError::Validation(owned("submitted writeup must contain at least 20 bytes")));
    }
    Ok(kept)
}

/// The state an author's save leaves a writeup in: a new writeup starts
/// as a draft or submitted; an existing one moves as its author may move it.
pub fn saved_writeup_state(existing: Option<&str>, submit: bool) -> (r: DomainResult<WriteupState>)
    ensures
        existing is None ==> r == Ok::<WriteupState, DomainError>(
            if submit { WriteupState::Submitted } else { WriteupState::Draft },
        ),
        (existing matches Some(key) && forall|state: WriteupState| writeup_state_key_of(state) != key@) ==> (r matches Err(
            DomainError::Unavailable(m),
        ) && m@ == "writeup contains an invalid lifecycle state"@),
        forall|state: WriteupState|
            (existing matches Some(key) && #[trigger] writeup_state_key_of(state) == key@) ==> if author_controls(state) {
                r == Ok::<WriteupState, DomainError>(if submit { WriteupState::Submitted } else { state })
            } else {
                r matches Err(DomainError::Conflict(m)) && m@ == "writeup is locked while it is under organizer control"@
            },
{
    match existing {
        Some(key) => {
            let current = match parse_writeup_state(key) {
                Ok(current) => current,
                Err(error) => return Err(error),
            };
            proof {
                assert forall|state: WriteupState|
                    (existing matches Some(key) && #[trigger] writeup_state_key_of(state) == key@) implies state == current by {
                    lemma_writeup_keys_distinct(state, current);
                }
            }
            current.author_transition(submit)
        },
        None => Ok(if submit { WriteupState::Submitted } else { WriteupState::Draft }),
    }
}

/// An organizer's review of a writeup: the stored state must allow the
/// move, feedback is trimmed (blank counts as none), is required when
/// changes are requested and holds at most 10000 bytes. Answers the new
/// state and the feedback to store.
pub fn writeup_review<'a>(current: &str, next: WriteupState, feedback: Option<&'a str>) -> (r: DomainResult<(WriteupState, Option<&'a str>)>)
    ensures
        (forall|state: WriteupState| writeup_state_key_of(state) != current@) ==> (r matches Err(DomainError::Unavailable(m))
            && m@ == "writeup contains an invalid lifecycle state"@),
        forall|state: WriteupState| #[trigger] writeup_state_key_of(state) == current@ ==> {
            let kept = match feedback {
                Some(text) => if trimmed(text@).len() == 0 { None } else { Some(trimmed(text@)) },
                None => None,
            };
            if !review_allowed(state, next) {
                r matches Err(DomainError::Conflict(m)) && m@ == "writeup cannot transition from "@
                    + writeup_state_name(state) + " to "@ + writeup_state_name(next)
            } else if next == WriteupState::ChangesRequested && kept is None {
                r matches Err(DomainError::Validation(m)) && m@ == "feedback is required when requesting changes"@
            } else if kept matches Some(k) && byte_len(k) > 10_000 {
                r matches Err(DomainError::Validation(m)) && m@ == "writeup feedback cannot exceed 10000 bytes"@
            } else {
                r matches Ok((moved, stored)) && moved == next && match (stored, kept) {
                    (Some(x), Some(y)) => x@ == y,
                    (None, None) => true,
                    _ => false,
                }
            }
        },
{
    let state = match parse_writeup_state(current) {
        Ok(state) => state,
        Err(error) => return Err(error),
    };
    proof {
        assert forall|other: WriteupState| #[trigger] writeup_state_key_of(other) == current@ implies other == state by {
            lemma_writeup_keys_distinct(other, state);
        }
    }
    let moved = match state.review_transition(next) {
        Ok(moved) => moved,
        Err(error) => return Err(error),
    };
    let kept = match feedback {
        Some(text) => {
            let t = trim(text);
            if t.is_empty() { None } else { Some(t) }
        },
        None => None,
    };
    if moved == WriteupState::ChangesRequested && kept.is_none() {
        return Err(DomainError::Validation(owned("feedback is required when requesting changes")));
    }
    match kept {
        Some(k) => if k.len() > 10_000 {
            return Err(DomainError::Validation(owned("writeup feedback cannot exceed 10000 bytes")));
        },
        None => {},
    }
    Ok((moved, kept))
}

} // verus!
