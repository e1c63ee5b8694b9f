//! Workshop: non-competitive lesson progress, with neither competition
//! identity nor scoring.

use std::collections::BTreeMap;

use vstd::prelude::*;

use crate::encoding::{parse_uuid, uuid_parsed};
use crate::identity::UserId;
use crate::scoring::ScoreEntry;
use crate::text::{owned, same_text};
use crate::{DomainError, DomainResult};

verus! {

/// Non-competitive lesson progress.
#[derive(Debug, Clone, PartialEq, Eq)]
pub struct WorkshopState {
    /// Ordered lesson keys.
    pub lessons: Vec<String>,
    /// Completed lesson keys by learner, keyed by the learner identifier's
    /// bits; each list holds a lesson at most once.
    pub progress: BTreeMap<u128, Vec<String>>,
}

/// The texts of a list of strings.
pub open spec fn texts(v: Seq<String>) -> Seq<Seq<char>> {
    v.map_values(|s: String| s@)
}

/// The lessons a learner has completed.
pub open spec fn completed_by(progress: Map<u128, Vec<String>>, user: u128) -> Seq<Seq<char>> {
    if progress.contains_key(user) {
        texts(progress[user]@)
    } else {
        Seq::empty()
    }
}

/// What a completion records: the learner's list gains the lesson unless it
/// already holds it.
pub open spec fn after_completion(progress: Map<u128, Vec<String>>, user: u128, lesson: Seq<char>) -> Seq<Seq<char>> {
    if completed_by(progress, user).contains(lesson) {
        completed_by(progress, user)
    } else {
        completed_by(progress, user).push(lesson)
    }
}

/// Learner keys are totally ordered.
proof fn lemma_user_keys_ordered()
    ensures
        vstd::laws_cmp::obeys_cmp::<u128>(),
{
}

fn holds_text(list: &Vec<String>, text: &str) -> (found: bool)
    ensures
        found == texts(list@).contains(text@),
{
    let mut i: usize = 0;
    while i < list.len()
        invariant
            i <= list.len(),
            forall|k: int| 0 <= k < i ==> list@[k]@ != text@,
        decreases list.len() - i,
    {
        if same_text(list[i].as_str(), text) {
            assert(texts(list@)[i as int] == text@);
            return true;
        }
        i = i + 1;
    }
    proof {
        if texts(list@).contains(text@) {
            let k = choose|k: int| 0 <= k < texts(list@).len() && texts(list@)[k] == text@;
            assert(list@[k]@ == text@);
        }
    }
    false
}

impl WorkshopState {
    /// A workshop with the given lessons and no progress.
    pub fn new(lessons: Vec<String>) -> (state: Self)
        ensures
            state.lessons == lessons,
            state.progress@ == Map::<u128, Vec<String>>::empty(),
    {
        WorkshopState { lessons, progress: BTreeMap::new() }
    }

    /// Records that a learner completed a known lesson; answers whether it
    /// was newly completed.
    pub fn complete_lesson(&mut self, user: UserId, lesson: &str) -> (r: DomainResult<bool>)
        ensures
            !texts(old(self).lessons@).contains(lesson@) ==> (r matches Err(DomainError::Validation(m))
                && m@ == "known lesson is required"@ && *final(self) == *old(self)),
            texts(old(self).lessons@).contains(lesson@) ==> {
                &&& r == Ok::<bool, DomainError>(!completed_by(old(self).progress@, user.0).contains(lesson@))
                &&& final(self).lessons == old(self).lessons
                &&& final(self).progress@.dom() == old(self).progress@.dom().insert(user.0)
                &&& completed_by(final(self).progress@, user.0) == after_completion(old(self).progress@, user.0, lesson@)
                &&& forall|other: u128| other != user.0 ==> #[trigger] final(self).progress@.get(other)
                    == old(self).progress@.get(other)
            },
    {
        proof {
            lemma_user_keys_ordered();
        }
        if !holds_text(&self.lessons, lesson) {
            return Err(DomainError::Validation(owned("known lesson is required")));
        }
        let mut done = match self.progress.remove(&user.0) {
            Some(done) => done,
            None => Vec::new(),
        };
        let ghost before = done@;
        let newly = !holds_text(&done, lesson);
        if newly {
            done.push(owned(lesson));
            proof {
                assert(texts(done@) =~= texts(before).push(lesson@));
            }
        }
        self.progress.insert(user.0, done);
        proof {
            assert(final(self).progress@.dom() =~= old(self).progress@.dom().insert(user.0));
        }
        Ok(newly)
    }
}

impl Default for WorkshopState {
    fn default() -> (state: Self)
        ensures
            state.lessons@.len() == 0,
            state.progress@ == Map::<u128, Vec<String>>::empty(),
    {
        WorkshopState::new(Vec::new())
    }
}

/// Result of a workshop command: no score entries, and whether the lesson
/// was newly completed.
#[derive(Debug, Clone, PartialEq, Eq)]
pub struct WorkshopTransition {
    /// Score ledger entries to append (always none).
    pub scores: Vec<ScoreEntry>,
    /// Whether the lesson was newly completed.
    pub completed: bool,
}

/// Minimal proof that modes need neither competition identity nor scoring.
pub struct WorkshopMode;

impl WorkshopMode {
    /// Stable registration key.
    pub fn key(&self) -> (key: &'static str)
        ensures
            key@ == "workshop"@,
    {
        "workshop"
    }

    /// Admin control keys offered by this mode.
    pub fn admin_controls(&self) -> (controls: Vec<&'static str>)
        ensures
            controls@.len() == 3,
            controls@[0]@ == "publish_lesson"@,
            controls@[1]@ == "reorder_lessons"@,
            controls@[2]@ == "reset_progress"@,
    {
        vec!["publish_lesson", "reorder_lessons", "reset_progress"]
    }

    /// Applies a command read from its JSON envelope: its kind, and the
    /// payload's `user_id` and `lesson` strings where present. The only
    /// command is `complete_lesson`.
    pub fn apply(
        &self,
        state: &mut WorkshopState,
        kind: &str,
        user_id: Option<&str>,
        lesson: Option<&str>,
    ) -> (r: DomainResult<WorkshopTransition>)
        ensures
            kind@ != "complete_lesson"@ ==> (r matches Err(DomainError::Validation(m))
                && m@ == "unknown workshop command"@ && *final(state) == *old(state)),
            kind@ == "complete_lesson"@ && !(user_id matches Some(u) && uuid_parsed(u@) is Some) ==> (r matches Err(
                DomainError::Validation(m),
            ) && m@ == "valid user_id is required"@ && *final(state) == *old(state)),
            kind@ == "complete_lesson"@ && (user_id matches Some(u) && uuid_parsed(u@) is Some) && !(lesson matches Some(
                l,
            ) && texts(old(state).lessons@).contains(l@)) ==> (r matches Err(DomainError::Validation(m)) && m@
                == "known lesson is required"@ && *final(state) == *old(state)),
            kind@ == "complete_lesson"@ && (user_id matches Some(u) && uuid_parsed(u@) is Some) && (lesson matches Some(
                l,
            ) && texts(old(state).lessons@).contains(l@)) ==> {
                let user = uuid_parsed(user_id.unwrap()@).unwrap();
                let l = lesson.unwrap()@;
                &&& r matches Ok(t) && t.scores@.len() == 0 && t.completed == !completed_by(
                    old(state).progress@,
                    user,
                ).contains(l)
                &&& final(state).lessons == old(state).lessons
                &&& completed_by(final(state).progress@, user) == after_completion(old(state).progress@, user, l)
                &&& forall|other: u128| other != user ==> #[trigger] final(state).progress@.get(other)
                    == old(state).progress@.get(other)
            },
    {
        if !same_text(kind, "complete_lesson") {
            return Err(DomainError::Validation(owned("unknown workshop command")));
        }
        let user = match user_id {
            Some(text) => match parse_uuid(text) {
                Some(bits) => UserId(bits),
                None => return Err(DomainError::Validation(owned("valid user_id is required"))),
            },
            None => return Err(DomainError::Validation(owned("valid user_id is required"))),
        };
        let lesson = match lesson {
            Some(lesson) => lesson,
            None => return Err(DomainError::Validation(owned("known lesson is required"))),
        };
        let completed = match state.complete_lesson(user, lesson) {
            Ok(completed) => completed,
            Err(error) => return Err(error),
        };
        Ok(WorkshopTransition { scores: Vec::new(), completed })
    }

    /// The public view of a workshop: its lessons.
    pub fn public_state(&self, state: &WorkshopState) -> (lessons: Vec<String>)
        ensures
            lessons@ == state.lessons@,
    {
        state.lessons.clone()
    }
}

} // verus!
