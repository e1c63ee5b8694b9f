//! King of the Hill: proof-gated objective claims and per-tick hold scoring.

use std::collections::BTreeMap;

use vstd::prelude::*;
use vstd::std_specs::cmp::OrdSpec;
use vstd::std_specs::iter::IteratorSpec;

use crate::digest::{constant_time_eq, sha256, sha256_digest};
use crate::identity::{EventId, ObjectiveId, TeamId};
use crate::scoring::{CompetitorId, ScoreEntry, ScoreReason};
use crate::text::{owned, trim, trimmed};
use crate::{DomainError, DomainResult};
use vstd::utf8::encode_utf8;

verus! {

/// KotH objective configuration.
#[derive(Debug, Clone, PartialEq, Eq)]
pub struct KothObjective {
    /// Identifier.
    pub id: ObjectiveId,
    /// Display name.
    pub name: String,
    /// Points per held tick.
    pub points_per_tick: i64,
    /// Claim proof digest.
    pub claim_digest: Vec<u8>,
}

/// Live holder of one objective.
#[derive(Debug, Clone, Copy, PartialEq, Eq, Structural)]
pub struct ObjectiveHold {
    /// Holding team.
    pub team_id: TeamId,
    /// Claim instant.
    pub claimed_at: i64,
    /// Most recent defense instant.
    pub defended_at: i64,
}

/// Deterministic KotH state; objectives and holds are keyed by the
/// objective identifier's bits.
#[derive(Debug, Clone, PartialEq)]
pub struct KothState {
    /// Objective configuration.
    pub objectives: BTreeMap<u128, KothObjective>,
    /// Current holders.
    pub holds: BTreeMap<u128, ObjectiveHold>,
    /// Last completed tick sequence.
    pub tick: u64,
}

/// The digest a claim proof is checked against: SHA-256 of the trimmed proof.
pub open spec fn proof_digest(proof: Seq<char>) -> Seq<u8> {
    sha256(encode_utf8(trimmed(proof)))
}

/// The hold after a verified claim: the same team refreshes its defense
/// instant, another team takes the objective over.
pub open spec fn hold_after_claim(previous: Option<ObjectiveHold>, team_id: TeamId, now: i64) -> ObjectiveHold {
    match previous {
        Some(hold) => if hold.team_id == team_id {
            ObjectiveHold { defended_at: now, ..hold }
        } else {
            ObjectiveHold { team_id, claimed_at: now, defended_at: now }
        },
        None => ObjectiveHold { team_id, claimed_at: now, defended_at: now },
    }
}

/// Effect of a claim: an unknown objective is not found, a wrong proof is
/// forbidden, and a verified claim stores the hold after it and answers
/// whether the holder changed.
pub open spec fn claim_effect(
    old: KothState,
    new: KothState,
    objective_id: ObjectiveId,
    team_id: TeamId,
    proof: Seq<char>,
    now: i64,
    r: DomainResult<bool>,
) -> bool {
    let k = objective_id.0;
    let previous = if old.holds@.contains_key(k) {
        Some(old.holds@[k])
    } else {
        None
    };
    if !old.objectives@.contains_key(k) {
        r == Err::<bool, DomainError>(DomainError::NotFound) && new == old
    } else if old.objectives@[k].claim_digest@ != proof_digest(proof) {
        r == Err::<bool, DomainError>(DomainError::Forbidden) && new == old
    } else {
        &&& r == Ok::<bool, DomainError>(!(previous matches Some(hold) && hold.team_id == team_id))
        &&& new.holds@ == old.holds@.insert(k, hold_after_claim(previous, team_id, now))
        &&& new.objectives == old.objectives
        &&& new.tick == old.tick
    }
}

/// A successful claim gives the claiming team the objective: afterwards the
/// team holds it, defended now; when the holder changed it was claimed now,
/// and when the team already held it, its original claim instant is kept.
/// Every other objective keeps its hold, and a claim fails only for an
/// unknown objective or a wrong proof.
pub proof fn lemma_claim_takes_hold(
    old: KothState,
    new: KothState,
    objective_id: ObjectiveId,
    team_id: TeamId,
    proof: Seq<char>,
    now: i64,
    r: DomainResult<bool>,
)
    requires
        claim_effect(old, new, objective_id, team_id, proof, now, r),
    ensures
        r is Ok <==> (old.objectives@.contains_key(objective_id.0) && old.objectives@[objective_id.0].claim_digest@
            == proof_digest(proof)),
        r is Ok ==> {
            let k = objective_id.0;
            &&& new.holds@.contains_key(k)
            &&& new.holds@[k].team_id == team_id
            &&& new.holds@[k].defended_at == now
            &&& (r == Ok::<bool, DomainError>(true) <==> !(old.holds@.contains_key(k) && old.holds@[k].team_id == team_id))
            &&& r == Ok::<bool, DomainError>(true) ==> new.holds@[k].claimed_at == now
            &&& r == Ok::<bool, DomainError>(false) ==> new.holds@[k].claimed_at == old.holds@[k].claimed_at
            &&& forall|j: u128| j != k ==> #[trigger] new.holds@.get(j) == old.holds@.get(j)
        },
{
}

/// Objective keys are totally ordered.
proof fn lemma_objective_keys_ordered()
    ensures
        vstd::laws_cmp::obeys_cmp::<u128>(),
{
}

/// `s` lists the entries of `m` in increasing key order.
pub open spec fn lists_in_key_order<V>(m: Map<u128, V>, s: Seq<(u128, V)>) -> bool {
    &&& forall|i: int| 0 <= i < s.len() ==> m.contains_key((#[trigger] s[i]).0) && m[s[i].0] == s[i].1
    &&& forall|k: u128| m.contains_key(k) ==> exists|i: int| 0 <= i < s.len() && (#[trigger] s[i]).0 == k
    &&& forall|i: int, j: int| 0 <= i < j < s.len() ==> (#[trigger] s[i]).0 < (#[trigger] s[j]).0
}

/// The entries of a map in increasing key order.
pub open spec fn in_key_order<V>(m: Map<u128, V>) -> Seq<(u128, V)> {
    choose|s: Seq<(u128, V)>| lists_in_key_order(m, s)
}

proof fn lemma_key_order_unique<V>(m: Map<u128, V>, s1: Seq<(u128, V)>, s2: Seq<(u128, V)>)
    requires
        lists_in_key_order(m, s1),
        lists_in_key_order(m, s2),
    ensures
        s1 == s2,
    decreases s1.len(),
{
    if s1.len() == 0 {
        if s2.len() > 0 {
            assert(m.contains_key(s2[0].0));
        }
        assert(s1 =~= s2);
    } else {
        assert(m.contains_key(s1[0].0));
        if s2.len() == 0 {
            assert(false);
        }
        let k1 = s1[0].0;
        let k2 = s2[0].0;
        assert(m.contains_key(k2));
        let a = choose|i: int| 0 <= i < s1.len() && (#[trigger] s1[i]).0 == k2;
        let b = choose|i: int| 0 <= i < s2.len() && (#[trigger] s2[i]).0 == k1;
        assert(k1 <= k2) by {
            if a > 0 {
                assert(s1[0].0 < s1[a].0);
            }
        }
        assert(k2 <= k1) by {
            if b > 0 {
                assert(s2[0].0 < s2[b].0);
            }
        }
        let m2 = m.remove(k1);
        let t1 = s1.drop_first();
        let t2 = s2.drop_first();
        assert forall|k: u128| m2.contains_key(k) implies exists|i: int| 0 <= i < t1.len() && (#[trigger] t1[i]).0 == k by {
            let i = choose|i: int| 0 <= i < s1.len() && (#[trigger] s1[i]).0 == k;
            assert(i > 0);
            assert(t1[i - 1].0 == k);
        }
        assert forall|k: u128| m2.contains_key(k) implies exists|i: int| 0 <= i < t2.len() && (#[trigger] t2[i]).0 == k by {
            let i = choose|i: int| 0 <= i < s2.len() && (#[trigger] s2[i]).0 == k;
            assert(i > 0);
            assert(t2[i - 1].0 == k);
        }
        assert forall|i: int| 0 <= i < t1.len() implies m2.contains_key((#[trigger] t1[i]).0) && m2[t1[i].0] == t1[i].1 by {
            assert(s1[0].0 < s1[i + 1].0);
        }
        assert forall|i: int| 0 <= i < t2.len() implies m2.contains_key((#[trigger] t2[i]).0) && m2[t2[i].0] == t2[i].1 by {
            assert(s2[0].0 < s2[i + 1].0);
        }
        assert forall|i: int, j: int| 0 <= i < j < t1.len() implies (#[trigger] t1[i]).0 < (#[trigger] t1[j]).0 by {
            assert(s1[i + 1].0 < s1[j + 1].0);
        }
        assert forall|i: int, j: int| 0 <= i < j < t2.len() implies (#[trigger] t2[i]).0 < (#[trigger] t2[j]).0 by {
            assert(s2[i + 1].0 < s2[j + 1].0);
        }
        lemma_key_order_unique(m2, t1, t2);
        assert(s1[0] == s2[0]);
        assert(s1 =~= seq![s1[0]] + t1);
        assert(s2 =~= seq![s2[0]] + t2);
    }
}

proof fn lemma_listing_in_key_order<V>(entries: &BTreeMap<u128, V>, listing: Seq<(&u128, &V)>)
    requires
        listing == vstd::std_specs::btree::spec_btree_map_iter(entries).remaining(),
        vstd::std_specs::btree::increasing_seq(listing.map_values(|kv: (&u128, &V)| *kv.0)),
    ensures
        lists_in_key_order(entries@, listing.map_values(|kv: (&u128, &V)| (*kv.0, *kv.1))),
        exists|s: Seq<(u128, V)>| lists_in_key_order(entries@, s),
{
    let listed = listing.map_values(|kv: (&u128, &V)| (*kv.0, *kv.1));
    let keys = listing.map_values(|kv: (&u128, &V)| *kv.0);
    lemma_objective_keys_ordered();
    vstd::std_specs::btree::axiom_increasing_seq_meaning(keys);
    assert forall|i: int| 0 <= i < listed.len() implies entries@.contains_key((#[trigger] listed[i]).0) && entries@[listed[i].0] == listed[i].1 by {
        assert(entries@.contains_key(*listing[i].0));
    }
    assert forall|k: u128| entries@.contains_key(k) implies exists|i: int| 0 <= i < listed.len() && (#[trigger] listed[i]).0 == k by {
        assert(listing.contains((&k, &entries@[k])));
        let i = choose|i: int| 0 <= i < listing.len() && listing[i] == (&k, &entries@[k]);
        assert(listed[i].0 == k);
    }
    assert forall|i: int, j: int| 0 <= i < j < listed.len() implies (#[trigger] listed[i]).0 < (#[trigger] listed[j]).0 by {
        assert(keys[i] == listed[i].0 && keys[j] == listed[j].0);
        assert(keys[i].cmp_spec(&keys[j]) is Less);
    }
}

/// The score entries of one tick: for each hold, in objective order, an
/// entry for the holding team when the objective is configured; the
/// sequence number follows the hold's position.
pub open spec fn tick_entries(
    holds: Seq<(u128, ObjectiveHold)>,
    objectives: Map<u128, KothObjective>,
    event_id: EventId,
    sequence_start: u64,
    now: i64,
) -> Seq<ScoreEntry>
    decreases holds.len(),
{
    if holds.len() == 0 {
        Seq::empty()
    } else {
        let before = tick_entries(holds.drop_last(), objectives, event_id, sequence_start, now);
        let i = holds.len() - 1;
        let (objective_id, hold) = holds[i];
        if objectives.contains_key(objective_id) {
            before.push(
                ScoreEntry {
                    event_id,
                    competitor: CompetitorId::Team(hold.team_id),
                    division_id: None,
                    sequence: if sequence_start + i > u64::MAX {
                        u64::MAX
                    } else {
                        (sequence_start + i) as u64
                    },
                    points: objectives[objective_id].points_per_tick,
                    reason: ScoreReason::KothTick { objective: objectives[objective_id].name },
                    occurred_at: now,
                    hidden_by_freeze: false,
                },
            )
        } else {
            before
        }
    }
}

proof fn lemma_tick_entry_at(
    listed: Seq<(u128, ObjectiveHold)>,
    objectives: Map<u128, KothObjective>,
    event_id: EventId,
    sequence_start: u64,
    now: i64,
    i: int,
)
    requires
        0 <= i < listed.len(),
        objectives.contains_key(listed[i].0),
    ensures
        exists|j: int| {
            let e = #[trigger] tick_entries(listed, objectives, event_id, sequence_start, now)[j];
            &&& 0 <= j < tick_entries(listed, objectives, event_id, sequence_start, now).len()
            &&& e.competitor == CompetitorId::Team(listed[i].1.team_id)
            &&& e.points == objectives[listed[i].0].points_per_tick
            &&& e.reason == (ScoreReason::KothTick { objective: objectives[listed[i].0].name })
        },
    decreases listed.len(),
{
    let entries = tick_entries(listed, objectives, event_id, sequence_start, now);
    let before = tick_entries(listed.drop_last(), objectives, event_id, sequence_start, now);
    if i == listed.len() - 1 {
        assert(entries[before.len() as int].competitor == CompetitorId::Team(listed[i].1.team_id));
    } else {
        lemma_tick_entry_at(listed.drop_last(), objectives, event_id, sequence_start, now, i);
        let j = choose|j: int| {
            let e = #[trigger] before[j];
            &&& 0 <= j < before.len()
            &&& e.competitor == CompetitorId::Team(listed.drop_last()[i].1.team_id)
            &&& e.points == objectives[listed.drop_last()[i].0].points_per_tick
            &&& e.reason == (ScoreReason::KothTick { objective: objectives[listed.drop_last()[i].0].name })
        };
        assert(entries[j] == before[j]);
    }
}

proof fn lemma_tick_entry_source(
    listed: Seq<(u128, ObjectiveHold)>,
    objectives: Map<u128, KothObjective>,
    event_id: EventId,
    sequence_start: u64,
    now: i64,
    j: int,
)
    requires
        0 <= j < tick_entries(listed, objectives, event_id, sequence_start, now).len(),
    ensures
        exists|i: int| {
            &&& 0 <= i < listed.len()
            &&& objectives.contains_key((#[trigger] listed[i]).0)
            &&& tick_entries(listed, objectives, event_id, sequence_start, now)[j].competitor == CompetitorId::Team(
                listed[i].1.team_id,
            )
            &&& tick_entries(listed, objectives, event_id, sequence_start, now)[j].points
                == objectives[listed[i].0].points_per_tick
        },
    decreases listed.len(),
{
    let entries = tick_entries(listed, objectives, event_id, sequence_start, now);
    let before = tick_entries(listed.drop_last(), objectives, event_id, sequence_start, now);
    let n = listed.len() - 1;
    if j < before.len() {
        lemma_tick_entry_source(listed.drop_last(), objectives, event_id, sequence_start, now, j);
        let i = choose|i: int| {
            &&& 0 <= i < listed.drop_last().len()
            &&& objectives.contains_key((#[trigger] listed.drop_last()[i]).0)
            &&& before[j].competitor == CompetitorId::Team(listed.drop_last()[i].1.team_id)
            &&& before[j].points == objectives[listed.drop_last()[i].0].points_per_tick
        };
        assert(listed[i] == listed.drop_last()[i]);
        assert(entries[j] == before[j]);
    } else {
        assert(objectives.contains_key(listed[n].0));
    }
}

/// A tick scores exactly the holders: for every held objective that is
/// configured, the tick emits an entry for its holding team worth the
/// objective's points per tick, and every entry of the tick is such an entry
/// for some held, configured objective. `listed` is the holds in key order,
/// as `tick` reads them.
pub proof fn lemma_tick_scores_holders(
    holds: Map<u128, ObjectiveHold>,
    listed: Seq<(u128, ObjectiveHold)>,
    objectives: Map<u128, KothObjective>,
    event_id: EventId,
    sequence_start: u64,
    now: i64,
)
    requires
        lists_in_key_order(holds, listed),
    ensures
        forall|k: u128| #[trigger] holds.contains_key(k) && objectives.contains_key(k) ==> exists|j: int| {
            let e = #[trigger] tick_entries(listed, objectives, event_id, sequence_start, now)[j];
            &&& 0 <= j < tick_entries(listed, objectives, event_id, sequence_start, now).len()
            &&& e.competitor == CompetitorId::Team(holds[k].team_id)
            &&& e.points == objectives[k].points_per_tick
            &&& e.reason == (ScoreReason::KothTick { objective: objectives[k].name })
        },
        forall|j: int| 0 <= j < tick_entries(listed, objectives, event_id, sequence_start, now).len() ==> exists|k: u128| {
            &&& #[trigger] holds.contains_key(k)
            &&& objectives.contains_key(k)
            &&& (#[trigger] tick_entries(listed, objectives, event_id, sequence_start, now)[j]).competitor
                == CompetitorId::Team(holds[k].team_id)
            &&& tick_entries(listed, objectives, event_id, sequence_start, now)[j].points == objectives[k].points_per_tick
        },
{
    assert forall|k: u128| #[trigger] holds.contains_key(k) && objectives.contains_key(k) implies exists|j: int| {
        let e = #[trigger] tick_entries(listed, objectives, event_id, sequence_start, now)[j];
        &&& 0 <= j < tick_entries(listed, objectives, event_id, sequence_start, now).len()
        &&& e.competitor == CompetitorId::Team(holds[k].team_id)
        &&& e.points == objectives[k].points_per_tick
        &&& e.reason == (ScoreReason::KothTick { objective: objectives[k].name })
    } by {
        let i = choose|i: int| 0 <= i < listed.len() && (#[trigger] listed[i]).0 == k;
        lemma_tick_entry_at(listed, objectives, event_id, sequence_start, now, i);
    }
    assert forall|j: int| 0 <= j < tick_entries(listed, objectives, event_id, sequence_start, now).len() implies exists|k: u128| {
        &&& #[trigger] holds.contains_key(k)
        &&& objectives.contains_key(k)
        &&& (#[trigger] tick_entries(listed, objectives, event_id, sequence_start, now)[j]).competitor
            == CompetitorId::Team(holds[k].team_id)
        &&& tick_entries(listed, objectives, event_id, sequence_start, now)[j].points == objectives[k].points_per_tick
    } by {
        lemma_tick_entry_source(listed, objectives, event_id, sequence_start, now, j);
        let i = choose|i: int| {
            &&& 0 <= i < listed.len()
            &&& objectives.contains_key((#[trigger] listed[i]).0)
            &&& tick_entries(listed, objectives, event_id, sequence_start, now)[j].competitor == CompetitorId::Team(
                listed[i].1.team_id,
            )
            &&& tick_entries(listed, objectives, event_id, sequence_start, now)[j].points
                == objectives[listed[i].0].points_per_tick
        };
        assert(holds.contains_key(listed[i].0));
    }
}

impl KothState {
    /// An empty KotH state.
    pub fn new() -> (state: Self)
        ensures
            state.objectives@ == Map::<u128, KothObjective>::empty(),
            state.holds@ == Map::<u128, ObjectiveHold>::empty(),
            state.tick == 0,
    {
        KothState { objectives: BTreeMap::new(), holds: BTreeMap::new(), tick: 0 }
    }

    /// Claims or refreshes an objective after verifying its secret proof.
    /// Returns whether the holder changed.
    pub fn claim(&mut self, objective_id: ObjectiveId, team_id: TeamId, proof: &str, now: i64) -> (r: DomainResult<bool>)
        ensures
            claim_effect(*old(self), *final(self), objective_id, team_id, proof@, now, r),
    {
        proof {
            lemma_objective_keys_ordered();
        }
        let k = objective_id.0;
        let objective = match self.objectives.get(&k) {
            Some(objective) => objective,
            None => return Err(DomainError::NotFound),
        };
        let candidate = sha256_digest(trim(proof).as_bytes());
        if !constant_time_eq(objective.claim_digest.as_slice(), candidate.as_slice()) {
            return Err(DomainError::Forbidden);
        }
        let (changed, hold) = match self.holds.get(&k) {
            Some(previous) => if previous.team_id == team_id {
                (false, ObjectiveHold { defended_at: now, ..*previous })
            } else {
                (true, ObjectiveHold { team_id, claimed_at: now, defended_at: now })
            },
            None => (true, ObjectiveHold { team_id, claimed_at: now, defended_at: now }),
        };
        self.holds.insert(k, hold);
        Ok(changed)
    }
}

impl Default for KothState {
    fn default() -> (state: Self)
        ensures
            state.objectives@ == Map::<u128, KothObjective>::empty(),
            state.holds@ == Map::<u128, ObjectiveHold>::empty(),
            state.tick == 0,
    {
        KothState::new()
    }
}

impl KothState {
    /// Scores all held objectives exactly once for the next tick.
    pub fn tick(&mut self, event_id: EventId, sequence_start: u64, now: i64) -> (scores: Vec<ScoreEntry>)
        ensures
            final(self).tick == (if old(self).tick == u64::MAX { u64::MAX } else { (old(self).tick + 1) as u64 }),
            final(self).objectives == old(self).objectives,
            final(self).holds == old(self).holds,
            scores@ == tick_entries(in_key_order(old(self).holds@), old(self).objectives@, event_id, sequence_start, now),
            lists_in_key_order(old(self).holds@, in_key_order(old(self).holds@)),
    {
        proof {
            lemma_objective_keys_ordered();
        }
        self.tick = self.tick.saturating_add(1);
        let mut scores: Vec<ScoreEntry> = Vec::new();
        let mut index: usize = 0;
        let ghost holds = self.holds@;
        let ghost objectives = self.objectives@;
        let count = self.holds.len();
        let holds_iter = self.holds.iter();
        let ghost listing = holds_iter.remaining();
        proof {
            lemma_listing_in_key_order(&self.holds, listing);
        }
        for pair in it: holds_iter
            invariant
                it.seq() == listing,
                count == holds.dom().len(),
                lists_in_key_order(holds, listing.map_values(|kv: (&u128, &ObjectiveHold)| (*kv.0, *kv.1))),
                index == it.index(),
                holds == self.holds@,
                objectives == self.objectives@,
                it.seq().len() == holds.dom().len(),
                forall|i: int| 0 <= i < it.seq().len() ==> holds.contains_key(*(#[trigger] it.seq()[i]).0) && holds[*it.seq()[i].0] == *it.seq()[i].1,
                scores@ == tick_entries(
                    it.seq().take(it.index() as int).map_values(|kv: (&u128, &ObjectiveHold)| (*kv.0, *kv.1)),
                    objectives,
                    event_id,
                    sequence_start,
                    now,
                ),
        {
            let (objective_id, hold) = pair;
            let ghost prefix = it.seq().take(index as int).map_values(|kv: (&u128, &ObjectiveHold)| (*kv.0, *kv.1));
            let ghost next = it.seq().take(index + 1).map_values(|kv: (&u128, &ObjectiveHold)| (*kv.0, *kv.1));
            proof {
                assert(next.drop_last() =~= prefix);
                assert(next[index as int] == (*objective_id, *hold));
            }
            match self.objectives.get(objective_id) {
                Some(objective) => {
                    scores.push(
                        ScoreEntry {
                            event_id,
                            competitor: CompetitorId::Team(hold.team_id),
                            division_id: None,
                            sequence: sequence_start.saturating_add(index as u64),
                            points: objective.points_per_tick,
                            reason: ScoreReason::KothTick { objective: objective.name.clone() },
                            occurred_at: now,
                            hidden_by_freeze: false,
                        },
                    );
                },
                None => {},
            }
            index = index + 1;
        }
        proof {
            let listed = listing.map_values(|kv: (&u128, &ObjectiveHold)| (*kv.0, *kv.1));
            assert(listing.take(listing.len() as int) =~= listing);
            lemma_key_order_unique(holds, listed, in_key_order(holds));
        }
        scores
    }
}

/// Public view of one objective: its configuration without the claim
/// digest, and its current holder.
#[derive(Debug, Clone, PartialEq, Eq)]
pub struct PublicObjective {
    /// Identifier.
    pub id: ObjectiveId,
    /// Display name.
    pub name: String,
    /// Points per held tick.
    pub points_per_tick: i64,
    /// Current holder, if any.
    pub holder: Option<ObjectiveHold>,
}

/// The public view of an objective under the current holds.
pub open spec fn public_objective(objective: KothObjective, holds: Map<u128, ObjectiveHold>) -> PublicObjective {
    PublicObjective {
        id: objective.id,
        name: objective.name,
        points_per_tick: objective.points_per_tick,
        holder: if holds.contains_key(objective.id.0) {
            Some(holds[objective.id.0])
        } else {
            None
        },
    }
}

/// The public views of the listed objectives, in order.
pub open spec fn public_objectives(listed: Seq<(u128, KothObjective)>, holds: Map<u128, ObjectiveHold>) -> Seq<
    PublicObjective,
> {
    listed.map_values(|entry: (u128, KothObjective)| public_objective(entry.1, holds))
}

/// KotH mode registration.
pub struct KothMode;

impl KothMode {
    /// Stable registration key.
    pub fn key(&self) -> (key: &'static str)
        ensures
            key@ == "koth"@,
    {
        "koth"
    }

    /// Admin control keys offered by this mode.
    pub fn admin_controls(&self) -> (controls: Vec<&'static str>)
        ensures
            controls@.len() == 4,
            controls@[0]@ == "start_ticks"@,
            controls@[1]@ == "pause_ticks"@,
            controls@[2]@ == "release_hold"@,
            controls@[3]@ == "score_tick"@,
    {
        vec!["start_ticks", "pause_ticks", "release_hold", "score_tick"]
    }

    /// Applies a command read from its JSON envelope: its kind and the
    /// payload's `score_sequence` where present. The only command is `tick`.
    pub fn apply(
        &self,
        state: &mut KothState,
        event_id: EventId,
        kind: &str,
        score_sequence: Option<u64>,
        now: i64,
    ) -> (r: DomainResult<Vec<ScoreEntry>>)
        ensures
            kind@ != "tick"@ ==> (r matches Err(DomainError::Validation(m)) && m@ == "unknown KotH command"@
                && *final(state) == *old(state)),
            kind@ == "tick"@ && score_sequence is None ==> (r matches Err(DomainError::Validation(m)) && m@
                == "score_sequence is required"@ && *final(state) == *old(state)),
            kind@ == "tick"@ && score_sequence is Some ==> {
                &&& r matches Ok(scores) && scores@ == tick_entries(
                    in_key_order(old(state).holds@),
                    old(state).objectives@,
                    event_id,
                    score_sequence.unwrap(),
                    now,
                )
                &&& final(state).tick == (if old(state).tick == u64::MAX { u64::MAX } else { (old(state).tick + 1) as u64 })
                &&& final(state).objectives == old(state).objectives
                &&& final(state).holds == old(state).holds
            },
    {
        if !crate::text::same_text(kind, "tick") {
            return Err(DomainError::Validation(owned("unknown KotH command")));
        }
        let sequence = match score_sequence {
            Some(sequence) => sequence,
            None => return Err(DomainError::Validation(owned("score_sequence is required"))),
        };
        Ok(state.tick(event_id, sequence, now))
    }

    /// The public objective view: every objective in identifier order with
    /// its holder, never its claim digest.
    pub fn public_state(&self, state: &KothState) -> (public: Vec<PublicObjective>)
        ensures
            public@ == public_objectives(in_key_order(state.objectives@), state.holds@),
    {
        proof {
            lemma_objective_keys_ordered();
        }
        let mut public: Vec<PublicObjective> = Vec::new();
        let ghost objectives = state.objectives@;
        let ghost holds = state.holds@;
        let entries = state.objectives.iter();
        let ghost listing = entries.remaining();
        proof {
            lemma_listing_in_key_order(&state.objectives, listing);
        }
        for pair in it: entries
            invariant
                it.seq() == listing,
                objectives == state.objectives@,
                holds == state.holds@,
                lists_in_key_order(objectives, listing.map_values(|kv: (&u128, &KothObjective)| (*kv.0, *kv.1))),
                public@ == public_objectives(
                    it.seq().take(it.index() as int).map_values(|kv: (&u128, &KothObjective)| (*kv.0, *kv.1)),
                    holds,
                ),
        {
            let (_, objective) = pair;
            let ghost index = it.index();
            let ghost before = it.seq().take(index as int).map_values(|kv: (&u128, &KothObjective)| (*kv.0, *kv.1));
            let ghost after = it.seq().take(index + 1).map_values(|kv: (&u128, &KothObjective)| (*kv.0, *kv.1));
            let holder = match state.holds.get(&objective.id.0) {
                Some(hold) => Some(*hold),
                None => None,
            };
            public.push(
                PublicObjective {
                    id: objective.id,
                    name: objective.name.clone(),
                    points_per_tick: objective.points_per_tick,
                    holder,
                },
            );
            proof {
                assert(after =~= before.push((*listing[index as int].0, *listing[index as int].1)));
                assert(public_objectives(after, holds) =~= public_objectives(before, holds).push(
                    public_objective(*objective, holds),
                ));
            }
        }
        proof {
            let listed = listing.map_values(|kv: (&u128, &KothObjective)| (*kv.0, *kv.1));
            assert(listing.take(listing.len() as int) =~= listing);
            lemma_key_order_unique(objectives, listed, in_key_order(objectives));
        }
        public
    }
}

} // verus!
