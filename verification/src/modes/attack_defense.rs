//! Attack/Defense: HMAC-authenticated rotating flags, anti-replay flag
//! submission and per-tick defense and SLA scoring.

use vstd::prelude::*;
use vstd::utf8::{decode_utf8, encode_utf8, valid_utf8};

use crate::digest::{hmac_sha256, hmac_sha256_tag, hmac_sha256_verify, sha256, sha256_digest};
use crate::encoding::{
    base64url, base64url_decode, base64url_decoded, base64url_encode, is_base64url_char,
    lemma_parse_decimal, lemma_uuid_text_shape, parse_u64, parse_uuid, parsed_u64, uuid_parsed,
    uuid_string, uuid_text,
};
use crate::events::SubmissionOutcome;
use crate::identity::{EventId, TeamId};
use crate::scoring::{CompetitorId, ScoreEntry, ScoreReason};
use crate::text::{decimal, lemma_split_after, owned, split_at_first, split_once, strip_prefix, u64_text, without_prefix};
use crate::{DomainError, DomainResult};

verus! {

/// A&D service definition.
#[derive(Debug, Clone, PartialEq, Eq)]
pub struct AttackDefenseService {
    /// Stable key.
    pub key: String,
    /// Human-readable name.
    pub name: String,
    /// Vulnerable service image/template.
    pub instance_template: String,
    /// Attack points for one accepted opponent flag.
    pub attack_points: i64,
    /// Defense points when the team keeps its flag uncompromised for a tick.
    pub defense_points: i64,
    /// SLA points for a healthy checker result.
    pub sla_points: i64,
}

/// One checker outcome for a team service and tick.
#[derive(Debug, Clone, PartialEq, Eq)]
pub struct CheckerResult {
    /// Team.
    pub team_id: TeamId,
    /// Service key.
    pub service: String,
    /// Service accepted functional checks.
    pub healthy: bool,
    /// Bounded diagnostic, without flag contents.
    pub message: String,
}

/// A decoded rotating attack flag.
#[derive(Debug, Clone, PartialEq, Eq)]
pub struct FlagClaim {
    /// Owner team.
    pub owner: TeamId,
    /// Service key.
    pub service: String,
    /// Tick in which it was issued.
    pub tick: u64,
}

impl View for FlagClaim {
    type V = (TeamId, Seq<char>, u64);

    open spec fn view(&self) -> (TeamId, Seq<char>, u64) {
        (self.owner, self.service@, self.tick)
    }
}

/// The flag prefix `KIT{`.
pub open spec fn flag_prefix() -> Seq<char> {
    seq!['K', 'I', 'T', '{']
}

/// The separator `}.` between the encoded body and the encoded tag.
pub open spec fn flag_separator() -> Seq<char> {
    seq!['}', '.']
}

/// The authenticated body of a flag: `owner:service:tick`, the owner as a
/// hyphenated UUID and the tick in decimal.
pub open spec fn claim_body(claim: (TeamId, Seq<char>, u64)) -> Seq<char> {
    uuid_text(claim.0.0) + seq![':'] + claim.1 + seq![':'] + decimal(claim.2 as nat)
}

/// The flag issued for a claim under a key:
/// `KIT{` base64url(body) `}.` base64url(HMAC-SHA-256(key, body)).
pub open spec fn issued_flag(key: Seq<u8>, claim: (TeamId, Seq<char>, u64)) -> Seq<char> {
    let body = encode_utf8(claim_body(claim));
    flag_prefix() + base64url(body) + flag_separator() + base64url(hmac_sha256(key, body))
}

/// The claim written in an authenticated body: split at the first two
/// colons, a UUID owner, a non-empty service and a decimal tick.
pub open spec fn claim_fields(body: Seq<char>) -> Option<(TeamId, Seq<char>, u64)> {
    match split_at_first(body, seq![':']) {
        Some((owner, rest)) => match split_at_first(rest, seq![':']) {
            Some((service, tick)) => match (uuid_parsed(owner), parsed_u64(tick)) {
                (Some(owner), Some(tick)) => if service.len() > 0 {
                    Some((TeamId(owner), service, tick))
                } else {
                    None
                },
                _ => None,
            },
            None => None,
        },
        None => None,
    }
}

/// The claim a flag carries under a key, if the flag is well formed and its
/// tag authenticates its body.
pub open spec fn flag_claim(key: Seq<u8>, flag: Seq<char>) -> Option<(TeamId, Seq<char>, u64)> {
    match without_prefix(flag, flag_prefix()) {
        Some(rest) => match split_at_first(rest, flag_separator()) {
            Some((encoded_body, encoded_tag)) => match (base64url_decoded(encoded_body), base64url_decoded(encoded_tag)) {
                (Some(body), Some(tag)) => if tag == hmac_sha256(key, body) && valid_utf8(body) {
                    claim_fields(decode_utf8(body))
                } else {
                    None
                },
                _ => None,
            },
            None => None,
        },
        None => None,
    }
}

/// A service key can travel in a flag: it is non-empty and holds no colon.
pub open spec fn flag_safe_service(service: Seq<char>) -> bool {
    service.len() > 0 && forall|i: int| 0 <= i < service.len() ==> #[trigger] service[i] != ':'
}

/// HMAC flag issuer; only authenticated opaque flags leave the boundary.
pub struct FlagIssuer {
    secret: String,
}

impl FlagIssuer {
    /// The HMAC key: the UTF-8 bytes of the secret.
    pub closed spec fn key(&self) -> Seq<u8> {
        encode_utf8(self.secret@)
    }

    /// Creates an issuer from a high-entropy server secret of at least 32 bytes.
    pub fn new(secret: String) -> (r: DomainResult<Self>)
        ensures
            (encode_utf8(secret@).len() as usize) < 32 ==> (r matches Err(DomainError::Validation(m))
                && m@ == "flag issuer secret must be at least 32 bytes"@),
            (encode_utf8(secret@).len() as usize) >= 32 ==> (r matches Ok(issuer) && issuer.key() == encode_utf8(secret@)),
    {
        if secret.as_str().len() < 32 {
            return Err(DomainError::Validation(owned("flag issuer secret must be at least 32 bytes")));
        }
        Ok(FlagIssuer { secret })
    }

    /// Creates a self-authenticating, tick-bound flag. A claim whose service
    /// key is non-empty and colon-free reads back from its flag unchanged.
    pub fn issue(&self, claim: &FlagClaim) -> (flag: String)
        ensures
            flag@ == issued_flag(self.key(), claim@),
            flag_safe_service(claim.service@) ==> flag_claim(self.key(), flag@) == Some(claim@),
    {
        let owner = uuid_string(claim.owner.0);
        let mut body = owner.clone();
        body.append(":");
        body.append(claim.service.as_str());
        body.append(":");
        let tick = u64_text(claim.tick);
        body.append(tick.as_str());
        proof {
            reveal_strlit(":");
            assert(body@ =~= claim_body(claim@));
        }
        let body_bytes = body.as_str().as_bytes();
        let tag = hmac_sha256_tag(self.secret.as_str().as_bytes(), body_bytes);
        let encoded_body = base64url_encode(body_bytes);
        let encoded_tag = base64url_encode(tag.as_slice());
        let mut flag = owned("KIT{");
        flag.append(encoded_body.as_str());
        flag.append("}.");
        flag.append(encoded_tag.as_str());
        proof {
            reveal_strlit("KIT{");
            reveal_strlit("}.");
            assert(flag@ =~= issued_flag(self.key(), claim@));
            if flag_safe_service(claim.service@) {
                self.lemma_issued_flag_reads_back(claim@, owner@, encoded_body@, encoded_tag@);
            }
        }
        flag
    }

    proof fn lemma_issued_flag_reads_back(
        &self,
        claim: (TeamId, Seq<char>, u64),
        owner: Seq<char>,
        encoded_body: Seq<char>,
        encoded_tag: Seq<char>,
    )
        requires
            flag_safe_service(claim.1),
            owner == uuid_text(claim.0.0),
            uuid_parsed(owner) == Some(claim.0.0),
            encoded_body == base64url(encode_utf8(claim_body(claim))),
            encoded_tag == base64url(hmac_sha256(self.key(), encode_utf8(claim_body(claim)))),
            forall|i: int| 0 <= i < encoded_body.len() ==> is_base64url_char(#[trigger] encoded_body[i]),
            base64url_decoded(encoded_body) == Some(encode_utf8(claim_body(claim))),
            base64url_decoded(encoded_tag) == Some(hmac_sha256(self.key(), encode_utf8(claim_body(claim)))),
        ensures
            flag_claim(self.key(), issued_flag(self.key(), claim)) == Some(claim),
    {
        broadcast use vstd::utf8::encode_utf8_valid_utf8, vstd::utf8::encode_utf8_decode_utf8;

        let body = claim_body(claim);
        let flag = issued_flag(self.key(), claim);
        let rest = encoded_body + flag_separator() + encoded_tag;
        assert(flag.take(4) =~= flag_prefix());
        assert(flag.skip(4) =~= rest);
        lemma_split_after(encoded_body, flag_separator(), encoded_tag);
        lemma_uuid_text_shape(claim.0.0);
        let tail = claim.1 + seq![':'] + decimal(claim.2 as nat);
        assert(body =~= owner + seq![':'] + tail);
        lemma_split_after(owner, seq![':'], tail);
        lemma_split_after(claim.1, seq![':'], decimal(claim.2 as nat));
        lemma_parse_decimal(claim.2);
    }

    /// Authenticates and decodes a flag; every failure is `Forbidden`.
    pub fn verify(&self, flag: &str) -> (r: DomainResult<FlagClaim>)
        ensures
            match flag_claim(self.key(), flag@) {
                Some(claim) => r matches Ok(c) && c@ == claim,
                None => r == Err::<FlagClaim, DomainError>(DomainError::Forbidden),
            },
    {
        proof {
            reveal_strlit("KIT{");
            reveal_strlit("}.");
            reveal_strlit(":");
            assert("KIT{"@ =~= flag_prefix());
            assert("}."@ =~= flag_separator());
            assert(":"@ =~= seq![':']);
        }
        let rest = match strip_prefix(flag, "KIT{") {
            Some(rest) => rest,
            None => return Err(DomainError::Forbidden),
        };
        assert(without_prefix(flag@, flag_prefix()) == Some(rest@));
        let (encoded_body, encoded_tag) = match split_once(rest, "}.") {
            Some(parts) => parts,
            None => return Err(DomainError::Forbidden),
        };
        assert(split_at_first(rest@, flag_separator()) == Some((encoded_body@, encoded_tag@)));
        let body = match base64url_decode(encoded_body) {
            Some(body) => body,
            None => return Err(DomainError::Forbidden),
        };
        let tag = match base64url_decode(encoded_tag) {
            Some(tag) => tag,
            None => return Err(DomainError::Forbidden),
        };
        assert(base64url_decoded(encoded_body@) == Some(body@));
        assert(base64url_decoded(encoded_tag@) == Some(tag@));
        if !hmac_sha256_verify(self.secret.as_str().as_bytes(), body.as_slice(), tag.as_slice()) {
            return Err(DomainError::Forbidden);
        }
        let text = match crate::encoding::utf8_text(body) {
            Some(text) => text,
            None => return Err(DomainError::Forbidden),
        };
        assert(flag_claim(self.key(), flag@) == claim_fields(text@));
        let (owner_text, rest) = match split_once(text.as_str(), ":") {
            Some(parts) => parts,
            None => return Err(DomainError::Forbidden),
        };
        assert(split_at_first(text@, seq![':']) == Some((owner_text@, rest@)));
        let (service, tick_text) = match split_once(rest, ":") {
            Some(parts) => parts,
            None => return Err(DomainError::Forbidden),
        };
        assert(split_at_first(rest@, seq![':']) == Some((service@, tick_text@)));
        let owner = match parse_uuid(owner_text) {
            Some(owner) => owner,
            None => return Err(DomainError::Forbidden),
        };
        if service.is_empty() {
            return Err(DomainError::Forbidden);
        }
        let tick = match parse_u64(tick_text) {
            Some(tick) => tick,
            None => return Err(DomainError::Forbidden),
        };
        Ok(FlagClaim { owner: TeamId(owner), service: owned(service), tick })
    }
}

/// Attack/Defense state and anti-replay register.
#[derive(Debug, Clone, PartialEq, Eq)]
pub struct AttackDefenseState {
    /// Service definitions, found by their key.
    pub services: Vec<AttackDefenseService>,
    /// Registered teams.
    pub teams: Vec<TeamId>,
    /// Current tick.
    pub tick: u64,
    /// Number of earlier ticks whose flags remain acceptable.
    pub expiry_window: u64,
    /// Digest of every accepted flag submission.
    pub accepted_flags: Vec<Vec<u8>>,
    /// Owners whose service flag was stolen in each tick: (tick, service, owner).
    pub compromised: Vec<(u64, String, TeamId)>,
}

impl Default for AttackDefenseState {
    fn default() -> (state: Self)
        ensures
            state.services@.len() == 0,
            state.teams@.len() == 0,
            state.tick == 0,
            state.expiry_window == 0,
            state.accepted_flags@.len() == 0,
            state.compromised@.len() == 0,
            ad_state_well_formed(state),
    {
        AttackDefenseState {
            services: Vec::new(),
            teams: Vec::new(),
            tick: 0,
            expiry_window: 0,
            accepted_flags: Vec::new(),
            compromised: Vec::new(),
        }
    }
}

/// The state's invariant, which the original's maps and sets gave it: each
/// service key, team, accepted flag digest and compromise mark is recorded
/// once.
pub open spec fn ad_state_well_formed(state: AttackDefenseState) -> bool {
    &&& forall|i: int, j: int|
        0 <= i < j < state.services@.len() ==> (#[trigger] state.services@[i]).key@ != (#[trigger] state.services@[j]).key@
    &&& state.teams@.no_duplicates()
    &&& digests(state.accepted_flags@).no_duplicates()
    &&& marks(state.compromised@).no_duplicates()
}

proof fn lemma_push_fresh<A>(s: Seq<A>, x: A)
    requires
        s.no_duplicates(),
        !s.contains(x),
    ensures
        s.push(x).no_duplicates(),
{
    assert forall|i: int, j: int| 0 <= i < s.push(x).len() && 0 <= j < s.push(x).len() && i != j implies s.push(x)[i]
        != s.push(x)[j] by {
        if i == s.len() as int {
            assert(s[j] == s.push(x)[j]);
        } else if j == s.len() as int {
            assert(s[i] == s.push(x)[i]);
        }
    }
}

/// `i` is the first service with the given key.
pub open spec fn first_service(services: Seq<AttackDefenseService>, key: Seq<char>, i: int) -> bool {
    &&& 0 <= i < services.len()
    &&& services[i].key@ == key
    &&& forall|j: int| 0 <= j < i ==> (#[trigger] services[j]).key@ != key
}

/// The position of the service with the given key, if any.
pub open spec fn service_position(services: Seq<AttackDefenseService>, key: Seq<char>) -> Option<int> {
    if exists|i: int| first_service(services, key, i) {
        Some(choose|i: int| first_service(services, key, i))
    } else {
        None
    }
}

/// The accepted flag digests as byte strings.
pub open spec fn digests(flags: Seq<Vec<u8>>) -> Seq<Seq<u8>> {
    flags.map_values(|d: Vec<u8>| d@)
}

/// The compromise marks as (tick, service key, owner).
pub open spec fn marks(compromised: Seq<(u64, String, TeamId)>) -> Seq<(u64, Seq<char>, TeamId)> {
    compromised.map_values(|m: (u64, String, TeamId)| (m.0, m.1@, m.2))
}

/// The digest under which a submitted flag is remembered.
pub open spec fn flag_digest(flag: Seq<char>) -> Seq<u8> {
    sha256(encode_utf8(flag))
}

/// What submitting a flag yields: `None` when it is refused as forbidden
/// (it does not authenticate, or a team is unknown), else the outcome.
pub open spec fn submission_outcome(
    state: AttackDefenseState,
    key: Seq<u8>,
    attacker: TeamId,
    flag: Seq<char>,
) -> Option<SubmissionOutcome> {
    match flag_claim(key, flag) {
        None => None,
        Some(claim) => if claim.0 == attacker {
            Some(SubmissionOutcome::OwnFlag)
        } else if !state.teams@.contains(attacker) || !state.teams@.contains(claim.0) {
            None
        } else if service_position(state.services@, claim.1) is None {
            Some(SubmissionOutcome::Incorrect)
        } else if claim.2 > state.tick || state.tick - claim.2 > state.expiry_window {
            Some(SubmissionOutcome::Expired)
        } else if digests(state.accepted_flags@).contains(flag_digest(flag)) {
            Some(SubmissionOutcome::Duplicate)
        } else {
            Some(SubmissionOutcome::Correct)
        },
    }
}

fn has_team(teams: &Vec<TeamId>, team: TeamId) -> (found: bool)
    ensures
        found == teams@.contains(team),
{
    let mut i: usize = 0;
    while i < teams.len()
        invariant
            i <= teams.len(),
            forall|k: int| 0 <= k < i ==> teams@[k] != team,
        decreases teams.len() - i,
    {
        if teams[i] == team {
            assert(teams@[i as int] == team);
            return true;
        }
        i = i + 1;
    }
    false
}

fn find_service(services: &Vec<AttackDefenseService>, key: &str) -> (r: Option<usize>)
    ensures
        match service_position(services@, key@) {
            Some(i) => r matches Some(p) && p as int == i,
            None => r is None,
        },
{
    let mut i: usize = 0;
    while i < services.len()
        invariant
            i <= services.len(),
            forall|j: int| 0 <= j < i ==> (#[trigger] services@[j]).key@ != key@,
        decreases services.len() - i,
    {
        if crate::text::same_text(services[i].key.as_str(), key) {
            proof {
                assert(first_service(services@, key@, i as int));
                let k = choose|k: int| first_service(services@, key@, k);
                if k < i {
                    assert(services@[k].key@ != key@);
                } else if k > i {
                    assert(services@[i as int].key@ != key@);
                }
            }
            return Some(i);
        }
        i = i + 1;
    }
    None
}

fn same_bytes(a: &[u8], b: &[u8]) -> (same: bool)
    ensures
        same == (a@ == b@),
{
    if a.len() != b.len() {
        return false;
    }
    let mut i: usize = 0;
    while i < a.len()
        invariant
            a@.len() == b@.len(),
            i <= a.len(),
            forall|k: int| 0 <= k < i ==> a@[k] == b@[k],
        decreases a.len() - i,
    {
        if a[i] != b[i] {
            return false;
        }
        i = i + 1;
    }
    assert(a@ =~= b@);
    true
}

fn has_digest(flags: &Vec<Vec<u8>>, digest: &Vec<u8>) -> (found: bool)
    ensures
        found == digests(flags@).contains(digest@),
{
    let mut i: usize = 0;
    while i < flags.len()
        invariant
            i <= flags.len(),
            forall|k: int| 0 <= k < i ==> flags@[k]@ != digest@,
        decreases flags.len() - i,
    {
        if same_bytes(flags[i].as_slice(), digest.as_slice()) {
            assert(digests(flags@)[i as int] == digest@);
            return true;
        }
        i = i + 1;
    }
    proof {
        if digests(flags@).contains(digest@) {
            let k = choose|k: int| 0 <= k < digests(flags@).len() && digests(flags@)[k] == digest@;
            assert(flags@[k]@ == digest@);
        }
    }
    false
}

fn has_mark(compromised: &Vec<(u64, String, TeamId)>, tick: u64, service: &str, team: TeamId) -> (found: bool)
    ensures
        found == marks(compromised@).contains((tick, service@, team)),
{
    let mut i: usize = 0;
    while i < compromised.len()
        invariant
            i <= compromised.len(),
            forall|k: int| 0 <= k < i ==> marks(compromised@)[k] != (tick, service@, team),
        decreases compromised.len() - i,
    {
        let entry = &compromised[i];
        if entry.0 == tick && entry.2 == team && crate::text::same_text(entry.1.as_str(), service) {
            assert(marks(compromised@)[i as int] == (tick, service@, team));
            return true;
        }
        i = i + 1;
    }
    proof {
        if marks(compromised@).contains((tick, service@, team)) {
            let k = choose|k: int| 0 <= k < marks(compromised@).len() && marks(compromised@)[k] == (tick, service@, team);
            assert(k < i);
        }
    }
    false
}

impl AttackDefenseState {
    /// Validates and records an attack submission. A correct flag is
    /// remembered by its digest, and its owner's service is marked
    /// compromised for the flag's tick.
    pub fn submit_flag(&mut self, issuer: &FlagIssuer, attacker: TeamId, flag: &str) -> (r: DomainResult<(SubmissionOutcome, Option<FlagClaim>)>)
        ensures
            match submission_outcome(*old(self), issuer.key(), attacker, flag@) {
                None => r == Err::<(SubmissionOutcome, Option<FlagClaim>), DomainError>(DomainError::Forbidden)
                    && *final(self) == *old(self),
                Some(SubmissionOutcome::Correct) => {
                    let claim = flag_claim(issuer.key(), flag@).unwrap();
                    let mark = (claim.2, claim.1, claim.0);
                    &&& r matches Ok((SubmissionOutcome::Correct, Some(c))) && c@ == claim
                    &&& digests(final(self).accepted_flags@) == digests(old(self).accepted_flags@).push(flag_digest(flag@))
                    &&& marks(final(self).compromised@) == (if marks(old(self).compromised@).contains(mark) {
                        marks(old(self).compromised@)
                    } else {
                        marks(old(self).compromised@).push(mark)
                    })
                    &&& final(self).services == old(self).services
                    &&& final(self).teams == old(self).teams
                    &&& final(self).tick == old(self).tick
                    &&& final(self).expiry_window == old(self).expiry_window
                },
                Some(outcome) => r == Ok::<(SubmissionOutcome, Option<FlagClaim>), DomainError>((outcome, None))
                    && *final(self) == *old(self),
            },
            ad_state_well_formed(*old(self)) ==> ad_state_well_formed(*final(self)),
    {
        let claim = match issuer.verify(flag) {
            Ok(claim) => claim,
            Err(error) => return Err(error),
        };
        if claim.owner == attacker {
            return Ok((SubmissionOutcome::OwnFlag, None));
        }
        if !has_team(&self.teams, attacker) || !has_team(&self.teams, claim.owner) {
            return Err(DomainError::Forbidden);
        }
        if find_service(&self.services, claim.service.as_str()).is_none() {
            return Ok((SubmissionOutcome::Incorrect, None));
        }
        if claim.tick > self.tick || self.tick - claim.tick > self.expiry_window {
            return Ok((SubmissionOutcome::Expired, None));
        }
        let digest = sha256_digest(flag.as_bytes());
        if has_digest(&self.accepted_flags, &digest) {
            return Ok((SubmissionOutcome::Duplicate, None));
        }
        self.accepted_flags.push(digest);
        proof {
            assert(digests(self.accepted_flags@) =~= digests(old(self).accepted_flags@).push(flag_digest(flag@)));
            if ad_state_well_formed(*old(self)) {
                lemma_push_fresh(digests(old(self).accepted_flags@), flag_digest(flag@));
            }
        }
        if !has_mark(&self.compromised, claim.tick, claim.service.as_str(), claim.owner) {
            self.compromised.push((claim.tick, claim.service.clone(), claim.owner));
            proof {
                assert(marks(self.compromised@) =~= marks(old(self).compromised@).push((claim.tick, claim.service@, claim.owner)));
                if ad_state_well_formed(*old(self)) {
                    lemma_push_fresh(marks(old(self).compromised@), (claim.tick, claim.service@, claim.owner));
                }
            }
        }
        Ok((SubmissionOutcome::Correct, Some(claim)))
    }
}

/// Why a checker result cannot be scored, if it cannot.
pub open spec fn check_problem(state: AttackDefenseState, check: CheckerResult) -> Option<Seq<char>> {
    if !state.teams@.contains(check.team_id) {
        Some("checker team is unknown"@)
    } else if service_position(state.services@, check.service@) is None {
        Some("checker service is unknown"@)
    } else {
        None
    }
}

/// The problem of the first checker result that cannot be scored, if any.
pub open spec fn tick_problem(state: AttackDefenseState, checks: Seq<CheckerResult>) -> Option<Seq<char>>
    decreases checks.len(),
{
    if checks.len() == 0 {
        None
    } else {
        match tick_problem(state, checks.drop_last()) {
            Some(problem) => Some(problem),
            None => check_problem(state, checks.last()),
        }
    }
}

/// The ledger sequence number of the entry after `count` earlier ones:
/// `start + count`, saturating at the largest `u64`.
pub open spec fn sequence_after(start: u64, count: nat) -> u64 {
    if start + count > u64::MAX {
        u64::MAX
    } else {
        (start + count) as u64
    }
}

/// An Attack/Defense ledger entry for a team.
pub open spec fn team_entry(event_id: EventId, team: TeamId, points: i64, reason: ScoreReason, sequence: u64, now: i64) -> ScoreEntry {
    ScoreEntry {
        event_id,
        competitor: CompetitorId::Team(team),
        division_id: None,
        sequence,
        points,
        reason,
        occurred_at: now,
        hidden_by_freeze: false,
    }
}

/// The entries of one checker result, after `count` earlier entries: defense
/// points when the team's service was not compromised in the current tick,
/// then SLA points when the service was healthy.
pub open spec fn check_entries(
    state: AttackDefenseState,
    check: CheckerResult,
    event_id: EventId,
    sequence_start: u64,
    count: nat,
    now: i64,
) -> Seq<ScoreEntry> {
    match service_position(state.services@, check.service@) {
        Some(i) => {
            let service = state.services@[i];
            let defense = if !marks(state.compromised@).contains((state.tick, check.service@, check.team_id)) {
                seq![team_entry(event_id, check.team_id, service.defense_points, ScoreReason::Defense, sequence_after(sequence_start, count), now)]
            } else {
                Seq::<ScoreEntry>::empty()
            };
            let sla = if check.healthy {
                seq![team_entry(event_id, check.team_id, service.sla_points, ScoreReason::Sla, sequence_after(sequence_start, count + defense.len()), now)]
            } else {
                Seq::<ScoreEntry>::empty()
            };
            defense + sla
        },
        None => Seq::empty(),
    }
}

/// The entries of a completed tick: those of each checker result in order.
pub open spec fn tick_scores(
    state: AttackDefenseState,
    checks: Seq<CheckerResult>,
    event_id: EventId,
    sequence_start: u64,
    now: i64,
) -> Seq<ScoreEntry>
    decreases checks.len(),
{
    if checks.len() == 0 {
        Seq::empty()
    } else {
        let before = tick_scores(state, checks.drop_last(), event_id, sequence_start, now);
        before + check_entries(state, checks.last(), event_id, sequence_start, before.len(), now)
    }
}

impl AttackDefenseState {
    /// Completes one tick and emits defense/SLA entries from checker results.
    /// A result for an unknown team or service rejects the whole tick.
    pub fn complete_tick(
        &mut self,
        event_id: EventId,
        checks: &[CheckerResult],
        sequence_start: u64,
        now: i64,
    ) -> (r: DomainResult<Vec<ScoreEntry>>)
        ensures
            match tick_problem(*old(self), checks@) {
                Some(problem) => (r matches Err(DomainError::Validation(m)) && m@ == problem)
                    && *final(self) == *old(self),
                None => {
                    &&& r matches Ok(scores) && scores@ == tick_scores(*old(self), checks@, event_id, sequence_start, now)
                    &&& final(self).tick == (if old(self).tick == u64::MAX { u64::MAX } else { (old(self).tick + 1) as u64 })
                    &&& final(self).services == old(self).services
                    &&& final(self).teams == old(self).teams
                    &&& final(self).expiry_window == old(self).expiry_window
                    &&& final(self).accepted_flags == old(self).accepted_flags
                    &&& final(self).compromised == old(self).compromised
                },
            },
            ad_state_well_formed(*old(self)) ==> ad_state_well_formed(*final(self)),
    {
        let completed_tick = self.tick;
        let mut scores: Vec<ScoreEntry> = Vec::new();
        let mut i: usize = 0;
        while i < checks.len()
            invariant
                i <= checks@.len(),
                completed_tick == self.tick,
                tick_problem(*self, checks@.take(i as int)) is None,
                scores@ == tick_scores(*self, checks@.take(i as int), event_id, sequence_start, now),
            decreases checks.len() - i,
        {
            let check = &checks[i];
            let ghost prefix = checks@.take(i as int);
            let ghost next = checks@.take(i + 1);
            proof {
                assert(next.drop_last() =~= prefix);
                assert(next.last() == checks@[i as int]);
            }
            if !has_team(&self.teams, check.team_id) {
                proof {
                    reveal_strlit("checker team is unknown");
                    lemma_problem_persists(*self, checks@, i as int);
                }
                return Err(DomainError::Validation(owned("checker team is unknown")));
            }
            let position = match find_service(&self.services, check.service.as_str()) {
                Some(position) => position,
                None => {
                    proof {
                        reveal_strlit("checker service is unknown");
                        lemma_problem_persists(*self, checks@, i as int);
                    }
                    return Err(DomainError::Validation(owned("checker service is unknown")));
                },
            };
            let service = &self.services[position];
            let ghost count = scores@.len();
            let ghost before = scores@;
            proof {
                assert(service_position(self.services@, check.service@) == Some(position as int));
            }
            if !has_mark(&self.compromised, completed_tick, check.service.as_str(), check.team_id) {
                let sequence = sequence_start.saturating_add(scores.len() as u64);
                scores.push(ScoreEntry {
                    event_id,
                    competitor: CompetitorId::Team(check.team_id),
                    division_id: None,
                    sequence,
                    points: service.defense_points,
                    reason: ScoreReason::Defense,
                    occurred_at: now,
                    hidden_by_freeze: false,
                });
            }
            if check.healthy {
                let sequence = sequence_start.saturating_add(scores.len() as u64);
                scores.push(ScoreEntry {
                    event_id,
                    competitor: CompetitorId::Team(check.team_id),
                    division_id: None,
                    sequence,
                    points: service.sla_points,
                    reason: ScoreReason::Sla,
                    occurred_at: now,
                    hidden_by_freeze: false,
                });
            }
            proof {
                assert(scores@ =~= before + check_entries(*self, checks@[i as int], event_id, sequence_start, count, now));
            }
            i = i + 1;
        }
        proof {
            assert(checks@.take(checks@.len() as int) =~= checks@);
        }
        self.tick = self.tick.saturating_add(1);
        Ok(scores)
    }
}

/// Once `checks[i]` cannot be scored, the tick's first problem lies at or
/// before it.
proof fn lemma_problem_persists(state: AttackDefenseState, checks: Seq<CheckerResult>, i: int)
    requires
        0 <= i < checks.len(),
        tick_problem(state, checks.take(i)) is None,
        check_problem(state, checks[i]) is Some,
    ensures
        tick_problem(state, checks) == check_problem(state, checks[i]),
    decreases checks.len() - i,
{
    if i == checks.len() - 1 {
        assert(checks.drop_last() =~= checks.take(i));
    } else {
        assert(checks.drop_last().take(i) =~= checks.take(i));
        assert(checks.drop_last()[i] == checks[i]);
        lemma_problem_persists(state, checks.drop_last(), i);
    }
}

/// A flag whose digest was already accepted never scores again, whoever
/// submits it.
pub proof fn lemma_accepted_flag_scores_once(state: AttackDefenseState, key: Seq<u8>, attacker: TeamId, flag: Seq<char>)
    requires
        digests(state.accepted_flags@).contains(flag_digest(flag)),
    ensures
        submission_outcome(state, key, attacker, flag) != Some(SubmissionOutcome::Correct),
{
}

/// A team submitting its own flag is told so and scores nothing.
pub proof fn lemma_own_flag_never_scores(state: AttackDefenseState, key: Seq<u8>, attacker: TeamId, flag: Seq<char>)
    requires
        flag_claim(key, flag) matches Some(claim) && claim.0 == attacker,
    ensures
        submission_outcome(state, key, attacker, flag) == Some(SubmissionOutcome::OwnFlag),
{
}

/// A flag from a future tick, or from a tick older than the expiry window,
/// never scores.
pub proof fn lemma_stale_flag_never_scores(state: AttackDefenseState, key: Seq<u8>, attacker: TeamId, flag: Seq<char>)
    requires
        flag_claim(key, flag) matches Some(claim) && (claim.2 > state.tick || state.tick - claim.2 > state.expiry_window),
    ensures
        submission_outcome(state, key, attacker, flag) != Some(SubmissionOutcome::Correct),
{
}

/// A service marked compromised in the current tick earns its team no
/// defense points when the tick completes.
pub proof fn lemma_compromised_service_loses_defense(
    state: AttackDefenseState,
    check: CheckerResult,
    event_id: EventId,
    sequence_start: u64,
    count: nat,
    now: i64,
)
    requires
        marks(state.compromised@).contains((state.tick, check.service@, check.team_id)),
    ensures
        forall|k: int| 0 <= k < check_entries(state, check, event_id, sequence_start, count, now).len()
            ==> #[trigger] check_entries(state, check, event_id, sequence_start, count, now)[k].reason != ScoreReason::Defense,
{
}

/// The service a checker result reports on (meaningful when it is known).
pub open spec fn checked_service(state: AttackDefenseState, check: CheckerResult) -> AttackDefenseService {
    state.services@[service_position(state.services@, check.service@).unwrap()]
}

/// Whether a checker result's team kept its flag for the service this tick.
pub open spec fn kept_flag(state: AttackDefenseState, check: CheckerResult) -> bool {
    !marks(state.compromised@).contains((state.tick, check.service@, check.team_id))
}

/// An entry paying a checker result's team the service's defense points.
pub open spec fn pays_defense(e: ScoreEntry, state: AttackDefenseState, check: CheckerResult) -> bool {
    &&& e.competitor == CompetitorId::Team(check.team_id)
    &&& e.reason == ScoreReason::Defense
    &&& e.points == checked_service(state, check).defense_points
}

/// An entry paying a checker result's team the service's SLA points.
pub open spec fn pays_sla(e: ScoreEntry, state: AttackDefenseState, check: CheckerResult) -> bool {
    &&& e.competitor == CompetitorId::Team(check.team_id)
    &&& e.reason == ScoreReason::Sla
    &&& e.points == checked_service(state, check).sla_points
}

proof fn lemma_checks_known(state: AttackDefenseState, checks: Seq<CheckerResult>, i: int)
    requires
        tick_problem(state, checks) is None,
        0 <= i < checks.len(),
    ensures
        check_problem(state, checks[i]) is None,
    decreases checks.len(),
{
    if i < checks.len() - 1 {
        match tick_problem(state, checks.drop_last()) {
            Some(_) => {},
            None => {
                lemma_checks_known(state, checks.drop_last(), i);
                assert(checks.drop_last()[i] == checks[i]);
            },
        }
    }
}

proof fn lemma_tick_pays_check(
    state: AttackDefenseState,
    checks: Seq<CheckerResult>,
    event_id: EventId,
    sequence_start: u64,
    now: i64,
    i: int,
)
    requires
        tick_problem(state, checks) is None,
        0 <= i < checks.len(),
    ensures
        kept_flag(state, checks[i]) ==> exists|j: int|
            0 <= j < tick_scores(state, checks, event_id, sequence_start, now).len() && pays_defense(
                #[trigger] tick_scores(state, checks, event_id, sequence_start, now)[j],
                state,
                checks[i],
            ),
        checks[i].healthy ==> exists|j: int|
            0 <= j < tick_scores(state, checks, event_id, sequence_start, now).len() && pays_sla(
                #[trigger] tick_scores(state, checks, event_id, sequence_start, now)[j],
                state,
                checks[i],
            ),
    decreases checks.len(),
{
    let scores = tick_scores(state, checks, event_id, sequence_start, now);
    let front = checks.drop_last();
    let before = tick_scores(state, front, event_id, sequence_start, now);
    let n = checks.len() - 1;
    let own = check_entries(state, checks[n], event_id, sequence_start, before.len(), now);
    assert(scores == before + own);
    if i == n {
        lemma_checks_known(state, checks, i);
        let pos = service_position(state.services@, checks[i].service@).unwrap();
        if kept_flag(state, checks[i]) {
            assert(pays_defense(scores[before.len() as int], state, checks[i]));
        }
        if checks[i].healthy {
            let last = before.len() + own.len() - 1;
            assert(pays_sla(scores[last], state, checks[i]));
        }
    } else {
        assert(tick_problem(state, front) is None);
        lemma_tick_pays_check(state, front, event_id, sequence_start, now, i);
        assert(front[i] == checks[i]);
        if kept_flag(state, checks[i]) {
            let j = choose|j: int| 0 <= j < before.len() && pays_defense(#[trigger] before[j], state, front[i]);
            assert(scores[j] == before[j]);
        }
        if checks[i].healthy {
            let j = choose|j: int| 0 <= j < before.len() && pays_sla(#[trigger] before[j], state, front[i]);
            assert(scores[j] == before[j]);
        }
    }
}

proof fn lemma_tick_entry_paid_for(
    state: AttackDefenseState,
    checks: Seq<CheckerResult>,
    event_id: EventId,
    sequence_start: u64,
    now: i64,
    j: int,
)
    requires
        0 <= j < tick_scores(state, checks, event_id, sequence_start, now).len(),
    ensures
        exists|i: int|
            0 <= i < checks.len() && ((kept_flag(state, #[trigger] checks[i]) && pays_defense(
                tick_scores(state, checks, event_id, sequence_start, now)[j],
                state,
                checks[i],
            )) || (checks[i].healthy && pays_sla(
                tick_scores(state, checks, event_id, sequence_start, now)[j],
                state,
                checks[i],
            ))),
    decreases checks.len(),
{
    let scores = tick_scores(state, checks, event_id, sequence_start, now);
    let front = checks.drop_last();
    let before = tick_scores(state, front, event_id, sequence_start, now);
    let n = checks.len() - 1;
    let own = check_entries(state, checks[n], event_id, sequence_start, before.len(), now);
    assert(scores == before + own);
    if j < before.len() {
        lemma_tick_entry_paid_for(state, front, event_id, sequence_start, now, j);
        let i = choose|i: int|
            0 <= i < front.len() && ((kept_flag(state, #[trigger] front[i]) && pays_defense(before[j], state, front[i]))
                || (front[i].healthy && pays_sla(before[j], state, front[i])));
        assert(front[i] == checks[i]);
        assert(scores[j] == before[j]);
    } else {
        let k = j - before.len();
        assert(scores[j] == own[k]);
        match service_position(state.services@, checks[n].service@) {
            Some(p) => {
                if kept_flag(state, checks[n]) && k == 0 {
                    assert(pays_defense(own[k], state, checks[n]));
                } else {
                    assert(checks[n].healthy && pays_sla(own[k], state, checks[n]));
                }
            },
            None => {},
        }
    }
}

/// A completed tick pays defense for every flag kept and SLA for every
/// healthy check, and nothing else: for every checker result, the tick
/// emits an entry paying its team the service's defense points when the
/// team's flag for the service was not stolen this tick, whatever the
/// checker's health, and one paying the service's SLA points when the
/// checker found the service healthy, whatever was stolen; and every entry
/// of the tick is one of these for some checker result.
pub proof fn lemma_tick_pays_defense_and_sla(
    state: AttackDefenseState,
    checks: Seq<CheckerResult>,
    event_id: EventId,
    sequence_start: u64,
    now: i64,
)
    requires
        tick_problem(state, checks) is None,
    ensures
        forall|i: int| 0 <= i < checks.len() && kept_flag(state, #[trigger] checks[i]) ==> exists|j: int|
            0 <= j < tick_scores(state, checks, event_id, sequence_start, now).len() && pays_defense(
                #[trigger] tick_scores(state, checks, event_id, sequence_start, now)[j],
                state,
                checks[i],
            ),
        forall|i: int| 0 <= i < checks.len() && (#[trigger] checks[i]).healthy ==> exists|j: int|
            0 <= j < tick_scores(state, checks, event_id, sequence_start, now).len() && pays_sla(
                #[trigger] tick_scores(state, checks, event_id, sequence_start, now)[j],
                state,
                checks[i],
            ),
        forall|j: int| 0 <= j < tick_scores(state, checks, event_id, sequence_start, now).len() ==> exists|i: int|
            0 <= i < checks.len() && ((kept_flag(state, #[trigger] checks[i]) && pays_defense(
                #[trigger] tick_scores(state, checks, event_id, sequence_start, now)[j],
                state,
                checks[i],
            )) || (checks[i].healthy && pays_sla(
                tick_scores(state, checks, event_id, sequence_start, now)[j],
                state,
                checks[i],
            ))),
{
    assert forall|i: int| 0 <= i < checks.len() && kept_flag(state, #[trigger] checks[i]) implies exists|j: int|
        0 <= j < tick_scores(state, checks, event_id, sequence_start, now).len() && pays_defense(
            #[trigger] tick_scores(state, checks, event_id, sequence_start, now)[j],
            state,
            checks[i],
        ) by {
        lemma_tick_pays_check(state, checks, event_id, sequence_start, now, i);
    }
    assert forall|i: int| 0 <= i < checks.len() && (#[trigger] checks[i]).healthy implies exists|j: int|
        0 <= j < tick_scores(state, checks, event_id, sequence_start, now).len() && pays_sla(
            #[trigger] tick_scores(state, checks, event_id, sequence_start, now)[j],
            state,
            checks[i],
        ) by {
        lemma_tick_pays_check(state, checks, event_id, sequence_start, now, i);
    }
    assert forall|j: int| 0 <= j < tick_scores(state, checks, event_id, sequence_start, now).len() implies exists|i: int|
        0 <= i < checks.len() && ((kept_flag(state, #[trigger] checks[i]) && pays_defense(
            #[trigger] tick_scores(state, checks, event_id, sequence_start, now)[j],
            state,
            checks[i],
        )) || (checks[i].healthy && pays_sla(
            tick_scores(state, checks, event_id, sequence_start, now)[j],
            state,
            checks[i],
        ))) by {
        lemma_tick_entry_paid_for(state, checks, event_id, sequence_start, now, j);
    }
}

/// Attack/Defense mode registration.
pub struct AttackDefenseMode;

impl AttackDefenseMode {
    /// Stable registration key.
    pub fn key(&self) -> (key: &'static str)
        ensures
            key@ == "attack_defense"@,
    {
        "attack_defense"
    }

    /// Admin control keys offered by this mode.
    pub fn admin_controls(&self) -> (controls: Vec<&'static str>)
        ensures
            controls@.len() == 5,
            controls@[0]@ == "start"@,
            controls@[1]@ == "pause"@,
            controls@[2]@ == "rotate_flags"@,
            controls@[3]@ == "run_checkers"@,
            controls@[4]@ == "advance_tick"@,
    {
        vec!["start", "pause", "rotate_flags", "run_checkers", "advance_tick"]
    }

    /// The answer to an untyped JSON command: A&D commands need the flag
    /// issuer's secret and go through the typed service only.
    pub fn refuse_untyped(&self) -> (error: DomainError)
        ensures
            error matches DomainError::Validation(m) && m@ == "A&D commands require secret-aware typed services"@,
    {
        DomainError::Validation(owned("A&D commands require secret-aware typed services"))
    }

    /// The public view of an A&D state: everything but the accepted flag digests.
    pub fn public_state(&self, state: AttackDefenseState) -> (public: AttackDefenseState)
        ensures
            public.accepted_flags@.len() == 0,
            public.services == state.services,
            public.teams == state.teams,
            public.tick == state.tick,
            public.expiry_window == state.expiry_window,
            public.compromised == state.compromised,
    {
        let mut public = state;
        public.accepted_flags = Vec::new();
        public
    }
}

} // verus!
