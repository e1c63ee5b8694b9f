//! Instance issuance and flag rotation checks, including the credential
//! check of connection documents.

use vstd::prelude::*;

use vstd::utf8::encode_utf8;
use crate::challenge::ChallengeKind;
use crate::digest::{constant_time_eq, sha256_digest};
use crate::text::{byte_len, owned, same_text, trim, trimmed};
use crate::identity::{ChallengeId, EventId, InstanceId, OrganizationId};
use crate::records::columns::{columns_of, competitor_from_columns};
use crate::scoring::CompetitorId;
use crate::{DomainError, DomainResult};
use crate::records::gameplay::trimmed_digest;

verus! {

/// Checks that a stored challenge still issues instances from `template`:
/// only a dynamic challenge issues instances, and only from its own template.
pub fn validate_instance_template(kind: &ChallengeKind, template: &str) -> (r: DomainResult<()>)
    ensures
        (kind matches ChallengeKind::DynamicInstance { template: t } && t@ == template@) ==> r is Ok,
        (kind matches ChallengeKind::DynamicInstance { template: t } && t@ != template@) ==> (r matches Err(DomainError::Conflict(m))
            && m@ == "instance template no longer matches the challenge"@),
        !(kind is DynamicInstance) ==> (r matches Err(DomainError::Validation(m))
            && m@ == "instances can only be issued for dynamic challenges"@),
{
    match kind {
        ChallengeKind::DynamicInstance { template: stored } => {
            if same_text(stored.as_str(), template) {
                Ok(())
            } else {
                Err(DomainError::Conflict(owned("instance template no longer matches the challenge")))
            }
        },
        _ => Err(DomainError::Validation(owned("instances can only be issued for dynamic challenges"))),
    }
}

/// Refuses an instance timestamp (microseconds) before the Unix epoch.
pub fn validate_actorless_timestamp(now: i64) -> (r: DomainResult<()>)
    ensures
        now < 0 ==> (r matches Err(DomainError::Validation(m)) && m@ == "instance timestamp must be after the Unix epoch"@),
        now >= 0 ==> r is Ok,
{
    if now < 0 {
        Err(DomainError::Validation(owned("instance timestamp must be after the Unix epoch")))
    } else {
        Ok(())
    }
}

/// A byte allowed in an orchestration key: ASCII letters and digits and
/// `-_.:/@`.
pub open spec fn key_byte(b: u8) -> bool {
    (0x61 <= b <= 0x7a) || (0x41 <= b <= 0x5a) || (0x30 <= b <= 0x39) || b == 0x2d || b == 0x5f || b == 0x2e
        || b == 0x3a || b == 0x2f || b == 0x40
}

/// A non-empty key of at most `maximum` bytes, all allowed.
pub open spec fn valid_key(bytes: Seq<u8>, maximum: usize) -> bool {
    &&& bytes.len() > 0
    &&& bytes.len() <= maximum
    &&& forall|i: int| 0 <= i < bytes.len() ==> key_byte(#[trigger] bytes[i])
}

fn is_key_byte(b: u8) -> (allowed: bool)
    ensures
        allowed == key_byte(b),
{
    (0x61 <= b && b <= 0x7a) || (0x41 <= b && b <= 0x5a) || (0x30 <= b && b <= 0x39) || b == 0x2d || b == 0x5f
        || b == 0x2e || b == 0x3a || b == 0x2f || b == 0x40
}

/// Refuses an empty, oversized or unsafe orchestration key.
pub fn validate_key(value: &str, field: &str, maximum: usize) -> (r: DomainResult<()>)
    ensures
        valid_key(encode_utf8(value@), maximum) ==> r is Ok,
        !valid_key(encode_utf8(value@), maximum) ==> (r matches Err(DomainError::Validation(m)) && m@ == field@
            + " contains unsupported characters or exceeds its bound"@),
{
    let bytes = value.as_bytes();
    let mut valid = bytes.len() > 0 && bytes.len() <= maximum;
    let mut i: usize = 0;
    while i < bytes.len()
        invariant
            i <= bytes@.len(),
            valid == (bytes@.len() > 0 && bytes@.len() <= maximum && forall|k: int| 0 <= k < i ==> key_byte(#[trigger] bytes@[k])),
        decreases bytes.len() - i,
    {
        if !is_key_byte(bytes[i]) {
            valid = false;
        }
        i = i + 1;
    }
    if valid {
        Ok(())
    } else {
        Err(DomainError::Validation(owned(field).concat(" contains unsupported characters or exceeds its bound")))
    }
}

/// A Unicode control character (general category Cc: C0 and C1 controls),
/// as `char::is_control` classifies it.
pub open spec fn is_control(c: char) -> bool {
    (c as u32) <= 0x1f || (0x7f <= (c as u32) && (c as u32) <= 0x9f)
}

fn control_char(c: char) -> (control: bool)
    ensures
        control == is_control(c),
{
    let code = c as u32;
    code <= 0x1f || (0x7f <= code && code <= 0x9f)
}

fn has_control(s: &str) -> (found: bool)
    ensures
        found == exists|i: int| 0 <= i < s@.len() && is_control(#[trigger] s@[i]),
{
    let chars = crate::text::chars_of(s);
    let mut i: usize = 0;
    while i < chars.len()
        invariant
            chars@ == s@,
            i <= chars@.len(),
            forall|k: int| 0 <= k < i ==> !is_control(#[trigger] s@[k]),
        decreases chars.len() - i,
    {
        if control_char(chars[i]) {
            assert(is_control(s@[i as int]));
            return true;
        }
        i = i + 1;
    }
    false
}

/// Shortest lease of an issued instance, in microseconds (one minute).
pub const MINIMUM_TTL_MICROS: i64 = 60_000_000;

/// Longest lease of an issued instance, in microseconds (thirty days).
pub const MAXIMUM_TTL_MICROS: i64 = 2_592_000_000_000;

/// Whether a provider identifier is 1 to 240 bytes of printable text
/// (not blank).
pub open spec fn valid_provider_id(provider_id: Seq<char>) -> bool {
    &&& trimmed(provider_id).len() > 0
    &&& byte_len(provider_id) <= 240
    &&& forall|i: int| 0 <= i < provider_id.len() ==> !is_control(#[trigger] provider_id[i])
}

/// Why the fields of an instance issue are refused, if they are: checked
/// in order, the timestamp, the orchestrator and template keys, the
/// provider identifier and the lease length.
pub open spec fn issue_problem(
    now: i64,
    orchestrator: Seq<char>,
    template: Seq<char>,
    provider_id: Seq<char>,
    expires_at: i64,
) -> Option<Seq<char>> {
    if now < 0 {
        Some("instance timestamp must be after the Unix epoch"@)
    } else if !valid_key(encode_utf8(orchestrator), 64) {
        Some("orchestrator contains unsupported characters or exceeds its bound"@)
    } else if !valid_key(encode_utf8(template), 160) {
        Some("template contains unsupported characters or exceeds its bound"@)
    } else if !valid_provider_id(provider_id) {
        Some("provider identifier must contain 1 to 240 printable characters"@)
    } else if !(MINIMUM_TTL_MICROS <= expires_at - now <= MAXIMUM_TTL_MICROS) {
        Some("instance TTL must be between one minute and thirty days"@)
    } else {
        None
    }
}

/// Validates the scalar fields of an instance issue (instants in
/// microseconds). The connection document is checked by its caller.
pub fn validate_issue_fields(
    now: i64,
    orchestrator: &str,
    template: &str,
    provider_id: &str,
    expires_at: i64,
) -> (r: DomainResult<()>)
    ensures
        match issue_problem(now, orchestrator@, template@, provider_id@, expires_at) {
            None => r is Ok,
            Some(problem) => r matches Err(DomainError::Validation(m)) && m@ == problem,
        },
{
    proof {
        reveal_strlit("orchestrator");
        reveal_strlit("template");
        reveal_strlit(" contains unsupported characters or exceeds its bound");
        reveal_strlit("orchestrator contains unsupported characters or exceeds its bound");
        reveal_strlit("template contains unsupported characters or exceeds its bound");
        assert("orchestrator"@ + " contains unsupported characters or exceeds its bound"@
            =~= "orchestrator contains unsupported characters or exceeds its bound"@);
        assert("template"@ + " contains unsupported characters or exceeds its bound"@
            =~= "template contains unsupported characters or exceeds its bound"@);
    }
    match validate_actorless_timestamp(now) {
        Ok(()) => {},
        Err(error) => return Err(error),
    }
    match validate_key(orchestrator, "orchestrator", 64) {
        Ok(()) => {},
        Err(error) => return Err(error),
    }
    match validate_key(template, "template", 160) {
        Ok(()) => {},
        Err(error) => return Err(error),
    }
    if crate::text::is_blank(provider_id) || provider_id.len() > 240 || has_control(provider_id) {
        proof {
            crate::text::lemma_trimmed_empty_iff_blank(provider_id@);
        }
        return Err(DomainError::Validation(owned("provider identifier must contain 1 to 240 printable characters")));
    }
    proof {
        crate::text::lemma_trimmed_empty_iff_blank(provider_id@);
    }
    let ttl: i128 = expires_at as i128 - now as i128;
    if ttl < MINIMUM_TTL_MICROS as i128 || ttl > MAXIMUM_TTL_MICROS as i128 {
        return Err(DomainError::Validation(owned("instance TTL must be between one minute and thirty days")));
    }
    Ok(())
}

/// Whether a dynamic flag, once trimmed, is 16 to 512 bytes of printable text.
pub open spec fn valid_dynamic_flag(flag: Seq<char>) -> bool {
    &&& 16 <= byte_len(trimmed(flag)) <= 512
    &&& forall|i: int| 0 <= i < trimmed(flag).len() ==> !is_control(#[trigger] trimmed(flag)[i])
}

/// The stored digest of a dynamic instance flag: SHA-256 of the trimmed flag.
pub fn dynamic_flag_digest(flag: &str) -> (r: DomainResult<Vec<u8>>)
    ensures
        valid_dynamic_flag(flag@) ==> (r matches Ok(digest) && digest@ == trimmed_digest(flag@)),
        !valid_dynamic_flag(flag@) ==> (r matches Err(DomainError::Validation(m)) && m@
            == "dynamic flags must contain 16 to 512 printable bytes"@),
{
    let normalized = trim(flag);
    let length = normalized.len();
    if length < 16 || length > 512 || has_control(normalized) {
        return Err(DomainError::Validation(owned("dynamic flags must contain 16 to 512 printable bytes")));
    }
    Ok(sha256_digest(normalized.as_bytes()))
}

/// The column value of the flag generation a rotation expects.
pub fn expected_generation(expected: u64) -> (r: DomainResult<i64>)
    ensures
        expected > i64::MAX ==> (r matches Err(DomainError::Validation(m)) && m@ == "flag generation is too large"@),
        expected <= i64::MAX ==> r == Ok::<i64, DomainError>(expected as i64),
{
    if expected > i64::MAX as u64 {
        return Err(DomainError::Validation(owned("flag generation is too large")));
    }
    Ok(expected as i64)
}

/// Whether a stored instance can rotate its flag at `now`: it is ready or
/// unhealthy and its lease has not expired.
pub open spec fn can_rotate(state: Seq<char>, expires_at: i64, now: i64) -> bool {
    (state == "ready"@ || state == "unhealthy"@) && expires_at > now
}

/// The next flag generation of a rotation: the instance must be able to
/// rotate, and its stored generation must be the expected one. Answers the
/// stored and the public form of the next generation.
pub fn next_flag_generation(state: &str, expires_at: i64, now: i64, stored: i64, expected: i64) -> (r: DomainResult<(i64, u64)>)
    ensures
        !can_rotate(state@, expires_at, now) ==> (r matches Err(DomainError::Conflict(m)) && m@
            == "only an unexpired ready or unhealthy instance can rotate its flag"@),
        can_rotate(state@, expires_at, now) && stored != expected ==> (r matches Err(DomainError::Conflict(m)) && m@
            == "instance flag generation changed during rotation"@),
        can_rotate(state@, expires_at, now) && stored == expected && stored == i64::MAX ==> (r matches Err(
            DomainError::LimitExceeded(m),
        ) && m@ == "flag generation exhausted"@),
        can_rotate(state@, expires_at, now) && stored == expected && stored < i64::MAX && stored + 1 < 0 ==> (r matches Err(
            DomainError::Unavailable(m),
        ) && m@ == "stored flag generation is invalid"@),
        can_rotate(state@, expires_at, now) && stored == expected && stored < i64::MAX && stored + 1 >= 0 ==> r == Ok::<
            (i64, u64),
            DomainError,
        >(((stored + 1) as i64, (stored + 1) as u64)),
{
    if !(same_text(state, "ready") || same_text(state, "unhealthy")) || expires_at <= now {
        return Err(DomainError::Conflict(owned("only an unexpired ready or unhealthy instance can rotate its flag")));
    }
    if stored != expected {
        return Err(DomainError::Conflict(owned("instance flag generation changed during rotation")));
    }
    if stored == i64::MAX {
        return Err(DomainError::LimitExceeded(owned("flag generation exhausted")));
    }
    let next = stored + 1;
    if next < 0 {
        return Err(DomainError::Unavailable(owned("stored flag generation is invalid")));
    }
    Ok((next, next as u64))
}

/// The structure of a JSON document as far as a credential check reads it:
/// object entries with their keys, array items, and scalars.
#[derive(Debug)]
pub enum JsonShape {
    /// An object's entries, in document order.
    Object(Vec<(String, JsonShape)>),
    /// An array's items, in order.
    Array(Vec<JsonShape>),
    /// A string, number, boolean or null.
    Scalar,
}

/// Whether a key names a credential, ignoring ASCII case: `authorization`,
/// `credential(s)`, `flag`, `password`, `secret` or `token`.
pub open spec fn sensitive_name(key: Seq<char>) -> bool {
    let k = key.map_values(|c: char| crate::text::ascii_lower(c));
    k == "authorization"@ || k == "credential"@ || k == "credentials"@ || k == "flag"@ || k == "password"@
        || k == "secret"@ || k == "token"@
}

/// Whether a document names a credential-like key at any depth.
pub open spec fn names_credential(value: JsonShape) -> bool
    decreases value,
{
    match value {
        JsonShape::Object(entries) => exists|i: int|
            0 <= i < entries@.len() && (sensitive_name(entries@[i].0@) || names_credential(
                #[trigger] entries@[i].1,
            )),
        JsonShape::Array(items) => exists|i: int| 0 <= i < items@.len() && names_credential(#[trigger] items@[i]),
        JsonShape::Scalar => false,
    }
}

fn sensitive_key(key: &str) -> (sensitive: bool)
    ensures
        sensitive == sensitive_name(key@),
{
    let lower = crate::text::ascii_lowercase(key);
    let k = lower.as_str();
    same_text(k, "authorization") || same_text(k, "credential") || same_text(k, "credentials") || same_text(k, "flag")
        || same_text(k, "password") || same_text(k, "secret") || same_text(k, "token")
}

/// Whether a document names a credential-like key at any depth.
pub fn contains_sensitive_key(value: &JsonShape) -> (found: bool)
    ensures
        found == names_credential(*value),
    decreases value,
{
    match value {
        JsonShape::Object(entries) => {
            let mut i: usize = 0;
            while i < entries.len()
                invariant
                    i <= entries@.len(),
                    *value == JsonShape::Object(*entries),
                    value->Object_0 == *entries,
                    forall|k: int| 0 <= k < i ==> !sensitive_name(#[trigger] entries@[k].0@),
                    forall|k: int| 0 <= k < i ==> !names_credential(#[trigger] entries@[k].1),
                decreases entries.len() - i,
            {
                if sensitive_key(entries[i].0.as_str()) {
                    assert(sensitive_name(entries@[i as int].0@) || names_credential(entries@[i as int].1));
                    assert(names_credential(*value));
                    return true;
                }
                proof {
                    assert(value->Object_0 == *entries);
                    assert(decreases_to!(*value => value->Object_0));
                    assert(decreases_to!(value->Object_0 => entries@));
                    assert(decreases_to!(entries@ => entries@[i as int]));
                    assert(decreases_to!(entries@[i as int] => entries@[i as int].1));
                }
                if contains_sensitive_key(&entries[i].1) {
                    assert(names_credential(*value));
                    return true;
                }
                assert(!sensitive_name(entries@[i as int].0@));
                assert(!names_credential(entries@[i as int].1));
                i = i + 1;
            }
            assert(!names_credential(*value));
            false
        },
        JsonShape::Array(items) => {
            let mut i: usize = 0;
            while i < items.len()
                invariant
                    i <= items@.len(),
                    *value == JsonShape::Array(*items),
                    value->Array_0 == *items,
                    forall|k: int| 0 <= k < i ==> !names_credential(#[trigger] items@[k]),
                decreases items.len() - i,
            {
                proof {
                    assert(value->Array_0 == *items);
                    assert(decreases_to!(*value => value->Array_0));
                    assert(decreases_to!(value->Array_0 => items@));
                    assert(decreases_to!(items@ => items@[i as int]));
                }
                if contains_sensitive_key(&items[i]) {
                    assert(names_credential(*value));
                    return true;
                }
                i = i + 1;
            }
            false
        },
        JsonShape::Scalar => false,
    }
}

/// The columns of an instance already stored under an issuance's retry key.
pub struct StoredIssuance<'a> {
    /// Organization of the instance's event.
    pub organization_id: u128,
    /// Instance identifier.
    pub id: u128,
    /// Event identifier.
    pub event_id: u128,
    /// Challenge identifier, if recorded.
    pub challenge_id: Option<u128>,
    /// User column of the competitor binding.
    pub user_id: Option<u128>,
    /// Team column of the competitor binding.
    pub team_id: Option<u128>,
    /// Orchestrator key.
    pub orchestrator: &'a str,
    /// Provider resource identifier, if recorded.
    pub provider_id: Option<&'a str>,
    /// Template key.
    pub template: &'a str,
    /// Lease expiry in microseconds.
    pub expires_at: i64,
    /// Digest of the issued flag; absent until the lease is ready.
    pub flag_digest: Option<&'a [u8]>,
}

/// The fields of an issuance request that a retry must repeat.
pub struct IssuanceRequest<'a> {
    /// Organization.
    pub organization_id: OrganizationId,
    /// Instance.
    pub instance_id: InstanceId,
    /// Event.
    pub event_id: EventId,
    /// Dynamic challenge.
    pub challenge_id: ChallengeId,
    /// Competitor the lease belongs to.
    pub competitor: CompetitorId,
    /// Orchestrator key.
    pub orchestrator: &'a str,
    /// Provider resource identifier.
    pub provider_id: &'a str,
    /// Template key.
    pub template: &'a str,
    /// Lease expiry in microseconds.
    pub expires_at: i64,
}

/// Whether a stored row is the same instance of the same event and
/// challenge in the same organization as a request.
pub open spec fn same_lease_target(stored: StoredIssuance, request: IssuanceRequest) -> bool {
    &&& stored.organization_id == request.organization_id.0
    &&& stored.id == request.instance_id.0
    &&& stored.event_id == request.event_id.0
    &&& stored.challenge_id == Some(request.challenge_id.0)
}

/// Whether a stored row's competitor columns hold exactly one competitor.
pub open spec fn binding_well_formed(user_id: Option<u128>, team_id: Option<u128>) -> bool {
    (user_id is Some && team_id is None) || (user_id is None && team_id is Some)
}

/// Whether a stored issuance is the one a retried request describes:
/// every recorded field, the connection document and the flag digest agree.
pub open spec fn same_issuance(
    stored: StoredIssuance,
    request: IssuanceRequest,
    same_connection: bool,
    flag_digest: Seq<u8>,
) -> bool {
    &&& same_lease_target(stored, request)
    &&& (stored.user_id, stored.team_id) == columns_of(request.competitor)
    &&& stored.orchestrator@ == request.orchestrator@
    &&& stored.provider_id matches Some(p) && p@ == request.provider_id@
    &&& stored.template@ == request.template@
    &&& same_connection
    &&& stored.expires_at == request.expires_at
    &&& stored.flag_digest matches Some(d) && d@ == flag_digest
}

fn same_optional_text(stored: Option<&str>, text: &str) -> (same: bool)
    ensures
        same == (stored matches Some(p) && p@ == text@),
{
    match stored {
        Some(p) => same_text(p, text),
        None => false,
    }
}

/// Decides whether an issuance retried under a used retry key answers with
/// the stored lease. A lease that is not ready yet, or one issued for
/// anything else, refuses the key; a stored competitor binding that is not
/// exactly one competitor is a broken record. `same_connection` tells
/// whether the stored connection document equals the requested one.
pub fn check_issuance_replay(
    stored: &StoredIssuance,
    request: &IssuanceRequest,
    same_connection: bool,
    flag_digest: &[u8],
) -> (r: DomainResult<()>)
    ensures
        stored.flag_digest is None ==> (r matches Err(DomainError::Conflict(m)) && m@
            == "idempotency key belongs to an unready lease"@),
        stored.flag_digest is Some && same_lease_target(*stored, *request) && !binding_well_formed(
            stored.user_id,
            stored.team_id,
        ) ==> (r matches Err(DomainError::Unavailable(m)) && m@ == "instance contains an invalid competitor binding"@),
        stored.flag_digest is Some && !(same_lease_target(*stored, *request) && !binding_well_formed(
            stored.user_id,
            stored.team_id,
        )) ==> {
            &&& r is Ok <==> same_issuance(*stored, *request, same_connection, flag_digest@)
            &&& r is Err ==> (r matches Err(DomainError::Conflict(m)) && m@
                == "idempotency key belongs to a different instance issuance"@)
        },
{
    let stored_digest = match stored.flag_digest {
        Some(d) => d,
        None => return Err(DomainError::Conflict(owned("idempotency key belongs to an unready lease"))),
    };
    let different = Err(DomainError::Conflict(owned("idempotency key belongs to a different instance issuance")));
    if !(stored.organization_id == request.organization_id.0 && stored.id == request.instance_id.0
        && stored.event_id == request.event_id.0 && stored.challenge_id == Some(request.challenge_id.0)) {
        return different;
    }
    let competitor = match competitor_from_columns(stored.user_id, stored.team_id) {
        Ok(competitor) => competitor,
        Err(error) => return Err(error),
    };
    if !(competitor == request.competitor && same_text(stored.orchestrator, request.orchestrator)
        && same_optional_text(stored.provider_id, request.provider_id) && same_text(
        stored.template,
        request.template,
    ) && same_connection && stored.expires_at == request.expires_at) {
        return different;
    }
    if constant_time_eq(stored_digest, flag_digest) {
        Ok(())
    } else {
        different
    }
}

/// Largest accepted serialized connection document, in bytes (16 KiB).
pub const MAXIMUM_CONNECTION_BYTES: usize = 16384;

/// Checks an instance's connection document, given its structure and the
/// length of its serialized form: it must be an object, at most 16 KiB once
/// serialized, and name no credential anywhere in it.
pub fn validate_connection_shape(shape: &JsonShape, encoded_len: usize) -> (r: DomainResult<()>)
    ensures
        !(*shape is Object) ==> (r matches Err(DomainError::Validation(m)) && m@
            == "instance connection must be a JSON object"@),
        *shape is Object && encoded_len > MAXIMUM_CONNECTION_BYTES ==> (r matches Err(DomainError::LimitExceeded(m))
            && m@ == "instance connection document is too large"@),
        *shape is Object && encoded_len <= MAXIMUM_CONNECTION_BYTES && names_credential(*shape) ==> (r matches Err(
            DomainError::Validation(m),
        ) && m@ == "instance connection must not contain credentials or flags"@),
        *shape is Object && encoded_len <= MAXIMUM_CONNECTION_BYTES && !names_credential(*shape) ==> r is Ok,
{
    match shape {
        JsonShape::Object(_) => {},
        _ => return Err(DomainError::Validation(owned("instance connection must be a JSON object"))),
    }
    if encoded_len > MAXIMUM_CONNECTION_BYTES {
        return Err(DomainError::LimitExceeded(owned("instance connection document is too large")));
    }
    if contains_sensitive_key(shape) {
        return Err(DomainError::Validation(owned("instance connection must not contain credentials or flags")));
    }
    Ok(())
}

} // verus!
