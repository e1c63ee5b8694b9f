//! Command receipts, outbox consumers and keyset page bounds.

use vstd::prelude::*;

use crate::digest::{constant_time_eq, sha256, sha256_digest};
use crate::scoring::saturating;
use crate::text::{byte_len, owned, same_text, trim, trimmed};
use crate::{DomainError, DomainResult};

verus! {

/// Replays a stored command receipt for a reused idempotency key: the
/// command must have the same kind and the same payload (by SHA-256 of its
/// serialized bytes). Answers the stored aggregate version.
pub fn replayed_version(
    stored_kind: &str,
    stored_digest: &[u8],
    stored_version: i64,
    kind: &str,
    payload: &[u8],
) -> (r: DomainResult<u64>)
    ensures
        (stored_kind@ != kind@ || stored_digest@ != sha256(payload@)) ==> (r matches Err(DomainError::Conflict(m)) && m@
            == "idempotency key was used for a different command"@),
        stored_kind@ == kind@ && stored_digest@ == sha256(payload@) && stored_version < 0 ==> (r matches Err(
            DomainError::Conflict(m),
        ) && m@ == "invalid stored version"@),
        stored_kind@ == kind@ && stored_digest@ == sha256(payload@) && stored_version >= 0 ==> r == Ok::<u64, DomainError>(
            stored_version as u64,
        ),
{
    let digest = sha256_digest(payload);
    if !same_text(stored_kind, kind) || !constant_time_eq(stored_digest, digest.as_slice()) {
        return Err(DomainError::Conflict(owned("idempotency key was used for a different command")));
    }
    if stored_version < 0 {
        return Err(DomainError::Conflict(owned("invalid stored version")));
    }
    Ok(stored_version as u64)
}

/// The aggregate version a new command writes: one past the expected
/// version (zero when none is expected), saturating; answered with its
/// stored column value, which must fit in `i64`.
pub fn next_aggregate_version(expected: Option<u64>) -> (r: DomainResult<(u64, i64)>)
    ensures
        ({
            let base: u64 = match expected { Some(v) => v, None => 0 };
            let version: u64 = if base == u64::MAX { u64::MAX } else { (base + 1) as u64 };
            &&& version > i64::MAX ==> (r matches Err(DomainError::Validation(m)) && m@ == "aggregate version is too large"@)
            &&& version <= i64::MAX ==> r == Ok::<(u64, i64), DomainError>((version, version as i64))
        }),
{
    let base: u64 = match expected {
        Some(v) => v,
        None => 0,
    };
    let version: u64 = if base == u64::MAX { u64::MAX } else { base + 1 };
    if version > i64::MAX as u64 {
        return Err(DomainError::Validation(owned("aggregate version is too large")));
    }
    Ok((version, version as i64))
}

/// The row limit of a keyset page: a requested size of 1 to `maximum` rows
/// reads one row more, to tell whether another page follows.
pub fn page_rows(limit: u16, maximum: u16, refusal: &str) -> (r: DomainResult<i64>)
    ensures
        1 <= limit <= maximum ==> r == Ok::<i64, DomainError>((limit + 1) as i64),
        !(1 <= limit <= maximum) ==> (r matches Err(DomainError::Validation(m)) && m@ == refusal@),
{
    if limit == 0 || limit > maximum {
        return Err(DomainError::Validation(owned(refusal)));
    }
    Ok(limit as i64 + 1)
}

/// Refuses an audit filter whose range starts after it ends.
pub fn validate_audit_range(occurred_after: Option<i64>, occurred_before: Option<i64>) -> (r: DomainResult<()>)
    ensures
        (occurred_after matches Some(after) && occurred_before matches Some(before) && after > before) ==> (r matches Err(
            DomainError::Validation(m),
        ) && m@ == "audit occurrence range is inverted"@),
        !(occurred_after matches Some(after) && occurred_before matches Some(before) && after > before) ==> r is Ok,
{
    match (occurred_after, occurred_before) {
        (Some(after), Some(before)) => if after > before {
            return Err(DomainError::Validation(owned("audit occurrence range is inverted")));
        },
        _ => {},
    }
    Ok(())
}

/// Refuses a blank outbox consumer key or one longer than 120 bytes.
pub fn validate_consumer_key(consumer: &str) -> (r: DomainResult<()>)
    ensures
        (trimmed(consumer@).len() == 0 || byte_len(consumer@) > 120) ==> (r matches Err(DomainError::Validation(m)) && m@
            == "consumer key must contain 1 to 120 characters"@),
        !(trimmed(consumer@).len() == 0 || byte_len(consumer@) > 120) ==> r is Ok,
{
    if trim(consumer).is_empty() || consumer.len() > 120 {
        return Err(DomainError::Validation(owned("consumer key must contain 1 to 120 characters")));
    }
    Ok(())
}

} // verus!
