//! Hashing, message authentication and constant-time comparison, through
//! the `sha2`, `hmac` and `subtle` crates.

use vstd::prelude::*;

use hmac::Mac;
use sha2::Digest;

verus! {

/// The SHA-256 digest of a byte string.
pub uninterp spec fn sha256(data: Seq<u8>) -> Seq<u8>;

/// HMAC-SHA-256 of a message under a key.
pub uninterp spec fn hmac_sha256(key: Seq<u8>, message: Seq<u8>) -> Seq<u8>;

/// Calls `sha2::Sha256::digest`. Claimed: the result is the SHA-256 digest
/// of the input, named `sha256`, and is 32 bytes long.
#[verifier::external_body]
pub(crate) fn sha256_digest(data: &[u8]) -> (digest: Vec<u8>)
    ensures
        digest@ == sha256(data@),
        digest@.len() == 32,
{
    sha2::Sha256::digest(data).to_vec()
}

/// Calls `subtle::ConstantTimeEq::ct_eq` on two byte slices. Claimed, as the
/// crate's source shows: the answer is true exactly when both slices have
/// the same length and the same bytes.
#[verifier::external_body]
pub(crate) fn constant_time_eq(left: &[u8], right: &[u8]) -> (equal: bool)
    ensures
        equal == (left@ == right@),
{
    bool::from(subtle::ConstantTimeEq::ct_eq(left, right))
}

/// Computes HMAC-SHA-256 with `hmac::Hmac::<sha2::Sha256>` (`new_from_slice`,
/// `update`, `finalize`). Claimed: the tag is `hmac_sha256` of key and
/// message, 32 bytes long. `new_from_slice` accepts keys of any length.
#[verifier::external_body]
pub(crate) fn hmac_sha256_tag(key: &[u8], message: &[u8]) -> (tag: Vec<u8>)
    ensures
        tag@ == hmac_sha256(key@, message@),
        tag@.len() == 32,
{
    let mut mac = hmac::Hmac::<sha2::Sha256>::new_from_slice(key).expect("HMAC accepts any key size");
    mac.update(message);
    mac.finalize().into_bytes().to_vec()
}

/// Checks a tag with `hmac::Mac::verify_slice` on an HMAC-SHA-256 of the
/// message. Claimed, as `digest`'s source shows: the check passes exactly
/// when the tag equals the full computed tag (a tag of another length fails).
#[verifier::external_body]
pub(crate) fn hmac_sha256_verify(key: &[u8], message: &[u8], tag: &[u8]) -> (valid: bool)
    ensures
        valid == (tag@ == hmac_sha256(key@, message@)),
{
    let mut mac = hmac::Hmac::<sha2::Sha256>::new_from_slice(key).expect("HMAC accepts any key size");
    mac.update(message);
    mac.verify_slice(tag).is_ok()
}

} // verus!
