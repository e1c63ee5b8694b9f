//! Account records, federated login decisions and grant scoping rules.

use vstd::prelude::*;

use crate::digest::constant_time_eq;
use crate::identity::{OrganizationId, UserId};
use crate::text::{owned, to_lowercase, trim, trimmed, unicode_lowercase};
use crate::{DomainError, DomainResult};

verus! {

/// Applies stable conservative email normalization: surrounding whitespace
/// is removed and the address lower-cased. Provider-specific aliasing is
/// deliberately not attempted.
pub fn normalize_email(email: &str) -> (normalized: String)
    ensures
        normalized@ == unicode_lowercase(trimmed(email@)),
{
    to_lowercase(trim(email))
}

/// Account record needed for password authentication. The hash is
/// PHC-formatted and must never be serialized to an API response or log.
pub struct LocalAccount {
    /// User identifier.
    pub user_id: UserId,
    /// Organization identifier.
    pub organization_id: OrganizationId,
    /// Public display name.
    pub display_name: String,
    /// Normalized email.
    pub email: String,
    /// Argon2 PHC string.
    pub password_hash: String,
    /// Account disabled state.
    pub disabled: bool,
    /// Verification state.
    pub email_verified: bool,
}

/// Persisted TOTP state. The secret is application-encrypted.
#[derive(Debug, Clone)]
pub struct TotpCredential {
    /// Nonce-prefixed authenticated ciphertext.
    pub encrypted_secret: Vec<u8>,
    /// Highest accepted timestep, preventing replay.
    pub last_counter: Option<i64>,
}

/// Minimal enabled-provider projection for the public OIDC login page.
#[derive(Debug, Clone, PartialEq, Eq)]
pub struct PublicOidcProvider {
    /// Organization-local URL key.
    pub key: String,
    /// Human-readable button label.
    pub display_name: String,
}

/// Verified OIDC claims accepted by the persistence boundary.
pub struct VerifiedOidcIdentity<'a> {
    /// Stable issuer-local subject.
    pub subject: &'a str,
    /// Verified normalized email.
    pub email: &'a str,
    /// Display name selected from verified claims.
    pub display_name: &'a str,
}

/// Session-ready account returned after a successful OIDC login.
#[derive(Debug, Clone, PartialEq, Eq)]
pub struct OidcAccount {
    /// User identifier.
    pub user_id: UserId,
    /// Organization identifier.
    pub organization_id: OrganizationId,
    /// Public display name.
    pub display_name: String,
    /// Normalized verified email.
    pub email: String,
    /// Email ownership state.
    pub email_verified: bool,
}

/// Session-ready account projection for passwordless authentication.
#[derive(Debug, Clone, PartialEq, Eq)]
pub struct PasskeyAccount {
    /// Account identifier.
    pub user_id: UserId,
    /// Tenant identifier.
    pub organization_id: OrganizationId,
    /// Public display name.
    pub display_name: String,
    /// Normalized email address.
    pub email: String,
    /// Email verification state.
    pub email_verified: bool,
}

/// Minimal enabled-provider projection for the public SAML login page.
#[derive(Debug, Clone, PartialEq, Eq)]
pub struct PublicSamlProvider {
    /// Organization-local URL key.
    pub key: String,
    /// Human-readable login label.
    pub display_name: String,
}

/// Verified SAML identity accepted by the persistence boundary.
pub struct VerifiedSamlIdentity<'a> {
    /// Stable IdP-local NameID.
    pub subject: &'a str,
    /// Signed assertion email.
    pub email: &'a str,
    /// Display name derived from a signed assertion.
    pub display_name: &'a str,
    /// Signed response message ID.
    pub response_id: &'a str,
    /// Signed assertion ID.
    pub assertion_id: &'a str,
}

/// Session-ready account returned after a successful SAML login.
#[derive(Debug, Clone, PartialEq, Eq)]
pub struct SamlAccount {
    /// User identifier.
    pub user_id: UserId,
    /// Organization identifier.
    pub organization_id: OrganizationId,
    /// Public display name.
    pub display_name: String,
    /// Normalized verified email.
    pub email: String,
    /// Email ownership state.
    pub email_verified: bool,
}

/// Refuses narrowing a platform-authority role to an event or a team.
pub fn validate_grant_narrowing(platform_role: bool, event_scoped: bool, team_scoped: bool) -> (r: DomainResult<()>)
    ensures
        platform_role && (event_scoped || team_scoped) ==> (r matches Err(DomainError::Validation(m)) && m@
            == "platform authority cannot be narrowed to event or team scope"@),
        !(platform_role && (event_scoped || team_scoped)) ==> r is Ok,
{
    if platform_role && (event_scoped || team_scoped) {
        return Err(DomainError::Validation(owned("platform authority cannot be narrowed to event or team scope")));
    }
    Ok(())
}

/// Refuses a credential's event scope unless every requested event was
/// found in the organization.
pub fn validate_event_scope(found: i64, requested: usize, refusal: &str) -> (r: DomainResult<()>)
    ensures
        found == requested ==> r is Ok,
        found != requested ==> (r matches Err(DomainError::Validation(m)) && m@ == refusal@),
{
    if found < 0 || found as u64 != requested as u64 {
        return Err(DomainError::Validation(owned(refusal)));
    }
    Ok(())
}

/// How a verified federated login (OIDC or SAML) reaches an account.
#[derive(Debug, Clone, Copy, PartialEq, Eq, Structural)]
pub enum FederatedLogin {
    /// Link the identity to the existing account with the same email.
    LinkExisting,
    /// Provision a new player account.
    ProvisionPlayer,
}

/// Decides a first federated login: an existing account with the same
/// email is linked only when the provider allows email linking and the
/// account's email is verified; without one, a player is provisioned only
/// when the provider provisions automatically.
pub fn federated_login(existing_email_verified: Option<bool>, allow_email_link: bool, auto_provision: bool) -> (r: DomainResult<FederatedLogin>)
    ensures
        match existing_email_verified {
            Some(verified) => if allow_email_link && verified {
                r == Ok::<FederatedLogin, DomainError>(FederatedLogin::LinkExisting)
            } else {
                r matches Err(DomainError::Conflict(m)) && m@
                    == "verified email belongs to an account that is not linked to this provider"@
            },
            None => if auto_provision {
                r == Ok::<FederatedLogin, DomainError>(FederatedLogin::ProvisionPlayer)
            } else {
                r == Err::<FederatedLogin, DomainError>(DomainError::Forbidden)
            },
        },
{
    match existing_email_verified {
        Some(verified) => if !allow_email_link || !verified {
            Err(DomainError::Conflict(owned("verified email belongs to an account that is not linked to this provider")))
        } else {
            Ok(FederatedLogin::LinkExisting)
        },
        None => if !auto_provision {
            Err(DomainError::Forbidden)
        } else {
            Ok(FederatedLogin::ProvisionPlayer)
        },
    }
}

/// Refuses an organizer disabling their own account.
pub fn validate_self_disable(actor: UserId, user: UserId, disabled: bool) -> (r: DomainResult<()>)
    ensures
        actor == user && disabled ==> (r matches Err(DomainError::Conflict(m)) && m@
            == "an organizer cannot disable their own active account"@),
        !(actor == user && disabled) ==> r is Ok,
{
    if actor == user && disabled {
        return Err(DomainError::Conflict(owned("an organizer cannot disable their own active account")));
    }
    Ok(())
}

/// Whether the browser-binding digest presented with a sign-in callback is
/// the one stored with the flow, compared in constant time.
pub fn binding_matches(stored: &[u8], presented: &[u8]) -> (b: bool)
    ensures
        b == (stored@ == presented@),
{
    constant_time_eq(stored, presented)
}

/// Resolves a pending sign-in flow: a flow found under its state digest
/// (its stored browser-binding digest and its context) is handed out only
/// to the browser that presents the same binding digest.
pub fn resolve_bound<T>(row: Option<(Vec<u8>, T)>, presented: &[u8]) -> (r: Option<T>)
    ensures
        match row {
            None => r is None,
            Some((stored, context)) => if stored@ == presented@ {
                r == Some(context)
            } else {
                r is None
            },
        },
{
    match row {
        None => None,
        Some((stored, context)) => if binding_matches(stored.as_slice(), presented) {
            Some(context)
        } else {
            None
        },
    }
}

/// Whether an OAuth client secret is accepted: the client must exist and
/// its stored digest equal the presented one. When no client is found the
/// presented digest is still compared, against 32 zero bytes, so that an
/// unknown client takes as long to refuse as a wrong secret.
pub fn client_secret_accepted(stored: Option<&[u8]>, secret_digest: &[u8]) -> (ok: bool)
    ensures
        ok <==> (stored matches Some(d) && d@ == secret_digest@),
{
    let dummy: [u8; 32] = [0u8; 32];
    let expected: &[u8] = match stored {
        Some(d) => d,
        None => dummy.as_slice(),
    };
    let matches = constant_time_eq(expected, secret_digest);
    match stored {
        Some(_) => matches,
        None => false,
    }
}

} // verus!
