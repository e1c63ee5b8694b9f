//! Domain rules for Kitsune, a capture-the-flag and workshop platform.
//!
//! The library is independent of HTTP, SQL and runtime adapters so that every
//! command can be replayed and checked deterministically.

use vstd::prelude::*;

pub mod authz;
pub mod challenge;
pub mod digest;
pub mod encoding;
pub mod events;
pub mod config;
pub mod identity;
pub mod instances;
pub mod modes;
pub mod pattern;
pub mod ports;
pub mod records;
pub mod scoring;
pub mod smtp;
pub mod text;

pub use challenge::{Challenge, ChallengeKind, ChallengeState};
pub use events::{DomainEvent, EventEnvelope};
pub use identity::{Bracket, Division, Event, Organization, Team, User};

verus! {

/// Stable domain error vocabulary shared by all transports.
#[derive(Debug, Clone, PartialEq, Eq)]
pub enum DomainError {
    /// A requested entity does not exist or is deliberately undisclosed.
    NotFound,
    /// The caller is authenticated but not authorized.
    Forbidden,
    /// The command conflicts with current aggregate state.
    Conflict(String),
    /// One or more input fields violate domain rules.
    Validation(String),
    /// A bounded resource or attempt budget has been exhausted.
    LimitExceeded(String),
    /// An optional capability is unavailable in the active configuration.
    Unavailable(String),
}

/// Result type for deterministic domain operations.
pub type DomainResult<T> = Result<T, DomainError>;

} // verus!
