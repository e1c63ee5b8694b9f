//! Dynamic challenge instance lifecycle rules.

use vstd::prelude::*;

use vstd::string::StringExecFns;

use crate::text::owned;
use crate::{DomainError, DomainResult};

verus! {

/// Provider-independent lifecycle for a challenge instance.
#[derive(Debug, Clone, Copy, PartialEq, Eq, Structural)]
pub enum InstanceState {
    /// Accepted by Kitsune but not yet sent to a provider.
    Requested,
    /// Provider resources are being created.
    Provisioning,
    /// Connection and flag are ready for the competitor.
    Ready,
    /// The lease exists but its most recent health check failed.
    Unhealthy,
    /// Deprovisioning has begun and new connections are blocked.
    Stopping,
    /// Provider resources are gone.
    Deleted,
    /// Provisioning or cleanup failed and needs reconciliation.
    Failed,
}

/// The stable persistence key of each instance state.
pub open spec fn instance_state_key(state: InstanceState) -> Seq<char> {
    match state {
        InstanceState::Requested => "requested"@,
        InstanceState::Provisioning => "provisioning"@,
        InstanceState::Ready => "ready"@,
        InstanceState::Unhealthy => "unhealthy"@,
        InstanceState::Stopping => "stopping"@,
        InstanceState::Deleted => "deleted"@,
        InstanceState::Failed => "failed"@,
    }
}

/// Whether the provider-independent lifecycle allows moving from `from` to `to`.
pub open spec fn instance_transition_allowed(from: InstanceState, to: InstanceState) -> bool {
    match (from, to) {
        (InstanceState::Requested, InstanceState::Provisioning) => true,
        (InstanceState::Requested, InstanceState::Failed) => true,
        (InstanceState::Provisioning, InstanceState::Ready) => true,
        (InstanceState::Provisioning, InstanceState::Failed) => true,
        (InstanceState::Provisioning, InstanceState::Stopping) => true,
        (InstanceState::Unhealthy, InstanceState::Ready) => true,
        (InstanceState::Unhealthy, InstanceState::Failed) => true,
        (InstanceState::Unhealthy, InstanceState::Stopping) => true,
        (InstanceState::Ready, InstanceState::Unhealthy) => true,
        (InstanceState::Ready, InstanceState::Stopping) => true,
        (InstanceState::Ready, InstanceState::Failed) => true,
        (InstanceState::Stopping, InstanceState::Deleted) => true,
        (InstanceState::Stopping, InstanceState::Failed) => true,
        (InstanceState::Failed, InstanceState::Provisioning) => true,
        (InstanceState::Failed, InstanceState::Stopping) => true,
        (InstanceState::Failed, InstanceState::Deleted) => true,
        _ => false,
    }
}

impl InstanceState {
    /// Stable persistence and event key.
    pub fn as_str(self) -> (key: &'static str)
        ensures
            key@ == instance_state_key(self),
    {
        proof {
            reveal_strlit("requested");
            reveal_strlit("provisioning");
            reveal_strlit("ready");
            reveal_strlit("unhealthy");
            reveal_strlit("stopping");
            reveal_strlit("deleted");
            reveal_strlit("failed");
        }
        match self {
            InstanceState::Requested => "requested",
            InstanceState::Provisioning => "provisioning",
            InstanceState::Ready => "ready",
            InstanceState::Unhealthy => "unhealthy",
            InstanceState::Stopping => "stopping",
            InstanceState::Deleted => "deleted",
            InstanceState::Failed => "failed",
        }
    }
}

impl InstanceState {
    /// Whether a previously issued flag remains eligible for submission.
    pub fn accepts_flags(self) -> (accepts: bool)
        ensures
            accepts == (self == InstanceState::Ready || self == InstanceState::Unhealthy),
    {
        match self {
            InstanceState::Ready | InstanceState::Unhealthy => true,
            _ => false,
        }
    }

    /// Validates one provider-independent lifecycle transition.
    pub fn transition(self, next: Self) -> (r: DomainResult<Self>)
        ensures
            instance_transition_allowed(self, next) ==> r == Ok::<Self, DomainError>(next),
            !instance_transition_allowed(self, next) ==> (r matches Err(DomainError::Conflict(m))
                && m@ == "instance cannot transition from "@ + instance_state_key(self) + " to "@
                + instance_state_key(next)),
    {
        let allowed = match (self, next) {
            (InstanceState::Requested, InstanceState::Provisioning)
            | (InstanceState::Requested, InstanceState::Failed)
            | (InstanceState::Provisioning, InstanceState::Ready)
            | (InstanceState::Provisioning, InstanceState::Failed)
            | (InstanceState::Provisioning, InstanceState::Stopping)
            | (InstanceState::Unhealthy, InstanceState::Ready)
            | (InstanceState::Unhealthy, InstanceState::Failed)
            | (InstanceState::Unhealthy, InstanceState::Stopping)
            | (InstanceState::Ready, InstanceState::Unhealthy)
            | (InstanceState::Ready, InstanceState::Stopping)
            | (InstanceState::Ready, InstanceState::Failed)
            | (InstanceState::Stopping, InstanceState::Deleted)
            | (InstanceState::Stopping, InstanceState::Failed)
            | (InstanceState::Failed, InstanceState::Provisioning)
            | (InstanceState::Failed, InstanceState::Stopping)
            | (InstanceState::Failed, InstanceState::Deleted) => true,
            _ => false,
        };
        if allowed {
            Ok(next)
        } else {
            let message = owned("instance cannot transition from ").concat(self.as_str()).concat(
                " to ",
            ).concat(next.as_str());
            Err(DomainError::Conflict(message))
        }
    }
}

} // verus!
