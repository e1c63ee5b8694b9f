//! Fine-grained, scoped role-based authorization.

use vstd::prelude::*;

use crate::identity::{EventId, OrganizationId, TeamId, UserId};
use crate::text::owned;

verus! {

/// A stable authorization operation. New permissions are additive.
#[derive(Debug, Clone, Copy, PartialEq, Eq, Structural, PartialOrd, Ord, Hash)]
pub enum Permission {
    /// Read public event content.
    EventRead,
    /// Change event configuration.
    EventManage,
    /// Read challenge content available to an actor.
    ChallengeRead,
    /// Author and publish challenges.
    ChallengeManage,
    /// Submit an answer or attack flag.
    SubmissionCreate,
    /// Review and moderate submissions.
    SubmissionManage,
    /// Read a visible scoreboard.
    ScoreboardRead,
    /// Freeze, hide, adjust, or replay scoring.
    ScoreboardManage,
    /// Create or manage a team.
    TeamManage,
    /// Manage identities and assignments.
    IdentityManage,
    /// Provision and operate instances.
    InstanceManage,
    /// Build and operate automations.
    AutomationManage,
    /// Install and grant plugin capabilities.
    PluginManage,
    /// Read audit history.
    AuditRead,
    /// Operate every organization.
    PlatformManage,
}

/// Named reusable permission bundle.
#[derive(Debug, Clone, PartialEq, Eq)]
pub struct Role {
    /// Stable role key.
    pub key: String,
    /// Human-readable label.
    pub name: String,
    /// Permissions granted by the role, each listed once, in declaration order.
    pub permissions: Vec<Permission>,
}

/// The permissions of the built-in player role.
pub open spec fn player_permissions() -> Seq<Permission> {
    seq![
        Permission::EventRead,
        Permission::ChallengeRead,
        Permission::SubmissionCreate,
        Permission::ScoreboardRead,
    ]
}

/// Every permission except platform-wide management, in declaration order.
pub open spec fn organization_permissions() -> Seq<Permission> {
    seq![
        Permission::EventRead,
        Permission::EventManage,
        Permission::ChallengeRead,
        Permission::ChallengeManage,
        Permission::SubmissionCreate,
        Permission::SubmissionManage,
        Permission::ScoreboardRead,
        Permission::ScoreboardManage,
        Permission::TeamManage,
        Permission::IdentityManage,
        Permission::InstanceManage,
        Permission::AutomationManage,
        Permission::PluginManage,
        Permission::AuditRead,
    ]
}

/// A role's invariant: each permission is listed once, as in the set of
/// permissions the role stands for.
pub open spec fn role_well_formed(role: Role) -> bool {
    role.permissions@.no_duplicates()
}

impl Role {
    /// Built-in player role.
    pub fn player() -> (role: Self)
        ensures
            role.key@ == "player"@,
            role.name@ == "Player"@,
            role.permissions@ == player_permissions(),
            role_well_formed(role),
    {
        let mut permissions: Vec<Permission> = Vec::new();
        permissions.push(Permission::EventRead);
        permissions.push(Permission::ChallengeRead);
        permissions.push(Permission::SubmissionCreate);
        permissions.push(Permission::ScoreboardRead);
        assert(permissions@ =~= player_permissions());
        Role { key: owned("player"), name: owned("Player"), permissions }
    }

    /// Built-in organizer role.
    pub fn organizer() -> (role: Self)
        ensures
            role.key@ == "organizer"@,
            role.name@ == "Organizer"@,
            role.permissions@ == organization_permissions(),
            role_well_formed(role),
    {
        Role {
            key: owned("organizer"),
            name: owned("Organizer"),
            permissions: Permission::all_except_platform(),
        }
    }
}

impl Permission {
    /// Every permission except platform-wide management.
    pub fn all_except_platform() -> (all: Vec<Self>)
        ensures
            all@ == organization_permissions(),
            all@.no_duplicates(),
    {
        let mut all: Vec<Permission> = Vec::new();
        all.push(Permission::EventRead);
        all.push(Permission::EventManage);
        all.push(Permission::ChallengeRead);
        all.push(Permission::ChallengeManage);
        all.push(Permission::SubmissionCreate);
        all.push(Permission::SubmissionManage);
        all.push(Permission::ScoreboardRead);
        all.push(Permission::ScoreboardManage);
        all.push(Permission::TeamManage);
        all.push(Permission::IdentityManage);
        all.push(Permission::InstanceManage);
        all.push(Permission::AutomationManage);
        all.push(Permission::PluginManage);
        all.push(Permission::AuditRead);
        assert(all@ =~= organization_permissions());
        all
    }
}

/// Optional scope attached to a role assignment.
#[derive(Debug, Clone, Copy, PartialEq, Eq, Structural)]
pub struct GrantScope {
    /// Organization boundary.
    pub organization_id: OrganizationId,
    /// Optional event narrowing.
    pub event_id: Option<EventId>,
    /// Optional team narrowing.
    pub team_id: Option<TeamId>,
}

/// Materialized assignment used by an authorization check.
#[derive(Debug, Clone, PartialEq, Eq)]
pub struct RoleGrant {
    /// Principal.
    pub user_id: UserId,
    /// Named role.
    pub role: Role,
    /// Scope in which the role applies.
    pub scope: GrantScope,
}

/// Resource scope for the requested operation.
#[derive(Debug, Clone, Copy, PartialEq, Eq, Structural)]
pub struct AuthorizationTarget {
    /// Organization boundary.
    pub organization_id: OrganizationId,
    /// Event boundary when applicable.
    pub event_id: Option<EventId>,
    /// Team boundary when applicable.
    pub team_id: Option<TeamId>,
}

/// A grant scope covers a target: same organization, and any event or team
/// narrowing names the target's own event or team.
pub open spec fn scope_covers(scope: GrantScope, target: AuthorizationTarget) -> bool {
    &&& scope.organization_id == target.organization_id
    &&& (scope.event_id matches Some(event) ==> target.event_id == Some(event))
    &&& (scope.team_id matches Some(team) ==> target.team_id == Some(team))
}

/// A grant gives the actor the permission on the target.
pub open spec fn grant_applies(
    grant: RoleGrant,
    actor: UserId,
    permission: Permission,
    target: AuthorizationTarget,
) -> bool {
    &&& grant.user_id == actor
    &&& grant.role.permissions@.contains(permission)
    &&& scope_covers(grant.scope, target)
}

/// A grant makes the actor a platform manager, allowed everywhere.
pub open spec fn grant_is_platform(grant: RoleGrant, actor: UserId) -> bool {
    grant.user_id == actor && grant.role.permissions@.contains(Permission::PlatformManage)
}

/// The authorization decision over a list of grants.
pub open spec fn allowed(
    actor: UserId,
    grants: Seq<RoleGrant>,
    permission: Permission,
    target: AuthorizationTarget,
) -> bool {
    ||| exists|i: int| 0 <= i < grants.len() && grant_applies(#[trigger] grants[i], actor, permission, target)
    ||| exists|i: int| 0 <= i < grants.len() && grant_is_platform(#[trigger] grants[i], actor)
}

fn holds_permission(permissions: &Vec<Permission>, permission: Permission) -> (found: bool)
    ensures
        found == permissions@.contains(permission),
{
    let mut i: usize = 0;
    while i < permissions.len()
        invariant
            i <= permissions.len(),
            forall|k: int| 0 <= k < i ==> permissions@[k] != permission,
        decreases permissions.len() - i,
    {
        if permissions[i] == permission {
            return true;
        }
        i = i + 1;
    }
    false
}

fn covers(scope: &GrantScope, target: &AuthorizationTarget) -> (c: bool)
    ensures
        c == scope_covers(*scope, *target),
{
    let event_ok = match scope.event_id {
        Some(event) => target.event_id == Some(event),
        None => true,
    };
    let team_ok = match scope.team_id {
        Some(team) => target.team_id == Some(team),
        None => true,
    };
    scope.organization_id == target.organization_id && event_ok && team_ok
}

/// Returns true when at least one grant includes the permission and target,
/// or when the actor holds a platform-management grant.
pub fn is_allowed(
    actor: UserId,
    grants: &[RoleGrant],
    permission: Permission,
    target: AuthorizationTarget,
) -> (ok: bool)
    ensures
        ok == allowed(actor, grants@, permission, target),
{
    let mut i: usize = 0;
    while i < grants.len()
        invariant
            i <= grants.len(),
            forall|k: int| 0 <= k < i ==> !grant_applies(#[trigger] grants@[k], actor, permission, target),
        decreases grants.len() - i,
    {
        let grant = &grants[i];
        if grant.user_id == actor && holds_permission(&grant.role.permissions, permission) && covers(
            &grant.scope,
            &target,
        ) {
            return true;
        }
        i = i + 1;
    }
    let mut j: usize = 0;
    while j < grants.len()
        invariant
            j <= grants.len(),
            forall|k: int| 0 <= k < grants@.len() ==> !grant_applies(#[trigger] grants@[k], actor, permission, target),
            forall|k: int| 0 <= k < j ==> !grant_is_platform(#[trigger] grants@[k], actor),
        decreases grants.len() - j,
    {
        let grant = &grants[j];
        if grant.user_id == actor && holds_permission(&grant.role.permissions, Permission::PlatformManage) {
            return true;
        }
        j = j + 1;
    }
    false
}

/// A grant scoped to one event never authorizes work in another event:
/// unless the actor is a platform manager, a target whose event differs
/// from the event of every matching grant is refused.
pub proof fn lemma_event_grant_does_not_escape(
    actor: UserId,
    grants: Seq<RoleGrant>,
    permission: Permission,
    target: AuthorizationTarget,
)
    requires
        forall|i: int| 0 <= i < grants.len() ==> (#[trigger] grants[i]).scope.event_id is Some
            && grants[i].scope.event_id != target.event_id,
        forall|i: int| 0 <= i < grants.len() ==> !grant_is_platform(#[trigger] grants[i], actor),
    ensures
        !allowed(actor, grants, permission, target),
{
}

/// Granting more never takes a permission away: adding a grant keeps every
/// decision that was allowed.
pub proof fn lemma_grants_are_additive(
    actor: UserId,
    grants: Seq<RoleGrant>,
    extra: RoleGrant,
    permission: Permission,
    target: AuthorizationTarget,
)
    requires
        allowed(actor, grants, permission, target),
    ensures
        allowed(actor, grants.push(extra), permission, target),
{
    let more = grants.push(extra);
    if exists|i: int| 0 <= i < grants.len() && grant_applies(#[trigger] grants[i], actor, permission, target) {
        let i = choose|i: int| 0 <= i < grants.len() && grant_applies(#[trigger] grants[i], actor, permission, target);
        assert(more[i] == grants[i]);
    } else {
        let i = choose|i: int| 0 <= i < grants.len() && grant_is_platform(#[trigger] grants[i], actor);
        assert(more[i] == grants[i]);
    }
}

} // verus!
