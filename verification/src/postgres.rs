//! The decisions of the PostgreSQL backend. Inside one transaction the
//! backend reads the facts that an operation depends on; these functions
//! decide, from those facts alone, whether the operation is refused, leaves
//! the policy as it is, or is applied. Each decision agrees with the policy
//! model whenever the facts describe the stored policy.
use vstd::prelude::*;
use crate::model::{
    admin_step, bindings_manage, bootstrap_step, grants, other_binding, roles_manage, AdminOp,
    PolicyModel, ScopeName, StepResult,
};
use crate::storage::{
    Bootstrap, Decision, DomainFailure, BINDINGS_MANAGE_PERMISSION, ROLES_MANAGE_PERMISSION,
};
use crate::text::same_text;

verus! {

/// A stored value that the schema does not allow.
#[derive(Clone, Copy, Debug, PartialEq, Eq, Structural)]
pub enum StoredStateError {
    /// A stored policy revision is negative.
    InvalidRevision,
    /// The bootstrap role of a bootstrapped scope lacks its protection, its
    /// binding or one of its two grants.
    InvalidBootstrapPolicy,
}

/// A policy revision read from storage.
pub fn stored_revision(revision: i64) -> (r: Result<i64, StoredStateError>)
    ensures
        revision >= 0 ==> r == Ok::<i64, StoredStateError>(revision),
        revision < 0 ==> r == Err::<i64, StoredStateError>(StoredStateError::InvalidRevision),
{
    if revision < 0 {
        Err(StoredStateError::InvalidRevision)
    } else {
        Ok(revision)
    }
}

/// A permission check from the scope row, when there is one: its revision
/// and whether a bound role grants the permission.
pub fn permission_decision(row: Option<(i64, bool)>) -> (r: Result<Decision, StoredStateError>)
    ensures
        match row {
            None => r == Ok::<Decision, StoredStateError>(Decision { allowed: false, revision: 0 }),
            Some((v, allowed)) => if v >= 0 {
                r == Ok::<Decision, StoredStateError>(Decision { allowed, revision: v })
            } else {
                r == Err::<Decision, StoredStateError>(StoredStateError::InvalidRevision)
            },
        },
{
    match row {
        None => Ok(Decision { allowed: false, revision: 0 }),
        Some((v, allowed)) => {
            let revision = stored_revision(v)?;
            Ok(Decision { allowed, revision })
        },
    }
}

/// The facts of a bootstrap whose scope row already existed.
#[derive(Clone, Debug, PartialEq, Eq)]
pub struct ExistingBootstrap {
    pub bootstrap_subject: String,
    pub revision: i64,
    /// The bootstrap role is protected, bound, and holds both grants.
    pub policy_complete: bool,
}

/// A repeated bootstrap: refused for another subject; for the same subject,
/// reported unchanged once the stored bootstrap policy is found complete.
pub fn existing_bootstrap(existing: &ExistingBootstrap, subject: &str) -> (r: Result<
    Result<Bootstrap, DomainFailure>,
    StoredStateError,
>)
    ensures
        existing.revision < 0 ==> r == Err::<Result<Bootstrap, DomainFailure>, StoredStateError>(
            StoredStateError::InvalidRevision,
        ),
        existing.revision >= 0 && existing.bootstrap_subject@ != subject@ ==> r == Ok::<
            Result<Bootstrap, DomainFailure>,
            StoredStateError,
        >(Err(DomainFailure::ScopeAlreadyBootstrapped)),
        existing.revision >= 0 && existing.bootstrap_subject@ == subject@ && !existing.policy_complete ==> r
            == Err::<Result<Bootstrap, DomainFailure>, StoredStateError>(StoredStateError::InvalidBootstrapPolicy),
        existing.revision >= 0 && existing.bootstrap_subject@ == subject@ && existing.policy_complete ==> r
            == Ok::<Result<Bootstrap, DomainFailure>, StoredStateError>(
            Ok(Bootstrap { created: false, revision: existing.revision }),
        ),
{
    let revision = stored_revision(existing.revision)?;
    if !same_text(existing.bootstrap_subject.as_str(), subject) {
        return Ok(Err(DomainFailure::ScopeAlreadyBootstrapped));
    }
    if !existing.policy_complete {
        return Err(StoredStateError::InvalidBootstrapPolicy);
    }
    Ok(Ok(Bootstrap { created: false, revision }))
}

/// Which administrative mutation is decided.
#[derive(Clone, Copy, Debug, PartialEq, Eq, Structural)]
pub enum AdminKind {
    CreateRole,
    SetRolePermissions,
    DeleteRole,
    AssignRole,
    RevokeRole,
}

impl AdminKind {
    /// The administration permission the actor must hold: binding
    /// administration for assignments and revocations, role administration
    /// otherwise.
    pub fn required_permission(&self) -> (r: &'static str)
        ensures
            r@ == (if *self is AssignRole || *self is RevokeRole {
                bindings_manage()
            } else {
                roles_manage()
            }),
    {
        match self {
            AdminKind::AssignRole | AdminKind::RevokeRole => BINDINGS_MANAGE_PERMISSION,
            _ => ROLES_MANAGE_PERMISSION,
        }
    }
}

/// Law: the permission a backend checks for an operation is the one the
/// policy model requires of its actor.
pub proof fn law_required_permission_matches_model(op: AdminOp)
    ensures
        (if kind_of(op) is AssignRole || kind_of(op) is RevokeRole {
            bindings_manage()
        } else {
            roles_manage()
        }) == op.required_permission(),
{
}

pub open spec fn kind_of(op: AdminOp) -> AdminKind {
    match op {
        AdminOp::CreateRole { .. } => AdminKind::CreateRole,
        AdminOp::SetRolePermissions { .. } => AdminKind::SetRolePermissions,
        AdminOp::DeleteRole { .. } => AdminKind::DeleteRole,
        AdminOp::AssignRole { .. } => AdminKind::AssignRole,
        AdminOp::RevokeRole { .. } => AdminKind::RevokeRole,
    }
}

pub open spec fn op_role(op: AdminOp) -> Seq<char> {
    match op {
        AdminOp::CreateRole { role_id, .. } => role_id,
        AdminOp::SetRolePermissions { role_id, .. } => role_id,
        AdminOp::DeleteRole { role_id, .. } => role_id,
        AdminOp::AssignRole { role_id, .. } => role_id,
        AdminOp::RevokeRole { role_id, .. } => role_id,
    }
}

pub open spec fn op_subject(op: AdminOp) -> Seq<char> {
    match op {
        AdminOp::AssignRole { subject, .. } => subject,
        AdminOp::RevokeRole { subject, .. } => subject,
        _ => Seq::empty(),
    }
}

pub open spec fn op_permissions(op: AdminOp) -> Seq<Seq<char>> {
    match op {
        AdminOp::SetRolePermissions { permissions, .. } => permissions,
        _ => Seq::empty(),
    }
}

/// What the transaction read before deciding an administrative mutation.
#[derive(Clone, Copy, Debug, PartialEq, Eq)]
pub struct AdminFacts {
    /// The scope's revision, locked; `None` when the scope holds no policy.
    pub scope_revision: Option<i64>,
    /// The actor holds the operation's administration permission.
    pub actor_authorized: bool,
    /// Whether the addressed role is protected; `None` when it does not exist.
    pub role_protected: Option<bool>,
    /// The subject is bound to the role.
    pub bound: bool,
    /// Subjects bound to the role.
    pub role_bindings: i64,
    /// The role's stored grants equal the requested ones.
    pub grants_unchanged: bool,
}

/// The facts that a transaction reads describe the policy `m` for `op`.
pub open spec fn facts_describe(m: PolicyModel, scope: ScopeName, op: AdminOp, f: AdminFacts) -> bool {
    match f.scope_revision {
        None => !m.contains_key(scope),
        Some(v) => {
            let s = m[scope];
            let role = op_role(op);
            &&& m.contains_key(scope)
            &&& v as int == s.revision
            &&& f.actor_authorized == grants(s, op.actor(), op.required_permission())
            &&& f.role_protected == (if s.roles.contains_key(role) {
                Some(s.roles[role].protected)
            } else {
                None::<bool>
            })
            &&& f.bound == s.bindings.contains((op_subject(op), role))
            &&& (f.bound ==> (f.role_bindings > 1 <==> other_binding(s, op_subject(op), role)))
            &&& (op is SetRolePermissions && s.roles.contains_key(role) ==> (f.grants_unchanged
                <==> s.roles[role].permissions == op_permissions(op)))
        },
    }
}

/// The decision on an administrative mutation.
#[derive(Clone, Copy, Debug, PartialEq, Eq, Structural)]
pub enum AdminPlan {
    /// Refused; the transaction is abandoned.
    Refuse(DomainFailure),
    /// Nothing to change; report the current revision.
    Keep(i64),
    /// Write the change and advance the revision once.
    Apply,
}

/// The decision table shared by every administrative mutation.
pub open spec fn admin_plan(kind: AdminKind, f: AdminFacts) -> Result<AdminPlan, StoredStateError> {
    match f.scope_revision {
        None => Ok(AdminPlan::Refuse(DomainFailure::ScopeNotBootstrapped)),
        Some(v) => if v < 0 {
            Err(StoredStateError::InvalidRevision)
        } else if !f.actor_authorized {
            Ok(AdminPlan::Refuse(DomainFailure::Forbidden))
        } else {
            match kind {
                AdminKind::CreateRole => if f.role_protected is Some {
                    Ok(AdminPlan::Refuse(DomainFailure::RoleAlreadyExists))
                } else {
                    Ok(AdminPlan::Apply)
                },
                AdminKind::SetRolePermissions => match f.role_protected {
                    None => Ok(AdminPlan::Refuse(DomainFailure::RoleNotFound)),
                    Some(true) => Ok(AdminPlan::Refuse(DomainFailure::ProtectedRole)),
                    Some(false) => if f.grants_unchanged {
                        Ok(AdminPlan::Keep(v))
                    } else {
                        Ok(AdminPlan::Apply)
                    },
                },
                AdminKind::DeleteRole => match f.role_protected {
                    None => Ok(AdminPlan::Refuse(DomainFailure::RoleNotFound)),
                    Some(true) => Ok(AdminPlan::Refuse(DomainFailure::ProtectedRole)),
                    Some(false) => Ok(AdminPlan::Apply),
                },
                AdminKind::AssignRole => match f.role_protected {
                    None => Ok(AdminPlan::Refuse(DomainFailure::RoleNotFound)),
                    Some(_) => if f.bound {
                        Ok(AdminPlan::Keep(v))
                    } else {
                        Ok(AdminPlan::Apply)
                    },
                },
                AdminKind::RevokeRole => match f.role_protected {
                    None => Ok(AdminPlan::Refuse(DomainFailure::RoleNotFound)),
                    Some(protected) => if !f.bound {
                        Ok(AdminPlan::Keep(v))
                    } else if protected && f.role_bindings <= 1 {
                        Ok(AdminPlan::Refuse(DomainFailure::ProtectedBinding))
                    } else {
                        Ok(AdminPlan::Apply)
                    },
                },
            }
        },
    }
}

/// Decides an administrative mutation from the facts the transaction read.
pub fn plan_admin(kind: AdminKind, facts: &AdminFacts) -> (r: Result<AdminPlan, StoredStateError>)
    ensures
        r == admin_plan(kind, *facts),
{
    let v = match facts.scope_revision {
        None => return Ok(AdminPlan::Refuse(DomainFailure::ScopeNotBootstrapped)),
        Some(v) => v,
    };
    if v < 0 {
        return Err(StoredStateError::InvalidRevision);
    }
    if !facts.actor_authorized {
        return Ok(AdminPlan::Refuse(DomainFailure::Forbidden));
    }
    match kind {
        AdminKind::CreateRole => match facts.role_protected {
            Some(_) => Ok(AdminPlan::Refuse(DomainFailure::RoleAlreadyExists)),
            None => Ok(AdminPlan::Apply),
        },
        AdminKind::SetRolePermissions => match facts.role_protected {
            None => Ok(AdminPlan::Refuse(DomainFailure::RoleNotFound)),
            Some(true) => Ok(AdminPlan::Refuse(DomainFailure::ProtectedRole)),
            Some(false) => if facts.grants_unchanged {
                Ok(AdminPlan::Keep(v))
            } else {
                Ok(AdminPlan::Apply)
            },
        },
        AdminKind::DeleteRole => match facts.role_protected {
            None => Ok(AdminPlan::Refuse(DomainFailure::RoleNotFound)),
            Some(true) => Ok(AdminPlan::Refuse(DomainFailure::ProtectedRole)),
            Some(false) => Ok(AdminPlan::Apply),
        },
        AdminKind::AssignRole => match facts.role_protected {
            None => Ok(AdminPlan::Refuse(DomainFailure::RoleNotFound)),
            Some(_) => if facts.bound {
                Ok(AdminPlan::Keep(v))
            } else {
                Ok(AdminPlan::Apply)
            },
        },
        AdminKind::RevokeRole => match facts.role_protected {
            None => Ok(AdminPlan::Refuse(DomainFailure::RoleNotFound)),
            Some(protected) => if !facts.bound {
                Ok(AdminPlan::Keep(v))
            } else if protected && facts.role_bindings <= 1 {
                Ok(AdminPlan::Refuse(DomainFailure::ProtectedBinding))
            } else {
                Ok(AdminPlan::Apply)
            },
        },
    }
}

/// A decision agrees with a model step: a refusal with the same failure, a
/// kept policy with a no-op at the same revision, an application with an
/// effective change.
pub open spec fn plan_agrees(plan: AdminPlan, step: StepResult) -> bool {
    match plan {
        AdminPlan::Refuse(f) => step == Err::<(bool, int), DomainFailure>(f),
        AdminPlan::Keep(v) => step == Ok::<(bool, int), DomainFailure>((false, v as int)),
        AdminPlan::Apply => step matches Ok((true, _)),
    }
}

/// Law: whenever the facts describe the stored policy, the backend's decision
/// is the policy model's. (A stored negative revision is outside the model.)
pub proof fn law_admin_plan_matches_model(m: PolicyModel, scope: ScopeName, op: AdminOp, facts: AdminFacts)
    requires
        facts_describe(m, scope, op, facts),
        facts.scope_revision matches Some(v) ==> v >= 0,
    ensures
        admin_plan(kind_of(op), facts) matches Ok(plan) && plan_agrees(plan, admin_step(m, scope, op).0),
{
}

/// Law: the decision of a bootstrap over its stored facts agrees with the
/// model: the subject that bootstrapped the scope is told nothing changed, at
/// the stored revision; any other subject is refused.
pub proof fn law_existing_bootstrap_matches_model(m: PolicyModel, scope: ScopeName, subject: Seq<char>, existing: ExistingBootstrap)
    requires
        m.contains_key(scope),
        existing.bootstrap_subject@ == m[scope].bootstrap_subject,
        existing.revision as int == m[scope].revision,
        existing.revision >= 0,
        existing.policy_complete,
    ensures
        bootstrap_step(m, scope, subject).0 == (if existing.bootstrap_subject@ == subject {
            Ok::<(bool, int), DomainFailure>((false, existing.revision as int))
        } else {
            Err::<(bool, int), DomainFailure>(DomainFailure::ScopeAlreadyBootstrapped)
        }),
{
}

} // verus!
