//! The abstract policy state of every scope and the exact effect of each
//! storage operation on it. Every backend, and the verified in-memory store,
//! is specified against these functions.
use vstd::prelude::*;
use crate::storage::{
    DomainFailure, BINDINGS_MANAGE_PERMISSION, BOOTSTRAP_ROLE_ID, BOOTSTRAP_ROLE_NAME,
    ROLES_MANAGE_PERMISSION,
};
use crate::text::text_lt;

verus! {

pub open spec fn bootstrap_role() -> Seq<char> {
    BOOTSTRAP_ROLE_ID@
}

pub open spec fn roles_manage() -> Seq<char> {
    ROLES_MANAGE_PERMISSION@
}

pub open spec fn bindings_manage() -> Seq<char> {
    BINDINGS_MANAGE_PERMISSION@
}

/// The grants of the bootstrap role, in bytewise order.
pub open spec fn bootstrap_permissions() -> Seq<Seq<char>> {
    seq![bindings_manage(), roles_manage()]
}

/// One role: its display name, whether it is the protected bootstrap role, and
/// its granted permissions in strictly increasing bytewise order.
pub struct RoleModel {
    pub name: Seq<char>,
    pub protected: bool,
    pub permissions: Seq<Seq<char>>,
}

/// The policy of one bootstrapped scope. A binding is a `(subject, role_id)` pair.
pub struct ScopeModel {
    pub bootstrap_subject: Seq<char>,
    pub revision: int,
    pub roles: Map<Seq<char>, RoleModel>,
    pub bindings: Set<(Seq<char>, Seq<char>)>,
}

/// A scope reference, `(kind, id)`.
pub type ScopeName = (Seq<char>, Seq<char>);

/// The policy of every bootstrapped scope.
pub type PolicyModel = Map<ScopeName, ScopeModel>;

/// What a mutation reports: refused, or applied with `(changed, revision)`.
pub type StepResult = Result<(bool, int), DomainFailure>;

pub open spec fn strictly_sorted(s: Seq<Seq<char>>) -> bool {
    forall|i: int, j: int| 0 <= i < j < s.len() ==> text_lt(s[i], s[j])
}

/// `subject` holds `permission` through at least one bound role of the scope.
pub open spec fn grants(s: ScopeModel, subject: Seq<char>, permission: Seq<char>) -> bool {
    exists|r: Seq<char>|
        #![trigger s.bindings.contains((subject, r))]
        s.bindings.contains((subject, r)) && s.roles.contains_key(r)
            && s.roles[r].permissions.contains(permission)
}

/// The answer to a permission check: missing policy denies at revision 0.
pub open spec fn decision(
    m: PolicyModel,
    scope: ScopeName,
    subject: Seq<char>,
    permission: Seq<char>,
) -> (bool, int) {
    if m.contains_key(scope) {
        (grants(m[scope], subject, permission), m[scope].revision)
    } else {
        (false, 0)
    }
}

/// The policy a scope holds right after its bootstrap.
pub open spec fn initial_scope(subject: Seq<char>) -> ScopeModel {
    ScopeModel {
        bootstrap_subject: subject,
        revision: 1,
        roles: Map::empty().insert(
            bootstrap_role(),
            RoleModel {
                name: BOOTSTRAP_ROLE_NAME@,
                protected: true,
                permissions: bootstrap_permissions(),
            },
        ),
        bindings: Set::empty().insert((subject, bootstrap_role())),
    }
}

/// Bootstrapping creates the scope once; the same subject may repeat it.
pub open spec fn bootstrap_step(m: PolicyModel, scope: ScopeName, subject: Seq<char>) -> (
    StepResult,
    PolicyModel,
) {
    if !m.contains_key(scope) {
        (Ok((true, 1)), m.insert(scope, initial_scope(subject)))
    } else if m[scope].bootstrap_subject != subject {
        (Err(DomainFailure::ScopeAlreadyBootstrapped), m)
    } else {
        (Ok((false, m[scope].revision)), m)
    }
}

pub open spec fn with_revision(s: ScopeModel, revision: int) -> ScopeModel {
    ScopeModel {
        bootstrap_subject: s.bootstrap_subject,
        revision: revision,
        roles: s.roles,
        bindings: s.bindings,
    }
}

pub open spec fn with_roles(s: ScopeModel, roles: Map<Seq<char>, RoleModel>) -> ScopeModel {
    ScopeModel {
        bootstrap_subject: s.bootstrap_subject,
        revision: s.revision,
        roles: roles,
        bindings: s.bindings,
    }
}

pub open spec fn with_bindings(s: ScopeModel, bindings: Set<(Seq<char>, Seq<char>)>) -> ScopeModel {
    ScopeModel {
        bootstrap_subject: s.bootstrap_subject,
        revision: s.revision,
        roles: s.roles,
        bindings: bindings,
    }
}

/// An effective change: the new policy at the next revision.
pub open spec fn changed(t: ScopeModel) -> (StepResult, ScopeModel) {
    (Ok((true, t.revision + 1)), with_revision(t, t.revision + 1))
}

/// A no-op: the policy and its revision stay as they are.
pub open spec fn unchanged(s: ScopeModel) -> (StepResult, ScopeModel) {
    (Ok((false, s.revision)), s)
}

pub open spec fn refused(s: ScopeModel, failure: DomainFailure) -> (StepResult, ScopeModel) {
    (Err(failure), s)
}

/// The administrative mutations that follow bootstrap.
pub enum AdminOp {
    CreateRole { actor: Seq<char>, role_id: Seq<char>, name: Seq<char> },
    SetRolePermissions { actor: Seq<char>, role_id: Seq<char>, permissions: Seq<Seq<char>> },
    DeleteRole { actor: Seq<char>, role_id: Seq<char> },
    AssignRole { actor: Seq<char>, subject: Seq<char>, role_id: Seq<char> },
    RevokeRole { actor: Seq<char>, subject: Seq<char>, role_id: Seq<char> },
}

impl AdminOp {
    pub open spec fn actor(self) -> Seq<char> {
        match self {
            AdminOp::CreateRole { actor, .. } => actor,
            AdminOp::SetRolePermissions { actor, .. } => actor,
            AdminOp::DeleteRole { actor, .. } => actor,
            AdminOp::AssignRole { actor, .. } => actor,
            AdminOp::RevokeRole { actor, .. } => actor,
        }
    }

    /// A replacement grant list must be in strictly increasing bytewise order.
    pub open spec fn well_formed(self) -> bool {
        match self {
            AdminOp::SetRolePermissions { permissions, .. } => strictly_sorted(permissions),
            _ => true,
        }
    }

    /// Role administration needs the roles permission; binding
    /// administration needs the bindings permission.
    pub open spec fn required_permission(self) -> Seq<char> {
        match self {
            AdminOp::AssignRole { .. } => bindings_manage(),
            AdminOp::RevokeRole { .. } => bindings_manage(),
            _ => roles_manage(),
        }
    }
}

pub open spec fn create_role_in(s: ScopeModel, role_id: Seq<char>, name: Seq<char>) -> (
    StepResult,
    ScopeModel,
) {
    if s.roles.contains_key(role_id) {
        refused(s, DomainFailure::RoleAlreadyExists)
    } else {
        changed(
            with_roles(
                s,
                s.roles.insert(
                    role_id,
                    RoleModel { name: name, protected: false, permissions: Seq::empty() },
                ),
            ),
        )
    }
}

pub open spec fn set_role_permissions_in(
    s: ScopeModel,
    role_id: Seq<char>,
    permissions: Seq<Seq<char>>,
) -> (StepResult, ScopeModel) {
    if !s.roles.contains_key(role_id) {
        refused(s, DomainFailure::RoleNotFound)
    } else if s.roles[role_id].protected {
        refused(s, DomainFailure::ProtectedRole)
    } else if s.roles[role_id].permissions == permissions {
        unchanged(s)
    } else {
        changed(
            with_roles(
                s,
                s.roles.insert(
                    role_id,
                    RoleModel {
                        name: s.roles[role_id].name,
                        protected: false,
                        permissions: permissions,
                    },
                ),
            ),
        )
    }
}

/// The bindings left after a role is deleted.
pub open spec fn without_role(bindings: Set<(Seq<char>, Seq<char>)>, role_id: Seq<char>) -> Set<
    (Seq<char>, Seq<char>),
> {
    bindings.filter(|b: (Seq<char>, Seq<char>)| b.1 != role_id)
}

pub open spec fn delete_role_in(s: ScopeModel, role_id: Seq<char>) -> (StepResult, ScopeModel) {
    if !s.roles.contains_key(role_id) {
        refused(s, DomainFailure::RoleNotFound)
    } else if s.roles[role_id].protected {
        refused(s, DomainFailure::ProtectedRole)
    } else {
        changed(
            ScopeModel {
                bootstrap_subject: s.bootstrap_subject,
                revision: s.revision,
                roles: s.roles.remove(role_id),
                bindings: without_role(s.bindings, role_id),
            },
        )
    }
}

pub open spec fn assign_role_in(s: ScopeModel, subject: Seq<char>, role_id: Seq<char>) -> (
    StepResult,
    ScopeModel,
) {
    if !s.roles.contains_key(role_id) {
        refused(s, DomainFailure::RoleNotFound)
    } else if s.bindings.contains((subject, role_id)) {
        unchanged(s)
    } else {
        changed(with_bindings(s, s.bindings.insert((subject, role_id))))
    }
}

/// Some subject other than `subject` is bound to `role_id`.
pub open spec fn other_binding(s: ScopeModel, subject: Seq<char>, role_id: Seq<char>) -> bool {
    exists|other: Seq<char>|
        #![trigger s.bindings.contains((other, role_id))]
        other != subject && s.bindings.contains((other, role_id))
}

pub open spec fn revoke_role_in(s: ScopeModel, subject: Seq<char>, role_id: Seq<char>) -> (
    StepResult,
    ScopeModel,
) {
    if !s.roles.contains_key(role_id) {
        refused(s, DomainFailure::RoleNotFound)
    } else if !s.bindings.contains((subject, role_id)) {
        unchanged(s)
    } else if s.roles[role_id].protected && !other_binding(s, subject, role_id) {
        refused(s, DomainFailure::ProtectedBinding)
    } else {
        changed(with_bindings(s, s.bindings.remove((subject, role_id))))
    }
}

/// An administrative mutation of one bootstrapped scope: the actor must hold
/// the required permission; then the operation's own rules decide.
pub open spec fn admin_in(s: ScopeModel, op: AdminOp) -> (StepResult, ScopeModel) {
    if !grants(s, op.actor(), op.required_permission()) {
        refused(s, DomainFailure::Forbidden)
    } else {
        match op {
            AdminOp::CreateRole { role_id, name, .. } => create_role_in(s, role_id, name),
            AdminOp::SetRolePermissions { role_id, permissions, .. } => set_role_permissions_in(
                s,
                role_id,
                permissions,
            ),
            AdminOp::DeleteRole { role_id, .. } => delete_role_in(s, role_id),
            AdminOp::AssignRole { subject, role_id, .. } => assign_role_in(s, subject, role_id),
            AdminOp::RevokeRole { subject, role_id, .. } => revoke_role_in(s, subject, role_id),
        }
    }
}

/// An administrative mutation of the whole policy: a scope without policy
/// refuses every mutation; otherwise only the addressed scope changes.
pub open spec fn admin_step(m: PolicyModel, scope: ScopeName, op: AdminOp) -> (
    StepResult,
    PolicyModel,
) {
    if !m.contains_key(scope) {
        (Err(DomainFailure::ScopeNotBootstrapped), m)
    } else {
        (admin_in(m[scope], op).0, m.insert(scope, admin_in(m[scope], op).1))
    }
}

/// The role `role_id` as a directory reader sees it, with the revision.
pub open spec fn role_lookup(m: PolicyModel, scope: ScopeName, role_id: Seq<char>) -> Result<
    (RoleModel, int),
    DomainFailure,
> {
    if !m.contains_key(scope) {
        Err(DomainFailure::ScopeNotBootstrapped)
    } else if !m[scope].roles.contains_key(role_id) {
        Err(DomainFailure::RoleNotFound)
    } else {
        Ok((m[scope].roles[role_id], m[scope].revision))
    }
}

/// A role that a directory listing considers: it exists, is bound to
/// `subject` when one is given, and sorts after the cursor when one is given.
pub open spec fn listed(
    s: ScopeModel,
    subject: Option<Seq<char>>,
    after: Option<Seq<char>>,
    r: Seq<char>,
) -> bool {
    &&& s.roles.contains_key(r)
    &&& (subject matches Some(who) ==> s.bindings.contains((who, r)))
    &&& (after matches Some(a) ==> text_lt(a, r))
}

/// `ids` is the keyset page of at most `limit` listed roles: the first ones in
/// bytewise order, and `has_more` tells whether any listed role was left out.
pub open spec fn is_page(
    s: ScopeModel,
    subject: Option<Seq<char>>,
    after: Option<Seq<char>>,
    limit: int,
    ids: Seq<Seq<char>>,
    has_more: bool,
) -> bool {
    &&& strictly_sorted(ids)
    &&& ids.len() <= limit
    &&& forall|i: int| 0 <= i < ids.len() ==> listed(s, subject, after, #[trigger] ids[i])
    &&& forall|r: Seq<char>|
        #![trigger listed(s, subject, after, r)]
        listed(s, subject, after, r) && !ids.contains(r) ==> ids.len() == limit && forall|i: int|
            0 <= i < ids.len() ==> text_lt(#[trigger] ids[i], r)
    &&& has_more == exists|r: Seq<char>|
        #![trigger listed(s, subject, after, r)]
        listed(s, subject, after, r) && !ids.contains(r)
}

/// The semantic invariant of a bootstrapped scope: the protected bootstrap role
/// exists with exactly its two grants and at least one bound subject, no other
/// role is protected, grants are sorted, and every binding names a role.
pub open spec fn scope_wf(s: ScopeModel) -> bool {
    &&& s.revision >= 1
    &&& s.roles.contains_key(bootstrap_role())
    &&& s.roles[bootstrap_role()].permissions == bootstrap_permissions()
    &&& forall|r: Seq<char>| #[trigger]
        s.roles.contains_key(r) ==> (s.roles[r].protected <==> r == bootstrap_role())
            && strictly_sorted(s.roles[r].permissions)
    &&& forall|b: (Seq<char>, Seq<char>)| #[trigger] s.bindings.contains(b) ==> s.roles.contains_key(b.1)
    &&& exists|who: Seq<char>| #[trigger] s.bindings.contains((who, bootstrap_role()))
}

pub open spec fn policy_wf(m: PolicyModel) -> bool {
    forall|k: ScopeName| #[trigger] m.contains_key(k) ==> scope_wf(m[k])
}

} // verus!
