//! Domain storage values shared by every backend: scope keys, decisions,
//! mutation receipts, directory projections and domain failures.
use vstd::prelude::*;
use crate::model::{
    admin_step, bootstrap_step, decision, is_page, role_lookup, strictly_sorted, AdminOp,
    PolicyModel, RoleModel, ScopeModel, ScopeName, StepResult,
};

verus! {

/// Stable protected role created by `bootstrap_scope`.
pub const BOOTSTRAP_ROLE_ID: &'static str = "access-control.bootstrap-admin";
/// Display name of the protected bootstrap role.
pub const BOOTSTRAP_ROLE_NAME: &'static str = "Bootstrap administrator";
/// Permission required to create, replace grants on, or delete ordinary roles.
pub const ROLES_MANAGE_PERMISSION: &'static str = "access-control.roles.manage";
/// Permission required to assign or revoke scoped role bindings.
pub const BINDINGS_MANAGE_PERMISSION: &'static str = "access-control.bindings.manage";

/// An opaque `{ kind, id }` scope reference.
#[derive(Clone, Debug, PartialEq, Eq)]
pub struct ScopeKey {
    pub kind: String,
    pub id: String,
}

impl ScopeKey {
    pub open spec fn key(&self) -> (Seq<char>, Seq<char>) {
        (self.kind@, self.id@)
    }
}

/// A permission decision and the scope policy revision it was read at.
#[derive(Clone, Copy, Debug, PartialEq, Eq, Structural)]
pub struct Decision {
    pub allowed: bool,
    pub revision: i64,
}

/// The outcome of an administrative mutation.
#[derive(Clone, Copy, Debug, PartialEq, Eq, Structural)]
pub struct Mutation {
    pub changed: bool,
    pub revision: i64,
}

/// The outcome of bootstrapping a scope.
#[derive(Clone, Copy, Debug, PartialEq, Eq, Structural)]
pub struct Bootstrap {
    pub created: bool,
    pub revision: i64,
}

/// One role as projected to directory readers; `permissions` is sorted bytewise.
#[derive(Clone, Debug, PartialEq, Eq)]
pub struct DirectoryRole {
    pub role_id: String,
    pub name: String,
    pub protected: bool,
    pub permissions: Vec<String>,
}

impl DirectoryRole {
    pub open spec fn model(&self) -> RoleModel {
        RoleModel {
            name: self.name@,
            protected: self.protected,
            permissions: self.permissions@.map_values(|p: String| p@),
        }
    }
}

/// The role ids of a page, in page order.
pub open spec fn role_ids(roles: Seq<DirectoryRole>) -> Seq<Seq<char>> {
    roles.map_values(|d: DirectoryRole| d.role_id@)
}

/// One keyset page of roles.
#[derive(Clone, Debug, PartialEq, Eq)]
pub struct DirectoryRolePage {
    pub roles: Vec<DirectoryRole>,
    pub revision: i64,
    pub has_more: bool,
}

/// A domain-level refusal of a storage operation.
#[derive(Clone, Copy, Debug, PartialEq, Eq, Structural)]
pub enum DomainFailure {
    Forbidden,
    ScopeAlreadyBootstrapped,
    ScopeNotBootstrapped,
    RoleAlreadyExists,
    RoleNotFound,
    ProtectedRole,
    ProtectedBinding,
}

/// A reported mutation agrees with the model's step result.
pub open spec fn reports(outcome: Result<Mutation, DomainFailure>, step: StepResult) -> bool {
    match (outcome, step) {
        (Ok(m), Ok((c, v))) => m.changed == c && m.revision as int == v,
        (Err(f), Err(g)) => f == g,
        _ => false,
    }
}

/// The step would advance a revision past the largest storable one.
pub open spec fn overflows(step: StepResult) -> bool {
    step matches Ok((_, v)) && v > i64::MAX
}

/// A directory page agrees with the model.
pub open spec fn page_reports(
    p: DirectoryRolePage,
    s: ScopeModel,
    subject: Option<Seq<char>>,
    after: Option<Seq<char>>,
    limit: int,
) -> bool {
    &&& p.revision as int == s.revision
    &&& is_page(s, subject, after, limit, role_ids(p.roles@), p.has_more)
    &&& forall|i: int|
        0 <= i < p.roles@.len() ==> #[trigger] p.roles@[i].model() == s.roles[p.roles@[i].role_id@]
}

pub open spec fn text_of(o: Option<&str>) -> Option<Seq<char>> {
    match o {
        Some(t) => Some(t@),
        None => None,
    }
}

/// A reported bootstrap agrees with the model's step result.
pub open spec fn bootstrap_reports(outcome: Result<Bootstrap, DomainFailure>, step: StepResult) -> bool {
    match (outcome, step) {
        (Ok(b), Ok((c, v))) => b.created == c && b.revision as int == v,
        (Err(f), Err(g)) => f == g,
        _ => false,
    }
}

/// A reported role lookup agrees with the model.
pub open spec fn role_reports(
    outcome: Result<(DirectoryRole, i64), DomainFailure>,
    lookup: Result<(RoleModel, int), DomainFailure>,
    role_id: Seq<char>,
) -> bool {
    match (outcome, lookup) {
        (Ok((d, v)), Ok((m, w))) => d.role_id@ == role_id && d.model() == m && v as int == w,
        (Err(f), Err(g)) => f == g,
        _ => false,
    }
}

/// A directory read agrees with the model: a page of a bootstrapped scope, or
/// the refusal of a scope without policy.
pub open spec fn listing_reports(
    outcome: Result<DirectoryRolePage, DomainFailure>,
    m: PolicyModel,
    scope: ScopeName,
    subject: Option<Seq<char>>,
    after: Option<Seq<char>>,
    limit: int,
) -> bool {
    match outcome {
        Ok(p) => m.contains_key(scope) && page_reports(p, m[scope], subject, after, limit),
        Err(f) => f == DomainFailure::ScopeNotBootstrapped && !m.contains_key(scope),
    }
}

/// The storage operations of one Access Control backend. Each operation
/// authorizes and mutates atomically: when it fails with a storage error the
/// policy is left as it was; otherwise it has exactly the effect that the
/// policy model gives it.
pub trait Store: Sized {
    type Error;

    /// The policy the backend holds.
    spec fn model(&self) -> PolicyModel;

    /// The backend's representation invariant.
    spec fn well_formed(&self) -> bool;

    fn check_permission(&self, scope: &ScopeKey, subject: &str, permission: &str) -> (r: Result<
        Decision,
        Self::Error,
    >)
        requires
            self.well_formed(),
        ensures
            r matches Ok(d) ==> (d.allowed, d.revision as int) == decision(
                self.model(),
                scope.key(),
                subject@,
                permission@,
            ),
    ;

    fn get_role(&self, scope: &ScopeKey, role_id: &str) -> (r: Result<
        Result<(DirectoryRole, i64), DomainFailure>,
        Self::Error,
    >)
        requires
            self.well_formed(),
        ensures
            r matches Ok(o) ==> role_reports(o, role_lookup(self.model(), scope.key(), role_id@), role_id@),
    ;

    fn list_roles(&self, scope: &ScopeKey, after_role_id: Option<&str>, limit: usize) -> (r: Result<
        Result<DirectoryRolePage, DomainFailure>,
        Self::Error,
    >)
        requires
            self.well_formed(),
        ensures
            r matches Ok(o) ==> listing_reports(
                o,
                self.model(),
                scope.key(),
                None,
                text_of(after_role_id),
                limit as int,
            ),
    ;

    fn list_subject_roles(
        &self,
        scope: &ScopeKey,
        subject: &str,
        after_role_id: Option<&str>,
        limit: usize,
    ) -> (r: Result<Result<DirectoryRolePage, DomainFailure>, Self::Error>)
        requires
            self.well_formed(),
        ensures
            r matches Ok(o) ==> listing_reports(
                o,
                self.model(),
                scope.key(),
                Some(subject@),
                text_of(after_role_id),
                limit as int,
            ),
    ;

    fn bootstrap_scope(&mut self, scope: &ScopeKey, subject: &str) -> (r: Result<
        Result<Bootstrap, DomainFailure>,
        Self::Error,
    >)
        requires
            old(self).well_formed(),
        ensures
            final(self).well_formed(),
            match r {
                Ok(o) => bootstrap_reports(o, bootstrap_step(old(self).model(), scope.key(), subject@).0)
                    && final(self).model() == bootstrap_step(old(self).model(), scope.key(), subject@).1,
                Err(_) => final(self).model() == old(self).model(),
            },
    ;

    fn create_role(&mut self, scope: &ScopeKey, actor: &str, role_id: &str, name: &str) -> (r:
        Result<Result<Mutation, DomainFailure>, Self::Error>)
        requires
            old(self).well_formed(),
        ensures
            final(self).well_formed(),
            admin_reports(r, old(self).model(), final(self).model(), scope.key(), AdminOp::CreateRole { actor: actor@, role_id: role_id@, name: name@ }),
    ;

    fn set_role_permissions(
        &mut self,
        scope: &ScopeKey,
        actor: &str,
        role_id: &str,
        permissions: &Vec<String>,
    ) -> (r: Result<Result<Mutation, DomainFailure>, Self::Error>)
        requires
            old(self).well_formed(),
            strictly_sorted(permissions@.map_values(|p: String| p@)),
        ensures
            final(self).well_formed(),
            admin_reports(r, old(self).model(), final(self).model(), scope.key(), AdminOp::SetRolePermissions { actor: actor@, role_id: role_id@, permissions: permissions@.map_values(|p: String| p@) }),
    ;

    fn delete_role(&mut self, scope: &ScopeKey, actor: &str, role_id: &str) -> (r: Result<
        Result<Mutation, DomainFailure>,
        Self::Error,
    >)
        requires
            old(self).well_formed(),
        ensures
            final(self).well_formed(),
            admin_reports(r, old(self).model(), final(self).model(), scope.key(), AdminOp::DeleteRole { actor: actor@, role_id: role_id@ }),
    ;

    fn assign_role(&mut self, scope: &ScopeKey, actor: &str, subject: &str, role_id: &str) -> (r:
        Result<Result<Mutation, DomainFailure>, Self::Error>)
        requires
            old(self).well_formed(),
        ensures
            final(self).well_formed(),
            admin_reports(r, old(self).model(), final(self).model(), scope.key(), AdminOp::AssignRole { actor: actor@, subject: subject@, role_id: role_id@ }),
    ;

    fn revoke_role(&mut self, scope: &ScopeKey, actor: &str, subject: &str, role_id: &str) -> (r:
        Result<Result<Mutation, DomainFailure>, Self::Error>)
        requires
            old(self).well_formed(),
        ensures
            final(self).well_formed(),
            admin_reports(r, old(self).model(), final(self).model(), scope.key(), AdminOp::RevokeRole { actor: actor@, subject: subject@, role_id: role_id@ }),
    ;
}

/// A storage result of an administrative mutation agrees with the model: a
/// reported outcome is the step's, with the step's new policy; a storage error
/// leaves the policy as it was.
pub open spec fn admin_reports<E>(
    outcome: Result<Result<Mutation, DomainFailure>, E>,
    before: PolicyModel,
    after: PolicyModel,
    scope: ScopeName,
    op: AdminOp,
) -> bool {
    match outcome {
        Ok(o) => reports(o, admin_step(before, scope, op).0) && after == admin_step(before, scope, op).1,
        Err(_) => after == before,
    }
}

} // verus!
