//! The Access Control service: who may call each operation, which requests
//! are admitted, and how a storage answer becomes the operation's response.
//! `AccessControl` joins these steps over any `Store`; a backend whose
//! storage is asynchronous runs the same admission and answer functions
//! around its own storage calls.
use vstd::prelude::*;
use vstd::string::StringSliceAdditionalSpecFns;
use vstd::utf8::encode_utf8;
use crate::config::{contains_text, distinct, PolicyConfig};
use crate::identifiers::{
    is_display_name, is_permission, is_role_id, is_scope, is_subject, valid_display_name,
    valid_permission, valid_role_id, valid_scope, valid_subject, valid_directory_page,
    directory_page_limit, MAX_PERMISSIONS_PER_ROLE,
};
use crate::model::{
    admin_step, bootstrap_role, bootstrap_step, decision, is_page, listed, role_lookup,
    strictly_sorted, AdminOp, PolicyModel, ScopeName,
};
use crate::storage::{
    listing_reports, role_ids, text_of, Store, Bootstrap, Decision, DirectoryRole, DirectoryRolePage, DomainFailure, Mutation, ScopeKey,
    BOOTSTRAP_ROLE_ID,
};
use crate::text::{
    compare_text, lemma_text_lt_asymmetric, lemma_text_lt_irreflexive, lemma_text_lt_total,
    lemma_text_lt_transitive,
    same_text, text_lt, texts, decimal, decimal_text, TextOrder,
};

verus! {

/// Failure of one service operation: a domain error of the operation, a
/// failure of the storage backend, or a storage answer whose policy revision
/// is negative.
#[derive(Debug, PartialEq, Eq)]
pub enum ServiceError<E, S> {
    Domain(E),
    Storage(S),
    NegativeRevision,
}

#[derive(Clone, Copy, Debug, PartialEq, Eq, Structural)]
pub enum CheckPermissionError {
    InvalidRequest,
}

#[derive(Clone, Copy, Debug, PartialEq, Eq, Structural)]
pub enum GetRoleError {
    Forbidden,
    InvalidRequest,
    RoleNotFound,
    ScopeNotBootstrapped,
}

/// Domain errors of a directory listing.
#[derive(Clone, Copy, Debug, PartialEq, Eq, Structural)]
pub enum ListRolesError {
    Forbidden,
    InvalidPage,
    InvalidRequest,
    ScopeNotBootstrapped,
}

pub type ListSubjectRolesError = ListRolesError;

#[derive(Clone, Copy, Debug, PartialEq, Eq, Structural)]
pub enum BootstrapScopeError {
    Forbidden,
    InvalidRequest,
    ScopeAlreadyBootstrapped,
}

/// Domain errors of an administrative mutation.
#[derive(Clone, Copy, Debug, PartialEq, Eq, Structural)]
pub enum AdminError {
    Forbidden,
    InvalidRequest,
    ProtectedBinding,
    ProtectedRole,
    RoleAlreadyExists,
    RoleNotFound,
    ScopeNotBootstrapped,
    Unauthenticated,
}

pub type CreateRoleError = AdminError;
pub type SetRolePermissionsError = AdminError;
pub type DeleteRoleError = AdminError;
pub type AssignRoleError = AdminError;
pub type RevokeRoleError = AdminError;

#[derive(Debug, PartialEq, Eq)]
pub struct CheckPermissionRequest {
    pub scope: ScopeKey,
    pub subject: String,
    pub permission: String,
}

#[derive(Debug, PartialEq, Eq)]
pub struct GetRoleRequest {
    pub scope: ScopeKey,
    pub role_id: String,
}

#[derive(Debug, PartialEq, Eq)]
pub struct ListRolesRequest {
    pub scope: ScopeKey,
    pub cursor: Option<String>,
    pub limit: i64,
}

#[derive(Debug, PartialEq, Eq)]
pub struct ListSubjectRolesRequest {
    pub scope: ScopeKey,
    pub subject: String,
    pub cursor: Option<String>,
    pub limit: i64,
}

#[derive(Debug, PartialEq, Eq)]
pub struct BootstrapScopeRequest {
    pub scope: ScopeKey,
    pub subject: String,
}

#[derive(Debug, PartialEq, Eq)]
pub struct CreateRoleRequest {
    pub scope: ScopeKey,
    pub role_id: String,
    pub name: String,
}

#[derive(Debug, PartialEq, Eq)]
pub struct SetRolePermissionsRequest {
    pub scope: ScopeKey,
    pub role_id: String,
    pub permissions: Vec<String>,
}

#[derive(Debug, PartialEq, Eq)]
pub struct DeleteRoleRequest {
    pub scope: ScopeKey,
    pub role_id: String,
}

/// A request about one subject-role binding.
#[derive(Debug, PartialEq, Eq)]
pub struct RoleBindingRequest {
    pub scope: ScopeKey,
    pub subject: String,
    pub role_id: String,
}

pub type AssignRoleRequest = RoleBindingRequest;
pub type RevokeRoleRequest = RoleBindingRequest;

pub open spec fn scope_ok(scope: ScopeKey) -> bool {
    is_scope(encode_utf8(scope.kind@), encode_utf8(scope.id@))
}

pub open spec fn subject_ok(t: Seq<char>) -> bool {
    is_subject(encode_utf8(t))
}

pub open spec fn role_id_ok(t: Seq<char>) -> bool {
    is_role_id(encode_utf8(t))
}

pub open spec fn permission_ok(t: Seq<char>) -> bool {
    is_permission(encode_utf8(t))
}

pub open spec fn text_opt(o: Option<&str>) -> Option<Seq<char>> {
    match o {
        Some(t) => Some(t@),
        None => None,
    }
}

pub open spec fn string_opt(o: Option<String>) -> Option<Seq<char>> {
    match o {
        Some(t) => Some(t@),
        None => None,
    }
}

/// The caller is one of the listed Plugin Instances.
pub open spec fn caller_listed(callers: Seq<String>, caller: Option<Seq<char>>) -> bool {
    caller matches Some(c) && texts(callers).contains(c)
}

/// The projected actor subject, when there is one and it is a valid subject.
pub open spec fn actor_ok(actor: Option<Seq<char>>) -> bool {
    actor matches Some(a) && subject_ok(a)
}

pub open spec fn check_admission(request: CheckPermissionRequest) -> Result<(), CheckPermissionError> {
    if scope_ok(request.scope) && subject_ok(request.subject@) && permission_ok(request.permission@) {
        Ok(())
    } else {
        Err(CheckPermissionError::InvalidRequest)
    }
}

pub open spec fn get_role_admission(config: PolicyConfig, caller: Option<Seq<char>>, request: GetRoleRequest) -> Result<(), GetRoleError> {
    if !caller_listed(config.directory_callers@, caller) {
        Err(GetRoleError::Forbidden)
    } else if !(scope_ok(request.scope) && role_id_ok(request.role_id@)) {
        Err(GetRoleError::InvalidRequest)
    } else {
        Ok(())
    }
}

pub open spec fn cursor_bytes(cursor: Option<String>) -> Option<Seq<u8>> {
    match cursor {
        Some(c) => Some(encode_utf8(c@)),
        None => None,
    }
}

/// Admission of a directory listing; an admitted listing yields its page size.
pub open spec fn listing_admission(
    config: PolicyConfig,
    caller: Option<Seq<char>>,
    scope: ScopeKey,
    subject: Option<Seq<char>>,
    cursor: Option<String>,
    limit: i64,
) -> Result<usize, ListRolesError> {
    if !caller_listed(config.directory_callers@, caller) {
        Err(ListRolesError::Forbidden)
    } else if !(scope_ok(scope) && (subject matches Some(s) ==> subject_ok(s))) {
        Err(ListRolesError::InvalidRequest)
    } else {
        match directory_page_limit(limit, cursor_bytes(cursor)) {
            Some(n) => Ok(n),
            None => Err(ListRolesError::InvalidPage),
        }
    }
}

pub open spec fn bootstrap_admission(config: PolicyConfig, caller: Option<Seq<char>>, request: BootstrapScopeRequest) -> Result<(), BootstrapScopeError> {
    if !caller_listed(config.bootstrap_callers@, caller) {
        Err(BootstrapScopeError::Forbidden)
    } else if !(scope_ok(request.scope) && subject_ok(request.subject@)) {
        Err(BootstrapScopeError::InvalidRequest)
    } else {
        Ok(())
    }
}

/// Admission of an administrative mutation: an authenticated actor first,
/// then a well-formed request.
pub open spec fn admin_admission(actor: Option<Seq<char>>, well_formed: bool) -> Result<(), AdminError> {
    if !actor_ok(actor) {
        Err(AdminError::Unauthenticated)
    } else if !well_formed {
        Err(AdminError::InvalidRequest)
    } else {
        Ok(())
    }
}

pub open spec fn create_role_request_ok(request: CreateRoleRequest) -> bool {
    &&& scope_ok(request.scope)
    &&& role_id_ok(request.role_id@)
    &&& request.role_id@ != bootstrap_role()
    &&& is_display_name(request.name@)
}

pub open spec fn all_permissions_ok(p: Seq<Seq<char>>) -> bool {
    forall|i: int| 0 <= i < p.len() ==> permission_ok(#[trigger] p[i])
}

pub open spec fn set_permissions_request_ok(request: SetRolePermissionsRequest) -> bool {
    &&& scope_ok(request.scope)
    &&& role_id_ok(request.role_id@)
    &&& distinct(texts(request.permissions@))
    &&& request.permissions@.len() <= MAX_PERMISSIONS_PER_ROLE
    &&& all_permissions_ok(texts(request.permissions@))
}

pub open spec fn role_request_ok(scope: ScopeKey, role_id: Seq<char>) -> bool {
    scope_ok(scope) && role_id_ok(role_id)
}

pub open spec fn binding_request_ok(request: RoleBindingRequest) -> bool {
    scope_ok(request.scope) && subject_ok(request.subject@) && role_id_ok(request.role_id@)
}

/// `out` lists the texts of `input` once each, in strictly increasing bytewise order.
pub open spec fn sorted_form(input: Seq<Seq<char>>, out: Seq<Seq<char>>) -> bool {
    &&& strictly_sorted(out)
    &&& out.len() == input.len()
    &&& forall|x: Seq<char>| out.contains(x) <==> input.contains(x)
}

pub fn admit_check_permission(request: &CheckPermissionRequest) -> (r: Result<(), CheckPermissionError>)
    ensures
        r == check_admission(*request),
{
    if valid_scope(&request.scope) && valid_subject(request.subject.as_str())
        && valid_permission(request.permission.as_str()) {
        Ok(())
    } else {
        Err(CheckPermissionError::InvalidRequest)
    }
}

fn caller_in(callers: &Vec<String>, caller: Option<&str>) -> (r: bool)
    ensures
        r == caller_listed(callers@, text_opt(caller)),
{
    match caller {
        Some(c) => contains_text(callers, c),
        None => false,
    }
}

pub fn admit_get_role(config: &PolicyConfig, caller_instance: Option<&str>, request: &GetRoleRequest) -> (r: Result<(), GetRoleError>)
    ensures
        r == get_role_admission(*config, text_opt(caller_instance), *request),
{
    if !caller_in(&config.directory_callers, caller_instance) {
        return Err(GetRoleError::Forbidden);
    }
    if !(valid_scope(&request.scope) && valid_role_id(request.role_id.as_str())) {
        return Err(GetRoleError::InvalidRequest);
    }
    Ok(())
}

fn page_limit(cursor: &Option<String>, limit: i64) -> (r: Option<usize>)
    ensures
        r == directory_page_limit(limit, cursor_bytes(*cursor)),
{
    match cursor {
        Some(c) => valid_directory_page(limit, Some(c.as_str())),
        None => valid_directory_page(limit, None),
    }
}

pub fn admit_list_roles(config: &PolicyConfig, caller_instance: Option<&str>, request: &ListRolesRequest) -> (r: Result<usize, ListRolesError>)
    ensures
        r == listing_admission(*config, text_opt(caller_instance), request.scope, None, request.cursor, request.limit),
{
    if !caller_in(&config.directory_callers, caller_instance) {
        return Err(ListRolesError::Forbidden);
    }
    if !valid_scope(&request.scope) {
        return Err(ListRolesError::InvalidRequest);
    }
    match page_limit(&request.cursor, request.limit) {
        Some(n) => Ok(n),
        None => Err(ListRolesError::InvalidPage),
    }
}

pub fn admit_list_subject_roles(config: &PolicyConfig, caller_instance: Option<&str>, request: &ListSubjectRolesRequest) -> (r:
    Result<usize, ListRolesError>)
    ensures
        r == listing_admission(
            *config,
            text_opt(caller_instance),
            request.scope,
            Some(request.subject@),
            request.cursor,
            request.limit,
        ),
{
    if !caller_in(&config.directory_callers, caller_instance) {
        return Err(ListRolesError::Forbidden);
    }
    if !(valid_scope(&request.scope) && valid_subject(request.subject.as_str())) {
        return Err(ListRolesError::InvalidRequest);
    }
    match page_limit(&request.cursor, request.limit) {
        Some(n) => Ok(n),
        None => Err(ListRolesError::InvalidPage),
    }
}

pub fn admit_bootstrap_scope(config: &PolicyConfig, caller_instance: Option<&str>, request: &BootstrapScopeRequest) -> (r:
    Result<(), BootstrapScopeError>)
    ensures
        r == bootstrap_admission(*config, text_opt(caller_instance), *request),
{
    if !caller_in(&config.bootstrap_callers, caller_instance) {
        return Err(BootstrapScopeError::Forbidden);
    }
    if !(valid_scope(&request.scope) && valid_subject(request.subject.as_str())) {
        return Err(BootstrapScopeError::InvalidRequest);
    }
    Ok(())
}

/// The subject of the verified actor assertion, when it is a valid subject.
pub fn authenticated_subject(actor: Option<&str>) -> (r: Result<(), ()>)
    ensures
        r is Ok <==> actor_ok(text_opt(actor)),
{
    match actor {
        Some(a) => if valid_subject(a) { Ok(()) } else { Err(()) },
        None => Err(()),
    }
}

pub fn admit_create_role(actor: Option<&str>, request: &CreateRoleRequest) -> (r: Result<(), AdminError>)
    ensures
        r == admin_admission(text_opt(actor), create_role_request_ok(*request)),
{
    if authenticated_subject(actor).is_err() {
        return Err(AdminError::Unauthenticated);
    }
    proof {
        reveal_strlit("access-control.bootstrap-admin");
    }
    if !(valid_scope(&request.scope) && valid_role_id(request.role_id.as_str())
        && !same_text(request.role_id.as_str(), BOOTSTRAP_ROLE_ID)
        && valid_display_name(request.name.as_str())) {
        return Err(AdminError::InvalidRequest);
    }
    Ok(())
}

pub fn admit_delete_role(actor: Option<&str>, request: &DeleteRoleRequest) -> (r: Result<(), AdminError>)
    ensures
        r == admin_admission(text_opt(actor), role_request_ok(request.scope, request.role_id@)),
{
    if authenticated_subject(actor).is_err() {
        return Err(AdminError::Unauthenticated);
    }
    if !(valid_scope(&request.scope) && valid_role_id(request.role_id.as_str())) {
        return Err(AdminError::InvalidRequest);
    }
    Ok(())
}

pub fn admit_role_binding(actor: Option<&str>, request: &RoleBindingRequest) -> (r: Result<(), AdminError>)
    ensures
        r == admin_admission(text_opt(actor), binding_request_ok(*request)),
{
    if authenticated_subject(actor).is_err() {
        return Err(AdminError::Unauthenticated);
    }
    if !(valid_scope(&request.scope) && valid_subject(request.subject.as_str())
        && valid_role_id(request.role_id.as_str())) {
        return Err(AdminError::InvalidRequest);
    }
    Ok(())
}

/// The position at which `p` belongs in the strictly increasing `out`: every
/// text before it sorts before `p`, and the text there, if any, does not.
fn insertion_point(out: &Vec<String>, p: &str) -> (j: usize)
    requires
        strictly_sorted(texts(out@)),
    ensures
        j <= out@.len(),
        forall|k: int| 0 <= k < j ==> text_lt(#[trigger] texts(out@)[k], p@),
        j < out@.len() ==> !text_lt(texts(out@)[j as int], p@),
{
    let ghost o = texts(out@);
    let mut j: usize = 0;
    while j < out.len()
        invariant
            j <= out@.len(),
            o == texts(out@),
            forall|k: int| 0 <= k < j ==> text_lt(#[trigger] o[k], p@),
        decreases out@.len() - j,
    {
        assert(o[j as int] == out@[j as int]@);
        if compare_text(out[j].as_str(), p) != TextOrder::Before {
            return j;
        }
        j = j + 1;
    }
    j
}

/// The texts once each in strictly increasing bytewise order, or `None` when
/// some text occurs twice.
pub fn sorted_distinct(values: &Vec<String>) -> (r: Option<Vec<String>>)
    ensures
        match r {
            Some(v) => distinct(texts(values@)) && sorted_form(texts(values@), texts(v@)),
            None => !distinct(texts(values@)),
        },
{
    let ghost input = texts(values@);
    let mut out: Vec<String> = Vec::new();
    let mut i: usize = 0;
    assert(texts(out@) =~= Seq::<Seq<char>>::empty());
    while i < values.len()
        invariant
            i <= values@.len(),
            input == texts(values@),
            distinct(input.subrange(0, i as int)),
            sorted_form(input.subrange(0, i as int), texts(out@)),
        decreases values@.len() - i,
    {
        let ghost o = texts(out@);
        let ghost q = values@[i as int]@;
        assert(input[i as int] == q);
        let j = insertion_point(&out, values[i].as_str());
        if j < out.len() && same_text(out[j].as_str(), values[i].as_str()) {
            proof {
                assert(o[j as int] == q);
                assert(o.contains(q));
                assert(input.subrange(0, i as int).contains(q));
                let k = choose|k: int| 0 <= k < i && #[trigger] input.subrange(0, i as int)[k] == q;
                assert(input[k] == input[i as int]);
            }
            return None;
        }
        proof {
            assert forall|k: int| j <= k < o.len() implies text_lt(q, #[trigger] o[k]) by {
                lemma_text_lt_total(o[j as int], q);
                if k > j {
                    lemma_text_lt_transitive(q, o[j as int], o[k]);
                }
            }
            assert(!o.contains(q)) by {
                if o.contains(q) {
                    let k = choose|k: int| 0 <= k < o.len() && o[k] == q;
                    lemma_text_lt_irreflexive(q);
                    if k < j {
                        assert(text_lt(o[k], q));
                    } else {
                        assert(text_lt(q, o[k]));
                    }
                }
            }
            assert(input.subrange(0, i + 1) =~= input.subrange(0, i as int).push(q));
            assert(!input.subrange(0, i as int).contains(q));
        }
        let s = values[i].clone();
        out.insert(j, s);
        proof {
            let o2 = o.insert(j as int, q);
            assert(texts(out@) =~= o2);
            assert forall|a: int, b: int| 0 <= a < b < o2.len() implies text_lt(o2[a], o2[b]) by {
                if b < j {
                } else if b == j {
                } else if a < j {
                    lemma_text_lt_transitive(o2[a], q, o2[b]);
                } else if a == j {
                } else {
                }
            }
            let prefix = input.subrange(0, i as int);
            let longer = input.subrange(0, i + 1);
            assert forall|x: Seq<char>| longer.contains(x) <==> (prefix.contains(x) || x == q) by {
                if longer.contains(x) && x != q {
                    let k = choose|k: int| 0 <= k < longer.len() && longer[k] == x;
                    assert(prefix[k] == x);
                }
                if prefix.contains(x) {
                    let k = choose|k: int| 0 <= k < prefix.len() && prefix[k] == x;
                    assert(longer[k] == x);
                }
                if x == q {
                    assert(longer[i as int] == q);
                }
            }
            assert forall|x: Seq<char>| o2.contains(x) <==> (o.contains(x) || x == q) by {
                if o2.contains(x) && x != q {
                    let k = choose|k: int| 0 <= k < o2.len() && o2[k] == x;
                    if k < j {
                        assert(o[k] == x);
                    } else {
                        assert(o[k - 1] == x);
                    }
                    assert(o.contains(x));
                }
                if o.contains(x) {
                    let k = choose|k: int| 0 <= k < o.len() && o[k] == x;
                    if k < j {
                        assert(o2[k] == x);
                    } else {
                        assert(o2[k + 1] == x);
                    }
                }
                if x == q {
                    assert(o2[j as int] == q);
                }
            }
        }
        i = i + 1;
    }
    assert(input.subrange(0, values@.len() as int) =~= input);
    Some(out)
}

pub fn admit_set_role_permissions(actor: Option<&str>, request: &SetRolePermissionsRequest) -> (r: Result<
    Vec<String>,
    AdminError,
>)
    ensures
        match r {
            Ok(v) => admin_admission(text_opt(actor), set_permissions_request_ok(*request)) is Ok
                && sorted_form(texts(request.permissions@), texts(v@)),
            Err(e) => admin_admission(text_opt(actor), set_permissions_request_ok(*request)) == Err::<(), AdminError>(e),
        },
        r is Ok ==> forall|i: int|
            0 <= i < request.permissions@.len() ==> is_permission(
                encode_utf8(#[trigger] request.permissions@[i]@),
            ),
{
    if authenticated_subject(actor).is_err() {
        return Err(AdminError::Unauthenticated);
    }
    if !(valid_scope(&request.scope) && valid_role_id(request.role_id.as_str())) {
        return Err(AdminError::InvalidRequest);
    }
    let sorted = match sorted_distinct(&request.permissions) {
        Some(v) => v,
        None => return Err(AdminError::InvalidRequest),
    };
    if request.permissions.len() > MAX_PERMISSIONS_PER_ROLE {
        return Err(AdminError::InvalidRequest);
    }
    let ghost t = texts(request.permissions@);
    let mut i: usize = 0;
    while i < request.permissions.len()
        invariant
            actor_ok(text_opt(actor)),
            scope_ok(request.scope),
            role_id_ok(request.role_id@),
            distinct(t),
            request.permissions@.len() <= MAX_PERMISSIONS_PER_ROLE,
            sorted_form(t, texts(sorted@)),
            i <= request.permissions@.len(),
            t == texts(request.permissions@),
            forall|k: int| 0 <= k < i ==> permission_ok(#[trigger] t[k]),
            forall|k: int| 0 <= k < i ==> is_permission(encode_utf8(#[trigger] request.permissions@[k]@)),
        decreases request.permissions@.len() - i,
    {
        assert(t[i as int] == request.permissions@[i as int]@);
        if !valid_permission(request.permissions[i].as_str()) {
            return Err(AdminError::InvalidRequest);
        }
        i = i + 1;
    }
    Ok(sorted)
}

#[derive(Debug, PartialEq, Eq)]
pub struct CheckPermissionResponse {
    pub allowed: bool,
    pub policy_revision: String,
}

#[derive(Debug, PartialEq, Eq)]
pub struct GetRoleResponse {
    pub role_id: String,
    pub name: String,
    pub protected: bool,
    pub permissions: Vec<String>,
    pub policy_revision: String,
}

#[derive(Debug, PartialEq, Eq)]
pub struct ListRolesResponse {
    pub roles: Vec<DirectoryRole>,
    pub next_cursor: Option<String>,
    pub policy_revision: String,
}

#[derive(Debug, PartialEq, Eq)]
pub struct ListSubjectRolesResponse {
    pub roles: Vec<DirectoryRole>,
    pub next_cursor: Option<String>,
    pub policy_revision: String,
    pub subject: String,
}

#[derive(Debug, PartialEq, Eq)]
pub struct BootstrapScopeResponse {
    pub created: bool,
    pub role_id: String,
    pub policy_revision: String,
}

/// The answer to an administrative mutation.
#[derive(Debug, PartialEq, Eq)]
pub struct MutationResponse {
    pub changed: bool,
    pub policy_revision: String,
}

pub type CreateRoleResponse = MutationResponse;
pub type SetRolePermissionsResponse = MutationResponse;
pub type DeleteRoleResponse = MutationResponse;
pub type AssignRoleResponse = MutationResponse;
pub type RevokeRoleResponse = MutationResponse;

/// The decimal text of a policy revision; a negative one has none.
pub fn revision_string(revision: i64) -> (r: Option<String>)
    ensures
        match r {
            Some(t) => revision >= 0 && t@ == decimal(revision as nat),
            None => revision < 0,
        },
{
    if revision < 0 {
        None
    } else {
        Some(decimal_text(revision as u64))
    }
}

pub open spec fn bootstrap_failure(f: DomainFailure) -> BootstrapScopeError {
    match f {
        DomainFailure::Forbidden => BootstrapScopeError::Forbidden,
        DomainFailure::ScopeAlreadyBootstrapped => BootstrapScopeError::ScopeAlreadyBootstrapped,
        _ => BootstrapScopeError::InvalidRequest,
    }
}

/// The admin error that reports a storage refusal. Only role creation
/// reports an existing role; any other mutation, and every operation for an
/// already bootstrapped scope, reports an invalid request.
pub open spec fn admin_failure(creating: bool, f: DomainFailure) -> AdminError {
    match f {
        DomainFailure::Forbidden => AdminError::Forbidden,
        DomainFailure::ScopeNotBootstrapped => AdminError::ScopeNotBootstrapped,
        DomainFailure::RoleAlreadyExists => if creating {
            AdminError::RoleAlreadyExists
        } else {
            AdminError::InvalidRequest
        },
        DomainFailure::RoleNotFound => AdminError::RoleNotFound,
        DomainFailure::ProtectedRole => AdminError::ProtectedRole,
        DomainFailure::ProtectedBinding => AdminError::ProtectedBinding,
        DomainFailure::ScopeAlreadyBootstrapped => AdminError::InvalidRequest,
    }
}

pub open spec fn get_role_failure(f: DomainFailure) -> GetRoleError {
    match f {
        DomainFailure::ScopeNotBootstrapped => GetRoleError::ScopeNotBootstrapped,
        DomainFailure::RoleNotFound => GetRoleError::RoleNotFound,
        _ => GetRoleError::InvalidRequest,
    }
}

pub open spec fn listing_failure(f: DomainFailure) -> ListRolesError {
    match f {
        DomainFailure::ScopeNotBootstrapped => ListRolesError::ScopeNotBootstrapped,
        _ => ListRolesError::InvalidRequest,
    }
}

pub fn map_bootstrap_failure(f: DomainFailure) -> (r: BootstrapScopeError)
    ensures
        r == bootstrap_failure(f),
{
    match f {
        DomainFailure::Forbidden => BootstrapScopeError::Forbidden,
        DomainFailure::ScopeAlreadyBootstrapped => BootstrapScopeError::ScopeAlreadyBootstrapped,
        _ => BootstrapScopeError::InvalidRequest,
    }
}

pub fn map_create_role_failure(f: DomainFailure) -> (r: AdminError)
    ensures
        r == admin_failure(true, f),
{
    match f {
        DomainFailure::Forbidden => AdminError::Forbidden,
        DomainFailure::ScopeNotBootstrapped => AdminError::ScopeNotBootstrapped,
        DomainFailure::RoleAlreadyExists => AdminError::RoleAlreadyExists,
        DomainFailure::RoleNotFound => AdminError::RoleNotFound,
        DomainFailure::ProtectedRole => AdminError::ProtectedRole,
        DomainFailure::ProtectedBinding => AdminError::ProtectedBinding,
        DomainFailure::ScopeAlreadyBootstrapped => AdminError::InvalidRequest,
    }
}

/// Reports a refusal of setting grants, deleting a role, or assigning or
/// revoking a binding.
pub fn map_change_failure(f: DomainFailure) -> (r: AdminError)
    ensures
        r == admin_failure(false, f),
{
    match f {
        DomainFailure::Forbidden => AdminError::Forbidden,
        DomainFailure::ScopeNotBootstrapped => AdminError::ScopeNotBootstrapped,
        DomainFailure::RoleNotFound => AdminError::RoleNotFound,
        DomainFailure::ProtectedRole => AdminError::ProtectedRole,
        DomainFailure::ProtectedBinding => AdminError::ProtectedBinding,
        DomainFailure::RoleAlreadyExists => AdminError::InvalidRequest,
        DomainFailure::ScopeAlreadyBootstrapped => AdminError::InvalidRequest,
    }
}

pub fn map_get_role_failure(f: DomainFailure) -> (r: GetRoleError)
    ensures
        r == get_role_failure(f),
{
    match f {
        DomainFailure::ScopeNotBootstrapped => GetRoleError::ScopeNotBootstrapped,
        DomainFailure::RoleNotFound => GetRoleError::RoleNotFound,
        _ => GetRoleError::InvalidRequest,
    }
}

pub fn map_listing_failure(f: DomainFailure) -> (r: ListRolesError)
    ensures
        r == listing_failure(f),
{
    match f {
        DomainFailure::ScopeNotBootstrapped => ListRolesError::ScopeNotBootstrapped,
        _ => ListRolesError::InvalidRequest,
    }
}

/// Shapes the storage answer to a permission check.
pub fn answer_check_permission<S>(outcome: Result<Decision, S>) -> (r: Result<
    CheckPermissionResponse,
    ServiceError<CheckPermissionError, S>,
>)
    ensures
        match outcome {
            Ok(d) => match r {
                Ok(resp) => d.revision >= 0 && resp.allowed == d.allowed && resp.policy_revision@
                    == decimal(d.revision as nat),
                Err(e) => d.revision < 0 && e is NegativeRevision,
            },
            Err(s) => r matches Err(ServiceError::Storage(t)) && t == s,
        },
{
    match outcome {
        Ok(d) => match revision_string(d.revision) {
            Some(t) => Ok(CheckPermissionResponse { allowed: d.allowed, policy_revision: t }),
            None => Err(ServiceError::NegativeRevision),
        },
        Err(s) => Err(ServiceError::Storage(s)),
    }
}

/// Shapes the storage answer to a role lookup.
pub fn answer_get_role<S>(outcome: Result<Result<(DirectoryRole, i64), DomainFailure>, S>) -> (r: Result<
    GetRoleResponse,
    ServiceError<GetRoleError, S>,
>)
    ensures
        match outcome {
            Ok(Ok((d, v))) => match r {
                Ok(resp) => {
                    &&& v >= 0
                    &&& resp.role_id == d.role_id
                    &&& resp.name == d.name
                    &&& resp.protected == d.protected
                    &&& resp.permissions == d.permissions
                    &&& resp.policy_revision@ == decimal(v as nat)
                },
                Err(e) => v < 0 && e is NegativeRevision,
            },
            Ok(Err(f)) => r matches Err(ServiceError::Domain(e)) && e == get_role_failure(f),
            Err(s) => r matches Err(ServiceError::Storage(t)) && t == s,
        },
{
    match outcome {
        Ok(Ok((d, v))) => match revision_string(v) {
            Some(t) => Ok(
                GetRoleResponse {
                    role_id: d.role_id,
                    name: d.name,
                    protected: d.protected,
                    permissions: d.permissions,
                    policy_revision: t,
                },
            ),
            None => Err(ServiceError::NegativeRevision),
        },
        Ok(Err(f)) => Err(ServiceError::Domain(map_get_role_failure(f))),
        Err(s) => Err(ServiceError::Storage(s)),
    }
}

/// The cursor of the next page: the last role id of a truncated page.
pub open spec fn next_cursor_of(roles: Seq<DirectoryRole>, has_more: bool) -> Option<Seq<char>> {
    if has_more {
        Some(roles.last().role_id@)
    } else {
        None
    }
}

fn next_cursor(roles: &Vec<DirectoryRole>, has_more: bool) -> (r: Option<String>)
    requires
        has_more ==> roles@.len() > 0,
    ensures
        string_opt(r) == next_cursor_of(roles@, has_more),
{
    if has_more {
        Some(roles[roles.len() - 1].role_id.clone())
    } else {
        None
    }
}

/// The parts of a listing answer: roles, next cursor and revision text.
fn shape_listing<S>(outcome: Result<Result<DirectoryRolePage, DomainFailure>, S>) -> (r: Result<
    (Vec<DirectoryRole>, Option<String>, String),
    ServiceError<ListRolesError, S>,
>)
    requires
        outcome matches Ok(Ok(p)) ==> (p.has_more ==> p.roles@.len() > 0),
    ensures
        match outcome {
            Ok(Ok(p)) => match r {
                Ok((roles, cursor, t)) => p.revision >= 0 && roles@ == p.roles@ && string_opt(cursor)
                    == next_cursor_of(p.roles@, p.has_more) && t@ == decimal(p.revision as nat),
                Err(e) => p.revision < 0 && e is NegativeRevision,
            },
            Ok(Err(f)) => r matches Err(ServiceError::Domain(e)) && e == listing_failure(f),
            Err(s) => r matches Err(ServiceError::Storage(t)) && t == s,
        },
{
    match outcome {
        Ok(Ok(page)) => {
            let cursor = next_cursor(&page.roles, page.has_more);
            match revision_string(page.revision) {
                Some(t) => Ok((page.roles, cursor, t)),
                None => Err(ServiceError::NegativeRevision),
            }
        },
        Ok(Err(f)) => Err(ServiceError::Domain(map_listing_failure(f))),
        Err(s) => Err(ServiceError::Storage(s)),
    }
}

/// Shapes the storage answer to a listing of a scope's roles. A page that
/// says more roles follow must hold at least one role.
pub fn answer_list_roles<S>(outcome: Result<Result<DirectoryRolePage, DomainFailure>, S>) -> (r: Result<
    ListRolesResponse,
    ServiceError<ListRolesError, S>,
>)
    requires
        outcome matches Ok(Ok(p)) ==> (p.has_more ==> p.roles@.len() > 0),
    ensures
        match outcome {
            Ok(Ok(p)) => match r {
                Ok(resp) => p.revision >= 0 && resp.roles@ == p.roles@ && string_opt(resp.next_cursor)
                    == next_cursor_of(p.roles@, p.has_more) && resp.policy_revision@ == decimal(
                    p.revision as nat,
                ),
                Err(e) => p.revision < 0 && e is NegativeRevision,
            },
            Ok(Err(f)) => r matches Err(ServiceError::Domain(e)) && e == listing_failure(f),
            Err(s) => r matches Err(ServiceError::Storage(t)) && t == s,
        },
{
    match shape_listing(outcome) {
        Ok((roles, next_cursor, policy_revision)) => Ok(ListRolesResponse { roles, next_cursor, policy_revision }),
        Err(e) => Err(e),
    }
}

/// Shapes the storage answer to a listing of one subject's roles.
pub fn answer_list_subject_roles<S>(outcome: Result<Result<DirectoryRolePage, DomainFailure>, S>, subject: String) -> (r:
    Result<ListSubjectRolesResponse, ServiceError<ListRolesError, S>>)
    requires
        outcome matches Ok(Ok(p)) ==> (p.has_more ==> p.roles@.len() > 0),
    ensures
        match outcome {
            Ok(Ok(p)) => match r {
                Ok(resp) => p.revision >= 0 && resp.roles@ == p.roles@ && string_opt(resp.next_cursor)
                    == next_cursor_of(p.roles@, p.has_more) && resp.policy_revision@ == decimal(
                    p.revision as nat,
                ) && resp.subject == subject,
                Err(e) => p.revision < 0 && e is NegativeRevision,
            },
            Ok(Err(f)) => r matches Err(ServiceError::Domain(e)) && e == listing_failure(f),
            Err(s) => r matches Err(ServiceError::Storage(t)) && t == s,
        },
{
    match shape_listing(outcome) {
        Ok((roles, next_cursor, policy_revision)) => Ok(
            ListSubjectRolesResponse { roles, next_cursor, policy_revision, subject },
        ),
        Err(e) => Err(e),
    }
}

/// Shapes the storage answer to a bootstrap.
pub fn answer_bootstrap_scope<S>(outcome: Result<Result<Bootstrap, DomainFailure>, S>) -> (r: Result<
    BootstrapScopeResponse,
    ServiceError<BootstrapScopeError, S>,
>)
    ensures
        match outcome {
            Ok(Ok(b)) => match r {
                Ok(resp) => b.revision >= 0 && resp.created == b.created && resp.role_id@ == bootstrap_role()
                    && resp.policy_revision@ == decimal(b.revision as nat),
                Err(e) => b.revision < 0 && e is NegativeRevision,
            },
            Ok(Err(f)) => r matches Err(ServiceError::Domain(e)) && e == bootstrap_failure(f),
            Err(s) => r matches Err(ServiceError::Storage(t)) && t == s,
        },
{
    match outcome {
        Ok(Ok(b)) => match revision_string(b.revision) {
            Some(t) => Ok(
                BootstrapScopeResponse {
                    created: b.created,
                    role_id: BOOTSTRAP_ROLE_ID.to_owned(),
                    policy_revision: t,
                },
            ),
            None => Err(ServiceError::NegativeRevision),
        },
        Ok(Err(f)) => Err(ServiceError::Domain(map_bootstrap_failure(f))),
        Err(s) => Err(ServiceError::Storage(s)),
    }
}

/// The answer to a mutation agrees with its storage outcome.
pub open spec fn mutation_answered<S>(
    outcome: Result<Result<Mutation, DomainFailure>, S>,
    creating: bool,
    r: Result<MutationResponse, ServiceError<AdminError, S>>,
) -> bool {
    match outcome {
        Ok(Ok(m)) => match r {
            Ok(resp) => m.revision >= 0 && resp.changed == m.changed && resp.policy_revision@ == decimal(
                m.revision as nat,
            ),
            Err(e) => m.revision < 0 && e is NegativeRevision,
        },
        Ok(Err(f)) => r matches Err(ServiceError::Domain(e)) && e == admin_failure(creating, f),
        Err(s) => r matches Err(ServiceError::Storage(t)) && t == s,
    }
}

fn answer_mutation<S>(outcome: Result<Result<Mutation, DomainFailure>, S>, creating: bool) -> (r: Result<
    MutationResponse,
    ServiceError<AdminError, S>,
>)
    ensures
        mutation_answered(outcome, creating, r),
{
    match outcome {
        Ok(Ok(m)) => match revision_string(m.revision) {
            Some(t) => Ok(MutationResponse { changed: m.changed, policy_revision: t }),
            None => Err(ServiceError::NegativeRevision),
        },
        Ok(Err(f)) => Err(
            ServiceError::Domain(
                if creating {
                    map_create_role_failure(f)
                } else {
                    map_change_failure(f)
                },
            ),
        ),
        Err(s) => Err(ServiceError::Storage(s)),
    }
}

/// Shapes the storage answer to a role creation.
pub fn answer_create_role<S>(outcome: Result<Result<Mutation, DomainFailure>, S>) -> (r: Result<
    MutationResponse,
    ServiceError<AdminError, S>,
>)
    ensures
        mutation_answered(outcome, true, r),
{
    answer_mutation(outcome, true)
}

/// Shapes the storage answer to setting grants, deleting a role, or
/// assigning or revoking a binding.
pub fn answer_role_change<S>(outcome: Result<Result<Mutation, DomainFailure>, S>) -> (r: Result<
    MutationResponse,
    ServiceError<AdminError, S>,
>)
    ensures
        mutation_answered(outcome, false, r),
{
    answer_mutation(outcome, false)
}

pub open spec fn actor_text(actor: Option<&str>) -> Seq<char> {
    match actor {
        Some(a) => a@,
        None => Seq::empty(),
    }
}

/// A permission check answered at the policy `m`.
pub open spec fn permission_answer<S>(
    r: Result<CheckPermissionResponse, ServiceError<CheckPermissionError, S>>,
    m: PolicyModel,
    request: CheckPermissionRequest,
) -> bool {
    match check_admission(request) {
        Err(e) => r matches Err(ServiceError::Domain(d)) && d == e,
        Ok(()) => {
            let d = decision(m, request.scope.key(), request.subject@, request.permission@);
            match r {
                Ok(resp) => d.1 >= 0 && resp.allowed == d.0 && resp.policy_revision@ == decimal(d.1 as nat),
                Err(ServiceError::Domain(_)) => false,
                Err(ServiceError::NegativeRevision) => d.1 < 0,
                Err(ServiceError::Storage(_)) => true,
            }
        },
    }
}

/// A role lookup answered at the policy `m`.
pub open spec fn role_answer<S>(
    r: Result<GetRoleResponse, ServiceError<GetRoleError, S>>,
    m: PolicyModel,
    config: PolicyConfig,
    caller: Option<Seq<char>>,
    request: GetRoleRequest,
) -> bool {
    match get_role_admission(config, caller, request) {
        Err(e) => r matches Err(ServiceError::Domain(d)) && d == e,
        Ok(()) => {
            let lookup = role_lookup(m, request.scope.key(), request.role_id@);
            match r {
                Ok(resp) => {
                    &&& lookup matches Ok((role, v))
                    &&& v >= 0
                    &&& resp.role_id@ == request.role_id@
                    &&& resp.name@ == role.name
                    &&& resp.protected == role.protected
                    &&& resp.permissions@.map_values(|p: String| p@) == role.permissions
                    &&& resp.policy_revision@ == decimal(v as nat)
                },
                Err(ServiceError::Domain(e)) => lookup matches Err(f) && e == get_role_failure(f),
                Err(ServiceError::NegativeRevision) => lookup matches Ok((_, v)) && v < 0,
                Err(ServiceError::Storage(_)) => true,
            }
        },
    }
}

/// A listing answer agrees with the policy `m`: the keyset page of the
/// listed roles, each as the scope holds it, the next cursor exactly when
/// roles were left out, and the scope's revision.
pub open spec fn listed_page(
    roles: Seq<DirectoryRole>,
    next: Option<Seq<char>>,
    revision: Seq<char>,
    m: PolicyModel,
    scope: ScopeName,
    subject: Option<Seq<char>>,
    after: Option<Seq<char>>,
    limit: int,
) -> bool {
    &&& m.contains_key(scope)
    &&& m[scope].revision >= 0
    &&& revision == decimal(m[scope].revision as nat)
    &&& is_page(m[scope], subject, after, limit, role_ids(roles), next is Some)
    &&& forall|i: int| 0 <= i < roles.len() ==> #[trigger] roles[i].model() == m[scope].roles[roles[i].role_id@]
    &&& next == next_cursor_of(roles, next is Some)
}

/// The failures of a listing admitted at page size `limit`.
pub open spec fn listing_refusal<S>(
    e: ServiceError<ListRolesError, S>,
    m: PolicyModel,
    scope: ScopeName,
) -> bool {
    match e {
        ServiceError::Domain(d) => !m.contains_key(scope) && d == ListRolesError::ScopeNotBootstrapped,
        ServiceError::NegativeRevision => m.contains_key(scope) && m[scope].revision < 0,
        ServiceError::Storage(_) => true,
    }
}

pub open spec fn list_roles_answer<S>(
    r: Result<ListRolesResponse, ServiceError<ListRolesError, S>>,
    m: PolicyModel,
    config: PolicyConfig,
    caller: Option<Seq<char>>,
    request: ListRolesRequest,
) -> bool {
    match listing_admission(config, caller, request.scope, None, request.cursor, request.limit) {
        Err(e) => r matches Err(ServiceError::Domain(d)) && d == e,
        Ok(limit) => match r {
            Ok(resp) => listed_page(
                resp.roles@,
                string_opt(resp.next_cursor),
                resp.policy_revision@,
                m,
                request.scope.key(),
                None,
                string_opt(request.cursor),
                limit as int,
            ),
            Err(e) => listing_refusal(e, m, request.scope.key()),
        },
    }
}

pub open spec fn list_subject_roles_answer<S>(
    r: Result<ListSubjectRolesResponse, ServiceError<ListRolesError, S>>,
    m: PolicyModel,
    config: PolicyConfig,
    caller: Option<Seq<char>>,
    request: ListSubjectRolesRequest,
) -> bool {
    match listing_admission(config, caller, request.scope, Some(request.subject@), request.cursor, request.limit) {
        Err(e) => r matches Err(ServiceError::Domain(d)) && d == e,
        Ok(limit) => match r {
            Ok(resp) => resp.subject == request.subject && listed_page(
                resp.roles@,
                string_opt(resp.next_cursor),
                resp.policy_revision@,
                m,
                request.scope.key(),
                Some(request.subject@),
                string_opt(request.cursor),
                limit as int,
            ),
            Err(e) => listing_refusal(e, m, request.scope.key()),
        },
    }
}

/// A bootstrap answered, with the policy going from `before` to `after`.
pub open spec fn bootstrap_answer<S>(
    r: Result<BootstrapScopeResponse, ServiceError<BootstrapScopeError, S>>,
    before: PolicyModel,
    after: PolicyModel,
    scope: ScopeName,
    subject: Seq<char>,
) -> bool {
    let step = bootstrap_step(before, scope, subject);
    match r {
        Ok(resp) => {
            &&& step.0 matches Ok((c, v))
            &&& v >= 0
            &&& resp.created == c
            &&& resp.role_id@ == bootstrap_role()
            &&& resp.policy_revision@ == decimal(v as nat)
            &&& after == step.1
        },
        Err(ServiceError::Domain(e)) => step.0 matches Err(f) && e == bootstrap_failure(f) && after == step.1,
        Err(ServiceError::NegativeRevision) => step.0 matches Ok((_, v)) && v < 0 && after == step.1,
        Err(ServiceError::Storage(_)) => after == before,
    }
}

/// An administrative mutation answered, with the policy going from `before`
/// to `after`: the model's step, reported; or a storage failure that left the
/// policy as it was.
pub open spec fn mutation_answer<S>(
    r: Result<MutationResponse, ServiceError<AdminError, S>>,
    before: PolicyModel,
    after: PolicyModel,
    scope: ScopeName,
    op: AdminOp,
    creating: bool,
) -> bool {
    let step = admin_step(before, scope, op);
    match r {
        Ok(resp) => {
            &&& step.0 matches Ok((c, v))
            &&& v >= 0
            &&& resp.changed == c
            &&& resp.policy_revision@ == decimal(v as nat)
            &&& after == step.1
        },
        Err(ServiceError::Domain(e)) => step.0 matches Err(f) && e == admin_failure(creating, f) && after == step.1,
        Err(ServiceError::NegativeRevision) => step.0 matches Ok((_, v)) && v < 0 && after == step.1,
        Err(ServiceError::Storage(_)) => after == before,
    }
}

/// An administrative mutation that passed admission or was refused there.
pub open spec fn admin_answer<S>(
    admission: Result<(), AdminError>,
    r: Result<MutationResponse, ServiceError<AdminError, S>>,
    before: PolicyModel,
    after: PolicyModel,
    scope: ScopeName,
    op: AdminOp,
    creating: bool,
) -> bool {
    match admission {
        Err(e) => r matches Err(ServiceError::Domain(d)) && d == e && after == before,
        Ok(()) => mutation_answer(r, before, after, scope, op, creating),
    }
}

/// One prepared generation of the Access Control service over a storage backend.
pub struct AccessControl<S> {
    config: PolicyConfig,
    store: S,
}

impl<S: Store> AccessControl<S> {
    pub closed spec fn configuration(&self) -> PolicyConfig {
        self.config
    }

    /// The policy the backend holds.
    pub closed spec fn policy(&self) -> PolicyModel {
        self.store.model()
    }

    pub closed spec fn well_formed(&self) -> bool {
        self.store.well_formed()
    }

    pub fn new(config: PolicyConfig, store: S) -> (r: Self)
        ensures
            r.configuration() == config,
            r.policy() == store.model(),
            r.well_formed() == store.well_formed(),
    {
        AccessControl { config, store }
    }

    pub fn check_permission(&self, request: CheckPermissionRequest) -> (r: Result<
        CheckPermissionResponse,
        ServiceError<CheckPermissionError, S::Error>,
    >)
        requires
            self.well_formed(),
        ensures
            permission_answer(r, self.policy(), request),
    {
        if let Err(e) = admit_check_permission(&request) {
            return Err(ServiceError::Domain(e));
        }
        let outcome = self.store.check_permission(&request.scope, request.subject.as_str(), request.permission.as_str());
        answer_check_permission(outcome)
    }

    pub fn get_role(&self, caller_instance: Option<&str>, request: GetRoleRequest) -> (r: Result<
        GetRoleResponse,
        ServiceError<GetRoleError, S::Error>,
    >)
        requires
            self.well_formed(),
        ensures
            role_answer(r, self.policy(), self.configuration(), text_opt(caller_instance), request),
    {
        if let Err(e) = admit_get_role(&self.config, caller_instance, &request) {
            return Err(ServiceError::Domain(e));
        }
        let outcome = self.store.get_role(&request.scope, request.role_id.as_str());
        answer_get_role(outcome)
    }

    pub fn list_roles(&self, caller_instance: Option<&str>, request: ListRolesRequest) -> (r: Result<
        ListRolesResponse,
        ServiceError<ListRolesError, S::Error>,
    >)
        requires
            self.well_formed(),
        ensures
            list_roles_answer(r, self.policy(), self.configuration(), text_opt(caller_instance), request),
    {
        let limit = match admit_list_roles(&self.config, caller_instance, &request) {
            Ok(n) => n,
            Err(e) => return Err(ServiceError::Domain(e)),
        };
        let cursor: Option<&str> = match &request.cursor {
            Some(c) => Some(c.as_str()),
            None => None,
        };
        let outcome = self.store.list_roles(&request.scope, cursor, limit);
        proof {
            lemma_truncated_page_not_empty(outcome, self.policy(), request.scope.key(), None, text_of(cursor), limit as int);
        }
        answer_list_roles(outcome)
    }

    pub fn list_subject_roles(&self, caller_instance: Option<&str>, request: ListSubjectRolesRequest) -> (r:
        Result<ListSubjectRolesResponse, ServiceError<ListRolesError, S::Error>>)
        requires
            self.well_formed(),
        ensures
            list_subject_roles_answer(r, self.policy(), self.configuration(), text_opt(caller_instance), request),
    {
        let limit = match admit_list_subject_roles(&self.config, caller_instance, &request) {
            Ok(n) => n,
            Err(e) => return Err(ServiceError::Domain(e)),
        };
        let cursor: Option<&str> = match &request.cursor {
            Some(c) => Some(c.as_str()),
            None => None,
        };
        let outcome = self.store.list_subject_roles(&request.scope, request.subject.as_str(), cursor, limit);
        proof {
            lemma_truncated_page_not_empty(
                outcome,
                self.policy(),
                request.scope.key(),
                Some(request.subject@),
                text_of(cursor),
                limit as int,
            );
        }
        answer_list_subject_roles(outcome, request.subject)
    }

    pub fn bootstrap_scope(&mut self, caller_instance: Option<&str>, request: BootstrapScopeRequest) -> (r: Result<
        BootstrapScopeResponse,
        ServiceError<BootstrapScopeError, S::Error>,
    >)
        requires
            old(self).well_formed(),
        ensures
            final(self).well_formed(),
            final(self).configuration() == old(self).configuration(),
            match bootstrap_admission(old(self).configuration(), text_opt(caller_instance), request) {
                Err(e) => r matches Err(ServiceError::Domain(d)) && d == e && final(self).policy() == old(self).policy(),
                Ok(()) => bootstrap_answer(r, old(self).policy(), final(self).policy(), request.scope.key(), request.subject@),
            },
    {
        if let Err(e) = admit_bootstrap_scope(&self.config, caller_instance, &request) {
            return Err(ServiceError::Domain(e));
        }
        let outcome = self.store.bootstrap_scope(&request.scope, request.subject.as_str());
        answer_bootstrap_scope(outcome)
    }

    pub fn create_role(&mut self, actor: Option<&str>, request: CreateRoleRequest) -> (r: Result<
        MutationResponse,
        ServiceError<AdminError, S::Error>,
    >)
        requires
            old(self).well_formed(),
        ensures
            final(self).well_formed(),
            final(self).configuration() == old(self).configuration(),
            admin_answer(
                admin_admission(text_opt(actor), create_role_request_ok(request)),
                r,
                old(self).policy(),
                final(self).policy(),
                request.scope.key(),
                AdminOp::CreateRole { actor: actor_text(actor), role_id: request.role_id@, name: request.name@ },
                true,
            ),
    {
        if let Err(e) = admit_create_role(actor, &request) {
            return Err(ServiceError::Domain(e));
        }
        let a = match actor {
            Some(a) => a,
            None => "",
        };
        let outcome = self.store.create_role(&request.scope, a, request.role_id.as_str(), request.name.as_str());
        answer_create_role(outcome)
    }

    pub fn set_role_permissions(&mut self, actor: Option<&str>, request: SetRolePermissionsRequest) -> (r: Result<
        MutationResponse,
        ServiceError<AdminError, S::Error>,
    >)
        requires
            old(self).well_formed(),
        ensures
            final(self).well_formed(),
            final(self).configuration() == old(self).configuration(),
            match admin_admission(text_opt(actor), set_permissions_request_ok(request)) {
                Err(e) => r matches Err(ServiceError::Domain(d)) && d == e && final(self).policy() == old(self).policy(),
                Ok(()) => exists|p: Seq<Seq<char>>|
                    #[trigger] sorted_form(texts(request.permissions@), p) && mutation_answer(
                        r,
                        old(self).policy(),
                        final(self).policy(),
                        request.scope.key(),
                        AdminOp::SetRolePermissions { actor: actor_text(actor), role_id: request.role_id@, permissions: p },
                        false,
                    ),
            },
    {
        let sorted = match admit_set_role_permissions(actor, &request) {
            Ok(v) => v,
            Err(e) => return Err(ServiceError::Domain(e)),
        };
        let a = match actor {
            Some(a) => a,
            None => "",
        };
        assert(texts(sorted@) =~= sorted@.map_values(|p: String| p@));
        let outcome = self.store.set_role_permissions(&request.scope, a, request.role_id.as_str(), &sorted);
        let r = answer_role_change(outcome);
        assert(sorted_form(texts(request.permissions@), texts(sorted@)));
        r
    }

    pub fn delete_role(&mut self, actor: Option<&str>, request: DeleteRoleRequest) -> (r: Result<
        MutationResponse,
        ServiceError<AdminError, S::Error>,
    >)
        requires
            old(self).well_formed(),
        ensures
            final(self).well_formed(),
            final(self).configuration() == old(self).configuration(),
            admin_answer(
                admin_admission(text_opt(actor), role_request_ok(request.scope, request.role_id@)),
                r,
                old(self).policy(),
                final(self).policy(),
                request.scope.key(),
                AdminOp::DeleteRole { actor: actor_text(actor), role_id: request.role_id@ },
                false,
            ),
    {
        if let Err(e) = admit_delete_role(actor, &request) {
            return Err(ServiceError::Domain(e));
        }
        let a = match actor {
            Some(a) => a,
            None => "",
        };
        let outcome = self.store.delete_role(&request.scope, a, request.role_id.as_str());
        answer_role_change(outcome)
    }

    pub fn assign_role(&mut self, actor: Option<&str>, request: AssignRoleRequest) -> (r: Result<
        MutationResponse,
        ServiceError<AdminError, S::Error>,
    >)
        requires
            old(self).well_formed(),
        ensures
            final(self).well_formed(),
            final(self).configuration() == old(self).configuration(),
            admin_answer(
                admin_admission(text_opt(actor), binding_request_ok(request)),
                r,
                old(self).policy(),
                final(self).policy(),
                request.scope.key(),
                AdminOp::AssignRole { actor: actor_text(actor), subject: request.subject@, role_id: request.role_id@ },
                false,
            ),
    {
        if let Err(e) = admit_role_binding(actor, &request) {
            return Err(ServiceError::Domain(e));
        }
        let a = match actor {
            Some(a) => a,
            None => "",
        };
        let outcome = self.store.assign_role(&request.scope, a, request.subject.as_str(), request.role_id.as_str());
        answer_role_change(outcome)
    }

    pub fn revoke_role(&mut self, actor: Option<&str>, request: RevokeRoleRequest) -> (r: Result<
        MutationResponse,
        ServiceError<AdminError, S::Error>,
    >)
        requires
            old(self).well_formed(),
        ensures
            final(self).well_formed(),
            final(self).configuration() == old(self).configuration(),
            admin_answer(
                admin_admission(text_opt(actor), binding_request_ok(request)),
                r,
                old(self).policy(),
                final(self).policy(),
                request.scope.key(),
                AdminOp::RevokeRole { actor: actor_text(actor), subject: request.subject@, role_id: request.role_id@ },
                false,
            ),
    {
        if let Err(e) = admit_role_binding(actor, &request) {
            return Err(ServiceError::Domain(e));
        }
        let a = match actor {
            Some(a) => a,
            None => "",
        };
        let outcome = self.store.revoke_role(&request.scope, a, request.subject.as_str(), request.role_id.as_str());
        answer_role_change(outcome)
    }
}

/// A page that the store reports as truncated holds at least one role: a
/// role was left out only because the page is full, and an admitted page
/// holds at least one.
proof fn lemma_truncated_page_not_empty<E>(
    outcome: Result<Result<DirectoryRolePage, DomainFailure>, E>,
    m: PolicyModel,
    scope: ScopeName,
    subject: Option<Seq<char>>,
    after: Option<Seq<char>>,
    limit: int,
)
    requires
        limit >= 1,
        outcome matches Ok(o) ==> listing_reports(o, m, scope, subject, after, limit),
    ensures
        outcome matches Ok(Ok(p)) ==> (p.has_more ==> p.roles@.len() > 0),
{
    if let Ok(Ok(p)) = outcome {
        if p.has_more {
            let s = m[scope];
            let r = choose|r: Seq<char>| #[trigger] listed(s, subject, after, r) && !role_ids(p.roles@).contains(r);
            assert(role_ids(p.roles@).len() == limit);
        }
    }
}

} // verus!
