//! Properties of the policy model that hold for every scope and every
//! operation; each is proved from the definitions in `model`.
use vstd::prelude::*;
use vstd::utf8::{encode_utf8, is_ascii_chars, is_ascii_chars_encode_utf8};
use vstd::set_lib::lemma_len_subset;
use crate::model::{
    admin_in, admin_step, bindings_manage, bootstrap_permissions, bootstrap_role, bootstrap_step,
    decision, grants, initial_scope, is_page, listed, other_binding, policy_wf, role_lookup,
    roles_manage, scope_wf,
    strictly_sorted, AdminOp, PolicyModel, RoleModel, ScopeModel, ScopeName,
};
use crate::service::{
    admin_admission, listed_page, permission_ok, set_permissions_request_ok, sorted_form,
    SetRolePermissionsRequest,
};
use crate::identifiers::{is_opaque_byte, is_permission, is_role_id, is_scope_kind, is_scope_kind_byte, is_subject};
use crate::storage::{role_ids, DirectoryRole};
use crate::storage::DomainFailure;
use crate::text::{
    texts,
    lemma_bytes_lt_at, lemma_text_lt_asymmetric, lemma_text_lt_irreflexive, lemma_text_lt_transitive,
    text_lt,
};

verus! {

/// The two bootstrap grants are stored in bytewise order.
pub proof fn lemma_bootstrap_permissions_sorted()
    ensures
        strictly_sorted(bootstrap_permissions()),
{
    reveal_strlit("access-control.bindings.manage");
    reveal_strlit("access-control.roles.manage");
    let a = bindings_manage();
    let b = roles_manage();
    assert(is_ascii_chars(a));
    assert(is_ascii_chars(b));
    is_ascii_chars_encode_utf8(a);
    is_ascii_chars_encode_utf8(b);
    lemma_bytes_lt_at(encode_utf8(a), encode_utf8(b), 15);
    assert(text_lt(a, b));
}


/// A freshly bootstrapped scope satisfies the scope invariant.
pub proof fn lemma_initial_scope_wf(subject: Seq<char>)
    ensures
        scope_wf(initial_scope(subject)),
{
    lemma_bootstrap_permissions_sorted();
    let s = initial_scope(subject);
    assert(s.bindings.contains((subject, bootstrap_role())));
}

/// Law: every administrative mutation keeps the scope invariant, so the
/// protected bootstrap role, its two grants and its last binding survive.
pub proof fn law_admin_preserves_scope_wf(s: ScopeModel, op: AdminOp)
    requires
        scope_wf(s),
        op.well_formed(),
    ensures
        scope_wf(admin_in(s, op).1),
{
    let t = admin_in(s, op).1;
    let who = choose|who: Seq<char>| #[trigger] s.bindings.contains((who, bootstrap_role()));
    if grants(s, op.actor(), op.required_permission()) {
        match op {
            AdminOp::CreateRole { role_id, name, .. } => {
                assert(t.bindings.contains((who, bootstrap_role())));
            },
            AdminOp::SetRolePermissions { role_id, permissions, .. } => {
                assert(t.bindings.contains((who, bootstrap_role())));
            },
            AdminOp::DeleteRole { role_id, .. } => {
                if s.roles.contains_key(role_id) && !s.roles[role_id].protected {
                    assert(t.bindings.contains((who, bootstrap_role())));
                }
            },
            AdminOp::AssignRole { subject, role_id, .. } => {
                assert(t.bindings.contains((who, bootstrap_role())));
            },
            AdminOp::RevokeRole { subject, role_id, .. } => {
                if s.roles.contains_key(role_id) && s.bindings.contains((subject, role_id)) {
                    if role_id == bootstrap_role() {
                        if other_binding(s, subject, role_id) {
                            let other = choose|other: Seq<char>|
                                #![trigger s.bindings.contains((other, role_id))]
                                other != subject && s.bindings.contains((other, role_id));
                            assert(t.bindings.contains((other, bootstrap_role())));
                        }
                    } else {
                        assert(t.bindings.contains((who, bootstrap_role())));
                    }
                }
            },
        }
    }
}


/// Law: bootstrapping keeps every scope's invariant.
pub proof fn law_bootstrap_preserves_policy_wf(m: PolicyModel, scope: ScopeName, subject: Seq<char>)
    requires
        policy_wf(m),
    ensures
        policy_wf(bootstrap_step(m, scope, subject).1),
{
    lemma_initial_scope_wf(subject);
}

/// Law: administrative mutations keep every scope's invariant.
pub proof fn law_admin_preserves_policy_wf(m: PolicyModel, scope: ScopeName, op: AdminOp)
    requires
        policy_wf(m),
        op.well_formed(),
    ensures
        policy_wf(admin_step(m, scope, op).1),
{
    if m.contains_key(scope) {
        law_admin_preserves_scope_wf(m[scope], op);
    }
}

/// Law (default deny): a scope that holds no policy answers every permission
/// check with `allowed = false` at revision 0.
pub proof fn law_missing_scope_denies(m: PolicyModel, scope: ScopeName, subject: Seq<char>, permission: Seq<char>)
    requires
        !m.contains_key(scope),
    ensures
        decision(m, scope, subject, permission) == (false, 0int),
{
}

/// Law (default deny): a subject without any binding in a scope holds no
/// permission there.
pub proof fn law_unbound_subject_denied(m: PolicyModel, scope: ScopeName, subject: Seq<char>, permission: Seq<char>)
    requires
        m.contains_key(scope) ==> forall|r: Seq<char>| !m[scope].bindings.contains((subject, r)),
    ensures
        !decision(m, scope, subject, permission).0,
{
}

/// Law (union of roles): an effective or repeated assignment gives the
/// subject exactly the grants it held plus the grants of the assigned role;
/// every other subject keeps exactly its permissions.
pub proof fn law_assign_adds_role_grants(
    m: PolicyModel,
    scope: ScopeName,
    actor: Seq<char>,
    subject: Seq<char>,
    role_id: Seq<char>,
    other: Seq<char>,
    permission: Seq<char>,
)
    requires
        admin_step(m, scope, AdminOp::AssignRole { actor, subject, role_id }).0 is Ok,
        other != subject,
    ensures
        ({
            let after = admin_step(m, scope, AdminOp::AssignRole { actor, subject, role_id }).1;
            &&& decision(after, scope, subject, permission).0 <==> (decision(m, scope, subject, permission).0
                || m[scope].roles[role_id].permissions.contains(permission))
            &&& decision(after, scope, other, permission) == (
                decision(m, scope, other, permission).0,
                after[scope].revision,
            )
        }),
{
    let s = m[scope];
    let t = admin_step(m, scope, AdminOp::AssignRole { actor, subject, role_id }).1[scope];
    if m[scope].roles[role_id].permissions.contains(permission) {
        assert(t.bindings.contains((subject, role_id)));
    }
    if grants(s, subject, permission) {
        let r = choose|r: Seq<char>| #![trigger s.bindings.contains((subject, r))]
            s.bindings.contains((subject, r)) && s.roles.contains_key(r) && s.roles[r].permissions.contains(permission);
        assert(t.bindings.contains((subject, r)));
    }
    if grants(s, other, permission) {
        let r = choose|r: Seq<char>| #![trigger s.bindings.contains((other, r))]
            s.bindings.contains((other, r)) && s.roles.contains_key(r) && s.roles[r].permissions.contains(permission);
        assert(t.bindings.contains((other, r)));
    }
    if grants(t, other, permission) {
        let r = choose|r: Seq<char>| #![trigger t.bindings.contains((other, r))]
            t.bindings.contains((other, r)) && t.roles.contains_key(r) && t.roles[r].permissions.contains(permission);
        assert(s.bindings.contains((other, r)));
    }
}

/// Law (union of roles): revoking a binding removes only that binding's
/// contribution. The subject keeps each permission that another bound role
/// grants, and every other subject keeps exactly its permissions.
pub proof fn law_revoke_removes_only_that_binding(
    m: PolicyModel,
    scope: ScopeName,
    actor: Seq<char>,
    subject: Seq<char>,
    role_id: Seq<char>,
    other: Seq<char>,
    permission: Seq<char>,
)
    requires
        admin_step(m, scope, AdminOp::RevokeRole { actor, subject, role_id }).0 is Ok,
        other != subject,
    ensures
        ({
            let s = m[scope];
            let after = admin_step(m, scope, AdminOp::RevokeRole { actor, subject, role_id }).1;
            &&& decision(after, scope, subject, permission).0 <==> exists|r: Seq<char>|
                #![trigger s.bindings.contains((subject, r))]
                r != role_id && s.bindings.contains((subject, r)) && s.roles.contains_key(r)
                    && s.roles[r].permissions.contains(permission)
            &&& decision(after, scope, other, permission) == (
                decision(m, scope, other, permission).0,
                after[scope].revision,
            )
        }),
{
    let s = m[scope];
    let t = admin_step(m, scope, AdminOp::RevokeRole { actor, subject, role_id }).1[scope];
    if grants(t, subject, permission) {
        let r = choose|r: Seq<char>| #![trigger t.bindings.contains((subject, r))]
            t.bindings.contains((subject, r)) && t.roles.contains_key(r) && t.roles[r].permissions.contains(permission);
        assert(s.bindings.contains((subject, r)));
    }
    if exists|r: Seq<char>| #![trigger s.bindings.contains((subject, r))]
        r != role_id && s.bindings.contains((subject, r)) && s.roles.contains_key(r)
            && s.roles[r].permissions.contains(permission) {
        let r = choose|r: Seq<char>| #![trigger s.bindings.contains((subject, r))]
            r != role_id && s.bindings.contains((subject, r)) && s.roles.contains_key(r)
                && s.roles[r].permissions.contains(permission);
        assert(t.bindings.contains((subject, r)));
    }
    if grants(s, other, permission) {
        let r = choose|r: Seq<char>| #![trigger s.bindings.contains((other, r))]
            s.bindings.contains((other, r)) && s.roles.contains_key(r) && s.roles[r].permissions.contains(permission);
        assert(t.bindings.contains((other, r)));
    }
    if grants(t, other, permission) {
        let r = choose|r: Seq<char>| #![trigger t.bindings.contains((other, r))]
            t.bindings.contains((other, r)) && t.roles.contains_key(r) && t.roles[r].permissions.contains(permission);
        assert(s.bindings.contains((other, r)));
    }
}

/// Law (monotonic revision): every effective mutation advances the scope's
/// policy revision by exactly one; a no-op reports the current revision and
/// a refusal reports nothing, and both leave the whole policy as it was.
pub proof fn law_revision_advances_once(m: PolicyModel, scope: ScopeName, op: AdminOp)
    ensures
        ({
            let (step, after) = admin_step(m, scope, op);
            match step {
                Ok((true, v)) => m.contains_key(scope) && v == m[scope].revision + 1 && after.contains_key(scope)
                    && after[scope].revision == v && after.dom() == m.dom(),
                Ok((false, v)) => m.contains_key(scope) && v == m[scope].revision && after == m,
                Err(_) => after == m,
            }
        }),
{
    if m.contains_key(scope) {
        let s = m[scope];
        let (step, t) = admin_in(s, op);
        if step is Err || step matches Ok((false, _)) {
            assert(t == s);
            assert(m.insert(scope, s) =~= m);
        }
        assert(m.insert(scope, t).dom() =~= m.dom());
    }
}

/// Law (monotonic revision): bootstrapping creates a scope at revision 1;
/// repeating it, or a refused one, leaves the whole policy as it was.
pub proof fn law_bootstrap_revision(m: PolicyModel, scope: ScopeName, subject: Seq<char>)
    ensures
        ({
            let (step, after) = bootstrap_step(m, scope, subject);
            match step {
                Ok((true, v)) => !m.contains_key(scope) && v == 1 && after[scope].revision == 1,
                Ok((false, v)) => m.contains_key(scope) && v == m[scope].revision && after == m,
                Err(_) => after == m,
            }
        }),
{
}

/// Law (scope isolation): a mutation or bootstrap of one scope leaves every
/// other scope's policy as it was, and creates or removes no other scope.
pub proof fn law_scopes_are_isolated(m: PolicyModel, scope: ScopeName, other: ScopeName, op: AdminOp, subject: Seq<char>)
    requires
        other != scope,
    ensures
        admin_step(m, scope, op).1.contains_key(other) == m.contains_key(other),
        m.contains_key(other) ==> admin_step(m, scope, op).1[other] == m[other],
        bootstrap_step(m, scope, subject).1.contains_key(other) == m.contains_key(other),
        m.contains_key(other) ==> bootstrap_step(m, scope, subject).1[other] == m[other],
{
}

/// Law (idempotent bootstrap): once a scope is bootstrapped, bootstrapping it
/// again for the same subject changes nothing and reports the current
/// revision; bootstrapping it for another subject is refused.
pub proof fn law_bootstrap_idempotent(m: PolicyModel, scope: ScopeName, subject: Seq<char>, other: Seq<char>)
    requires
        bootstrap_step(m, scope, subject).0 is Ok,
        other != subject,
    ensures
        ({
            let after = bootstrap_step(m, scope, subject).1;
            &&& bootstrap_step(after, scope, subject) == (
                Ok::<(bool, int), DomainFailure>((false, after[scope].revision)),
                after,
            )
            &&& bootstrap_step(after, scope, other).0 == Err::<(bool, int), DomainFailure>(
                DomainFailure::ScopeAlreadyBootstrapped,
            )
        }),
{
}

/// Law (bootstrap administration): right after a scope is bootstrapped its
/// bootstrap subject holds both administration permissions, at revision 1.
pub proof fn law_bootstrap_grants_administration(m: PolicyModel, scope: ScopeName, subject: Seq<char>)
    requires
        !m.contains_key(scope),
    ensures
        decision(bootstrap_step(m, scope, subject).1, scope, subject, roles_manage()) == (true, 1int),
        decision(bootstrap_step(m, scope, subject).1, scope, subject, bindings_manage()) == (true, 1int),
{
    let s = initial_scope(subject);
    assert(s.bindings.contains((subject, bootstrap_role())));
    assert(s.roles[bootstrap_role()].permissions[0] == bindings_manage());
    assert(s.roles[bootstrap_role()].permissions[1] == roles_manage());
}

/// Law (scoped authorization): an actor that does not hold the operation's
/// administration permission in the scope is refused as forbidden, and the
/// policy stays as it was.
pub proof fn law_unauthorized_actor_forbidden(m: PolicyModel, scope: ScopeName, op: AdminOp)
    requires
        m.contains_key(scope),
        !grants(m[scope], op.actor(), op.required_permission()),
    ensures
        admin_step(m, scope, op) == (Err::<(bool, int), DomainFailure>(DomainFailure::Forbidden), m),
{
    assert(m.insert(scope, m[scope]) =~= m);
}

/// Law (protected bootstrap role): an authorized actor can neither delete the
/// bootstrap role nor replace its grants; both are refused and nothing changes.
pub proof fn law_bootstrap_role_protected(s: ScopeModel, actor: Seq<char>, permissions: Seq<Seq<char>>)
    requires
        scope_wf(s),
        grants(s, actor, roles_manage()),
    ensures
        admin_in(s, AdminOp::DeleteRole { actor, role_id: bootstrap_role() }) == (
            Err::<(bool, int), DomainFailure>(DomainFailure::ProtectedRole),
            s,
        ),
        admin_in(s, AdminOp::SetRolePermissions { actor, role_id: bootstrap_role(), permissions }) == (
            Err::<(bool, int), DomainFailure>(DomainFailure::ProtectedRole),
            s,
        ),
{
}

/// Law (protected bootstrap binding): the last subject bound to the bootstrap
/// role cannot be unbound; the revocation is refused and nothing changes.
pub proof fn law_last_bootstrap_binding_kept(s: ScopeModel, actor: Seq<char>, subject: Seq<char>)
    requires
        scope_wf(s),
        grants(s, actor, bindings_manage()),
        s.bindings.contains((subject, bootstrap_role())),
        !other_binding(s, subject, bootstrap_role()),
    ensures
        admin_in(s, AdminOp::RevokeRole { actor, subject, role_id: bootstrap_role() }) == (
            Err::<(bool, int), DomainFailure>(DomainFailure::ProtectedBinding),
            s,
        ),
{
}

/// Law (read after write): a role just created reads back with its name, as
/// an unprotected role without grants, at the new revision.
pub proof fn law_created_role_reads_back(m: PolicyModel, scope: ScopeName, actor: Seq<char>, role_id: Seq<char>, name: Seq<char>)
    requires
        admin_step(m, scope, AdminOp::CreateRole { actor, role_id, name }).0 is Ok,
    ensures
        ({
            let (step, after) = admin_step(m, scope, AdminOp::CreateRole { actor, role_id, name });
            role_lookup(after, scope, role_id) == Ok::<(RoleModel, int), DomainFailure>(
                (RoleModel { name, protected: false, permissions: Seq::empty() }, step->Ok_0.1),
            )
        }),
{
}

/// Law (read after write): after grants are replaced, the role reads back
/// with exactly the new grants, at the reported revision.
pub proof fn law_set_permissions_reads_back(
    m: PolicyModel,
    scope: ScopeName,
    actor: Seq<char>,
    role_id: Seq<char>,
    permissions: Seq<Seq<char>>,
)
    requires
        admin_step(m, scope, AdminOp::SetRolePermissions { actor, role_id, permissions }).0 is Ok,
    ensures
        ({
            let (step, after) = admin_step(m, scope, AdminOp::SetRolePermissions { actor, role_id, permissions });
            &&& role_lookup(after, scope, role_id) matches Ok((role, v))
            &&& role.permissions == permissions
            &&& role.name == m[scope].roles[role_id].name
            &&& v == step->Ok_0.1
        }),
{
}

/// Law (deletion): a deleted role is gone, and so is every binding to it.
pub proof fn law_deleted_role_gone(m: PolicyModel, scope: ScopeName, actor: Seq<char>, role_id: Seq<char>, subject: Seq<char>)
    requires
        admin_step(m, scope, AdminOp::DeleteRole { actor, role_id }).0 is Ok,
    ensures
        ({
            let after = admin_step(m, scope, AdminOp::DeleteRole { actor, role_id }).1;
            &&& role_lookup(after, scope, role_id) == Err::<(RoleModel, int), DomainFailure>(DomainFailure::RoleNotFound)
            &&& !after[scope].bindings.contains((subject, role_id))
        }),
{
}

/// Two strictly increasing lists with the same texts are the same list.
pub proof fn lemma_sorted_unique(a: Seq<Seq<char>>, b: Seq<Seq<char>>)
    requires
        strictly_sorted(a),
        strictly_sorted(b),
        forall|x: Seq<char>| a.contains(x) <==> b.contains(x),
    ensures
        a == b,
    decreases a.len() + b.len(),
{
    if a.len() == 0 {
        if b.len() > 0 {
            assert(b.contains(b[0]));
        }
        assert(a =~= b);
    } else if b.len() == 0 {
        assert(a.contains(a[0]));
    } else {
        assert(a.contains(a[0]));
        assert(b.contains(b[0]));
        let i = choose|i: int| 0 <= i < a.len() && a[i] == b[0];
        let j = choose|j: int| 0 <= j < b.len() && b[j] == a[0];
        if a[0] != b[0] {
            assert(i > 0 && j > 0);
            assert(text_lt(a[0], a[i]));
            assert(text_lt(b[0], b[j]));
            lemma_text_lt_asymmetric(a[0], b[0]);
        }
        let a2 = a.drop_first();
        let b2 = b.drop_first();
        assert forall|x: Seq<char>| a2.contains(x) <==> b2.contains(x) by {
            if a2.contains(x) {
                let k = choose|k: int| 0 <= k < a2.len() && a2[k] == x;
                assert(a[k + 1] == x);
                assert(text_lt(a[0], x));
                lemma_text_lt_irreflexive(x);
                assert(b.contains(x));
                let l = choose|l: int| 0 <= l < b.len() && b[l] == x;
                assert(l != 0);
                assert(b2[l - 1] == x);
            }
            if b2.contains(x) {
                let k = choose|k: int| 0 <= k < b2.len() && b2[k] == x;
                assert(b[k + 1] == x);
                assert(text_lt(b[0], x));
                lemma_text_lt_irreflexive(x);
                assert(a.contains(x));
                let l = choose|l: int| 0 <= l < a.len() && a[l] == x;
                assert(l != 0);
                assert(a2[l - 1] == x);
            }
        }
        lemma_sorted_unique(a2, b2);
        assert(a =~= seq![a[0]] + a2);
        assert(b =~= seq![b[0]] + b2);
    }
}

/// Law (grant replacement depends on the set alone): the grant list stored
/// for a requested permission list is the one strictly increasing list of its
/// texts, whatever order and arrangement the request used.
pub proof fn law_sorted_form_unique(input: Seq<Seq<char>>, a: Seq<Seq<char>>, b: Seq<Seq<char>>)
    requires
        sorted_form(input, a),
        sorted_form(input, b),
    ensures
        a == b,
{
    lemma_sorted_unique(a, b);
}

/// A strictly increasing list holds no text twice.
proof fn lemma_sorted_no_duplicates(a: Seq<Seq<char>>)
    requires
        strictly_sorted(a),
    ensures
        a.no_duplicates(),
{
    assert forall|i: int, j: int| 0 <= i < a.len() && 0 <= j < a.len() && i != j implies a[i] != a[j] by {
        if i < j {
            lemma_text_lt_irreflexive(a[i]);
            assert(text_lt(a[i], a[j]));
        } else {
            lemma_text_lt_irreflexive(a[j]);
            assert(text_lt(a[j], a[i]));
        }
    }
}

/// Every role on one answer to a listing is on any other answer to it.
proof fn lemma_page_contained(
    s: ScopeModel,
    subject: Option<Seq<char>>,
    after: Option<Seq<char>>,
    limit: int,
    a: Seq<Seq<char>>,
    more_a: bool,
    b: Seq<Seq<char>>,
    more_b: bool,
    x: Seq<char>,
)
    requires
        is_page(s, subject, after, limit, a, more_a),
        is_page(s, subject, after, limit, b, more_b),
        a.contains(x),
    ensures
        b.contains(x),
{
    if !b.contains(x) {
        let i = choose|i: int| 0 <= i < a.len() && a[i] == x;
        assert(listed(s, subject, after, a[i]));
        assert(b.len() == limit);
        assert forall|y: Seq<char>| b.contains(y) implies a.contains(y) by {
            if !a.contains(y) {
                let j = choose|j: int| 0 <= j < b.len() && b[j] == y;
                assert(listed(s, subject, after, b[j]));
                assert(text_lt(a[i], y));
                assert(text_lt(b[j], x));
                lemma_text_lt_asymmetric(x, y);
            }
        }
        lemma_sorted_no_duplicates(a);
        lemma_sorted_no_duplicates(b);
        a.unique_seq_to_set();
        b.unique_seq_to_set();
        let bigger = b.to_set().insert(x);
        assert(bigger.subset_of(a.to_set())) by {
            assert forall|y: Seq<char>| bigger.contains(y) implies a.to_set().contains(y) by {
                if y != x {
                    assert(b.contains(y));
                }
            }
        }
        assert(!b.to_set().contains(x));
        lemma_len_subset(bigger, a.to_set());
        assert(bigger.len() == b.to_set().len() + 1);
    }
}

/// Law (stable keyset pages): the policy, the subject filter, the cursor and
/// the page size determine a listing's answer. Any two answers hold the same
/// roles in the same order and agree on whether more roles follow.
pub proof fn law_page_is_unique(
    s: ScopeModel,
    subject: Option<Seq<char>>,
    after: Option<Seq<char>>,
    limit: int,
    a: Seq<Seq<char>>,
    more_a: bool,
    b: Seq<Seq<char>>,
    more_b: bool,
)
    requires
        is_page(s, subject, after, limit, a, more_a),
        is_page(s, subject, after, limit, b, more_b),
    ensures
        a == b,
        more_a == more_b,
{
    assert forall|x: Seq<char>| a.contains(x) <==> b.contains(x) by {
        if a.contains(x) {
            lemma_page_contained(s, subject, after, limit, a, more_a, b, more_b, x);
        }
        if b.contains(x) {
            lemma_page_contained(s, subject, after, limit, b, more_b, a, more_a, x);
        }
    }
    lemma_sorted_unique(a, b);
}

/// Law (keyset continuity): when a page says more roles follow, the roles
/// listed after its last role are exactly the roles of the same listing that
/// the page left out, so consecutive pages neither skip nor repeat a role.
pub proof fn law_next_page_continues(
    s: ScopeModel,
    subject: Option<Seq<char>>,
    after: Option<Seq<char>>,
    limit: int,
    ids: Seq<Seq<char>>,
    r: Seq<char>,
)
    requires
        limit >= 1,
        is_page(s, subject, after, limit, ids, true),
    ensures
        ids.len() > 0,
        listed(s, subject, Some(ids.last()), r) <==> (listed(s, subject, after, r) && !ids.contains(r)),
{
    let w = choose|w: Seq<char>| #![trigger listed(s, subject, after, w)] listed(s, subject, after, w) && !ids.contains(w);
    assert(ids.len() == limit);
    let last = ids.last();
    assert(listed(s, subject, after, ids[ids.len() - 1]));
    if listed(s, subject, after, r) && !ids.contains(r) {
        assert(text_lt(ids[ids.len() - 1], r));
    }
    if listed(s, subject, Some(last), r) {
        assert(text_lt(last, r));
        if let Some(a) = after {
            lemma_text_lt_transitive(a, last, r);
        }
        if ids.contains(r) {
            let k = choose|k: int| 0 <= k < ids.len() && ids[k] == r;
            if k < ids.len() - 1 {
                assert(text_lt(ids[k], last));
                lemma_text_lt_asymmetric(r, last);
            } else {
                lemma_text_lt_irreflexive(r);
            }
        }
    }
}

/// Law (next cursor): when a listing answer says more roles follow, its next
/// cursor is the id of a role on the page that every other role on the page
/// sorts before, and listing from that cursor returns exactly the listed roles
/// that the page left out, so paging neither skips nor repeats a role.
pub proof fn law_listing_cursor_continues(
    roles: Seq<DirectoryRole>,
    next: Option<Seq<char>>,
    revision: Seq<char>,
    m: PolicyModel,
    scope: ScopeName,
    subject: Option<Seq<char>>,
    after: Option<Seq<char>>,
    limit: int,
    r: Seq<char>,
)
    requires
        listed_page(roles, next, revision, m, scope, subject, after, limit),
        limit >= 1,
        next is Some,
    ensures
        exists|i: int| 0 <= i < roles.len() && #[trigger] roles[i].role_id@ == next->Some_0,
        forall|i: int|
            0 <= i < roles.len() ==> #[trigger] roles[i].role_id@ == next->Some_0 || text_lt(
                roles[i].role_id@,
                next->Some_0,
            ),
        listed(m[scope], subject, next, r) <==> (listed(m[scope], subject, after, r) && !role_ids(
            roles,
        ).contains(r)),
{
    let ids = role_ids(roles);
    law_next_page_continues(m[scope], subject, after, limit, ids, r);
    assert(ids.len() == roles.len());
    let k = roles.len() - 1;
    assert(ids[k] == roles[k].role_id@);
    assert(next->Some_0 == roles[k].role_id@);
    assert forall|i: int| 0 <= i < roles.len() implies #[trigger] roles[i].role_id@ == next->Some_0
        || text_lt(roles[i].role_id@, next->Some_0) by {
        assert(ids[i] == roles[i].role_id@);
    }
}

/// Law (opaque alphabet): an opaque identifier may hold exactly the ASCII
/// letters of either case, the ASCII digits and `. _ - : /`.
pub proof fn law_opaque_alphabet(b: u8)
    ensures
        is_opaque_byte(b) <==> ((0x30 <= b && b <= 0x39) || (0x41 <= b && b <= 0x5a) || (0x61 <= b && b
            <= 0x7a) || b == 0x2e || b == 0x5f || b == 0x2d || b == 0x3a || b == 0x2f),
{
}

/// Law (subjects and role ids): a subject is any run of 1 to 512 bytes, and a
/// role id any run of 1 to 128 bytes, of ASCII letters of either case, ASCII
/// digits and `. _ - : /`.
pub proof fn law_subjects_and_role_ids(v: Seq<u8>)
    ensures
        is_subject(v) <==> (0 < v.len() <= 512 && forall|i: int|
            0 <= i < v.len() ==> #[trigger] opaque_ascii(v[i])),
        is_role_id(v) <==> (0 < v.len() <= 128 && forall|i: int|
            0 <= i < v.len() ==> #[trigger] opaque_ascii(v[i])),
        is_permission(v) <==> (0 < v.len() <= 200 && v.contains(0x2e) && forall|i: int|
            0 <= i < v.len() ==> #[trigger] opaque_ascii(v[i])),
{
    lemma_opaque_runs(v);
}

/// Every byte is from the opaque alphabet exactly when every byte is an ASCII
/// letter, digit or one of `. _ - : /`.
proof fn lemma_opaque_runs(v: Seq<u8>)
    ensures
        (forall|i: int| 0 <= i < v.len() ==> #[trigger] is_opaque_byte(v[i])) <==> (forall|i: int|
            0 <= i < v.len() ==> #[trigger] opaque_ascii(v[i])),
{
    if forall|i: int| 0 <= i < v.len() ==> #[trigger] is_opaque_byte(v[i]) {
        assert forall|i: int| 0 <= i < v.len() implies #[trigger] opaque_ascii(v[i]) by {
            assert(is_opaque_byte(v[i]));
            law_opaque_alphabet(v[i]);
        }
    }
    if forall|i: int| 0 <= i < v.len() ==> #[trigger] opaque_ascii(v[i]) {
        assert forall|i: int| 0 <= i < v.len() implies #[trigger] is_opaque_byte(v[i]) by {
            assert(opaque_ascii(v[i]));
            law_opaque_alphabet(v[i]);
        }
    }
}

/// ASCII letters of either case, ASCII digits and `. _ - : /`.
pub open spec fn opaque_ascii(b: u8) -> bool {
    ||| 0x30 <= b <= 0x39
    ||| 0x41 <= b <= 0x5a
    ||| 0x61 <= b <= 0x7a
    ||| b == 0x2e || b == 0x5f || b == 0x2d || b == 0x3a || b == 0x2f
}

/// Law (scope kinds): a scope kind is any run of 1 to 128 bytes of lower-case
/// ASCII letters, ASCII digits and `. _ -` whose first and last byte are a
/// lower-case letter or a digit; so `-` may stand anywhere inside it.
pub proof fn law_scope_kinds(v: Seq<u8>)
    ensures
        is_scope_kind(v) <==> {
            &&& 0 < v.len() <= 128
            &&& forall|i: int| 0 <= i < v.len() ==> #[trigger] kind_ascii(v[i])
            &&& (0x30 <= v[0] <= 0x39 || 0x61 <= v[0] <= 0x7a)
            &&& (0x30 <= v[v.len() - 1] <= 0x39 || 0x61 <= v[v.len() - 1] <= 0x7a)
        },
{
    if forall|i: int| 0 <= i < v.len() ==> #[trigger] is_scope_kind_byte(v[i]) {
        assert forall|i: int| 0 <= i < v.len() implies #[trigger] kind_ascii(v[i]) by {
            assert(is_scope_kind_byte(v[i]));
        }
        if v.len() > 0 {
            assert(is_scope_kind_byte(v[0]));
            assert(is_scope_kind_byte(v[v.len() - 1]));
        }
    }
    if forall|i: int| 0 <= i < v.len() ==> #[trigger] kind_ascii(v[i]) {
        assert forall|i: int| 0 <= i < v.len() implies #[trigger] is_scope_kind_byte(v[i]) by {
            assert(kind_ascii(v[i]));
        }
    }
}

/// Lower-case ASCII letters, ASCII digits and `. _ -`.
pub open spec fn kind_ascii(b: u8) -> bool {
    ||| 0x30 <= b <= 0x39
    ||| 0x61 <= b <= 0x7a
    ||| b == 0x2e || b == 0x5f || b == 0x2d
}

/// Law (grant replacement admission): a replacement that passes admission
/// holds only valid permissions, every one of them: each requested text is an
/// opaque identifier of at most 200 bytes holding a `.`.
pub proof fn law_admitted_grants_are_valid(actor: Option<Seq<char>>, request: SetRolePermissionsRequest, p: Seq<char>)
    requires
        admin_admission(actor, set_permissions_request_ok(request)) is Ok,
        texts(request.permissions@).contains(p),
    ensures
        0 < encode_utf8(p).len() <= 200,
        encode_utf8(p).contains(0x2e),
        forall|i: int| 0 <= i < encode_utf8(p).len() ==> #[trigger] opaque_ascii(encode_utf8(p)[i]),
{
    let t = texts(request.permissions@);
    let k = choose|k: int| 0 <= k < t.len() && t[k] == p;
    assert(permission_ok(t[k]));
    law_subjects_and_role_ids(encode_utf8(p));
}

} // verus!
