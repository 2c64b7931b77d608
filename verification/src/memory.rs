//! A verified in-memory policy store. It keeps every scope's roles in bytewise
//! order and implements each storage operation exactly as `model` specifies.
use vstd::prelude::*;
use crate::laws::{law_admin_preserves_policy_wf, law_bootstrap_preserves_policy_wf};
use crate::model::{
    admin_in, admin_step, bootstrap_permissions, bootstrap_step, decision, grants, initial_scope,
    is_page, listed, other_binding, policy_wf, role_lookup, scope_wf, strictly_sorted, without_role, AdminOp, PolicyModel, RoleModel, ScopeModel,
    ScopeName, StepResult,
};
use crate::storage::{
    overflows, page_reports, reports, role_ids, text_of, Bootstrap, Decision, DirectoryRole,
    DirectoryRolePage, DomainFailure, Mutation, ScopeKey, Store, BINDINGS_MANAGE_PERMISSION,
    BOOTSTRAP_ROLE_ID, BOOTSTRAP_ROLE_NAME, ROLES_MANAGE_PERMISSION,
};
use crate::text::{copy_texts, same_texts, compare_text, lemma_text_lt_transitive, same_text, text_lt, TextOrder};

verus! {

/// A role as the store holds it; `permissions` is strictly increasing bytewise.
pub struct RoleRecord {
    pub role_id: String,
    pub name: String,
    pub protected: bool,
    pub permissions: Vec<String>,
}

impl RoleRecord {
    pub open spec fn model(&self) -> RoleModel {
        RoleModel {
            name: self.name@,
            protected: self.protected,
            permissions: self.permissions@.map_values(|p: String| p@),
        }
    }
}

/// One `(subject, role_id)` binding.
pub struct BindingRecord {
    pub subject: String,
    pub role_id: String,
}

impl BindingRecord {
    pub open spec fn pair(&self) -> (Seq<char>, Seq<char>) {
        (self.subject@, self.role_id@)
    }
}

/// The stored policy of one bootstrapped scope.
pub struct ScopeRecord {
    pub kind: String,
    pub id: String,
    pub bootstrap_subject: String,
    pub revision: i64,
    pub roles: Vec<RoleRecord>,
    pub bindings: Vec<BindingRecord>,
}

/// Roles are held in strictly increasing bytewise order of their ids, and
/// they are exactly the roles of the model.
pub open spec fn roles_represent(rs: Seq<RoleRecord>, m: Map<Seq<char>, RoleModel>) -> bool {
    &&& forall|i: int|
        0 <= i < rs.len() ==> m.contains_key(#[trigger] rs[i].role_id@) && m[rs[i].role_id@]
            == rs[i].model()
    &&& forall|k: Seq<char>| #[trigger]
        m.contains_key(k) ==> exists|i: int| 0 <= i < rs.len() && #[trigger] rs[i].role_id@ == k
    &&& forall|i: int, j: int| 0 <= i < j < rs.len() ==> text_lt(rs[i].role_id@, rs[j].role_id@)
}

/// Bindings are held once each, and they are exactly the bindings of the model.
pub open spec fn bindings_represent(bs: Seq<BindingRecord>, s: Set<(Seq<char>, Seq<char>)>) -> bool {
    &&& forall|i: int| 0 <= i < bs.len() ==> s.contains(#[trigger] bs[i].pair())
    &&& forall|x: (Seq<char>, Seq<char>)| #[trigger]
        s.contains(x) ==> exists|i: int| 0 <= i < bs.len() && #[trigger] bs[i].pair() == x
    &&& forall|i: int, j: int| 0 <= i < j < bs.len() ==> bs[i].pair() != bs[j].pair()
}

impl ScopeRecord {
    pub open spec fn key(&self) -> ScopeName {
        (self.kind@, self.id@)
    }

    pub open spec fn represents(&self, sm: ScopeModel) -> bool {
        &&& self.bootstrap_subject@ == sm.bootstrap_subject
        &&& self.revision as int == sm.revision
        &&& roles_represent(self.roles@, sm.roles)
        &&& bindings_represent(self.bindings@, sm.bindings)
    }

    /// Finds the role `role_id`.
    fn find_role(&self, role_id: &str) -> (r: Option<usize>)
        requires
            forall|i: int, j: int|
                0 <= i < j < self.roles@.len() ==> text_lt(
                    self.roles@[i].role_id@,
                    self.roles@[j].role_id@,
                ),
        ensures
            r matches Some(i) ==> i < self.roles@.len() && self.roles@[i as int].role_id@
                == role_id@,
            r is None ==> forall|i: int|
                0 <= i < self.roles@.len() ==> #[trigger] self.roles@[i].role_id@ != role_id@,
    {
        let mut i: usize = 0;
        while i < self.roles.len()
            invariant
                i <= self.roles@.len(),
                forall|j: int| 0 <= j < i ==> #[trigger] self.roles@[j].role_id@ != role_id@,
            decreases self.roles@.len() - i,
        {
            if same_text(self.roles[i].role_id.as_str(), role_id) {
                return Some(i);
            }
            i = i + 1;
        }
        None
    }

    /// Whether `subject` is bound to `role_id`, and where.
    fn find_binding(&self, subject: &str, role_id: &str) -> (r: Option<usize>)
        ensures
            r matches Some(i) ==> i < self.bindings@.len() && self.bindings@[i as int].pair() == (
                subject@,
                role_id@,
            ),
            r is None ==> forall|i: int|
                0 <= i < self.bindings@.len() ==> #[trigger] self.bindings@[i].pair() != (
                    subject@,
                    role_id@,
                ),
    {
        let mut i: usize = 0;
        while i < self.bindings.len()
            invariant
                i <= self.bindings@.len(),
                forall|j: int|
                    0 <= j < i ==> #[trigger] self.bindings@[j].pair() != (subject@, role_id@),
            decreases self.bindings@.len() - i,
        {
            if same_text(self.bindings[i].subject.as_str(), subject) && same_text(
                self.bindings[i].role_id.as_str(),
                role_id,
            ) {
                return Some(i);
            }
            i = i + 1;
        }
        None
    }

    /// Whether `subject` holds `permission` through any bound role.
    fn grants(&self, subject: &str, permission: &str, Ghost(sm): Ghost<ScopeModel>) -> (r: bool)
        requires
            self.represents(sm),
        ensures
            r == grants(sm, subject@, permission@),
    {
        let mut i: usize = 0;
        while i < self.bindings.len()
            invariant
                i <= self.bindings@.len(),
                self.represents(sm),
                forall|j: int|
                    0 <= j < i && (#[trigger] self.bindings@[j]).subject@ == subject@
                        && sm.roles.contains_key(self.bindings@[j].role_id@) ==> !sm.roles[self.bindings@[j].role_id@].permissions.contains(
                        permission@,
                    ),
            decreases self.bindings@.len() - i,
        {
            let b = &self.bindings[i];
            if same_text(b.subject.as_str(), subject) {
                match self.find_role(b.role_id.as_str()) {
                    Some(ri) => {
                        if role_has_permission(&self.roles[ri], permission) {
                            assert(sm.bindings.contains(self.bindings@[i as int].pair()));
                            return true;
                        }
                    },
                    None => {
                        assert(!sm.roles.contains_key(self.bindings@[i as int].role_id@));
                    },
                }
            }
            i = i + 1;
        }
        assert forall|rr: Seq<char>|
            #![trigger sm.bindings.contains((subject@, rr))]
            sm.bindings.contains((subject@, rr)) && sm.roles.contains_key(rr) implies !sm.roles[rr].permissions.contains(
            permission@,
        ) by {
            let j = choose|j: int|
                0 <= j < self.bindings@.len() && #[trigger] self.bindings@[j].pair() == (
                    subject@,
                    rr,
                );
            assert(self.bindings@[j].subject@ == subject@);
        }
        false
    }
}

/// Whether a role grants `permission`.
fn role_has_permission(role: &RoleRecord, permission: &str) -> (r: bool)
    ensures
        r == role.model().permissions.contains(permission@),
{
    let mut i: usize = 0;
    while i < role.permissions.len()
        invariant
            i <= role.permissions@.len(),
            forall|j: int| 0 <= j < i ==> #[trigger] role.permissions@[j]@ != permission@,
        decreases role.permissions@.len() - i,
    {
        if same_text(role.permissions[i].as_str(), permission) {
            assert(role.model().permissions[i as int] == permission@);
            return true;
        }
        i = i + 1;
    }
    assert forall|k: int| 0 <= k < role.model().permissions.len() implies role.model().permissions[k]
        != permission@ by {
        assert(role.permissions@[k]@ != permission@);
    }
    false
}

/// Records and model agree scope by scope, keys are distinct, and every scope
/// satisfies the policy invariant.
pub open spec fn store_wf(scopes: Seq<ScopeRecord>, model: PolicyModel) -> bool {
    &&& forall|i: int|
        0 <= i < scopes.len() ==> model.contains_key(#[trigger] scopes[i].key())
            && scopes[i].represents(model[scopes[i].key()])
    &&& forall|k: ScopeName| #[trigger]
        model.contains_key(k) ==> exists|i: int| 0 <= i < scopes.len() && #[trigger] scopes[i].key() == k
    &&& forall|i: int, j: int| 0 <= i < j < scopes.len() ==> scopes[i].key() != scopes[j].key()
    &&& policy_wf(model)
}

proof fn lemma_store_update(
    scopes: Seq<ScopeRecord>,
    model: PolicyModel,
    idx: int,
    rec: ScopeRecord,
    sm: ScopeModel,
)
    requires
        store_wf(scopes, model),
        0 <= idx < scopes.len(),
        rec.key() == scopes[idx].key(),
        rec.represents(sm),
        policy_wf(model.insert(rec.key(), sm)),
    ensures
        store_wf(scopes.update(idx, rec), model.insert(rec.key(), sm)),
{
    let t = scopes.update(idx, rec);
    let n = model.insert(rec.key(), sm);
    assert forall|i: int| 0 <= i < t.len() implies n.contains_key(#[trigger] t[i].key()) && t[i].represents(n[t[i].key()]) by {
        if i != idx {
            assert(t[i] == scopes[i]);
            assert(scopes[i].key() != scopes[idx].key());
        }
    }
    assert forall|k: ScopeName| #[trigger] n.contains_key(k) implies exists|i: int| 0 <= i < t.len() && #[trigger] t[i].key() == k by {
        if k == rec.key() {
            assert(t[idx].key() == k);
        } else {
            let i = choose|i: int| 0 <= i < scopes.len() && #[trigger] scopes[i].key() == k;
            assert(t[i].key() == k);
        }
    }
}

proof fn lemma_store_add(scopes: Seq<ScopeRecord>, model: PolicyModel, rec: ScopeRecord, sm: ScopeModel)
    requires
        store_wf(scopes, model),
        !model.contains_key(rec.key()),
        rec.represents(sm),
        policy_wf(model.insert(rec.key(), sm)),
    ensures
        store_wf(scopes.push(rec), model.insert(rec.key(), sm)),
{
    let t = scopes.push(rec);
    let n = model.insert(rec.key(), sm);
    assert forall|i: int| 0 <= i < t.len() implies n.contains_key(#[trigger] t[i].key()) && t[i].represents(n[t[i].key()]) by {
        if i < scopes.len() {
            assert(t[i] == scopes[i]);
        }
    }
    assert forall|k: ScopeName| #[trigger] n.contains_key(k) implies exists|i: int| 0 <= i < t.len() && #[trigger] t[i].key() == k by {
        if k == rec.key() {
            assert(t[scopes.len() as int].key() == k);
        } else {
            let i = choose|i: int| 0 <= i < scopes.len() && #[trigger] scopes[i].key() == k;
            assert(t[i].key() == k);
        }
    }
    assert forall|i: int, j: int| 0 <= i < j < t.len() implies t[i].key() != t[j].key() by {
        if j == scopes.len() {
            assert(model.contains_key(scopes[i].key()));
        }
    }
}

/// The policy of every bootstrapped scope, held in memory.
pub struct PolicyStore {
    scopes: Vec<ScopeRecord>,
    model: Ghost<PolicyModel>,
}

impl PolicyStore {
    closed spec fn policy(&self) -> PolicyModel {
        self.model@
    }

    closed spec fn consistent(&self) -> bool {
        store_wf(self.scopes@, self.model@)
    }

    /// Law (invariant): a well-formed store holds a policy in which every
    /// scope keeps its protected bootstrap role, that role's two grants and
    /// at least one binding to it; every operation keeps the store well formed.
    pub proof fn law_store_policy_invariant(&self)
        requires
            self.well_formed(),
        ensures
            policy_wf(self.model()),
    {
    }

    /// An empty store: no scope holds any policy.
    pub fn new() -> (r: Self)
        ensures
            r.well_formed(),
            r.model() == Map::<ScopeName, ScopeModel>::empty(),
    {
        PolicyStore { scopes: Vec::new(), model: Ghost(Map::empty()) }
    }

    /// Finds the stored record of `scope`.
    fn find_scope(&self, scope: &ScopeKey) -> (r: Option<usize>)
        requires
            self.consistent(),
        ensures
            r matches Some(i) ==> i < self.scopes@.len() && self.scopes@[i as int].key()
                == scope.key(),
            r is None ==> !self.policy().contains_key(scope.key()),
    {
        let mut i: usize = 0;
        while i < self.scopes.len()
            invariant
                i <= self.scopes@.len(),
                forall|j: int| 0 <= j < i ==> #[trigger] self.scopes@[j].key() != scope.key(),
            decreases self.scopes@.len() - i,
        {
            if same_text(self.scopes[i].kind.as_str(), scope.kind.as_str()) && same_text(
                self.scopes[i].id.as_str(),
                scope.id.as_str(),
            ) {
                return Some(i);
            }
            i = i + 1;
        }
        None
    }

    /// Whether `subject` holds `permission` in `scope`, at the current revision.
    fn decide_permission(&self, scope: &ScopeKey, subject: &str, permission: &str) -> (r:
        Decision)
        requires
            self.consistent(),
        ensures
            (r.allowed, r.revision as int) == decision(
                self.policy(),
                scope.key(),
                subject@,
                permission@,
            ),
    {
        match self.find_scope(scope) {
            None => Decision { allowed: false, revision: 0 },
            Some(i) => {
                let ghost sm = self.model@[scope.key()];
                let allowed = self.scopes[i].grants(subject, permission, Ghost(sm));
                Decision { allowed, revision: self.scopes[i].revision }
            },
        }
    }
}



impl ScopeRecord {
    /// Locates `role_id`: `Ok(i)` when stored at `i`, else `Err(pos)`, the
    /// position that keeps the roles in bytewise order.
    fn locate_role(&self, role_id: &str) -> (r: Result<usize, usize>)
        requires
            forall|i: int, j: int|
                0 <= i < j < self.roles@.len() ==> text_lt(
                    self.roles@[i].role_id@,
                    self.roles@[j].role_id@,
                ),
        ensures
            r matches Ok(i) ==> i < self.roles@.len() && self.roles@[i as int].role_id@ == role_id@,
            r matches Err(pos) ==> {
                &&& pos <= self.roles@.len()
                &&& forall|i: int| 0 <= i < pos ==> text_lt(#[trigger] self.roles@[i].role_id@, role_id@)
                &&& forall|j: int|
                    pos <= j < self.roles@.len() ==> text_lt(role_id@, #[trigger] self.roles@[j].role_id@)
            },
    {
        let mut i: usize = 0;
        while i < self.roles.len()
            invariant
                i <= self.roles@.len(),
                forall|j: int| 0 <= j < i ==> text_lt(#[trigger] self.roles@[j].role_id@, role_id@),
                forall|a: int, b: int|
                    0 <= a < b < self.roles@.len() ==> text_lt(
                        self.roles@[a].role_id@,
                        self.roles@[b].role_id@,
                    ),
            decreases self.roles@.len() - i,
        {
            match compare_text(self.roles[i].role_id.as_str(), role_id) {
                TextOrder::Before => {},
                TextOrder::Same => {
                    return Ok(i);
                },
                TextOrder::After => {
                    assert forall|j: int| i <= j < self.roles@.len() implies text_lt(role_id@, #[trigger] self.roles@[j].role_id@) by {
                        if j > i {
                            lemma_text_lt_transitive(role_id@, self.roles@[i as int].role_id@, self.roles@[j].role_id@);
                        }
                    }
                    return Err(i);
                },
            }
            i = i + 1;
        }
        Err(i)
    }
}


/// A copy of a binding.
fn copy_binding(b: &BindingRecord) -> (r: BindingRecord)
    ensures
        r.pair() == b.pair(),
{
    BindingRecord { subject: b.subject.clone(), role_id: b.role_id.clone() }
}

/// The pairs of `bs[0..i]` whose role is not `role_id`.
spec fn kept_pairs(bs: Seq<BindingRecord>, i: int, role_id: Seq<char>) -> Set<(Seq<char>, Seq<char>)> {
    Set::new(|p: (Seq<char>, Seq<char>)| exists|j: int| 0 <= j < i && #[trigger] bs[j].pair() == p && p.1 != role_id)
}

/// The bindings that remain when `role_id` is deleted.
fn bindings_without_role(bs: &Vec<BindingRecord>, role_id: &str, Ghost(s): Ghost<Set<(Seq<char>, Seq<char>)>>) -> (r: Vec<BindingRecord>)
    requires
        bindings_represent(bs@, s),
    ensures
        bindings_represent(r@, without_role(s, role_id@)),
{
    let mut out: Vec<BindingRecord> = Vec::new();
    let mut i: usize = 0;
    assert(kept_pairs(bs@, 0, role_id@) =~= Set::empty());
    while i < bs.len()
        invariant
            i <= bs@.len(),
            bindings_represent(bs@, s),
            bindings_represent(out@, kept_pairs(bs@, i as int, role_id@)),
        decreases bs@.len() - i,
    {
        let ghost before = kept_pairs(bs@, i as int, role_id@);
        if !same_text(bs[i].role_id.as_str(), role_id) {
            let b = copy_binding(&bs[i]);
            proof {
                assert(!before.contains(b.pair())) by {
                    if before.contains(b.pair()) {
                        let j = choose|j: int| 0 <= j < i && #[trigger] bs@[j].pair() == b.pair() && b.pair().1 != role_id@;
                        assert(bs@[j].pair() != bs@[i as int].pair());
                    }
                }
                lemma_bindings_push(out@, before, b);
                assert(kept_pairs(bs@, i + 1, role_id@) =~= before.insert(b.pair())) by {
                    assert forall|p: (Seq<char>, Seq<char>)| #[trigger] kept_pairs(bs@, i + 1, role_id@).contains(p) implies before.insert(b.pair()).contains(p) by {
                        let j = choose|j: int| 0 <= j < i + 1 && #[trigger] bs@[j].pair() == p && p.1 != role_id@;
                        if j < i {
                            assert(before.contains(p));
                        }
                    }
                    assert forall|p: (Seq<char>, Seq<char>)| #[trigger] before.insert(b.pair()).contains(p) implies kept_pairs(bs@, i + 1, role_id@).contains(p) by {
                        if p == b.pair() {
                            assert(bs@[i as int].pair() == p);
                        } else {
                            let j = choose|j: int| 0 <= j < i && #[trigger] bs@[j].pair() == p && p.1 != role_id@;
                            assert(bs@[j].pair() == p);
                        }
                    }
                }
            }
            out.push(b);
        } else {
            proof {
                assert(kept_pairs(bs@, i + 1, role_id@) =~= before) by {
                    assert forall|p: (Seq<char>, Seq<char>)| #[trigger] kept_pairs(bs@, i + 1, role_id@).contains(p) implies before.contains(p) by {
                        let j = choose|j: int| 0 <= j < i + 1 && #[trigger] bs@[j].pair() == p && p.1 != role_id@;
                        if j < i {
                            assert(bs@[j].pair() == p);
                        }
                    }
                    assert forall|p: (Seq<char>, Seq<char>)| #[trigger] before.contains(p) implies kept_pairs(bs@, i + 1, role_id@).contains(p) by {
                        let j = choose|j: int| 0 <= j < i && #[trigger] bs@[j].pair() == p && p.1 != role_id@;
                        assert(bs@[j].pair() == p);
                    }
                }
            }
        }
        i = i + 1;
    }
    proof {
        assert(kept_pairs(bs@, bs@.len() as int, role_id@) =~= without_role(s, role_id@)) by {
            assert forall|p: (Seq<char>, Seq<char>)| #[trigger] without_role(s, role_id@).contains(p) implies kept_pairs(bs@, bs@.len() as int, role_id@).contains(p) by {
                let j = choose|j: int| 0 <= j < bs@.len() && #[trigger] bs@[j].pair() == p;
                assert(bs@[j].pair() == p);
            }
        }
    }
    out
}

impl ScopeRecord {
    /// Whether a subject other than `subject` is bound to `role_id`.
    fn has_other_binding(&self, subject: &str, role_id: &str, Ghost(sm): Ghost<ScopeModel>) -> (r: bool)
        requires
            self.represents(sm),
        ensures
            r == other_binding(sm, subject@, role_id@),
    {
        let mut i: usize = 0;
        while i < self.bindings.len()
            invariant
                i <= self.bindings@.len(),
                self.represents(sm),
                forall|j: int| 0 <= j < i ==> !((#[trigger] self.bindings@[j]).role_id@ == role_id@ && self.bindings@[j].subject@ != subject@),
            decreases self.bindings@.len() - i,
        {
            if same_text(self.bindings[i].role_id.as_str(), role_id) && !same_text(self.bindings[i].subject.as_str(), subject) {
                assert(sm.bindings.contains(self.bindings@[i as int].pair()));
                assert(self.bindings@[i as int].pair() == (self.bindings@[i as int].subject@, role_id@));
                return true;
            }
            i = i + 1;
        }
        assert forall|other: Seq<char>| #![trigger sm.bindings.contains((other, role_id@))] other != subject@ implies !sm.bindings.contains((other, role_id@)) by {
            if sm.bindings.contains((other, role_id@)) {
                let j = choose|j: int| 0 <= j < self.bindings@.len() && #[trigger] self.bindings@[j].pair() == (other, role_id@);
                assert(self.bindings@[j].role_id@ == role_id@);
            }
        }
        false
    }
}

/// A storage failure of the in-memory store.
#[derive(Clone, Copy, Debug, PartialEq, Eq, Structural)]
pub enum StoreError {
    /// The change would advance the scope revision past `i64::MAX`; nothing was written.
    RevisionOverflow,
}

proof fn lemma_roles_insert(rs: Seq<RoleRecord>, m: Map<Seq<char>, RoleModel>, pos: int, x: RoleRecord)
    requires
        roles_represent(rs, m),
        !m.contains_key(x.role_id@),
        0 <= pos <= rs.len(),
        forall|i: int| 0 <= i < pos ==> text_lt(#[trigger] rs[i].role_id@, x.role_id@),
        forall|j: int| pos <= j < rs.len() ==> text_lt(x.role_id@, #[trigger] rs[j].role_id@),
    ensures
        roles_represent(rs.insert(pos, x), m.insert(x.role_id@, x.model())),
{
    let t = rs.insert(pos, x);
    let n = m.insert(x.role_id@, x.model());
    assert forall|i: int| 0 <= i < t.len() implies n.contains_key(#[trigger] t[i].role_id@) && n[t[i].role_id@] == t[i].model() by {
        if i < pos {
            assert(t[i] == rs[i]);
            assert(rs[i].role_id@ != x.role_id@);
        } else if i > pos {
            assert(t[i] == rs[i - 1]);
            assert(rs[i - 1].role_id@ != x.role_id@);
        }
    }
    assert forall|k: Seq<char>| #[trigger] n.contains_key(k) implies exists|i: int| 0 <= i < t.len() && #[trigger] t[i].role_id@ == k by {
        if k == x.role_id@ {
            assert(t[pos].role_id@ == k);
        } else {
            let i = choose|i: int| 0 <= i < rs.len() && #[trigger] rs[i].role_id@ == k;
            if i < pos {
                assert(t[i].role_id@ == k);
            } else {
                assert(t[i + 1].role_id@ == k);
            }
        }
    }
    assert forall|i: int, j: int| 0 <= i < j < t.len() implies text_lt(t[i].role_id@, t[j].role_id@) by {
        if j < pos {
        } else if j == pos {
        } else if i < pos {
            lemma_text_lt_transitive(rs[i].role_id@, x.role_id@, rs[j - 1].role_id@);
        } else if i == pos {
        } else {
        }
    }
}

proof fn lemma_roles_update(rs: Seq<RoleRecord>, m: Map<Seq<char>, RoleModel>, k: int, x: RoleRecord)
    requires
        roles_represent(rs, m),
        0 <= k < rs.len(),
        x.role_id@ == rs[k].role_id@,
    ensures
        roles_represent(rs.update(k, x), m.insert(x.role_id@, x.model())),
{
    let t = rs.update(k, x);
    let n = m.insert(x.role_id@, x.model());
    assert forall|i: int| 0 <= i < t.len() implies n.contains_key(#[trigger] t[i].role_id@) && n[t[i].role_id@] == t[i].model() by {
        if i != k {
            assert(rs[i].role_id@ != x.role_id@) by {
                if i < k {
                } else {
                }
                crate::text::lemma_text_lt_irreflexive(x.role_id@);
            }
        }
    }
    assert forall|key: Seq<char>| #[trigger] n.contains_key(key) implies exists|i: int| 0 <= i < t.len() && #[trigger] t[i].role_id@ == key by {
        if key == x.role_id@ {
            assert(t[k].role_id@ == key);
        } else {
            let i = choose|i: int| 0 <= i < rs.len() && #[trigger] rs[i].role_id@ == key;
            assert(t[i].role_id@ == key);
        }
    }
}

proof fn lemma_roles_remove(rs: Seq<RoleRecord>, m: Map<Seq<char>, RoleModel>, k: int)
    requires
        roles_represent(rs, m),
        0 <= k < rs.len(),
    ensures
        roles_represent(rs.remove(k), m.remove(rs[k].role_id@)),
{
    let t = rs.remove(k);
    let n = m.remove(rs[k].role_id@);
    assert forall|i: int| 0 <= i < t.len() implies n.contains_key(#[trigger] t[i].role_id@) && n[t[i].role_id@] == t[i].model() by {
        crate::text::lemma_text_lt_irreflexive(rs[k].role_id@);
        if i < k {
            assert(t[i] == rs[i]);
            crate::text::lemma_text_lt_asymmetric(rs[i].role_id@, rs[k].role_id@);
        } else {
            assert(t[i] == rs[i + 1]);
            crate::text::lemma_text_lt_asymmetric(rs[k].role_id@, rs[i + 1].role_id@);
        }
    }
    assert forall|key: Seq<char>| #[trigger] n.contains_key(key) implies exists|i: int| 0 <= i < t.len() && #[trigger] t[i].role_id@ == key by {
        let i = choose|i: int| 0 <= i < rs.len() && #[trigger] rs[i].role_id@ == key;
        if i < k {
            assert(t[i].role_id@ == key);
        } else {
            assert(i != k);
            assert(t[i - 1].role_id@ == key);
        }
    }
}

proof fn lemma_bindings_push(bs: Seq<BindingRecord>, s: Set<(Seq<char>, Seq<char>)>, x: BindingRecord)
    requires
        bindings_represent(bs, s),
        !s.contains(x.pair()),
    ensures
        bindings_represent(bs.push(x), s.insert(x.pair())),
{
    let t = bs.push(x);
    assert forall|p: (Seq<char>, Seq<char>)| #[trigger] s.insert(x.pair()).contains(p) implies exists|i: int| 0 <= i < t.len() && #[trigger] t[i].pair() == p by {
        if p == x.pair() {
            assert(t[bs.len() as int].pair() == p);
        } else {
            let i = choose|i: int| 0 <= i < bs.len() && #[trigger] bs[i].pair() == p;
            assert(t[i].pair() == p);
        }
    }
    assert forall|i: int| 0 <= i < t.len() implies s.insert(x.pair()).contains(#[trigger] t[i].pair()) by {
        if i < bs.len() {
            assert(t[i] == bs[i]);
        }
    }
    assert forall|i: int, j: int| 0 <= i < j < t.len() implies t[i].pair() != t[j].pair() by {
        if j == bs.len() {
            assert(s.contains(bs[i].pair()));
        }
    }
}

proof fn lemma_bindings_remove(bs: Seq<BindingRecord>, s: Set<(Seq<char>, Seq<char>)>, k: int)
    requires
        bindings_represent(bs, s),
        0 <= k < bs.len(),
    ensures
        bindings_represent(bs.remove(k), s.remove(bs[k].pair())),
{
    let t = bs.remove(k);
    let x = bs[k].pair();
    assert forall|i: int| 0 <= i < t.len() implies s.remove(x).contains(#[trigger] t[i].pair()) by {
        if i < k {
            assert(t[i] == bs[i]);
        } else {
            assert(t[i] == bs[i + 1]);
        }
    }
    assert forall|p: (Seq<char>, Seq<char>)| #[trigger] s.remove(x).contains(p) implies exists|i: int| 0 <= i < t.len() && #[trigger] t[i].pair() == p by {
        let i = choose|i: int| 0 <= i < bs.len() && #[trigger] bs[i].pair() == p;
        if i < k {
            assert(t[i].pair() == p);
        } else {
            assert(t[i - 1].pair() == p);
        }
    }
    assert forall|i: int, j: int| 0 <= i < j < t.len() implies t[i].pair() != t[j].pair() by {
        let i0 = if i < k { i } else { i + 1 };
        let j0 = if j < k { j } else { j + 1 };
        assert(t[i] == bs[i0]);
        assert(t[j] == bs[j0]);
    }
}


impl PolicyStore {
    /// Bootstraps `scope` for `subject`: creates the protected bootstrap role,
    /// grants it role and binding administration, and binds `subject` to it.
    fn bootstrap(&mut self, scope: &ScopeKey, subject: &str) -> (r: Result<Bootstrap, DomainFailure>)
        requires
            old(self).consistent(),
        ensures
            final(self).consistent(),
            final(self).policy() == bootstrap_step(old(self).policy(), scope.key(), subject@).1,
            match (r, bootstrap_step(old(self).policy(), scope.key(), subject@).0) {
                (Ok(b), Ok((c, v))) => b.created == c && b.revision as int == v,
                (Err(f), Err(g)) => f == g,
                _ => false,
            },
    {
        match self.find_scope(scope) {
            Some(i) => {
                if same_text(self.scopes[i].bootstrap_subject.as_str(), subject) {
                    Ok(Bootstrap { created: false, revision: self.scopes[i].revision })
                } else {
                    Err(DomainFailure::ScopeAlreadyBootstrapped)
                }
            },
            None => {
                let role = RoleRecord {
                    role_id: BOOTSTRAP_ROLE_ID.to_owned(),
                    name: BOOTSTRAP_ROLE_NAME.to_owned(),
                    protected: true,
                    permissions: vec![
                        BINDINGS_MANAGE_PERMISSION.to_owned(),
                        ROLES_MANAGE_PERMISSION.to_owned(),
                    ],
                };
                let binding = BindingRecord {
                    subject: subject.to_owned(),
                    role_id: BOOTSTRAP_ROLE_ID.to_owned(),
                };
                let rec = ScopeRecord {
                    kind: scope.kind.clone(),
                    id: scope.id.clone(),
                    bootstrap_subject: subject.to_owned(),
                    revision: 1,
                    roles: vec![role],
                    bindings: vec![binding],
                };
                let ghost sm = initial_scope(subject@);
                proof {
                    assert(rec.roles@[0].model().permissions =~= bootstrap_permissions());
                    assert forall|k: Seq<char>| #[trigger] sm.roles.contains_key(k) implies exists|i: int| 0 <= i < rec.roles@.len() && #[trigger] rec.roles@[i].role_id@ == k by {
                        assert(rec.roles@[0].role_id@ == k);
                    }
                    assert(roles_represent(rec.roles@, sm.roles));
                    assert forall|x: (Seq<char>, Seq<char>)| #[trigger] sm.bindings.contains(x) implies exists|i: int| 0 <= i < rec.bindings@.len() && #[trigger] rec.bindings@[i].pair() == x by {
                        assert(rec.bindings@[0].pair() == x);
                    }
                    assert(bindings_represent(rec.bindings@, sm.bindings));
                    law_bootstrap_preserves_policy_wf(self.model@, scope.key(), subject@);
                    lemma_store_add(self.scopes@, self.model@, rec, sm);
                }
                self.scopes.push(rec);
                self.model = Ghost(self.model@.insert(scope.key(), sm));
                Ok(Bootstrap { created: true, revision: 1 })
            },
        }
    }

    /// Creates an ordinary role with no grants.
    fn insert_role(&mut self, scope: &ScopeKey, actor: &str, role_id: &str, name: &str) -> (r:
        Result<Result<Mutation, DomainFailure>, StoreError>)
        requires
            old(self).consistent(),
        ensures
            final(self).consistent(),
            ({
                let step = admin_step(
                    old(self).policy(),
                    scope.key(),
                    AdminOp::CreateRole { actor: actor@, role_id: role_id@, name: name@ },
                );
                match r {
                    Ok(o) => reports(o, step.0) && final(self).policy() == step.1,
                    Err(_) => overflows(step.0) && final(self).policy() == old(self).policy(),
                }
            }),
            r is Err <==> overflows(
                admin_step(
                    old(self).policy(),
                    scope.key(),
                    AdminOp::CreateRole { actor: actor@, role_id: role_id@, name: name@ },
                ).0,
            ),
    {
        let ghost op = AdminOp::CreateRole { actor: actor@, role_id: role_id@, name: name@ };
        let idx = match self.find_scope(scope) {
            None => return Ok(Err(DomainFailure::ScopeNotBootstrapped)),
            Some(i) => i,
        };
        let ghost sm = self.model@[scope.key()];
        if !self.scopes[idx].grants(actor, ROLES_MANAGE_PERMISSION, Ghost(sm)) {
            proof { assert(self.model@.insert(scope.key(), sm) =~= self.model@); }
            return Ok(Err(DomainFailure::Forbidden));
        }
        let pos = match self.scopes[idx].locate_role(role_id) {
            Ok(_) => {
                proof { assert(self.model@.insert(scope.key(), sm) =~= self.model@); }
                return Ok(Err(DomainFailure::RoleAlreadyExists));
            },
            Err(p) => p,
        };
        proof {
            assert(!sm.roles.contains_key(role_id@)) by {
                if sm.roles.contains_key(role_id@) {
                    let k = choose|k: int| 0 <= k < self.scopes@[idx as int].roles@.len() && #[trigger] self.scopes@[idx as int].roles@[k].role_id@ == role_id@;
                    crate::text::lemma_text_lt_irreflexive(role_id@);
                    if k < pos {
                        assert(text_lt(self.scopes@[idx as int].roles@[k].role_id@, role_id@));
                    } else {
                        assert(text_lt(role_id@, self.scopes@[idx as int].roles@[k].role_id@));
                    }
                }
            }
        }
        if self.scopes[idx].revision == i64::MAX {
            return Err(StoreError::RevisionOverflow);
        }
        let ghost old_scopes = self.scopes@;
        let ghost old_model = self.model@;
        let ghost tm = admin_in(sm, op).1;
        let mut rec = self.scopes.remove(idx);
        let role = RoleRecord {
            role_id: role_id.to_owned(),
            name: name.to_owned(),
            protected: false,
            permissions: Vec::new(),
        };
        proof {
            lemma_roles_insert(rec.roles@, sm.roles, pos as int, role);
            assert(role.model().permissions =~= Seq::<Seq<char>>::empty());
            assert(role.model() == (RoleModel { name: name@, protected: false, permissions: Seq::empty() }));
        }
        rec.roles.insert(pos, role);
        rec.revision = rec.revision + 1;
        proof {
            assert(rec.represents(tm));
            law_admin_preserves_policy_wf(old_model, scope.key(), op);
            assert(old_scopes.remove(idx as int).insert(idx as int, rec) =~= old_scopes.update(idx as int, rec));
            lemma_store_update(old_scopes, old_model, idx as int, rec, tm);
        }
        self.scopes.insert(idx, rec);
        self.model = Ghost(old_model.insert(scope.key(), tm));
        Ok(Ok(Mutation { changed: true, revision: self.scopes[idx].revision }))
    }
}


impl PolicyStore {
    /// Binds `subject` to an existing role; binding an already bound pair is a no-op.
    fn bind_role(&mut self, scope: &ScopeKey, actor: &str, subject: &str, role_id: &str) -> (r:
        Result<Result<Mutation, DomainFailure>, StoreError>)
        requires
            old(self).consistent(),
        ensures
            final(self).consistent(),
            ({
                let step = admin_step(old(self).policy(), scope.key(), AdminOp::AssignRole { actor: actor@, subject: subject@, role_id: role_id@ });
                match r {
                    Ok(o) => reports(o, step.0) && final(self).policy() == step.1,
                    Err(_) => overflows(step.0) && final(self).policy() == old(self).policy(),
                }
            }),
            r is Err <==> overflows(admin_step(old(self).policy(), scope.key(), AdminOp::AssignRole { actor: actor@, subject: subject@, role_id: role_id@ }).0),
    {
        let ghost op = AdminOp::AssignRole { actor: actor@, subject: subject@, role_id: role_id@ };
        let idx = match self.find_scope(scope) {
            None => return Ok(Err(DomainFailure::ScopeNotBootstrapped)),
            Some(i) => i,
        };
        let ghost sm = self.model@[scope.key()];
        proof { assert(self.model@.insert(scope.key(), sm) =~= self.model@); }
        if !self.scopes[idx].grants(actor, BINDINGS_MANAGE_PERMISSION, Ghost(sm)) {
            return Ok(Err(DomainFailure::Forbidden));
        }
        let ri = match self.scopes[idx].find_role(role_id) {
            None => {
                proof {
                    if sm.roles.contains_key(role_id@) {
                        let k = choose|k: int| 0 <= k < self.scopes@[idx as int].roles@.len() && #[trigger] self.scopes@[idx as int].roles@[k].role_id@ == role_id@;
                    }
                }
                return Ok(Err(DomainFailure::RoleNotFound));
            },
            Some(k) => k,
        };
        match self.scopes[idx].find_binding(subject, role_id) {
            Some(bi) => {
                assert(sm.bindings.contains(self.scopes@[idx as int].bindings@[bi as int].pair()));
                return Ok(Ok(Mutation { changed: false, revision: self.scopes[idx].revision }));
            },
            None => {
                proof {
                    if sm.bindings.contains((subject@, role_id@)) {
                        let k = choose|k: int| 0 <= k < self.scopes@[idx as int].bindings@.len() && #[trigger] self.scopes@[idx as int].bindings@[k].pair() == (subject@, role_id@);
                    }
                }
            },
        }
        if self.scopes[idx].revision == i64::MAX {
            return Err(StoreError::RevisionOverflow);
        }
        let ghost old_scopes = self.scopes@;
        let ghost old_model = self.model@;
        let ghost tm = admin_in(sm, op).1;
        let mut rec = self.scopes.remove(idx);
        let binding = BindingRecord { subject: subject.to_owned(), role_id: role_id.to_owned() };
        proof {
            lemma_bindings_push(rec.bindings@, sm.bindings, binding);
        }
        rec.bindings.push(binding);
        rec.revision = rec.revision + 1;
        proof {
            law_admin_preserves_policy_wf(old_model, scope.key(), op);
            assert(old_scopes.remove(idx as int).insert(idx as int, rec) =~= old_scopes.update(idx as int, rec));
            lemma_store_update(old_scopes, old_model, idx as int, rec, tm);
        }
        self.scopes.insert(idx, rec);
        self.model = Ghost(old_model.insert(scope.key(), tm));
        Ok(Ok(Mutation { changed: true, revision: self.scopes[idx].revision }))
    }

    /// Unbinds `subject` from a role. Unbinding an absent pair is a no-op; the
    /// last binding of the protected bootstrap role cannot be removed.
    fn unbind_role(&mut self, scope: &ScopeKey, actor: &str, subject: &str, role_id: &str) -> (r:
        Result<Result<Mutation, DomainFailure>, StoreError>)
        requires
            old(self).consistent(),
        ensures
            final(self).consistent(),
            ({
                let step = admin_step(old(self).policy(), scope.key(), AdminOp::RevokeRole { actor: actor@, subject: subject@, role_id: role_id@ });
                match r {
                    Ok(o) => reports(o, step.0) && final(self).policy() == step.1,
                    Err(_) => overflows(step.0) && final(self).policy() == old(self).policy(),
                }
            }),
            r is Err <==> overflows(admin_step(old(self).policy(), scope.key(), AdminOp::RevokeRole { actor: actor@, subject: subject@, role_id: role_id@ }).0),
    {
        let ghost op = AdminOp::RevokeRole { actor: actor@, subject: subject@, role_id: role_id@ };
        let idx = match self.find_scope(scope) {
            None => return Ok(Err(DomainFailure::ScopeNotBootstrapped)),
            Some(i) => i,
        };
        let ghost sm = self.model@[scope.key()];
        proof { assert(self.model@.insert(scope.key(), sm) =~= self.model@); }
        if !self.scopes[idx].grants(actor, BINDINGS_MANAGE_PERMISSION, Ghost(sm)) {
            return Ok(Err(DomainFailure::Forbidden));
        }
        let ri = match self.scopes[idx].find_role(role_id) {
            None => {
                proof {
                    if sm.roles.contains_key(role_id@) {
                        let k = choose|k: int| 0 <= k < self.scopes@[idx as int].roles@.len() && #[trigger] self.scopes@[idx as int].roles@[k].role_id@ == role_id@;
                    }
                }
                return Ok(Err(DomainFailure::RoleNotFound));
            },
            Some(k) => k,
        };
        let bi = match self.scopes[idx].find_binding(subject, role_id) {
            Some(k) => k,
            None => {
                proof {
                    if sm.bindings.contains((subject@, role_id@)) {
                        let k = choose|k: int| 0 <= k < self.scopes@[idx as int].bindings@.len() && #[trigger] self.scopes@[idx as int].bindings@[k].pair() == (subject@, role_id@);
                    }
                }
                return Ok(Ok(Mutation { changed: false, revision: self.scopes[idx].revision }));
            },
        };
        assert(sm.bindings.contains(self.scopes@[idx as int].bindings@[bi as int].pair()));
        if self.scopes[idx].roles[ri].protected && !self.scopes[idx].has_other_binding(subject, role_id, Ghost(sm)) {
            return Ok(Err(DomainFailure::ProtectedBinding));
        }
        if self.scopes[idx].revision == i64::MAX {
            return Err(StoreError::RevisionOverflow);
        }
        let ghost old_scopes = self.scopes@;
        let ghost old_model = self.model@;
        let ghost tm = admin_in(sm, op).1;
        let mut rec = self.scopes.remove(idx);
        proof {
            lemma_bindings_remove(rec.bindings@, sm.bindings, bi as int);
        }
        rec.bindings.remove(bi);
        rec.revision = rec.revision + 1;
        proof {
            law_admin_preserves_policy_wf(old_model, scope.key(), op);
            assert(old_scopes.remove(idx as int).insert(idx as int, rec) =~= old_scopes.update(idx as int, rec));
            lemma_store_update(old_scopes, old_model, idx as int, rec, tm);
        }
        self.scopes.insert(idx, rec);
        self.model = Ghost(old_model.insert(scope.key(), tm));
        Ok(Ok(Mutation { changed: true, revision: self.scopes[idx].revision }))
    }

    /// Deletes an ordinary role together with its grants and bindings.
    fn remove_role(&mut self, scope: &ScopeKey, actor: &str, role_id: &str) -> (r:
        Result<Result<Mutation, DomainFailure>, StoreError>)
        requires
            old(self).consistent(),
        ensures
            final(self).consistent(),
            ({
                let step = admin_step(old(self).policy(), scope.key(), AdminOp::DeleteRole { actor: actor@, role_id: role_id@ });
                match r {
                    Ok(o) => reports(o, step.0) && final(self).policy() == step.1,
                    Err(_) => overflows(step.0) && final(self).policy() == old(self).policy(),
                }
            }),
            r is Err <==> overflows(admin_step(old(self).policy(), scope.key(), AdminOp::DeleteRole { actor: actor@, role_id: role_id@ }).0),
    {
        let ghost op = AdminOp::DeleteRole { actor: actor@, role_id: role_id@ };
        let idx = match self.find_scope(scope) {
            None => return Ok(Err(DomainFailure::ScopeNotBootstrapped)),
            Some(i) => i,
        };
        let ghost sm = self.model@[scope.key()];
        proof { assert(self.model@.insert(scope.key(), sm) =~= self.model@); }
        if !self.scopes[idx].grants(actor, ROLES_MANAGE_PERMISSION, Ghost(sm)) {
            return Ok(Err(DomainFailure::Forbidden));
        }
        let ri = match self.scopes[idx].find_role(role_id) {
            None => {
                proof {
                    if sm.roles.contains_key(role_id@) {
                        let k = choose|k: int| 0 <= k < self.scopes@[idx as int].roles@.len() && #[trigger] self.scopes@[idx as int].roles@[k].role_id@ == role_id@;
                    }
                }
                return Ok(Err(DomainFailure::RoleNotFound));
            },
            Some(k) => k,
        };
        if self.scopes[idx].roles[ri].protected {
            return Ok(Err(DomainFailure::ProtectedRole));
        }
        if self.scopes[idx].revision == i64::MAX {
            return Err(StoreError::RevisionOverflow);
        }
        let ghost old_scopes = self.scopes@;
        let ghost old_model = self.model@;
        let ghost tm = admin_in(sm, op).1;
        let mut rec = self.scopes.remove(idx);
        let kept = bindings_without_role(&rec.bindings, role_id, Ghost(sm.bindings));
        proof {
            lemma_roles_remove(rec.roles@, sm.roles, ri as int);
        }
        rec.roles.remove(ri);
        rec.bindings = kept;
        rec.revision = rec.revision + 1;
        proof {
            law_admin_preserves_policy_wf(old_model, scope.key(), op);
            assert(old_scopes.remove(idx as int).insert(idx as int, rec) =~= old_scopes.update(idx as int, rec));
            lemma_store_update(old_scopes, old_model, idx as int, rec, tm);
        }
        self.scopes.insert(idx, rec);
        self.model = Ghost(old_model.insert(scope.key(), tm));
        Ok(Ok(Mutation { changed: true, revision: self.scopes[idx].revision }))
    }

    /// Replaces the grants of an ordinary role; the same grants are a no-op.
    fn replace_grants(&mut self, scope: &ScopeKey, actor: &str, role_id: &str, permissions: &Vec<String>) -> (r:
        Result<Result<Mutation, DomainFailure>, StoreError>)
        requires
            old(self).consistent(),
            strictly_sorted(permissions@.map_values(|p: String| p@)),
        ensures
            final(self).consistent(),
            ({
                let step = admin_step(old(self).policy(), scope.key(), AdminOp::SetRolePermissions { actor: actor@, role_id: role_id@, permissions: permissions@.map_values(|p: String| p@) });
                match r {
                    Ok(o) => reports(o, step.0) && final(self).policy() == step.1,
                    Err(_) => overflows(step.0) && final(self).policy() == old(self).policy(),
                }
            }),
            r is Err <==> overflows(admin_step(old(self).policy(), scope.key(), AdminOp::SetRolePermissions { actor: actor@, role_id: role_id@, permissions: permissions@.map_values(|p: String| p@) }).0),
    {
        let ghost op = AdminOp::SetRolePermissions { actor: actor@, role_id: role_id@, permissions: permissions@.map_values(|p: String| p@) };
        let idx = match self.find_scope(scope) {
            None => return Ok(Err(DomainFailure::ScopeNotBootstrapped)),
            Some(i) => i,
        };
        let ghost sm = self.model@[scope.key()];
        proof { assert(self.model@.insert(scope.key(), sm) =~= self.model@); }
        if !self.scopes[idx].grants(actor, ROLES_MANAGE_PERMISSION, Ghost(sm)) {
            return Ok(Err(DomainFailure::Forbidden));
        }
        let ri = match self.scopes[idx].find_role(role_id) {
            None => {
                proof {
                    if sm.roles.contains_key(role_id@) {
                        let k = choose|k: int| 0 <= k < self.scopes@[idx as int].roles@.len() && #[trigger] self.scopes@[idx as int].roles@[k].role_id@ == role_id@;
                    }
                }
                return Ok(Err(DomainFailure::RoleNotFound));
            },
            Some(k) => k,
        };
        if self.scopes[idx].roles[ri].protected {
            return Ok(Err(DomainFailure::ProtectedRole));
        }
        if same_texts(&self.scopes[idx].roles[ri].permissions, permissions) {
            return Ok(Ok(Mutation { changed: false, revision: self.scopes[idx].revision }));
        }
        if self.scopes[idx].revision == i64::MAX {
            return Err(StoreError::RevisionOverflow);
        }
        let role = RoleRecord {
            role_id: self.scopes[idx].roles[ri].role_id.clone(),
            name: self.scopes[idx].roles[ri].name.clone(),
            protected: false,
            permissions: copy_texts(permissions),
        };
        let ghost old_scopes = self.scopes@;
        let ghost old_model = self.model@;
        let ghost tm = admin_in(sm, op).1;
        let mut rec = self.scopes.remove(idx);
        proof {
            lemma_roles_update(rec.roles@, sm.roles, ri as int, role);
        }
        rec.roles.set(ri, role);
        rec.revision = rec.revision + 1;
        proof {
            law_admin_preserves_policy_wf(old_model, scope.key(), op);
            assert(old_scopes.remove(idx as int).insert(idx as int, rec) =~= old_scopes.update(idx as int, rec));
            lemma_store_update(old_scopes, old_model, idx as int, rec, tm);
        }
        self.scopes.insert(idx, rec);
        self.model = Ghost(old_model.insert(scope.key(), tm));
        Ok(Ok(Mutation { changed: true, revision: self.scopes[idx].revision }))
    }
}


/// The directory projection of a stored role.
fn project_role(role: &RoleRecord) -> (r: DirectoryRole)
    ensures
        r.role_id@ == role.role_id@,
        r.model() == role.model(),
{
    DirectoryRole {
        role_id: role.role_id.clone(),
        name: role.name.clone(),
        protected: role.protected,
        permissions: copy_texts(&role.permissions),
    }
}

impl PolicyStore {
    /// The role `role_id` of `scope` and the scope's revision.
    fn lookup_role(&self, scope: &ScopeKey, role_id: &str) -> (r: Result<(DirectoryRole, i64), DomainFailure>)
        requires
            self.consistent(),
        ensures
            match (r, role_lookup(self.policy(), scope.key(), role_id@)) {
                (Ok((d, v)), Ok((m, w))) => d.role_id@ == role_id@ && d.model() == m && v as int == w,
                (Err(f), Err(g)) => f == g,
                _ => false,
            },
    {
        let idx = match self.find_scope(scope) {
            None => return Err(DomainFailure::ScopeNotBootstrapped),
            Some(i) => i,
        };
        let ghost sm = self.model@[scope.key()];
        match self.scopes[idx].find_role(role_id) {
            None => {
                proof {
                    if sm.roles.contains_key(role_id@) {
                        let k = choose|k: int| 0 <= k < self.scopes@[idx as int].roles@.len() && #[trigger] self.scopes@[idx as int].roles@[k].role_id@ == role_id@;
                    }
                }
                Err(DomainFailure::RoleNotFound)
            },
            Some(ri) => {
                let d = project_role(&self.scopes[idx].roles[ri]);
                Ok((d, self.scopes[idx].revision))
            },
        }
    }

    /// A keyset page of the roles of `scope`: those bound to `subject` when one
    /// is given, after `after` when one is given, at most `limit`, in bytewise order.
    fn list_page(
        &self,
        scope: &ScopeKey,
        subject: Option<&str>,
        after: Option<&str>,
        limit: usize,
    ) -> (r: Result<DirectoryRolePage, DomainFailure>)
        requires
            self.consistent(),
        ensures
            match r {
                Ok(p) => self.policy().contains_key(scope.key()) && page_reports(
                    p,
                    self.policy()[scope.key()],
                    text_of(subject),
                    text_of(after),
                    limit as int,
                ),
                Err(f) => f == DomainFailure::ScopeNotBootstrapped && !self.policy().contains_key(
                    scope.key(),
                ),
            },
    {
        let idx = match self.find_scope(scope) {
            None => return Err(DomainFailure::ScopeNotBootstrapped),
            Some(i) => i,
        };
        let ghost sm = self.model@[scope.key()];
        let ghost who = text_of(subject);
        let ghost cursor = text_of(after);
        let rec = &self.scopes[idx];
        let ghost rs = rec.roles@;
        let mut out: Vec<DirectoryRole> = Vec::new();
        let mut has_more = false;
        let mut i: usize = 0;
        while i < rec.roles.len()
            invariant_except_break
                !has_more,
            invariant
                i <= rs.len(),
                rs == rec.roles@,
                rec.represents(sm),
                who == text_of(subject),
                cursor == text_of(after),
                out@.len() <= limit,
                strictly_sorted(role_ids(out@)),
                forall|k: int| 0 <= k < out@.len() ==> listed(sm, who, cursor, #[trigger] out@[k].role_id@)
                    && out@[k].model() == sm.roles[out@[k].role_id@],
                forall|k: int, j: int| 0 <= k < out@.len() && i <= j < rs.len() ==> text_lt(#[trigger] out@[k].role_id@, #[trigger] rs[j].role_id@),
                forall|j: int| 0 <= j < i && listed(sm, who, cursor, #[trigger] rs[j].role_id@) ==> role_ids(out@).contains(rs[j].role_id@),
            ensures
                has_more ==> i < rs.len() && out@.len() == limit && listed(sm, who, cursor, rs[i as int].role_id@),
                !has_more ==> i == rs.len(),
            decreases rs.len() - i,
        {
            let role = &rec.roles[i];
            let bound = match subject {
                Some(s) => rec.find_binding(s, role.role_id.as_str()).is_some(),
                None => true,
            };
            let past = match after {
                Some(a) => compare_text(a, role.role_id.as_str()) == TextOrder::Before,
                None => true,
            };
            proof {
                assert(sm.roles.contains_key(rs[i as int].role_id@));
                match subject {
                    Some(s) => {
                        if sm.bindings.contains((s@, rs[i as int].role_id@)) {
                            let k = choose|k: int| 0 <= k < rec.bindings@.len() && #[trigger] rec.bindings@[k].pair() == (s@, rs[i as int].role_id@);
                        }
                    },
                    None => {},
                }
            }
            if bound && past {
                if out.len() == limit {
                    has_more = true;
                    break;
                }
                let d = project_role(role);
                let ghost before = out@;
                out.push(d);
                proof {
                    assert(role_ids(out@) =~= role_ids(before).push(d.role_id@));
                    assert forall|k: int, j: int| 0 <= k < out@.len() && i + 1 <= j < rs.len() implies text_lt(#[trigger] out@[k].role_id@, #[trigger] rs[j].role_id@) by {
                        if k < before.len() {
                            assert(out@[k] == before[k]);
                        }
                    }
                    assert forall|j: int| 0 <= j < i + 1 && listed(sm, who, cursor, #[trigger] rs[j].role_id@) implies role_ids(out@).contains(rs[j].role_id@) by {
                        if j < i {
                            let k = choose|k: int| 0 <= k < role_ids(before).len() && role_ids(before)[k] == rs[j].role_id@;
                            assert(role_ids(out@)[k] == rs[j].role_id@);
                        } else {
                            assert(role_ids(out@)[before.len() as int] == rs[j].role_id@);
                        }
                    }
                }
            } else {
                proof {
                    assert forall|k: int, j: int| 0 <= k < out@.len() && i + 1 <= j < rs.len() implies text_lt(#[trigger] out@[k].role_id@, #[trigger] rs[j].role_id@) by {
                    }
                }
            }
            i = i + 1;
        }
        let ghost ids = role_ids(out@);
        proof {
            assert forall|r: Seq<char>| #![trigger listed(sm, who, cursor, r)] listed(sm, who, cursor, r) && !ids.contains(r) implies ids.len() == limit && forall|k: int| 0 <= k < ids.len() ==> text_lt(#[trigger] ids[k], r) by {
                let j = choose|j: int| 0 <= j < rs.len() && #[trigger] rs[j].role_id@ == r;
                if j < i {
                    assert(listed(sm, who, cursor, rs[j].role_id@));
                } else {
                    assert forall|k: int| 0 <= k < ids.len() implies text_lt(#[trigger] ids[k], r) by {
                        assert(ids[k] == out@[k].role_id@);
                    }
                }
            }
            if has_more {
                let r = rs[i as int].role_id@;
                assert(!ids.contains(r)) by {
                    if ids.contains(r) {
                        let k = choose|k: int| 0 <= k < ids.len() && ids[k] == r;
                        assert(ids[k] == out@[k].role_id@);
                        crate::text::lemma_text_lt_irreflexive(r);
                    }
                }
            }
            assert(forall|k: int| 0 <= k < ids.len() ==> listed(sm, who, cursor, #[trigger] ids[k])) by {
                assert forall|k: int| 0 <= k < ids.len() implies listed(sm, who, cursor, #[trigger] ids[k]) by {
                    assert(ids[k] == out@[k].role_id@);
                }
            }
        }
        Ok(DirectoryRolePage { roles: out, revision: rec.revision, has_more })
    }
}


impl Store for PolicyStore {
    type Error = StoreError;

    closed spec fn model(&self) -> PolicyModel {
        self.model@
    }

    closed spec fn well_formed(&self) -> bool {
        store_wf(self.scopes@, self.model@)
    }

    fn check_permission(&self, scope: &ScopeKey, subject: &str, permission: &str) -> (res: Result<Decision, StoreError>)
        ensures
            res matches Ok(_),
    {
        Ok(PolicyStore::decide_permission(self, scope, subject, permission))
    }

    fn get_role(&self, scope: &ScopeKey, role_id: &str) -> (res: Result<Result<(DirectoryRole, i64), DomainFailure>, StoreError>)
        ensures
            res matches Ok(_),
    {
        Ok(PolicyStore::lookup_role(self, scope, role_id))
    }

    fn list_roles(&self, scope: &ScopeKey, after_role_id: Option<&str>, limit: usize) -> (res: Result<Result<DirectoryRolePage, DomainFailure>, StoreError>)
        ensures
            res matches Ok(_),
    {
        Ok(self.list_page(scope, None, after_role_id, limit))
    }

    fn list_subject_roles(&self, scope: &ScopeKey, subject: &str, after_role_id: Option<&str>, limit: usize) -> (res: Result<Result<DirectoryRolePage, DomainFailure>, StoreError>)
        ensures
            res matches Ok(_),
    {
        Ok(self.list_page(scope, Some(subject), after_role_id, limit))
    }

    fn bootstrap_scope(&mut self, scope: &ScopeKey, subject: &str) -> (res: Result<Result<Bootstrap, DomainFailure>, StoreError>)
        ensures
            res matches Ok(_),
    {
        Ok(PolicyStore::bootstrap(self, scope, subject))
    }

    fn create_role(&mut self, scope: &ScopeKey, actor: &str, role_id: &str, name: &str) -> (res: Result<Result<Mutation, DomainFailure>, StoreError>)
        ensures
            res is Err <==> overflows(admin_step(old(self).model(), scope.key(), AdminOp::CreateRole { actor: actor@, role_id: role_id@, name: name@ }).0),
    {
        PolicyStore::insert_role(self, scope, actor, role_id, name)
    }

    fn set_role_permissions(&mut self, scope: &ScopeKey, actor: &str, role_id: &str, permissions: &Vec<String>) -> (res: Result<Result<Mutation, DomainFailure>, StoreError>)
        ensures
            res is Err <==> overflows(admin_step(old(self).model(), scope.key(), AdminOp::SetRolePermissions { actor: actor@, role_id: role_id@, permissions: permissions@.map_values(|p: String| p@) }).0),
    {
        PolicyStore::replace_grants(self, scope, actor, role_id, permissions)
    }

    fn delete_role(&mut self, scope: &ScopeKey, actor: &str, role_id: &str) -> (res: Result<Result<Mutation, DomainFailure>, StoreError>)
        ensures
            res is Err <==> overflows(admin_step(old(self).model(), scope.key(), AdminOp::DeleteRole { actor: actor@, role_id: role_id@ }).0),
    {
        PolicyStore::remove_role(self, scope, actor, role_id)
    }

    fn assign_role(&mut self, scope: &ScopeKey, actor: &str, subject: &str, role_id: &str) -> (res: Result<Result<Mutation, DomainFailure>, StoreError>)
        ensures
            res is Err <==> overflows(admin_step(old(self).model(), scope.key(), AdminOp::AssignRole { actor: actor@, subject: subject@, role_id: role_id@ }).0),
    {
        PolicyStore::bind_role(self, scope, actor, subject, role_id)
    }

    fn revoke_role(&mut self, scope: &ScopeKey, actor: &str, subject: &str, role_id: &str) -> (res: Result<Result<Mutation, DomainFailure>, StoreError>)
        ensures
            res is Err <==> overflows(admin_step(old(self).model(), scope.key(), AdminOp::RevokeRole { actor: actor@, subject: subject@, role_id: role_id@ }).0),
    {
        PolicyStore::unbind_role(self, scope, actor, subject, role_id)
    }
}

} // verus!
