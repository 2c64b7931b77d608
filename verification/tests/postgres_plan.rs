use lenso_access_control::postgres::{
    existing_bootstrap, permission_decision, plan_admin, stored_revision, AdminFacts, AdminKind,
    AdminPlan, ExistingBootstrap, StoredStateError,
};
use lenso_access_control::storage::{Bootstrap, Decision, DomainFailure};

fn facts() -> AdminFacts {
    AdminFacts {
        scope_revision: Some(4),
        actor_authorized: true,
        role_protected: Some(false),
        bound: true,
        role_bindings: 1,
        grants_unchanged: false,
    }
}

#[test]
fn administration_is_refused_without_scope_or_grant() {
    let missing = AdminFacts {
        scope_revision: None,
        ..facts()
    };
    assert_eq!(
        plan_admin(AdminKind::CreateRole, &missing),
        Ok(AdminPlan::Refuse(DomainFailure::ScopeNotBootstrapped))
    );
    let forbidden = AdminFacts {
        actor_authorized: false,
        ..facts()
    };
    assert_eq!(
        plan_admin(AdminKind::DeleteRole, &forbidden),
        Ok(AdminPlan::Refuse(DomainFailure::Forbidden))
    );
    let negative = AdminFacts {
        scope_revision: Some(-1),
        ..facts()
    };
    assert_eq!(
        plan_admin(AdminKind::AssignRole, &negative),
        Err(StoredStateError::InvalidRevision)
    );
}

#[test]
fn each_operation_follows_its_own_rules() {
    assert_eq!(
        plan_admin(AdminKind::CreateRole, &facts()),
        Ok(AdminPlan::Refuse(DomainFailure::RoleAlreadyExists))
    );
    assert_eq!(
        plan_admin(
            AdminKind::CreateRole,
            &AdminFacts {
                role_protected: None,
                ..facts()
            }
        ),
        Ok(AdminPlan::Apply)
    );
    assert_eq!(plan_admin(AdminKind::SetRolePermissions, &facts()), Ok(AdminPlan::Apply));
    assert_eq!(
        plan_admin(
            AdminKind::SetRolePermissions,
            &AdminFacts {
                grants_unchanged: true,
                ..facts()
            }
        ),
        Ok(AdminPlan::Keep(4))
    );
    assert_eq!(
        plan_admin(
            AdminKind::DeleteRole,
            &AdminFacts {
                role_protected: Some(true),
                ..facts()
            }
        ),
        Ok(AdminPlan::Refuse(DomainFailure::ProtectedRole))
    );
    assert_eq!(plan_admin(AdminKind::AssignRole, &facts()), Ok(AdminPlan::Keep(4)));
    assert_eq!(
        plan_admin(
            AdminKind::AssignRole,
            &AdminFacts {
                role_protected: None,
                ..facts()
            }
        ),
        Ok(AdminPlan::Refuse(DomainFailure::RoleNotFound))
    );
    assert_eq!(plan_admin(AdminKind::RevokeRole, &facts()), Ok(AdminPlan::Apply));
    assert_eq!(
        plan_admin(
            AdminKind::RevokeRole,
            &AdminFacts {
                role_protected: Some(true),
                ..facts()
            }
        ),
        Ok(AdminPlan::Refuse(DomainFailure::ProtectedBinding))
    );
    assert_eq!(
        plan_admin(
            AdminKind::RevokeRole,
            &AdminFacts {
                role_protected: Some(true),
                role_bindings: 2,
                ..facts()
            }
        ),
        Ok(AdminPlan::Apply)
    );
    assert_eq!(
        plan_admin(
            AdminKind::RevokeRole,
            &AdminFacts {
                bound: false,
                ..facts()
            }
        ),
        Ok(AdminPlan::Keep(4))
    );
}

#[test]
fn stored_rows_decode_into_decisions_and_bootstraps() {
    assert_eq!(stored_revision(3), Ok(3));
    assert_eq!(stored_revision(-3), Err(StoredStateError::InvalidRevision));
    assert_eq!(
        permission_decision(None),
        Ok(Decision {
            allowed: false,
            revision: 0
        })
    );
    assert_eq!(
        permission_decision(Some((7, true))),
        Ok(Decision {
            allowed: true,
            revision: 7
        })
    );
    assert_eq!(
        permission_decision(Some((-7, true))),
        Err(StoredStateError::InvalidRevision)
    );
    let existing = ExistingBootstrap {
        bootstrap_subject: "usr_owner".to_owned(),
        revision: 9,
        policy_complete: true,
    };
    assert_eq!(
        existing_bootstrap(&existing, "usr_owner"),
        Ok(Ok(Bootstrap {
            created: false,
            revision: 9
        }))
    );
    assert_eq!(
        existing_bootstrap(&existing, "usr_other"),
        Ok(Err(DomainFailure::ScopeAlreadyBootstrapped))
    );
    let broken = ExistingBootstrap {
        policy_complete: false,
        ..existing
    };
    assert_eq!(
        existing_bootstrap(&broken, "usr_owner"),
        Err(StoredStateError::InvalidBootstrapPolicy)
    );
}
