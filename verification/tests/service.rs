use lenso_access_control::config::PolicyConfig;
use lenso_access_control::memory::PolicyStore;
use lenso_access_control::service::{
    answer_check_permission, answer_create_role, answer_get_role, answer_list_roles,
    answer_role_change, revision_string, sorted_distinct, AccessControl, AdminError,
    BootstrapScopeError, BootstrapScopeRequest, CheckPermissionError, CheckPermissionRequest,
    CreateRoleRequest, DeleteRoleRequest, GetRoleError, GetRoleRequest, ListRolesError,
    ListRolesRequest, ListSubjectRolesRequest, RoleBindingRequest, ServiceError,
    SetRolePermissionsRequest,
};
use lenso_access_control::storage::{
    Decision, DirectoryRole, DirectoryRolePage, DomainFailure, Mutation, ScopeKey,
    BOOTSTRAP_ROLE_ID,
};
use lenso_auth_sdk::ActorAssertionIssuer;

fn config() -> PolicyConfig {
    let issuer = ActorAssertionIssuer::new("auth.users", b"access-control-test-key");
    PolicyConfig::new(
        "auth.users".to_owned(),
        issuer.public_key_base64(),
        vec!["organization-provisioner".to_owned()],
    )
    .unwrap()
    .with_directory_callers(vec!["access-request".to_owned()])
    .unwrap()
}

fn service() -> AccessControl<PolicyStore> {
    AccessControl::new(config(), PolicyStore::new())
}

fn scope() -> ScopeKey {
    ScopeKey {
        kind: "organization".to_owned(),
        id: "org_42".to_owned(),
    }
}

fn bootstrapped() -> AccessControl<PolicyStore> {
    let mut service = service();
    let response = service
        .bootstrap_scope(
            Some("organization-provisioner"),
            BootstrapScopeRequest {
                scope: scope(),
                subject: "usr_owner".to_owned(),
            },
        )
        .unwrap();
    assert!(response.created);
    service
}

#[test]
fn bootstrap_requires_the_exact_configured_caller_before_storage() {
    let result = service().bootstrap_scope(
        Some("another-plugin"),
        BootstrapScopeRequest {
            scope: scope(),
            subject: "usr_owner".to_owned(),
        },
    );
    assert_eq!(result, Err(ServiceError::Domain(BootstrapScopeError::Forbidden)));
}

#[test]
fn post_bootstrap_admin_requires_an_actor_assertion_before_storage() {
    let result = service().create_role(
        None,
        CreateRoleRequest {
            scope: scope(),
            role_id: "viewer".to_owned(),
            name: "Viewer".to_owned(),
        },
    );
    assert_eq!(result, Err(ServiceError::Domain(AdminError::Unauthenticated)));
}

#[test]
fn directory_reads_require_the_exact_configured_caller_before_storage() {
    let result = service().get_role(
        Some("another-plugin"),
        GetRoleRequest {
            role_id: "viewer".to_owned(),
            scope: scope(),
        },
    );
    assert_eq!(result, Err(ServiceError::Domain(GetRoleError::Forbidden)));
}

#[test]
fn directory_pages_validate_before_storage() {
    let roles = service().list_roles(
        Some("access-request"),
        ListRolesRequest {
            cursor: None,
            limit: 0,
            scope: scope(),
        },
    );
    assert_eq!(roles, Err(ServiceError::Domain(ListRolesError::InvalidPage)));

    let subject_roles = service().list_subject_roles(
        Some("access-request"),
        ListSubjectRolesRequest {
            cursor: None,
            limit: 10,
            scope: scope(),
            subject: "invalid subject".to_owned(),
        },
    );
    assert_eq!(
        subject_roles,
        Err(ServiceError::Domain(ListRolesError::InvalidRequest))
    );
}

#[test]
fn bootstrap_callers_are_not_directory_callers() {
    let result = service().get_role(
        Some("organization-provisioner"),
        GetRoleRequest {
            role_id: "viewer".to_owned(),
            scope: scope(),
        },
    );
    assert_eq!(result, Err(ServiceError::Domain(GetRoleError::Forbidden)));
    let result = service().bootstrap_scope(
        Some("access-request"),
        BootstrapScopeRequest {
            scope: scope(),
            subject: "usr_owner".to_owned(),
        },
    );
    assert_eq!(result, Err(ServiceError::Domain(BootstrapScopeError::Forbidden)));
    let result = service().bootstrap_scope(
        None,
        BootstrapScopeRequest {
            scope: scope(),
            subject: "usr_owner".to_owned(),
        },
    );
    assert_eq!(result, Err(ServiceError::Domain(BootstrapScopeError::Forbidden)));
}

#[test]
fn invalid_requests_are_refused_before_storage() {
    let result = service().check_permission(CheckPermissionRequest {
        scope: ScopeKey {
            kind: "Organization".to_owned(),
            id: "org_42".to_owned(),
        },
        subject: "usr_owner".to_owned(),
        permission: "document.read".to_owned(),
    });
    assert_eq!(result, Err(ServiceError::Domain(CheckPermissionError::InvalidRequest)));
    let result = service().check_permission(CheckPermissionRequest {
        scope: scope(),
        subject: "usr_owner".to_owned(),
        permission: "read".to_owned(),
    });
    assert_eq!(result, Err(ServiceError::Domain(CheckPermissionError::InvalidRequest)));
    let result = service().bootstrap_scope(
        Some("organization-provisioner"),
        BootstrapScopeRequest {
            scope: scope(),
            subject: "usr owner".to_owned(),
        },
    );
    assert_eq!(result, Err(ServiceError::Domain(BootstrapScopeError::InvalidRequest)));
    let mut service = bootstrapped();
    let result = service.create_role(
        Some("usr_owner"),
        CreateRoleRequest {
            scope: scope(),
            role_id: BOOTSTRAP_ROLE_ID.to_owned(),
            name: "Again".to_owned(),
        },
    );
    assert_eq!(result, Err(ServiceError::Domain(AdminError::InvalidRequest)));
    let result = service.create_role(
        Some("usr_owner"),
        CreateRoleRequest {
            scope: scope(),
            role_id: "viewer".to_owned(),
            name: "   ".to_owned(),
        },
    );
    assert_eq!(result, Err(ServiceError::Domain(AdminError::InvalidRequest)));
    let result = service.create_role(
        Some("usr owner"),
        CreateRoleRequest {
            scope: scope(),
            role_id: "viewer".to_owned(),
            name: "Viewer".to_owned(),
        },
    );
    assert_eq!(result, Err(ServiceError::Domain(AdminError::Unauthenticated)));
}

#[test]
fn administration_round_trip_through_the_service() {
    let mut service = bootstrapped();
    let created = service
        .create_role(
            Some("usr_owner"),
            CreateRoleRequest {
                scope: scope(),
                role_id: "viewer".to_owned(),
                name: "  Viewer  ".to_owned(),
            },
        )
        .unwrap();
    assert!(created.changed);
    assert_eq!(created.policy_revision, "2");
    let duplicate = service.create_role(
        Some("usr_owner"),
        CreateRoleRequest {
            scope: scope(),
            role_id: "viewer".to_owned(),
            name: "Viewer".to_owned(),
        },
    );
    assert_eq!(duplicate, Err(ServiceError::Domain(AdminError::RoleAlreadyExists)));
    let repeated = service.set_role_permissions(
        Some("usr_owner"),
        SetRolePermissionsRequest {
            scope: scope(),
            role_id: "viewer".to_owned(),
            permissions: vec!["document.read".to_owned(), "document.read".to_owned()],
        },
    );
    assert_eq!(repeated, Err(ServiceError::Domain(AdminError::InvalidRequest)));
    let set = service
        .set_role_permissions(
            Some("usr_owner"),
            SetRolePermissionsRequest {
                scope: scope(),
                role_id: "viewer".to_owned(),
                permissions: vec!["document.read".to_owned(), "document.export".to_owned()],
            },
        )
        .unwrap();
    assert!(set.changed);
    assert_eq!(set.policy_revision, "3");
    let same = service
        .set_role_permissions(
            Some("usr_owner"),
            SetRolePermissionsRequest {
                scope: scope(),
                role_id: "viewer".to_owned(),
                permissions: vec!["document.export".to_owned(), "document.read".to_owned()],
            },
        )
        .unwrap();
    assert!(!same.changed);
    assert_eq!(same.policy_revision, "3");
    let role = service
        .get_role(
            Some("access-request"),
            GetRoleRequest {
                scope: scope(),
                role_id: "viewer".to_owned(),
            },
        )
        .unwrap();
    assert_eq!(role.name, "  Viewer  ");
    assert_eq!(role.permissions, vec!["document.export".to_owned(), "document.read".to_owned()]);
    assert!(!role.protected);
    assert_eq!(role.policy_revision, "3");
    let assigned = service
        .assign_role(
            Some("usr_owner"),
            RoleBindingRequest {
                scope: scope(),
                subject: "usr_member".to_owned(),
                role_id: "viewer".to_owned(),
            },
        )
        .unwrap();
    assert_eq!(assigned.policy_revision, "4");
    let allowed = service
        .check_permission(CheckPermissionRequest {
            scope: scope(),
            subject: "usr_member".to_owned(),
            permission: "document.read".to_owned(),
        })
        .unwrap();
    assert!(allowed.allowed);
    assert_eq!(allowed.policy_revision, "4");
    let first = service
        .list_roles(
            Some("access-request"),
            ListRolesRequest {
                scope: scope(),
                cursor: None,
                limit: 1,
            },
        )
        .unwrap();
    assert_eq!(first.roles.len(), 1);
    assert_eq!(first.roles[0].role_id, BOOTSTRAP_ROLE_ID);
    assert_eq!(first.next_cursor, Some(BOOTSTRAP_ROLE_ID.to_owned()));
    let second = service
        .list_roles(
            Some("access-request"),
            ListRolesRequest {
                scope: scope(),
                cursor: first.next_cursor.clone(),
                limit: 1,
            },
        )
        .unwrap();
    assert_eq!(second.roles[0].role_id, "viewer");
    assert_eq!(second.next_cursor, None);
    let mine = service
        .list_subject_roles(
            Some("access-request"),
            ListSubjectRolesRequest {
                scope: scope(),
                subject: "usr_member".to_owned(),
                cursor: None,
                limit: 10,
            },
        )
        .unwrap();
    assert_eq!(mine.subject, "usr_member");
    assert_eq!(mine.roles.len(), 1);
    assert_eq!(mine.policy_revision, "4");
    let protected = service.delete_role(
        Some("usr_owner"),
        DeleteRoleRequest {
            scope: scope(),
            role_id: BOOTSTRAP_ROLE_ID.to_owned(),
        },
    );
    assert_eq!(protected, Err(ServiceError::Domain(AdminError::ProtectedRole)));
    let last = service.revoke_role(
        Some("usr_owner"),
        RoleBindingRequest {
            scope: scope(),
            subject: "usr_owner".to_owned(),
            role_id: BOOTSTRAP_ROLE_ID.to_owned(),
        },
    );
    assert_eq!(last, Err(ServiceError::Domain(AdminError::ProtectedBinding)));
    let forbidden = service.delete_role(
        Some("usr_member"),
        DeleteRoleRequest {
            scope: scope(),
            role_id: "viewer".to_owned(),
        },
    );
    assert_eq!(forbidden, Err(ServiceError::Domain(AdminError::Forbidden)));
    let deleted = service
        .delete_role(
            Some("usr_owner"),
            DeleteRoleRequest {
                scope: scope(),
                role_id: "viewer".to_owned(),
            },
        )
        .unwrap();
    assert_eq!(deleted.policy_revision, "5");
    let gone = service.get_role(
        Some("access-request"),
        GetRoleRequest {
            scope: scope(),
            role_id: "viewer".to_owned(),
        },
    );
    assert_eq!(gone, Err(ServiceError::Domain(GetRoleError::RoleNotFound)));
}

#[test]
fn missing_scope_denies_and_reads_report_it() {
    let service = service();
    let decision = service
        .check_permission(CheckPermissionRequest {
            scope: scope(),
            subject: "usr_owner".to_owned(),
            permission: "document.read".to_owned(),
        })
        .unwrap();
    assert!(!decision.allowed);
    assert_eq!(decision.policy_revision, "0");
    let listing = service.list_roles(
        Some("access-request"),
        ListRolesRequest {
            scope: scope(),
            cursor: None,
            limit: 10,
        },
    );
    assert_eq!(
        listing,
        Err(ServiceError::Domain(ListRolesError::ScopeNotBootstrapped))
    );
    let role = service.get_role(
        Some("access-request"),
        GetRoleRequest {
            scope: scope(),
            role_id: "viewer".to_owned(),
        },
    );
    assert_eq!(role, Err(ServiceError::Domain(GetRoleError::ScopeNotBootstrapped)));
}

#[test]
fn bootstrap_reports_the_protected_role_and_is_idempotent() {
    let mut service = service();
    let request = || BootstrapScopeRequest {
        scope: scope(),
        subject: "usr_owner".to_owned(),
    };
    let first = service
        .bootstrap_scope(Some("organization-provisioner"), request())
        .unwrap();
    assert!(first.created);
    assert_eq!(first.role_id, BOOTSTRAP_ROLE_ID);
    assert_eq!(first.policy_revision, "1");
    let again = service
        .bootstrap_scope(Some("organization-provisioner"), request())
        .unwrap();
    assert!(!again.created);
    assert_eq!(again.policy_revision, "1");
    let other = service.bootstrap_scope(
        Some("organization-provisioner"),
        BootstrapScopeRequest {
            scope: scope(),
            subject: "usr_other".to_owned(),
        },
    );
    assert_eq!(
        other,
        Err(ServiceError::Domain(BootstrapScopeError::ScopeAlreadyBootstrapped))
    );
}

#[test]
fn revisions_render_as_decimal_text() {
    assert_eq!(revision_string(0), Some("0".to_owned()));
    assert_eq!(revision_string(7), Some("7".to_owned()));
    assert_eq!(
        revision_string(9_007_199_254_740_994),
        Some("9007199254740994".to_owned())
    );
    assert_eq!(revision_string(i64::MAX), Some("9223372036854775807".to_owned()));
    assert_eq!(revision_string(-1), None);
}

#[test]
fn answers_report_storage_outcomes() {
    let ok = answer_check_permission::<()>(Ok(Decision {
        allowed: true,
        revision: 12,
    }))
    .unwrap();
    assert!(ok.allowed);
    assert_eq!(ok.policy_revision, "12");
    assert_eq!(
        answer_check_permission::<()>(Ok(Decision {
            allowed: true,
            revision: -3,
        })),
        Err(ServiceError::NegativeRevision)
    );
    assert_eq!(
        answer_check_permission::<&str>(Err("down")),
        Err(ServiceError::Storage("down"))
    );
    assert_eq!(
        answer_create_role::<()>(Ok(Err(DomainFailure::RoleAlreadyExists))),
        Err(ServiceError::Domain(AdminError::RoleAlreadyExists))
    );
    assert_eq!(
        answer_role_change::<()>(Ok(Err(DomainFailure::RoleAlreadyExists))),
        Err(ServiceError::Domain(AdminError::InvalidRequest))
    );
    assert_eq!(
        answer_role_change::<()>(Ok(Err(DomainFailure::ScopeAlreadyBootstrapped))),
        Err(ServiceError::Domain(AdminError::InvalidRequest))
    );
    let changed = answer_role_change::<()>(Ok(Ok(Mutation {
        changed: true,
        revision: 41,
    })))
    .unwrap();
    assert!(changed.changed);
    assert_eq!(changed.policy_revision, "41");
    assert_eq!(
        answer_get_role::<()>(Ok(Err(DomainFailure::Forbidden))),
        Err(ServiceError::Domain(GetRoleError::InvalidRequest))
    );
    let role = DirectoryRole {
        role_id: "viewer".to_owned(),
        name: "Viewer".to_owned(),
        protected: false,
        permissions: vec!["document.read".to_owned()],
    };
    let got = answer_get_role::<()>(Ok(Ok((role.clone(), 5)))).unwrap();
    assert_eq!(got.role_id, "viewer");
    assert_eq!(got.permissions, vec!["document.read".to_owned()]);
    assert_eq!(got.policy_revision, "5");
    let page = answer_list_roles::<()>(Ok(Ok(DirectoryRolePage {
        roles: vec![role.clone()],
        revision: 5,
        has_more: true,
    })))
    .unwrap();
    assert_eq!(page.next_cursor, Some("viewer".to_owned()));
    let last = answer_list_roles::<()>(Ok(Ok(DirectoryRolePage {
        roles: vec![role],
        revision: 5,
        has_more: false,
    })))
    .unwrap();
    assert_eq!(last.next_cursor, None);
    assert_eq!(
        answer_list_roles::<()>(Ok(Err(DomainFailure::Forbidden))),
        Err(ServiceError::Domain(ListRolesError::InvalidRequest))
    );
}

#[test]
fn requested_grants_are_deduplicated_into_bytewise_order() {
    let sorted = sorted_distinct(&vec![
        "document.read".to_owned(),
        "Document.write".to_owned(),
        "document.export".to_owned(),
    ])
    .unwrap();
    assert_eq!(
        sorted,
        vec![
            "Document.write".to_owned(),
            "document.export".to_owned(),
            "document.read".to_owned(),
        ]
    );
    assert_eq!(sorted_distinct(&vec!["a.b".to_owned(), "a.b".to_owned()]), None);
    assert_eq!(sorted_distinct(&Vec::new()), Some(Vec::new()));
}

#[test]
fn every_admin_refusal_is_reported() {
    let mut empty = service();
    let missing = empty.create_role(
        Some("usr_owner"),
        CreateRoleRequest {
            scope: scope(),
            role_id: "viewer".to_owned(),
            name: "Viewer".to_owned(),
        },
    );
    assert_eq!(missing, Err(ServiceError::Domain(AdminError::ScopeNotBootstrapped)));
    let mut service = bootstrapped();
    let absent = service.assign_role(
        Some("usr_owner"),
        RoleBindingRequest {
            scope: scope(),
            subject: "usr_member".to_owned(),
            role_id: "absent".to_owned(),
        },
    );
    assert_eq!(absent, Err(ServiceError::Domain(AdminError::RoleNotFound)));
    let listing = service.list_roles(
        Some("another-plugin"),
        ListRolesRequest {
            scope: scope(),
            cursor: None,
            limit: 10,
        },
    );
    assert_eq!(listing, Err(ServiceError::Domain(ListRolesError::Forbidden)));
    let cursor = service.list_roles(
        Some("access-request"),
        ListRolesRequest {
            scope: scope(),
            cursor: Some("bad cursor".to_owned()),
            limit: 10,
        },
    );
    assert_eq!(cursor, Err(ServiceError::Domain(ListRolesError::InvalidPage)));
}
