use lenso_access_control::memory::PolicyStore;
use lenso_access_control::storage::{
    Bootstrap, Decision, DirectoryRole, DomainFailure, Mutation, ScopeKey, Store,
    BINDINGS_MANAGE_PERMISSION, BOOTSTRAP_ROLE_ID, ROLES_MANAGE_PERMISSION,
};
use std::collections::BTreeSet;

fn sorted(set: &BTreeSet<String>) -> Vec<String> {
    set.iter().cloned().collect()
}

/// Runs the same state transitions against a fresh scope of any backend.
fn exercise<S: Store>(store: &mut S, id: &str)
where
    S::Error: std::fmt::Debug,
{
    let scope = ScopeKey {
        kind: "organization".into(),
        id: id.into(),
    };
    assert_eq!(
        store.check_permission(&scope, "owner", "document.read").unwrap(),
        Decision {
            allowed: false,
            revision: 0
        }
    );
    assert_eq!(
        store.create_role(&scope, "owner", "viewer", "Viewer").unwrap(),
        Err(DomainFailure::ScopeNotBootstrapped)
    );
    assert_eq!(
        store.list_roles(&scope, None, 10).unwrap(),
        Err(DomainFailure::ScopeNotBootstrapped)
    );
    assert_eq!(
        store.bootstrap_scope(&scope, "owner").unwrap().unwrap(),
        Bootstrap {
            created: true,
            revision: 1
        }
    );
    assert_eq!(
        store.bootstrap_scope(&scope, "owner").unwrap().unwrap(),
        Bootstrap {
            created: false,
            revision: 1
        }
    );
    assert_eq!(
        store.bootstrap_scope(&scope, "other").unwrap(),
        Err(DomainFailure::ScopeAlreadyBootstrapped)
    );
    assert_eq!(
        store.create_role(&scope, "stranger", "viewer", "Viewer").unwrap(),
        Err(DomainFailure::Forbidden)
    );
    assert_eq!(
        store.create_role(&scope, "owner", "viewer", "Viewer").unwrap().unwrap(),
        Mutation {
            changed: true,
            revision: 2
        }
    );
    assert_eq!(
        store.create_role(&scope, "owner", "viewer", "Viewer").unwrap(),
        Err(DomainFailure::RoleAlreadyExists)
    );
    let permissions = BTreeSet::from(["document.read".to_owned(), "document.export".to_owned()]);
    assert_eq!(
        store
            .set_role_permissions(&scope, "owner", "viewer", &sorted(&permissions))
            .unwrap()
            .unwrap(),
        Mutation {
            changed: true,
            revision: 3
        }
    );
    assert_eq!(
        store
            .set_role_permissions(&scope, "owner", "viewer", &sorted(&permissions))
            .unwrap()
            .unwrap(),
        Mutation {
            changed: false,
            revision: 3
        }
    );
    assert_eq!(
        store.assign_role(&scope, "owner", "member", "viewer").unwrap().unwrap(),
        Mutation {
            changed: true,
            revision: 4
        }
    );
    assert_eq!(
        store.assign_role(&scope, "owner", "member", "viewer").unwrap().unwrap(),
        Mutation {
            changed: false,
            revision: 4
        }
    );
    assert_eq!(
        store.check_permission(&scope, "member", "document.read").unwrap(),
        Decision {
            allowed: true,
            revision: 4
        }
    );
    assert!(
        !store
            .check_permission(&scope, "member", ROLES_MANAGE_PERMISSION)
            .unwrap()
            .allowed
    );
    assert_eq!(
        store.get_role(&scope, "viewer").unwrap().unwrap(),
        (
            DirectoryRole {
                role_id: "viewer".into(),
                name: "Viewer".into(),
                protected: false,
                permissions: permissions.iter().cloned().collect()
            },
            4
        )
    );
    let first = store.list_roles(&scope, None, 1).unwrap().unwrap();
    assert_eq!(first.roles[0].role_id, BOOTSTRAP_ROLE_ID);
    assert!(first.has_more);
    assert_eq!(first.revision, 4);
    let next = store
        .list_roles(&scope, Some(BOOTSTRAP_ROLE_ID), 1)
        .unwrap()
        .unwrap();
    assert_eq!(next.roles[0].role_id, "viewer");
    assert!(!next.has_more);
    assert_eq!(next.revision, 4);
    assert_eq!(
        store
            .list_subject_roles(&scope, "member", None, 10)
            .unwrap()
            .unwrap()
            .roles,
        next.roles
    );
    assert_eq!(
        store.revoke_role(&scope, "owner", "nobody", "viewer").unwrap().unwrap(),
        Mutation {
            changed: false,
            revision: 4
        }
    );
    assert_eq!(
        store.delete_role(&scope, "owner", BOOTSTRAP_ROLE_ID).unwrap(),
        Err(DomainFailure::ProtectedRole)
    );
    assert_eq!(
        store
            .set_role_permissions(&scope, "owner", BOOTSTRAP_ROLE_ID, &sorted(&permissions))
            .unwrap(),
        Err(DomainFailure::ProtectedRole)
    );
    assert_eq!(
        store
            .revoke_role(&scope, "owner", "owner", BOOTSTRAP_ROLE_ID)
            .unwrap(),
        Err(DomainFailure::ProtectedBinding)
    );
    let results = [
        store.assign_role(&scope, "owner", "member", "absent"),
        store.revoke_role(&scope, "owner", "member", "absent"),
        store.delete_role(&scope, "owner", "absent"),
        store.set_role_permissions(&scope, "owner", "absent", &sorted(&permissions)),
    ];
    for result in results {
        assert_eq!(result.unwrap(), Err(DomainFailure::RoleNotFound));
    }
    assert_eq!(
        store
            .assign_role(&scope, "owner", "other", BOOTSTRAP_ROLE_ID)
            .unwrap()
            .unwrap()
            .revision,
        5
    );
    assert_eq!(
        store
            .revoke_role(&scope, "other", "owner", BOOTSTRAP_ROLE_ID)
            .unwrap()
            .unwrap()
            .revision,
        6
    );
    assert_eq!(
        store.create_role(&scope, "owner", "denied", "Denied").unwrap(),
        Err(DomainFailure::Forbidden)
    );
    assert_eq!(
        store
            .revoke_role(&scope, "other", "other", BOOTSTRAP_ROLE_ID)
            .unwrap(),
        Err(DomainFailure::ProtectedBinding)
    );
    // A maximum-size grant replacement stays one mutation and one revision.
    let maximum: BTreeSet<String> = (0..256)
        .map(|i| format!("document.permission{i:03}"))
        .collect();
    assert_eq!(
        store
            .set_role_permissions(&scope, "other", "viewer", &sorted(&maximum))
            .unwrap()
            .unwrap()
            .revision,
        7
    );
    assert_eq!(
        store
            .get_role(&scope, "viewer")
            .unwrap()
            .unwrap()
            .0
            .permissions
            .len(),
        256
    );
    assert_eq!(
        store
            .set_role_permissions(&scope, "other", "viewer", &Vec::new())
            .unwrap()
            .unwrap()
            .revision,
        8
    );
    assert!(
        !store
            .check_permission(&scope, "member", "document.read")
            .unwrap()
            .allowed
    );
    assert_eq!(
        store
            .delete_role(&scope, "other", "viewer")
            .unwrap()
            .unwrap()
            .revision,
        9
    );
    assert!(store
        .list_subject_roles(&scope, "member", None, 10)
        .unwrap()
        .unwrap()
        .roles
        .is_empty());
    assert!(
        store
            .check_permission(&scope, "other", BINDINGS_MANAGE_PERMISSION)
            .unwrap()
            .allowed
    );
    for role in ["Z", "a_", "a-", "A", "z"] {
        store.create_role(&scope, "other", role, role).unwrap().unwrap();
    }
    let page = store.list_roles(&scope, None, 100).unwrap().unwrap();
    let expected = vec!["A", "Z", "a-", "a_", BOOTSTRAP_ROLE_ID, "z"];
    assert_eq!(
        page.roles
            .iter()
            .map(|r| r.role_id.as_str())
            .collect::<Vec<_>>(),
        expected
    );
    let mut cursor: Option<String> = None;
    for role in expected {
        let page = store
            .list_roles(&scope, cursor.as_deref(), 1)
            .unwrap()
            .unwrap();
        assert_eq!(page.roles[0].role_id, role);
        cursor = Some(role.to_owned());
    }
    for (role, permission) in [("A", "document.read"), ("Z", "document.write")] {
        store
            .set_role_permissions(&scope, "other", role, &vec![permission.to_owned()])
            .unwrap()
            .unwrap();
        store.assign_role(&scope, "other", "member", role).unwrap().unwrap();
    }
    assert!(
        store
            .check_permission(&scope, "member", "document.read")
            .unwrap()
            .allowed
    );
    assert!(
        store
            .check_permission(&scope, "member", "document.write")
            .unwrap()
            .allowed
    );
    store.revoke_role(&scope, "other", "member", "A").unwrap().unwrap();
    assert!(
        !store
            .check_permission(&scope, "member", "document.read")
            .unwrap()
            .allowed
    );
    assert!(
        store
            .check_permission(&scope, "member", "document.write")
            .unwrap()
            .allowed
    );
    assert!(!store.bootstrap_scope(&scope, "owner").unwrap().unwrap().created);
}

#[test]
fn shared_contract_vectors_hold_for_the_memory_store() {
    let mut store = PolicyStore::new();
    exercise(&mut store, "org_vectors");
}

#[test]
fn contract_vectors_hold_for_two_scopes_of_one_store() {
    let mut store = PolicyStore::new();
    exercise(&mut store, "org_first");
    exercise(&mut store, "org_second");
}

#[test]
fn durable_policy_preserves_union_revision_and_bootstrap_protection() {
    let mut store = PolicyStore::new();
    let scope = ScopeKey {
        kind: "organization".to_owned(),
        id: "org_42".to_owned(),
    };

    let bootstrap = store.bootstrap_scope(&scope, "usr_owner").unwrap().unwrap();
    assert!(bootstrap.created);
    assert_eq!(bootstrap.revision, 1);
    let repeated = store.bootstrap_scope(&scope, "usr_owner").unwrap().unwrap();
    assert!(!repeated.created);
    assert_eq!(repeated.revision, 1);
    assert_eq!(
        store.bootstrap_scope(&scope, "usr_other").unwrap(),
        Err(DomainFailure::ScopeAlreadyBootstrapped)
    );

    let viewer = store
        .create_role(&scope, "usr_owner", "viewer", "Viewer")
        .unwrap()
        .unwrap();
    assert_eq!(viewer.revision, 2);
    let viewer_permissions = store
        .set_role_permissions(&scope, "usr_owner", "viewer", &vec!["document.read".to_owned()])
        .unwrap()
        .unwrap();
    assert_eq!(viewer_permissions.revision, 3);
    let assigned = store
        .assign_role(&scope, "usr_owner", "usr_member", "viewer")
        .unwrap()
        .unwrap();
    assert_eq!(assigned.revision, 4);

    store
        .create_role(&scope, "usr_owner", "editor", "Editor")
        .unwrap()
        .unwrap();
    store
        .set_role_permissions(&scope, "usr_owner", "editor", &vec!["document.write".to_owned()])
        .unwrap()
        .unwrap();
    store
        .assign_role(&scope, "usr_owner", "usr_member", "editor")
        .unwrap()
        .unwrap();

    let read = store
        .check_permission(&scope, "usr_member", "document.read")
        .unwrap();
    let write = store
        .check_permission(&scope, "usr_member", "document.write")
        .unwrap();
    assert!(read.allowed && write.allowed);
    assert_eq!(read.revision, 7);
    assert_eq!(write.revision, 7);
    let missing = store
        .check_permission(&scope, "usr_missing", "document.read")
        .unwrap();
    assert!(!missing.allowed);
    assert_eq!(missing.revision, 7);

    let unchanged = store
        .assign_role(&scope, "usr_owner", "usr_member", "viewer")
        .unwrap()
        .unwrap();
    assert!(!unchanged.changed);
    assert_eq!(unchanged.revision, 7);
    assert_eq!(
        store
            .set_role_permissions(
                &scope,
                "usr_owner",
                BOOTSTRAP_ROLE_ID,
                &vec![
                    BINDINGS_MANAGE_PERMISSION.to_owned(),
                    ROLES_MANAGE_PERMISSION.to_owned(),
                ],
            )
            .unwrap(),
        Err(DomainFailure::ProtectedRole)
    );
    assert_eq!(
        store
            .revoke_role(&scope, "usr_owner", "usr_owner", BOOTSTRAP_ROLE_ID)
            .unwrap(),
        Err(DomainFailure::ProtectedBinding)
    );

    let delegated = store
        .assign_role(&scope, "usr_owner", "usr_successor", BOOTSTRAP_ROLE_ID)
        .unwrap()
        .unwrap();
    assert_eq!(delegated.revision, 8);
    let transferred = store
        .revoke_role(&scope, "usr_owner", "usr_owner", BOOTSTRAP_ROLE_ID)
        .unwrap()
        .unwrap();
    assert_eq!(transferred.revision, 9);
    let repeated_after_transfer = store.bootstrap_scope(&scope, "usr_owner").unwrap().unwrap();
    assert!(!repeated_after_transfer.created);
    assert_eq!(repeated_after_transfer.revision, 9);
}

#[test]
fn a_mutation_of_one_scope_leaves_another_scope_untouched() {
    let mut store = PolicyStore::new();
    let first = ScopeKey {
        kind: "organization".to_owned(),
        id: "org_1".to_owned(),
    };
    let second = ScopeKey {
        kind: "organization".to_owned(),
        id: "org_2".to_owned(),
    };
    store.bootstrap_scope(&first, "owner").unwrap().unwrap();
    store.bootstrap_scope(&second, "owner").unwrap().unwrap();
    store.create_role(&first, "owner", "viewer", "Viewer").unwrap().unwrap();
    store
        .set_role_permissions(&first, "owner", "viewer", &vec!["document.read".to_owned()])
        .unwrap()
        .unwrap();
    store.assign_role(&first, "owner", "member", "viewer").unwrap().unwrap();
    assert_eq!(
        store.check_permission(&first, "member", "document.read").unwrap(),
        Decision {
            allowed: true,
            revision: 4
        }
    );
    assert_eq!(
        store.check_permission(&second, "member", "document.read").unwrap(),
        Decision {
            allowed: false,
            revision: 1
        }
    );
    assert_eq!(
        store.get_role(&second, "viewer").unwrap(),
        Err(DomainFailure::RoleNotFound)
    );
    let roles = store.list_roles(&second, None, 10).unwrap().unwrap();
    assert_eq!(roles.roles.len(), 1);
    assert_eq!(roles.revision, 1);
}

#[test]
fn deleting_a_role_removes_its_bindings_and_grants() {
    let mut store = PolicyStore::new();
    let scope = ScopeKey {
        kind: "team".to_owned(),
        id: "t1".to_owned(),
    };
    store.bootstrap_scope(&scope, "owner").unwrap().unwrap();
    store.create_role(&scope, "owner", "viewer", "Viewer").unwrap().unwrap();
    store
        .set_role_permissions(&scope, "owner", "viewer", &vec!["document.read".to_owned()])
        .unwrap()
        .unwrap();
    store.assign_role(&scope, "owner", "member", "viewer").unwrap().unwrap();
    let deleted = store.delete_role(&scope, "owner", "viewer").unwrap().unwrap();
    assert_eq!(
        deleted,
        Mutation {
            changed: true,
            revision: 5
        }
    );
    assert!(!store.check_permission(&scope, "member", "document.read").unwrap().allowed);
    store.create_role(&scope, "owner", "viewer", "Viewer again").unwrap().unwrap();
    assert!(store
        .list_subject_roles(&scope, "member", None, 10)
        .unwrap()
        .unwrap()
        .roles
        .is_empty());
}
