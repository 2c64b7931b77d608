use lenso_access_control::d1::{
    bootstrap_of, check_batch, decode_decision, decode_failure, decode_flag, decode_mutation,
    decode_page, decode_revision, receipt_row, role_of_page, DecisionRow, DirectoryRow, Error,
    ReceiptField,
};
use lenso_access_control::storage::{
    Bootstrap, Decision, DirectoryRole, DirectoryRolePage, DomainFailure, Mutation,
};

fn text(value: &str) -> ReceiptField {
    ReceiptField::Text(value.to_owned())
}

fn row(role_id: &str, permissions: &str) -> DirectoryRow {
    DirectoryRow {
        revision: text("4"),
        role_id: text(role_id),
        name: text("Name"),
        protected: ReceiptField::Integer(0),
        permissions: text(permissions),
    }
}

#[test]
fn large_revisions_round_trip_as_decimal_text() {
    assert_eq!(
        decode_revision(&text("9007199254740994")),
        Ok(9_007_199_254_740_994)
    );
    assert_eq!(decode_revision(&text("9223372036854775807")), Ok(i64::MAX));
    assert_eq!(
        decode_revision(&text("9223372036854775808")),
        Err(Error::InvalidState)
    );
    assert_eq!(
        decode_revision(&text("99999999999999999999999")),
        Err(Error::InvalidState)
    );
}

#[test]
fn revisions_are_non_negative_decimal_text() {
    assert_eq!(decode_revision(&text("0")), Ok(0));
    assert_eq!(decode_revision(&text("007")), Ok(7));
    assert_eq!(decode_revision(&text("+5")), Ok(5));
    assert_eq!(decode_revision(&text("-0")), Ok(0));
    assert_eq!(decode_revision(&text("-1")), Err(Error::InvalidState));
    assert_eq!(decode_revision(&text("")), Err(Error::InvalidState));
    assert_eq!(decode_revision(&text("+")), Err(Error::InvalidState));
    assert_eq!(decode_revision(&text("12a")), Err(Error::InvalidState));
    assert_eq!(decode_revision(&text(" 1")), Err(Error::InvalidState));
    assert_eq!(decode_revision(&ReceiptField::Integer(3)), Err(Error::InvalidState));
    assert_eq!(decode_revision(&ReceiptField::Null), Err(Error::InvalidState));
}

#[test]
fn failure_codes_and_flags_decode_exactly() {
    assert_eq!(decode_failure(&ReceiptField::Null), Ok(None));
    assert_eq!(
        decode_failure(&text("scope_missing")),
        Ok(Some(DomainFailure::ScopeNotBootstrapped))
    );
    assert_eq!(
        decode_failure(&text("scope_exists")),
        Ok(Some(DomainFailure::ScopeAlreadyBootstrapped))
    );
    assert_eq!(decode_failure(&text("forbidden")), Ok(Some(DomainFailure::Forbidden)));
    assert_eq!(
        decode_failure(&text("role_exists")),
        Ok(Some(DomainFailure::RoleAlreadyExists))
    );
    assert_eq!(
        decode_failure(&text("role_missing")),
        Ok(Some(DomainFailure::RoleNotFound))
    );
    assert_eq!(
        decode_failure(&text("protected_role")),
        Ok(Some(DomainFailure::ProtectedRole))
    );
    assert_eq!(
        decode_failure(&text("protected_binding")),
        Ok(Some(DomainFailure::ProtectedBinding))
    );
    assert_eq!(decode_failure(&text("invalid_bootstrap")), Err(Error::InvalidState));
    assert_eq!(decode_failure(&ReceiptField::Absent), Err(Error::InvalidState));
    assert_eq!(decode_flag(&ReceiptField::Integer(0)), Ok(false));
    assert_eq!(decode_flag(&ReceiptField::Integer(1)), Ok(true));
    assert_eq!(decode_flag(&ReceiptField::Integer(2)), Err(Error::InvalidState));
    assert_eq!(decode_flag(&text("1")), Err(Error::InvalidState));
}

#[test]
fn mutation_receipts_report_failure_first() {
    assert_eq!(
        decode_mutation(&text("forbidden"), &ReceiptField::Other, &ReceiptField::Other),
        Ok(Err(DomainFailure::Forbidden))
    );
    assert_eq!(
        decode_mutation(&ReceiptField::Null, &ReceiptField::Integer(1), &text("6")),
        Ok(Ok(Mutation {
            changed: true,
            revision: 6
        }))
    );
    assert_eq!(
        decode_mutation(&ReceiptField::Null, &ReceiptField::Integer(7), &text("6")),
        Err(Error::InvalidState)
    );
    assert_eq!(
        bootstrap_of(Ok(Mutation {
            changed: true,
            revision: 1
        })),
        Ok(Bootstrap {
            created: true,
            revision: 1
        })
    );
    assert_eq!(
        bootstrap_of(Err(DomainFailure::ScopeAlreadyBootstrapped)),
        Err(DomainFailure::ScopeAlreadyBootstrapped)
    );
}

#[test]
fn decisions_deny_a_scope_without_policy() {
    assert_eq!(
        decode_decision(None),
        Ok(Decision {
            allowed: false,
            revision: 0
        })
    );
    assert_eq!(
        decode_decision(Some(&DecisionRow {
            allowed: ReceiptField::Integer(1),
            revision: text("3"),
        })),
        Ok(Decision {
            allowed: true,
            revision: 3
        })
    );
    assert_eq!(
        decode_decision(Some(&DecisionRow {
            allowed: ReceiptField::Integer(1),
            revision: text("-3"),
        })),
        Err(Error::InvalidState)
    );
}

#[test]
fn directory_rows_become_bounded_pages() {
    assert_eq!(decode_page(&Vec::new(), 10), Ok(Err(DomainFailure::ScopeNotBootstrapped)));
    let empty = DirectoryRow {
        revision: text("1"),
        role_id: ReceiptField::Null,
        name: ReceiptField::Null,
        protected: ReceiptField::Null,
        permissions: ReceiptField::Null,
    };
    assert_eq!(
        decode_page(&vec![empty], 10),
        Ok(Ok(DirectoryRolePage {
            roles: Vec::new(),
            revision: 1,
            has_more: false
        }))
    );
    let rows = vec![
        row("a", r#"["document.read","document.write"]"#),
        row("b", "[]"),
        row("c", "not json"),
    ];
    let page = decode_page(&rows, 2).unwrap().unwrap();
    assert!(page.has_more);
    assert_eq!(page.revision, 4);
    assert_eq!(
        page.roles,
        vec![
            DirectoryRole {
                role_id: "a".to_owned(),
                name: "Name".to_owned(),
                protected: false,
                permissions: vec!["document.read".to_owned(), "document.write".to_owned()],
            },
            DirectoryRole {
                role_id: "b".to_owned(),
                name: "Name".to_owned(),
                protected: false,
                permissions: Vec::new(),
            },
        ]
    );
    assert_eq!(decode_page(&rows, 3), Err(Error::InvalidState));
    let exact = decode_page(&rows[..2].to_vec(), 2).unwrap().unwrap();
    assert!(!exact.has_more);
    assert_eq!(exact.roles.len(), 2);
}

#[test]
fn single_role_reads_take_the_first_role() {
    let role = DirectoryRole {
        role_id: "viewer".to_owned(),
        name: "Viewer".to_owned(),
        protected: false,
        permissions: Vec::new(),
    };
    assert_eq!(
        role_of_page(Ok(DirectoryRolePage {
            roles: vec![role.clone()],
            revision: 9,
            has_more: false
        })),
        Ok((role, 9))
    );
    assert_eq!(
        role_of_page(Ok(DirectoryRolePage {
            roles: Vec::new(),
            revision: 9,
            has_more: false
        })),
        Err(DomainFailure::RoleNotFound)
    );
    assert_eq!(
        role_of_page(Err(DomainFailure::ScopeNotBootstrapped)),
        Err(DomainFailure::ScopeNotBootstrapped)
    );
}

#[test]
fn batches_answer_every_statement() {
    assert_eq!(check_batch(3, 3), Ok(()));
    assert_eq!(check_batch(3, 2), Err(Error::InvalidState));
    let rows = vec![vec![1], vec![2], vec![3]];
    assert_eq!(receipt_row(&rows), Ok(&2));
    let rows = vec![vec![1], vec![2, 4], vec![3]];
    assert_eq!(receipt_row(&rows), Err(Error::InvalidState));
}
