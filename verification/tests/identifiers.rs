use lenso_access_control::identifiers::{
    valid_directory_page, valid_display_name, valid_identifier, valid_opaque_id,
    valid_permission, valid_role_id, valid_scope, valid_scope_kind, valid_secret_reference,
    valid_subject,
};
use lenso_access_control::storage::ScopeKey;
use lenso_access_control::text::{compare_text, decimal_text, same_text, TextOrder};

#[test]
fn identifiers_are_stable_and_narrow() {
    assert!(valid_scope(&ScopeKey {
        kind: "organization".to_owned(),
        id: "org_42".to_owned(),
    }));
    assert!(!valid_scope_kind("Organization"));
    assert!(valid_permission("support.ticket.read"));
    assert!(!valid_permission("read"));
    assert!(!valid_role_id("role with spaces"));
}

#[test]
fn scope_kinds_start_and_end_with_a_letter_or_digit() {
    assert!(valid_scope_kind("org.unit_2"));
    assert!(valid_scope_kind("a"));
    assert!(!valid_scope_kind(""));
    assert!(!valid_scope_kind("-org"));
    assert!(!valid_scope_kind("org-"));
    assert!(!valid_scope_kind("org:unit"));
    assert!(valid_scope_kind(&"a".repeat(128)));
    assert!(!valid_scope_kind(&"a".repeat(129)));
}

#[test]
fn opaque_identifiers_allow_a_narrow_alphabet_and_length() {
    assert!(valid_subject("usr:42/profile.main-1_x"));
    assert!(!valid_subject(""));
    assert!(!valid_subject("usr 42"));
    assert!(!valid_subject("usré"));
    assert!(valid_subject(&"s".repeat(512)));
    assert!(!valid_subject(&"s".repeat(513)));
    assert!(valid_role_id(&"r".repeat(128)));
    assert!(!valid_role_id(&"r".repeat(129)));
    assert!(valid_opaque_id("a/b", 3));
    assert!(!valid_opaque_id("a/b", 2));
    assert!(valid_identifier("organization-provisioner", 256));
    assert!(!valid_identifier("organization/provisioner", 256));
    assert!(valid_permission(&format!("{}.x", "p".repeat(198))));
    assert!(!valid_permission(&format!("{}.x", "p".repeat(199))));
}

#[test]
fn display_names_are_trimmed_and_free_of_control_characters() {
    assert!(valid_display_name("Viewer"));
    assert!(valid_display_name("  Viewer  "));
    assert!(valid_display_name("Café Team"));
    assert!(!valid_display_name(""));
    assert!(!valid_display_name(" \t\n "));
    assert!(!valid_display_name("View\u{7}er"));
    assert!(!valid_display_name("View\ner"));
    assert!(valid_display_name(&"n".repeat(200)));
    assert!(valid_display_name(&format!("  {}  ", "n".repeat(200))));
    assert!(!valid_display_name(&"n".repeat(201)));
}

#[test]
fn secret_references_are_relative_paths_without_dot_segments() {
    assert!(valid_secret_reference("access-control/database-url"));
    assert!(valid_secret_reference("db.url"));
    assert!(!valid_secret_reference(""));
    assert!(!valid_secret_reference("/access-control"));
    assert!(!valid_secret_reference("access-control/"));
    assert!(!valid_secret_reference("access//control"));
    assert!(!valid_secret_reference("access/./control"));
    assert!(!valid_secret_reference("access/../control"));
    assert!(!valid_secret_reference(".."));
    assert!(!valid_secret_reference("access control"));
    assert!(valid_secret_reference(&"s".repeat(256)));
    assert!(!valid_secret_reference(&"s".repeat(257)));
}

#[test]
fn directory_pages_hold_one_to_one_hundred_roles() {
    assert_eq!(valid_directory_page(0, None), None);
    assert_eq!(valid_directory_page(-5, None), None);
    assert_eq!(valid_directory_page(1, None), Some(1));
    assert_eq!(valid_directory_page(100, None), Some(100));
    assert_eq!(valid_directory_page(101, None), None);
    assert_eq!(valid_directory_page(10, Some("viewer")), Some(10));
    assert_eq!(valid_directory_page(10, Some("bad cursor")), None);
}

#[test]
fn texts_compare_bytewise() {
    assert_eq!(compare_text("A", "Z"), TextOrder::Before);
    assert_eq!(compare_text("Z", "a-"), TextOrder::Before);
    assert_eq!(compare_text("a-", "a_"), TextOrder::Before);
    assert_eq!(compare_text("a_", "access-control.bootstrap-admin"), TextOrder::Before);
    assert_eq!(compare_text("access-control.bootstrap-admin", "z"), TextOrder::Before);
    assert_eq!(compare_text("ab", "a"), TextOrder::After);
    assert_eq!(compare_text("viewer", "viewer"), TextOrder::Same);
    assert!(same_text("viewer", "viewer"));
    assert!(!same_text("viewer", "Viewer"));
}

#[test]
fn decimal_text_renders_every_digit() {
    assert_eq!(decimal_text(0), "0");
    assert_eq!(decimal_text(10), "10");
    assert_eq!(decimal_text(9_007_199_254_740_994), "9007199254740994");
    assert_eq!(decimal_text(u64::MAX), "18446744073709551615");
}
