use lenso_access_control::config::{
    all_distinct, contains_text, validate_config, AccessControlConfig, AccessControlConfigError,
    D1Config, D1ConfigError, PolicyConfig, PolicyError,
};
use lenso_auth_sdk::ActorAssertionIssuer;

fn key() -> String {
    ActorAssertionIssuer::new("auth.users", b"access-control-test-key").public_key_base64()
}

fn policy() -> PolicyConfig {
    PolicyConfig::new(
        "auth.users".to_owned(),
        key(),
        vec!["organization-provisioner".to_owned()],
    )
    .unwrap()
    .with_directory_callers(vec!["access-request".to_owned()])
    .unwrap()
}

fn config() -> AccessControlConfig {
    AccessControlConfig::new(
        "access_control".to_owned(),
        "access-control/database-url".to_owned(),
        "auth.users".to_owned(),
        key(),
        vec!["organization-provisioner".to_owned()],
    )
    .unwrap()
    .with_directory_callers(vec!["access-request".to_owned()])
    .unwrap()
}

fn d1() -> D1Config {
    D1Config {
        binding: "ACCESS_CONTROL_DB".to_owned(),
        auth_issuer: "auth.users".to_owned(),
        auth_assertion_public_key: key(),
        bootstrap_callers: vec!["organization-provisioner".to_owned()],
        directory_callers: vec!["access-request".to_owned()],
    }
}

#[test]
fn config_rejects_ambient_or_duplicate_bootstrap_authority() {
    let mut invalid = config();
    invalid.bootstrap_callers.clear();
    assert_eq!(
        invalid.validate(),
        Err(AccessControlConfigError::InvalidBootstrapCallers)
    );
    let mut invalid = config();
    invalid
        .bootstrap_callers
        .push("organization-provisioner".to_owned());
    assert_eq!(
        invalid.validate(),
        Err(AccessControlConfigError::DuplicateBootstrapCaller)
    );

    let mut invalid = config();
    invalid.directory_callers.push("access-request".to_owned());
    assert_eq!(
        invalid.validate(),
        Err(AccessControlConfigError::DuplicateDirectoryCaller)
    );
}

#[test]
fn a_valid_policy_configuration_is_kept_as_given() {
    let policy = policy();
    assert_eq!(policy.validate(), Ok(()));
    assert_eq!(policy.auth_issuer, "auth.users");
    assert_eq!(policy.bootstrap_callers, vec!["organization-provisioner".to_owned()]);
    assert_eq!(policy.directory_callers, vec!["access-request".to_owned()]);
    assert!(policy.bootstrap_authorized(Some("organization-provisioner")));
    assert!(!policy.bootstrap_authorized(Some("access-request")));
    assert!(!policy.bootstrap_authorized(None));
    assert!(policy.directory_authorized(Some("access-request")));
    assert!(!policy.directory_authorized(Some("organization-provisioner")));
}

#[test]
fn policy_rules_are_checked_in_order() {
    assert_eq!(
        PolicyConfig::new("auth users".to_owned(), key(), vec!["a".to_owned()]).unwrap_err(),
        PolicyError::InvalidAuthIssuer
    );
    assert_eq!(
        PolicyConfig::new("auth/users".to_owned(), key(), vec!["a".to_owned()]).unwrap_err(),
        PolicyError::InvalidAuthIssuer
    );
    assert_eq!(
        PolicyConfig::new("auth.users".to_owned(), "not-a-key".to_owned(), vec![]).unwrap_err(),
        PolicyError::InvalidAuthPublicKey
    );
    assert_eq!(
        PolicyConfig::new("auth.users".to_owned(), String::new(), vec!["a".to_owned()]).unwrap_err(),
        PolicyError::InvalidAuthPublicKey
    );
    assert_eq!(
        PolicyConfig::new("auth.users".to_owned(), key(), vec![]).unwrap_err(),
        PolicyError::InvalidBootstrapCallers
    );
    let many: Vec<String> = (0..65).map(|i| format!("caller-{i}")).collect();
    assert_eq!(
        PolicyConfig::new("auth.users".to_owned(), key(), many).unwrap_err(),
        PolicyError::InvalidBootstrapCallers
    );
    let most: Vec<String> = (0..64).map(|i| format!("caller-{i}")).collect();
    assert!(PolicyConfig::new("auth.users".to_owned(), key(), most).is_ok());
    assert_eq!(
        PolicyConfig::new("auth.users".to_owned(), key(), vec!["a/b".to_owned()]).unwrap_err(),
        PolicyError::InvalidBootstrapCallers
    );
    assert_eq!(
        PolicyConfig::new("auth.users".to_owned(), key(), vec!["a".to_owned(), "a".to_owned()])
            .unwrap_err(),
        PolicyError::DuplicateBootstrapCaller
    );
    let base = PolicyConfig::new("auth.users".to_owned(), key(), vec!["a".to_owned()]).unwrap();
    assert_eq!(
        base.clone()
            .with_directory_callers(vec!["bad caller".to_owned()])
            .unwrap_err(),
        PolicyError::InvalidDirectoryCallers
    );
    assert_eq!(
        base.clone()
            .with_directory_callers((0..65).map(|i| format!("reader-{i}")).collect())
            .unwrap_err(),
        PolicyError::InvalidDirectoryCallers
    );
    assert_eq!(
        base.with_directory_callers(vec!["r".to_owned(), "r".to_owned()])
            .unwrap_err(),
        PolicyError::DuplicateDirectoryCaller
    );
}

#[test]
fn postgres_configuration_checks_schema_and_secret_first() {
    let mut invalid = config();
    invalid.schema = "public".to_owned();
    assert_eq!(invalid.validate(), Err(AccessControlConfigError::InvalidSchema));
    invalid.schema = "pg_access".to_owned();
    assert_eq!(invalid.validate(), Err(AccessControlConfigError::InvalidSchema));
    invalid.schema = "Access".to_owned();
    assert_eq!(invalid.validate(), Err(AccessControlConfigError::InvalidSchema));
    invalid.schema = "access_control_2".to_owned();
    assert_eq!(invalid.validate(), Ok(()));
    invalid.database_url_secret = "/database-url".to_owned();
    assert_eq!(
        invalid.validate(),
        Err(AccessControlConfigError::InvalidSecretReference)
    );
    let mut invalid = config();
    invalid.auth_assertion_public_key = "AAAA".to_owned();
    assert_eq!(
        invalid.validate(),
        Err(AccessControlConfigError::InvalidAuthPublicKey)
    );
    assert_eq!(config().schema(), "access_control");
    assert_eq!(config().database_url_secret(), "access-control/database-url");
}

#[test]
fn d1_configuration_checks_the_binding_then_the_policy() {
    assert_eq!(validate_config(&d1()), Ok(()));
    let mut invalid = d1();
    invalid.binding = String::new();
    assert_eq!(validate_config(&invalid), Err(D1ConfigError::InvalidBinding));
    invalid.binding = "1DB".to_owned();
    assert_eq!(validate_config(&invalid), Err(D1ConfigError::InvalidBinding));
    invalid.binding = "access-control".to_owned();
    assert_eq!(validate_config(&invalid), Err(D1ConfigError::InvalidBinding));
    invalid.binding = "b".repeat(129);
    assert_eq!(validate_config(&invalid), Err(D1ConfigError::InvalidBinding));
    invalid.binding = "b".repeat(128);
    assert_eq!(validate_config(&invalid), Ok(()));
    let mut invalid = d1();
    invalid.bootstrap_callers.clear();
    assert_eq!(
        validate_config(&invalid),
        Err(D1ConfigError::Policy(PolicyError::InvalidBootstrapCallers))
    );
    assert!(d1().binding_is("ACCESS_CONTROL_DB"));
    assert!(!d1().binding_is("OTHER_DB"));
    let policy = d1().policy();
    assert_eq!(policy.directory_callers, vec!["access-request".to_owned()]);
}

#[test]
fn caller_lists_are_searched_exactly() {
    let callers = vec!["a".to_owned(), "b".to_owned()];
    assert!(contains_text(&callers, "b"));
    assert!(!contains_text(&callers, "B"));
    assert!(all_distinct(&callers));
    assert!(!all_distinct(&vec!["a".to_owned(), "b".to_owned(), "a".to_owned()]));
}

#[test]
fn postgres_configuration_reports_every_policy_rule() {
    let mut invalid = config();
    invalid.auth_issuer = "auth users".to_owned();
    assert_eq!(invalid.validate(), Err(AccessControlConfigError::InvalidAuthIssuer));
    let mut invalid = config();
    invalid.directory_callers.push("bad caller".to_owned());
    assert_eq!(
        invalid.validate(),
        Err(AccessControlConfigError::InvalidDirectoryCallers)
    );
}
