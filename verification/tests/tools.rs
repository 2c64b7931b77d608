use lenso_access_control::service::{AdminError, GetRoleError, ListRolesError};
use lenso_capability_access_control_directory::ListRolesRequest;
use lenso_access_control::tools::{
    admin_tool_failure, get_role_tool_failure, listing_tool_failure, tool_named, tools, Rejection,
    Tool, ToolExecution, ToolFailure, LIST_ROLES_TOOL, REVOKE_ROLE_TOOL,
};

#[test]
fn catalog_separates_reads_from_mutations_and_excludes_bootstrap() {
    let tools = tools();
    assert_eq!(tools.len(), 8);
    assert_eq!(
        tools
            .iter()
            .filter(|tool| tool.execution() == ToolExecution::ParallelSafe)
            .count(),
        3
    );
    assert_eq!(
        tools
            .iter()
            .filter(|tool| tool.execution() == ToolExecution::Exclusive)
            .count(),
        5
    );
    assert!(tools.iter().all(|tool| !tool.name().contains("bootstrap")));
}

#[test]
fn tool_names_route_to_their_tools() {
    for tool in tools() {
        assert_eq!(tool_named(tool.name()), Some(tool));
        assert!(!tool.description().is_empty());
    }
    assert_eq!(tool_named(LIST_ROLES_TOOL), Some(Tool::ListRoles));
    assert_eq!(tool_named(REVOKE_ROLE_TOOL), Some(Tool::RevokeRole));
    assert_eq!(tool_named("access_control_bootstrap_scope"), None);
    assert_eq!(tool_named(""), None);
}

#[test]
fn requests_and_domain_failures_preserve_contract_semantics() {
    let list: ListRolesRequest = serde_json::from_str(
        r#"{"scope":{"kind":"organization","id":"org_acme"},"limit":50,"cursor":null}"#,
    )
    .unwrap();
    assert_eq!(list.limit, 50);
    assert!(serde_json::from_str::<ListRolesRequest>(
        r#"{"scope":{"kind":"organization","id":"org_acme"},"limit":"50","cursor":null}"#,
    )
    .is_err());
    assert_eq!(
        admin_tool_failure(AdminError::Unauthenticated),
        ToolFailure::PermissionDenied
    );
    assert_eq!(get_role_tool_failure(GetRoleError::RoleNotFound), ToolFailure::NotFound);
    assert!(matches!(
        admin_tool_failure(AdminError::ProtectedBinding),
        ToolFailure::Rejected(_)
    ));
}

#[test]
fn domain_failures_map_to_tool_failures() {
    assert_eq!(
        admin_tool_failure(AdminError::Unauthenticated),
        ToolFailure::PermissionDenied
    );
    assert_eq!(admin_tool_failure(AdminError::Forbidden), ToolFailure::PermissionDenied);
    assert_eq!(
        admin_tool_failure(AdminError::InvalidRequest),
        ToolFailure::InvalidArguments
    );
    assert_eq!(admin_tool_failure(AdminError::RoleNotFound), ToolFailure::NotFound);
    assert_eq!(
        admin_tool_failure(AdminError::ProtectedBinding),
        ToolFailure::Rejected(Rejection::ProtectedBinding)
    );
    assert_eq!(Rejection::ProtectedBinding.code(), "protected_binding");
    assert_eq!(
        admin_tool_failure(AdminError::ScopeNotBootstrapped),
        ToolFailure::Rejected(Rejection::ScopeNotBootstrapped)
    );
    assert_eq!(Rejection::UnknownDomainError.code(), "unknown_domain_error");
    assert_eq!(get_role_tool_failure(GetRoleError::RoleNotFound), ToolFailure::NotFound);
    assert_eq!(
        listing_tool_failure(ListRolesError::InvalidPage),
        ToolFailure::InvalidArguments
    );
    assert_eq!(
        listing_tool_failure(ListRolesError::ScopeNotBootstrapped),
        ToolFailure::Rejected(Rejection::ScopeNotBootstrapped)
    );
}
