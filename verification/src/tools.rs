//! Agent-facing tools over the directory and administration operations: the
//! catalog, the routing of a tool name to its operation, and the tool failure
//! that reports each domain error.
use vstd::prelude::*;
use crate::service::{AdminError, GetRoleError, ListRolesError};
use crate::text::same_text;

verus! {

pub const GET_ROLE_TOOL: &'static str = "access_control_get_role";
pub const LIST_ROLES_TOOL: &'static str = "access_control_list_roles";
pub const LIST_SUBJECT_ROLES_TOOL: &'static str = "access_control_list_subject_roles";
pub const CREATE_ROLE_TOOL: &'static str = "access_control_create_role";
pub const SET_ROLE_PERMISSIONS_TOOL: &'static str = "access_control_set_role_permissions";
pub const DELETE_ROLE_TOOL: &'static str = "access_control_delete_role";
pub const ASSIGN_ROLE_TOOL: &'static str = "access_control_assign_role";
pub const REVOKE_ROLE_TOOL: &'static str = "access_control_revoke_role";

/// One agent tool; bootstrap is deliberately not a tool.
#[derive(Clone, Copy, Debug, PartialEq, Eq, Structural)]
pub enum Tool {
    GetRole,
    ListRoles,
    ListSubjectRoles,
    CreateRole,
    SetRolePermissions,
    DeleteRole,
    AssignRole,
    RevokeRole,
}

/// Reads may run in parallel; mutations run alone.
#[derive(Clone, Copy, Debug, PartialEq, Eq, Structural)]
pub enum ToolExecution {
    ParallelSafe,
    Exclusive,
}

impl Tool {
    pub open spec fn spec_name(self) -> Seq<char> {
        match self {
            Tool::GetRole => GET_ROLE_TOOL@,
            Tool::ListRoles => LIST_ROLES_TOOL@,
            Tool::ListSubjectRoles => LIST_SUBJECT_ROLES_TOOL@,
            Tool::CreateRole => CREATE_ROLE_TOOL@,
            Tool::SetRolePermissions => SET_ROLE_PERMISSIONS_TOOL@,
            Tool::DeleteRole => DELETE_ROLE_TOOL@,
            Tool::AssignRole => ASSIGN_ROLE_TOOL@,
            Tool::RevokeRole => REVOKE_ROLE_TOOL@,
        }
    }

    /// Directory reads are the tools that do not change policy.
    pub open spec fn is_read(self) -> bool {
        self is GetRole || self is ListRoles || self is ListSubjectRoles
    }

    pub fn name(&self) -> (r: &'static str)
        ensures
            r@ == self.spec_name(),
    {
        match self {
            Tool::GetRole => GET_ROLE_TOOL,
            Tool::ListRoles => LIST_ROLES_TOOL,
            Tool::ListSubjectRoles => LIST_SUBJECT_ROLES_TOOL,
            Tool::CreateRole => CREATE_ROLE_TOOL,
            Tool::SetRolePermissions => SET_ROLE_PERMISSIONS_TOOL,
            Tool::DeleteRole => DELETE_ROLE_TOOL,
            Tool::AssignRole => ASSIGN_ROLE_TOOL,
            Tool::RevokeRole => REVOKE_ROLE_TOOL,
        }
    }

    pub fn execution(&self) -> (r: ToolExecution)
        ensures
            r == (if self.is_read() {
                ToolExecution::ParallelSafe
            } else {
                ToolExecution::Exclusive
            }),
    {
        match self {
            Tool::GetRole | Tool::ListRoles | Tool::ListSubjectRoles => ToolExecution::ParallelSafe,
            _ => ToolExecution::Exclusive,
        }
    }

    pub open spec fn spec_description(self) -> Seq<char> {
        match self {
            Tool::GetRole => "Get one role, its permissions, protected status, and the current scope policy revision."@,
            Tool::ListRoles => "List roles in one exact scope with bounded cursor pagination."@,
            Tool::ListSubjectRoles => "List roles currently assigned to one subject in one exact scope."@,
            Tool::CreateRole => "Create one role in a bootstrapped scope. Requires an operation-audienced ActorAssertion and scoped role-management permission."@,
            Tool::SetRolePermissions => "Replace one role's permission set. Requires an operation-audienced ActorAssertion and scoped role-management permission."@,
            Tool::DeleteRole => "Delete one unprotected role. Requires an operation-audienced ActorAssertion and scoped role-management permission."@,
            Tool::AssignRole => "Assign one role to one subject. Requires an operation-audienced ActorAssertion and scoped binding-management permission."@,
            Tool::RevokeRole => "Revoke one subject-role binding while preserving the protected bootstrap binding. Requires an operation-audienced ActorAssertion and scoped binding-management permission."@,
        }
    }

    pub fn description(&self) -> (r: &'static str)
        ensures
            r@ == self.spec_description(),
    {
        match self {
            Tool::GetRole => "Get one role, its permissions, protected status, and the current scope policy revision.",
            Tool::ListRoles => "List roles in one exact scope with bounded cursor pagination.",
            Tool::ListSubjectRoles => "List roles currently assigned to one subject in one exact scope.",
            Tool::CreateRole => "Create one role in a bootstrapped scope. Requires an operation-audienced ActorAssertion and scoped role-management permission.",
            Tool::SetRolePermissions => "Replace one role's permission set. Requires an operation-audienced ActorAssertion and scoped role-management permission.",
            Tool::DeleteRole => "Delete one unprotected role. Requires an operation-audienced ActorAssertion and scoped role-management permission.",
            Tool::AssignRole => "Assign one role to one subject. Requires an operation-audienced ActorAssertion and scoped binding-management permission.",
            Tool::RevokeRole => "Revoke one subject-role binding while preserving the protected bootstrap binding. Requires an operation-audienced ActorAssertion and scoped binding-management permission.",
        }
    }
}

/// The catalog order of the tools.
pub open spec fn catalog() -> Seq<Tool> {
    seq![
        Tool::GetRole,
        Tool::ListRoles,
        Tool::ListSubjectRoles,
        Tool::CreateRole,
        Tool::SetRolePermissions,
        Tool::DeleteRole,
        Tool::AssignRole,
        Tool::RevokeRole,
    ]
}

/// Every tool, in catalog order.
pub fn tools() -> (r: Vec<Tool>)
    ensures
        r@ == catalog(),
{
    let r = vec![
        Tool::GetRole,
        Tool::ListRoles,
        Tool::ListSubjectRoles,
        Tool::CreateRole,
        Tool::SetRolePermissions,
        Tool::DeleteRole,
        Tool::AssignRole,
        Tool::RevokeRole,
    ];
    assert(r@ =~= catalog());
    r
}

/// The tool a name selects, if any.
pub open spec fn tool_of(name: Seq<char>) -> Option<Tool> {
    if name == GET_ROLE_TOOL@ {
        Some(Tool::GetRole)
    } else if name == LIST_ROLES_TOOL@ {
        Some(Tool::ListRoles)
    } else if name == LIST_SUBJECT_ROLES_TOOL@ {
        Some(Tool::ListSubjectRoles)
    } else if name == CREATE_ROLE_TOOL@ {
        Some(Tool::CreateRole)
    } else if name == SET_ROLE_PERMISSIONS_TOOL@ {
        Some(Tool::SetRolePermissions)
    } else if name == DELETE_ROLE_TOOL@ {
        Some(Tool::DeleteRole)
    } else if name == ASSIGN_ROLE_TOOL@ {
        Some(Tool::AssignRole)
    } else if name == REVOKE_ROLE_TOOL@ {
        Some(Tool::RevokeRole)
    } else {
        None
    }
}

/// Routes a requested tool name; an unknown name selects no tool.
pub fn tool_named(name: &str) -> (r: Option<Tool>)
    ensures
        r == tool_of(name@),
{
    if same_text(name, GET_ROLE_TOOL) {
        Some(Tool::GetRole)
    } else if same_text(name, LIST_ROLES_TOOL) {
        Some(Tool::ListRoles)
    } else if same_text(name, LIST_SUBJECT_ROLES_TOOL) {
        Some(Tool::ListSubjectRoles)
    } else if same_text(name, CREATE_ROLE_TOOL) {
        Some(Tool::CreateRole)
    } else if same_text(name, SET_ROLE_PERMISSIONS_TOOL) {
        Some(Tool::SetRolePermissions)
    } else if same_text(name, DELETE_ROLE_TOOL) {
        Some(Tool::DeleteRole)
    } else if same_text(name, ASSIGN_ROLE_TOOL) {
        Some(Tool::AssignRole)
    } else if same_text(name, REVOKE_ROLE_TOOL) {
        Some(Tool::RevokeRole)
    } else {
        None
    }
}

/// Why Access Control rejected a tool's operation.
#[derive(Clone, Copy, Debug, PartialEq, Eq, Structural)]
pub enum Rejection {
    ScopeNotBootstrapped,
    RoleAlreadyExists,
    ProtectedRole,
    ProtectedBinding,
    UnknownDomainError,
}

impl Rejection {
    /// The reason code reported to the agent.
    pub open spec fn spec_code(self) -> Seq<char> {
        match self {
            Rejection::ScopeNotBootstrapped => "scope_not_bootstrapped"@,
            Rejection::RoleAlreadyExists => "role_already_exists"@,
            Rejection::ProtectedRole => "protected_role"@,
            Rejection::ProtectedBinding => "protected_binding"@,
            Rejection::UnknownDomainError => "unknown_domain_error"@,
        }
    }

    pub fn code(&self) -> (r: &'static str)
        ensures
            r@ == self.spec_code(),
    {
        match self {
            Rejection::ScopeNotBootstrapped => "scope_not_bootstrapped",
            Rejection::RoleAlreadyExists => "role_already_exists",
            Rejection::ProtectedRole => "protected_role",
            Rejection::ProtectedBinding => "protected_binding",
            Rejection::UnknownDomainError => "unknown_domain_error",
        }
    }
}

/// A tool execution failure.
#[derive(Clone, Copy, Debug, PartialEq, Eq, Structural)]
pub enum ToolFailure {
    PermissionDenied,
    InvalidArguments,
    NotFound,
    Rejected(Rejection),
}

pub open spec fn admin_tool_failure_spec(e: AdminError) -> ToolFailure {
    match e {
        AdminError::Unauthenticated | AdminError::Forbidden => ToolFailure::PermissionDenied,
        AdminError::InvalidRequest => ToolFailure::InvalidArguments,
        AdminError::RoleNotFound => ToolFailure::NotFound,
        AdminError::ScopeNotBootstrapped => ToolFailure::Rejected(Rejection::ScopeNotBootstrapped),
        AdminError::RoleAlreadyExists => ToolFailure::Rejected(Rejection::RoleAlreadyExists),
        AdminError::ProtectedRole => ToolFailure::Rejected(Rejection::ProtectedRole),
        AdminError::ProtectedBinding => ToolFailure::Rejected(Rejection::ProtectedBinding),
    }
}

/// The tool failure that reports an administration error.
pub fn admin_tool_failure(e: AdminError) -> (r: ToolFailure)
    ensures
        r == admin_tool_failure_spec(e),
{
    match e {
        AdminError::Unauthenticated | AdminError::Forbidden => ToolFailure::PermissionDenied,
        AdminError::InvalidRequest => ToolFailure::InvalidArguments,
        AdminError::RoleNotFound => ToolFailure::NotFound,
        AdminError::ScopeNotBootstrapped => ToolFailure::Rejected(Rejection::ScopeNotBootstrapped),
        AdminError::RoleAlreadyExists => ToolFailure::Rejected(Rejection::RoleAlreadyExists),
        AdminError::ProtectedRole => ToolFailure::Rejected(Rejection::ProtectedRole),
        AdminError::ProtectedBinding => ToolFailure::Rejected(Rejection::ProtectedBinding),
    }
}

/// The tool failure that reports a role lookup error.
pub fn get_role_tool_failure(e: GetRoleError) -> (r: ToolFailure)
    ensures
        r == (match e {
            GetRoleError::Forbidden => ToolFailure::PermissionDenied,
            GetRoleError::InvalidRequest => ToolFailure::InvalidArguments,
            GetRoleError::RoleNotFound => ToolFailure::NotFound,
            GetRoleError::ScopeNotBootstrapped => ToolFailure::Rejected(Rejection::ScopeNotBootstrapped),
        }),
{
    match e {
        GetRoleError::Forbidden => ToolFailure::PermissionDenied,
        GetRoleError::InvalidRequest => ToolFailure::InvalidArguments,
        GetRoleError::RoleNotFound => ToolFailure::NotFound,
        GetRoleError::ScopeNotBootstrapped => ToolFailure::Rejected(Rejection::ScopeNotBootstrapped),
    }
}

/// The tool failure that reports a directory listing error.
pub fn listing_tool_failure(e: ListRolesError) -> (r: ToolFailure)
    ensures
        r == (match e {
            ListRolesError::Forbidden => ToolFailure::PermissionDenied,
            ListRolesError::InvalidPage | ListRolesError::InvalidRequest => ToolFailure::InvalidArguments,
            ListRolesError::ScopeNotBootstrapped => ToolFailure::Rejected(Rejection::ScopeNotBootstrapped),
        }),
{
    match e {
        ListRolesError::Forbidden => ToolFailure::PermissionDenied,
        ListRolesError::InvalidPage | ListRolesError::InvalidRequest => ToolFailure::InvalidArguments,
        ListRolesError::ScopeNotBootstrapped => ToolFailure::Rejected(Rejection::ScopeNotBootstrapped),
    }
}

/// Law (routing): each tool's name routes back to that tool, so the names are
/// pairwise different.
pub proof fn law_tool_names_route_back(t: Tool)
    ensures
        tool_of(t.spec_name()) == Some(t),
{
    reveal_strlit("access_control_get_role");
    reveal_strlit("access_control_list_roles");
    reveal_strlit("access_control_list_subject_roles");
    reveal_strlit("access_control_create_role");
    reveal_strlit("access_control_set_role_permissions");
    reveal_strlit("access_control_delete_role");
    reveal_strlit("access_control_assign_role");
    reveal_strlit("access_control_revoke_role");
    assert(LIST_ROLES_TOOL@.len() != GET_ROLE_TOOL@.len());
    assert(LIST_SUBJECT_ROLES_TOOL@.len() != GET_ROLE_TOOL@.len());
    assert(LIST_SUBJECT_ROLES_TOOL@.len() != LIST_ROLES_TOOL@.len());
    assert(CREATE_ROLE_TOOL@.len() != GET_ROLE_TOOL@.len());
    assert(CREATE_ROLE_TOOL@.len() != LIST_ROLES_TOOL@.len());
    assert(CREATE_ROLE_TOOL@.len() != LIST_SUBJECT_ROLES_TOOL@.len());
    assert(SET_ROLE_PERMISSIONS_TOOL@.len() != GET_ROLE_TOOL@.len());
    assert(SET_ROLE_PERMISSIONS_TOOL@.len() != LIST_ROLES_TOOL@.len());
    assert(SET_ROLE_PERMISSIONS_TOOL@.len() != LIST_SUBJECT_ROLES_TOOL@.len());
    assert(SET_ROLE_PERMISSIONS_TOOL@.len() != CREATE_ROLE_TOOL@.len());
    assert(DELETE_ROLE_TOOL@.len() != GET_ROLE_TOOL@.len());
    assert(DELETE_ROLE_TOOL@.len() != LIST_ROLES_TOOL@.len());
    assert(DELETE_ROLE_TOOL@.len() != LIST_SUBJECT_ROLES_TOOL@.len());
    assert(DELETE_ROLE_TOOL@[15] != CREATE_ROLE_TOOL@[15]);
    assert(DELETE_ROLE_TOOL@.len() != SET_ROLE_PERMISSIONS_TOOL@.len());
    assert(ASSIGN_ROLE_TOOL@.len() != GET_ROLE_TOOL@.len());
    assert(ASSIGN_ROLE_TOOL@.len() != LIST_ROLES_TOOL@.len());
    assert(ASSIGN_ROLE_TOOL@.len() != LIST_SUBJECT_ROLES_TOOL@.len());
    assert(ASSIGN_ROLE_TOOL@[15] != CREATE_ROLE_TOOL@[15]);
    assert(ASSIGN_ROLE_TOOL@.len() != SET_ROLE_PERMISSIONS_TOOL@.len());
    assert(ASSIGN_ROLE_TOOL@[15] != DELETE_ROLE_TOOL@[15]);
    assert(REVOKE_ROLE_TOOL@.len() != GET_ROLE_TOOL@.len());
    assert(REVOKE_ROLE_TOOL@.len() != LIST_ROLES_TOOL@.len());
    assert(REVOKE_ROLE_TOOL@.len() != LIST_SUBJECT_ROLES_TOOL@.len());
    assert(REVOKE_ROLE_TOOL@[15] != CREATE_ROLE_TOOL@[15]);
    assert(REVOKE_ROLE_TOOL@.len() != SET_ROLE_PERMISSIONS_TOOL@.len());
    assert(REVOKE_ROLE_TOOL@[15] != DELETE_ROLE_TOOL@[15]);
    assert(REVOKE_ROLE_TOOL@[15] != ASSIGN_ROLE_TOOL@[15]);
}

} // verus!
