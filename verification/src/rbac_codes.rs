//! Stored text of role-based access control values: permissions, built-in roles, role kinds,
//! role scopes and principals, and how that text is read back.
use crate::text::text_eq;
use vstd::prelude::*;

verus! {

/// What a role may grant.
#[derive(Clone, Copy, Debug, PartialEq, Eq, Structural)]
pub enum Permission {
    InstanceRead,
    InstanceManage,
    AccountRead,
    AccountManage,
    MembershipManage,
    RoleManage,
    SystemRead,
    SystemManage,
    TelemetryRead,
    TelemetryWrite,
    CredentialManage,
    IntegrationManage,
    AuditRead,
}

/// The roles that every installation carries.
#[derive(Clone, Copy, Debug, PartialEq, Eq, Structural)]
pub enum BuiltInRole {
    InstanceAdministrator,
    AccountOwner,
    AccountAdministrator,
    Manager,
    Contributor,
    Operator,
    Analyst,
    Viewer,
    Auditor,
    Uploader,
}

/// Whether a role was defined by an account or ships with the installation.
#[derive(Clone, Copy, Debug, PartialEq, Eq, Structural)]
pub enum RoleKind {
    Custom,
    BuiltIn(BuiltInRole),
}

/// Where a role assignment applies; identifiers are the big-endian values of their UUIDs.
#[derive(Clone, Copy, Debug, PartialEq, Eq, Structural)]
pub enum RoleScope {
    Instance,
    Account(u128),
    System { account_id: u128, system_id: u128 },
}

/// Who holds a role assignment; identifiers are the big-endian values of their UUIDs.
#[derive(Clone, Copy, Debug, PartialEq, Eq, Structural)]
pub enum PrincipalId {
    User(u128),
    ApiCredential(u128),
}

/// Failure of an access-control store: a stored or offered value is refused (with its code),
/// a write conflicts with an existing row, or the store cannot be reached.
#[derive(Clone, Debug, PartialEq, Eq)]
pub enum PortError {
    Rejected(String),
    Conflict,
    Unavailable,
}

/// The error refuses a value with the given code.
pub open spec fn rejects_with(e: PortError, code: Seq<char>) -> bool {
    e matches PortError::Rejected(m) && m@ == code
}

pub open spec fn permission_text(p: Permission) -> Seq<char> {
    match p {
        Permission::InstanceRead => "instance_read"@,
        Permission::InstanceManage => "instance_manage"@,
        Permission::AccountRead => "account_read"@,
        Permission::AccountManage => "account_manage"@,
        Permission::MembershipManage => "membership_manage"@,
        Permission::RoleManage => "role_manage"@,
        Permission::SystemRead => "system_read"@,
        Permission::SystemManage => "system_manage"@,
        Permission::TelemetryRead => "telemetry_read"@,
        Permission::TelemetryWrite => "telemetry_write"@,
        Permission::CredentialManage => "credential_manage"@,
        Permission::IntegrationManage => "integration_manage"@,
        Permission::AuditRead => "audit_read"@,
    }
}

/// The permission whose stored text is `v`, if any.
pub open spec fn permission_of_text(v: Seq<char>) -> Option<Permission> {
    if v == "instance_read"@ {
        Some(Permission::InstanceRead)
    } else if v == "instance_manage"@ {
        Some(Permission::InstanceManage)
    } else if v == "account_read"@ {
        Some(Permission::AccountRead)
    } else if v == "account_manage"@ {
        Some(Permission::AccountManage)
    } else if v == "membership_manage"@ {
        Some(Permission::MembershipManage)
    } else if v == "role_manage"@ {
        Some(Permission::RoleManage)
    } else if v == "system_read"@ {
        Some(Permission::SystemRead)
    } else if v == "system_manage"@ {
        Some(Permission::SystemManage)
    } else if v == "telemetry_read"@ {
        Some(Permission::TelemetryRead)
    } else if v == "telemetry_write"@ {
        Some(Permission::TelemetryWrite)
    } else if v == "credential_manage"@ {
        Some(Permission::CredentialManage)
    } else if v == "integration_manage"@ {
        Some(Permission::IntegrationManage)
    } else if v == "audit_read"@ {
        Some(Permission::AuditRead)
    } else {
        None
    }
}

/// The stored text of a permission.
pub fn permission_name(p: Permission) -> (r: &'static str)
    ensures
        r@ == permission_text(p),
{
    match p {
        Permission::InstanceRead => "instance_read",
        Permission::InstanceManage => "instance_manage",
        Permission::AccountRead => "account_read",
        Permission::AccountManage => "account_manage",
        Permission::MembershipManage => "membership_manage",
        Permission::RoleManage => "role_manage",
        Permission::SystemRead => "system_read",
        Permission::SystemManage => "system_manage",
        Permission::TelemetryRead => "telemetry_read",
        Permission::TelemetryWrite => "telemetry_write",
        Permission::CredentialManage => "credential_manage",
        Permission::IntegrationManage => "integration_manage",
        Permission::AuditRead => "audit_read",
    }
}

/// Reads a stored permission; unknown text is refused with `invalid_permission`.
pub fn parse_permission(v: &str) -> (r: Result<Permission, PortError>)
    ensures
        match r {
            Ok(p) => permission_of_text(v@) == Some(p),
            Err(e) => permission_of_text(v@) is None && rejects_with(e, "invalid_permission"@),
        },
{
    if text_eq(v, "instance_read") {
        Ok(Permission::InstanceRead)
    } else if text_eq(v, "instance_manage") {
        Ok(Permission::InstanceManage)
    } else if text_eq(v, "account_read") {
        Ok(Permission::AccountRead)
    } else if text_eq(v, "account_manage") {
        Ok(Permission::AccountManage)
    } else if text_eq(v, "membership_manage") {
        Ok(Permission::MembershipManage)
    } else if text_eq(v, "role_manage") {
        Ok(Permission::RoleManage)
    } else if text_eq(v, "system_read") {
        Ok(Permission::SystemRead)
    } else if text_eq(v, "system_manage") {
        Ok(Permission::SystemManage)
    } else if text_eq(v, "telemetry_read") {
        Ok(Permission::TelemetryRead)
    } else if text_eq(v, "telemetry_write") {
        Ok(Permission::TelemetryWrite)
    } else if text_eq(v, "credential_manage") {
        Ok(Permission::CredentialManage)
    } else if text_eq(v, "integration_manage") {
        Ok(Permission::IntegrationManage)
    } else if text_eq(v, "audit_read") {
        Ok(Permission::AuditRead)
    } else {
        Err(PortError::Rejected("invalid_permission".to_owned()))
    }
}

/// Every permission reads back from its stored text as itself.
pub proof fn permission_text_round_trip(p: Permission)
    ensures
        permission_of_text(permission_text(p)) == Some(p),
{
    reveal_strlit("instance_read");
    reveal_strlit("instance_manage");
    reveal_strlit("account_read");
    reveal_strlit("account_manage");
    reveal_strlit("membership_manage");
    reveal_strlit("role_manage");
    reveal_strlit("system_read");
    reveal_strlit("system_manage");
    reveal_strlit("telemetry_read");
    reveal_strlit("telemetry_write");
    reveal_strlit("credential_manage");
    reveal_strlit("integration_manage");
    reveal_strlit("audit_read");
    assert("instance_read"@.len() == 13 && "instance_read"@[0] == 'i');
    assert("instance_manage"@.len() == 15 && "instance_manage"@[0] == 'i');
    assert("account_read"@.len() == 12 && "account_read"@[0] == 'a');
    assert("account_manage"@.len() == 14 && "account_manage"@[0] == 'a');
    assert("membership_manage"@.len() == 17 && "membership_manage"@[0] == 'm');
    assert("role_manage"@.len() == 11 && "role_manage"@[0] == 'r');
    assert("system_read"@.len() == 11 && "system_read"@[0] == 's');
    assert("system_manage"@.len() == 13 && "system_manage"@[0] == 's');
    assert("telemetry_read"@.len() == 14 && "telemetry_read"@[0] == 't');
    assert("telemetry_write"@.len() == 15 && "telemetry_write"@[0] == 't');
    assert("credential_manage"@.len() == 17 && "credential_manage"@[0] == 'c');
    assert("integration_manage"@.len() == 18 && "integration_manage"@[0] == 'i');
    assert("audit_read"@.len() == 10 && "audit_read"@[0] == 'a');
}

pub open spec fn builtin_text(v: BuiltInRole) -> Seq<char> {
    match v {
        BuiltInRole::InstanceAdministrator => "instance_administrator"@,
        BuiltInRole::AccountOwner => "owner"@,
        BuiltInRole::AccountAdministrator => "administrator"@,
        BuiltInRole::Manager => "manager"@,
        BuiltInRole::Contributor => "contributor"@,
        BuiltInRole::Operator => "operator"@,
        BuiltInRole::Analyst => "analyst"@,
        BuiltInRole::Viewer => "viewer"@,
        BuiltInRole::Auditor => "auditor"@,
        BuiltInRole::Uploader => "uploader"@,
    }
}

/// The built-in role whose stored key is `v`, if any.
pub open spec fn builtin_of_text(v: Seq<char>) -> Option<BuiltInRole> {
    if v == "instance_administrator"@ {
        Some(BuiltInRole::InstanceAdministrator)
    } else if v == "owner"@ {
        Some(BuiltInRole::AccountOwner)
    } else if v == "administrator"@ {
        Some(BuiltInRole::AccountAdministrator)
    } else if v == "manager"@ {
        Some(BuiltInRole::Manager)
    } else if v == "contributor"@ {
        Some(BuiltInRole::Contributor)
    } else if v == "operator"@ {
        Some(BuiltInRole::Operator)
    } else if v == "analyst"@ {
        Some(BuiltInRole::Analyst)
    } else if v == "viewer"@ {
        Some(BuiltInRole::Viewer)
    } else if v == "auditor"@ {
        Some(BuiltInRole::Auditor)
    } else if v == "uploader"@ {
        Some(BuiltInRole::Uploader)
    } else {
        None
    }
}

/// The stored key of a built-in role.
pub fn builtin_name(v: BuiltInRole) -> (r: &'static str)
    ensures
        r@ == builtin_text(v),
{
    match v {
        BuiltInRole::InstanceAdministrator => "instance_administrator",
        BuiltInRole::AccountOwner => "owner",
        BuiltInRole::AccountAdministrator => "administrator",
        BuiltInRole::Manager => "manager",
        BuiltInRole::Contributor => "contributor",
        BuiltInRole::Operator => "operator",
        BuiltInRole::Analyst => "analyst",
        BuiltInRole::Viewer => "viewer",
        BuiltInRole::Auditor => "auditor",
        BuiltInRole::Uploader => "uploader",
    }
}

/// Reads a stored built-in role key; unknown keys are refused with `invalid_builtin_key`.
pub fn parse_builtin(v: &str) -> (r: Result<BuiltInRole, PortError>)
    ensures
        match r {
            Ok(b) => builtin_of_text(v@) == Some(b),
            Err(e) => builtin_of_text(v@) is None && rejects_with(e, "invalid_builtin_key"@),
        },
{
    if text_eq(v, "instance_administrator") {
        Ok(BuiltInRole::InstanceAdministrator)
    } else if text_eq(v, "owner") {
        Ok(BuiltInRole::AccountOwner)
    } else if text_eq(v, "administrator") {
        Ok(BuiltInRole::AccountAdministrator)
    } else if text_eq(v, "manager") {
        Ok(BuiltInRole::Manager)
    } else if text_eq(v, "contributor") {
        Ok(BuiltInRole::Contributor)
    } else if text_eq(v, "operator") {
        Ok(BuiltInRole::Operator)
    } else if text_eq(v, "analyst") {
        Ok(BuiltInRole::Analyst)
    } else if text_eq(v, "viewer") {
        Ok(BuiltInRole::Viewer)
    } else if text_eq(v, "auditor") {
        Ok(BuiltInRole::Auditor)
    } else if text_eq(v, "uploader") {
        Ok(BuiltInRole::Uploader)
    } else {
        Err(PortError::Rejected("invalid_builtin_key".to_owned()))
    }
}

/// Every built-in role reads back from its stored key as itself.
pub proof fn builtin_text_round_trip(v: BuiltInRole)
    ensures
        builtin_of_text(builtin_text(v)) == Some(v),
{
    reveal_strlit("instance_administrator");
    reveal_strlit("owner");
    reveal_strlit("administrator");
    reveal_strlit("manager");
    reveal_strlit("contributor");
    reveal_strlit("operator");
    reveal_strlit("analyst");
    reveal_strlit("viewer");
    reveal_strlit("auditor");
    reveal_strlit("uploader");
    assert("instance_administrator"@.len() == 22 && "instance_administrator"@[0] == 'i' && "instance_administrator"@[1] == 'n');
    assert("owner"@.len() == 5 && "owner"@[0] == 'o' && "owner"@[1] == 'w');
    assert("administrator"@.len() == 13 && "administrator"@[0] == 'a' && "administrator"@[1] == 'd');
    assert("manager"@.len() == 7 && "manager"@[0] == 'm' && "manager"@[1] == 'a');
    assert("contributor"@.len() == 11 && "contributor"@[0] == 'c' && "contributor"@[1] == 'o');
    assert("operator"@.len() == 8 && "operator"@[0] == 'o' && "operator"@[1] == 'p');
    assert("analyst"@.len() == 7 && "analyst"@[0] == 'a' && "analyst"@[1] == 'n');
    assert("viewer"@.len() == 6 && "viewer"@[0] == 'v' && "viewer"@[1] == 'i');
    assert("auditor"@.len() == 7 && "auditor"@[0] == 'a' && "auditor"@[1] == 'u');
    assert("uploader"@.len() == 8 && "uploader"@[0] == 'u' && "uploader"@[1] == 'p');
}

/// The stored kind and built-in key of a role kind.
pub open spec fn role_kind_text(k: RoleKind) -> (Seq<char>, Option<Seq<char>>) {
    match k {
        RoleKind::Custom => ("custom"@, None),
        RoleKind::BuiltIn(v) => ("built_in"@, Some(builtin_text(v))),
    }
}

/// How a stored kind and built-in key read back: the role kind, or the code it is refused with.
pub open spec fn role_kind_of_text(kind: Seq<char>, key: Option<Seq<char>>) -> Result<RoleKind, Seq<char>> {
    if kind == "custom"@ {
        Ok(RoleKind::Custom)
    } else if kind == "built_in"@ {
        match key {
            None => Err("missing_builtin_key"@),
            Some(k) => match builtin_of_text(k) {
                Some(v) => Ok(RoleKind::BuiltIn(v)),
                None => Err("invalid_builtin_key"@),
            },
        }
    } else {
        Err("invalid_role_kind"@)
    }
}

pub open spec fn text_option(key: Option<String>) -> Option<Seq<char>> {
    match key {
        Some(k) => Some(k@),
        None => None,
    }
}

/// The stored kind and built-in key of a role kind; a custom role has no key.
pub fn role_kind(k: &RoleKind) -> (r: (&'static str, Option<&'static str>))
    ensures
        r.0@ == role_kind_text(*k).0,
        r.1 is Some <==> role_kind_text(*k).1 is Some,
        r.1 matches Some(key) ==> role_kind_text(*k).1 == Some(key@),
{
    match k {
        RoleKind::Custom => ("custom", None),
        RoleKind::BuiltIn(v) => ("built_in", Some(builtin_name(*v))),
    }
}

/// Reads a stored role kind with its built-in key.
pub fn parse_kind(kind: &str, key: Option<String>) -> (r: Result<RoleKind, PortError>)
    ensures
        match r {
            Ok(k) => role_kind_of_text(kind@, text_option(key)) == Ok::<RoleKind, Seq<char>>(k),
            Err(e) => role_kind_of_text(kind@, text_option(key)) matches Err(code) && rejects_with(e, code),
        },
{
    if text_eq(kind, "custom") {
        Ok(RoleKind::Custom)
    } else if text_eq(kind, "built_in") {
        match key {
            None => Err(PortError::Rejected("missing_builtin_key".to_owned())),
            Some(k) => match parse_builtin(k.as_str()) {
                Ok(v) => Ok(RoleKind::BuiltIn(v)),
                Err(e) => Err(e),
            },
        }
    } else {
        Err(PortError::Rejected("invalid_role_kind".to_owned()))
    }
}

/// Every role kind reads back from its stored kind and key as itself.
pub proof fn role_kind_text_round_trip(k: RoleKind)
    ensures
        role_kind_of_text(role_kind_text(k).0, role_kind_text(k).1) == Ok::<RoleKind, Seq<char>>(k),
{
    reveal_strlit("custom");
    reveal_strlit("built_in");
    assert("custom"@.len() == 6 && "built_in"@.len() == 8);
    if let RoleKind::BuiltIn(v) = k {
        builtin_text_round_trip(v);
    }
}

/// The stored scope kind with its account and system.
pub open spec fn scope_text(s: RoleScope) -> (Seq<char>, Option<u128>, Option<u128>) {
    match s {
        RoleScope::Instance => ("instance"@, None, None),
        RoleScope::Account(a) => ("account"@, Some(a), None),
        RoleScope::System { account_id, system_id } => ("system"@, Some(account_id), Some(system_id)),
    }
}

/// The scope that a stored kind, account and system read back as, if they fit together.
pub open spec fn scope_of_text(kind: Seq<char>, a: Option<u128>, s: Option<u128>) -> Option<RoleScope> {
    if kind == "instance"@ && a is None && s is None {
        Some(RoleScope::Instance)
    } else if kind == "account"@ && a is Some && s is None {
        Some(RoleScope::Account(a->0))
    } else if kind == "system"@ && a is Some && s is Some {
        Some(RoleScope::System { account_id: a->0, system_id: s->0 })
    } else {
        None
    }
}

/// The stored kind, account and system of a scope.
pub fn scope_parts(s: RoleScope) -> (r: (&'static str, Option<u128>, Option<u128>))
    ensures
        r.0@ == scope_text(s).0,
        r.1 == scope_text(s).1,
        r.2 == scope_text(s).2,
{
    match s {
        RoleScope::Instance => ("instance", None, None),
        RoleScope::Account(a) => ("account", Some(a), None),
        RoleScope::System { account_id, system_id } => ("system", Some(account_id), Some(system_id)),
    }
}

/// Reads a stored scope; a kind whose account and system do not fit it is refused with
/// `invalid_role_scope`.
pub fn parse_scope(kind: &str, a: Option<u128>, s: Option<u128>) -> (r: Result<RoleScope, PortError>)
    ensures
        match r {
            Ok(scope) => scope_of_text(kind@, a, s) == Some(scope),
            Err(e) => scope_of_text(kind@, a, s) is None && rejects_with(e, "invalid_role_scope"@),
        },
{
    if text_eq(kind, "instance") && a.is_none() && s.is_none() {
        Ok(RoleScope::Instance)
    } else if text_eq(kind, "account") && a.is_some() && s.is_none() {
        Ok(RoleScope::Account(a.unwrap()))
    } else if text_eq(kind, "system") && a.is_some() && s.is_some() {
        Ok(RoleScope::System { account_id: a.unwrap(), system_id: s.unwrap() })
    } else {
        Err(PortError::Rejected("invalid_role_scope".to_owned()))
    }
}

/// Every scope reads back from its stored kind, account and system as itself.
pub proof fn scope_text_round_trip(s: RoleScope)
    ensures
        scope_of_text(scope_text(s).0, scope_text(s).1, scope_text(s).2) == Some(s),
{
    reveal_strlit("instance");
    reveal_strlit("account");
    reveal_strlit("system");
    assert("instance"@.len() == 8 && "account"@.len() == 7 && "system"@.len() == 6);
}

/// The stored kind and identifier of a principal.
pub fn principal_parts(p: PrincipalId) -> (r: (&'static str, u128))
    ensures
        match p {
            PrincipalId::User(id) => r.0@ == "user"@ && r.1 == id,
            PrincipalId::ApiCredential(id) => r.0@ == "api_credential"@ && r.1 == id,
        },
{
    match p {
        PrincipalId::User(id) => ("user", id),
        PrincipalId::ApiCredential(id) => ("api_credential", id),
    }
}

} // verus!
