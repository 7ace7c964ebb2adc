use pvlog_storage_core::rbac_codes::{
    builtin_name, parse_builtin, parse_kind, parse_permission, parse_scope, permission_name, principal_parts,
    role_kind, scope_parts, BuiltInRole, Permission, PortError, PrincipalId, RoleKind, RoleScope,
};

const PERMISSIONS: [Permission; 13] = [
    Permission::InstanceRead,
    Permission::InstanceManage,
    Permission::AccountRead,
    Permission::AccountManage,
    Permission::MembershipManage,
    Permission::RoleManage,
    Permission::SystemRead,
    Permission::SystemManage,
    Permission::TelemetryRead,
    Permission::TelemetryWrite,
    Permission::CredentialManage,
    Permission::IntegrationManage,
    Permission::AuditRead,
];

const ROLES: [BuiltInRole; 10] = [
    BuiltInRole::InstanceAdministrator,
    BuiltInRole::AccountOwner,
    BuiltInRole::AccountAdministrator,
    BuiltInRole::Manager,
    BuiltInRole::Contributor,
    BuiltInRole::Operator,
    BuiltInRole::Analyst,
    BuiltInRole::Viewer,
    BuiltInRole::Auditor,
    BuiltInRole::Uploader,
];

fn rejected(code: &str) -> PortError {
    PortError::Rejected(code.to_owned())
}

#[test]
fn every_permission_reads_back_as_itself() {
    for p in PERMISSIONS {
        assert_eq!(parse_permission(permission_name(p)), Ok(p));
    }
}

#[test]
fn permission_names_are_the_stored_codes() {
    assert_eq!(permission_name(Permission::TelemetryWrite), "telemetry_write");
    assert_eq!(permission_name(Permission::AuditRead), "audit_read");
    assert_eq!(parse_permission("role_manage"), Ok(Permission::RoleManage));
}

#[test]
fn unknown_permission_is_rejected() {
    assert_eq!(parse_permission("telemetry_delete"), Err(rejected("invalid_permission")));
    assert_eq!(parse_permission(""), Err(rejected("invalid_permission")));
    assert_eq!(parse_permission("Audit_Read"), Err(rejected("invalid_permission")));
}

#[test]
fn every_builtin_role_reads_back_as_itself() {
    for r in ROLES {
        assert_eq!(parse_builtin(builtin_name(r)), Ok(r));
    }
    assert_eq!(builtin_name(BuiltInRole::AccountOwner), "owner");
    assert_eq!(parse_builtin("administrator"), Ok(BuiltInRole::AccountAdministrator));
    assert_eq!(parse_builtin("root"), Err(rejected("invalid_builtin_key")));
}

#[test]
fn role_kinds_read_back_with_their_keys() {
    assert_eq!(role_kind(&RoleKind::Custom), ("custom", None));
    assert_eq!(role_kind(&RoleKind::BuiltIn(BuiltInRole::Viewer)), ("built_in", Some("viewer")));
    for k in [RoleKind::Custom, RoleKind::BuiltIn(BuiltInRole::Uploader), RoleKind::BuiltIn(BuiltInRole::Manager)] {
        let (kind, key) = role_kind(&k);
        assert_eq!(parse_kind(kind, key.map(str::to_owned)), Ok(k));
    }
}

#[test]
fn role_kind_errors_carry_their_codes() {
    assert_eq!(parse_kind("custom", Some("viewer".to_owned())), Ok(RoleKind::Custom));
    assert_eq!(parse_kind("built_in", None), Err(rejected("missing_builtin_key")));
    assert_eq!(parse_kind("built_in", Some("nobody".to_owned())), Err(rejected("invalid_builtin_key")));
    assert_eq!(parse_kind("system", None), Err(rejected("invalid_role_kind")));
}

#[test]
fn scopes_read_back_as_themselves() {
    let scopes = [
        RoleScope::Instance,
        RoleScope::Account(7),
        RoleScope::System { account_id: 7, system_id: 9 },
    ];
    for s in scopes {
        let (kind, a, sys) = scope_parts(s);
        assert_eq!(parse_scope(kind, a, sys), Ok(s));
    }
    assert_eq!(scope_parts(RoleScope::Account(3)), ("account", Some(3), None));
}

#[test]
fn mismatched_scopes_are_rejected() {
    assert_eq!(parse_scope("instance", Some(1), None), Err(rejected("invalid_role_scope")));
    assert_eq!(parse_scope("account", None, None), Err(rejected("invalid_role_scope")));
    assert_eq!(parse_scope("account", Some(1), Some(2)), Err(rejected("invalid_role_scope")));
    assert_eq!(parse_scope("system", Some(1), None), Err(rejected("invalid_role_scope")));
    assert_eq!(parse_scope("team", None, None), Err(rejected("invalid_role_scope")));
}

#[test]
fn principals_split_into_kind_and_identifier() {
    assert_eq!(principal_parts(PrincipalId::User(5)), ("user", 5));
    assert_eq!(principal_parts(PrincipalId::ApiCredential(6)), ("api_credential", 6));
}
