use rustzen_core::role_policy::{
    default_role_allows_capability, default_role_capability_codes, RolePolicy, ADMIN_ROLE_CODE,
    OWNER_ROLE_CODE, SYSTEM_WILDCARD, VIEWER_ROLE_CODE,
};

#[test]
fn owner_only_receives_wildcard() {
    let policy = RolePolicy::default();

    assert!(policy.role_allows_capability(OWNER_ROLE_CODE, SYSTEM_WILDCARD));
    assert!(!policy.role_allows_capability(OWNER_ROLE_CODE, "system:user:list"));
}

#[test]
fn admin_receives_leaf_capabilities_and_deploy_view_only() {
    let policy = RolePolicy::default();

    assert!(policy.role_allows_capability(ADMIN_ROLE_CODE, "system:user:create"));
    assert!(policy.role_allows_capability(ADMIN_ROLE_CODE, "manage:deploy:list"));
    assert!(!policy.role_allows_capability(ADMIN_ROLE_CODE, "manage:deploy:run"));
    assert!(!policy.role_allows_capability(ADMIN_ROLE_CODE, "manage:deploy:*"));
    assert!(!policy.role_allows_capability(ADMIN_ROLE_CODE, SYSTEM_WILDCARD));
}

#[test]
fn viewer_receives_view_class_capabilities_only() {
    let policy = RolePolicy::default();

    assert!(policy.role_allows_capability(VIEWER_ROLE_CODE, "dashboard:view"));
    assert!(policy.role_allows_capability(VIEWER_ROLE_CODE, "system:user:list"));
    assert!(policy.role_allows_capability(VIEWER_ROLE_CODE, "manage:dict:options"));
    assert!(policy.role_allows_capability(VIEWER_ROLE_CODE, "manage:deploy:list"));
    assert!(!policy.role_allows_capability(VIEWER_ROLE_CODE, "system:user:create"));
    assert!(!policy.role_allows_capability(VIEWER_ROLE_CODE, "manage:deploy:run"));
}

#[test]
fn default_role_capability_codes_filters_catalog() {
    let codes = [
        SYSTEM_WILDCARD,
        "system:user:list",
        "system:user:create",
        "manage:deploy:list",
        "manage:deploy:run",
    ];

    assert_eq!(
        default_role_capability_codes(VIEWER_ROLE_CODE, &codes),
        vec!["system:user:list".to_string(), "manage:deploy:list".to_string()]
    );
}

#[test]
fn unknown_role_gets_nothing() {
    assert!(!default_role_allows_capability("guest", "dashboard:view"));
    assert!(!default_role_allows_capability("guest", SYSTEM_WILDCARD));
    assert!(default_role_allows_capability(ADMIN_ROLE_CODE, "dashboard:view"));
}

#[test]
fn viewer_capabilities_are_within_admin() {
    let catalog = [
        "dashboard:view",
        "system:user:list",
        "system:user:create",
        "manage:deploy:list",
        "manage:deploy:run",
        "manage:dict:options",
        SYSTEM_WILDCARD,
    ];
    for code in catalog {
        if default_role_allows_capability(VIEWER_ROLE_CODE, code) {
            assert!(default_role_allows_capability(ADMIN_ROLE_CODE, code), "{code}");
        }
    }
}

#[test]
fn custom_policy_follows_role_rules() {
    let policy = RolePolicy::new("ops:release:", "ops:release:read", &["read", "show"]);
    assert!(policy.role_allows_capability(OWNER_ROLE_CODE, "*"));
    assert!(!policy.role_allows_capability(OWNER_ROLE_CODE, "ops:release:read"));
    assert!(policy.role_allows_capability(ADMIN_ROLE_CODE, "ops:release:read"));
    assert!(!policy.role_allows_capability(ADMIN_ROLE_CODE, "ops:release:ship"));
    assert!(!policy.role_allows_capability(ADMIN_ROLE_CODE, "ops:release:*"));
    assert!(!policy.role_allows_capability(ADMIN_ROLE_CODE, "user:*"));
    assert!(policy.role_allows_capability(ADMIN_ROLE_CODE, "user:delete"));
    assert!(policy.role_allows_capability(VIEWER_ROLE_CODE, "user:show"));
    assert!(policy.role_allows_capability(VIEWER_ROLE_CODE, "ops:release:read"));
    assert!(!policy.role_allows_capability(VIEWER_ROLE_CODE, "user:list"));
    assert!(!policy.role_allows_capability("auditor", "user:show"));
}
