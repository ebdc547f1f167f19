use gatekeeper::auth::roles::{Permission, Role};

#[test]
fn admin_has_all_permissions() {
    let admin = Role::Admin;
    assert!(admin.has_permission(Permission::ViewStats));
    assert!(admin.has_permission(Permission::ViewRules));
    assert!(admin.has_permission(Permission::ManageRules));
    assert!(admin.has_permission(Permission::ReloadConfig));
    assert!(admin.has_permission(Permission::ManageUsers));
}

#[test]
fn operator_cannot_manage_users() {
    let op = Role::Operator;
    assert!(op.has_permission(Permission::ViewStats));
    assert!(op.has_permission(Permission::ViewRules));
    assert!(op.has_permission(Permission::ManageRules));
    assert!(op.has_permission(Permission::ReloadConfig));
    assert!(!op.has_permission(Permission::ManageUsers));
}

#[test]
fn viewer_can_only_view() {
    let viewer = Role::Viewer;
    assert!(viewer.has_permission(Permission::ViewStats));
    assert!(viewer.has_permission(Permission::ViewRules));
    assert!(!viewer.has_permission(Permission::ManageRules));
    assert!(!viewer.has_permission(Permission::ReloadConfig));
    assert!(!viewer.has_permission(Permission::ManageUsers));
}

#[test]
fn from_str_parses_roles() {
    assert_eq!(Role::from_str("admin"), Role::Admin);
    assert_eq!(Role::from_str("operator"), Role::Operator);
    assert_eq!(Role::from_str("viewer"), Role::Viewer);
    assert_eq!(Role::from_str("unknown"), Role::Viewer);
}

#[test]
fn role_names_are_case_sensitive() {
    assert_eq!(Role::from_str("Admin"), Role::Viewer);
    assert_eq!(Role::from_str(""), Role::Viewer);
    assert!(!Role::from_str("ADMIN").has_permission(Permission::ManageUsers));
}
