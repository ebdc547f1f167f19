use vstd::prelude::*;

use crate::text::str_eq;

verus! {

/// The role a user holds.
#[derive(Debug, Clone, Copy, PartialEq, Eq, Structural)]
pub enum Role {
    Admin,
    Operator,
    Viewer,
}

/// An action on the admin API that a role may or may not be allowed.
#[derive(Debug, Clone, Copy, PartialEq, Eq, Structural)]
pub enum Permission {
    ViewStats,
    ViewRules,
    ManageRules,
    ReloadConfig,
    ManageUsers,
}

/// The role a role name stands for: `admin`, `operator`, and anything else a viewer.
pub open spec fn role_named(s: Seq<char>) -> Role {
    if s == "admin"@ {
        Role::Admin
    } else if s == "operator"@ {
        Role::Operator
    } else {
        Role::Viewer
    }
}

/// Everyone may view stats and rules; admins may do everything; operators may also manage
/// rules and reload the configuration.
pub open spec fn permits(role: Role, perm: Permission) -> bool {
    match (role, perm) {
        (_, Permission::ViewStats) => true,
        (_, Permission::ViewRules) => true,
        (Role::Admin, _) => true,
        (Role::Operator, Permission::ManageRules) => true,
        (Role::Operator, Permission::ReloadConfig) => true,
        _ => false,
    }
}

impl Role {
    /// The role named by `s`; an unknown name gives the least privileged role.
    pub fn from_str(s: &str) -> (r: Role)
        ensures
            r == role_named(s@),
    {
        if str_eq(s, "admin") {
            Role::Admin
        } else if str_eq(s, "operator") {
            Role::Operator
        } else {
            Role::Viewer
        }
    }

    /// Whether this role is allowed `perm`.
    pub fn has_permission(&self, perm: Permission) -> (r: bool)
        ensures
            r == permits(*self, perm),
    {
        match (self, perm) {
            (_, Permission::ViewStats) => true,
            (_, Permission::ViewRules) => true,
            (Role::Admin, _) => true,
            (Role::Operator, Permission::ManageRules) => true,
            (Role::Operator, Permission::ReloadConfig) => true,
            _ => false,
        }
    }
}

/// Privileges are ordered: whatever a viewer may do an operator may do, and whatever an
/// operator may do an admin may do. Only admins may manage users, and any name that is not
/// `admin` or `operator` gets exactly the viewer's rights.
pub proof fn lemma_role_hierarchy(perm: Permission, name: Seq<char>)
    ensures
        permits(Role::Viewer, perm) ==> permits(Role::Operator, perm),
        permits(Role::Operator, perm) ==> permits(Role::Admin, perm),
        permits(Role::Admin, perm),
        permits(Role::Viewer, perm) <==> (perm == Permission::ViewStats || perm
            == Permission::ViewRules),
        !permits(Role::Operator, Permission::ManageUsers),
        name != "admin"@ && name != "operator"@ ==> role_named(name) == Role::Viewer,
{
}

} // verus!
