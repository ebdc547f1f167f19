pub mod jwt;
pub mod roles;
pub mod users;

use vstd::prelude::*;

use crate::auth::roles::{permits, role_named, Permission, Role};
use crate::auth::users::constant_time_eq;
use crate::text::{chars_of, seq_starts_with, str_starts_with, string_from_chars};

verus! {

broadcast use vstd::string::group_string_axioms;

/// The outcome of an access check on the admin API.
#[derive(Debug)]
pub enum Access {
    /// The request may proceed.
    Granted,
    /// The request is answered with this status and message.
    Denied { status: u16, message: String },
}

/// The mathematical content of an [`Access`].
pub enum AccessView {
    Granted,
    Denied { status: u16, message: Seq<char> },
}

impl View for Access {
    type V = AccessView;

    open spec fn view(&self) -> AccessView {
        match self {
            Access::Granted => AccessView::Granted,
            Access::Denied { status, message } => AccessView::Denied {
                status: *status,
                message: message@,
            },
        }
    }
}

/// The token of an `Authorization` header: what follows `Bearer `, when the header has
/// that form.
pub open spec fn bearer_spec(header: Option<Seq<char>>) -> Option<Seq<char>> {
    match header {
        Some(h) => if seq_starts_with(h, "Bearer "@) {
            Some(h.skip(7))
        } else {
            None
        },
        None => None,
    }
}

/// The bearer token of an `Authorization` header (`None` for a missing header or one of
/// another form).
pub fn bearer_token(header: Option<&str>) -> (r: Option<String>)
    ensures
        match r {
            Some(t) => bearer_spec(crate::context::opt_str(header)) == Some(t@),
            None => bearer_spec(crate::context::opt_str(header)) is None,
        },
{
    proof {
        reveal_strlit("Bearer ");
    }
    match header {
        Some(h) => {
            if str_starts_with(h, "Bearer ") {
                let v = chars_of(h);
                assert(v@.len() >= 7);
                let t = string_from_chars(&v.as_slice()[7..v.len()]);
                assert(t@ =~= h@.skip(7));
                Some(t)
            } else {
                None
            }
        },
        None => None,
    }
}

/// The answer to a request without a usable `Authorization` header.
pub open spec fn missing_credentials_spec() -> AccessView {
    AccessView::Denied { status: 401, message: "Missing or invalid Authorization header"@ }
}

/// The answer to a request without a usable `Authorization` header: 401.
pub fn missing_credentials() -> (a: Access)
    ensures
        a@ == missing_credentials_spec(),
{
    Access::Denied { status: 401, message: "Missing or invalid Authorization header".to_owned() }
}

/// Access for a request whose bearer token verified with the role `role` (`None` when the
/// token did not verify): a bad token is answered 401; a role without the required
/// permission 403; otherwise the request proceeds.
pub open spec fn access_spec(role: Option<Seq<char>>, required: Option<Permission>) -> AccessView {
    match role {
        None => AccessView::Denied { status: 401, message: "Invalid token"@ },
        Some(r) => match required {
            None => AccessView::Granted,
            Some(p) => if permits(role_named(r), p) {
                AccessView::Granted
            } else {
                AccessView::Denied { status: 403, message: "Insufficient permissions"@ }
            },
        },
    }
}

/// Access for a request whose token verified with `role` (`None`: it did not verify),
/// to an endpoint that requires `required` (`None`: any valid token).
pub fn access_for(role: Option<&str>, required: Option<Permission>) -> (a: Access)
    ensures
        a@ == access_spec(crate::context::opt_str(role), required),
{
    match role {
        None => Access::Denied { status: 401, message: "Invalid token".to_owned() },
        Some(r) => match required {
            None => Access::Granted,
            Some(p) => {
                if Role::from_str(r).has_permission(p) {
                    Access::Granted
                } else {
                    Access::Denied { status: 403, message: "Insufficient permissions".to_owned() }
                }
            },
        },
    }
}

/// What a login without configured users gives.
#[derive(Debug)]
pub enum LoginOutcome {
    /// Issue a token for this role.
    Token { role: String },
    /// Answer 401 with this message.
    Rejected { message: String },
}

/// The mathematical content of a [`LoginOutcome`].
pub enum LoginView {
    Token { role: Seq<char> },
    Rejected { message: Seq<char> },
}

impl View for LoginOutcome {
    type V = LoginView;

    open spec fn view(&self) -> LoginView {
        match self {
            LoginOutcome::Token { role } => LoginView::Token { role: role@ },
            LoginOutcome::Rejected { message } => LoginView::Rejected { message: message@ },
        }
    }
}

/// The UTF-8 bytes of a text.
pub open spec fn utf8(s: Seq<char>) -> Seq<u8> {
    vstd::utf8::encode_utf8(s)
}

/// Login when no users are configured: the administrator credentials come from the
/// environment; both must be set, and both the name and the password must match, for an
/// admin token.
pub open spec fn fallback_login_spec(
    username: Seq<char>,
    password: Seq<char>,
    admin_user: Option<Seq<char>>,
    admin_pass: Option<Seq<char>>,
) -> LoginView {
    match (admin_user, admin_pass) {
        (None, _) => LoginView::Rejected {
            message: "no users configured and GATEKEEPER_ADMIN_USER not set"@,
        },
        (Some(_), None) => LoginView::Rejected {
            message: "no users configured and GATEKEEPER_ADMIN_PASS not set"@,
        },
        (Some(u), Some(p)) => if utf8(username) == utf8(u) && utf8(password) == utf8(p) {
            LoginView::Token { role: "admin"@ }
        } else {
            LoginView::Rejected { message: "invalid credentials"@ }
        },
    }
}

/// Login when no users are configured, against the administrator credentials from the
/// environment. Both comparisons always run, in time that depends only on the lengths.
pub fn fallback_login(
    username: &str,
    password: &str,
    admin_user: Option<&str>,
    admin_pass: Option<&str>,
) -> (r: LoginOutcome)
    ensures
        r@ == fallback_login_spec(
            username@,
            password@,
            crate::context::opt_str(admin_user),
            crate::context::opt_str(admin_pass),
        ),
{
    let u = match admin_user {
        Some(u) => u,
        None => {
            return LoginOutcome::Rejected {
                message: "no users configured and GATEKEEPER_ADMIN_USER not set".to_owned(),
            };
        },
    };
    let p = match admin_pass {
        Some(p) => p,
        None => {
            return LoginOutcome::Rejected {
                message: "no users configured and GATEKEEPER_ADMIN_PASS not set".to_owned(),
            };
        },
    };
    let user_ok = constant_time_eq(username.as_bytes(), u.as_bytes());
    let pass_ok = constant_time_eq(password.as_bytes(), p.as_bytes());
    if user_ok && pass_ok {
        LoginOutcome::Token { role: "admin".to_owned() }
    } else {
        LoginOutcome::Rejected { message: "invalid credentials".to_owned() }
    }
}

/// Only a verified token gets through, and a verified token gets exactly the rights of its
/// role: admin endpoints need `ManageRules`, user endpoints `ManageUsers`.
pub proof fn lemma_access_follows_role(role: Option<Seq<char>>, p: Permission)
    ensures
        role is None ==> access_spec(role, Some(p)) is Denied,
        role is Some ==> ((access_spec(role, Some(p)) is Granted) <==> permits(role_named(role->0), p)),
        access_spec(Some("viewer"@), Some(Permission::ManageRules)) is Denied,
{
    reveal_strlit("viewer");
    reveal_strlit("admin");
    reveal_strlit("operator");
    assert("viewer"@.len() == 6);
    assert("admin"@.len() == 5);
    assert("operator"@.len() == 8);
}

} // verus!
