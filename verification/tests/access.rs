use gatekeeper::auth::jwt::{claims_for, secret_problem};
use gatekeeper::auth::roles::Permission;
use gatekeeper::auth::{access_for, bearer_token, fallback_login, missing_credentials, Access, LoginOutcome};

#[test]
fn bearer_tokens() {
    assert_eq!(bearer_token(Some("Bearer abc.def")), Some("abc.def".to_string()));
    assert_eq!(bearer_token(Some("Bearer ")), Some(String::new()));
    assert_eq!(bearer_token(Some("Basic abc")), None);
    assert_eq!(bearer_token(None), None);
    assert!(matches!(missing_credentials(), Access::Denied { status: 401, ref message } if message == "Missing or invalid Authorization header"));
}

#[test]
fn access_by_role() {
    assert!(matches!(access_for(None, None), Access::Denied { status: 401, .. }));
    assert!(matches!(access_for(Some("viewer"), None), Access::Granted));
    assert!(matches!(access_for(Some("operator"), Some(Permission::ManageRules)), Access::Granted));
    assert!(matches!(access_for(Some("operator"), Some(Permission::ManageUsers)), Access::Denied { status: 403, .. }));
    assert!(matches!(access_for(Some("admin"), Some(Permission::ManageUsers)), Access::Granted));
    assert!(matches!(access_for(Some("root"), Some(Permission::ManageRules)), Access::Denied { status: 403, .. }));
}

#[test]
fn env_fallback_login() {
    assert!(matches!(fallback_login("u", "p", None, Some("p")), LoginOutcome::Rejected { ref message } if message.contains("GATEKEEPER_ADMIN_USER")));
    assert!(matches!(fallback_login("u", "p", Some("u"), None), LoginOutcome::Rejected { ref message } if message.contains("GATEKEEPER_ADMIN_PASS")));
    assert!(matches!(fallback_login("u", "p", Some("u"), Some("p")), LoginOutcome::Token { ref role } if role == "admin"));
    assert!(matches!(fallback_login("u", "x", Some("u"), Some("p")), LoginOutcome::Rejected { ref message } if message == "invalid credentials"));
}

#[test]
fn token_claims_and_secrets() {
    let c = claims_for("alice", "admin", 1000);
    assert_eq!((c.sub.as_str(), c.role.as_str(), c.exp), ("alice", "admin", 1000 + 86400));
    assert!(secret_problem("short").is_some());
    assert!(secret_problem("change-me-to-a-strong-random-secret").unwrap().contains("placeholder"));
    assert!(secret_problem("0123456789abcdef0123456789abcdef").is_none());
}
