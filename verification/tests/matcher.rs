use gatekeeper::context::RequestContext;
use gatekeeper::policy::matcher;
use gatekeeper::policy::rules::Rule;

fn ctx(path: &str, method: &str, ua: Option<&str>) -> RequestContext {
    RequestContext {
        ip: "127.0.0.1".into(),
        path: path.into(),
        method: method.into(),
        user_agent: ua.map(|s| s.into()),
    }
}

fn rule(path: Option<&str>, method: Option<&str>, ua: Option<Vec<&str>>) -> Rule {
    Rule {
        name: "test".into(),
        path_contains: path.map(|s| s.into()),
        method: method.map(|s| s.into()),
        user_agent_contains: ua.map(|v| v.into_iter().map(String::from).collect()),
        action: "block".into(),
        priority: 1,
    }
}

#[test]
fn matches_path() {
    let r = rule(Some("/api"), None, None);
    assert!(matcher::matches(&r, &ctx("/api/users", "GET", None)));
    assert!(!matcher::matches(&r, &ctx("/login", "GET", None)));
}

#[test]
fn matches_method() {
    let r = rule(None, Some("POST"), None);
    assert!(matcher::matches(&r, &ctx("/any", "POST", None)));
    assert!(!matcher::matches(&r, &ctx("/any", "GET", None)));
}

#[test]
fn matches_user_agent() {
    let r = rule(None, None, Some(vec!["curl", "wget"]));
    assert!(matcher::matches(&r, &ctx("/x", "GET", Some("curl/7.0"))));
    assert!(matcher::matches(&r, &ctx("/x", "GET", Some("wget/1.0"))));
    assert!(!matcher::matches(&r, &ctx("/x", "GET", Some("Mozilla"))));
    assert!(!matcher::matches(&r, &ctx("/x", "GET", None)));
}

#[test]
fn matches_combined() {
    let r = rule(Some("/api"), Some("GET"), Some(vec!["curl"]));
    assert!(matcher::matches(&r, &ctx("/api/v1", "GET", Some("curl/7"))));
    assert!(!matcher::matches(&r, &ctx("/api/v1", "POST", Some("curl/7"))));
    assert!(!matcher::matches(&r, &ctx("/login", "GET", Some("curl/7"))));
}

#[test]
fn empty_matchers_matches_everything() {
    let r = rule(None, None, None);
    assert!(matcher::matches(&r, &ctx("/anything", "DELETE", Some("bot"))));
}

#[test]
fn method_matching_is_case_insensitive() {
    let r = rule(None, Some("POST"), None);
    assert!(matcher::matches(&r, &ctx("/any", "post", None)));
    assert!(matcher::matches(&r, &ctx("/any", "Post", None)));
    assert!(matcher::matches(&r, &ctx("/any", "POST", None)));

    let r2 = rule(None, Some("get"), None);
    assert!(matcher::matches(&r2, &ctx("/any", "GET", None)));
    assert!(matcher::matches(&r2, &ctx("/any", "get", None)));
}

#[test]
fn path_match_is_substring_and_case_sensitive() {
    let r = rule(Some("admin"), None, None);
    assert!(matcher::matches(&r, &ctx("/x/admin/y", "GET", None)));
    assert!(!matcher::matches(&r, &ctx("/x/ADMIN/y", "GET", None)));
    assert!(!matcher::matches(&r, &ctx("/adm", "GET", None)));
    let empty = rule(Some(""), None, None);
    assert!(matcher::matches(&empty, &ctx("", "GET", None)));
}

#[test]
fn empty_agent_list_never_matches() {
    let r = rule(None, None, Some(vec![]));
    assert!(!matcher::matches(&r, &ctx("/x", "GET", Some("curl"))));
}

#[test]
fn method_case_folding_is_ascii_only() {
    let r = rule(None, Some("ÉTÉ"), None);
    assert!(matcher::matches(&r, &ctx("/x", "ÉtÉ", None)));
    assert!(!matcher::matches(&r, &ctx("/x", "été", None)));
}
