use gatekeeper::context::{extract_ip, RequestContext};

#[test]
fn untrusted_headers_are_ignored() {
    assert_eq!(extract_ip(Some("9.9.9.9"), Some("8.8.8.8"), Some("1.2.3.4"), false), "1.2.3.4");
    assert_eq!(extract_ip(None, None, None, false), "unknown");
}

#[test]
fn trusted_headers_take_precedence() {
    assert_eq!(extract_ip(Some(" 9.9.9.9 "), Some("8.8.8.8"), Some("1.2.3.4"), true), "9.9.9.9");
    assert_eq!(extract_ip(None, Some(" 8.8.8.8 , 7.7.7.7"), Some("1.2.3.4"), true), "8.8.8.8");
    assert_eq!(extract_ip(None, None, Some("1.2.3.4"), true), "1.2.3.4");
    assert_eq!(extract_ip(None, Some(""), None, true), "");
}

#[test]
fn context_from_parts() {
    let c = RequestContext::from_parts("GET", "/a", Some("curl"), None, None, Some("10.0.0.1"), false);
    assert_eq!(c.method, "GET");
    assert_eq!(c.path, "/a");
    assert_eq!(c.user_agent.as_deref(), Some("curl"));
    assert_eq!(c.ip, "10.0.0.1");
}
