use gatekeeper::context::RequestContext;
use gatekeeper::policy::decision::{Decision, DecisionSource};
use gatekeeper::policy::engine::PolicyEngine;
use gatekeeper::policy::rules::Rule;
use gatekeeper::proxy::{
    body_too_large, decide, decide_at, enforcement, forward_headers, forwarded_for, headers_to_strip, threat_decision,
    upstream_uri, Enforcement,
};
use gatekeeper::security::rate_limit::RateLimiter;
use gatekeeper::threat::ThreatData;

fn ctx(ip: &str, path: &str, ua: Option<&str>) -> RequestContext {
    RequestContext { ip: ip.into(), path: path.into(), method: "GET".into(), user_agent: ua.map(String::from) }
}

fn block_api() -> PolicyEngine {
    PolicyEngine::new(vec![Rule {
        name: "block_api".into(),
        path_contains: Some("/api".into()),
        method: None,
        user_agent_contains: None,
        action: "block".into(),
        priority: 10,
    }])
}

#[test]
fn threat_feed_blocks_first() {
    let mut t = ThreatData::new();
    t.replace_ips(&vec!["6.6.6.6".to_string()]);
    t.replace_user_agents(&vec!["evilbot".to_string()]);
    let d = threat_decision(&t, &ctx("6.6.6.6", "/", None)).unwrap();
    assert!(matches!(d, Decision::Block { ref reason, source: DecisionSource::ThreatFeed } if reason == "threat feed: blocked IP"));
    let d = threat_decision(&t, &ctx("1.1.1.1", "/", Some("the evilbot 2"))).unwrap();
    assert!(matches!(d, Decision::Block { ref reason, .. } if reason == "threat feed: blocked user agent"));
    assert!(threat_decision(&t, &ctx("1.1.1.1", "/", Some("Mozilla"))).is_none());
    assert!(threat_decision(&t, &ctx("1.1.1.1", "/", None)).is_none());

    let mut limiter = RateLimiter::new(1, 1);
    let d = decide(Some(d_block()), None, &block_api(), &mut limiter, &ctx("1.1.1.1", "/", None));
    assert!(matches!(d, Decision::Block { source: DecisionSource::ThreatFeed, .. }));
    assert_eq!(limiter.bucket_count(), 0);
}

fn d_block() -> Decision {
    Decision::Block { reason: "threat feed: blocked IP".into(), source: DecisionSource::ThreatFeed }
}

#[test]
fn wasm_then_policy_then_rate_limit() {
    let engine = block_api();
    let mut limiter = RateLimiter::new(1, 1);
    let w = Decision::Allow { reason: "wasm ok".into(), source: DecisionSource::Wasm };
    let d = decide_at(None, Some(w), &engine, &mut limiter, &ctx("1.1.1.1", "/api", None), 0);
    assert!(matches!(d, Decision::Allow { source: DecisionSource::Wasm, .. }));
    let d = decide_at(None, None, &engine, &mut limiter, &ctx("1.1.1.1", "/api", None), 0);
    assert!(matches!(d, Decision::Block { ref reason, source: DecisionSource::Rule } if reason == "block_api"));
    assert_eq!(limiter.bucket_count(), 0);
    let d = decide_at(None, None, &engine, &mut limiter, &ctx("1.1.1.1", "/home", None), 0);
    assert!(matches!(d, Decision::Allow { ref reason, source: DecisionSource::RateLimit } if reason == "rate_ok"));
    let d = decide_at(None, None, &engine, &mut limiter, &ctx("1.1.1.1", "/home", None), 0);
    assert!(matches!(d, Decision::Block { ref reason, source: DecisionSource::RateLimit } if reason == "rate_limited"));
}

#[test]
fn enforcement_by_decision() {
    let a = Decision::Allow { reason: "x".into(), source: DecisionSource::Rule };
    let b = Decision::Block { reason: "x".into(), source: DecisionSource::Rule };
    let t = Decision::Throttle { reason: "x".into(), source: DecisionSource::Rule };
    assert_eq!(enforcement(&a), Enforcement::Forward);
    assert_eq!(enforcement(&b), Enforcement::Reject);
    assert_eq!(enforcement(&t), Enforcement::DelayThenForward);
}

#[test]
fn body_limit() {
    assert!(body_too_large(Some("11"), 10));
    assert!(!body_too_large(Some("10"), 10));
    assert!(!body_too_large(Some("abc"), 10));
    assert!(!body_too_large(None, 10));
    assert!(body_too_large(Some("+11"), 10));
}

#[test]
fn forwarding_headers() {
    assert_eq!(upstream_uri("http://up:3000", Some("/a?b=1")), "http://up:3000/a?b=1");
    assert_eq!(upstream_uri("http://up:3000", None), "http://up:3000/");
    assert_eq!(forwarded_for(Some("1.1.1.1"), "2.2.2.2"), "1.1.1.1, 2.2.2.2");
    assert_eq!(forwarded_for(None, "2.2.2.2"), "2.2.2.2");
    let h = headers_to_strip(Some("close, X-Custom ,foo"));
    assert_eq!(h.len(), 11);
    assert_eq!(h[0], "connection");
    assert_eq!(h[7], "upgrade");
    assert_eq!(&h[8..], &["close".to_string(), "X-Custom".to_string(), "foo".to_string()]);
    assert_eq!(headers_to_strip(None).len(), 8);
}

fn pairs(v: &[(String, String)]) -> Vec<(&str, &str)> {
    v.iter().map(|(n, x)| (n.as_str(), x.as_str())).collect()
}

#[test]
fn forward_header_rewrite() {
    let r = forward_headers(Some("close"), Some("example.org"), Some("9.9.9.9"), Some("backend:8080"), "1.2.3.4");
    assert_eq!(r.remove.last().map(|s| s.as_str()), Some("host"));
    assert_eq!(r.remove.len(), 10);
    assert_eq!(
        pairs(&r.set),
        vec![
            ("host", "backend:8080"),
            ("x-forwarded-for", "9.9.9.9, 1.2.3.4"),
            ("x-forwarded-host", "example.org"),
            ("x-forwarded-proto", "http"),
        ]
    );
}

#[test]
fn forward_header_rewrite_drops_listed_forwarded_for() {
    let r = forward_headers(Some("keep-alive, X-Forwarded-For"), None, Some("9.9.9.9"), None, "1.2.3.4");
    assert_eq!(pairs(&r.set), vec![("x-forwarded-for", "1.2.3.4"), ("x-forwarded-proto", "http")]);
}
