use gatekeeper::context::RequestContext;
use gatekeeper::log::audit::{audit_event, audit_event_at, AuditEvent};
use gatekeeper::log::inspect::{event_line, event_selected};
use gatekeeper::log::worker::{needs_rotation, size_after_write, MAX_LOG_BYTES};
use gatekeeper::metrics::counter_hits;
use gatekeeper::policy::decision::{Decision, DecisionSource};

fn ctx() -> RequestContext {
    RequestContext { ip: "1.2.3.4".into(), path: "/x".into(), method: "POST".into(), user_agent: None }
}

#[test]
fn audit_event_fields() {
    let d = Decision::Throttle { reason: "slow".into(), source: DecisionSource::RateLimit };
    let e = audit_event_at(&ctx(), &d, 12, 1700);
    assert_eq!(
        (e.timestamp, e.ip.as_str(), e.path.as_str(), e.method.as_str(), e.decision.as_str(), e.reason.as_str(), e.source.as_str(), e.latency_ms),
        (1700, "1.2.3.4", "/x", "POST", "throttle", "slow", "rate_limit", 12)
    );
    let e = audit_event(&ctx(), &d, 3).unwrap();
    assert!(e.timestamp > 1_600_000_000);
    assert_eq!((e.decision.as_str(), e.latency_ms), ("throttle", 3));
}

#[test]
fn inspect_filters_and_lines() {
    let e = AuditEvent {
        timestamp: 5,
        ip: "1.2.3.4".into(),
        path: "/x".into(),
        method: "GET".into(),
        decision: "block".into(),
        reason: "r".into(),
        source: "rule".into(),
        latency_ms: 7,
    };
    assert!(event_selected(&e, None, None));
    assert!(event_selected(&e, Some("block"), Some("1.2.3.4")));
    assert!(!event_selected(&e, Some("allow"), None));
    assert!(!event_selected(&e, None, Some("9.9.9.9")));
    assert_eq!(event_line(&e), "5 [BLOCK] GET /x -> r (1.2.3.4) [src:rule] [7ms]");
}

#[test]
fn log_rotation_threshold() {
    assert!(!needs_rotation(0, 10));
    assert!(!needs_rotation(MAX_LOG_BYTES - 11, 10));
    assert!(needs_rotation(MAX_LOG_BYTES - 10, 10));
    assert_eq!(size_after_write(5, 10), 16);
}

#[test]
fn metric_counters() {
    let c = counter_hits("block", "rate_limit");
    assert!(c.blocked && !c.throttled && c.rate_limit_hit);
    let c = counter_hits("block", "rule");
    assert!(c.blocked && !c.rate_limit_hit);
    let c = counter_hits("throttle", "wasm");
    assert!(!c.blocked && c.throttled && !c.rate_limit_hit);
    let c = counter_hits("allow", "rate_limit");
    assert!(!c.blocked && !c.throttled && !c.rate_limit_hit);
}
