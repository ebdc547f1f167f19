use gatekeeper::context::RequestContext;
use gatekeeper::policy::decision::{Decision, DecisionSource};
use gatekeeper::policy::engine::{map_action, PolicyEngine};
use gatekeeper::policy::rules::Rule;

fn ctx(path: &str) -> RequestContext {
    RequestContext {
        ip: "1.2.3.4".into(),
        path: path.into(),
        method: "GET".into(),
        user_agent: None,
    }
}

fn rule(name: &str, action: &str, priority: u32) -> Rule {
    Rule {
        name: name.into(),
        path_contains: Some("/api".into()),
        method: None,
        user_agent_contains: None,
        action: action.into(),
        priority,
    }
}

#[test]
fn no_rules_returns_none() {
    let engine = PolicyEngine::new(vec![]);
    assert!(engine.evaluate(&ctx("/anything")).is_none());
}

#[test]
fn matching_rule_returns_decision() {
    let engine = PolicyEngine::new(vec![Rule {
        name: "block_api".into(),
        path_contains: Some("/api".into()),
        method: None,
        user_agent_contains: None,
        action: "block".into(),
        priority: 10,
    }]);
    let d = engine.evaluate(&ctx("/api/users"));
    assert!(matches!(d, Some(Decision::Block { .. })));
}

#[test]
fn non_matching_rule_returns_none() {
    let engine = PolicyEngine::new(vec![Rule {
        name: "block_api".into(),
        path_contains: Some("/api".into()),
        method: None,
        user_agent_contains: None,
        action: "block".into(),
        priority: 10,
    }]);
    assert!(engine.evaluate(&ctx("/login")).is_none());
}

#[test]
fn highest_priority_wins() {
    let engine = PolicyEngine::new(vec![
        Rule {
            name: "allow_api".into(),
            path_contains: Some("/api".into()),
            method: None,
            user_agent_contains: None,
            action: "allow".into(),
            priority: 10,
        },
        Rule {
            name: "block_api".into(),
            path_contains: Some("/api".into()),
            method: None,
            user_agent_contains: None,
            action: "block".into(),
            priority: 100,
        },
    ]);
    let d = engine.evaluate(&ctx("/api/data")).unwrap();
    assert!(matches!(d, Decision::Block { reason, .. } if reason == "block_api"));
}

#[test]
fn first_of_equal_priority_wins() {
    let engine = PolicyEngine::new(vec![
        rule("first", "throttle", 5),
        rule("second", "block", 5),
        rule("low", "allow", 1),
    ]);
    let d = engine.evaluate(&ctx("/api/x")).unwrap();
    assert!(matches!(d, Decision::Throttle { reason, source: DecisionSource::Rule } if reason == "first"));
}

#[test]
fn later_higher_priority_overrides() {
    let engine = PolicyEngine::new(vec![rule("a", "allow", 1), rule("b", "allow", 2), rule("c", "block", 3)]);
    let d = engine.evaluate(&ctx("/api")).unwrap();
    assert!(matches!(d, Decision::Block { reason, .. } if reason == "c"));
}

#[test]
fn unknown_action_allows_with_unknown_reason() {
    let engine = PolicyEngine::new(vec![rule("weird", "nuke", 3)]);
    let d = engine.evaluate(&ctx("/api")).unwrap();
    assert!(matches!(d, Decision::Allow { reason, source: DecisionSource::Rule } if reason == "unknown"));
    assert!(matches!(map_action("throttle", "t"), Decision::Throttle { reason, .. } if reason == "t"));
    assert!(matches!(map_action("allow", "x"), Decision::Allow { reason, .. } if reason == "x"));
}
