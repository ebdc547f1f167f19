use gatekeeper::cli::{default_grpc_addr, node_id, run_mode, RunMode};
use gatekeeper::config::default_max_body_bytes;
use gatekeeper::grpc::{NodeSync, SyncAction, SyncEvent};
use gatekeeper::grpc::{
    apply_sync_reply, cluster_token_accepted, cluster_token_problem, rule_from_message, rule_to_message,
    PolicySyncService,
};
use gatekeeper::policy::rules::Rule;

fn rule() -> Rule {
    Rule {
        name: "r".into(),
        path_contains: Some("/api".into()),
        method: None,
        user_agent_contains: Some(vec!["curl".into()]),
        action: "block".into(),
        priority: 3,
    }
}

#[test]
fn sync_sends_rules_only_when_behind() {
    let s = PolicySyncService::new(vec![rule()]);
    let up = s.sync_reply(1);
    assert!(!up.changed && up.rules.is_empty() && up.version == 1);
    let behind = s.sync_reply(0);
    assert!(behind.changed && behind.version == 1);
    let (rules, v) = apply_sync_reply(behind).unwrap();
    assert_eq!(v, 1);
    assert_eq!(rules.len(), 1);
    assert_eq!(rules[0].path_contains.as_deref(), Some("/api"));
    assert_eq!(rules[0].method, None);
    assert_eq!(rules[0].user_agent_contains, Some(vec!["curl".to_string()]));
    assert!(apply_sync_reply(s.sync_reply(7)).is_none());
}

#[test]
fn empty_matchers_do_not_survive_the_protocol() {
    let mut r = rule();
    r.method = Some(String::new());
    let back = rule_from_message(rule_to_message(&r));
    assert_eq!(back.method, None);
}

#[test]
fn cluster_tokens() {
    assert!(cluster_token_problem("short").is_some());
    assert!(cluster_token_problem("0123456789abcdef").is_none());
    assert!(cluster_token_accepted(Some("0123456789abcdef"), "0123456789abcdef"));
    assert!(!cluster_token_accepted(None, "0123456789abcdef"));
    assert!(!cluster_token_accepted(Some("0123456789abcdeX"), "0123456789abcdef"));
}

#[test]
fn cli_helpers() {
    assert_eq!(run_mode("central"), RunMode::Central);
    assert_eq!(run_mode("node"), RunMode::Node);
    assert_eq!(run_mode("anything"), RunMode::Standalone);
    assert_eq!(default_grpc_addr(8080), "127.0.0.1:8081");
    assert_eq!(node_id(8080), "node-8080");
    assert_eq!(default_max_body_bytes(), 10 * 1024 * 1024);
}

#[test]
fn sync_loop_reconnects_after_failure() {
    let mut s = NodeSync::new();
    assert_eq!(s.step(SyncEvent::Tick), SyncAction::Connect);
    assert_eq!(s.step(SyncEvent::ConnectOk), SyncAction::PullRules { last_version: 0 });
    assert_eq!(s.step(SyncEvent::RulesUpdated { version: 4 }), SyncAction::Heartbeat);
    assert_eq!(s.step(SyncEvent::HeartbeatOk), SyncAction::ReportMetrics);
    assert_eq!(s.step(SyncEvent::ReportOk), SyncAction::WaitForTick);
    assert_eq!(s.step(SyncEvent::Tick), SyncAction::PullRules { last_version: 4 });
    assert_eq!(s.step(SyncEvent::SyncFailed), SyncAction::WaitForTick);
    assert!(!s.connected);
    assert_eq!(s.step(SyncEvent::Tick), SyncAction::Connect);
    assert_eq!(s.last_version, 4);
}
