use gatekeeper::config::validate::{errors_message, validate_rules, validation_report, ValidationError};
use gatekeeper::policy::rules::Rule;

fn valid_rule() -> Rule {
    Rule {
        name: "test_rule".into(),
        path_contains: Some("/api".into()),
        method: None,
        user_agent_contains: None,
        action: "block".into(),
        priority: 1,
    }
}

#[test]
fn valid_rule_passes() {
    assert!(validate_rules(&[valid_rule()]).is_ok());
}

#[test]
fn empty_name_fails() {
    let mut r = valid_rule();
    r.name = "".into();
    assert!(validate_rules(&[r]).is_err());
}

#[test]
fn invalid_action_fails() {
    let mut r = valid_rule();
    r.action = "destroy".into();
    assert!(validate_rules(&[r]).is_err());
}

#[test]
fn zero_priority_fails() {
    let mut r = valid_rule();
    r.priority = 0;
    assert!(validate_rules(&[r]).is_err());
}

#[test]
fn no_matchers_fails() {
    let r = Rule {
        name: "test".into(),
        path_contains: None,
        method: None,
        user_agent_contains: None,
        action: "allow".into(),
        priority: 1,
    };
    assert!(validate_rules(&[r]).is_err());
}

#[test]
fn multiple_errors_collected() {
    let r = Rule {
        name: "".into(),
        path_contains: None,
        method: None,
        user_agent_contains: None,
        action: "nuke".into(),
        priority: 0,
    };
    let errs = validate_rules(&[r]).unwrap_err();
    assert!(errs.len() >= 3);
}

#[test]
fn every_problem_is_reported_in_order() {
    let r = Rule {
        name: "".into(),
        path_contains: None,
        method: None,
        user_agent_contains: None,
        action: "nuke".into(),
        priority: 0,
    };
    let errs = validate_rules(&[valid_rule(), r]).unwrap_err();
    assert_eq!(errs.len(), 4);
    assert_eq!(errs[0].to_string(), "rule '(unnamed)': rule name cannot be empty");
    assert_eq!(
        errs[1].to_string(),
        "rule '': invalid action 'nuke', must be one of: allow, block, throttle"
    );
    assert_eq!(errs[2].to_string(), "rule '': priority must be greater than 0");
    assert_eq!(
        errs[3].to_string(),
        "rule '': rule must have at least one matcher (path_contains, method, or user_agent_contains)"
    );
}

#[test]
fn empty_rule_list_is_valid() {
    assert!(validate_rules(&[]).is_ok());
}

#[test]
fn config_error_message_counts_and_joins() {
    let errs = vec![
        ValidationError { rule_name: "a".into(), message: "bad".into() },
        ValidationError { rule_name: "b".into(), message: "worse".into() },
    ];
    assert_eq!(
        errors_message(&errs),
        "config has 2 validation error(s): rule 'a': bad; rule 'b': worse"
    );
}

#[test]
fn validation_report_lists_errors() {
    let ok = validation_report(&[valid_rule()]);
    assert!(ok.valid);
    assert!(ok.errors.is_empty());
    let mut r = valid_rule();
    r.priority = 0;
    let bad = validation_report(&[r]);
    assert!(!bad.valid);
    assert_eq!(bad.errors, vec!["rule 'test_rule': priority must be greater than 0".to_string()]);
}
