use vstd::prelude::*;

use crate::config::Config;
use crate::policy::rules::{rules_view, Rule, RuleView};
use crate::text::{decimal, decimal_string, str_eq};

verus! {

broadcast use vstd::string::group_string_axioms;

/// A problem found in one rule of a configuration.
#[derive(Debug)]
pub struct ValidationError {
    pub rule_name: String,
    pub message: String,
}

/// The mathematical content of a [`ValidationError`].
pub struct ErrorView {
    pub rule_name: Seq<char>,
    pub message: Seq<char>,
}

impl View for ValidationError {
    type V = ErrorView;

    open spec fn view(&self) -> ErrorView {
        ErrorView { rule_name: self.rule_name@, message: self.message@ }
    }
}

/// How a validation error is shown: `rule '<name>': <message>`.
pub open spec fn error_text(e: ErrorView) -> Seq<char> {
    "rule '"@ + e.rule_name + "': "@ + e.message
}

impl ValidationError {
    /// The error as shown to an operator: `rule '<name>': <message>`.
    pub fn to_string(&self) -> (s: String)
        ensures
            s@ == error_text(self@),
    {
        let mut s = "rule '".to_owned();
        s.append(self.rule_name.as_str());
        s.append("': ");
        s.append(self.message.as_str());
        s
    }
}

/// The actions a rule may take.
pub open spec fn valid_action(a: Seq<char>) -> bool {
    a == "allow"@ || a == "block"@ || a == "throttle"@
}

/// The message for an action that is not one of the valid ones.
pub open spec fn invalid_action_message(a: Seq<char>) -> Seq<char> {
    "invalid action '"@ + a + "', must be one of: allow, block, throttle"@
}

/// The problems of one rule, in the order they are reported: an empty name, an unknown
/// action, a zero priority, and the lack of any matcher.
pub open spec fn rule_errors(r: RuleView) -> Seq<ErrorView> {
    let e1: Seq<ErrorView> = if r.name.len() == 0 {
        seq![ErrorView { rule_name: "(unnamed)"@, message: "rule name cannot be empty"@ }]
    } else {
        seq![]
    };
    let e2: Seq<ErrorView> = if !valid_action(r.action) {
        seq![ErrorView { rule_name: r.name, message: invalid_action_message(r.action) }]
    } else {
        seq![]
    };
    let e3: Seq<ErrorView> = if r.priority == 0 {
        seq![ErrorView { rule_name: r.name, message: "priority must be greater than 0"@ }]
    } else {
        seq![]
    };
    let e4: Seq<ErrorView> = if r.path_contains is None && r.method is None && r.user_agent_contains is None {
        seq![ErrorView {
            rule_name: r.name,
            message: "rule must have at least one matcher (path_contains, method, or user_agent_contains)"@,
        }]
    } else {
        seq![]
    };
    e1 + e2 + e3 + e4
}

/// The problems of every rule, rule by rule.
pub open spec fn rules_errors(rules: Seq<RuleView>) -> Seq<ErrorView>
    decreases rules.len(),
{
    if rules.len() == 0 {
        seq![]
    } else {
        rules_errors(rules.drop_last()) + rule_errors(rules.last())
    }
}

/// A rule with none of the problems that validation reports.
pub open spec fn rule_valid(r: RuleView) -> bool {
    &&& r.name.len() > 0
    &&& valid_action(r.action)
    &&& r.priority > 0
    &&& !(r.path_contains is None && r.method is None && r.user_agent_contains is None)
}

/// The views of a list of validation errors.
pub open spec fn error_views(v: Seq<ValidationError>) -> Seq<ErrorView> {
    v.map_values(|e: ValidationError| e@)
}

fn push_error(errors: &mut Vec<ValidationError>, rule_name: String, message: String)
    ensures
        error_views(final(errors)@) == error_views(old(errors)@).push(
            ErrorView { rule_name: rule_name@, message: message@ },
        ),
{
    errors.push(ValidationError { rule_name, message });
    assert(error_views(errors@) =~= error_views(old(errors)@).push(
        ErrorView { rule_name: rule_name@, message: message@ },
    ));
}

fn check_rule(rule: &Rule, errors: &mut Vec<ValidationError>)
    ensures
        error_views(final(errors)@) == error_views(old(errors)@) + rule_errors(rule@),
{
    let ghost start = error_views(errors@);
    let ghost r = rule@;
    if rule.name.as_str().is_empty() {
        push_error(errors, "(unnamed)".to_owned(), "rule name cannot be empty".to_owned());
    }
    let ghost after1 = error_views(errors@);
    let action = rule.action.as_str();
    if !(str_eq(action, "allow") || str_eq(action, "block") || str_eq(action, "throttle")) {
        let mut m = "invalid action '".to_owned();
        m.append(action);
        m.append("', must be one of: allow, block, throttle");
        push_error(errors, rule.name.clone(), m);
    }
    let ghost after2 = error_views(errors@);
    if rule.priority == 0 {
        push_error(errors, rule.name.clone(), "priority must be greater than 0".to_owned());
    }
    let ghost after3 = error_views(errors@);
    let has_matcher = rule.path_contains.is_some() || rule.method.is_some()
        || rule.user_agent_contains.is_some();
    if !has_matcher {
        push_error(
            errors,
            rule.name.clone(),
            "rule must have at least one matcher (path_contains, method, or user_agent_contains)".to_owned(),
        );
    }
    proof {
        let e1: Seq<ErrorView> = if r.name.len() == 0 {
            seq![ErrorView { rule_name: "(unnamed)"@, message: "rule name cannot be empty"@ }]
        } else {
            seq![]
        };
        assert(after1 =~= start + e1);
        let e2: Seq<ErrorView> = if !valid_action(r.action) {
            seq![ErrorView { rule_name: r.name, message: invalid_action_message(r.action) }]
        } else {
            seq![]
        };
        assert(after2 =~= start + e1 + e2);
        let e3: Seq<ErrorView> = if r.priority == 0 {
            seq![ErrorView { rule_name: r.name, message: "priority must be greater than 0"@ }]
        } else {
            seq![]
        };
        assert(after3 =~= start + e1 + e2 + e3);
        assert(error_views(errors@) =~= start + rule_errors(r));
    }
}

/// Checks every rule: `Ok` when no rule has a problem, otherwise every problem of every
/// rule, in order.
pub fn validate_rules(rules: &[Rule]) -> (r: Result<(), Vec<ValidationError>>)
    ensures
        match r {
            Ok(()) => rules_errors(rules_view(rules@)).len() == 0,
            Err(errs) => errs@.len() > 0 && error_views(errs@) == rules_errors(rules_view(rules@)),
        },
{
    let mut errors: Vec<ValidationError> = Vec::new();
    let ghost rv = rules_view(rules@);
    assert(error_views(errors@) =~= Seq::<ErrorView>::empty());
    for i in 0..rules.len()
        invariant
            rv == rules_view(rules@),
            error_views(errors@) == rules_errors(rv.take(i as int)),
    {
        assert(rv.take(i + 1).drop_last() =~= rv.take(i as int));
        check_rule(&rules[i], &mut errors);
    }
    assert(rv.take(rules@.len() as int) =~= rv);
    if errors.len() == 0 {
        Ok(())
    } else {
        Err(errors)
    }
}

/// A rule has no problems exactly when it is valid.
pub proof fn lemma_rule_errors_empty_iff_valid(r: RuleView)
    ensures
        rule_errors(r).len() == 0 <==> rule_valid(r),
{
}

/// A list of rules passes validation exactly when every rule in it is valid.
pub proof fn lemma_rules_valid_iff_no_errors(rules: Seq<RuleView>)
    ensures
        rules_errors(rules).len() == 0 <==> forall|i: int| 0 <= i < rules.len() ==> rule_valid(#[trigger] rules[i]),
    decreases rules.len(),
{
    if rules.len() > 0 {
        let p = rules.drop_last();
        lemma_rules_valid_iff_no_errors(p);
        lemma_rule_errors_empty_iff_valid(rules.last());
        assert forall|i: int| 0 <= i < p.len() implies #[trigger] p[i] == rules[i] by {}
        if forall|i: int| 0 <= i < rules.len() ==> rule_valid(#[trigger] rules[i]) {
            assert(rule_valid(rules[rules.len() - 1]));
            assert forall|i: int| 0 <= i < p.len() implies rule_valid(#[trigger] p[i]) by {
                assert(rule_valid(rules[i]));
            }
        }
        if rules_errors(rules).len() == 0 {
            assert forall|i: int| 0 <= i < rules.len() implies rule_valid(#[trigger] rules[i]) by {
                if i < p.len() {
                    assert(rule_valid(p[i]));
                }
            }
        }
    }
}

/// A rule passes validation exactly when it has a name, its action is one of `allow`,
/// `block` and `throttle`, its priority is above zero and it has at least one matcher; and a
/// list of rules passes exactly when each of its rules does.
pub proof fn lemma_accepted_rules(rules: Seq<RuleView>)
    ensures
        forall|i: int|
            0 <= i < rules.len() ==> (#[trigger] rule_errors(rules[i]).len() == 0 <==> {
                &&& rules[i].name.len() > 0
                &&& (rules[i].action == "allow"@ || rules[i].action == "block"@ || rules[i].action
                    == "throttle"@)
                &&& rules[i].priority > 0
                &&& (rules[i].path_contains is Some || rules[i].method is Some
                    || rules[i].user_agent_contains is Some)
            }),
        rules_errors(rules).len() == 0 <==> forall|i: int|
            0 <= i < rules.len() ==> {
                &&& (#[trigger] rules[i]).name.len() > 0
                &&& (rules[i].action == "allow"@ || rules[i].action == "block"@ || rules[i].action
                    == "throttle"@)
                &&& rules[i].priority > 0
                &&& (rules[i].path_contains is Some || rules[i].method is Some
                    || rules[i].user_agent_contains is Some)
            },
{
    lemma_rules_valid_iff_no_errors(rules);
}

/// What the rule-validation endpoint answers.
#[derive(Debug)]
pub struct ValidationReport {
    pub valid: bool,
    pub errors: Vec<String>,
}

/// The validation report of a list of rules: valid with no errors, or invalid with each
/// error as shown to an operator.
pub fn validation_report(rules: &[Rule]) -> (r: ValidationReport)
    ensures
        r.valid == (rules_errors(rules_view(rules@)).len() == 0),
        r.errors@.map_values(|s: String| s@) == rules_errors(rules_view(rules@)).map_values(
            |e: ErrorView| error_text(e),
        ),
{
    match validate_rules(rules) {
        Ok(()) => {
            let v: Vec<String> = Vec::new();
            assert(v@.map_values(|s: String| s@) =~= rules_errors(rules_view(rules@)).map_values(
                |e: ErrorView| error_text(e),
            ));
            ValidationReport { valid: true, errors: v }
        },
        Err(errs) => {
            let ghost target = error_views(errs@).map_values(|e: ErrorView| error_text(e));
            let mut out: Vec<String> = Vec::new();
            for i in 0..errs.len()
                invariant
                    target == error_views(errs@).map_values(|e: ErrorView| error_text(e)),
                    out@.len() == i,
                    forall|k: int| 0 <= k < i ==> #[trigger] out@[k]@ == target[k],
            {
                out.push(errs[i].to_string());
            }
            assert(out@.map_values(|s: String| s@) =~= target);
            ValidationReport { valid: false, errors: out }
        },
    }
}

/// `parts` joined with `sep` between consecutive parts.
pub open spec fn join(parts: Seq<Seq<char>>, sep: Seq<char>) -> Seq<char>
    decreases parts.len(),
{
    if parts.len() == 0 {
        seq![]
    } else if parts.len() == 1 {
        parts[0]
    } else {
        join(parts.drop_last(), sep) + sep + parts.last()
    }
}

/// The message that rejects a configuration with validation errors.
pub open spec fn config_errors_message(errors: Seq<ErrorView>) -> Seq<char> {
    "config has "@ + decimal(errors.len()) + " validation error(s): "@ + join(
        errors.map_values(|e: ErrorView| error_text(e)),
        "; "@,
    )
}

/// The message that rejects a configuration with these validation errors:
/// `config has <n> validation error(s): <error>; <error>; ...`.
pub fn errors_message(errors: &Vec<ValidationError>) -> (s: String)
    ensures
        s@ == config_errors_message(error_views(errors@)),
{
    let ghost texts = error_views(errors@).map_values(|e: ErrorView| error_text(e));
    let mut joined = String::new();
    let n = errors.len();
    for i in 0..n
        invariant
            n == errors@.len(),
            texts == error_views(errors@).map_values(|e: ErrorView| error_text(e)),
            joined@ == join(texts.take(i as int), "; "@),
    {
        let t = errors[i].to_string();
        assert(texts[i as int] == t@);
        if i > 0 {
            joined.append("; ");
        }
        joined.append(t.as_str());
        assert(texts.take(i + 1).drop_last() =~= texts.take(i as int));
        if i == 0 {
            assert(texts.take(1) =~= seq![t@]);
            assert(joined@ =~= t@);
        }
    }
    assert(texts.take(n as int) =~= texts);
    let mut s = "config has ".to_owned();
    let count = decimal_string(n as u128);
    s.append(count.as_str());
    s.append(" validation error(s): ");
    s.append(joined.as_str());
    s
}

/// A parsed configuration is accepted only when its rules pass validation; otherwise the
/// validation errors are reported in one message.
pub fn validated(config: Config) -> (r: Result<Config, String>)
    ensures
        rules_errors(rules_view(config.rules@)).len() == 0 ==> r == Ok::<Config, String>(config),
        rules_errors(rules_view(config.rules@)).len() > 0 ==> (r matches Err(m) && m@
            == config_errors_message(rules_errors(rules_view(config.rules@)))),
{
    match validate_rules(config.rules.as_slice()) {
        Ok(()) => Ok(config),
        Err(errors) => Err(errors_message(&errors)),
    }
}

} // verus!
