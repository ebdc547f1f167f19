use vstd::prelude::*;

use crate::context::{ContextView, RequestContext};
use crate::policy::decision::{opt_decision, Decision, DecisionSource, DecisionView};
use crate::policy::matcher::rule_matches;
use crate::policy::rules::{rules_view, Rule, RuleView};
use crate::text::str_eq;

verus! {

broadcast use vstd::string::group_string_axioms;

/// The rules a policy engine evaluates requests against.
pub struct PolicyEngine {
    pub rules: Vec<Rule>,
}

/// The index of the rule that decides a request: among the rules that match, the one
/// with the highest priority, and of several with that priority the first in the list.
/// `None` when no rule matches.
pub open spec fn winner(rules: Seq<RuleView>, ctx: ContextView) -> Option<int>
    decreases rules.len(),
{
    if rules.len() == 0 {
        None
    } else {
        let w = winner(rules.drop_last(), ctx);
        let last = rules.len() - 1;
        if rule_matches(rules[last], ctx) && (match w {
            Some(i) => rules[i].priority < rules[last].priority,
            None => true,
        }) {
            Some(last)
        } else {
            w
        }
    }
}

/// The decision that a rule's action stands for; an unknown action allows the request
/// with the reason `unknown`.
pub open spec fn action_decision(action: Seq<char>, rule_name: Seq<char>) -> DecisionView {
    if action == "allow"@ {
        DecisionView::Allow { reason: rule_name, source: DecisionSource::Rule }
    } else if action == "block"@ {
        DecisionView::Block { reason: rule_name, source: DecisionSource::Rule }
    } else if action == "throttle"@ {
        DecisionView::Throttle { reason: rule_name, source: DecisionSource::Rule }
    } else {
        DecisionView::Allow { reason: "unknown"@, source: DecisionSource::Rule }
    }
}

/// What the policy engine decides for a request: the winning rule's action, or nothing.
pub open spec fn policy_decision(rules: Seq<RuleView>, ctx: ContextView) -> Option<DecisionView> {
    match winner(rules, ctx) {
        Some(i) => Some(action_decision(rules[i].action, rules[i].name)),
        None => None,
    }
}

/// The decision a rule's action stands for.
pub fn map_action(action: &str, rule_name: &str) -> (d: Decision)
    ensures
        d@ == action_decision(action@, rule_name@),
{
    if str_eq(action, "allow") {
        Decision::Allow { reason: rule_name.to_owned(), source: DecisionSource::Rule }
    } else if str_eq(action, "block") {
        Decision::Block { reason: rule_name.to_owned(), source: DecisionSource::Rule }
    } else if str_eq(action, "throttle") {
        Decision::Throttle { reason: rule_name.to_owned(), source: DecisionSource::Rule }
    } else {
        Decision::Allow { reason: "unknown".to_owned(), source: DecisionSource::Rule }
    }
}

impl PolicyEngine {
    /// An engine that evaluates requests against `rules`.
    pub fn new(rules: Vec<Rule>) -> (e: Self)
        ensures
            e.rules@ == rules@,
    {
        Self { rules }
    }

    /// The decision of the highest-priority matching rule (the first of equals), or
    /// `None` when no rule matches.
    pub fn evaluate(&self, ctx: &RequestContext) -> (d: Option<Decision>)
        ensures
            opt_decision(d) == policy_decision(rules_view(self.rules@), ctx@),
    {
        let ghost rv = rules_view(self.rules@);
        let n = self.rules.len();
        let mut best: Option<usize> = None;
        for i in 0..n
            invariant
                n == self.rules@.len(),
                rv == rules_view(self.rules@),
                match best {
                    Some(b) => b < i && winner(rv.take(i as int), ctx@) == Some(b as int),
                    None => winner(rv.take(i as int), ctx@) == None::<int>,
                },
        {
            assert(rv.take(i + 1).drop_last() =~= rv.take(i as int));
            let m = crate::policy::matcher::matches(&self.rules[i], ctx);
            let better = match best {
                Some(b) => self.rules[b].priority < self.rules[i].priority,
                None => true,
            };
            if m && better {
                best = Some(i);
            }
        }
        assert(rv.take(n as int) =~= rv);
        match best {
            Some(b) => {
                let rule = &self.rules[b];
                Some(map_action(rule.action.as_str(), rule.name.as_str()))
            },
            None => None,
        }
    }
}

/// The winning rule matches the request; no matching rule has a higher priority; and
/// every matching rule before it has a strictly lower priority. When no rule wins, no
/// rule matches.
pub proof fn lemma_highest_priority_wins(rules: Seq<RuleView>, ctx: ContextView)
    ensures
        match winner(rules, ctx) {
            Some(w) => {
                &&& 0 <= w < rules.len()
                &&& rule_matches(rules[w], ctx)
                &&& forall|j: int|
                    0 <= j < rules.len() && rule_matches(rules[j], ctx) ==> #[trigger] rules[j].priority
                        <= rules[w].priority
                &&& forall|j: int|
                    0 <= j < w && rule_matches(rules[j], ctx) ==> #[trigger] rules[j].priority
                        < rules[w].priority
            },
            None => forall|j: int| 0 <= j < rules.len() ==> !rule_matches(#[trigger] rules[j], ctx),
        },
    decreases rules.len(),
{
    if rules.len() > 0 {
        let prefix = rules.drop_last();
        let last = rules.len() - 1;
        lemma_highest_priority_wins(prefix, ctx);
        assert forall|j: int| 0 <= j < prefix.len() implies #[trigger] prefix[j] == rules[j] by {}
        let wp = winner(prefix, ctx);
        match winner(rules, ctx) {
            Some(w) => {
                assert forall|j: int|
                    0 <= j < rules.len() && rule_matches(rules[j], ctx) implies #[trigger] rules[j].priority
                    <= rules[w].priority by {
                    if j < last {
                        assert(prefix[j] == rules[j]);
                        assert(rule_matches(prefix[j], ctx));
                    }
                }
                assert forall|j: int|
                    0 <= j < w && rule_matches(rules[j], ctx) implies #[trigger] rules[j].priority
                    < rules[w].priority by {
                    assert(prefix[j] == rules[j]);
                    assert(rule_matches(prefix[j], ctx));
                    if w == last {
                        match wp {
                            Some(v) => {
                                assert(prefix[v] == rules[v]);
                            },
                            None => {},
                        }
                    }
                }
            },
            None => {
                assert forall|j: int| 0 <= j < rules.len() implies !rule_matches(#[trigger] rules[j], ctx) by {
                    if j < last {
                        assert(prefix[j] == rules[j]);
                    }
                }
            },
        }
    }
}

} // verus!
