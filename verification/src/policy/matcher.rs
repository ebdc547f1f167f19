use vstd::prelude::*;

use crate::context::{ContextView, RequestContext};
use crate::policy::rules::{Rule, RuleView};
use crate::text::{eq_ignore_ascii_case_spec, seq_contains, str_contains, str_eq_ignore_ascii_case};

verus! {

/// Some agent of `agents` occurs in `ua`.
pub open spec fn some_agent_in(agents: Seq<Seq<char>>, ua: Seq<char>) -> bool {
    exists|i: int| 0 <= i < agents.len() && seq_contains(ua, #[trigger] agents[i])
}

/// A rule matches a request when each matcher it sets holds: the path contains
/// `path_contains`; the method equals `method` up to ASCII case; and the request has a
/// user agent that contains one of `user_agent_contains`. A rule that sets no matcher
/// matches every request.
pub open spec fn rule_matches(rule: RuleView, ctx: ContextView) -> bool {
    &&& (rule.path_contains matches Some(p) ==> seq_contains(ctx.path, p))
    &&& (rule.method matches Some(m) ==> eq_ignore_ascii_case_spec(ctx.method, m))
    &&& (rule.user_agent_contains matches Some(agents) ==> (ctx.user_agent matches Some(ua)
        && some_agent_in(agents, ua)))
}

fn any_agent_in(agents: &Vec<String>, ua: &String) -> (r: bool)
    ensures
        r == some_agent_in(crate::policy::rules::texts(agents@), ua@),
{
    let ghost t = crate::policy::rules::texts(agents@);
    for i in 0..agents.len()
        invariant
            t == crate::policy::rules::texts(agents@),
            forall|j: int| 0 <= j < i ==> !seq_contains(ua@, #[trigger] t[j]),
    {
        if str_contains(ua.as_str(), agents[i].as_str()) {
            assert(seq_contains(ua@, t[i as int]));
            return true;
        }
    }
    false
}

/// Whether `rule` matches the request described by `ctx`.
pub fn matches(rule: &Rule, ctx: &RequestContext) -> (r: bool)
    ensures
        r == rule_matches(rule@, ctx@),
{
    if let Some(path) = &rule.path_contains {
        if !str_contains(ctx.path.as_str(), path.as_str()) {
            return false;
        }
    }
    if let Some(method) = &rule.method {
        if !str_eq_ignore_ascii_case(ctx.method.as_str(), method.as_str()) {
            return false;
        }
    }
    if let Some(agents) = &rule.user_agent_contains {
        if let Some(ua) = &ctx.user_agent {
            if !any_agent_in(agents, ua) {
                return false;
            }
        } else {
            return false;
        }
    }
    true
}

/// A rule that sets no matcher matches every request; a method matcher ignores ASCII case
/// in either direction.
pub proof fn lemma_matcher_basics(rule: RuleView, ctx: ContextView, a: Seq<char>, b: Seq<char>)
    ensures
        rule.path_contains is None && rule.method is None && rule.user_agent_contains is None
            ==> rule_matches(rule, ctx),
        eq_ignore_ascii_case_spec(a, a),
        eq_ignore_ascii_case_spec(a, b) == eq_ignore_ascii_case_spec(b, a),
{
}

} // verus!
