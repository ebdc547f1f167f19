use vstd::prelude::*;

use crate::log::audit::AuditEvent;
use crate::text::{decimal, decimal_string};

verus! {

broadcast use vstd::string::group_string_axioms;

/// The full Unicode uppercase of a text, as `str::to_uppercase` computes it.
pub uninterp spec fn unicode_uppercase(s: Seq<char>) -> Seq<char>;

/// `str::to_uppercase`. The contract claims only that the result is a function of the
/// text, named [`unicode_uppercase`]; the Unicode case tables are not restated.
#[verifier::external_body]
fn to_uppercase(s: &str) -> (r: String)
    ensures
        r@ == unicode_uppercase(s@),
{
    s.to_uppercase()
}

/// An event is shown when it has the decision and the address that the filters ask for
/// (a filter that is not given lets every event through).
pub open spec fn selected_spec(decision: Seq<char>, ip: Seq<char>, decision_filter: Option<Seq<char>>, ip_filter: Option<Seq<char>>) -> bool {
    (decision_filter matches Some(d) ==> decision == d) && (ip_filter matches Some(i) ==> ip == i)
}

/// Whether `event` passes the filters.
pub fn event_selected(event: &AuditEvent, decision_filter: Option<&str>, ip_filter: Option<&str>) -> (r: bool)
    ensures
        r == selected_spec(
            event.decision@,
            event.ip@,
            crate::context::opt_str(decision_filter),
            crate::context::opt_str(ip_filter),
        ),
{
    if let Some(d) = decision_filter {
        if !crate::text::str_eq(event.decision.as_str(), d) {
            return false;
        }
    }
    if let Some(i) = ip_filter {
        if !crate::text::str_eq(event.ip.as_str(), i) {
            return false;
        }
    }
    true
}

/// The two filters act independently: an event is shown exactly when it passes the
/// decision filter alone and the address filter alone. An event whose decision differs from
/// a given decision filter is never shown, whatever the address filter, and an event whose
/// address differs from a given address filter is never shown, whatever the decision
/// filter; an event that has the asked decision and address is shown.
pub proof fn lemma_filters_independent(
    decision: Seq<char>,
    ip: Seq<char>,
    decision_filter: Option<Seq<char>>,
    ip_filter: Option<Seq<char>>,
)
    ensures
        selected_spec(decision, ip, decision_filter, ip_filter) == (selected_spec(
            decision,
            ip,
            decision_filter,
            None,
        ) && selected_spec(decision, ip, None, ip_filter)),
        decision_filter matches Some(d) && decision != d ==> !selected_spec(
            decision,
            ip,
            decision_filter,
            ip_filter,
        ),
        ip_filter matches Some(i) && ip != i ==> !selected_spec(decision, ip, decision_filter, ip_filter),
        (decision_filter is None || decision_filter == Some(decision)) && (ip_filter is None
            || ip_filter == Some(ip)) ==> selected_spec(decision, ip, decision_filter, ip_filter),
        selected_spec(decision, ip, None, None),
{
}

/// How an event is shown:
/// `<timestamp> [<DECISION>] <method> <path> -> <reason> (<ip>) [src:<source>] [<latency>ms]`.
pub open spec fn event_line_spec(e: AuditEvent) -> Seq<char> {
    decimal(e.timestamp as nat) + " ["@ + unicode_uppercase(e.decision@) + "] "@ + e.method@ + " "@
        + e.path@ + " -> "@ + e.reason@ + " ("@ + e.ip@ + ") [src:"@ + e.source@ + "] ["@
        + decimal(e.latency_ms as nat) + "ms]"@
}

/// The line that shows `event`.
pub fn event_line(event: &AuditEvent) -> (s: String)
    ensures
        s@ == event_line_spec(*event),
{
    let mut s = decimal_string(event.timestamp as u128);
    s.append(" [");
    let upper = to_uppercase(event.decision.as_str());
    s.append(upper.as_str());
    s.append("] ");
    s.append(event.method.as_str());
    s.append(" ");
    s.append(event.path.as_str());
    s.append(" -> ");
    s.append(event.reason.as_str());
    s.append(" (");
    s.append(event.ip.as_str());
    s.append(") [src:");
    s.append(event.source.as_str());
    s.append("] [");
    let lat = decimal_string(event.latency_ms);
    s.append(lat.as_str());
    s.append("ms]");
    s
}

} // verus!
