use std::time::{SystemTime, UNIX_EPOCH};

use vstd::prelude::*;

use crate::context::RequestContext;
use crate::policy::decision::{kind_label, reason_of, source_label, source_of, Decision};

verus! {

/// One line of the audit log: a request and what was decided for it.
#[derive(Debug)]
pub struct AuditEvent {
    pub timestamp: u64,
    pub ip: String,
    pub path: String,
    pub method: String,
    pub decision: String,
    pub reason: String,
    pub source: String,
    pub latency_ms: u128,
}

/// The current time in whole seconds since the Unix epoch (`SystemTime::now`, then
/// `duration_since(UNIX_EPOCH)` and `as_secs`), or `None` when the clock is set before the
/// epoch (the error of `duration_since`). Nothing is promised of the value, which depends on
/// when it is called.
#[verifier::external_body]
fn now() -> Option<u64> {
    match SystemTime::now().duration_since(UNIX_EPOCH) {
        Ok(d) => Some(d.as_secs()),
        Err(_) => None,
    }
}

/// The audit event of a request decided at `timestamp` after `latency_ms` milliseconds:
/// the request's address, path and method, and the decision's kind, reason and source.
pub fn audit_event_at(ctx: &RequestContext, decision: &Decision, latency_ms: u128, timestamp: u64) -> (e: AuditEvent)
    ensures
        e.timestamp == timestamp,
        e.ip@ == ctx@.ip,
        e.path@ == ctx@.path,
        e.method@ == ctx@.method,
        e.decision@ == kind_label(decision@),
        e.reason@ == reason_of(decision@),
        e.source@ == source_label(source_of(decision@)),
        e.latency_ms == latency_ms,
{
    AuditEvent {
        timestamp,
        ip: ctx.ip.clone(),
        path: ctx.path.clone(),
        method: ctx.method.clone(),
        decision: decision.kind(),
        reason: decision.reason(),
        source: decision.source().to_string(),
        latency_ms,
    }
}

/// The audit event of a request decided now, after `latency_ms` milliseconds, or `None`
/// when the system clock reads a time before the Unix epoch and so gives no timestamp.
pub fn audit_event(ctx: &RequestContext, decision: &Decision, latency_ms: u128) -> (r: Option<AuditEvent>)
    ensures
        r matches Some(e) ==> {
            &&& e.ip@ == ctx@.ip
            &&& e.path@ == ctx@.path
            &&& e.method@ == ctx@.method
            &&& e.decision@ == kind_label(decision@)
            &&& e.reason@ == reason_of(decision@)
            &&& e.source@ == source_label(source_of(decision@))
            &&& e.latency_ms == latency_ms
        },
{
    match now() {
        Some(t) => Some(audit_event_at(ctx, decision, latency_ms, t)),
        None => None,
    }
}

} // verus!
