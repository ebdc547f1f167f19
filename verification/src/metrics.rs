use vstd::prelude::*;

use crate::text::str_eq;

verus! {

broadcast use vstd::string::group_string_axioms;

/// Which counters a request adds to, besides the total.
#[derive(Debug, Clone, Copy, PartialEq, Eq, Structural)]
pub struct CounterHits {
    pub blocked: bool,
    pub throttled: bool,
    pub rate_limit_hit: bool,
}

/// Blocked and throttled requests are counted by decision; a rate-limit hit is a request
/// that the rate limiter blocked.
pub open spec fn counter_hits_spec(decision: Seq<char>, source: Seq<char>) -> CounterHits {
    CounterHits {
        blocked: decision == "block"@,
        throttled: decision == "throttle"@,
        rate_limit_hit: source == "rate_limit"@ && decision == "block"@,
    }
}

/// The counters that a request with this decision and source adds to.
pub fn counter_hits(decision: &str, source: &str) -> (c: CounterHits)
    ensures
        c == counter_hits_spec(decision@, source@),
{
    let blocked = str_eq(decision, "block");
    CounterHits {
        blocked,
        throttled: str_eq(decision, "throttle"),
        rate_limit_hit: str_eq(source, "rate_limit") && blocked,
    }
}

} // verus!
