use vstd::prelude::*;

use crate::context::{ContextView, RequestContext};
use crate::policy::decision::{opt_decision, Decision, DecisionSource, DecisionView};
use crate::policy::engine::{policy_decision, PolicyEngine};
use crate::policy::rules::rules_view;
use crate::security::rate_limit::{check_spec, LimiterView, RateLimiter};
use crate::text::{chars_of, eq_ignore_ascii_case_spec, parse_usize, parse_usize_spec, pieces_of, split_bounds, split_on, str_eq_ignore_ascii_case, string_from_chars, trim, trim_bounds};
use crate::threat::{ua_blocked, ThreatData, ThreatView};

verus! {

broadcast use vstd::string::group_string_axioms;

/// A request is refused before anything else when its `Content-Length` parses as a number
/// larger than the body limit.
pub open spec fn body_too_large_spec(content_length: Option<Seq<char>>, max_body_bytes: usize) -> bool {
    match content_length {
        Some(v) => match parse_usize_spec(v) {
            Some(n) => n > max_body_bytes,
            None => false,
        },
        None => false,
    }
}

/// Whether a request advertising this `Content-Length` exceeds the body limit.
pub fn body_too_large(content_length: Option<&str>, max_body_bytes: usize) -> (r: bool)
    ensures
        r == body_too_large_spec(crate::context::opt_str(content_length), max_body_bytes),
{
    match content_length {
        Some(v) => match parse_usize(v) {
            Some(n) => n > max_body_bytes,
            None => false,
        },
        None => false,
    }
}

/// The threat-feed stage: a blocked client address, or else a blocked user agent, blocks
/// the request.
pub open spec fn threat_decision_spec(t: ThreatView, ctx: ContextView) -> Option<DecisionView> {
    if t.blocked_ips.contains(ctx.ip) {
        Some(DecisionView::Block { reason: "threat feed: blocked IP"@, source: DecisionSource::ThreatFeed })
    } else if ctx.user_agent is Some && ua_blocked(t.blocked_user_agents, ctx.user_agent->0) {
        Some(
            DecisionView::Block {
                reason: "threat feed: blocked user agent"@,
                source: DecisionSource::ThreatFeed,
            },
        )
    } else {
        None
    }
}

/// The decision of the threat-feed stage, if it blocks the request.
pub fn threat_decision(threat: &ThreatData, ctx: &RequestContext) -> (d: Option<Decision>)
    requires
        threat.wf(),
    ensures
        opt_decision(d) == threat_decision_spec(threat@, ctx@),
{
    if threat.is_ip_blocked(ctx.ip.as_str()) {
        return Some(
            Decision::Block {
                reason: "threat feed: blocked IP".to_owned(),
                source: DecisionSource::ThreatFeed,
            },
        );
    }
    match &ctx.user_agent {
        Some(ua) => {
            if threat.is_ua_blocked(ua.as_str()) {
                Some(
                    Decision::Block {
                        reason: "threat feed: blocked user agent".to_owned(),
                        source: DecisionSource::ThreatFeed,
                    },
                )
            } else {
                None
            }
        },
        None => None,
    }
}

/// The rate-limit stage's decision, from whether the limiter allowed the request.
pub open spec fn rate_decision(allowed: bool) -> DecisionView {
    if allowed {
        DecisionView::Allow { reason: "rate_ok"@, source: DecisionSource::RateLimit }
    } else {
        DecisionView::Block { reason: "rate_limited"@, source: DecisionSource::RateLimit }
    }
}

/// The request pipeline: the threat feeds decide first, then the WebAssembly rules, then
/// the policy rules, and only a request none of them decides is counted by the rate
/// limiter (keyed by client address), at time `now`. The second part is the limiter after
/// the request.
pub open spec fn pipeline_spec(
    threat: Option<DecisionView>,
    wasm: Option<DecisionView>,
    policy: Option<DecisionView>,
    limiter: LimiterView,
    ip: Seq<char>,
    now: u128,
) -> (DecisionView, LimiterView) {
    if threat is Some {
        (threat->0, limiter)
    } else if wasm is Some {
        (wasm->0, limiter)
    } else if policy is Some {
        (policy->0, limiter)
    } else {
        let (l, allowed) = check_spec(limiter, ip, now);
        (rate_decision(allowed), l)
    }
}

fn rate_limit_decision(allowed: bool) -> (d: Decision)
    ensures
        d@ == rate_decision(allowed),
{
    if allowed {
        Decision::Allow { reason: "rate_ok".to_owned(), source: DecisionSource::RateLimit }
    } else {
        Decision::Block { reason: "rate_limited".to_owned(), source: DecisionSource::RateLimit }
    }
}

/// The decision for a request at time `now` (nanoseconds since the limiter was created),
/// given the threat-feed stage's and the WebAssembly stage's outcomes.
pub fn decide_at(
    threat: Option<Decision>,
    wasm: Option<Decision>,
    engine: &PolicyEngine,
    limiter: &mut RateLimiter,
    ctx: &RequestContext,
    now: u128,
) -> (d: Decision)
    requires
        old(limiter).wf(),
    ensures
        final(limiter).wf(),
        (d@, final(limiter)@) == pipeline_spec(
            opt_decision(threat),
            opt_decision(wasm),
            policy_decision(rules_view(engine.rules@), ctx@),
            old(limiter)@,
            ctx@.ip,
            now,
        ),
{
    if let Some(d) = threat {
        return d;
    }
    if let Some(d) = wasm {
        return d;
    }
    if let Some(d) = engine.evaluate(ctx) {
        return d;
    }
    let allowed = limiter.check_at(ctx.ip.as_str(), now);
    rate_limit_decision(allowed)
}

/// The decision for a request, given the threat-feed stage's and the WebAssembly stage's
/// outcomes; the rate limiter reads the clock, so the contract holds for some time `t`.
pub fn decide(
    threat: Option<Decision>,
    wasm: Option<Decision>,
    engine: &PolicyEngine,
    limiter: &mut RateLimiter,
    ctx: &RequestContext,
) -> (d: Decision)
    requires
        old(limiter).wf(),
    ensures
        final(limiter).wf(),
        exists|t: u128|
            (d@, final(limiter)@) == pipeline_spec(
                opt_decision(threat),
                opt_decision(wasm),
                policy_decision(rules_view(engine.rules@), ctx@),
                old(limiter)@,
                ctx@.ip,
                t,
            ),
{
    if let Some(d) = threat {
        assert((d@, limiter@) == pipeline_spec(
            Some(d@),
            opt_decision(wasm),
            policy_decision(rules_view(engine.rules@), ctx@),
            old(limiter)@,
            ctx@.ip,
            0,
        ));
        return d;
    }
    if let Some(d) = wasm {
        assert((d@, limiter@) == pipeline_spec(
            None,
            Some(d@),
            policy_decision(rules_view(engine.rules@), ctx@),
            old(limiter)@,
            ctx@.ip,
            0,
        ));
        return d;
    }
    let p = engine.evaluate(ctx);
    if let Some(d) = p {
        assert((d@, limiter@) == pipeline_spec(
            None,
            None,
            policy_decision(rules_view(engine.rules@), ctx@),
            old(limiter)@,
            ctx@.ip,
            0,
        ));
        return d;
    }
    let allowed = limiter.check(ctx.ip.as_str());
    let d = rate_limit_decision(allowed);
    proof {
        let t = choose|t: u128| (limiter@, allowed) == check_spec(old(limiter)@, ctx@.ip, t);
        assert((d@, limiter@) == pipeline_spec(
            None,
            None,
            policy_decision(rules_view(engine.rules@), ctx@),
            old(limiter)@,
            ctx@.ip,
            t,
        ));
    }
    d
}

/// A request that the threat feeds block is blocked whatever the other stages would say,
/// and it does not count against the rate limit.
pub proof fn lemma_threat_block_wins(
    threat: DecisionView,
    wasm: Option<DecisionView>,
    policy: Option<DecisionView>,
    limiter: LimiterView,
    ip: Seq<char>,
    now: u128,
)
    ensures
        pipeline_spec(Some(threat), wasm, policy, limiter, ip, now) == (threat, limiter),
{
}

/// A request that a policy rule decides does not count against the rate limit; one that
/// no stage decides is allowed exactly when the limiter has a token for its address.
pub proof fn lemma_rate_limit_is_last_resort(
    policy: Option<DecisionView>,
    limiter: LimiterView,
    ip: Seq<char>,
    now: u128,
)
    ensures
        policy is Some ==> pipeline_spec(None, None, policy, limiter, ip, now) == (policy->0, limiter),
        policy is None ==> pipeline_spec(None, None, policy, limiter, ip, now).0 == rate_decision(
            check_spec(limiter, ip, now).1,
        ),
{
}

/// What the proxy does with a request once it is decided.
#[derive(Debug, Clone, Copy, PartialEq, Eq, Structural)]
pub enum Enforcement {
    /// Forward the request upstream.
    Forward,
    /// Answer 403 `Blocked by policy`.
    Reject,
    /// Wait [`THROTTLE_DELAY_MS`] milliseconds, then forward the request upstream.
    DelayThenForward,
}

/// Milliseconds a throttled request waits before it is forwarded.
pub const THROTTLE_DELAY_MS: u64 = 200;

/// Allowed requests are forwarded, blocked ones rejected, throttled ones delayed and
/// forwarded.
pub open spec fn enforcement_spec(d: DecisionView) -> Enforcement {
    match d {
        DecisionView::Allow { .. } => Enforcement::Forward,
        DecisionView::Block { .. } => Enforcement::Reject,
        DecisionView::Throttle { .. } => Enforcement::DelayThenForward,
    }
}

/// What the proxy does with a request so decided.
pub fn enforcement(d: &Decision) -> (e: Enforcement)
    ensures
        e == enforcement_spec(d@),
{
    match d {
        Decision::Allow { .. } => Enforcement::Forward,
        Decision::Block { .. } => Enforcement::Reject,
        Decision::Throttle { .. } => Enforcement::DelayThenForward,
    }
}

/// The upstream URI of a forwarded request: the upstream base followed by the request's
/// path and query, or `/` when it has none.
pub open spec fn upstream_uri_spec(upstream: Seq<char>, path_and_query: Option<Seq<char>>) -> Seq<char> {
    match path_and_query {
        Some(pq) => upstream + pq,
        None => upstream + "/"@,
    }
}

/// The URI to forward a request to.
pub fn upstream_uri(upstream: &str, path_and_query: Option<&str>) -> (r: String)
    ensures
        r@ == upstream_uri_spec(upstream@, crate::context::opt_str(path_and_query)),
{
    let mut s = upstream.to_owned();
    match path_and_query {
        Some(pq) => s.append(pq),
        None => s.append("/"),
    }
    s
}

/// The `X-Forwarded-For` value sent upstream: the client's list with the client address
/// appended, or the client address alone.
pub open spec fn forwarded_for_spec(existing: Option<Seq<char>>, client_ip: Seq<char>) -> Seq<char> {
    match existing {
        Some(e) => e + ", "@ + client_ip,
        None => client_ip,
    }
}

/// The `X-Forwarded-For` value to send upstream.
pub fn forwarded_for(existing: Option<&str>, client_ip: &str) -> (r: String)
    ensures
        r@ == forwarded_for_spec(crate::context::opt_str(existing), client_ip@),
{
    match existing {
        Some(e) => {
            let mut s = e.to_owned();
            s.append(", ");
            s.append(client_ip);
            s
        },
        None => client_ip.to_owned(),
    }
}

/// The connection-specific headers that are never forwarded (RFC 9110 section 7.6.1).
pub open spec fn hop_by_hop() -> Seq<Seq<char>> {
    seq![
        "connection"@,
        "keep-alive"@,
        "proxy-authenticate"@,
        "proxy-authorization"@,
        "te"@,
        "trailer"@,
        "transfer-encoding"@,
        "upgrade"@,
    ]
}

/// The texts of a list of strings.
pub open spec fn string_texts(v: Seq<String>) -> Seq<Seq<char>> {
    v.map_values(|s: String| s@)
}

/// The header names a `Connection` header lists, each trimmed.
pub open spec fn connection_tokens(conn: Seq<char>) -> Seq<Seq<char>> {
    split_on(conn, ',').map_values(|t: Seq<char>| trim(t))
}

/// The headers to strip before forwarding: the hop-by-hop headers, then every header that
/// the client's `Connection` header names.
pub open spec fn headers_to_strip_spec(connection: Option<Seq<char>>) -> Seq<Seq<char>> {
    match connection {
        Some(c) => hop_by_hop() + connection_tokens(c),
        None => hop_by_hop(),
    }
}

/// The names of the headers to strip from a request before forwarding it.
pub fn headers_to_strip(connection: Option<&str>) -> (r: Vec<String>)
    ensures
        string_texts(r@) == headers_to_strip_spec(crate::context::opt_str(connection)),
{
    let mut r: Vec<String> = Vec::new();
    r.push("connection".to_owned());
    r.push("keep-alive".to_owned());
    r.push("proxy-authenticate".to_owned());
    r.push("proxy-authorization".to_owned());
    r.push("te".to_owned());
    r.push("trailer".to_owned());
    r.push("transfer-encoding".to_owned());
    r.push("upgrade".to_owned());
    assert(string_texts(r@) =~= hop_by_hop());
    if let Some(c) = connection {
        let v = chars_of(c);
        let bounds = split_bounds(&v, ',');
        let ghost pieces = pieces_of(v@, bounds@);
        let ghost toks = connection_tokens(c@);
        for i in 0..bounds.len()
            invariant
                pieces == pieces_of(v@, bounds@),
                pieces == split_on(c@, ','),
                toks == connection_tokens(c@),
                crate::text::bounds_within(bounds@, v@.len() as int),
                string_texts(r@) == hop_by_hop() + toks.take(i as int),
        {
            let (lo, hi) = bounds[i];
            assert(bounds@[i as int].0 <= bounds@[i as int].1);
            let (a, b) = trim_bounds(&v, lo, hi);
            let ghost before = string_texts(r@);
            r.push(string_from_chars(&v.as_slice()[a..b]));
            assert(toks[i as int] == trim(pieces[i as int]));
            assert(toks.take(i + 1) =~= toks.take(i as int).push(toks[i as int]));
            assert(string_texts(r@) =~= before.push(v@.subrange(a as int, b as int)));
        }
        assert(toks.take(bounds@.len() as int) =~= toks);
    }
    r
}


/// Whether stripping the headers named in `strip` removes `X-Forwarded-For`; header names
/// compare without regard to ASCII case.
pub open spec fn strips_forwarded_for(strip: Seq<Seq<char>>) -> bool {
    exists|i: int| 0 <= i < strip.len() && eq_ignore_ascii_case_spec(#[trigger] strip[i], "x-forwarded-for"@)
}

/// The texts of a list of header name and value pairs.
pub open spec fn header_pairs(v: Seq<(String, String)>) -> Seq<(Seq<char>, Seq<char>)> {
    v.map_values(|p: (String, String)| (p.0@, p.1@))
}

/// The headers set on a forwarded request, in order, after the stripped ones are gone:
/// `Host` becomes the upstream's authority (when the upstream URI has one);
/// `X-Forwarded-For` gets the client address appended to the client's list (which is gone
/// when the `Connection` header named it); `X-Forwarded-Host` carries the client's `Host`
/// (when it sent one); and `X-Forwarded-Proto` is `http`, the listener being plaintext.
pub open spec fn forward_set_spec(
    connection: Option<Seq<char>>,
    client_host: Option<Seq<char>>,
    existing_for: Option<Seq<char>>,
    upstream_authority: Option<Seq<char>>,
    client_ip: Seq<char>,
) -> Seq<(Seq<char>, Seq<char>)> {
    let existing = if strips_forwarded_for(headers_to_strip_spec(connection)) {
        None
    } else {
        existing_for
    };
    let host = match upstream_authority {
        Some(a) => seq![("host"@, a)],
        None => Seq::empty(),
    };
    let forwarded_host = match client_host {
        Some(h) => seq![("x-forwarded-host"@, h)],
        None => Seq::empty(),
    };
    host + seq![("x-forwarded-for"@, forwarded_for_spec(existing, client_ip))] + forwarded_host + seq![
        ("x-forwarded-proto"@, "http"@),
    ]
}

/// How forwarding rewrites a request's headers: first every header named in `remove` goes,
/// then each pair of `set` is set in order, replacing any value of that name.
pub struct ForwardHeaders {
    pub remove: Vec<String>,
    pub set: Vec<(String, String)>,
}

/// The header rewrite for forwarding a request, from the request's `Connection`, `Host` and
/// `X-Forwarded-For` values, the upstream URI's authority and the client address: the
/// headers to strip and `Host` are removed, then the forwarding headers are set.
pub fn forward_headers(
    connection: Option<&str>,
    client_host: Option<&str>,
    existing_for: Option<&str>,
    upstream_authority: Option<&str>,
    client_ip: &str,
) -> (r: ForwardHeaders)
    ensures
        string_texts(r.remove@) == headers_to_strip_spec(crate::context::opt_str(connection)).push(
            "host"@,
        ),
        header_pairs(r.set@) == forward_set_spec(
            crate::context::opt_str(connection),
            crate::context::opt_str(client_host),
            crate::context::opt_str(existing_for),
            crate::context::opt_str(upstream_authority),
            client_ip@,
        ),
{
    let mut remove = headers_to_strip(connection);
    let ghost strip = string_texts(remove@);
    let mut stripped = false;
    let n = remove.len();
    for i in 0..n
        invariant
            n == remove@.len(),
            strip == string_texts(remove@),
            stripped == exists|j: int|
                0 <= j < i && eq_ignore_ascii_case_spec(#[trigger] strip[j], "x-forwarded-for"@),
    {
        if str_eq_ignore_ascii_case(remove[i].as_str(), "x-forwarded-for") {
            assert(eq_ignore_ascii_case_spec(strip[i as int], "x-forwarded-for"@));
            stripped = true;
        }
    }
    assert(stripped == strips_forwarded_for(strip));
    remove.push("host".to_owned());
    assert(string_texts(remove@) =~= strip.push("host"@));
    let existing = if stripped {
        None
    } else {
        existing_for
    };
    let mut set: Vec<(String, String)> = Vec::new();
    if let Some(a) = upstream_authority {
        set.push(("host".to_owned(), a.to_owned()));
    }
    let ghost first = header_pairs(set@);
    set.push(("x-forwarded-for".to_owned(), forwarded_for(existing, client_ip)));
    assert(header_pairs(set@) =~= first.push(("x-forwarded-for"@, forwarded_for_spec(crate::context::opt_str(existing), client_ip@))));
    let ghost second = header_pairs(set@);
    if let Some(h) = client_host {
        set.push(("x-forwarded-host".to_owned(), h.to_owned()));
    }
    let ghost third = header_pairs(set@);
    assert(third =~= second + match crate::context::opt_str(client_host) {
        Some(h) => seq![("x-forwarded-host"@, h)],
        None => Seq::<(Seq<char>, Seq<char>)>::empty(),
    });
    set.push(("x-forwarded-proto".to_owned(), "http".to_owned()));
    assert(header_pairs(set@) =~= third.push(("x-forwarded-proto"@, "http"@)));
    assert(header_pairs(set@) =~= forward_set_spec(
        crate::context::opt_str(connection),
        crate::context::opt_str(client_host),
        crate::context::opt_str(existing_for),
        crate::context::opt_str(upstream_authority),
        client_ip@,
    ));
    ForwardHeaders { remove, set }
}


/// The value of header `name` in a header map whose names are lower case.
pub open spec fn header_value(h: Map<Seq<char>, Seq<char>>, name: Seq<char>) -> Option<Seq<char>> {
    if h.contains_key(name) {
        Some(h[name])
    } else {
        None
    }
}

/// Whether one of the names in `names` denotes header `k`; names compare without regard to
/// ASCII case.
pub open spec fn names_header(names: Seq<Seq<char>>, k: Seq<char>) -> bool {
    exists|i: int| 0 <= i < names.len() && eq_ignore_ascii_case_spec(#[trigger] names[i], k)
}

/// A header map with every header that `names` denotes removed.
pub open spec fn remove_headers(h: Map<Seq<char>, Seq<char>>, names: Seq<Seq<char>>) -> Map<Seq<char>, Seq<char>> {
    Map::new(|k: Seq<char>| h.contains_key(k) && !names_header(names, k), |k: Seq<char>| h[k])
}

/// A header map with the pairs of `set` set in order, each replacing any earlier value.
pub open spec fn set_headers(h: Map<Seq<char>, Seq<char>>, set: Seq<(Seq<char>, Seq<char>)>) -> Map<Seq<char>, Seq<char>>
    decreases set.len(),
{
    if set.len() == 0 {
        h
    } else {
        set_headers(h.insert(set[0].0, set[0].1), set.drop_first())
    }
}

/// The headers a request is forwarded with, from its headers `h` (lower-case names), the
/// upstream's authority and the client address: the rewrite of [`forward_headers`] applied
/// to `h`.
pub open spec fn forwarded_headers(
    h: Map<Seq<char>, Seq<char>>,
    upstream_authority: Option<Seq<char>>,
    client_ip: Seq<char>,
) -> Map<Seq<char>, Seq<char>> {
    let conn = header_value(h, "connection"@);
    set_headers(
        remove_headers(h, headers_to_strip_spec(conn).push("host"@)),
        forward_set_spec(
            conn,
            header_value(h, "host"@),
            header_value(h, "x-forwarded-for"@),
            upstream_authority,
            client_ip,
        ),
    )
}

/// What a forwarded request carries: `Host` is the upstream's authority (absent without
/// one); `X-Forwarded-For` is the client's list (unless its `Connection` header named it)
/// with the client address appended; `X-Forwarded-Host` is the client's `Host`, when it sent
/// one; `X-Forwarded-Proto` is `http`; and every other header is the client's, except the
/// hop-by-hop ones, those its `Connection` header names and `Host` (in any case), which are
/// gone.
pub proof fn lemma_forwarded_headers(
    h: Map<Seq<char>, Seq<char>>,
    upstream_authority: Option<Seq<char>>,
    client_ip: Seq<char>,
)
    ensures
        ({
            let out = forwarded_headers(h, upstream_authority, client_ip);
            let strip = headers_to_strip_spec(header_value(h, "connection"@));
            &&& header_value(out, "host"@) == upstream_authority
            &&& header_value(out, "x-forwarded-for"@) == Some(
                forwarded_for_spec(
                    if strips_forwarded_for(strip) {
                        None
                    } else {
                        header_value(h, "x-forwarded-for"@)
                    },
                    client_ip,
                ),
            )
            &&& h.contains_key("host"@) ==> header_value(out, "x-forwarded-host"@) == Some(h["host"@])
            &&& header_value(out, "x-forwarded-proto"@) == Some("http"@)
            &&& forall|k: Seq<char>|
                k != "host"@ && k != "x-forwarded-for"@ && k != "x-forwarded-host"@ && k
                    != "x-forwarded-proto"@ ==> #[trigger] header_value(out, k) == (if h.contains_key(k)
                    && !names_header(strip.push("host"@), k) {
                    Some(h[k])
                } else {
                    None
                })
        }),
{
    let conn = header_value(h, "connection"@);
    let strip = headers_to_strip_spec(conn);
    let set = forward_set_spec(
        conn,
        header_value(h, "host"@),
        header_value(h, "x-forwarded-for"@),
        upstream_authority,
        client_ip,
    );
    let xff = ("x-forwarded-for"@, forwarded_for_spec(
        if strips_forwarded_for(strip) {
            None
        } else {
            header_value(h, "x-forwarded-for"@)
        },
        client_ip,
    ));
    let proto = ("x-forwarded-proto"@, "http"@);
    reveal_with_fuel(set_headers, 5);
    match (upstream_authority, header_value(h, "host"@)) {
        (Some(a), Some(c)) => {
            assert(set =~= seq![("host"@, a), xff, ("x-forwarded-host"@, c), proto]);
            assert(set.drop_first() =~= seq![xff, ("x-forwarded-host"@, c), proto]);
            assert(set.drop_first().drop_first() =~= seq![("x-forwarded-host"@, c), proto]);
            assert(set.drop_first().drop_first().drop_first() =~= seq![proto]);
            assert(set.drop_first().drop_first().drop_first().drop_first() =~= Seq::<(Seq<char>, Seq<char>)>::empty());
        },
        (Some(a), None) => {
            assert(set =~= seq![("host"@, a), xff, proto]);
            assert(set.drop_first() =~= seq![xff, proto]);
            assert(set.drop_first().drop_first() =~= seq![proto]);
            assert(set.drop_first().drop_first().drop_first() =~= Seq::<(Seq<char>, Seq<char>)>::empty());
        },
        (None, Some(c)) => {
            assert(set =~= seq![xff, ("x-forwarded-host"@, c), proto]);
            assert(set.drop_first() =~= seq![("x-forwarded-host"@, c), proto]);
            assert(set.drop_first().drop_first() =~= seq![proto]);
            assert(set.drop_first().drop_first().drop_first() =~= Seq::<(Seq<char>, Seq<char>)>::empty());
        },
        (None, None) => {
            assert(set =~= seq![xff, proto]);
            assert(set.drop_first() =~= seq![proto]);
            assert(set.drop_first().drop_first() =~= Seq::<(Seq<char>, Seq<char>)>::empty());
        },
    }
    assert(names_header(strip.push("host"@), "host"@)) by {
        assert(eq_ignore_ascii_case_spec(strip.push("host"@)[strip.len() as int], "host"@));
    }
    assert(names_header(strip.push("host"@), "host"@)) by {
        assert(eq_ignore_ascii_case_spec(strip.push("host"@)[strip.len() as int], "host"@));
    }
    reveal_strlit("host");
    reveal_strlit("x-forwarded-for");
    reveal_strlit("x-forwarded-host");
    reveal_strlit("x-forwarded-proto");
    assert("x-forwarded-host"@.len() != "x-forwarded-proto"@.len());
    assert("x-forwarded-for"@.len() != "x-forwarded-proto"@.len());
    assert("x-forwarded-for"@.len() != "x-forwarded-host"@.len());
    assert("host"@.len() != "x-forwarded-host"@.len());
    let out = forwarded_headers(h, upstream_authority, client_ip);
    assert(header_value(out, "host"@) == upstream_authority);
    assert(header_value(out, "x-forwarded-for"@) == Some(xff.1));
    assert(h.contains_key("host"@) ==> header_value(out, "x-forwarded-host"@) == Some(h["host"@]));
    assert(header_value(out, "x-forwarded-proto"@) == Some("http"@));
}

} // verus!
