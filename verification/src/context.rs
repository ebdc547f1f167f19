use vstd::prelude::*;

use crate::text::{chars_of, pieces_of, split_bounds, split_on, string_from_chars, trim, trim_bounds, trim_str};

verus! {

/// The facts about a request that the policy stages look at.
#[derive(Debug)]
pub struct RequestContext {
    pub ip: String,
    pub method: String,
    pub path: String,
    pub user_agent: Option<String>,
}

/// The mathematical content of a [`RequestContext`].
pub struct ContextView {
    pub ip: Seq<char>,
    pub method: Seq<char>,
    pub path: Seq<char>,
    pub user_agent: Option<Seq<char>>,
}

impl View for RequestContext {
    type V = ContextView;

    open spec fn view(&self) -> ContextView {
        ContextView {
            ip: self.ip@,
            method: self.method@,
            path: self.path@,
            user_agent: crate::policy::rules::opt_text(self.user_agent),
        }
    }
}

/// The client address of a request. Only when proxy headers are trusted does `X-Real-IP`
/// (trimmed) count, and failing that the first entry of `X-Forwarded-For` (trimmed);
/// otherwise it is the TCP peer's address, or `unknown` when there is none.
pub open spec fn client_ip(
    real_ip: Option<Seq<char>>,
    forwarded_for: Option<Seq<char>>,
    peer_ip: Option<Seq<char>>,
    trust_proxy_headers: bool,
) -> Seq<char> {
    if trust_proxy_headers && real_ip is Some {
        trim(real_ip->0)
    } else if trust_proxy_headers && forwarded_for is Some {
        trim(split_on(forwarded_for->0, ',')[0])
    } else if peer_ip is Some {
        peer_ip->0
    } else {
        "unknown"@
    }
}

/// The view of an optional string slice.
pub open spec fn opt_str(o: Option<&str>) -> Option<Seq<char>> {
    match o {
        Some(s) => Some(s@),
        None => None,
    }
}

/// The first entry of an `X-Forwarded-For` list, trimmed.
pub fn first_forwarded(list: &str) -> (r: String)
    ensures
        r@ == trim(split_on(list@, ',')[0]),
{
    let v = chars_of(list);
    let bounds = split_bounds(&v, ',');
    proof {
        crate::text::lemma_split_on_nonempty(v@, ',');
    }
    let (lo, hi) = bounds[0];
    assert(pieces_of(v@, bounds@)[0] == v@.subrange(lo as int, hi as int));
    assert(bounds@[0].0 <= bounds@[0].1);
    let (a, b) = trim_bounds(&v, lo, hi);
    string_from_chars(&v.as_slice()[a..b])
}

/// The client address of a request, from its headers and its TCP peer.
pub fn extract_ip(
    real_ip: Option<&str>,
    forwarded_for: Option<&str>,
    peer_ip: Option<&str>,
    trust_proxy_headers: bool,
) -> (r: String)
    ensures
        r@ == client_ip(opt_str(real_ip), opt_str(forwarded_for), opt_str(peer_ip), trust_proxy_headers),
{
    if trust_proxy_headers {
        if let Some(v) = real_ip {
            return trim_str(v);
        }
        if let Some(v) = forwarded_for {
            return first_forwarded(v);
        }
    }
    match peer_ip {
        Some(p) => p.to_owned(),
        None => "unknown".to_owned(),
    }
}

impl RequestContext {
    /// The context of a request with this method, path, user agent, address headers and
    /// TCP peer address.
    pub fn from_parts(
        method: &str,
        path: &str,
        user_agent: Option<&str>,
        real_ip: Option<&str>,
        forwarded_for: Option<&str>,
        peer_ip: Option<&str>,
        trust_proxy_headers: bool,
    ) -> (c: RequestContext)
        ensures
            c@.ip == client_ip(opt_str(real_ip), opt_str(forwarded_for), opt_str(peer_ip), trust_proxy_headers),
            c@.method == method@,
            c@.path == path@,
            c@.user_agent == opt_str(user_agent),
    {
        RequestContext {
            ip: extract_ip(real_ip, forwarded_for, peer_ip, trust_proxy_headers),
            method: method.to_owned(),
            path: path.to_owned(),
            user_agent: match user_agent {
                Some(u) => Some(u.to_owned()),
                None => None,
            },
        }
    }
}

/// Unless proxy headers are trusted, the client address is the TCP peer's, whatever the
/// request's headers say.
pub proof fn lemma_untrusted_headers_ignored(
    real_ip: Option<Seq<char>>,
    forwarded_for: Option<Seq<char>>,
    peer: Seq<char>,
)
    ensures
        client_ip(real_ip, forwarded_for, Some(peer), false) == peer,
{
}

} // verus!
