use vstd::hash_set::StringHashSet;
use vstd::prelude::*;

use crate::text::{chars_of, seq_contains, split_bounds, split_on, str_contains, str_eq, string_from_chars, trim, trim_bounds, pieces_of};

verus! {

broadcast use vstd::string::group_string_axioms;

/// The IP addresses and user agents that the threat feeds currently block.
pub struct ThreatData {
    blocked_ips: StringHashSet,
    blocked_user_agents: StringHashSet,
    agent_list: Vec<String>,
}

/// The mathematical content of a [`ThreatData`].
pub struct ThreatView {
    pub blocked_ips: Set<Seq<char>>,
    pub blocked_user_agents: Set<Seq<char>>,
}

impl View for ThreatData {
    type V = ThreatView;

    closed spec fn view(&self) -> ThreatView {
        ThreatView {
            blocked_ips: self.blocked_ips@,
            blocked_user_agents: self.blocked_user_agents@,
        }
    }
}

/// The texts of a list of strings.
pub open spec fn list_texts(v: Seq<String>) -> Seq<Seq<char>> {
    v.map_values(|s: String| s@)
}

/// A user agent is blocked when one of the blocked patterns occurs in it.
pub open spec fn ua_blocked(agents: Set<Seq<char>>, ua: Seq<char>) -> bool {
    exists|b: Seq<char>| agents.contains(b) && seq_contains(ua, b)
}

/// How a feed's entries changed the threat data.
#[derive(Debug, Clone, Copy, PartialEq, Eq, Structural)]
pub enum FeedUpdate {
    /// The feed's list replaced the blocked IP addresses.
    Ips,
    /// The feed's list replaced the blocked user agents.
    UserAgents,
    /// The feed type is neither `ip` nor `user_agent`; nothing changed.
    UnknownType,
}

impl ThreatData {
    /// The data is well formed: the agent list holds each blocked user agent exactly once.
    pub closed spec fn wf(&self) -> bool {
        &&& list_texts(self.agent_list@).no_duplicates()
        &&& list_texts(self.agent_list@).to_set() == self.blocked_user_agents@
        &&& self.blocked_ips@.finite()
    }

    /// Threat data that blocks nothing.
    pub fn new() -> (t: Self)
        ensures
            t.wf(),
            t@.blocked_ips == Set::<Seq<char>>::empty(),
            t@.blocked_user_agents == Set::<Seq<char>>::empty(),
    {
        let t = ThreatData {
            blocked_ips: StringHashSet::new(),
            blocked_user_agents: StringHashSet::new(),
            agent_list: Vec::new(),
        };
        assert(list_texts(t.agent_list@) =~= Seq::<Seq<char>>::empty());
        assert(list_texts(t.agent_list@).to_set() =~= Set::<Seq<char>>::empty());
        t
    }

    /// Whether the feeds block requests from `ip`.
    pub fn is_ip_blocked(&self, ip: &str) -> (r: bool)
        ensures
            r == self@.blocked_ips.contains(ip@),
    {
        self.blocked_ips.contains(ip)
    }

    /// Whether one of the blocked user-agent patterns occurs in `ua`.
    pub fn is_ua_blocked(&self, ua: &str) -> (r: bool)
        requires
            self.wf(),
        ensures
            r == ua_blocked(self@.blocked_user_agents, ua@),
    {
        let ghost t = list_texts(self.agent_list@);
        for i in 0..self.agent_list.len()
            invariant
                t == list_texts(self.agent_list@),
                t.to_set() == self.blocked_user_agents@,
                forall|j: int| 0 <= j < i ==> !seq_contains(ua@, #[trigger] t[j]),
        {
            if str_contains(ua, self.agent_list[i].as_str()) {
                assert(t.to_set().contains(t[i as int]));
                return true;
            }
        }
        proof {
            assert forall|b: Seq<char>| self.blocked_user_agents@.contains(b) implies !seq_contains(ua@, b) by {
                assert(t.to_set().contains(b));
                let j = choose|j: int| 0 <= j < t.len() && #[trigger] t[j] == b;
            }
        }
        false
    }

    /// The number of blocked IP addresses.
    pub fn ip_count(&self) -> (n: usize)
        ensures
            n == self@.blocked_ips.len(),
    {
        self.blocked_ips.len()
    }

    /// The number of blocked user-agent patterns.
    pub fn user_agent_count(&self) -> (n: usize)
        ensures
            n == self@.blocked_user_agents.len(),
    {
        self.blocked_user_agents.len()
    }

    /// Unblocks every IP address and user agent.
    pub fn clear(&mut self)
        ensures
            final(self).wf(),
            final(self)@.blocked_ips == Set::<Seq<char>>::empty(),
            final(self)@.blocked_user_agents == Set::<Seq<char>>::empty(),
    {
        *self = ThreatData::new();
    }

    /// Replaces the blocked IP addresses with `entries`.
    pub fn replace_ips(&mut self, entries: &Vec<String>)
        requires
            old(self).wf(),
        ensures
            final(self).wf(),
            final(self)@.blocked_ips == list_texts(entries@).to_set(),
            final(self)@.blocked_user_agents == old(self)@.blocked_user_agents,
    {
        self.blocked_ips.clear();
        let ghost t = list_texts(entries@);
        for i in 0..entries.len()
            invariant
                t == list_texts(entries@),
                self.blocked_ips@ == t.take(i as int).to_set(),
                self.blocked_user_agents@ == old(self)@.blocked_user_agents,
                list_texts(self.agent_list@) == list_texts(old(self).agent_list@),
        {
            assert(t.take(i + 1) =~= t.take(i as int).push(t[i as int]));
            self.blocked_ips.insert(entries[i].clone());
            assert(self.blocked_ips@ =~= t.take(i + 1).to_set()) by {
                assert forall|k: Seq<char>| #[trigger] t.take(i + 1).to_set().contains(k) <==> (t.take(i as int).to_set().contains(k) || k == t[i as int]) by {
                    if t.take(i + 1).contains(k) {
                        let j = choose|j: int| 0 <= j < i + 1 && #[trigger] t.take(i + 1)[j] == k;
                        if j < i {
                            assert(t.take(i as int)[j] == k);
                        }
                    }
                    if t.take(i as int).contains(k) {
                        let j = choose|j: int| 0 <= j < i && #[trigger] t.take(i as int)[j] == k;
                        assert(t.take(i + 1)[j] == k);
                    }
                    if k == t[i as int] {
                        assert(t.take(i + 1)[i as int] == k);
                    }
                }
            }
        }
        assert(t.take(entries@.len() as int) =~= t);
        proof {
            vstd::seq_lib::seq_to_set_is_finite(t);
        }
    }

    /// Replaces the blocked user-agent patterns with `entries`.
    pub fn replace_user_agents(&mut self, entries: &Vec<String>)
        requires
            old(self).wf(),
        ensures
            final(self).wf(),
            final(self)@.blocked_user_agents == list_texts(entries@).to_set(),
            final(self)@.blocked_ips == old(self)@.blocked_ips,
    {
        self.blocked_user_agents.clear();
        self.agent_list = Vec::new();
        let ghost t = list_texts(entries@);
        assert(list_texts(self.agent_list@) =~= Seq::<Seq<char>>::empty());
        assert(list_texts(self.agent_list@).to_set() =~= Set::<Seq<char>>::empty());
        for i in 0..entries.len()
            invariant
                t == list_texts(entries@),
                self.blocked_user_agents@ == t.take(i as int).to_set(),
                list_texts(self.agent_list@).no_duplicates(),
                list_texts(self.agent_list@).to_set() == self.blocked_user_agents@,
                self.blocked_ips@ == old(self)@.blocked_ips,
                self.blocked_ips@.finite(),
        {
            assert(t.take(i + 1) =~= t.take(i as int).push(t[i as int]));
            let ghost before = list_texts(self.agent_list@);
            let fresh = self.blocked_user_agents.insert(entries[i].clone());
            if fresh {
                self.agent_list.push(entries[i].clone());
                assert(list_texts(self.agent_list@) =~= before.push(t[i as int]));
                assert(!before.contains(t[i as int])) by {
                    if before.contains(t[i as int]) {
                        assert(before.to_set().contains(t[i as int]));
                    }
                }
                assert(list_texts(self.agent_list@).no_duplicates()) by {
                    let a = list_texts(self.agent_list@);
                    assert forall|x: int, y: int| 0 <= x < a.len() && 0 <= y < a.len() && x != y implies a[x] != a[y] by {
                        if x < before.len() && y < before.len() {
                        } else if x < before.len() {
                            assert(before.contains(before[x]));
                        } else if y < before.len() {
                            assert(before.contains(before[y]));
                        }
                    }
                }
                assert forall|k: Seq<char>| #[trigger] list_texts(self.agent_list@).to_set().contains(k) <==> (before.to_set().contains(k) || k == t[i as int]) by {
                    let a = list_texts(self.agent_list@);
                    if a.contains(k) {
                        let j = choose|j: int| 0 <= j < a.len() && #[trigger] a[j] == k;
                        if j < before.len() {
                            assert(before[j] == k);
                        }
                    }
                    if before.contains(k) {
                        let j = choose|j: int| 0 <= j < before.len() && #[trigger] before[j] == k;
                        assert(a[j] == k);
                    }
                    if k == t[i as int] {
                        assert(a[before.len() as int] == k);
                    }
                }
            } else {
                assert(list_texts(self.agent_list@) == before);
            }
            assert(self.blocked_user_agents@ =~= t.take(i + 1).to_set()) by {
                assert forall|k: Seq<char>| #[trigger] t.take(i + 1).to_set().contains(k) <==> (t.take(i as int).to_set().contains(k) || k == t[i as int]) by {
                    if t.take(i + 1).contains(k) {
                        let j = choose|j: int| 0 <= j < i + 1 && #[trigger] t.take(i + 1)[j] == k;
                        if j < i {
                            assert(t.take(i as int)[j] == k);
                        }
                    }
                    if t.take(i as int).contains(k) {
                        let j = choose|j: int| 0 <= j < i && #[trigger] t.take(i as int)[j] == k;
                        assert(t.take(i + 1)[j] == k);
                    }
                    if k == t[i as int] {
                        assert(t.take(i + 1)[i as int] == k);
                    }
                }
            }
            assert(list_texts(self.agent_list@).to_set() =~= self.blocked_user_agents@);
        }
        assert(t.take(entries@.len() as int) =~= t);
    }
}

/// What a feed refresh does with the entries it fetched: a feed of type `ip` replaces the
/// blocked IP addresses, one of type `user_agent` the blocked user agents; any other type
/// changes nothing.
pub fn apply_feed(data: &mut ThreatData, feed_type: &str, entries: &Vec<String>) -> (u: FeedUpdate)
    requires
        old(data).wf(),
    ensures
        final(data).wf(),
        feed_type@ == "ip"@ ==> u == FeedUpdate::Ips && final(data)@.blocked_ips == list_texts(entries@).to_set()
            && final(data)@.blocked_user_agents == old(data)@.blocked_user_agents,
        feed_type@ == "user_agent"@ ==> u == FeedUpdate::UserAgents && final(data)@.blocked_user_agents
            == list_texts(entries@).to_set() && final(data)@.blocked_ips == old(data)@.blocked_ips,
        feed_type@ != "ip"@ && feed_type@ != "user_agent"@ ==> u == FeedUpdate::UnknownType
            && final(data)@ == old(data)@,
{
    proof {
        reveal_strlit("ip");
        reveal_strlit("user_agent");
        assert("ip"@.len() != "user_agent"@.len());
    }
    if str_eq(feed_type, "ip") {
        data.replace_ips(entries);
        FeedUpdate::Ips
    } else if str_eq(feed_type, "user_agent") {
        data.replace_user_agents(entries);
        FeedUpdate::UserAgents
    } else {
        FeedUpdate::UnknownType
    }
}

/// A line of a feed is an entry when, trimmed, it is not empty and is not a `#` comment.
pub open spec fn is_entry(t: Seq<char>) -> bool {
    t.len() > 0 && t[0] != '#'
}

/// The entries of a list of lines: each trimmed, keeping those that are entries.
pub open spec fn entries_of(lines: Seq<Seq<char>>) -> Seq<Seq<char>>
    decreases lines.len(),
{
    if lines.len() == 0 {
        seq![]
    } else {
        let rest = entries_of(lines.drop_last());
        let t = trim(lines.last());
        if is_entry(t) {
            rest.push(t)
        } else {
            rest
        }
    }
}

/// The entries of a feed body: its lines, trimmed, without blank lines and `#` comments.
/// (Splitting at `\n` gives the same entries as `str::lines`, since a trailing `\r` and a
/// final empty line vanish in the trimming and the filtering.)
pub open spec fn feed_entries(body: Seq<char>) -> Seq<Seq<char>> {
    entries_of(split_on(body, '\n'))
}

/// The entries of a fetched feed body.
pub fn parse_feed(body: &str) -> (r: Vec<String>)
    ensures
        list_texts(r@) == feed_entries(body@),
{
    let v = chars_of(body);
    let bounds = split_bounds(&v, '\n');
    let ghost lines = pieces_of(v@, bounds@);
    let mut out: Vec<String> = Vec::new();
    assert(list_texts(out@) =~= Seq::<Seq<char>>::empty());
    for i in 0..bounds.len()
        invariant
            lines == pieces_of(v@, bounds@),
            crate::text::bounds_within(bounds@, v@.len() as int),
            list_texts(out@) == entries_of(lines.take(i as int)),
    {
        assert(lines.take(i + 1).drop_last() =~= lines.take(i as int));
        let (lo, hi) = bounds[i];
        assert(lo <= hi <= v@.len()) by {
            assert(bounds@[i as int].0 <= bounds@[i as int].1);
        }
        let (a, b) = trim_bounds(&v, lo, hi);
        assert(lines[i as int] == v@.subrange(lo as int, hi as int));
        if a < b && v[a] != '#' {
            let ghost before = list_texts(out@);
            out.push(string_from_chars(&v.as_slice()[a..b]));
            assert(list_texts(out@) =~= before.push(v@.subrange(a as int, b as int)));
        }
    }
    assert(lines.take(bounds@.len() as int) =~= lines);
    out
}

} // verus!
