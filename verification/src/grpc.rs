use vstd::prelude::*;

use crate::auth::users::constant_time_eq;
use crate::policy::rules::{clone_strings, rules_view, texts, Rule, RuleView};

verus! {

broadcast use vstd::string::group_string_axioms;

/// A rule as the rule-sync protocol carries it: an absent matcher is an empty string or an
/// empty list.
#[derive(Debug)]
pub struct RuleMessage {
    pub name: String,
    pub path_contains: String,
    pub method: String,
    pub user_agent_contains: Vec<String>,
    pub action: String,
    pub priority: u32,
}

/// The mathematical content of a [`RuleMessage`].
pub struct MessageView {
    pub name: Seq<char>,
    pub path_contains: Seq<char>,
    pub method: Seq<char>,
    pub user_agent_contains: Seq<Seq<char>>,
    pub action: Seq<char>,
    pub priority: u32,
}

impl View for RuleMessage {
    type V = MessageView;

    open spec fn view(&self) -> MessageView {
        MessageView {
            name: self.name@,
            path_contains: self.path_contains@,
            method: self.method@,
            user_agent_contains: texts(self.user_agent_contains@),
            action: self.action@,
            priority: self.priority,
        }
    }
}

/// A rule as sent to nodes: absent matchers become empty.
pub open spec fn to_message_spec(r: RuleView) -> MessageView {
    MessageView {
        name: r.name,
        path_contains: match r.path_contains {
            Some(p) => p,
            None => seq![],
        },
        method: match r.method {
            Some(m) => m,
            None => seq![],
        },
        user_agent_contains: match r.user_agent_contains {
            Some(a) => a,
            None => seq![],
        },
        action: r.action,
        priority: r.priority,
    }
}

/// A rule as a node reads it: empty matchers are absent.
pub open spec fn from_message_spec(m: MessageView) -> RuleView {
    RuleView {
        name: m.name,
        path_contains: if m.path_contains.len() == 0 { None } else { Some(m.path_contains) },
        method: if m.method.len() == 0 { None } else { Some(m.method) },
        user_agent_contains: if m.user_agent_contains.len() == 0 {
            None
        } else {
            Some(m.user_agent_contains)
        },
        action: m.action,
        priority: m.priority,
    }
}

/// A rule in the form the rule-sync protocol carries it.
pub fn rule_to_message(r: &Rule) -> (m: RuleMessage)
    ensures
        m@ == to_message_spec(r@),
{
    RuleMessage {
        name: r.name.clone(),
        path_contains: match &r.path_contains {
            Some(p) => p.clone(),
            None => String::new(),
        },
        method: match &r.method {
            Some(p) => p.clone(),
            None => String::new(),
        },
        user_agent_contains: match &r.user_agent_contains {
            Some(a) => clone_strings(a),
            None => {
                let v: Vec<String> = Vec::new();
                assert(texts(v@) =~= Seq::<Seq<char>>::empty());
                v
            },
        },
        action: r.action.clone(),
        priority: r.priority,
    }
}

/// The rule that a rule-sync message carries.
pub fn rule_from_message(m: RuleMessage) -> (r: Rule)
    ensures
        r@ == from_message_spec(m@),
{
    let path_contains = if m.path_contains.as_str().is_empty() {
        None
    } else {
        Some(m.path_contains)
    };
    let method = if m.method.as_str().is_empty() {
        None
    } else {
        Some(m.method)
    };
    let user_agent_contains = if m.user_agent_contains.len() == 0 {
        None
    } else {
        Some(m.user_agent_contains)
    };
    Rule { name: m.name, path_contains, method, user_agent_contains, action: m.action, priority: m.priority }
}

/// A rule survives the trip to a node unchanged unless it sets a matcher to an empty value,
/// which the protocol cannot tell from an absent one.
pub proof fn lemma_rule_message_round_trip(r: RuleView)
    requires
        r.path_contains matches Some(p) ==> p.len() > 0,
        r.method matches Some(m) ==> m.len() > 0,
        r.user_agent_contains matches Some(a) ==> a.len() > 0,
    ensures
        from_message_spec(to_message_spec(r)) == r,
{
}

/// The answer to a node's request for rules.
#[derive(Debug)]
pub struct SyncReply {
    pub version: u64,
    pub rules: Vec<RuleMessage>,
    pub changed: bool,
}

/// The rules that the central server hands out, and their version.
pub struct PolicySyncService {
    rules: Vec<Rule>,
    version: u64,
}

/// The views of a list of rule messages.
pub open spec fn message_views(v: Seq<RuleMessage>) -> Seq<MessageView> {
    v.map_values(|m: RuleMessage| m@)
}

impl PolicySyncService {
    /// The rules handed out.
    pub closed spec fn rules(&self) -> Seq<RuleView> {
        rules_view(self.rules@)
    }

    /// The version of the rules handed out.
    pub closed spec fn version(&self) -> u64 {
        self.version
    }

    /// A server handing out `rules` as version 1.
    pub fn new(rules: Vec<Rule>) -> (s: Self)
        ensures
            s.rules() == rules_view(rules@),
            s.version() == 1,
    {
        PolicySyncService { rules, version: 1 }
    }

    /// The answer to a node that has version `last_version`: nothing new when it is up to
    /// date, otherwise every rule and the current version.
    pub fn sync_reply(&self, last_version: u64) -> (r: SyncReply)
        ensures
            r.version == self.version(),
            r.changed == (last_version < self.version()),
            r.changed ==> message_views(r.rules@) == self.rules().map_values(
                |x: RuleView| to_message_spec(x),
            ),
            !r.changed ==> r.rules@.len() == 0,
    {
        if last_version >= self.version {
            return SyncReply { version: self.version, rules: Vec::new(), changed: false };
        }
        let ghost target = self.rules().map_values(|x: RuleView| to_message_spec(x));
        let mut out: Vec<RuleMessage> = Vec::new();
        for i in 0..self.rules.len()
            invariant
                target == self.rules().map_values(|x: RuleView| to_message_spec(x)),
                self.rules() == rules_view(self.rules@),
                out@.len() == i,
                forall|k: int| 0 <= k < i ==> #[trigger] out@[k]@ == target[k],
        {
            out.push(rule_to_message(&self.rules[i]));
        }
        assert(message_views(out@) =~= target);
        SyncReply { version: self.version, rules: out, changed: true }
    }
}

/// The views of a list of rules, read from messages.
pub open spec fn rules_from_messages(v: Seq<MessageView>) -> Seq<RuleView> {
    v.map_values(|m: MessageView| from_message_spec(m))
}

/// What a node takes from a reply: nothing when unchanged, otherwise the rules it carries
/// and the version to ask from next time.
pub fn apply_sync_reply(reply: SyncReply) -> (r: Option<(Vec<Rule>, u64)>)
    ensures
        !reply.changed ==> r is None,
        reply.changed ==> (r matches Some((rules, v)) && v == reply.version && rules_view(rules@)
            == rules_from_messages(message_views(reply.rules@))),
{
    if !reply.changed {
        return None;
    }
    let ghost target = rules_from_messages(message_views(reply.rules@));
    let mut msgs = reply.rules;
    let mut rules: Vec<Rule> = Vec::new();
    let n = msgs.len();
    let ghost all = message_views(msgs@);
    let mut taken: Vec<RuleMessage> = Vec::new();
    while msgs.len() > 0
        invariant
            all == message_views(reply.rules@),
            target == rules_from_messages(all),
            all.len() == msgs@.len() + rules@.len(),
            forall|k: int| 0 <= k < msgs@.len() ==> #[trigger] msgs@[k]@ == all[all.len() - msgs@.len() + k],
            forall|k: int| 0 <= k < rules@.len() ==> #[trigger] rules@[k]@ == target[k],
        decreases msgs@.len(),
    {
        let m = msgs.remove(0);
        assert(m@ == all[rules@.len() as int]);
        rules.push(rule_from_message(m));
    }
    assert(rules_view(rules@) =~= target);
    Some((rules, reply.version))
}

/// A rule sets no matcher to an empty value.
pub open spec fn no_empty_matcher(r: RuleView) -> bool {
    &&& (r.path_contains matches Some(p) ==> p.len() > 0)
    &&& (r.method matches Some(m) ==> m.len() > 0)
    &&& (r.user_agent_contains matches Some(a) ==> a.len() > 0)
}

/// A node that applies the reply to a full sync holds exactly the central server's rules,
/// as long as no rule sets a matcher to an empty value.
pub proof fn lemma_synced_rules_match(rules: Seq<RuleView>)
    requires
        forall|i: int| 0 <= i < rules.len() ==> no_empty_matcher(#[trigger] rules[i]),
    ensures
        rules_from_messages(rules.map_values(|x: RuleView| to_message_spec(x))) == rules,
{
    assert forall|i: int| 0 <= i < rules.len() implies #[trigger] from_message_spec(
        to_message_spec(rules[i]),
    ) == rules[i] by {
        lemma_rule_message_round_trip(rules[i]);
    }
    assert(rules_from_messages(rules.map_values(|x: RuleView| to_message_spec(x))) =~= rules);
}

/// What a node's rule-sync loop does next.
#[derive(Debug, Clone, Copy, PartialEq, Eq, Structural)]
pub enum SyncAction {
    /// Connect to the central server.
    Connect,
    /// Ask for rules newer than the given version.
    PullRules { last_version: u64 },
    /// Send a heartbeat.
    Heartbeat,
    /// Send the metrics report.
    ReportMetrics,
    /// Wait for the next tick of the sync interval.
    WaitForTick,
}

/// What happened since the loop's last action.
#[derive(Debug, Clone, Copy, PartialEq, Eq, Structural)]
pub enum SyncEvent {
    /// The sync interval ticked.
    Tick,
    ConnectOk,
    ConnectFailed,
    /// The server had nothing newer.
    RulesUnchanged,
    /// The server sent rules of this version, now in force.
    RulesUpdated { version: u64 },
    SyncFailed,
    HeartbeatOk,
    HeartbeatFailed,
    ReportOk,
    ReportFailed,
}

/// The state of a node's rule-sync loop: whether it holds a connection, and the version of
/// the rules it has.
#[derive(Debug, Clone, Copy, PartialEq, Eq, Structural)]
pub struct NodeSync {
    pub connected: bool,
    pub last_version: u64,
}

/// One step of the sync loop: on each tick a node connects when it has no connection, then
/// pulls rules, sends a heartbeat and reports metrics, in that order. Any failure drops the
/// connection and waits for the next tick, so the next tick reconnects. The rule version
/// changes only when new rules arrive.
pub open spec fn sync_step_spec(s: NodeSync, e: SyncEvent) -> (NodeSync, SyncAction) {
    match e {
        SyncEvent::Tick => if s.connected {
            (s, SyncAction::PullRules { last_version: s.last_version })
        } else {
            (s, SyncAction::Connect)
        },
        SyncEvent::ConnectOk => (
            NodeSync { connected: true, ..s },
            SyncAction::PullRules { last_version: s.last_version },
        ),
        SyncEvent::RulesUnchanged => (s, SyncAction::Heartbeat),
        SyncEvent::RulesUpdated { version } => (
            NodeSync { last_version: version, ..s },
            SyncAction::Heartbeat,
        ),
        SyncEvent::HeartbeatOk => (s, SyncAction::ReportMetrics),
        SyncEvent::ReportOk => (s, SyncAction::WaitForTick),
        SyncEvent::ConnectFailed | SyncEvent::SyncFailed | SyncEvent::HeartbeatFailed
        | SyncEvent::ReportFailed => (NodeSync { connected: false, ..s }, SyncAction::WaitForTick),
    }
}

impl NodeSync {
    /// A node that has no connection and no rules from the server yet.
    pub fn new() -> (s: Self)
        ensures
            !s.connected,
            s.last_version == 0,
    {
        NodeSync { connected: false, last_version: 0 }
    }

    /// Takes in what happened and gives the next action.
    pub fn step(&mut self, e: SyncEvent) -> (a: SyncAction)
        ensures
            (*final(self), a) == sync_step_spec(*old(self), e),
    {
        match e {
            SyncEvent::Tick => {
                if self.connected {
                    SyncAction::PullRules { last_version: self.last_version }
                } else {
                    SyncAction::Connect
                }
            },
            SyncEvent::ConnectOk => {
                self.connected = true;
                SyncAction::PullRules { last_version: self.last_version }
            },
            SyncEvent::RulesUnchanged => SyncAction::Heartbeat,
            SyncEvent::RulesUpdated { version } => {
                self.last_version = version;
                SyncAction::Heartbeat
            },
            SyncEvent::HeartbeatOk => SyncAction::ReportMetrics,
            SyncEvent::ReportOk => SyncAction::WaitForTick,
            SyncEvent::ConnectFailed | SyncEvent::SyncFailed | SyncEvent::HeartbeatFailed
            | SyncEvent::ReportFailed => {
                self.connected = false;
                SyncAction::WaitForTick
            },
        }
    }
}

/// A failure always leads to a reconnect on the next tick, and the version a node asks from
/// is the last one it received.
pub proof fn lemma_sync_recovers(s: NodeSync, failure: SyncEvent, version: u64)
    requires
        failure == SyncEvent::ConnectFailed || failure == SyncEvent::SyncFailed || failure
            == SyncEvent::HeartbeatFailed || failure == SyncEvent::ReportFailed,
    ensures
        sync_step_spec(sync_step_spec(s, failure).0, SyncEvent::Tick).1 == SyncAction::Connect,
        sync_step_spec(sync_step_spec(s, failure).0, SyncEvent::Tick).0.last_version == s.last_version,
        sync_step_spec(
            sync_step_spec(sync_step_spec(s, SyncEvent::RulesUpdated { version }).0, SyncEvent::HeartbeatOk).0,
            SyncEvent::ReportOk,
        ).0.last_version == version,
{
}

/// A successful round of the sync loop, from any state: a tick connects when the node has no
/// connection and otherwise pulls rules from its last version; after the pull, whether the
/// server had nothing newer or sent new rules, the node sends its heartbeat, then its
/// metrics report, then waits for the next tick. The node ends connected, holding the
/// version it received, or its old one when the rules were unchanged.
pub proof fn lemma_sync_round(s: NodeSync, version: u64)
    ensures
        sync_step_spec(s, SyncEvent::Tick) == (s, if s.connected {
            SyncAction::PullRules { last_version: s.last_version }
        } else {
            SyncAction::Connect
        }),
        sync_step_spec(s, SyncEvent::ConnectOk) == (
            NodeSync { connected: true, last_version: s.last_version },
            SyncAction::PullRules { last_version: s.last_version },
        ),
        sync_step_spec(s, SyncEvent::RulesUnchanged) == (s, SyncAction::Heartbeat),
        sync_step_spec(s, SyncEvent::RulesUpdated { version }) == (
            NodeSync { connected: s.connected, last_version: version },
            SyncAction::Heartbeat,
        ),
        sync_step_spec(s, SyncEvent::HeartbeatOk) == (s, SyncAction::ReportMetrics),
        sync_step_spec(s, SyncEvent::ReportOk) == (s, SyncAction::WaitForTick),
        ({
            let c = sync_step_spec(s, SyncEvent::ConnectOk).0;
            let u = sync_step_spec(c, SyncEvent::RulesUnchanged);
            let h = sync_step_spec(u.0, SyncEvent::HeartbeatOk);
            let r = sync_step_spec(h.0, SyncEvent::ReportOk);
            &&& u.1 == SyncAction::Heartbeat
            &&& h.1 == SyncAction::ReportMetrics
            &&& r.1 == SyncAction::WaitForTick
            &&& r.0 == NodeSync { connected: true, last_version: s.last_version }
        }),
{
}

/// The fewest bytes a cluster token may have.
pub const MIN_CLUSTER_TOKEN_LEN: usize = 16;

/// What is wrong with the cluster token the central server is started with, if anything.
pub fn cluster_token_problem(token: &str) -> (r: Option<String>)
    ensures
        r is Some <==> token.len() < MIN_CLUSTER_TOKEN_LEN,
        r matches Some(m) ==> m@ == "GATEKEEPER_CLUSTER_TOKEN must be at least 16 characters"@,
{
    if token.len() < MIN_CLUSTER_TOKEN_LEN {
        Some("GATEKEEPER_CLUSTER_TOKEN must be at least 16 characters".to_owned())
    } else {
        None
    }
}

/// Whether a node's `x-cluster-token` (absent counts as empty) matches the expected token;
/// the comparison takes time that depends only on the lengths.
pub fn cluster_token_accepted(provided: Option<&str>, expected: &str) -> (r: bool)
    ensures
        r == (match provided {
            Some(p) => crate::auth::utf8(p@) == crate::auth::utf8(expected@),
            None => crate::auth::utf8(expected@).len() == 0,
        }),
{
    let p = match provided {
        Some(p) => p,
        None => "",
    };
    proof {
        reveal_strlit("");
    }
    constant_time_eq(p.as_bytes(), expected.as_bytes())
}

} // verus!
