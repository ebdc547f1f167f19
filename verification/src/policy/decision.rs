use vstd::prelude::*;

verus! {

/// Which stage of the request pipeline produced a decision.
#[derive(Debug, Clone, Copy, PartialEq, Eq, Structural)]
pub enum DecisionSource {
    Rule,
    RateLimit,
    Wasm,
    ThreatFeed,
}

/// What happens to a request, and why.
#[derive(Debug)]
pub enum Decision {
    Allow { reason: String, source: DecisionSource },
    Block { reason: String, source: DecisionSource },
    Throttle { reason: String, source: DecisionSource },
}

/// The mathematical content of a [`Decision`].
pub enum DecisionView {
    Allow { reason: Seq<char>, source: DecisionSource },
    Block { reason: Seq<char>, source: DecisionSource },
    Throttle { reason: Seq<char>, source: DecisionSource },
}

impl View for Decision {
    type V = DecisionView;

    open spec fn view(&self) -> DecisionView {
        match self {
            Decision::Allow { reason, source } => DecisionView::Allow {
                reason: reason@,
                source: *source,
            },
            Decision::Block { reason, source } => DecisionView::Block {
                reason: reason@,
                source: *source,
            },
            Decision::Throttle { reason, source } => DecisionView::Throttle {
                reason: reason@,
                source: *source,
            },
        }
    }
}

/// The view of an optional decision.
pub open spec fn opt_decision(d: Option<Decision>) -> Option<DecisionView> {
    match d {
        Some(d) => Some(d@),
        None => None,
    }
}

/// The text by which a decision source is shown in logs and metrics.
pub open spec fn source_label(s: DecisionSource) -> Seq<char> {
    match s {
        DecisionSource::Rule => "rule"@,
        DecisionSource::RateLimit => "rate_limit"@,
        DecisionSource::Wasm => "wasm"@,
        DecisionSource::ThreatFeed => "threat_feed"@,
    }
}

impl DecisionSource {
    /// The text by which this source is shown in logs and metrics.
    pub fn to_string(&self) -> (s: String)
        ensures
            s@ == source_label(*self),
    {
        match self {
            DecisionSource::Rule => "rule".to_owned(),
            DecisionSource::RateLimit => "rate_limit".to_owned(),
            DecisionSource::Wasm => "wasm".to_owned(),
            DecisionSource::ThreatFeed => "threat_feed".to_owned(),
        }
    }
}

/// The kind of a decision as shown in logs and metrics.
pub open spec fn kind_label(d: DecisionView) -> Seq<char> {
    match d {
        DecisionView::Allow { .. } => "allow"@,
        DecisionView::Block { .. } => "block"@,
        DecisionView::Throttle { .. } => "throttle"@,
    }
}

/// The source of a decision.
pub open spec fn source_of(d: DecisionView) -> DecisionSource {
    match d {
        DecisionView::Allow { source, .. } => source,
        DecisionView::Block { source, .. } => source,
        DecisionView::Throttle { source, .. } => source,
    }
}

/// The reason of a decision.
pub open spec fn reason_of(d: DecisionView) -> Seq<char> {
    match d {
        DecisionView::Allow { reason, .. } => reason,
        DecisionView::Block { reason, .. } => reason,
        DecisionView::Throttle { reason, .. } => reason,
    }
}

impl Decision {
    /// The kind of this decision: `allow`, `block` or `throttle`.
    pub fn kind(&self) -> (s: String)
        ensures
            s@ == kind_label(self@),
    {
        match self {
            Decision::Allow { .. } => "allow".to_owned(),
            Decision::Block { .. } => "block".to_owned(),
            Decision::Throttle { .. } => "throttle".to_owned(),
        }
    }

    /// The pipeline stage that produced this decision.
    pub fn source(&self) -> (s: DecisionSource)
        ensures
            s == source_of(self@),
    {
        match self {
            Decision::Allow { source, .. } => *source,
            Decision::Block { source, .. } => *source,
            Decision::Throttle { source, .. } => *source,
        }
    }

    /// The reason given for this decision.
    pub fn reason(&self) -> (s: String)
        ensures
            s@ == reason_of(self@),
    {
        match self {
            Decision::Allow { reason, .. } => reason.clone(),
            Decision::Block { reason, .. } => reason.clone(),
            Decision::Throttle { reason, .. } => reason.clone(),
        }
    }

    /// A copy of this decision.
    pub fn duplicate(&self) -> (d: Decision)
        ensures
            d@ == self@,
    {
        match self {
            Decision::Allow { reason, source } => Decision::Allow {
                reason: reason.clone(),
                source: *source,
            },
            Decision::Block { reason, source } => Decision::Block {
                reason: reason.clone(),
                source: *source,
            },
            Decision::Throttle { reason, source } => Decision::Throttle {
                reason: reason.clone(),
                source: *source,
            },
        }
    }
}

} // verus!
