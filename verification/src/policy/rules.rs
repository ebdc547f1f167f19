use vstd::prelude::*;

verus! {

/// A policy rule: which requests it matches, what it decides, and how it ranks.
#[derive(Debug)]
pub struct Rule {
    pub name: String,
    pub path_contains: Option<String>,
    pub method: Option<String>,
    pub user_agent_contains: Option<Vec<String>>,
    pub action: String,
    pub priority: u32,
}

/// The mathematical content of a [`Rule`].
pub struct RuleView {
    pub name: Seq<char>,
    pub path_contains: Option<Seq<char>>,
    pub method: Option<Seq<char>>,
    pub user_agent_contains: Option<Seq<Seq<char>>>,
    pub action: Seq<char>,
    pub priority: u32,
}

/// The characters of an optional string.
pub open spec fn opt_text(o: Option<String>) -> Option<Seq<char>> {
    match o {
        Some(s) => Some(s@),
        None => None,
    }
}

/// The characters of each string of a list.
pub open spec fn texts(v: Seq<String>) -> Seq<Seq<char>> {
    v.map_values(|s: String| s@)
}

/// The characters of each string of an optional list.
pub open spec fn opt_texts(o: Option<Vec<String>>) -> Option<Seq<Seq<char>>> {
    match o {
        Some(v) => Some(texts(v@)),
        None => None,
    }
}

impl View for Rule {
    type V = RuleView;

    open spec fn view(&self) -> RuleView {
        RuleView {
            name: self.name@,
            path_contains: opt_text(self.path_contains),
            method: opt_text(self.method),
            user_agent_contains: opt_texts(self.user_agent_contains),
            action: self.action@,
            priority: self.priority,
        }
    }
}

/// The views of a list of rules.
pub open spec fn rules_view(rules: Seq<Rule>) -> Seq<RuleView> {
    rules.map_values(|r: Rule| r@)
}

/// A copy of an optional string.
pub fn clone_opt_string(o: &Option<String>) -> (r: Option<String>)
    ensures
        opt_text(r) == opt_text(*o),
{
    match o {
        Some(s) => Some(s.clone()),
        None => None,
    }
}

/// A copy of a list of strings.
pub fn clone_strings(v: &Vec<String>) -> (r: Vec<String>)
    ensures
        texts(r@) == texts(v@),
{
    let mut r: Vec<String> = Vec::new();
    for i in 0..v.len()
        invariant
            r@.len() == i,
            forall|k: int| 0 <= k < i ==> #[trigger] r@[k]@ == v@[k]@,
    {
        r.push(v[i].clone());
    }
    assert(texts(r@) =~= texts(v@));
    r
}

impl Rule {
    /// A copy of this rule.
    pub fn duplicate(&self) -> (r: Rule)
        ensures
            r@ == self@,
    {
        Rule {
            name: self.name.clone(),
            path_contains: clone_opt_string(&self.path_contains),
            method: clone_opt_string(&self.method),
            user_agent_contains: match &self.user_agent_contains {
                Some(v) => Some(clone_strings(v)),
                None => None,
            },
            action: self.action.clone(),
            priority: self.priority,
        }
    }
}

/// A copy of a list of rules.
pub fn clone_rules(rules: &Vec<Rule>) -> (r: Vec<Rule>)
    ensures
        rules_view(r@) == rules_view(rules@),
{
    let mut r: Vec<Rule> = Vec::new();
    for i in 0..rules.len()
        invariant
            r@.len() == i,
            forall|k: int| 0 <= k < i ==> #[trigger] r@[k]@ == rules@[k]@,
    {
        r.push(rules[i].duplicate());
    }
    assert(rules_view(r@) =~= rules_view(rules@));
    r
}

} // verus!
