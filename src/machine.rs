use vstd::prelude::*;

verus! {

/// A lowered rule: states and events are indices into the machine's tables.
#[derive(Debug, Clone, PartialEq, Eq)]
pub struct Rule {
    /// The concrete source states; ignored when `wildcard` is set.
    pub sources: Vec<usize>,
    pub wildcard: bool,
    pub events: Vec<usize>,
    /// `None` keeps the current state.
    pub target: Option<usize>,
}

pub open spec fn rule_matches(r: Rule, s: usize, e: usize) -> bool {
    (r.wildcard || r.sources@.contains(s)) && r.events@.contains(e)
}

/// What a rule yields once it matches in state `s`.
pub open spec fn rule_result(r: Rule, s: usize) -> usize {
    match r.target {
        Some(t) => t,
        None => s,
    }
}

/// First-match evaluation: the earliest rule that matches decides.
pub open spec fn eval_rules(rules: Seq<Rule>, s: usize, e: usize) -> Option<usize>
    decreases rules.len(),
{
    if rules.len() == 0 {
        None
    } else if rule_matches(rules[0], s, e) {
        Some(rule_result(rules[0], s))
    } else {
        eval_rules(rules.drop_first(), s, e)
    }
}

/// The rule at `k` matches and none before it does: it decides.
pub proof fn lemma_first_match(rules: Seq<Rule>, s: usize, e: usize, k: int)
    requires
        0 <= k < rules.len(),
        rule_matches(rules[k], s, e),
        forall|j: int| 0 <= j < k ==> !rule_matches(#[trigger] rules[j], s, e),
    ensures
        eval_rules(rules, s, e) == Some(rule_result(rules[k], s)),
    decreases k,
{
    if k > 0 {
        let rest = rules.drop_first();
        assert forall|j: int| 0 <= j < k - 1 implies !rule_matches(#[trigger] rest[j], s, e) by {
            assert(rest[j] == rules[j + 1]);
        }
        lemma_first_match(rest, s, e, k - 1);
    }
}

/// No rule matches: there is no transition.
pub proof fn lemma_no_match(rules: Seq<Rule>, s: usize, e: usize)
    requires
        forall|j: int| 0 <= j < rules.len() ==> !rule_matches(#[trigger] rules[j], s, e),
    ensures
        eval_rules(rules, s, e) is None,
    decreases rules.len(),
{
    if rules.len() > 0 {
        let rest = rules.drop_first();
        assert forall|j: int| 0 <= j < rest.len() implies !rule_matches(#[trigger] rest[j], s, e) by {
            assert(rest[j] == rules[j + 1]);
        }
        lemma_no_match(rest, s, e);
    }
}

pub open spec fn rule_wf(r: Rule, n_states: nat, n_events: nat) -> bool {
    &&& forall|k: int| 0 <= k < r.sources@.len() ==> #[trigger] r.sources@[k] < n_states
    &&& forall|k: int| 0 <= k < r.events@.len() ==> #[trigger] r.events@[k] < n_events
    &&& match r.target {
        Some(t) => t < n_states,
        None => true,
    }
}

fn contains_index(v: &Vec<usize>, x: usize) -> (r: bool)
    ensures
        r == v@.contains(x),
{
    let mut i: usize = 0;
    while i < v.len()
        invariant
            i <= v@.len(),
            forall|k: int| 0 <= k < i ==> v@[k] != x,
        decreases v@.len() - i,
    {
        if v[i] == x {
            assert(v@[i as int] == x);
            return true;
        }
        i = i + 1;
    }
    false
}

impl Rule {
    /// Whether the rule applies to state `s` and event `e`.
    pub fn matches(&self, s: usize, e: usize) -> (r: bool)
        ensures
            r == rule_matches(*self, s, e),
    {
        (self.wildcard || contains_index(&self.sources, s)) && contains_index(&self.events, e)
    }
}

/// A compiled machine: the ordered state and event tables, the initial
/// state and the lowered rules in declaration order.
#[derive(Debug, Clone, PartialEq, Eq)]
pub struct Machine {
    pub name: Option<Vec<u8>>,
    pub state_derives: Vec<Vec<u8>>,
    pub event_derives: Vec<Vec<u8>>,
    pub states: Vec<Vec<u8>>,
    pub events: Vec<Vec<u8>>,
    /// The name of the initial state.
    pub initial: Vec<u8>,
    pub rules: Vec<Rule>,
}

impl Machine {
    pub open spec fn wf(&self) -> bool {
        forall|i: int|
            0 <= i < self.rules@.len() ==> rule_wf(
                #[trigger] self.rules@[i],
                self.states@.len(),
                self.events@.len(),
            )
    }

    /// The next state after `event` in `state`, or `None` when no rule applies.
    pub fn process_event(&self, state: usize, event: usize) -> (r: Option<usize>)
        requires
            self.wf(),
            state < self.states@.len(),
            event < self.events@.len(),
        ensures
            r == eval_rules(self.rules@, state, event),
            r matches Some(n) ==> n < self.states@.len(),
    {
        let mut i: usize = 0;
        while i < self.rules.len()
            invariant
                self.wf(),
                state < self.states@.len(),
                i <= self.rules@.len(),
                forall|j: int| 0 <= j < i ==> !rule_matches(#[trigger] self.rules@[j], state, event),
            decreases self.rules@.len() - i,
        {
            if self.rules[i].matches(state, event) {
                proof {
                    lemma_first_match(self.rules@, state, event, i as int);
                    assert(rule_wf(self.rules@[i as int], self.states@.len(), self.events@.len()));
                }
                return match self.rules[i].target {
                    Some(t) => Some(t),
                    None => Some(state),
                };
            }
            i = i + 1;
        }
        proof {
            lemma_no_match(self.rules@, state, event);
        }
        None
    }
}

} // verus!
