use vstd::prelude::*;

verus! {

/// Why a description was rejected.
#[derive(Debug, Clone, PartialEq, Eq)]
pub enum DslError {
    /// A byte that starts no token, at this offset.
    InvalidCharacter { pos: usize },
    /// A token that the grammar does not allow here, at this byte offset.
    UnexpectedToken { pos: usize },
    /// The text ended in the middle of a clause or a rule.
    UnexpectedEnd,
    /// The text ended without a `transitions:` clause.
    MissingTransitionsBlock,
    /// A clause name other than `name`, `derive_states`, `derive_events`, `transitions`.
    UnknownClause { name: Vec<u8> },
    /// The same (state, event) pair is declared twice.
    DuplicateTransition { state: Vec<u8>, event: Vec<u8> },
}

/// The source side of a rule.
#[derive(Debug, Clone, PartialEq, Eq)]
pub enum StatePattern {
    /// One named state; `initial` is set when it was written with `*`.
    Single { state: Vec<u8>, initial: bool },
    /// Several named states joined by `|`, each with its own `*` mark.
    Multiple { states: Vec<(Vec<u8>, bool)> },
    /// `_`: any state.
    Wildcard,
}

/// The destination of a rule.
#[derive(Debug, Clone, PartialEq, Eq)]
pub enum TargetState {
    /// A named state.
    State(Vec<u8>),
    /// `_` or no target at all: stay in the current state.
    Internal,
}

/// One rule `pattern + event | event ... = target`.
#[derive(Debug, Clone, PartialEq, Eq)]
pub struct Transition {
    pub source: StatePattern,
    pub events: Vec<Vec<u8>>,
    pub target: TargetState,
}

/// The parsed form of a whole machine description.
#[derive(Debug, Clone, PartialEq, Eq)]
pub struct StateMachineSpec {
    pub name: Option<Vec<u8>>,
    pub derive_states: Option<Vec<Vec<u8>>>,
    pub derive_events: Option<Vec<Vec<u8>>>,
    pub transitions: Vec<Transition>,
}

/// The states named by a pattern, in the order written, each with its `*` mark.
pub open spec fn pattern_entries(p: StatePattern) -> Seq<(Seq<u8>, bool)> {
    match p {
        StatePattern::Single { state, initial } => seq![(state@, initial)],
        StatePattern::Multiple { states } => states@.map_values(|x: (Vec<u8>, bool)| (x.0@, x.1)),
        StatePattern::Wildcard => Seq::empty(),
    }
}

/// The concrete source states of a rule (none for a wildcard).
pub open spec fn concrete_sources(t: Transition) -> Seq<Seq<u8>> {
    pattern_entries(t.source).map_values(|x: (Seq<u8>, bool)| x.0)
}

/// The events of a rule, as byte strings.
pub open spec fn event_names(t: Transition) -> Seq<Seq<u8>> {
    t.events@.map_values(|e: Vec<u8>| e@)
}

/// The named target of a rule, if it has one.
pub open spec fn target_name(t: Transition) -> Option<Seq<u8>> {
    match t.target {
        TargetState::State(s) => Some(s@),
        TargetState::Internal => None,
    }
}

pub open spec fn is_wildcard(t: Transition) -> bool {
    t.source is Wildcard
}

/// Compares two byte strings.
pub fn bytes_eq(a: &[u8], b: &[u8]) -> (r: bool)
    ensures
        r == (a@ == b@),
{
    if a.len() != b.len() {
        return false;
    }
    let mut i: usize = 0;
    while i < a.len()
        invariant
            a@.len() == b@.len(),
            i <= a@.len(),
            forall|k: int| 0 <= k < i ==> a@[k] == b@[k],
        decreases a@.len() - i,
    {
        if a[i] != b[i] {
            return false;
        }
        i = i + 1;
    }
    assert(a@ =~= b@);
    true
}

/// A copy of a byte string.
pub fn copy_bytes(a: &[u8]) -> (r: Vec<u8>)
    ensures
        r@ == a@,
{
    let mut r: Vec<u8> = Vec::new();
    let mut i: usize = 0;
    while i < a.len()
        invariant
            i <= a@.len(),
            r@ == a@.subrange(0, i as int),
        decreases a@.len() - i,
    {
        r.push(a[i]);
        i = i + 1;
    }
    assert(r@ =~= a@);
    r
}

} // verus!
