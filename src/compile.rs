use vstd::prelude::*;
use crate::ast::{
    concrete_sources, event_names, is_wildcard, target_name, DslError, StateMachineSpec,
    TargetState, Transition,
};
use crate::emit::{lit, lit_vec};
use crate::machine::{rule_wf, Machine, Rule};
use crate::model::{
    build_events, build_initial, build_states, entry_names, event_mentions, events_of,
    find_name, initial_of, lemma_dedup_contains, lemma_dedup_distinct, mentions, names_view, states_of,
    transition_mentions,
};
use crate::validate::{first_duplicate, no_duplicate_pairs, validate_no_duplicate_transitions};

verus! {

/// `r` is rule `t` with every name replaced by its index in the tables.
pub open spec fn lowered_rule(r: Rule, t: Transition, states: Seq<Seq<u8>>, events: Seq<Seq<u8>>) -> bool {
    &&& r.wildcard == is_wildcard(t)
    &&& r.sources@.len() == concrete_sources(t).len()
    &&& forall|a: int|
        0 <= a < r.sources@.len() ==> #[trigger] r.sources@[a] < states.len() && states[r.sources@[a] as int]
            == concrete_sources(t)[a]
    &&& r.events@.len() == event_names(t).len()
    &&& forall|b: int|
        0 <= b < r.events@.len() ==> #[trigger] r.events@[b] < events.len() && events[r.events@[b] as int]
            == event_names(t)[b]
    &&& match target_name(t) {
        Some(n) => r.target matches Some(x) && x < states.len() && states[x as int] == n,
        None => r.target is None,
    }
}

/// The tags used when a description names none: Debug, Clone, PartialEq, Eq.
pub open spec fn default_derives() -> Seq<Seq<u8>> {
    seq![lit("Debug"), lit("Clone"), lit("PartialEq"), lit("Eq")]
}

pub open spec fn derives_of(d: Option<Vec<Vec<u8>>>) -> Seq<Seq<u8>> {
    match d {
        Some(v) => names_view(v@),
        None => default_derives(),
    }
}

pub open spec fn name_view(n: Option<Vec<u8>>) -> Option<Seq<u8>> {
    match n {
        Some(v) => Some(v@),
        None => None,
    }
}

/// `m` is the compiled form of `spec`.
pub open spec fn compiled_from(m: Machine, spec: StateMachineSpec) -> bool {
    let ts = spec.transitions@;
    &&& name_view(m.name) == name_view(spec.name)
    &&& names_view(m.state_derives@) == derives_of(spec.derive_states)
    &&& names_view(m.event_derives@) == derives_of(spec.derive_events)
    &&& names_view(m.states@) == states_of(ts)
    &&& names_view(m.events@) == events_of(ts)
    &&& m.initial@ == initial_of(ts)
    &&& m.rules@.len() == ts.len()
    &&& forall|i: int|
        0 <= i < ts.len() ==> lowered_rule(
            #[trigger] m.rules@[i],
            ts[i],
            names_view(m.states@),
            names_view(m.events@),
        )
}

proof fn lemma_mentions_split(ts: Seq<Transition>, i: int)
    requires
        0 <= i < ts.len(),
    ensures
        mentions(ts) == mentions(ts.take(i)) + transition_mentions(ts[i]) + mentions(ts.skip(i + 1)),
        event_mentions(ts) == event_mentions(ts.take(i)) + event_names(ts[i]) + event_mentions(
            ts.skip(i + 1),
        ),
    decreases ts.len(),
{
    if i == ts.len() - 1 {
        assert(ts.drop_last() =~= ts.take(i));
        assert(ts.skip(i + 1) =~= Seq::<Transition>::empty());
        assert(mentions(ts) =~= mentions(ts.take(i)) + transition_mentions(ts[i]) + mentions(ts.skip(i + 1)));
        assert(event_mentions(ts) =~= event_mentions(ts.take(i)) + event_names(ts[i]) + event_mentions(ts.skip(i + 1)));
    } else {
        let d = ts.drop_last();
        lemma_mentions_split(d, i);
        assert(d.take(i) =~= ts.take(i));
        assert(d[i] == ts[i]);
        assert(ts.skip(i + 1).drop_last() =~= d.skip(i + 1));
        assert(ts.skip(i + 1).last() == ts.last());
        assert(mentions(ts) =~= mentions(ts.take(i)) + transition_mentions(ts[i]) + mentions(ts.skip(i + 1)));
        assert(event_mentions(ts) =~= event_mentions(ts.take(i)) + event_names(ts[i]) + event_mentions(ts.skip(i + 1)));
    }
}

/// Every state that a rule names is in the state table.
pub proof fn lemma_named_states_known(ts: Seq<Transition>, i: int)
    requires
        0 <= i < ts.len(),
    ensures
        forall|a: int|
            0 <= a < concrete_sources(ts[i]).len() ==> states_of(ts).contains(
                #[trigger] concrete_sources(ts[i])[a],
            ),
        target_name(ts[i]) matches Some(n) ==> states_of(ts).contains(n),
        forall|b: int|
            0 <= b < event_names(ts[i]).len() ==> events_of(ts).contains(#[trigger] event_names(ts[i])[b]),
{
    lemma_mentions_split(ts, i);
    let pre = mentions(ts.take(i));
    let tm = transition_mentions(ts[i]);
    let names = entry_names(mentions(ts));
    assert forall|a: int| 0 <= a < concrete_sources(ts[i]).len() implies states_of(ts).contains(
        #[trigger] concrete_sources(ts[i])[a],
    ) by {
        let x = concrete_sources(ts[i])[a];
        assert(names[pre.len() + a] == x);
        lemma_dedup_contains(names, x);
    }
    if let Some(n) = target_name(ts[i]) {
        let k = pre.len() + tm.len() - 1;
        assert(names[k] == n);
        lemma_dedup_contains(names, n);
    }
    let epre = event_mentions(ts.take(i));
    assert forall|b: int| 0 <= b < event_names(ts[i]).len() implies events_of(ts).contains(
        #[trigger] event_names(ts[i])[b],
    ) by {
        let x = event_names(ts[i])[b];
        assert(event_mentions(ts)[epre.len() + b] == x);
        lemma_dedup_contains(event_mentions(ts), x);
    }
}

pub(crate) fn lookup(table: &Vec<Vec<u8>>, x: &[u8]) -> (r: usize)
    requires
        names_view(table@).contains(x@),
    ensures
        r < table@.len() && table@[r as int]@ == x@,
{
    find_name(table, x).unwrap()
}

fn lower_rule(ts: &Vec<Transition>, i: usize, states: &Vec<Vec<u8>>, events: &Vec<Vec<u8>>) -> (r: Rule)
    requires
        i < ts@.len(),
        names_view(states@) == states_of(ts@),
        names_view(events@) == events_of(ts@),
    ensures
        lowered_rule(r, ts@[i as int], names_view(states@), names_view(events@)),
{
    let t = &ts[i];
    proof {
        lemma_named_states_known(ts@, i as int);
    }
    let srcs = crate::validate::source_list(&t.source);
    assert(names_view(srcs@) == concrete_sources(ts@[i as int]));
    let mut sources: Vec<usize> = Vec::new();
    let mut a: usize = 0;
    while a < srcs.len()
        invariant
            a <= srcs@.len(),
            names_view(srcs@) == concrete_sources(ts@[i as int]),
            names_view(states@) == states_of(ts@),
            forall|x: int|
                0 <= x < concrete_sources(ts@[i as int]).len() ==> states_of(ts@).contains(
                    #[trigger] concrete_sources(ts@[i as int])[x],
                ),
            sources@.len() == a,
            forall|x: int|
                0 <= x < a ==> #[trigger] sources@[x] < states@.len() && states@[sources@[x] as int]@
                    == concrete_sources(ts@[i as int])[x],
        decreases srcs@.len() - a,
    {
        assert(srcs@[a as int]@ == concrete_sources(ts@[i as int])[a as int]);
        let k = lookup(states, srcs[a].as_slice());
        sources.push(k);
        a = a + 1;
    }
    let mut evs: Vec<usize> = Vec::new();
    let mut b: usize = 0;
    while b < t.events.len()
        invariant
            t == ts@[i as int],
            b <= t.events@.len(),
            names_view(events@) == events_of(ts@),
            forall|x: int|
                0 <= x < event_names(ts@[i as int]).len() ==> events_of(ts@).contains(
                    #[trigger] event_names(ts@[i as int])[x],
                ),
            evs@.len() == b,
            forall|x: int|
                0 <= x < b ==> #[trigger] evs@[x] < events@.len() && events@[evs@[x] as int]@
                    == event_names(ts@[i as int])[x],
        decreases t.events@.len() - b,
    {
        assert(t.events@[b as int]@ == event_names(ts@[i as int])[b as int]);
        let k = lookup(events, t.events[b].as_slice());
        evs.push(k);
        b = b + 1;
    }
    let target = match &t.target {
        TargetState::State(n) => Some(lookup(states, n.as_slice())),
        TargetState::Internal => None,
    };
    let wildcard = match &t.source {
        crate::ast::StatePattern::Wildcard => true,
        _ => false,
    };
    Rule { sources, wildcard, events: evs, target }
}

fn default_derive_list() -> (r: Vec<Vec<u8>>)
    ensures
        names_view(r@) == default_derives(),
{
    proof {
        reveal_strlit("Debug");
        reveal_strlit("Clone");
        reveal_strlit("PartialEq");
        reveal_strlit("Eq");
    }
    let mut r: Vec<Vec<u8>> = Vec::new();
    r.push(lit_vec("Debug"));
    r.push(lit_vec("Clone"));
    r.push(lit_vec("PartialEq"));
    r.push(lit_vec("Eq"));
    assert(names_view(r@) =~= default_derives());
    r
}

/// What compiling `spec` yields: a machine exactly when no pair is declared
/// twice, else the first repeated pair.
pub open spec fn compile_result(spec: StateMachineSpec, r: Result<Machine, DslError>) -> bool {
    &&& (r is Ok <==> no_duplicate_pairs(spec.transitions@))
    &&& (r matches Err(e) ==> e matches DslError::DuplicateTransition { state, event } && first_duplicate(
        spec.transitions@,
        state@,
        event@,
    ))
    &&& (r matches Ok(m) ==> compiled_from(m, spec) && m.wf() && names_view(m.states@).no_duplicates())
}

/// Checks a parsed description and compiles it into a machine: the state
/// and event tables in order of first mention, the initial state, and the
/// rules lowered to indices in declaration order.
pub fn compile(spec: StateMachineSpec) -> (r: Result<Machine, DslError>)
    ensures
        compile_result(spec, r),
{
    let ghost orig = spec;
    let StateMachineSpec { name, derive_states, derive_events, transitions } = spec;
    match validate_no_duplicate_transitions(&transitions) {
        Err(e) => return Err(e),
        Ok(()) => {},
    }
    let states = build_states(&transitions);
    let events = build_events(&transitions);
    let initial = build_initial(&transitions, &states);
    let mut rules: Vec<Rule> = Vec::new();
    let mut i: usize = 0;
    while i < transitions.len()
        invariant
            i <= transitions@.len(),
            names_view(states@) == states_of(transitions@),
            names_view(events@) == events_of(transitions@),
            rules@.len() == i,
            forall|j: int|
                0 <= j < i ==> lowered_rule(
                    #[trigger] rules@[j],
                    transitions@[j],
                    names_view(states@),
                    names_view(events@),
                ),
        decreases transitions@.len() - i,
    {
        let r = lower_rule(&transitions, i, &states, &events);
        rules.push(r);
        i = i + 1;
    }
    let state_derives = match derive_states {
        Some(v) => v,
        None => default_derive_list(),
    };
    let event_derives = match derive_events {
        Some(v) => v,
        None => default_derive_list(),
    };
    let m = Machine { name, state_derives, event_derives, states, events, initial, rules };
    proof {
        lemma_dedup_distinct(entry_names(mentions(transitions@)));
        assert forall|j: int| 0 <= j < m.rules@.len() implies rule_wf(
            #[trigger] m.rules@[j],
            m.states@.len(),
            m.events@.len(),
        ) by {
            assert(lowered_rule(m.rules@[j], transitions@[j], names_view(states@), names_view(events@)));
        }
    }
    Ok(m)
}

} // verus!
