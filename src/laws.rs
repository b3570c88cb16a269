use vstd::prelude::*;
use crate::ast::{concrete_sources, event_names, is_wildcard, target_name, StateMachineSpec, Transition};
use crate::compile::{compiled_from, derives_of, lowered_rule, name_view};
use crate::machine::{eval_rules, lemma_first_match, rule_matches, rule_result, Machine};
use crate::model::{
    dedup, entry_names, first_marked, initial_of, lemma_dedup_distinct, mentions, names_view,
};
use crate::validate::{
    ev_at, first_duplicate, no_duplicate_pairs, repeats_earlier, slot_lt, slot_ok, src_at,
};
use crate::emit::{all_checks, check, emitted, event_type, rule_checks, source_tests, state_type};
use crate::machine::Rule;
use crate::ast::DslError;
use crate::lexer::lex_from;
use crate::parser::{err_view, p_machine};
use crate::pipeline::pipeline_result;
use crate::compile::compile_result;
use crate::parser::{rule_view, spec_view};
use crate::model::{event_mentions, events_of, states_of, transition_mentions};

verus! {

proof fn lemma_first_marked_at(m: Seq<(Seq<u8>, bool)>)
    ensures
        forall|k: int|
            0 <= k < m.len() && #[trigger] m[k].1 && (forall|j: int| 0 <= j < k ==> !m[j].1)
                ==> first_marked(m) == Some(m[k].0),
        (forall|j: int| 0 <= j < m.len() ==> !m[j].1) ==> first_marked(m) is None,
    decreases m.len(),
{
    if m.len() > 0 {
        let d = m.drop_last();
        lemma_first_marked_at(d);
        assert forall|k: int|
            0 <= k < m.len() && #[trigger] m[k].1 && (forall|j: int| 0 <= j < k ==> !m[j].1)
            implies first_marked(m) == Some(m[k].0) by {
            if k < d.len() {
                assert(d[k] == m[k]);
                assert forall|j: int| 0 <= j < k implies !d[j].1 by {
                    assert(d[j] == m[j]);
                }
            } else {
                assert forall|j: int| 0 <= j < d.len() implies !d[j].1 by {
                    assert(d[j] == m[j]);
                }
            }
        }
        if forall|j: int| 0 <= j < m.len() ==> !m[j].1 {
            assert forall|j: int| 0 <= j < d.len() implies !d[j].1 by {
                assert(d[j] == m[j]);
            }
            assert(!m[m.len() - 1].1);
        }
    }
}

proof fn lemma_dedup_first(s: Seq<Seq<u8>>)
    requires
        s.len() > 0,
    ensures
        dedup(s).len() > 0,
        dedup(s)[0] == s[0],
    decreases s.len(),
{
    let d = dedup(s.drop_last());
    if s.len() == 1 {
        assert(s.drop_last() =~= Seq::<Seq<u8>>::empty());
        assert(d =~= Seq::<Seq<u8>>::empty());
        assert(!d.contains(s.last()));
        assert(dedup(s) == d.push(s.last()));
        assert(s.last() == s[0]);
    } else {
        lemma_dedup_first(s.drop_last());
        assert(s.drop_last()[0] == s[0]);
        if !d.contains(s.last()) {
            assert(d.push(s.last())[0] == d[0]);
        }
    }
}

/// The initial state is the first `*`-marked state in declaration order;
/// with no mark it is the first state mentioned.
pub proof fn lemma_initial_state(ts: Seq<Transition>)
    ensures
        forall|k: int|
            0 <= k < mentions(ts).len() && #[trigger] mentions(ts)[k].1 && (forall|j: int|
                0 <= j < k ==> !mentions(ts)[j].1) ==> initial_of(ts) == mentions(ts)[k].0,
        (forall|j: int| 0 <= j < mentions(ts).len() ==> !mentions(ts)[j].1) && mentions(ts).len() > 0
            ==> initial_of(ts) == mentions(ts)[0].0,
{
    let m = mentions(ts);
    lemma_first_marked_at(m);
    if m.len() > 0 {
        lemma_dedup_first(entry_names(m));
    }
}

/// A rule that keeps the state, when it is the first to match, returns the
/// current state unchanged.
pub proof fn lemma_internal_keeps_state(m: Machine, spec: StateMachineSpec, k: int, s: usize, e: usize)
    requires
        compiled_from(m, spec),
        0 <= k < spec.transitions@.len(),
        spec.transitions@[k].target is Internal,
        rule_matches(m.rules@[k], s, e),
        forall|j: int| 0 <= j < k ==> !rule_matches(#[trigger] m.rules@[j], s, e),
    ensures
        eval_rules(m.rules@, s, e) == Some(s),
{
    assert(lowered_rule(m.rules@[k], spec.transitions@[k], names_view(m.states@), names_view(m.events@)));
    lemma_first_match(m.rules@, s, e, k);
}

/// A (concrete state, event) pair declared at two slots makes the rule list
/// invalid; when it is the only pair declared twice, the reported pair is it.
pub proof fn lemma_duplicate_rejected(
    ts: Seq<Transition>,
    i: int,
    a: int,
    b: int,
    j: int,
    c: int,
    d: int,
)
    requires
        slot_ok(ts, i, a, b),
        slot_ok(ts, j, c, d),
        slot_lt(i, a, b, j, c, d),
        src_at(ts, i, a) == src_at(ts, j, c),
        ev_at(ts, i, b) == ev_at(ts, j, d),
    ensures
        !no_duplicate_pairs(ts),
        (forall|x: int, y: int, z: int|
            #[trigger] slot_ok(ts, x, y, z) && repeats_earlier(ts, x, y, z) ==> src_at(ts, x, y) == src_at(
                ts,
                j,
                c,
            ) && ev_at(ts, x, z) == ev_at(ts, j, d)) ==> forall|st: Seq<u8>, ev: Seq<u8>|
            first_duplicate(ts, st, ev) ==> st == src_at(ts, j, c) && ev == ev_at(ts, j, d),
{
    assert(repeats_earlier(ts, j, c, d));
}

/// When every wildcard rule for event `e` comes after a concrete rule that
/// covers `(s, e)`, that concrete rule decides: the wildcard is shadowed.
pub proof fn lemma_specific_shadows_wildcard(m: Machine, spec: StateMachineSpec, k: int, s: usize, e: usize)
    requires
        compiled_from(m, spec),
        no_duplicate_pairs(spec.transitions@),
        0 <= k < m.rules@.len(),
        !m.rules@[k].wildcard,
        m.rules@[k].sources@.contains(s),
        m.rules@[k].events@.contains(e),
        forall|j: int|
            0 <= j < m.rules@.len() && (#[trigger] m.rules@[j]).wildcard && m.rules@[j].events@.contains(e)
                ==> j > k,
    ensures
        eval_rules(m.rules@, s, e) == Some(rule_result(m.rules@[k], s)),
{
    let ts = spec.transitions@;
    let sv = names_view(m.states@);
    let ev = names_view(m.events@);
    assert(lowered_rule(m.rules@[k], ts[k], sv, ev));
    let a = choose|a: int| 0 <= a < m.rules@[k].sources@.len() && m.rules@[k].sources@[a] == s;
    let b = choose|b: int| 0 <= b < m.rules@[k].events@.len() && m.rules@[k].events@[b] == e;
    assert(m.rules@[k].sources@[a] == s);
    assert(m.rules@[k].events@[b] == e);
    assert(slot_ok(ts, k, a, b));
    assert forall|j: int| 0 <= j < k implies !rule_matches(#[trigger] m.rules@[j], s, e) by {
        if rule_matches(m.rules@[j], s, e) {
            let r = m.rules@[j];
            assert(lowered_rule(r, ts[j], sv, ev));
            let y = choose|y: int| 0 <= y < r.sources@.len() && r.sources@[y] == s;
            let z = choose|z: int| 0 <= z < r.events@.len() && r.events@[z] == e;
            assert(r.sources@[y] == s);
            assert(r.events@[z] == e);
            assert(slot_ok(ts, j, y, z));
            assert(repeats_earlier(ts, k, a, b));
        }
    }
    lemma_first_match(m.rules@, s, e, k);
}

/// Compiling two descriptions that read the same gives the same machine.
pub proof fn lemma_compile_deterministic(m1: Machine, spec1: StateMachineSpec, m2: Machine, spec2: StateMachineSpec)
    requires
        spec_view(spec1) == spec_view(spec2),
        compiled_from(m1, spec1),
        compiled_from(m2, spec2),
    ensures
        names_view(m1.states@) == names_view(m2.states@),
        names_view(m1.events@) == names_view(m2.events@),
        m1.initial@ == m2.initial@,
        names_view(m1.state_derives@) == names_view(m2.state_derives@),
        names_view(m1.event_derives@) == names_view(m2.event_derives@),
        m1.rules@.len() == m2.rules@.len(),
        forall|i: int|
            0 <= i < m1.rules@.len() ==> (#[trigger] m1.rules@[i]).sources@ == m2.rules@[i].sources@
                && m1.rules@[i].events@ == m2.rules@[i].events@ && m1.rules@[i].wildcard
                == m2.rules@[i].wildcard && m1.rules@[i].target == m2.rules@[i].target,
{
    lemma_views_agree(spec1, spec2);
    let ts = spec1.transitions@;
    let ts2 = spec2.transitions@;
    let sv = names_view(m1.states@);
    let ev = names_view(m1.events@);
    lemma_dedup_distinct(entry_names(mentions(ts)));
    lemma_dedup_distinct(crate::model::event_mentions(ts));
    assert forall|i: int| 0 <= i < m1.rules@.len() implies (#[trigger] m1.rules@[i]).sources@
        == m2.rules@[i].sources@ && m1.rules@[i].events@ == m2.rules@[i].events@
        && m1.rules@[i].wildcard == m2.rules@[i].wildcard && m1.rules@[i].target
        == m2.rules@[i].target by {
        let r1 = m1.rules@[i];
        let r2 = m2.rules@[i];
        assert(lowered_rule(r1, ts[i], sv, ev));
        assert(lowered_rule(r2, ts2[i], sv, ev));
        assert forall|x: int| 0 <= x < r1.sources@.len() implies r1.sources@[x] == r2.sources@[x] by {
            assert(sv[r1.sources@[x] as int] == sv[r2.sources@[x] as int]);
        }
        assert forall|x: int| 0 <= x < r1.events@.len() implies r1.events@[x] == r2.events@[x] by {
            assert(ev[r1.events@[x] as int] == ev[r2.events@[x] as int]);
        }
        assert(r1.sources@ =~= r2.sources@);
        assert(r1.events@ =~= r2.events@);
        match r1.target {
            Some(x) => {
                let y = r2.target->0;
                assert(sv[x as int] == sv[y as int]);
            },
            None => {},
        }
    }
}

/// Two machines with the same names, and a rule that reads the same in
/// both, give the same checks.
pub open spec fn same_tables(m1: Machine, m2: Machine) -> bool {
    &&& names_view(m1.states@) == names_view(m2.states@)
    &&& names_view(m1.events@) == names_view(m2.events@)
    &&& state_type(m1) == state_type(m2)
    &&& event_type(m1) == event_type(m2)
}

pub open spec fn same_rule(m: Machine, r1: Rule, r2: Rule) -> bool {
    &&& r1.sources@ == r2.sources@
    &&& r1.events@ == r2.events@
    &&& r1.wildcard == r2.wildcard
    &&& r1.target == r2.target
    &&& crate::machine::rule_wf(r1, m.states@.len(), m.events@.len())
}

proof fn lemma_rule_checks_same(m1: Machine, m2: Machine, r1: Rule, r2: Rule, evs: Seq<usize>)
    requires
        same_tables(m1, m2),
        same_rule(m1, r1, r2),
        forall|b: int| 0 <= b < evs.len() ==> #[trigger] evs[b] < m1.events@.len(),
    ensures
        rule_checks(m1, r1, evs) == rule_checks(m2, r2, evs),
    decreases evs.len(),
{
    if evs.len() > 0 {
        let d = evs.drop_last();
        assert forall|b: int| 0 <= b < d.len() implies #[trigger] d[b] < m1.events@.len() by {
            assert(d[b] == evs[b]);
        }
        lemma_rule_checks_same(m1, m2, r1, r2, d);
        let e = evs.last();
        assert(evs[evs.len() - 1] == e);
        assert(names_view(m1.events@)[e as int] == names_view(m2.events@)[e as int]);
        assert(names_view(m1.events@)[e as int] == m1.events@[e as int]@);
        assert(names_view(m2.events@).len() == m2.events@.len());
        assert(names_view(m2.events@)[e as int] == m2.events@[e as int]@);
        assert(source_tests(m1, r1.sources@) =~= source_tests(m2, r2.sources@)) by {
            assert forall|a: int| 0 <= a < r1.sources@.len() implies source_tests(m1, r1.sources@)[a]
                == source_tests(m2, r2.sources@)[a] by {
                let k = r1.sources@[a];
                assert(k < m1.states@.len());
                assert(names_view(m1.states@)[k as int] == names_view(m2.states@)[k as int]);
                assert(names_view(m1.states@)[k as int] == m1.states@[k as int]@);
                assert(names_view(m2.states@).len() == m2.states@.len());
                assert(names_view(m2.states@)[k as int] == m2.states@[k as int]@);
                assert(crate::emit::source_test(m1, k) == crate::emit::source_test(m2, k));
            }
        }
        if let Some(t) = r1.target {
            assert(names_view(m1.states@)[t as int] == names_view(m2.states@)[t as int]);
            assert(names_view(m1.states@)[t as int] == m1.states@[t as int]@);
            assert(names_view(m2.states@).len() == m2.states@.len());
            assert(names_view(m2.states@)[t as int] == m2.states@[t as int]@);
        }
        assert(check(m1, r1, e) == check(m2, r2, e));
    }
}

proof fn lemma_all_checks_same(m1: Machine, m2: Machine, rules1: Seq<Rule>, rules2: Seq<Rule>)
    requires
        same_tables(m1, m2),
        rules1.len() == rules2.len(),
        forall|i: int| 0 <= i < rules1.len() ==> same_rule(m1, #[trigger] rules1[i], rules2[i]),
    ensures
        all_checks(m1, rules1) == all_checks(m2, rules2),
    decreases rules1.len(),
{
    if rules1.len() > 0 {
        let d1 = rules1.drop_last();
        let d2 = rules2.drop_last();
        assert forall|i: int| 0 <= i < d1.len() implies same_rule(m1, #[trigger] d1[i], d2[i]) by {
            assert(d1[i] == rules1[i]);
            assert(d2[i] == rules2[i]);
        }
        lemma_all_checks_same(m1, m2, d1, d2);
        let n = rules1.len() - 1;
        assert(same_rule(m1, rules1[n], rules2[n]));
        assert(rules1.last() == rules1[n]);
        assert(rules2.last() == rules2[n]);
        lemma_rule_checks_same(m1, m2, rules1.last(), rules2.last(), rules1.last().events@);
    }
}

/// Compiling two descriptions that read the same generates byte-identical source.
pub proof fn lemma_emit_deterministic(m1: Machine, spec1: StateMachineSpec, m2: Machine, spec2: StateMachineSpec)
    requires
        spec_view(spec1) == spec_view(spec2),
        compiled_from(m1, spec1),
        compiled_from(m2, spec2),
        m1.wf(),
    ensures
        emitted(m1) == emitted(m2),
{
    lemma_compile_deterministic(m1, spec1, m2, spec2);
    assert(state_type(m1) == state_type(m2));
    assert(event_type(m1) == event_type(m2));
    assert forall|i: int| 0 <= i < m1.rules@.len() implies same_rule(m1, #[trigger] m1.rules@[i], m2.rules@[i]) by {
        assert(crate::machine::rule_wf(m1.rules@[i], m1.states@.len(), m1.events@.len()));
    }
    lemma_all_checks_same(m1, m2, m1.rules@, m2.rules@);
}

/// Two rule lists that read the same, rule by rule.
pub open spec fn same_rules(ts1: Seq<Transition>, ts2: Seq<Transition>) -> bool {
    ts1.len() == ts2.len() && forall|i: int| 0 <= i < ts1.len() ==> rule_view(#[trigger] ts1[i]) == rule_view(ts2[i])
}

proof fn lemma_mentions_agree(ts1: Seq<Transition>, ts2: Seq<Transition>)
    requires
        same_rules(ts1, ts2),
    ensures
        mentions(ts1) == mentions(ts2),
        event_mentions(ts1) == event_mentions(ts2),
    decreases ts1.len(),
{
    if ts1.len() > 0 {
        let d1 = ts1.drop_last();
        let d2 = ts2.drop_last();
        assert forall|i: int| 0 <= i < d1.len() implies rule_view(#[trigger] d1[i]) == rule_view(d2[i]) by {
            assert(d1[i] == ts1[i]);
            assert(d2[i] == ts2[i]);
        }
        lemma_mentions_agree(d1, d2);
        assert(rule_view(ts1[ts1.len() - 1]) == rule_view(ts2[ts2.len() - 1]));
        assert(transition_mentions(ts1.last()) == transition_mentions(ts2.last()));
    }
}

/// Descriptions that read the same agree on everything compiling looks at.
pub proof fn lemma_views_agree(spec1: StateMachineSpec, spec2: StateMachineSpec)
    requires
        spec_view(spec1) == spec_view(spec2),
    ensures
        same_rules(spec1.transitions@, spec2.transitions@),
        forall|i: int|
            0 <= i < spec1.transitions@.len() ==> {
                &&& is_wildcard(#[trigger] spec1.transitions@[i]) == is_wildcard(spec2.transitions@[i])
                &&& concrete_sources(spec1.transitions@[i]) == concrete_sources(spec2.transitions@[i])
                &&& event_names(spec1.transitions@[i]) == event_names(spec2.transitions@[i])
                &&& target_name(spec1.transitions@[i]) == target_name(spec2.transitions@[i])
            },
        states_of(spec1.transitions@) == states_of(spec2.transitions@),
        events_of(spec1.transitions@) == events_of(spec2.transitions@),
        initial_of(spec1.transitions@) == initial_of(spec2.transitions@),
        name_view(spec1.name) == name_view(spec2.name),
        derives_of(spec1.derive_states) == derives_of(spec2.derive_states),
        derives_of(spec1.derive_events) == derives_of(spec2.derive_events),
{
    let ts1 = spec1.transitions@;
    let ts2 = spec2.transitions@;
    let v1 = spec_view(spec1);
    let v2 = spec_view(spec2);
    assert(ts1.len() == v1.rules.len());
    assert(ts2.len() == v2.rules.len());
    assert forall|i: int| 0 <= i < ts1.len() implies rule_view(#[trigger] ts1[i]) == rule_view(ts2[i]) by {
        assert(v1.rules[i] == rule_view(ts1[i]));
        assert(v2.rules[i] == rule_view(ts2[i]));
    }
    lemma_mentions_agree(ts1, ts2);
    assert(v1.derive_states == v2.derive_states);
    assert(v1.derive_events == v2.derive_events);
}

/// Descriptions that read the same are both free of duplicates or both not,
/// and report the same first duplicate.
pub proof fn lemma_duplicates_agree(ts1: Seq<Transition>, ts2: Seq<Transition>)
    requires
        same_rules(ts1, ts2),
    ensures
        no_duplicate_pairs(ts1) == no_duplicate_pairs(ts2),
        forall|st: Seq<u8>, ev: Seq<u8>| first_duplicate(ts1, st, ev) == first_duplicate(ts2, st, ev),
{
    assert forall|i: int| 0 <= i < ts1.len() implies concrete_sources(#[trigger] ts1[i]) == concrete_sources(ts2[i])
        && event_names(ts1[i]) == event_names(ts2[i]) by {
        assert(rule_view(ts1[i]) == rule_view(ts2[i]));
    }
    assert forall|i: int, a: int, b: int| slot_ok(ts1, i, a, b) == slot_ok(ts2, i, a, b) by {
        if 0 <= i < ts1.len() {
            assert(concrete_sources(ts1[i]) == concrete_sources(ts2[i]));
        }
    }
    assert forall|i: int, a: int, b: int| #[trigger] slot_ok(ts1, i, a, b) implies src_at(ts1, i, a) == src_at(ts2, i, a)
        && ev_at(ts1, i, b) == ev_at(ts2, i, b) by {
        assert(concrete_sources(ts1[i]) == concrete_sources(ts2[i]));
        assert(event_names(ts1[i]) == event_names(ts2[i]));
    }
    assert forall|j: int, c: int, d: int| #[trigger] slot_ok(ts1, j, c, d) implies repeats_earlier(ts1, j, c, d)
        == repeats_earlier(ts2, j, c, d) by {
        if repeats_earlier(ts1, j, c, d) {
            let (i, a, b) = choose|i: int, a: int, b: int| #[trigger] slot_ok(ts1, i, a, b) && slot_lt(i, a, b, j, c, d)
                && src_at(ts1, i, a) == src_at(ts1, j, c) && ev_at(ts1, i, b) == ev_at(ts1, j, d);
            assert(slot_ok(ts2, i, a, b));
        }
        if repeats_earlier(ts2, j, c, d) {
            let (i, a, b) = choose|i: int, a: int, b: int| #[trigger] slot_ok(ts2, i, a, b) && slot_lt(i, a, b, j, c, d)
                && src_at(ts2, i, a) == src_at(ts2, j, c) && ev_at(ts2, i, b) == ev_at(ts2, j, d);
            assert(slot_ok(ts1, i, a, b));
        }
    }
    assert forall|st: Seq<u8>, ev: Seq<u8>| first_duplicate(ts1, st, ev) == first_duplicate(ts2, st, ev) by {
        if first_duplicate(ts1, st, ev) {
            let (j, c, d) = choose|j: int, c: int, d: int| #[trigger] slot_ok(ts1, j, c, d) && repeats_earlier(ts1, j, c, d)
                && src_at(ts1, j, c) == st && ev_at(ts1, j, d) == ev && forall|i: int, a: int, b: int|
                #[trigger] slot_ok(ts1, i, a, b) && slot_lt(i, a, b, j, c, d) ==> !repeats_earlier(ts1, i, a, b);
            assert(slot_ok(ts2, j, c, d));
            assert forall|i: int, a: int, b: int| #[trigger] slot_ok(ts2, i, a, b) && slot_lt(i, a, b, j, c, d)
                implies !repeats_earlier(ts2, i, a, b) by {
                assert(slot_ok(ts1, i, a, b));
            }
        }
        if first_duplicate(ts2, st, ev) {
            let (j, c, d) = choose|j: int, c: int, d: int| #[trigger] slot_ok(ts2, j, c, d) && repeats_earlier(ts2, j, c, d)
                && src_at(ts2, j, c) == st && ev_at(ts2, j, d) == ev && forall|i: int, a: int, b: int|
                #[trigger] slot_ok(ts2, i, a, b) && slot_lt(i, a, b, j, c, d) ==> !repeats_earlier(ts2, i, a, b);
            assert(slot_ok(ts1, j, c, d));
            assert forall|i: int, a: int, b: int| #[trigger] slot_ok(ts1, i, a, b) && slot_lt(i, a, b, j, c, d)
                implies !repeats_earlier(ts1, i, a, b) by {
                assert(slot_ok(ts2, i, a, b));
            }
        }
    }
    if no_duplicate_pairs(ts1) {
        assert forall|j: int, c: int, d: int| #[trigger] slot_ok(ts2, j, c, d) implies !repeats_earlier(ts2, j, c, d) by {
            assert(slot_ok(ts1, j, c, d));
        }
    }
    if no_duplicate_pairs(ts2) {
        assert forall|j: int, c: int, d: int| #[trigger] slot_ok(ts1, j, c, d) implies !repeats_earlier(ts1, j, c, d) by {
            assert(slot_ok(ts2, j, c, d));
        }
    }
}

/// At most one pair is the first repeated one.
pub proof fn lemma_first_duplicate_unique(ts: Seq<Transition>, s1: Seq<u8>, e1: Seq<u8>, s2: Seq<u8>, e2: Seq<u8>)
    requires
        first_duplicate(ts, s1, e1),
        first_duplicate(ts, s2, e2),
    ensures
        s1 == s2 && e1 == e2,
{
    let (j, c, d) = choose|j: int, c: int, d: int| #[trigger] slot_ok(ts, j, c, d) && repeats_earlier(ts, j, c, d)
        && src_at(ts, j, c) == s1 && ev_at(ts, j, d) == e1 && forall|i: int, a: int, b: int|
        #[trigger] slot_ok(ts, i, a, b) && slot_lt(i, a, b, j, c, d) ==> !repeats_earlier(ts, i, a, b);
    let (x, y, z) = choose|j: int, c: int, d: int| #[trigger] slot_ok(ts, j, c, d) && repeats_earlier(ts, j, c, d)
        && src_at(ts, j, c) == s2 && ev_at(ts, j, d) == e2 && forall|i: int, a: int, b: int|
        #[trigger] slot_ok(ts, i, a, b) && slot_lt(i, a, b, j, c, d) ==> !repeats_earlier(ts, i, a, b);
    if slot_lt(j, c, d, x, y, z) {
        assert(slot_ok(ts, j, c, d));
    } else if slot_lt(x, y, z, j, c, d) {
        assert(slot_ok(ts, x, y, z));
    }
}

/// Two pipeline outcomes are the same: equal errors, or machines with the
/// same tables that generate byte-identical source.
pub open spec fn same_outcome(r1: Result<Machine, DslError>, r2: Result<Machine, DslError>) -> bool {
    match (r1, r2) {
        (Err(e1), Err(e2)) => err_view(e1) == err_view(e2),
        (Ok(m1), Ok(m2)) => {
            &&& names_view(m1.states@) == names_view(m2.states@)
            &&& names_view(m1.events@) == names_view(m2.events@)
            &&& m1.initial@ == m2.initial@
            &&& emitted(m1) == emitted(m2)
        },
        _ => false,
    }
}

/// Running the pipeline twice on byte-identical input gives the same
/// outcome, and so byte-identical generated source.
pub proof fn lemma_pipeline_deterministic(s: Seq<u8>, r1: Result<Machine, DslError>, r2: Result<Machine, DslError>)
    requires
        pipeline_result(s, r1),
        pipeline_result(s, r2),
    ensures
        same_outcome(r1, r2),
{
    if let Ok(toks) = lex_from(s, 0) {
        if let Ok(v) = p_machine(toks, s) {
            let sm1 = choose|sm: StateMachineSpec| spec_view(sm) == v && compile_result(sm, r1);
            let sm2 = choose|sm: StateMachineSpec| spec_view(sm) == v && compile_result(sm, r2);
            lemma_views_agree(sm1, sm2);
            lemma_duplicates_agree(sm1.transitions@, sm2.transitions@);
            match (r1, r2) {
                (Ok(m1), Ok(m2)) => {
                    lemma_compile_deterministic(m1, sm1, m2, sm2);
                    lemma_emit_deterministic(m1, sm1, m2, sm2);
                },
                (Err(e1), Err(e2)) => {
                    if let (DslError::DuplicateTransition { state: a, event: b }, DslError::DuplicateTransition { state: c, event: d }) = (e1, e2) {
                        assert(first_duplicate(sm1.transitions@, c@, d@));
                        lemma_first_duplicate_unique(sm1.transitions@, a@, b@, c@, d@);
                    }
                },
                _ => {},
            }
        }
    }
}

} // verus!
