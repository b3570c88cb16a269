use vstd::prelude::*;
use crate::ast::{concrete_sources, copy_bytes, event_names, DslError, StatePattern, Transition};
use crate::compile::{lemma_named_states_known, lookup};
use crate::model::{
    build_events, build_states, entry_names, event_mentions, lemma_dedup_distinct, mentions, names_view,
};
use std::collections::BTreeSet;

verus! {

/// `(i, a, b)` names source `a` and event `b` of rule `i`.
pub open spec fn slot_ok(ts: Seq<Transition>, i: int, a: int, b: int) -> bool {
    &&& 0 <= i < ts.len()
    &&& 0 <= a < concrete_sources(ts[i]).len()
    &&& 0 <= b < event_names(ts[i]).len()
}

/// Declaration order of slots: by rule, then source, then event.
pub open spec fn slot_lt(i: int, a: int, b: int, j: int, c: int, d: int) -> bool {
    i < j || (i == j && (a < c || (a == c && b < d)))
}

pub open spec fn src_at(ts: Seq<Transition>, i: int, a: int) -> Seq<u8> {
    concrete_sources(ts[i])[a]
}

pub open spec fn ev_at(ts: Seq<Transition>, i: int, b: int) -> Seq<u8> {
    event_names(ts[i])[b]
}

/// Some earlier slot declares the same (state, event) pair as slot `(j, c, d)`.
pub open spec fn repeats_earlier(ts: Seq<Transition>, j: int, c: int, d: int) -> bool {
    exists|i: int, a: int, b: int|
        #[trigger] slot_ok(ts, i, a, b) && slot_lt(i, a, b, j, c, d) && src_at(ts, i, a) == src_at(ts, j, c)
            && ev_at(ts, i, b) == ev_at(ts, j, d)
}

/// No (concrete state, event) pair is declared twice; wildcard rules are exempt.
pub open spec fn no_duplicate_pairs(ts: Seq<Transition>) -> bool {
    forall|j: int, c: int, d: int| #[trigger] slot_ok(ts, j, c, d) ==> !repeats_earlier(ts, j, c, d)
}

/// `(state, event)` is the pair of the first slot that repeats an earlier one.
pub open spec fn first_duplicate(ts: Seq<Transition>, state: Seq<u8>, event: Seq<u8>) -> bool {
    exists|j: int, c: int, d: int|
        #[trigger] slot_ok(ts, j, c, d) && repeats_earlier(ts, j, c, d) && src_at(ts, j, c) == state
            && ev_at(ts, j, d) == event && forall|i: int, a: int, b: int|
            #[trigger] slot_ok(ts, i, a, b) && slot_lt(i, a, b, j, c, d) ==> !repeats_earlier(ts, i, a, b)
}

/// The concrete source states of a pattern, as owned byte strings.
pub(crate) fn source_list(p: &StatePattern) -> (r: Vec<Vec<u8>>)
    ensures
        forall|t: Transition| t.source == *p ==> names_view(r@) == concrete_sources(t),
{
    let mut r: Vec<Vec<u8>> = Vec::new();
    match p {
        StatePattern::Single { state, .. } => {
            r.push(copy_bytes(state.as_slice()));
            assert(names_view(r@) =~= seq![state@]);
        },
        StatePattern::Multiple { states } => {
            let mut k: usize = 0;
            while k < states.len()
                invariant
                    k <= states@.len(),
                    names_view(r@) == states@.take(k as int).map_values(|x: (Vec<u8>, bool)| x.0@),
                decreases states@.len() - k,
            {
                r.push(copy_bytes(states[k].0.as_slice()));
                proof {
                    assert(states@.take(k + 1).map_values(|x: (Vec<u8>, bool)| x.0@)
                        =~= states@.take(k as int).map_values(|x: (Vec<u8>, bool)| x.0@).push(states@[k as int].0@));
                }
                k = k + 1;
            }
            assert(states@.take(k as int) =~= states@);
        },
        StatePattern::Wildcard => {},
    }
    r
}

/// The position of `x` in a table of distinct names.
pub open spec fn pos_of(tab: Seq<Seq<u8>>, x: Seq<u8>) -> usize {
    (choose|k: int| 0 <= k < tab.len() && tab[k] == x) as usize
}

proof fn lemma_pos_of(tab: Seq<Seq<u8>>, k: int)
    requires
        tab.no_duplicates(),
        0 <= k < tab.len(),
        k <= usize::MAX,
    ensures
        pos_of(tab, tab[k]) == k,
{
    let j = choose|j: int| 0 <= j < tab.len() && tab[j] == tab[k];
}

/// What the scan knows once every slot before `(i, a, b)` is done: `seen`
/// holds the (state, event) index pairs of those slots, `wit` names a slot
/// for each, and none of them repeats an earlier one.
pub open spec fn scan_ok(
    ts: Seq<Transition>,
    states: Seq<Seq<u8>>,
    events: Seq<Seq<u8>>,
    seen: Set<(usize, usize)>,
    wit: Map<(usize, usize), (int, int, int)>,
    i: int,
    a: int,
    b: int,
) -> bool {
    &&& wit.dom() == seen
    &&& forall|p: (usize, usize)|
        #[trigger] seen.contains(p) ==> {
            let w = wit[p];
            &&& p.0 < states.len()
            &&& p.1 < events.len()
            &&& slot_ok(ts, w.0, w.1, w.2)
            &&& slot_lt(w.0, w.1, w.2, i, a, b)
            &&& src_at(ts, w.0, w.1) == states[p.0 as int]
            &&& ev_at(ts, w.0, w.2) == events[p.1 as int]
        }
    &&& forall|x: int, y: int, z: int|
        #[trigger] slot_ok(ts, x, y, z) && slot_lt(x, y, z, i, a, b) ==> seen.contains(
            (pos_of(states, src_at(ts, x, y)), pos_of(events, ev_at(ts, x, z))),
        )
    &&& forall|x: int, y: int, z: int|
        #[trigger] slot_ok(ts, x, y, z) && slot_lt(x, y, z, i, a, b) ==> !repeats_earlier(ts, x, y, z)
}

/// Rejects a rule list that declares some (concrete state, event) pair
/// twice, naming the first pair, in declaration order, that repeats.
/// Wildcard rules take no part: they are ordered, not unique. Names are
/// replaced by their table positions and the pairs kept in an ordered set.
#[verifier::loop_isolation(false)]
pub fn validate_no_duplicate_transitions(ts: &Vec<Transition>) -> (r: Result<(), DslError>)
    ensures
        r is Ok <==> no_duplicate_pairs(ts@),
        r matches Err(e) ==> e matches DslError::DuplicateTransition { state, event } && first_duplicate(
            ts@,
            state@,
            event@,
        ),
{
    broadcast use vstd::laws_cmp::group_laws_cmp;

    let states = build_states(ts);
    let events = build_events(ts);
    let ghost sv = names_view(states@);
    let ghost ev = names_view(events@);
    proof {
        lemma_dedup_distinct(entry_names(mentions(ts@)));
        lemma_dedup_distinct(event_mentions(ts@));
    }
    let mut seen: BTreeSet<(usize, usize)> = BTreeSet::new();
    let ghost mut wit: Map<(usize, usize), (int, int, int)> = Map::empty();
    assert(wit.dom() =~= seen@);
    let mut i: usize = 0;
    while i < ts.len()
        invariant
            i <= ts@.len(),
            scan_ok(ts@, sv, ev, seen@, wit, i as int, 0, 0),
        decreases ts@.len() - i,
    {
        let t = &ts[i];
        proof {
            lemma_named_states_known(ts@, i as int);
        }
        let srcs = source_list(&t.source);
        assert(names_view(srcs@) == concrete_sources(ts@[i as int]));
        let mut a: usize = 0;
        while a < srcs.len()
            invariant
                a <= srcs@.len(),
                scan_ok(ts@, sv, ev, seen@, wit, i as int, a as int, 0),
            decreases srcs@.len() - a,
        {
            assert(srcs@[a as int]@ == concrete_sources(ts@[i as int])[a as int]);
            let si = lookup(&states, srcs[a].as_slice());
            let mut b: usize = 0;
            while b < t.events.len()
                invariant
                    b <= t.events@.len(),
                    scan_ok(ts@, sv, ev, seen@, wit, i as int, a as int, b as int),
                decreases t.events@.len() - b,
            {
                assert(t.events@[b as int]@ == event_names(ts@[i as int])[b as int]);
                let ei = lookup(&events, t.events[b].as_slice());
                let ghost cur = (i as int, a as int, b as int);
                let ghost key = (si, ei);
                let ghost before = seen@;
                proof {
                    assert(slot_ok(ts@, i as int, a as int, b as int));
                    assert(sv[si as int] == src_at(ts@, i as int, a as int));
                    assert(ev[ei as int] == ev_at(ts@, i as int, b as int));
                    lemma_pos_of(sv, si as int);
                    lemma_pos_of(ev, ei as int);
                }
                if !seen.insert((si, ei)) {
                    proof {
                        let w = wit[key];
                        assert(before.contains(key));
                        assert(slot_ok(ts@, w.0, w.1, w.2));
                        assert(repeats_earlier(ts@, i as int, a as int, b as int));
                    }
                    return Err(
                        DslError::DuplicateTransition {
                            state: copy_bytes(srcs[a].as_slice()),
                            event: copy_bytes(t.events[b].as_slice()),
                        },
                    );
                }
                proof {
                    if repeats_earlier(ts@, i as int, a as int, b as int) {
                        let (x, y, z) = choose|x: int, y: int, z: int|
                            #[trigger] slot_ok(ts@, x, y, z) && slot_lt(x, y, z, i as int, a as int, b as int)
                                && src_at(ts@, x, y) == src_at(ts@, i as int, a as int) && ev_at(ts@, x, z)
                                == ev_at(ts@, i as int, b as int);
                        assert(before.contains(key));
                    }
                    wit = wit.insert(key, cur);
                    assert(wit.dom() =~= seen@);
                    assert forall|p: (usize, usize)| #[trigger] seen@.contains(p) implies {
                        let w = wit[p];
                        &&& p.0 < sv.len()
                        &&& p.1 < ev.len()
                        &&& slot_ok(ts@, w.0, w.1, w.2)
                        &&& slot_lt(w.0, w.1, w.2, i as int, a as int, b + 1)
                        &&& src_at(ts@, w.0, w.1) == sv[p.0 as int]
                        &&& ev_at(ts@, w.0, w.2) == ev[p.1 as int]
                    } by {
                        if p != key {
                            assert(before.contains(p));
                        }
                    }
                }
                b = b + 1;
            }
            proof {
                assert forall|x: int, y: int, z: int|
                    #[trigger] slot_ok(ts@, x, y, z) && slot_lt(x, y, z, i as int, a + 1, 0)
                    implies slot_lt(x, y, z, i as int, a as int, b as int) by {}
                assert forall|p: (usize, usize)| #[trigger] seen@.contains(p) implies slot_lt(
                    wit[p].0, wit[p].1, wit[p].2, i as int, a + 1, 0) by {
                    assert(slot_ok(ts@, wit[p].0, wit[p].1, wit[p].2));
                }
            }
            a = a + 1;
        }
        proof {
            assert forall|x: int, y: int, z: int|
                #[trigger] slot_ok(ts@, x, y, z) && slot_lt(x, y, z, i + 1, 0, 0)
                implies slot_lt(x, y, z, i as int, a as int, 0) by {}
        }
        i = i + 1;
    }
    Ok(())
}

} // verus!
