use vstd::prelude::*;
use crate::ast::{
    bytes_eq, copy_bytes, event_names, pattern_entries, target_name, StatePattern, TargetState, Transition,
};

use crate::emit::{lit, lit_vec};

verus! {

/// Every state that a rule names, in order: its sources with their `*`
/// marks, then its named target, unmarked.
pub open spec fn transition_mentions(t: Transition) -> Seq<(Seq<u8>, bool)> {
    pattern_entries(t.source) + match target_name(t) {
        Some(n) => seq![(n, false)],
        None => Seq::empty(),
    }
}

pub open spec fn mentions(ts: Seq<Transition>) -> Seq<(Seq<u8>, bool)>
    decreases ts.len(),
{
    if ts.len() == 0 {
        Seq::empty()
    } else {
        mentions(ts.drop_last()) + transition_mentions(ts.last())
    }
}

pub open spec fn event_mentions(ts: Seq<Transition>) -> Seq<Seq<u8>>
    decreases ts.len(),
{
    if ts.len() == 0 {
        Seq::empty()
    } else {
        event_mentions(ts.drop_last()) + event_names(ts.last())
    }
}

/// The distinct elements of `s` in order of first occurrence.
pub open spec fn dedup(s: Seq<Seq<u8>>) -> Seq<Seq<u8>>
    decreases s.len(),
{
    if s.len() == 0 {
        Seq::empty()
    } else {
        let d = dedup(s.drop_last());
        if d.contains(s.last()) {
            d
        } else {
            d.push(s.last())
        }
    }
}

/// The first name in `m` that carries a `*` mark.
pub open spec fn first_marked(m: Seq<(Seq<u8>, bool)>) -> Option<Seq<u8>>
    decreases m.len(),
{
    if m.len() == 0 {
        None
    } else {
        match first_marked(m.drop_last()) {
            Some(x) => Some(x),
            None => if m.last().1 {
                Some(m.last().0)
            } else {
                None
            },
        }
    }
}

/// The canonical state table of a rule list.
pub open spec fn states_of(ts: Seq<Transition>) -> Seq<Seq<u8>> {
    dedup(mentions(ts).map_values(|x: (Seq<u8>, bool)| x.0))
}

/// The canonical event table of a rule list.
pub open spec fn events_of(ts: Seq<Transition>) -> Seq<Seq<u8>> {
    dedup(event_mentions(ts))
}

/// The name used for the initial state when no state exists at all.
pub open spec fn placeholder_initial() -> Seq<u8> {
    lit("Initial")
}

/// The initial state: the first `*`-marked state, else the first state,
/// else the placeholder.
pub open spec fn initial_of(ts: Seq<Transition>) -> Seq<u8> {
    match first_marked(mentions(ts)) {
        Some(x) => x,
        None => if states_of(ts).len() > 0 {
            states_of(ts)[0]
        } else {
            placeholder_initial()
        },
    }
}

pub proof fn lemma_dedup_contains(s: Seq<Seq<u8>>, x: Seq<u8>)
    ensures
        dedup(s).contains(x) <==> s.contains(x),
    decreases s.len(),
{
    if s.len() > 0 {
        lemma_dedup_contains(s.drop_last(), x);
        let d = dedup(s.drop_last());
        if s.contains(x) && x != s.last() {
            let k = choose|k: int| 0 <= k < s.len() && s[k] == x;
            assert(s.drop_last()[k] == x);
        }
        if s.drop_last().contains(x) {
            let k = choose|k: int| 0 <= k < s.drop_last().len() && s.drop_last()[k] == x;
            assert(s[k] == x);
        }
        if !d.contains(s.last()) {
            assert(d.push(s.last()).last() == s.last());
            if d.push(s.last()).contains(x) && x != s.last() {
                let k = choose|k: int| 0 <= k < d.len() + 1 && d.push(s.last())[k] == x;
                assert(d[k] == x);
            }
            if d.contains(x) {
                let k = choose|k: int| 0 <= k < d.len() && d[k] == x;
                assert(d.push(s.last())[k] == x);
            }
        }
        assert(s[s.len() - 1] == s.last());
    }
}

pub proof fn lemma_dedup_distinct(s: Seq<Seq<u8>>)
    ensures
        dedup(s).no_duplicates(),
    decreases s.len(),
{
    if s.len() > 0 {
        lemma_dedup_distinct(s.drop_last());
    }
}

/// Adds `x` to `acc` unless it is there already.
fn push_distinct(acc: &mut Vec<Vec<u8>>, x: &[u8])
    ensures
        final(acc)@.map_values(|v: Vec<u8>| v@) == if old(acc)@.map_values(|v: Vec<u8>| v@).contains(x@) {
            old(acc)@.map_values(|v: Vec<u8>| v@)
        } else {
            old(acc)@.map_values(|v: Vec<u8>| v@).push(x@)
        },
{
    let ghost before = acc@.map_values(|v: Vec<u8>| v@);
    let mut i: usize = 0;
    while i < acc.len()
        invariant
            i <= acc@.len(),
            acc@.map_values(|v: Vec<u8>| v@) == before,
            forall|k: int| 0 <= k < i ==> before[k] != x@,
        decreases acc@.len() - i,
    {
        if bytes_eq(acc[i].as_slice(), x) {
            assert(before[i as int] == x@);
            return;
        }
        i = i + 1;
    }
    acc.push(copy_bytes(x));
    assert(acc@.map_values(|v: Vec<u8>| v@) =~= before.push(x@));
}

pub open spec fn names_view(v: Seq<Vec<u8>>) -> Seq<Seq<u8>> {
    v.map_values(|x: Vec<u8>| x@)
}

pub open spec fn entry_names(m: Seq<(Seq<u8>, bool)>) -> Seq<Seq<u8>> {
    m.map_values(|x: (Seq<u8>, bool)| x.0)
}

proof fn lemma_dedup_push(s: Seq<Seq<u8>>, x: Seq<u8>)
    ensures
        dedup(s.push(x)) == if dedup(s).contains(x) {
            dedup(s)
        } else {
            dedup(s).push(x)
        },
{
    assert(s.push(x).drop_last() =~= s);
}

proof fn lemma_first_marked_concat(a: Seq<(Seq<u8>, bool)>, b: Seq<(Seq<u8>, bool)>)
    ensures
        first_marked(a + b) == match first_marked(a) {
            Some(x) => Some(x),
            None => first_marked(b),
        },
    decreases b.len(),
{
    if b.len() == 0 {
        assert(a + b =~= a);
    } else {
        assert((a + b).drop_last() =~= a + b.drop_last());
        lemma_first_marked_concat(a, b.drop_last());
    }
}

proof fn lemma_mentions_concat(a: Seq<Transition>, b: Seq<Transition>)
    ensures
        mentions(a + b) == mentions(a) + mentions(b),
    decreases b.len(),
{
    if b.len() == 0 {
        assert(a + b =~= a);
        assert(mentions(a) + mentions(b) =~= mentions(a));
    } else {
        assert((a + b).drop_last() =~= a + b.drop_last());
        lemma_mentions_concat(a, b.drop_last());
        assert(mentions(a + b) =~= mentions(a) + mentions(b));
    }
}

proof fn lemma_mentions_step(ts: Seq<Transition>, i: int)
    requires
        0 <= i < ts.len(),
    ensures
        mentions(ts.take(i + 1)) == mentions(ts.take(i)) + transition_mentions(ts[i]),
        event_mentions(ts.take(i + 1)) == event_mentions(ts.take(i)) + event_names(ts[i]),
{
    assert(ts.take(i + 1).drop_last() =~= ts.take(i));
}

/// Builds the canonical state table.
pub fn build_states(ts: &Vec<Transition>) -> (r: Vec<Vec<u8>>)
    ensures
        names_view(r@) == states_of(ts@),
{
    let mut acc: Vec<Vec<u8>> = Vec::new();
    let mut i: usize = 0;
    while i < ts.len()
        invariant
            i <= ts@.len(),
            names_view(acc@) == dedup(entry_names(mentions(ts@.take(i as int)))),
        decreases ts@.len() - i,
    {
        let t = &ts[i];
        let ghost seen = entry_names(mentions(ts@.take(i as int)));
        let ghost start = seen;
        match &t.source {
            StatePattern::Single { state, .. } => {
                proof { lemma_dedup_push(seen, state@); }
                push_distinct(&mut acc, state.as_slice());
                proof { seen = seen.push(state@); }
            },
            StatePattern::Multiple { states } => {
                let mut k: usize = 0;
                while k < states.len()
                    invariant
                        k <= states@.len(),
                        seen == start + states@.take(k as int).map_values(|x: (Vec<u8>, bool)| x.0@),
                        names_view(acc@) == dedup(seen),
                    decreases states@.len() - k,
                {
                    proof { lemma_dedup_push(seen, states@[k as int].0@); }
                    push_distinct(&mut acc, states[k].0.as_slice());
                    proof {
                        seen = seen.push(states@[k as int].0@);
                        assert(states@.take(k + 1).map_values(|x: (Vec<u8>, bool)| x.0@)
                            =~= states@.take(k as int).map_values(|x: (Vec<u8>, bool)| x.0@).push(states@[k as int].0@));
                    }
                    k = k + 1;
                }
                assert(states@.take(k as int) =~= states@);
            },
            StatePattern::Wildcard => {},
        }
        assert(seen =~= start + entry_names(pattern_entries(t.source)));
        match &t.target {
            TargetState::State(n) => {
                proof { lemma_dedup_push(seen, n@); }
                push_distinct(&mut acc, n.as_slice());
                proof { seen = seen.push(n@); }
            },
            TargetState::Internal => {},
        }
        proof {
            lemma_mentions_step(ts@, i as int);
            assert(entry_names(mentions(ts@.take(i + 1))) =~= seen);
        }
        i = i + 1;
    }
    assert(ts@.take(i as int) =~= ts@);
    acc
}

/// Builds the canonical event table.
pub fn build_events(ts: &Vec<Transition>) -> (r: Vec<Vec<u8>>)
    ensures
        names_view(r@) == events_of(ts@),
{
    let mut acc: Vec<Vec<u8>> = Vec::new();
    let mut i: usize = 0;
    while i < ts.len()
        invariant
            i <= ts@.len(),
            names_view(acc@) == dedup(event_mentions(ts@.take(i as int))),
        decreases ts@.len() - i,
    {
        let t = &ts[i];
        let ghost start = event_mentions(ts@.take(i as int));
        let ghost seen = start;
        let mut k: usize = 0;
        while k < t.events.len()
            invariant
                k <= t.events@.len(),
                seen == start + t.events@.take(k as int).map_values(|e: Vec<u8>| e@),
                names_view(acc@) == dedup(seen),
            decreases t.events@.len() - k,
        {
            proof { lemma_dedup_push(seen, t.events@[k as int]@); }
            push_distinct(&mut acc, t.events[k].as_slice());
            proof {
                seen = seen.push(t.events@[k as int]@);
                assert(t.events@.take(k + 1).map_values(|e: Vec<u8>| e@)
                    =~= t.events@.take(k as int).map_values(|e: Vec<u8>| e@).push(t.events@[k as int]@));
            }
            k = k + 1;
        }
        proof {
            assert(t.events@.take(k as int) =~= t.events@);
            lemma_mentions_step(ts@, i as int);
            assert(event_mentions(ts@.take(i + 1)) =~= seen);
        }
        i = i + 1;
    }
    assert(ts@.take(i as int) =~= ts@);
    acc
}

/// The first `*`-marked state of one pattern.
fn pattern_marked(p: &StatePattern) -> (r: Option<Vec<u8>>)
    ensures
        r matches Some(v) ==> first_marked(pattern_entries(*p)) == Some(v@),
        r is None ==> first_marked(pattern_entries(*p)) is None,
{
    match p {
        StatePattern::Single { state, initial } => {
            proof {
                let e = seq![(state@, *initial)];
                assert(e.drop_last() =~= Seq::<(Seq<u8>, bool)>::empty());
                assert(first_marked(e.drop_last()) is None);
                assert(e.last() == (state@, *initial));
            }
            if *initial {
                Some(copy_bytes(state.as_slice()))
            } else {
                None
            }
        },
        StatePattern::Multiple { states } => {
            let ghost ents = pattern_entries(*p);
            let mut k: usize = 0;
            while k < states.len()
                invariant
                    k <= states@.len(),
                    ents == states@.map_values(|x: (Vec<u8>, bool)| (x.0@, x.1)),
                    ents == pattern_entries(*p),
                    first_marked(ents.take(k as int)) is None,
                decreases states@.len() - k,
            {
                assert(ents.take(k + 1).drop_last() =~= ents.take(k as int));
                if states[k].1 {
                    proof {
                        assert(ents.take(k + 1).last() == ents[k as int]);
                        assert(first_marked(ents.take(k + 1)) == Some(states@[k as int].0@));
                        lemma_first_marked_concat(ents.take(k + 1), ents.skip(k + 1));
                        assert(ents.take(k + 1) + ents.skip(k + 1) =~= ents);
                    }
                    return Some(copy_bytes(states[k].0.as_slice()));
                }
                k = k + 1;
            }
            assert(ents.take(k as int) =~= ents);
            None
        },
        StatePattern::Wildcard => None,
    }
}

/// Resolves the initial state.
pub fn build_initial(ts: &Vec<Transition>, states: &Vec<Vec<u8>>) -> (r: Vec<u8>)
    requires
        names_view(states@) == states_of(ts@),
    ensures
        r@ == initial_of(ts@),
{
    let mut i: usize = 0;
    while i < ts.len()
        invariant
            i <= ts@.len(),
            first_marked(mentions(ts@.take(i as int))) is None,
        decreases ts@.len() - i,
    {
        let found = pattern_marked(&ts[i].source);
        proof {
            lemma_mentions_step(ts@, i as int);
            let t = ts@[i as int];
            let tail = match target_name(t) {
                Some(n) => seq![(n, false)],
                None => Seq::<(Seq<u8>, bool)>::empty(),
            };
            lemma_first_marked_concat(pattern_entries(t.source), tail);
            if tail.len() > 0 {
                assert(tail.drop_last() =~= Seq::<(Seq<u8>, bool)>::empty());
                assert(first_marked(tail.drop_last()) is None);
                assert(!tail.last().1);
            }
            assert(first_marked(tail) is None);
            assert(transition_mentions(t) == pattern_entries(t.source) + tail);
            lemma_first_marked_concat(mentions(ts@.take(i as int)), transition_mentions(t));
            assert(ts@.take(i as int).push(t) =~= ts@.take(i + 1));
        }
        if let Some(v) = found {
            proof {
                lemma_mentions_concat(ts@.take(i + 1), ts@.skip(i + 1));
                assert(ts@.take(i + 1) + ts@.skip(i + 1) =~= ts@);
                lemma_first_marked_concat(mentions(ts@.take(i + 1)), mentions(ts@.skip(i + 1)));
            }
            return v;
        }
        i = i + 1;
    }
    assert(ts@.take(i as int) =~= ts@);
    if states.len() > 0 {
        copy_bytes(states[0].as_slice())
    } else {
        proof {
            reveal_strlit("Initial");
        }
        lit_vec("Initial")
    }
}

/// The first position of `name` in `table`.
pub(crate) fn find_name(table: &Vec<Vec<u8>>, name: &[u8]) -> (r: Option<usize>)
    ensures
        r matches Some(k) ==> k < table@.len() && table@[k as int]@ == name@ && forall|j: int|
            0 <= j < k ==> table@[j]@ != name@,
        r is None ==> !names_view(table@).contains(name@),
{
    let mut k: usize = 0;
    while k < table.len()
        invariant
            k <= table@.len(),
            forall|j: int| 0 <= j < k ==> table@[j]@ != name@,
        decreases table@.len() - k,
    {
        if bytes_eq(table[k].as_slice(), name) {
            return Some(k);
        }
        k = k + 1;
    }
    proof {
        if names_view(table@).contains(name@) {
            let j = choose|j: int| 0 <= j < table@.len() && names_view(table@)[j] == name@;
            assert(table@[j]@ == name@);
        }
    }
    None
}

} // verus!
