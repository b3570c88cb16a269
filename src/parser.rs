use vstd::prelude::*;
use crate::ast::{
    bytes_eq, event_names, is_wildcard, pattern_entries, target_name, DslError, StateMachineSpec,
    StatePattern, TargetState, Transition,
};
use crate::compile::name_view;
use crate::emit::{lit, lit_vec};
use crate::lexer::{Token, TokenKind};
use crate::model::names_view;

verus! {

/// What an error says, as plain values.
pub enum ErrView {
    InvalidCharacter(usize),
    UnexpectedToken(int),
    UnexpectedEnd,
    MissingTransitionsBlock,
    UnknownClause(Seq<u8>),
    DuplicateTransition(Seq<u8>, Seq<u8>),
}

pub open spec fn err_view(e: DslError) -> ErrView {
    match e {
        DslError::InvalidCharacter { pos } => ErrView::InvalidCharacter(pos),
        DslError::UnexpectedToken { pos } => ErrView::UnexpectedToken(pos as int),
        DslError::UnexpectedEnd => ErrView::UnexpectedEnd,
        DslError::MissingTransitionsBlock => ErrView::MissingTransitionsBlock,
        DslError::UnknownClause { name } => ErrView::UnknownClause(name@),
        DslError::DuplicateTransition { state, event } => ErrView::DuplicateTransition(state@, event@),
    }
}

/// A rule as plain values.
pub struct RuleView {
    pub wildcard: bool,
    /// The pattern names exactly one state (and is held as `Single`).
    pub single: bool,
    pub entries: Seq<(Seq<u8>, bool)>,
    pub events: Seq<Seq<u8>>,
    pub target: Option<Seq<u8>>,
}

/// A whole description as plain values.
pub struct SpecView {
    pub name: Option<Seq<u8>>,
    pub derive_states: Option<Seq<Seq<u8>>>,
    pub derive_events: Option<Seq<Seq<u8>>>,
    pub rules: Seq<RuleView>,
}

pub open spec fn rule_view(t: Transition) -> RuleView {
    RuleView {
        wildcard: is_wildcard(t),
        single: t.source is Single,
        entries: pattern_entries(t.source),
        events: event_names(t),
        target: target_name(t),
    }
}

pub open spec fn list_view(d: Option<Vec<Vec<u8>>>) -> Option<Seq<Seq<u8>>> {
    match d {
        Some(v) => Some(names_view(v@)),
        None => None,
    }
}

pub open spec fn spec_view(m: StateMachineSpec) -> SpecView {
    SpecView {
        name: name_view(m.name),
        derive_states: list_view(m.derive_states),
        derive_events: list_view(m.derive_events),
        rules: m.transitions@.map_values(|t: Transition| rule_view(t)),
    }
}

pub open spec fn kind_at(t: Seq<Token>, p: int) -> Option<TokenKind> {
    if 0 <= p < t.len() {
        Some(t[p].kind)
    } else {
        None
    }
}

/// The error for a token other than the one expected at `p`.
pub open spec fn unexpected(t: Seq<Token>, p: int) -> ErrView {
    if 0 <= p < t.len() {
        ErrView::UnexpectedToken(t[p].start as int)
    } else {
        ErrView::UnexpectedEnd
    }
}

/// The text of token `p`.
pub open spec fn text(t: Seq<Token>, s: Seq<u8>, p: int) -> Seq<u8> {
    if 0 <= p < t.len() && t[p].start <= t[p].end <= s.len() {
        s.subrange(t[p].start as int, t[p].end as int)
    } else {
        Seq::empty()
    }
}

pub open spec fn is_ident(t: Seq<Token>, p: int) -> bool {
    kind_at(t, p) == Some(TokenKind::Ident)
}

/// One source state `*? Ident` at `p`.
pub open spec fn p_entry(t: Seq<Token>, s: Seq<u8>, p: int) -> Result<((Seq<u8>, bool), int), ErrView> {
    if kind_at(t, p) == Some(TokenKind::Star) {
        if is_ident(t, p + 1) {
            Ok(((text(t, s, p + 1), true), p + 2))
        } else {
            Err(unexpected(t, p + 1))
        }
    } else if is_ident(t, p) {
        Ok(((text(t, s, p), false), p + 1))
    } else {
        Err(unexpected(t, p))
    }
}

/// Further `| *? Ident` source states.
pub open spec fn p_more_entries(t: Seq<Token>, s: Seq<u8>, p: int, acc: Seq<(Seq<u8>, bool)>) -> Result<
    (Seq<(Seq<u8>, bool)>, int),
    ErrView,
>
    decreases t.len() - p,
{
    if kind_at(t, p) == Some(TokenKind::Pipe) {
        match p_entry(t, s, p + 1) {
            Ok((e, q)) => p_more_entries(t, s, q, acc.push(e)),
            Err(x) => Err(x),
        }
    } else {
        Ok((acc, p))
    }
}

/// A state pattern: `_`, or one or more `|`-joined source states.
pub open spec fn p_pattern(t: Seq<Token>, s: Seq<u8>, p: int) -> Result<(RuleView, int), ErrView> {
    if kind_at(t, p) == Some(TokenKind::Underscore) {
        Ok((RuleView { wildcard: true, single: false, entries: Seq::empty(), events: Seq::empty(), target: None }, p + 1))
    } else {
        match p_entry(t, s, p) {
            Ok((e, q)) => match p_more_entries(t, s, q, seq![e]) {
                Ok((es, r)) => Ok((RuleView { wildcard: false, single: es.len() == 1, entries: es, events: Seq::empty(), target: None }, r)),
                Err(x) => Err(x),
            },
            Err(x) => Err(x),
        }
    }
}

/// Further `| Ident` events; a `|` followed by `*` ends the list.
pub open spec fn p_more_events(t: Seq<Token>, s: Seq<u8>, p: int, acc: Seq<Seq<u8>>) -> Result<
    (Seq<Seq<u8>>, int),
    ErrView,
>
    decreases t.len() - p,
{
    if kind_at(t, p) == Some(TokenKind::Pipe) && kind_at(t, p + 1) != Some(TokenKind::Star) {
        if is_ident(t, p + 1) {
            p_more_events(t, s, p + 2, acc.push(text(t, s, p + 1)))
        } else {
            Err(unexpected(t, p + 1))
        }
    } else {
        Ok((acc, p))
    }
}

/// `= _`, `= Ident`, or nothing (which keeps the state).
pub open spec fn p_target(t: Seq<Token>, s: Seq<u8>, p: int) -> Result<(Option<Seq<u8>>, int), ErrView> {
    if kind_at(t, p) == Some(TokenKind::Equals) {
        if kind_at(t, p + 1) == Some(TokenKind::Underscore) {
            Ok((None, p + 2))
        } else if is_ident(t, p + 1) {
            Ok((Some(text(t, s, p + 1)), p + 2))
        } else {
            Err(unexpected(t, p + 1))
        }
    } else {
        Ok((None, p))
    }
}

/// One rule: `pattern + Ident (| Ident)* target`.
pub open spec fn p_rule(t: Seq<Token>, s: Seq<u8>, p: int) -> Result<(RuleView, int), ErrView> {
    match p_pattern(t, s, p) {
        Ok((pat, q)) => if kind_at(t, q) != Some(TokenKind::Plus) {
            Err(unexpected(t, q))
        } else if !is_ident(t, q + 1) {
            Err(unexpected(t, q + 1))
        } else {
            match p_more_events(t, s, q + 2, seq![text(t, s, q + 1)]) {
                Ok((evs, r)) => match p_target(t, s, r) {
                    Ok((tg, u)) => Ok((RuleView { events: evs, target: tg, ..pat }, u)),
                    Err(x) => Err(x),
                },
                Err(x) => Err(x),
            }
        },
        Err(x) => Err(x),
    }
}

/// Comma-separated rules up to and including the closing `}`.
pub open spec fn p_rules(t: Seq<Token>, s: Seq<u8>, p: int, acc: Seq<RuleView>) -> Result<(Seq<RuleView>, int), ErrView>
    decreases t.len() - p,
{
    if kind_at(t, p) == Some(TokenKind::RBrace) {
        Ok((acc, p + 1))
    } else {
        match p_rule(t, s, p) {
            Ok((r, q)) => if kind_at(t, q) == Some(TokenKind::Comma) {
                proof {
                    lemma_rule_advances(t, s, p);
                }
                p_rules(t, s, q + 1, acc.push(r))
            } else if kind_at(t, q) == Some(TokenKind::RBrace) {
                Ok((acc.push(r), q + 1))
            } else {
                Err(unexpected(t, q))
            },
            Err(x) => Err(x),
        }
    }
}

/// Comma-separated identifiers up to and including the closing `]`.
pub open spec fn p_list(t: Seq<Token>, s: Seq<u8>, p: int, acc: Seq<Seq<u8>>) -> Result<(Seq<Seq<u8>>, int), ErrView>
    decreases t.len() - p,
{
    if kind_at(t, p) == Some(TokenKind::RBracket) {
        Ok((acc, p + 1))
    } else if !is_ident(t, p) {
        Err(unexpected(t, p))
    } else if kind_at(t, p + 1) == Some(TokenKind::Comma) {
        p_list(t, s, p + 2, acc.push(text(t, s, p)))
    } else if kind_at(t, p + 1) == Some(TokenKind::RBracket) {
        Ok((acc.push(text(t, s, p)), p + 2))
    } else {
        Err(unexpected(t, p + 1))
    }
}

/// Further source states end at or after `p`, within the tokens.
pub proof fn lemma_more_entries_advance(t: Seq<Token>, s: Seq<u8>, p: int, acc: Seq<(Seq<u8>, bool)>)
    requires
        0 <= p <= t.len(),
    ensures
        p_more_entries(t, s, p, acc) matches Ok((_, q)) ==> p <= q <= t.len(),
    decreases t.len() - p,
{
    if kind_at(t, p) == Some(TokenKind::Pipe) {
        if let Ok((e, q)) = p_entry(t, s, p + 1) {
            lemma_more_entries_advance(t, s, q, acc.push(e));
        }
    }
}

/// Further events end at or after `p`, within the tokens.
pub proof fn lemma_more_events_advance(t: Seq<Token>, s: Seq<u8>, p: int, acc: Seq<Seq<u8>>)
    requires
        0 <= p <= t.len(),
    ensures
        p_more_events(t, s, p, acc) matches Ok((_, q)) ==> p <= q <= t.len(),
    decreases t.len() - p,
{
    if kind_at(t, p) == Some(TokenKind::Pipe) && kind_at(t, p + 1) != Some(TokenKind::Star) && is_ident(t, p + 1) {
        lemma_more_events_advance(t, s, p + 2, acc.push(text(t, s, p + 1)));
    }
}

/// A parsed rule consumes at least one token and stays within the tokens.
pub proof fn lemma_rule_advances(t: Seq<Token>, s: Seq<u8>, p: int)
    ensures
        p_rule(t, s, p) matches Ok((_, q)) ==> 0 <= p < q <= t.len(),
{
    if kind_at(t, p) != Some(TokenKind::Underscore) {
        if let Ok((e, q)) = p_entry(t, s, p) {
            lemma_more_entries_advance(t, s, q, seq![e]);
        }
    }
    if let Ok((pat, q)) = p_pattern(t, s, p) {
        if kind_at(t, q) == Some(TokenKind::Plus) && is_ident(t, q + 1) {
            lemma_more_events_advance(t, s, q + 2, seq![text(t, s, q + 1)]);
        }
    }
}

/// A parsed identifier list consumes at least one token and stays within the tokens.
pub proof fn lemma_list_advances(t: Seq<Token>, s: Seq<u8>, p: int, acc: Seq<Seq<u8>>)
    ensures
        p_list(t, s, p, acc) matches Ok((_, q)) ==> p < q <= t.len(),
    decreases t.len() - p,
{
    if kind_at(t, p) != Some(TokenKind::RBracket) && is_ident(t, p) && kind_at(t, p + 1) == Some(TokenKind::Comma) {
        lemma_list_advances(t, s, p + 2, acc.push(text(t, s, p)));
    }
}

/// Skips one optional comma.
pub open spec fn skip_comma(t: Seq<Token>, p: int) -> int {
    if kind_at(t, p) == Some(TokenKind::Comma) {
        p + 1
    } else {
        p
    }
}

pub open spec fn kw_name() -> Seq<u8> {
    lit("name")
}

pub open spec fn kw_derive_states() -> Seq<u8> {
    lit("derive_states")
}

pub open spec fn kw_derive_events() -> Seq<u8> {
    lit("derive_events")
}

pub open spec fn kw_transitions() -> Seq<u8> {
    lit("transitions")
}

/// One of the four clause names.
pub open spec fn is_keyword(kw: Seq<u8>) -> bool {
    kw == kw_name() || kw == kw_derive_states() || kw == kw_derive_events() || kw == kw_transitions()
}

/// The clauses from token `p` on; `st` holds what earlier clauses set.
/// The `transitions` clause ends the description.
pub open spec fn p_clauses(t: Seq<Token>, s: Seq<u8>, p: int, st: SpecView) -> Result<SpecView, ErrView>
    decreases t.len() - p,
{
    if p >= t.len() {
        Err(ErrView::MissingTransitionsBlock)
    } else if !is_ident(t, p) {
        Err(unexpected(t, p))
    } else if !is_keyword(text(t, s, p)) {
        Err(ErrView::UnknownClause(text(t, s, p)))
    } else if kind_at(t, p + 1) != Some(TokenKind::Colon) {
        Err(unexpected(t, p + 1))
    } else {
        let kw = text(t, s, p);
        if kw == kw_name() {
            if is_ident(t, p + 2) {
                p_clauses(t, s, skip_comma(t, p + 3), SpecView { name: Some(text(t, s, p + 2)), ..st })
            } else {
                Err(unexpected(t, p + 2))
            }
        } else if kw == kw_derive_states() || kw == kw_derive_events() {
            if kind_at(t, p + 2) != Some(TokenKind::LBracket) {
                Err(unexpected(t, p + 2))
            } else {
                match p_list(t, s, p + 3, Seq::empty()) {
                    Ok((v, q)) => {
                        proof {
                            lemma_list_advances(t, s, p + 3, Seq::empty());
                        }
                        if kw == kw_derive_states() {
                            p_clauses(t, s, skip_comma(t, q), SpecView { derive_states: Some(v), ..st })
                        } else {
                            p_clauses(t, s, skip_comma(t, q), SpecView { derive_events: Some(v), ..st })
                        }
                    },
                    Err(x) => Err(x),
                }
            }
        } else if kind_at(t, p + 2) != Some(TokenKind::LBrace) {
            Err(unexpected(t, p + 2))
        } else {
            match p_rules(t, s, p + 3, Seq::empty()) {
                Ok((rs, _)) => Ok(SpecView { rules: rs, ..st }),
                Err(x) => Err(x),
            }
        }
    }
}

pub open spec fn empty_view() -> SpecView {
    SpecView { name: None, derive_states: None, derive_events: None, rules: Seq::empty() }
}

/// The description that the tokens `t` of text `s` spell.
pub open spec fn p_machine(t: Seq<Token>, s: Seq<u8>) -> Result<SpecView, ErrView> {
    p_clauses(t, s, 0, empty_view())
}

/// Whether token `p` has kind `k`. When it does, `p + 1` fits in a
/// `usize`, which lets callers step past the token.
fn is_kind(t: &Vec<Token>, p: usize, k: TokenKind) -> (r: bool)
    ensures
        r == (kind_at(t@, p as int) == Some(k)),
        r ==> p < t@.len() <= usize::MAX,
{
    let n = t.len();
    p < n && t[p].kind == k
}

fn unexpected_at(t: &Vec<Token>, p: usize) -> (r: DslError)
    ensures
        err_view(r) == unexpected(t@, p as int),
{
    if p < t.len() {
        DslError::UnexpectedToken { pos: t[p].start }
    } else {
        DslError::UnexpectedEnd
    }
}

fn text_of(t: &Vec<Token>, s: &[u8], p: usize) -> (r: Vec<u8>)
    ensures
        r@ == text(t@, s@, p as int),
{
    let mut r: Vec<u8> = Vec::new();
    if p < t.len() && t[p].start <= t[p].end && t[p].end <= s.len() {
        let start = t[p].start;
        let end = t[p].end;
        let mut i: usize = start;
        while i < end
            invariant
                start <= i <= end <= s@.len(),
                r@ == s@.subrange(start as int, i as int),
            decreases end - i,
        {
            r.push(s[i]);
            proof {
                assert(s@.subrange(start as int, i + 1) =~= s@.subrange(start as int, i as int).push(s@[i as int]));
            }
            i = i + 1;
        }
    } else {
        assert(r@ =~= Seq::<u8>::empty());
    }
    r
}

fn parse_entry(t: &Vec<Token>, s: &[u8], p: usize) -> (r: Result<((Vec<u8>, bool), usize), DslError>)
    ensures
        match p_entry(t@, s@, p as int) {
            Ok((e, q)) => r matches Ok((x, q2)) && x.0@ == e.0 && x.1 == e.1 && q2 == q,
            Err(e) => r matches Err(x) && err_view(x) == e,
        },
{
    if is_kind(t, p, TokenKind::Star) {
        if is_kind(t, p + 1, TokenKind::Ident) {
            Ok(((text_of(t, s, p + 1), true), p + 2))
        } else {
            Err(unexpected_at(t, p + 1))
        }
    } else if is_kind(t, p, TokenKind::Ident) {
        Ok(((text_of(t, s, p), false), p + 1))
    } else {
        Err(unexpected_at(t, p))
    }
}

pub open spec fn entries_view(v: Seq<(Vec<u8>, bool)>) -> Seq<(Seq<u8>, bool)> {
    v.map_values(|x: (Vec<u8>, bool)| (x.0@, x.1))
}

impl StatePattern {
    /// Parses a state pattern at token `p`; returns it and the next position.
    pub fn parse(t: &Vec<Token>, s: &[u8], p: usize) -> (r: Result<(StatePattern, usize), DslError>)
        ensures
            match p_pattern(t@, s@, p as int) {
                Ok((v, q)) => r matches Ok((x, q2)) && pattern_entries(x) == v.entries && (x is Wildcard)
                    == v.wildcard && (x is Single) == v.single && v.single == (!v.wildcard
                    && v.entries.len() == 1) && q2 == q,
                Err(e) => r matches Err(x) && err_view(x) == e,
            },
    {
        if is_kind(t, p, TokenKind::Underscore) {
            return Ok((StatePattern::Wildcard, p + 1));
        }
        let (first, q0) = match parse_entry(t, s, p) {
            Ok(x) => x,
            Err(e) => return Err(e),
        };
        let ghost e0 = (first.0@, first.1);
        let mut states: Vec<(Vec<u8>, bool)> = Vec::new();
        states.push(first);
        assert(entries_view(states@) =~= seq![e0]);
        let mut q = q0;
        while is_kind(t, q, TokenKind::Pipe)
            invariant
                p_more_entries(t@, s@, q0 as int, seq![e0]) == p_more_entries(t@, s@, q as int, entries_view(states@)),
                states@.len() >= 1,
                p_entry(t@, s@, p as int) == Ok::<((Seq<u8>, bool), int), ErrView>((e0, q0 as int)),
                kind_at(t@, p as int) != Some(TokenKind::Underscore),
            decreases t@.len() - q,
        {
            match parse_entry(t, s, q + 1) {
                Ok((e, q2)) => {
                    proof {
                        assert(entries_view(states@.push(e)) =~= entries_view(states@).push((e.0@, e.1)));
                    }
                    states.push(e);
                    q = q2;
                },
                Err(e) => return Err(e),
            }
        }
        if states.len() == 1 {
            let ghost ev = entries_view(states@);
            let (state, initial) = states.pop().unwrap();
            assert(ev =~= seq![(state@, initial)]);
            Ok((StatePattern::Single { state, initial }, q))
        } else {
            Ok((StatePattern::Multiple { states }, q))
        }
    }
}

fn parse_events(t: &Vec<Token>, s: &[u8], p: usize) -> (r: Result<(Vec<Vec<u8>>, usize), DslError>)
    requires
        is_ident(t@, p - 1),
        p >= 1,
    ensures
        match p_more_events(t@, s@, p as int, seq![text(t@, s@, p - 1)]) {
            Ok((v, q)) => r matches Ok((x, q2)) && names_view(x@) == v && q2 == q,
            Err(e) => r matches Err(x) && err_view(x) == e,
        },
{
    let mut evs: Vec<Vec<u8>> = Vec::new();
    evs.push(text_of(t, s, p - 1));
    assert(names_view(evs@) =~= seq![text(t@, s@, p - 1)]);
    let mut q = p;
    while is_kind(t, q, TokenKind::Pipe) && !is_kind(t, q + 1, TokenKind::Star)
        invariant
            p_more_events(t@, s@, p as int, seq![text(t@, s@, p - 1)]) == p_more_events(t@, s@, q as int, names_view(evs@)),
        decreases t@.len() - q,
    {
        if is_kind(t, q + 1, TokenKind::Ident) {
            let x = text_of(t, s, q + 1);
            proof {
                assert(names_view(evs@.push(x)) =~= names_view(evs@).push(x@));
            }
            evs.push(x);
            q = q + 2;
        } else {
            return Err(unexpected_at(t, q + 1));
        }
    }
    Ok((evs, q))
}

fn parse_target(t: &Vec<Token>, s: &[u8], p: usize) -> (r: Result<(TargetState, usize), DslError>)
    ensures
        match p_target(t@, s@, p as int) {
            Ok((v, q)) => r matches Ok((x, q2)) && q2 == q && match x {
                TargetState::State(n) => v == Some(n@),
                TargetState::Internal => v is None,
            },
            Err(e) => r matches Err(x) && err_view(x) == e,
        },
{
    if is_kind(t, p, TokenKind::Equals) {
        if is_kind(t, p + 1, TokenKind::Underscore) {
            Ok((TargetState::Internal, p + 2))
        } else if is_kind(t, p + 1, TokenKind::Ident) {
            Ok((TargetState::State(text_of(t, s, p + 1)), p + 2))
        } else {
            Err(unexpected_at(t, p + 1))
        }
    } else {
        Ok((TargetState::Internal, p))
    }
}

impl Transition {
    /// Parses one rule at token `p`; returns it and the next position.
    pub fn parse(t: &Vec<Token>, s: &[u8], p: usize) -> (r: Result<(Transition, usize), DslError>)
        ensures
            match p_rule(t@, s@, p as int) {
                Ok((v, q)) => r matches Ok((x, q2)) && rule_view(x) == v && q2 == q,
                Err(e) => r matches Err(x) && err_view(x) == e,
            },
    {
        let (source, q) = match StatePattern::parse(t, s, p) {
            Ok(x) => x,
            Err(e) => return Err(e),
        };
        if !is_kind(t, q, TokenKind::Plus) {
            return Err(unexpected_at(t, q));
        }
        if !is_kind(t, q + 1, TokenKind::Ident) {
            return Err(unexpected_at(t, q + 1));
        }
        let (events, r) = match parse_events(t, s, q + 2) {
            Ok(x) => x,
            Err(e) => return Err(e),
        };
        let (target, u) = match parse_target(t, s, r) {
            Ok(x) => x,
            Err(e) => return Err(e),
        };
        Ok((Transition { source, events, target }, u))
    }
}

pub open spec fn rules_view(v: Seq<Transition>) -> Seq<RuleView> {
    v.map_values(|t: Transition| rule_view(t))
}

fn parse_rules(t: &Vec<Token>, s: &[u8], p: usize) -> (r: Result<Vec<Transition>, DslError>)
    ensures
        match p_rules(t@, s@, p as int, Seq::empty()) {
            Ok((v, _)) => r matches Ok(x) && rules_view(x@) == v,
            Err(e) => r matches Err(x) && err_view(x) == e,
        },
{
    let mut rules: Vec<Transition> = Vec::new();
    let mut q = p;
    assert(rules_view(rules@) =~= Seq::<RuleView>::empty());
    loop
        invariant
            p_rules(t@, s@, p as int, Seq::empty()) == p_rules(t@, s@, q as int, rules_view(rules@)),
        decreases t@.len() - q,
    {
        if is_kind(t, q, TokenKind::RBrace) {
            return Ok(rules);
        }
        let (rule, q2) = match Transition::parse(t, s, q) {
            Ok(x) => x,
            Err(e) => return Err(e),
        };
        proof {
            assert(rules_view(rules@.push(rule)) =~= rules_view(rules@).push(rule_view(rule)));
            lemma_rule_advances(t@, s@, q as int);
        }
        if is_kind(t, q2, TokenKind::Comma) {
            rules.push(rule);
            q = q2 + 1;
        } else if is_kind(t, q2, TokenKind::RBrace) {
            rules.push(rule);
            return Ok(rules);
        } else {
            return Err(unexpected_at(t, q2));
        }
    }
}

fn parse_list(t: &Vec<Token>, s: &[u8], p: usize) -> (r: Result<(Vec<Vec<u8>>, usize), DslError>)
    ensures
        match p_list(t@, s@, p as int, Seq::empty()) {
            Ok((v, q)) => r matches Ok((x, q2)) && names_view(x@) == v && q2 == q,
            Err(e) => r matches Err(x) && err_view(x) == e,
        },
{
    let mut items: Vec<Vec<u8>> = Vec::new();
    let mut q = p;
    assert(names_view(items@) =~= Seq::<Seq<u8>>::empty());
    loop
        invariant
            p_list(t@, s@, p as int, Seq::empty()) == p_list(t@, s@, q as int, names_view(items@)),
        decreases t@.len() - q,
    {
        if is_kind(t, q, TokenKind::RBracket) {
            return Ok((items, q + 1));
        }
        if !is_kind(t, q, TokenKind::Ident) {
            return Err(unexpected_at(t, q));
        }
        let x = text_of(t, s, q);
        proof {
            assert(names_view(items@.push(x)) =~= names_view(items@).push(x@));
        }
        if is_kind(t, q + 1, TokenKind::Comma) {
            items.push(x);
            q = q + 2;
        } else if is_kind(t, q + 1, TokenKind::RBracket) {
            items.push(x);
            return Ok((items, q + 2));
        } else {
            return Err(unexpected_at(t, q + 1));
        }
    }
}

fn skip_comma_at(t: &Vec<Token>, p: usize) -> (r: usize)
    ensures
        r == skip_comma(t@, p as int),
{
    if is_kind(t, p, TokenKind::Comma) {
        p + 1
    } else {
        p
    }
}

impl StateMachineSpec {
    /// Parses the tokens `t` of text `s` into a description.
    pub fn parse(t: &Vec<Token>, s: &[u8]) -> (r: Result<StateMachineSpec, DslError>)
        ensures
            match p_machine(t@, s@) {
                Ok(v) => r matches Ok(m) && spec_view(m) == v,
                Err(e) => r matches Err(x) && err_view(x) == e,
            },
    {
        let mut name: Option<Vec<u8>> = None;
        let mut derive_states: Option<Vec<Vec<u8>>> = None;
        let mut derive_events: Option<Vec<Vec<u8>>> = None;
        let mut p: usize = 0;
        proof {
            reveal_strlit("name");
            reveal_strlit("derive_states");
            reveal_strlit("derive_events");
            reveal_strlit("transitions");
        }
        let kw_n = lit_vec("name");
        let kw_ds = lit_vec("derive_states");
        let kw_de = lit_vec("derive_events");
        let kw_t = lit_vec("transitions");
        loop
            invariant
                kw_n@ == kw_name(),
                kw_ds@ == kw_derive_states(),
                kw_de@ == kw_derive_events(),
                kw_t@ == kw_transitions(),
                p_machine(t@, s@) == p_clauses(
                    t@,
                    s@,
                    p as int,
                    SpecView {
                        name: name_view(name),
                        derive_states: list_view(derive_states),
                        derive_events: list_view(derive_events),
                        rules: Seq::empty(),
                    },
                ),
            decreases t@.len() - p,
        {
            if p >= t.len() {
                return Err(DslError::MissingTransitionsBlock);
            }
            if !is_kind(t, p, TokenKind::Ident) {
                return Err(unexpected_at(t, p));
            }
            let kw = text_of(t, s, p);
            let is_n = bytes_eq(kw.as_slice(), kw_n.as_slice());
            let is_ds = bytes_eq(kw.as_slice(), kw_ds.as_slice());
            let is_de = bytes_eq(kw.as_slice(), kw_de.as_slice());
            let is_t = bytes_eq(kw.as_slice(), kw_t.as_slice());
            if !(is_n || is_ds || is_de || is_t) {
                return Err(DslError::UnknownClause { name: kw });
            }
            if !is_kind(t, p + 1, TokenKind::Colon) {
                return Err(unexpected_at(t, p + 1));
            }
            if is_n {
                if !is_kind(t, p + 2, TokenKind::Ident) {
                    return Err(unexpected_at(t, p + 2));
                }
                name = Some(text_of(t, s, p + 2));
                p = skip_comma_at(t, p + 3);
            } else if is_ds || is_de {
                if !is_kind(t, p + 2, TokenKind::LBracket) {
                    return Err(unexpected_at(t, p + 2));
                }
                let (v, q) = match parse_list(t, s, p + 3) {
                    Ok(x) => x,
                    Err(e) => return Err(e),
                };
                proof {
                    lemma_list_advances(t@, s@, p + 3, Seq::empty());
                }
                if is_ds {
                    derive_states = Some(v);
                } else {
                    derive_events = Some(v);
                }
                p = skip_comma_at(t, q);
            } else {
                if !is_kind(t, p + 2, TokenKind::LBrace) {
                    return Err(unexpected_at(t, p + 2));
                }
                let transitions = match parse_rules(t, s, p + 3) {
                    Ok(x) => x,
                    Err(e) => return Err(e),
                };
                return Ok(StateMachineSpec { name, derive_states, derive_events, transitions });
            }
        }
    }
}

} // verus!
