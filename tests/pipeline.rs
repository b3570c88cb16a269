use stateless::ast::{DslError, StateMachineSpec, StatePattern, TargetState};
use stateless::lexer::{lex, TokenKind};
use stateless::machine::Machine;
use stateless::pipeline::statemachine;

fn build(src: &str) -> Machine {
    match statemachine(src) {
        Ok(m) => m,
        Err(e) => panic!("description rejected: {:?}", e),
    }
}

fn step(m: &Machine, state: &str, event: &str) -> Option<Vec<u8>> {
    let s = m.state_id(state).unwrap();
    let e = m.event_id(event).unwrap();
    m.process_event(s, e).map(|n| m.states[n].clone())
}

fn names(v: &[Vec<u8>]) -> Vec<String> {
    v.iter().map(|n| String::from_utf8(n.clone()).unwrap()).collect()
}

fn error_of(src: &str) -> DslError {
    match statemachine(src) {
        Ok(_) => panic!("description accepted"),
        Err(e) => e,
    }
}

#[test]
fn power_on_from_off() {
    let m = build("transitions: { *Off + PowerOn = Idle, Idle + Shutdown = Off }");
    assert_eq!(step(&m, "Off", "PowerOn"), Some(b"Idle".to_vec()));
    assert_eq!(step(&m, "Idle", "PowerOn"), None);
    assert_eq!(step(&m, "Idle", "Shutdown"), Some(b"Off".to_vec()));
    assert_eq!(m.initial, b"Off".to_vec());
}

#[test]
fn internal_target_keeps_state() {
    let m = build("transitions: { Idle + Tick = _ }");
    assert_eq!(step(&m, "Idle", "Tick"), Some(b"Idle".to_vec()));
    let n = build("transitions: { Idle + Tick }");
    assert_eq!(step(&n, "Idle", "Tick"), Some(b"Idle".to_vec()));
}

#[test]
fn several_sources() {
    let m = build("transitions: { *A | B + X = C }");
    assert_eq!(step(&m, "B", "X"), Some(b"C".to_vec()));
    assert_eq!(step(&m, "A", "X"), Some(b"C".to_vec()));
    assert_eq!(step(&m, "C", "X"), None);
    assert_eq!(m.initial, b"A".to_vec());
}

#[test]
fn wildcard_after_specific_rule() {
    let m = build("transitions: { Alive + Kill = Wounded, Other + Go = Alive, _ + Kill = Dead }");
    assert_eq!(step(&m, "Alive", "Kill"), Some(b"Wounded".to_vec()));
    assert_eq!(step(&m, "Other", "Kill"), Some(b"Dead".to_vec()));
    assert_eq!(step(&m, "Dead", "Kill"), Some(b"Dead".to_vec()));
}

#[test]
fn wildcard_before_specific_rule_wins() {
    let m = build("transitions: { _ + Kill = Dead, Alive + Kill = Wounded }");
    assert_eq!(step(&m, "Alive", "Kill"), Some(b"Dead".to_vec()));
}

#[test]
fn duplicate_pair_is_rejected() {
    match error_of("transitions: { Idle + Go = A, Idle + Go = B }") {
        DslError::DuplicateTransition { state, event } => {
            assert_eq!(state, b"Idle".to_vec());
            assert_eq!(event, b"Go".to_vec());
        }
        e => panic!("unexpected error {:?}", e),
    }
}

#[test]
fn duplicate_through_union_is_rejected() {
    match error_of("transitions: { A | B + X = C, B + Y | X = A }") {
        DslError::DuplicateTransition { state, event } => {
            assert_eq!(state, b"B".to_vec());
            assert_eq!(event, b"X".to_vec());
        }
        e => panic!("unexpected error {:?}", e),
    }
}

#[test]
fn wildcards_are_exempt_from_duplicates() {
    let m = build("transitions: { _ + Reset = A, _ + Reset = B, A + Reset = C }");
    assert_eq!(step(&m, "C", "Reset"), Some(b"A".to_vec()));
}

#[test]
fn tables_in_order_of_first_mention() {
    let m = build("transitions: { Idle + Start = Running, Running + Stop | Start = Idle, Error + Reset = Idle }");
    assert_eq!(names(&m.states), vec!["Idle", "Running", "Error"]);
    assert_eq!(names(&m.events), vec!["Start", "Stop", "Reset"]);
}

#[test]
fn first_marked_state_is_initial() {
    let m = build("transitions: { A + X = B, B | *C + Y = A, *A + Z = C }");
    assert_eq!(m.initial, b"C".to_vec());
    assert_eq!(m.initial_state(), m.state_id("C"));
}

#[test]
fn first_state_is_initial_without_mark() {
    let m = build("transitions: { Ready + Go = Done }");
    assert_eq!(m.initial, b"Ready".to_vec());
}

#[test]
fn empty_rule_list_uses_placeholder() {
    let m = build("transitions: {}");
    assert_eq!(m.initial, b"Initial".to_vec());
    assert!(m.states.is_empty());
    assert_eq!(m.initial_state(), None);
}

#[test]
fn default_derives_when_unnamed() {
    let m = build("transitions: { A + X = B }");
    assert_eq!(names(&m.state_derives), vec!["Debug", "Clone", "PartialEq", "Eq"]);
    assert_eq!(names(&m.event_derives), vec!["Debug", "Clone", "PartialEq", "Eq"]);
    assert_eq!(m.name, None);
}

#[test]
fn clauses_in_any_order() {
    let m = build("derive_events: [Hash], name: Door, derive_states: [Debug,], transitions: { Open + Close = Shut, }");
    assert_eq!(m.name, Some(b"Door".to_vec()));
    assert_eq!(names(&m.state_derives), vec!["Debug"]);
    assert_eq!(names(&m.event_derives), vec!["Hash"]);
}

#[test]
fn text_after_transitions_is_ignored() {
    let m = build("transitions: { A + X = B } bogus: [");
    assert_eq!(step(&m, "A", "X"), Some(b"B".to_vec()));
}

#[test]
fn missing_transitions_block() {
    assert!(matches!(error_of("name: Foo,"), DslError::MissingTransitionsBlock));
    assert!(matches!(error_of(""), DslError::MissingTransitionsBlock));
    assert!(matches!(error_of("name: Foo, derive_states: [A]"), DslError::MissingTransitionsBlock));
}

#[test]
fn unknown_clause() {
    match error_of("states: [A], transitions: {}") {
        DslError::UnknownClause { name } => assert_eq!(name, b"states".to_vec()),
        e => panic!("unexpected error {:?}", e),
    }
    match error_of("bogus x") {
        DslError::UnknownClause { name } => assert_eq!(name, b"bogus".to_vec()),
        e => panic!("unexpected error {:?}", e),
    }
    match error_of("name: Foo, Bar") {
        DslError::UnknownClause { name } => assert_eq!(name, b"Bar".to_vec()),
        e => panic!("unexpected error {:?}", e),
    }
}

#[test]
fn clause_name_without_colon() {
    assert!(matches!(error_of("name Foo, transitions: {}"), DslError::UnexpectedToken { pos: 5 }));
    assert!(matches!(error_of("transitions"), DslError::UnexpectedEnd));
}

#[test]
fn invalid_character() {
    assert!(matches!(error_of("transitions: { A + X = B; }"), DslError::InvalidCharacter { pos: 24 }));
}

#[test]
fn unexpected_token_and_end() {
    assert!(matches!(error_of("transitions: { A X = B }"), DslError::UnexpectedToken { pos: 17 }));
    assert!(matches!(error_of("transitions: { A + X = B"), DslError::UnexpectedEnd));
    assert!(matches!(error_of("transitions: { A + X = B C }"), DslError::UnexpectedToken { pos: 25 }));
    assert!(matches!(error_of("name: [A], transitions: {}"), DslError::UnexpectedToken { pos: 6 }));
    assert!(matches!(error_of("+ transitions: {}"), DslError::UnexpectedToken { pos: 0 }));
    assert!(matches!(error_of("transitions: { A + X | *B }"), DslError::UnexpectedToken { pos: 21 }));
}

#[test]
fn lexer_tokens_and_spans() {
    let toks = lex(b"*Idle + _ |x_1").ok().unwrap();
    let kinds: Vec<TokenKind> = toks.iter().map(|t| t.kind).collect();
    assert_eq!(
        kinds,
        vec![TokenKind::Star, TokenKind::Ident, TokenKind::Plus, TokenKind::Underscore, TokenKind::Pipe, TokenKind::Ident]
    );
    assert_eq!((toks[1].start, toks[1].end), (1, 5));
    assert_eq!((toks[5].start, toks[5].end), (11, 14));
}

#[test]
fn unmatched_event_gives_none() {
    let m = build("transitions: { A + X = B, B + Y = A }");
    assert_eq!(step(&m, "A", "Y"), None);
    assert_eq!(step(&m, "B", "X"), None);
}

#[test]
fn compiling_twice_gives_same_machine() {
    let src = "name: M, transitions: { *S + E = T, T + F | E = _, _ + R = S }";
    let a = build(src);
    let b = build(src);
    assert_eq!(a.states, b.states);
    assert_eq!(a.events, b.events);
    assert_eq!(a.initial, b.initial);
    assert_eq!(a.rules.len(), b.rules.len());
    for i in 0..a.rules.len() {
        assert_eq!(a.rules[i].sources, b.rules[i].sources);
        assert_eq!(a.rules[i].events, b.rules[i].events);
        assert_eq!(a.rules[i].wildcard, b.rules[i].wildcard);
        assert_eq!(a.rules[i].target, b.rules[i].target);
    }
}

#[test]
fn emitted_source_for_small_machine() {
    let m = build("name: Door, derive_events: [Debug], transitions: { *Open + Close = Shut, Open | Shut + Knock = _ }");
    let out = String::from_utf8(m.emit()).unwrap();
    let expected = "#[derive(Debug, Clone, PartialEq, Eq)]
pub enum DoorState {
    Open,
    Shut,
}
#[derive(Debug)]
pub enum DoorEvent {
    Close,
    Knock,
}
impl ::core::default::Default for DoorState {
    fn default() -> Self {
        DoorState::Open
    }
}
impl DoorState {
    pub fn process_event(&self, event: DoorEvent) -> ::core::option::Option<DoorState> {
        if matches!(*self, DoorState::Open) && matches!(event, DoorEvent::Close) {
            return ::core::option::Option::Some(DoorState::Shut);
        }
        if (matches!(*self, DoorState::Open) || matches!(*self, DoorState::Shut)) && matches!(event, DoorEvent::Knock) {
            return ::core::option::Option::Some(self.clone());
        }
        ::core::option::Option::None
    }
}
";
    assert_eq!(out, expected);
}

#[test]
fn emitted_wildcard_and_events() {
    let m = build("transitions: { _ + Reset | Halt = Off }");
    let out = String::from_utf8(m.emit()).unwrap();
    assert!(out.contains("pub enum State {\n    Off,\n}\n"));
    assert!(out.contains("pub enum Event {\n    Reset,\n    Halt,\n}\n"));
    assert!(out.contains("        if true && matches!(event, Event::Reset) {\n            return ::core::option::Option::Some(State::Off);\n        }\n"));
    assert!(out.contains("        if true && matches!(event, Event::Halt) {\n"));
    assert!(out.contains("        State::Off\n"));
}

#[test]
fn union_rule_needs_its_event() {
    let m = build("transitions: { *Idle + Start = Running, Running + Pause = Idle, Idle | Running + Connect = Connected }");
    assert_eq!(step(&m, "Idle", "Pause"), None);
    assert_eq!(step(&m, "Running", "Connect"), Some(b"Connected".to_vec()));
}

#[test]
fn emitting_twice_gives_same_bytes() {
    let src = "name: M, transitions: { *S | T + E = T, T + F | G = _, _ + R = S }";
    assert_eq!(build(src).emit(), build(src).emit());
}

#[test]
fn internal_rule_covers_every_listed_state() {
    let m = build("transitions: { A | B | C + Ping = _, A + Go = B }");
    assert_eq!(step(&m, "A", "Ping"), Some(b"A".to_vec()));
    assert_eq!(step(&m, "B", "Ping"), Some(b"B".to_vec()));
    assert_eq!(step(&m, "C", "Ping"), Some(b"C".to_vec()));
}

#[test]
fn robot_description() {
    let m = build(
        "derive_states: [Debug, Clone, PartialEq, Eq],
        derive_events: [Debug, Clone, PartialEq, Eq],
        transitions: {
            *Off + PowerOn = Idle,
            Idle + MoveTo = Moving,
            Moving + Tick = _,
            Moving + Arrive = Idle,
            Moving + ObstacleDetected = Waiting,
            Waiting + ObstacleClear = Moving,
            Idle | Moving | Waiting + EmergencyStop = EmergencyStopped,
            EmergencyStopped + Reset = Idle,
            _ + PowerOff = Off,
        }",
    );
    assert_eq!(names(&m.states), vec!["Off", "Idle", "Moving", "Waiting", "EmergencyStopped"]);
    assert_eq!(m.initial, b"Off".to_vec());
    assert_eq!(step(&m, "Waiting", "EmergencyStop"), Some(b"EmergencyStopped".to_vec()));
    assert_eq!(step(&m, "Moving", "Tick"), Some(b"Moving".to_vec()));
    assert_eq!(step(&m, "EmergencyStopped", "PowerOff"), Some(b"Off".to_vec()));
    assert_eq!(step(&m, "Off", "EmergencyStop"), None);
}

fn parse(src: &str) -> StateMachineSpec {
    let toks = lex(src.as_bytes()).ok().unwrap();
    StateMachineSpec::parse(&toks, src.as_bytes()).ok().unwrap()
}

#[test]
fn one_state_pattern_is_single() {
    let sm = parse("name: Player, transitions: { *Idle + Move = Walking, Walking + Stop = Idle, A | *B + X, _ + Y = _ }");
    assert_eq!(sm.name, Some(b"Player".to_vec()));
    assert_eq!(sm.derive_states, None);
    assert_eq!(sm.transitions.len(), 4);
    assert_eq!(sm.transitions[0].source, StatePattern::Single { state: b"Idle".to_vec(), initial: true });
    assert_eq!(sm.transitions[0].events, vec![b"Move".to_vec()]);
    assert_eq!(sm.transitions[0].target, TargetState::State(b"Walking".to_vec()));
    assert_eq!(sm.transitions[1].source, StatePattern::Single { state: b"Walking".to_vec(), initial: false });
    assert_eq!(
        sm.transitions[2].source,
        StatePattern::Multiple { states: vec![(b"A".to_vec(), false), (b"B".to_vec(), true)] }
    );
    assert_eq!(sm.transitions[2].target, TargetState::Internal);
    assert_eq!(sm.transitions[3].source, StatePattern::Wildcard);
}

#[test]
fn missing_target_reads_as_internal() {
    let a = parse("transitions: { Connected + Tick }");
    let b = parse("transitions: { Connected + Tick = _ }");
    assert_eq!(a, b);
}

#[test]
fn clause_order_does_not_matter() {
    let a = parse("name: N, derive_states: [Hash], derive_events: [Debug], transitions: { A + X = B } name: Other");
    let b = parse("derive_events: [Debug], derive_states: [Hash], name: N, transitions: { A + X = B }");
    assert_eq!(a, b);
}
