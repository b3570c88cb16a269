use vstd::prelude::*;
use crate::ast::{DslError, StateMachineSpec};
use crate::compile::{compile, compile_result};
use crate::lexer::{lex, lex_from};
use crate::machine::Machine;
use crate::model::{find_name, names_view};
use crate::parser::{err_view, p_machine, spec_view};
use vstd::string::StringSliceAdditionalSpecFns;

verus! {

/// What the whole pipeline yields on the bytes `s`: a lexical error, a
/// grammar error, or the result of compiling the parsed description.
pub open spec fn pipeline_result(s: Seq<u8>, r: Result<Machine, DslError>) -> bool {
    match lex_from(s, 0) {
        Err(p) => r == Err::<Machine, DslError>(DslError::InvalidCharacter { pos: p }),
        Ok(toks) => match p_machine(toks, s) {
            Err(e) => r matches Err(x) && err_view(x) == e,
            Ok(v) => exists|sm: StateMachineSpec| spec_view(sm) == v && compile_result(sm, r),
        },
    }
}

/// Compiles a machine description: tokenizes, parses, rejects duplicate
/// (state, event) pairs and lowers the rules to an index table.
pub fn statemachine(src: &str) -> (r: Result<Machine, DslError>)
    ensures
        pipeline_result(src.spec_bytes(), r),
{
    let bytes = src.as_bytes();
    let toks = match lex(bytes) {
        Ok(t) => t,
        Err(e) => return Err(e),
    };
    let spec = match StateMachineSpec::parse(&toks, bytes) {
        Ok(sm) => sm,
        Err(e) => return Err(e),
    };
    let ghost sm = spec;
    let r = compile(spec);
    assert(spec_view(sm) == spec_view(sm) && compile_result(sm, r));
    r
}

impl Machine {
    /// The index of the state called `name`.
    pub fn state_id(&self, name: &str) -> (r: Option<usize>)
        ensures
            r matches Some(k) ==> k < self.states@.len() && self.states@[k as int]@ == name.spec_bytes(),
            r is None ==> !names_view(self.states@).contains(name.spec_bytes()),
    {
        find_name(&self.states, name.as_bytes())
    }

    /// The index of the event called `name`.
    pub fn event_id(&self, name: &str) -> (r: Option<usize>)
        ensures
            r matches Some(k) ==> k < self.events@.len() && self.events@[k as int]@ == name.spec_bytes(),
            r is None ==> !names_view(self.events@).contains(name.spec_bytes()),
    {
        find_name(&self.events, name.as_bytes())
    }

    /// The index of the initial state; `None` only for a machine without states.
    pub fn initial_state(&self) -> (r: Option<usize>)
        ensures
            r matches Some(k) ==> k < self.states@.len() && self.states@[k as int]@ == self.initial@,
            r is None ==> !names_view(self.states@).contains(self.initial@),
    {
        find_name(&self.states, self.initial.as_slice())
    }
}

} // verus!
