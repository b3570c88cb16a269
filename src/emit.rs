use vstd::prelude::*;
use vstd::string::StringSliceAdditionalSpecFns;
use crate::machine::{Machine, Rule};
use crate::model::names_view;

verus! {

/// The bytes of an ASCII text.
pub open spec fn ascii_bytes(s: Seq<char>) -> Seq<u8> {
    s.map_values(|c: char| c as u8)
}

pub open spec fn lit(s: &str) -> Seq<u8> {
    ascii_bytes(s@)
}

/// `parts` separated by `sep`.
pub open spec fn join(parts: Seq<Seq<u8>>, sep: Seq<u8>) -> Seq<u8>
    decreases parts.len(),
{
    if parts.len() == 0 {
        Seq::empty()
    } else if parts.len() == 1 {
        parts[0]
    } else {
        join(parts.drop_last(), sep) + sep + parts.last()
    }
}

/// One line `    Name,` per variant.
pub open spec fn variant_lines(vs: Seq<Seq<u8>>) -> Seq<u8>
    decreases vs.len(),
{
    if vs.len() == 0 {
        Seq::empty()
    } else {
        variant_lines(vs.drop_last()) + lit("    ") + vs.last() + lit(",\n")
    }
}

/// `<prefix>State` or `<prefix>Event`.
pub open spec fn prefixed_name(name: Option<Vec<u8>>, suffix: &str) -> Seq<u8> {
    match name {
        Some(n) => n@ + lit(suffix),
        None => lit(suffix),
    }
}

pub open spec fn state_type(m: Machine) -> Seq<u8> {
    prefixed_name(m.name, "State")
}

pub open spec fn event_type(m: Machine) -> Seq<u8> {
    prefixed_name(m.name, "Event")
}

pub open spec fn enum_block(derives: Seq<Seq<u8>>, ty: Seq<u8>, variants: Seq<Seq<u8>>) -> Seq<u8> {
    lit("#[derive(") + join(derives, lit(", ")) + lit(")]\npub enum ") + ty + lit(" {\n") + variant_lines(
        variants,
    ) + lit("}\n")
}

pub open spec fn default_block(m: Machine) -> Seq<u8> {
    lit("impl ::core::default::Default for ") + state_type(m) + lit(
        " {\n    fn default() -> Self {\n        ",
    ) + state_type(m) + lit("::") + m.initial@ + lit("\n    }\n}\n")
}

/// `matches!(*self, S::X)` for state index `k`.
pub open spec fn source_test(m: Machine, k: usize) -> Seq<u8> {
    lit("matches!(*self, ") + state_type(m) + lit("::") + m.states@[k as int]@ + lit(")")
}

pub open spec fn source_tests(m: Machine, srcs: Seq<usize>) -> Seq<Seq<u8>> {
    srcs.map_values(|k: usize| source_test(m, k))
}

/// The state condition of a rule; a disjunction is parenthesized so that
/// it binds before the event test.
pub open spec fn state_cond(m: Machine, r: Rule) -> Seq<u8> {
    if r.wildcard {
        lit("true")
    } else if r.sources@.len() > 1 {
        lit("(") + join(source_tests(m, r.sources@), lit(" || ")) + lit(")")
    } else {
        join(source_tests(m, r.sources@), lit(" || "))
    }
}

pub open spec fn target_expr(m: Machine, r: Rule) -> Seq<u8> {
    match r.target {
        Some(t) => state_type(m) + lit("::") + m.states@[t as int]@,
        None => lit("self.clone()"),
    }
}

/// The check that rule `r` makes for event index `e`.
pub open spec fn check(m: Machine, r: Rule, e: usize) -> Seq<u8> {
    lit("        if ") + state_cond(m, r) + lit(" && matches!(event, ") + event_type(m) + lit("::")
        + m.events@[e as int]@ + lit(") {\n            return ::core::option::Option::Some(")
        + target_expr(m, r) + lit(");\n        }\n")
}

pub open spec fn rule_checks(m: Machine, r: Rule, evs: Seq<usize>) -> Seq<u8>
    decreases evs.len(),
{
    if evs.len() == 0 {
        Seq::empty()
    } else {
        rule_checks(m, r, evs.drop_last()) + check(m, r, evs.last())
    }
}

/// The checks of `rules`, in order.
pub open spec fn all_checks(m: Machine, rules: Seq<Rule>) -> Seq<u8>
    decreases rules.len(),
{
    if rules.len() == 0 {
        Seq::empty()
    } else {
        all_checks(m, rules.drop_last()) + rule_checks(m, rules.last(), rules.last().events@)
    }
}

pub open spec fn eval_block(m: Machine) -> Seq<u8> {
    lit("impl ") + state_type(m) + lit(" {\n    pub fn process_event(&self, event: ") + event_type(m)
        + lit(") -> ::core::option::Option<") + state_type(m) + lit("> {\n") + all_checks(m, m.rules@)
        + lit("        ::core::option::Option::None\n    }\n}\n")
}

/// The Rust source generated for a machine: the state and event enums, the
/// default state and the first-match `process_event`.
pub open spec fn emitted(m: Machine) -> Seq<u8> {
    enum_block(names_view(m.state_derives@), state_type(m), names_view(m.states@)) + enum_block(
        names_view(m.event_derives@),
        event_type(m),
        names_view(m.events@),
    ) + default_block(m) + eval_block(m)
}

/// Appends the bytes of an ASCII text.
pub(crate) fn push_lit(out: &mut Vec<u8>, s: &str)
    requires
        vstd::string::is_ascii(s),
    ensures
        final(out)@ == old(out)@ + lit(s),
{
    proof {
        vstd::string::is_ascii_spec_bytes(s);
    }
    let b = s.as_bytes();
    let ghost start = out@;
    let mut i: usize = 0;
    while i < b.len()
        invariant
            b@ == s.spec_bytes(),
            s.spec_bytes() =~= Seq::new(s@.len(), |k: int| s@.index(k) as u8),
            i <= b@.len(),
            out@ == start + b@.subrange(0, i as int),
        decreases b@.len() - i,
    {
        out.push(b[i]);
        proof {
            assert(start + b@.subrange(0, i + 1) =~= (start + b@.subrange(0, i as int)).push(b@[i as int]));
        }
        i = i + 1;
    }
    assert(b@.subrange(0, i as int) =~= lit(s));
}

fn push_bytes(out: &mut Vec<u8>, b: &[u8])
    ensures
        final(out)@ == old(out)@ + b@,
{
    let ghost start = out@;
    let mut i: usize = 0;
    while i < b.len()
        invariant
            i <= b@.len(),
            out@ == start + b@.subrange(0, i as int),
        decreases b@.len() - i,
    {
        out.push(b[i]);
        proof {
            assert(start + b@.subrange(0, i + 1) =~= (start + b@.subrange(0, i as int)).push(b@[i as int]));
        }
        i = i + 1;
    }
    assert(b@.subrange(0, i as int) =~= b@);
}

fn push_join(out: &mut Vec<u8>, parts: &Vec<Vec<u8>>, sep: &str)
    requires
        vstd::string::is_ascii(sep),
    ensures
        final(out)@ == old(out)@ + join(names_view(parts@), lit(sep)),
{
    let ghost start = out@;
    let ghost pv = names_view(parts@);
    let mut i: usize = 0;
    while i < parts.len()
        invariant
            vstd::string::is_ascii(sep),
            pv == names_view(parts@),
            i <= parts@.len(),
            out@ == start + join(pv.take(i as int), lit(sep)),
        decreases parts@.len() - i,
    {
        proof {
            assert(pv.take(i + 1).drop_last() =~= pv.take(i as int));
            assert(pv.take(i + 1).last() == parts@[i as int]@);
        }
        if i > 0 {
            push_lit(out, sep);
        } else {
            assert(pv.take(1) =~= seq![parts@[0]@]);
        }
        push_bytes(out, parts[i].as_slice());
        proof {
            assert(out@ =~= start + join(pv.take(i + 1), lit(sep)));
        }
        i = i + 1;
    }
    assert(pv.take(i as int) =~= pv);
}

fn push_variants(out: &mut Vec<u8>, vs: &Vec<Vec<u8>>)
    ensures
        final(out)@ == old(out)@ + variant_lines(names_view(vs@)),
{
    let ghost start = out@;
    let ghost vv = names_view(vs@);
    let mut i: usize = 0;
    while i < vs.len()
        invariant
            vv == names_view(vs@),
            i <= vs@.len(),
            out@ == start + variant_lines(vv.take(i as int)),
        decreases vs@.len() - i,
    {
        proof {
            assert(vv.take(i + 1).drop_last() =~= vv.take(i as int));
            assert(vv.take(i + 1).last() == vs@[i as int]@);
            reveal_strlit("    ");
            reveal_strlit(",\n");
        }
        push_lit(out, "    ");
        push_bytes(out, vs[i].as_slice());
        push_lit(out, ",\n");
        proof {
            assert(out@ =~= start + variant_lines(vv.take(i + 1)));
        }
        i = i + 1;
    }
    assert(vv.take(i as int) =~= vv);
}

fn push_enum(out: &mut Vec<u8>, derives: &Vec<Vec<u8>>, ty: &Vec<u8>, variants: &Vec<Vec<u8>>)
    ensures
        final(out)@ == old(out)@ + enum_block(names_view(derives@), ty@, names_view(variants@)),
{
    let ghost start = out@;
    proof {
        reveal_strlit("#[derive(");
        reveal_strlit(", ");
        reveal_strlit(")]\npub enum ");
        reveal_strlit(" {\n");
        reveal_strlit("}\n");
    }
    push_lit(out, "#[derive(");
    push_join(out, derives, ", ");
    push_lit(out, ")]\npub enum ");
    push_bytes(out, ty.as_slice());
    push_lit(out, " {\n");
    push_variants(out, variants);
    push_lit(out, "}\n");
    assert(out@ =~= start + enum_block(names_view(derives@), ty@, names_view(variants@)));
}

impl Machine {
    fn prefixed(&self, suffix: &str) -> (r: Vec<u8>)
        requires
            vstd::string::is_ascii(suffix),
        ensures
            r@ == prefixed_name(self.name, suffix),
    {
        let mut r: Vec<u8> = Vec::new();
        match &self.name {
            Some(n) => push_bytes(&mut r, n.as_slice()),
            None => {},
        }
        push_lit(&mut r, suffix);
        assert(r@ =~= prefixed_name(self.name, suffix));
        r
    }

    fn push_cond(&self, out: &mut Vec<u8>, r: &Rule, st: &Vec<u8>)
        requires
            st@ == state_type(*self),
            forall|k: int| 0 <= k < r.sources@.len() ==> #[trigger] r.sources@[k] < self.states@.len(),
        ensures
            final(out)@ == old(out)@ + state_cond(*self, *r),
    {
        proof {
            reveal_strlit("true");
            reveal_strlit(" || ");
            reveal_strlit("matches!(*self, ");
            reveal_strlit("::");
            reveal_strlit(")");
        }
        if r.wildcard {
            push_lit(out, "true");
            return;
        }
        let ghost outer = out@;
        let grouped = r.sources.len() > 1;
        proof {
            reveal_strlit("(");
        }
        if grouped {
            push_lit(out, "(");
        }
        let ghost start = out@;
        let ghost tests = source_tests(*self, r.sources@);
        let mut a: usize = 0;
        while a < r.sources.len()
            invariant
                st@ == state_type(*self),
                forall|k: int| 0 <= k < r.sources@.len() ==> #[trigger] r.sources@[k] < self.states@.len(),
                tests == source_tests(*self, r.sources@),
                a <= r.sources@.len(),
                out@ == start + join(tests.take(a as int), lit(" || ")),
            decreases r.sources@.len() - a,
        {
            proof {
                assert(tests.take(a + 1).drop_last() =~= tests.take(a as int));
                assert(tests.take(a + 1).last() == source_test(*self, r.sources@[a as int]));
                reveal_strlit(" || ");
                reveal_strlit("matches!(*self, ");
                reveal_strlit("::");
                reveal_strlit(")");
            }
            if a > 0 {
                push_lit(out, " || ");
            } else {
                assert(tests.take(1) =~= seq![source_test(*self, r.sources@[0])]);
            }
            let k = r.sources[a];
            assert(k < self.states@.len());
            push_lit(out, "matches!(*self, ");
            push_bytes(out, st.as_slice());
            push_lit(out, "::");
            push_bytes(out, self.states[k].as_slice());
            push_lit(out, ")");
            proof {
                assert(out@ =~= start + join(tests.take(a + 1), lit(" || ")));
            }
            a = a + 1;
        }
        assert(tests.take(a as int) =~= tests);
        if grouped {
            push_lit(out, ")");
            assert(out@ =~= outer + state_cond(*self, *r));
        }
    }

    fn push_check(&self, out: &mut Vec<u8>, r: &Rule, e: usize, st: &Vec<u8>, et: &Vec<u8>)
        requires
            crate::machine::rule_wf(*r, self.states@.len(), self.events@.len()),
            e < self.events@.len(),
            st@ == state_type(*self),
            et@ == event_type(*self),
        ensures
            final(out)@ == old(out)@ + check(*self, *r, e),
    {
        proof {
            reveal_strlit("        if ");
            reveal_strlit(" && matches!(event, ");
            reveal_strlit("::");
            reveal_strlit(") {\n            return ::core::option::Option::Some(");
            reveal_strlit("self.clone()");
            reveal_strlit(");\n        }\n");
        }
        let ghost start = out@;
        push_lit(out, "        if ");
        self.push_cond(out, r, st);
        push_lit(out, " && matches!(event, ");
        push_bytes(out, et.as_slice());
        push_lit(out, "::");
        push_bytes(out, self.events[e].as_slice());
        push_lit(out, ") {\n            return ::core::option::Option::Some(");
        match r.target {
            Some(t) => {
                push_bytes(out, st.as_slice());
                push_lit(out, "::");
                push_bytes(out, self.states[t].as_slice());
            },
            None => push_lit(out, "self.clone()"),
        }
        push_lit(out, ");\n        }\n");
        assert(out@ =~= start + check(*self, *r, e));
    }

    fn push_rule(&self, out: &mut Vec<u8>, r: &Rule, st: &Vec<u8>, et: &Vec<u8>)
        requires
            self.wf(),
            crate::machine::rule_wf(*r, self.states@.len(), self.events@.len()),
            st@ == state_type(*self),
            et@ == event_type(*self),
        ensures
            final(out)@ == old(out)@ + rule_checks(*self, *r, r.events@),
    {
        let ghost start = out@;
        let ghost evs = r.events@;
        let mut b: usize = 0;
        while b < r.events.len()
            invariant
                crate::machine::rule_wf(*r, self.states@.len(), self.events@.len()),
                st@ == state_type(*self),
                et@ == event_type(*self),
                evs == r.events@,
                b <= evs.len(),
                out@ == start + rule_checks(*self, *r, evs.take(b as int)),
            decreases evs.len() - b,
        {
            proof {
                assert(evs.take(b + 1).drop_last() =~= evs.take(b as int));
            }
            self.push_check(out, r, r.events[b], st, et);
            proof {
                assert(out@ =~= start + rule_checks(*self, *r, evs.take(b + 1)));
            }
            b = b + 1;
        }
        assert(evs.take(b as int) =~= evs);
    }

    fn push_default_block(&self, out: &mut Vec<u8>, st: &Vec<u8>)
        requires
            st@ == state_type(*self),
        ensures
            final(out)@ == old(out)@ + default_block(*self),
    {
        proof {
            reveal_strlit("impl ::core::default::Default for ");
            reveal_strlit(" {\n    fn default() -> Self {\n        ");
            reveal_strlit("::");
            reveal_strlit("\n    }\n}\n");
        }
        let ghost head = out@;
        push_lit(out, "impl ::core::default::Default for ");
        push_bytes(out, st.as_slice());
        push_lit(out, " {\n    fn default() -> Self {\n        ");
        push_bytes(out, st.as_slice());
        push_lit(out, "::");
        push_bytes(out, self.initial.as_slice());
        push_lit(out, "\n    }\n}\n");
        assert(out@ =~= head + default_block(*self));
    }

    fn push_checks(&self, out: &mut Vec<u8>, st: &Vec<u8>, et: &Vec<u8>)
        requires
            self.wf(),
            st@ == state_type(*self),
            et@ == event_type(*self),
        ensures
            final(out)@ == old(out)@ + all_checks(*self, self.rules@),
    {
        let ghost mid = out@;
        let mut i: usize = 0;
        while i < self.rules.len()
            invariant
                self.wf(),
                st@ == state_type(*self),
                et@ == event_type(*self),
                i <= self.rules@.len(),
                out@ == mid + all_checks(*self, self.rules@.take(i as int)),
            decreases self.rules@.len() - i,
        {
            proof {
                assert(self.rules@.take(i + 1).drop_last() =~= self.rules@.take(i as int));
                assert(crate::machine::rule_wf(self.rules@[i as int], self.states@.len(), self.events@.len()));
            }
            self.push_rule(out, &self.rules[i], st, et);
            proof {
                assert(out@ =~= mid + all_checks(*self, self.rules@.take(i + 1)));
            }
            i = i + 1;
        }
        assert(self.rules@.take(i as int) =~= self.rules@);
    }

    fn push_eval_block(&self, out: &mut Vec<u8>, st: &Vec<u8>, et: &Vec<u8>)
        requires
            self.wf(),
            st@ == state_type(*self),
            et@ == event_type(*self),
        ensures
            final(out)@ == old(out)@ + eval_block(*self),
    {
        proof {
            reveal_strlit("impl ");
            reveal_strlit(" {\n    pub fn process_event(&self, event: ");
            reveal_strlit(") -> ::core::option::Option<");
            reveal_strlit("> {\n");
            reveal_strlit("        ::core::option::Option::None\n    }\n}\n");
        }
        let ghost head = out@;
        push_lit(out, "impl ");
        push_bytes(out, st.as_slice());
        push_lit(out, " {\n    pub fn process_event(&self, event: ");
        push_bytes(out, et.as_slice());
        push_lit(out, ") -> ::core::option::Option<");
        push_bytes(out, st.as_slice());
        push_lit(out, "> {\n");
        self.push_checks(out, st, et);
        push_lit(out, "        ::core::option::Option::None\n    }\n}\n");
        assert(out@ =~= head + eval_block(*self));
    }

    /// Generates Rust source for the machine: a `State` and an `Event` enum
    /// (prefixed with the machine's name, if any), a `Default` impl giving
    /// the initial state, and `process_event`, which tests the rules in
    /// declaration order and returns the first match.
    pub fn emit(&self) -> (r: Vec<u8>)
        requires
            self.wf(),
        ensures
            r@ == emitted(*self),
    {
        proof {
            reveal_strlit("State");
            reveal_strlit("Event");
        }
        let st = self.prefixed("State");
        let et = self.prefixed("Event");
        let mut out: Vec<u8> = Vec::new();
        push_enum(&mut out, &self.state_derives, &st, &self.states);
        push_enum(&mut out, &self.event_derives, &et, &self.events);
        self.push_default_block(&mut out, &st);
        self.push_eval_block(&mut out, &st, &et);
        out
    }
}

/// The bytes of an ASCII text, as a new vector.
pub(crate) fn lit_vec(s: &str) -> (r: Vec<u8>)
    requires
        vstd::string::is_ascii(s),
    ensures
        r@ == lit(s),
{
    let mut r: Vec<u8> = Vec::new();
    push_lit(&mut r, s);
    assert(r@ =~= lit(s));
    r
}

} // verus!
