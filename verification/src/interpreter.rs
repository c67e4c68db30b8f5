use vstd::prelude::*;

use crate::cli::Args;
use crate::environment::{
    entries_insert, entry_value, lemma_same_keys, lemma_value_scope_bounds, lemma_value_scope_keys, scoped_store,
    value_scope, Environment,
};
use crate::error::InterpreterError;
use crate::instruction::{For, Function, Instruction, InstructionResult, InstructionType, Value};
use crate::text::{chars_equal, chars_of, string_of};
use crate::operators::UnaryOperator;
use crate::types::Type;
use crate::variable::Variable;
use crate::values::{
    cast, has_float, operate, operation, parsed_int, shown, unary_operate, value_text, FloatArithmetic,
};

verus! {

/// What a running test does outside the interpreter, in order: text sent to the
/// program under test, a line expected from it, and text printed to the console
/// (with or without a line end).
#[derive(Debug, PartialEq)]
pub enum Action {
    Send(String),
    Expect(String),
    Print(String),
    Println(String),
}

/// The actions of a run so far, and whether a program under test runs beside it.
pub struct Trace {
    pub actions: Vec<Action>,
    pub has_process: bool,
}

/// The most nested function calls a run makes before it stops.
pub const CALL_DEPTH: u32 = 10000;

/// What the interpreter keeps across a step: the environment stays consistent with
/// as many frames, actions are only added, and the run keeps its process or lack of
/// one.
pub open spec fn run_keeps(
    before_env: Environment,
    after_env: Environment,
    before: Trace,
    after: Trace,
) -> bool {
    &&& env_keeps(before_env, after_env)
    &&& after.has_process == before.has_process
    &&& before.actions@.len() <= after.actions@.len()
    &&& forall|i: int| 0 <= i < before.actions@.len() ==> #[trigger] after.actions@[i] == before.actions@[i]
}

/// The environment stays consistent, with the same frames below the current one and
/// as many scopes in the current one; while a frame runs, the global constants stay.
pub open spec fn env_keeps(before: Environment, after: Environment) -> bool {
    &&& after.wf()
    &&& after.frames_view().len() == before.frames_view().len()
    &&& before.frames_view().len() > 0 ==> after.globals() == before.globals()
    &&& before.frames_view().len() > 0 ==> after.frames_view().drop_last()
        == before.frames_view().drop_last() && after.frames_view().last().len()
        == before.frames_view().last().len()
}

/// Opening a scope, running what keeps it, and closing it keeps the environment.
proof fn lemma_scope_closed(o: Environment, m: Environment, e: Environment, f: Environment)
    requires
        o.frames_view().len() > 0,
        m.globals() == o.globals(),
        f.globals() == e.globals(),
        m.frames_view() == o.frames_view().update(
            o.frames_view().len() - 1,
            o.frames_view().last().push(seq![]),
        ),
        env_keeps(m, e),
        f.wf(),
        f.frames_view().len() == e.frames_view().len(),
        f.frames_view().drop_last() == e.frames_view().drop_last(),
        f.frames_view().last() == if e.frames_view().last().len() > 0 {
            e.frames_view().last().drop_last()
        } else {
            e.frames_view().last()
        },
    ensures
        env_keeps(o, f),
{
    assert(m.frames_view().drop_last() =~= o.frames_view().drop_last());
}

/// Opening a frame, running what keeps it, and closing it keeps the environment.
proof fn lemma_frame_closed(o: Environment, m: Environment, e: Environment, f: Environment)
    requires
        o.wf(),
        m.globals() == o.globals(),
        f.globals() == e.globals(),
        m.frames_view() == o.frames_view().push(seq![seq![]]),
        env_keeps(m, e),
        f.wf(),
        f.frames_view() == e.frames_view().drop_last(),
    ensures
        env_keeps(o, f),
{
    assert(m.frames_view().drop_last() =~= o.frames_view());
}

/// What a unary operation on the value `v` gives, where float arithmetic does not
/// decide it: `Some(Some(value))`, or `Some(None)` where the run stops.
pub open spec fn unary_outcome(op: UnaryOperator, v: Value) -> Option<Option<Value>> {
    match (op, v) {
        (UnaryOperator::Not, Value::Bool(b)) => Some(Some(Value::Bool(!b))),
        (UnaryOperator::Negation, Value::Int(i)) => Some(Some(Value::Int(0i64.wrapping_sub(i)))),
        (UnaryOperator::Negation, Value::Float(_)) => None,
        _ => Some(None),
    }
}

/// `!` flips a boolean, so applying it twice gives the boolean back; `-` gives the
/// negative of an integer (wrapping only at `i64::MIN`), so applying it twice gives
/// the integer back. `!` takes only booleans, and `-` neither booleans nor texts.
pub proof fn law_unary_operators(b: bool, i: i64, v: Value)
    ensures
        unary_outcome(UnaryOperator::Not, Value::Bool(b)) matches Some(Some(Value::Bool(c))) && c != b
            && unary_outcome(UnaryOperator::Not, Value::Bool(c)) == Some(Some(Value::Bool(b))),
        i != i64::MIN ==> unary_outcome(UnaryOperator::Negation, Value::Int(i)) == Some(
            Some(Value::Int((-i) as i64)),
        ),
        unary_outcome(UnaryOperator::Negation, Value::Int(i)) matches Some(Some(Value::Int(j)))
            && unary_outcome(UnaryOperator::Negation, Value::Int(j)) == Some(Some(Value::Int(i))),
        !(v is Bool) ==> unary_outcome(UnaryOperator::Not, v) == Some(None::<Value>),
        (v is Bool || v is String) ==> unary_outcome(UnaryOperator::Negation, v) == Some(None::<Value>),
{
}

/// What casting the value `v` to `to` gives, where float arithmetic does not decide
/// it: `Some(Some(value))`, or `Some(None)` where the run stops.
pub open spec fn cast_outcome(v: Value, to: Type) -> Option<Option<Value>> {
    match to {
        Type::String => match shown(v) {
            Some(t) => Some(Some(Value::String(t))),
            None => None,
        },
        Type::Int => match v {
            Value::String(s) => Some(
                match parsed_int(s) {
                    Some(i) => Some(Value::Int(i)),
                    None => None,
                },
            ),
            Value::Bool(b) => Some(Some(Value::Int(if b { 1 } else { 0 }))),
            Value::Float(_) => None,
            _ => Some(None),
        },
        Type::Bool => match v {
            Value::String(s) => Some(
                if s == "true"@ {
                    Some(Value::Bool(true))
                } else if s == "false"@ {
                    Some(Value::Bool(false))
                } else {
                    None
                },
            ),
            Value::Int(i) => Some(Some(Value::Bool(i != 0))),
            Value::Float(_) => None,
            _ => Some(None),
        },
        Type::Float => match v {
            Value::String(_) | Value::Int(_) | Value::Bool(_) => None,
            _ => Some(None),
        },
        _ => Some(None),
    }
}

/// Casts that undo each other: an integer cast to a text and back is the same
/// integer, a boolean cast to a text and back, or to an integer and back, is the same
/// boolean; an integer cast to a boolean is whether it is nonzero, and a boolean
/// cast to an integer is one or zero.
pub proof fn law_cast_round_trips(i: i64, b: bool)
    ensures
        cast_outcome(Value::Int(i), Type::String) matches Some(Some(Value::String(t))) && cast_outcome(
            Value::String(t),
            Type::Int,
        ) == Some(Some(Value::Int(i))),
        cast_outcome(Value::Bool(b), Type::String) matches Some(Some(Value::String(t))) && cast_outcome(
            Value::String(t),
            Type::Bool,
        ) == Some(Some(Value::Bool(b))),
        cast_outcome(Value::Bool(b), Type::Int) matches Some(Some(Value::Int(n))) && (n == 1 || n == 0)
            && cast_outcome(Value::Int(n), Type::Bool) == Some(Some(Value::Bool(b))),
        cast_outcome(Value::Int(i), Type::Bool) == Some(Some(Value::Bool(i != 0))),
{
    crate::values::law_parse_int_text(i);
    assert("true"@ != "false"@) by {
        reveal_strlit("true");
        reveal_strlit("false");
    }
}

/// An action of a run as the rules of the language tell it.
pub ghost enum Step {
    Send(Seq<char>),
    Expect(Seq<char>),
    Print(Seq<char>),
    Println(Seq<char>),
}

/// The step that an action stands for.
pub open spec fn step_of(a: Action) -> Step {
    match a {
        Action::Send(s) => Step::Send(s@),
        Action::Expect(s) => Step::Expect(s@),
        Action::Print(s) => Step::Print(s@),
        Action::Println(s) => Step::Println(s@),
    }
}

/// The steps that actions stand for, in order.
pub open spec fn steps_of(actions: Seq<Action>) -> Seq<Step> {
    actions.map_values(|a: Action| step_of(a))
}

/// The values of entries, under their names.
pub open spec fn stored(entries: Seq<(Seq<char>, InstructionResult)>) -> Seq<(Seq<char>, Value)> {
    entries.map_values(|e: (Seq<char>, InstructionResult)| (e.0, e.1@))
}

/// The values of the scopes of each frame.
pub open spec fn stored_frames(frames: Seq<Seq<Seq<(Seq<char>, InstructionResult)>>>) -> Seq<Seq<Seq<(Seq<char>, Value)>>> {
    frames.map_values(
        |f: Seq<Seq<(Seq<char>, InstructionResult)>>| f.map_values(|e: Seq<(Seq<char>, InstructionResult)>| stored(e)),
    )
}

/// The state of a run: the values of the frames' scopes and of the global constants,
/// the known functions, the steps so far, and whether a program under test runs
/// beside it.
pub ghost struct RunState {
    pub frames: Seq<Seq<Seq<(Seq<char>, Value)>>>,
    pub globals: Seq<(Seq<char>, Value)>,
    pub functions: Seq<(Seq<char>, Function)>,
    pub steps: Seq<Step>,
    pub has_process: bool,
}

/// The state of a run with the environment `env` and the trace `trace`.
pub open spec fn run_state(env: Environment, trace: Trace) -> RunState {
    RunState {
        frames: stored_frames(env.frames_view()),
        globals: stored(env.globals()),
        functions: env.function_table(),
        steps: steps_of(trace.actions@),
        has_process: trace.has_process,
    }
}

impl RunState {
    /// The value of `key`: from the innermost scope of the current frame that holds
    /// it, else from the global constants.
    pub open spec fn lookup(self, key: Seq<char>) -> Option<Value> {
        if self.frames.len() == 0 {
            entry_value(self.globals, key)
        } else {
            match value_scope(self.frames.last(), self.frames.last().len() as int, key) {
                Some(i) => entry_value(self.frames.last()[i], key),
                None => entry_value(self.globals, key),
            }
        }
    }

    /// With a new innermost scope in the current frame.
    pub open spec fn open_scope(self) -> RunState {
        RunState {
            frames: self.frames.update(self.frames.len() - 1, self.frames.last().push(seq![])),
            ..self
        }
    }

    /// Without the innermost scope of the current frame, if it has one.
    pub open spec fn close_scope(self) -> RunState {
        RunState {
            frames: self.frames.update(
                self.frames.len() - 1,
                if self.frames.last().len() > 0 {
                    self.frames.last().drop_last()
                } else {
                    self.frames.last()
                },
            ),
            ..self
        }
    }

    /// Whether a value can be stored: there is no frame, or the current frame has a
    /// scope.
    pub open spec fn can_store(self) -> bool {
        self.frames.len() == 0 || self.frames.last().len() > 0
    }

    /// With `value` stored under `key`: as a global constant without a frame, else
    /// in the innermost scope of the current frame that holds the key, or else in
    /// its innermost scope.
    pub open spec fn store(self, key: Seq<char>, value: Value) -> RunState {
        if self.frames.len() == 0 {
            RunState { globals: entries_insert(self.globals, key, value), ..self }
        } else {
            RunState {
                frames: self.frames.update(
                    self.frames.len() - 1,
                    scoped_store(self.frames.last(), key, value),
                ),
                ..self
            }
        }
    }

    /// With the step `s` added.
    pub open spec fn step(self, s: Step) -> RunState {
        RunState { steps: self.steps.push(s), ..self }
    }

    /// With a new current frame that has one empty scope.
    pub open spec fn open_frame(self) -> RunState {
        RunState { frames: self.frames.push(seq![seq![]]), ..self }
    }

    /// Without the current frame.
    pub open spec fn close_frame(self) -> RunState {
        RunState { frames: self.frames.drop_last(), ..self }
    }
}

/// The state after binding the first `n` parameters to the values `vs` in order.
pub open spec fn bind(params: Seq<Variable>, vs: Seq<Value>, n: int, st: RunState) -> RunState
    decreases n,
{
    if n <= 0 {
        st
    } else {
        bind(params, vs, n - 1, st).store(params[n - 1].name@, vs[n - 1])
    }
}

/// Running the instruction `i` from the state `st` with at most `d` nested calls,
/// where the rules of the language decide it without float arithmetic:
/// `Some((Some(v), after))` for the value `v` and the state after, `Some((None, after))`
/// for a run that stops with the state at that point. `None` where float arithmetic
/// decides, for the definition of a function inside a body (the parser makes none),
/// and for a test or an iteration outside a loop. A call runs the known function's
/// body in a frame of its own, its parameters bound to the arguments' values.
pub open spec fn run(i: Instruction, st: RunState, d: nat) -> Option<(Option<Value>, RunState)>
    decreases d, i, 0int,
{
    match i.instruction_type {
        InstructionType::StringLiteral(x) => Some((Some(Value::String(x.value@)), st)),
        InstructionType::RegexLiteral(x) => Some((Some(Value::Regex(x.value@.map_values(|s: String| s@))), st)),
        InstructionType::IntegerLiteral(x) => Some((Some(Value::Int(x.value)), st)),
        InstructionType::FloatLiteral(x) => Some((Some(Value::Float(x.value@)), st)),
        InstructionType::BooleanLiteral(x) => Some((Some(Value::Bool(x.value)), st)),
        InstructionType::Nothing => Some((Some(Value::Nothing), st)),
        InstructionType::Variable(v) => Some((st.lookup(v.name@), st)),
        InstructionType::Paren(p) => run(*p.expression, st, d),
        InstructionType::UnaryOperation(u) => match run(*u.body, st, d) {
            Some((Some(v), s1)) => match unary_outcome(u.operator, v) {
                Some(o) => Some((o, s1)),
                None => None,
            },
            other => other,
        },
        InstructionType::BinaryOperation(b) => match run(*b.left, st, d) {
            Some((Some(l), s1)) => match run(*b.right, s1, d) {
                Some((Some(r), s2)) => if has_float(l, r) {
                    None
                } else {
                    Some((operation(b.operator, l, r), s2))
                },
                other => other,
            },
            other => other,
        },
        InstructionType::TypeCast(c) => match run(*c.from, st, d) {
            Some((Some(v), s1)) => match cast_outcome(v, c.to) {
                Some(o) => Some((o, s1)),
                None => None,
            },
            other => other,
        },
        InstructionType::Conditional(c) => match run(*c.condition, st, d) {
            Some((Some(Value::Bool(true)), s1)) => run(*c.if_body, s1, d),
            Some((Some(Value::Bool(false)), s1)) => run(*c.else_body, s1, d),
            Some((Some(_), s1)) => Some((None, s1)),
            other => other,
        },
        InstructionType::Assignment(a) => match run(*a.body, st, d) {
            Some((Some(v), s1)) => if s1.can_store() {
                Some((Some(v), s1.store(a.variable.name@, v)))
            } else {
                Some((None, s1))
            },
            other => other,
        },
        InstructionType::Block(b) => if st.frames.len() == 0 {
            Some((None, st))
        } else {
            match run_statements(b.statements@, b.statements@.len() as int, st.open_scope(), d) {
                Some((o, s1)) => Some((o, s1.close_scope())),
                None => None,
            }
        },
        InstructionType::BuiltIn(b) => if b.name@ == "print"@ || b.name@ == "println"@ {
            match run_arguments(b.arguments@, b.arguments@.len() as int, st, d) {
                Some((Some(vs), s1)) => match printed(vs) {
                    Some(t) => Some(
                        (
                            Some(Value::Nothing),
                            s1.step(
                                if b.name@ == "print"@ {
                                    Step::Print(t)
                                } else {
                                    Step::Println(t)
                                },
                            ),
                        ),
                    ),
                    None => None,
                },
                Some((None, s1)) => Some((None, s1)),
                None => None,
            }
        } else if !(b.name@ == "input"@ || b.name@ == "output"@) || b.arguments@.len() == 0 {
            Some((None, st))
        } else {
            match run(b.arguments@[0], st, d) {
                Some((Some(Value::String(s)), s1)) => if s1.has_process {
                    Some(
                        (
                            Some(Value::Nothing),
                            s1.step(
                                if b.name@ == "input"@ {
                                    Step::Send(s)
                                } else {
                                    Step::Expect(s)
                                },
                            ),
                        ),
                    )
                } else {
                    Some((None, s1))
                },
                Some((Some(_), s1)) => Some((None, s1)),
                other => other,
            }
        },
        InstructionType::FunctionCall(c) => match entry_value(st.functions, c.name@) {
            None => Some((None, st)),
            Some(f) => if d == 0 {
                Some((None, st))
            } else {
                match run_arguments(c.arguments@, c.arguments@.len() as int, st, d) {
                    Some((Some(vs), s1)) => {
                        let n = if f.parameters@.len() < vs.len() {
                            f.parameters@.len() as int
                        } else {
                            vs.len() as int
                        };
                        match run(*f.body, bind(f.parameters@, vs, n, s1.open_frame()).open_scope(), (d - 1) as nat) {
                            Some((o, s2)) => Some((o, s2.close_scope().close_frame())),
                            None => None,
                        }
                    },
                    Some((None, s1)) => Some((None, s1)),
                    None => None,
                }
            },
        },
        InstructionType::For(f) => if st.frames.len() == 0 {
            Some((None, st))
        } else {
            match run(*f.assignment.body, st.open_scope(), d) {
                Some((Some(Value::Regex(items)), s1)) => match run_items(f, items, items.len() as int, s1, d) {
                    Some((o, s2)) => Some((o, s2.close_scope())),
                    None => None,
                },
                Some((_, s1)) => Some((None, s1.close_scope())),
                None => None,
            }
        },
        _ => None,
    }
}

/// Running the statements `stmts[..n]` of a block in order (see `run`): the value
/// of the last, nothing if there is none, or a stop where a statement stops.
pub open spec fn run_statements(stmts: Seq<Instruction>, n: int, st: RunState, d: nat) -> Option<(Option<Value>, RunState)>
    decreases d, stmts, n,
{
    if n <= 0 || n > stmts.len() {
        Some((Some(Value::Nothing), st))
    } else {
        match run_statements(stmts, n - 1, st, d) {
            Some((Some(_), s1)) => run(stmts[n - 1], s1, d),
            other => other,
        }
    }
}

/// Running the arguments `args[..n]` of a call in order (see `run`): their values,
/// or a stop where one stops.
pub open spec fn run_arguments(args: Seq<Instruction>, n: int, st: RunState, d: nat) -> Option<(Option<Seq<Value>>, RunState)>
    decreases d, args, n,
{
    if n <= 0 || n > args.len() {
        Some((Some(seq![]), st))
    } else {
        match run_arguments(args, n - 1, st, d) {
            Some((Some(vs), s1)) => match run(args[n - 1], s1, d) {
                Some((Some(v), s2)) => Some((Some(vs.push(v)), s2)),
                Some((None, s2)) => Some((None, s2)),
                None => None,
            },
            other => other,
        }
    }
}

/// Running the body of the loop `f` for the texts `items[..n]` in order, each held
/// by the loop variable (see `run`): the value of the last run, nothing if there is
/// none, or a stop where a run stops.
pub open spec fn run_items(f: For, items: Seq<Seq<char>>, n: int, st: RunState, d: nat) -> Option<(Option<Value>, RunState)>
    decreases d, f, n,
{
    if n <= 0 || n > items.len() {
        Some((Some(Value::Nothing), st))
    } else {
        match run_items(f, items, n - 1, st, d) {
            Some((Some(_), s1)) => run(*f.body, s1.store(f.assignment.variable.name@, Value::String(items[n - 1])), d),
            other => other,
        }
    }
}

/// The text that `print` and `println` show for the values `vs`: each value's text
/// followed by a space, where none is a float.
pub open spec fn printed(vs: Seq<Value>) -> Option<Seq<char>>
    decreases vs.len(),
{
    if vs.len() == 0 {
        Some(seq![])
    } else {
        match (printed(vs.drop_last()), shown(vs.last())) {
            (Some(a), Some(t)) => Some(a + t + seq![' ']),
            _ => None,
        }
    }
}

/// Every prefix of values that can be printed can be printed.
proof fn lemma_printed_prefix(vs: Seq<Value>, i: int)
    requires
        printed(vs) is Some,
        0 <= i <= vs.len(),
    ensures
        printed(vs.take(i)) is Some,
    decreases vs.len(),
{
    if i == vs.len() {
        assert(vs.take(i) =~= vs);
    } else {
        lemma_printed_prefix(vs.drop_last(), i);
        assert(vs.take(i) =~= vs.drop_last().take(i));
    }
}

/// Whether a step ended as the run rules say, where they decide it: with the state
/// `after` and, for a value, that value, or else with an error.
pub open spec fn ran_as(
    expected: Option<(Option<Value>, RunState)>,
    after: RunState,
    r: Result<InstructionResult, InterpreterError>,
) -> bool {
    match expected {
        Some((o, st)) => after == st && match o {
            Some(v) => r is Ok && r->Ok_0@ == v,
            None => r is Err,
        },
        None => true,
    }
}

/// The run state reads a name as the environment does.
proof fn lemma_lookup_view(env: Environment, trace: Trace, k: Seq<char>)
    requires
        env.wf(),
    ensures
        run_state(env, trace).lookup(k) == match env.lookup(k) {
            Some(x) => Some(x@),
            None => None::<Value>,
        },
{
    env.lemma_values_distinct();
    let st = run_state(env, trace);
    lemma_same_keys(env.globals(), st.globals, k);
    if env.frames_view().len() > 0 {
        let last = env.frames_view().last();
        let slast = st.frames.last();
        assert(slast == last.map_values(|e: Seq<(Seq<char>, InstructionResult)>| stored(e)));
        assert forall|j: int| 0 <= j < last.len() implies (entry_value(#[trigger] last[j], k) is Some) == (
        entry_value(slast[j], k) is Some) by {
            lemma_same_keys(last[j], slast[j], k);
        }
        lemma_value_scope_keys(last, slast, last.len() as int, k);
        match value_scope(last, last.len() as int, k) {
            Some(i) => {
                lemma_value_scope_bounds(last, last.len() as int, k);
                lemma_same_keys(last[i], slast[i], k);
            },
            None => {},
        }
    }
}

/// Storing a value in the environment stores its value in the run state.
proof fn lemma_store_view(o: Environment, f: Environment, trace: Trace, k: Seq<char>, v: InstructionResult)
    requires
        o.wf(),
        o.frames_view().len() == 0 ==> f.globals() == entries_insert(o.globals(), k, v) && f.frames_view()
            == o.frames_view(),
        o.frames_view().len() > 0 ==> f.frames_view() == o.frames_view().update(
            o.frames_view().len() - 1,
            scoped_store(o.frames_view().last(), k, v),
        ) && f.globals() == o.globals(),
        o.frames_view().len() > 0 ==> o.frames_view().last().len() > 0,
        f.function_table() == o.function_table(),
    ensures
        run_state(f, trace) == run_state(o, trace).store(k, v@),
{
    o.lemma_values_distinct();
    let so = run_state(o, trace);
    if o.frames_view().len() == 0 {
        lemma_same_keys(o.globals(), so.globals, k);
        assert(stored(entries_insert(o.globals(), k, v)) =~= entries_insert(so.globals, k, v@));
        assert(run_state(f, trace).frames =~= so.frames);
    } else {
        let last = o.frames_view().last();
        let slast = so.frames.last();
        assert(slast == last.map_values(|e: Seq<(Seq<char>, InstructionResult)>| stored(e)));
        assert forall|j: int| 0 <= j < last.len() implies (entry_value(#[trigger] last[j], k) is Some) == (
        entry_value(slast[j], k) is Some) by {
            lemma_same_keys(last[j], slast[j], k);
        }
        lemma_value_scope_keys(last, slast, last.len() as int, k);
        lemma_value_scope_bounds(last, last.len() as int, k);
        let t = match value_scope(last, last.len() as int, k) {
            Some(i) => i,
            None => last.len() - 1,
        };
        lemma_same_keys(last[t], slast[t], k);
        assert(stored(entries_insert(last[t], k, v)) =~= entries_insert(slast[t], k, v@));
        assert(scoped_store(last, k, v).map_values(|e: Seq<(Seq<char>, InstructionResult)>| stored(e))
            =~= scoped_store(slast, k, v@));
        let a = run_state(f, trace).frames;
        let b = so.store(k, v@).frames;
        assert forall|j: int| 0 <= j < a.len() implies a[j] == b[j] by {
            if j < a.len() - 1 {
                assert(f.frames_view()[j] == o.frames_view()[j]);
            }
        }
        assert(a =~= b);
    }
}

/// Opening a scope in the environment opens one in the run state.
proof fn lemma_open_view(o: Environment, m: Environment, trace: Trace)
    requires
        o.frames_view().len() > 0,
        m.frames_view() == o.frames_view().update(
            o.frames_view().len() - 1,
            o.frames_view().last().push(seq![]),
        ),
        m.globals() == o.globals(),
        m.function_table() == o.function_table(),
    ensures
        run_state(m, trace) == run_state(o, trace).open_scope(),
{
    let a = stored_frames(m.frames_view());
    let b = run_state(o, trace).open_scope().frames;
    let last = o.frames_view().last();
    assert(a.len() == b.len());
    assert forall|j: int| 0 <= j < a.len() implies a[j] == b[j] by {
        if j < a.len() - 1 {
            assert(m.frames_view()[j] == o.frames_view()[j]);
        } else {
            assert(stored(seq![]) =~= seq![]);
            assert(last.push(seq![]).map_values(|e: Seq<(Seq<char>, InstructionResult)>| stored(e)) =~= last.map_values(
                |e: Seq<(Seq<char>, InstructionResult)>| stored(e),
            ).push(seq![]));
        }
    }
    assert(a =~= b);
}

/// Closing a scope in the environment closes one in the run state.
proof fn lemma_close_view(e: Environment, f: Environment, trace: Trace)
    requires
        e.frames_view().len() > 0,
        f.frames_view().len() == e.frames_view().len(),
        f.frames_view().drop_last() == e.frames_view().drop_last(),
        f.frames_view().last() == if e.frames_view().last().len() > 0 {
            e.frames_view().last().drop_last()
        } else {
            e.frames_view().last()
        },
        f.globals() == e.globals(),
        f.function_table() == e.function_table(),
    ensures
        run_state(f, trace) == run_state(e, trace).close_scope(),
{
    let a = stored_frames(f.frames_view());
    let b = run_state(e, trace).close_scope().frames;
    assert forall|j: int| 0 <= j < a.len() implies a[j] == b[j] by {
        if j < a.len() - 1 {
            assert(f.frames_view()[j] == f.frames_view().drop_last()[j]);
            assert(e.frames_view()[j] == e.frames_view().drop_last()[j]);
        } else {
            assert(a[j] =~= b[j]);
        }
    }
    assert(a =~= b);
}

/// Starting a frame in the environment starts one in the run state.
proof fn lemma_frame_open_view(o: Environment, m: Environment, trace: Trace)
    requires
        m.frames_view() == o.frames_view().push(seq![seq![]]),
        m.globals() == o.globals(),
        m.function_table() == o.function_table(),
    ensures
        run_state(m, trace) == run_state(o, trace).open_frame(),
{
    assert(stored(seq![]) =~= seq![]);
    assert(seq![seq![]].map_values(|e: Seq<(Seq<char>, InstructionResult)>| stored(e)) =~= seq![seq![]]);
    assert(stored_frames(m.frames_view()) =~= stored_frames(o.frames_view()).push(seq![seq![]]));
}

/// Ending the current frame in the environment ends it in the run state.
proof fn lemma_frame_close_view(e: Environment, f: Environment, trace: Trace)
    requires
        e.frames_view().len() > 0,
        f.frames_view() == e.frames_view().drop_last(),
        f.globals() == e.globals(),
        f.function_table() == e.function_table(),
    ensures
        run_state(f, trace) == run_state(e, trace).close_frame(),
{
    assert(stored_frames(f.frames_view()) =~= stored_frames(e.frames_view()).drop_last());
}

/// Adding an action adds its step.
proof fn lemma_step_view(env: Environment, before: Trace, after: Trace, a: Action)
    requires
        after.actions@ == before.actions@.push(a),
        after.has_process == before.has_process,
    ensures
        run_state(env, after) == run_state(env, before).step(step_of(a)),
{
    assert(steps_of(after.actions@) =~= steps_of(before.actions@).push(step_of(a)));
}

/// A prefix of the arguments that can be run can be run, and where it stops the
/// arguments stop.
proof fn lemma_arguments_prefix(args: Seq<Instruction>, n: int, i: int, st: RunState, d: nat)
    requires
        0 <= i <= n <= args.len(),
        run_arguments(args, n, st, d) is Some,
    ensures
        run_arguments(args, i, st, d) is Some,
        run_arguments(args, i, st, d) matches Some((None, _)) ==> run_arguments(args, n, st, d) == run_arguments(
            args,
            i,
            st,
            d,
        ),
    decreases n,
{
    if i < n {
        lemma_arguments_prefix(args, n - 1, i, st, d);
    }
}

/// A prefix of the statements that can be run can be run, and where it stops the
/// block stops.
proof fn lemma_statements_prefix(stmts: Seq<Instruction>, n: int, i: int, st: RunState, d: nat)
    requires
        0 <= i <= n <= stmts.len(),
        run_statements(stmts, n, st, d) is Some,
    ensures
        run_statements(stmts, i, st, d) is Some,
        run_statements(stmts, i, st, d) matches Some((None, _)) ==> run_statements(stmts, n, st, d) == run_statements(
            stmts,
            i,
            st,
            d,
        ),
    decreases n,
{
    if i < n {
        lemma_statements_prefix(stmts, n - 1, i, st, d);
    }
}

/// A prefix of the iterations that can be run can be run, and where it stops the
/// loop stops.
proof fn lemma_items_prefix(f: For, items: Seq<Seq<char>>, n: int, i: int, st: RunState, d: nat)
    requires
        0 <= i <= n <= items.len(),
        run_items(f, items, n, st, d) is Some,
    ensures
        run_items(f, items, i, st, d) is Some,
        run_items(f, items, i, st, d) matches Some((None, _)) ==> run_items(f, items, n, st, d) == run_items(
            f,
            items,
            i,
            st,
            d,
        ),
    decreases n,
{
    if i < n {
        lemma_items_prefix(f, items, n - 1, i, st, d);
    }
}

/// The error of a run that meets what it cannot do.
fn failed(reason: &str) -> (r: InterpreterError)
    ensures
        r matches InterpreterError::TestFailed(m) && m@ == reason@,
{
    InterpreterError::TestFailed(string_of(reason))
}

impl crate::instruction::StringLiteral {
    /// The value of the literal.
    pub fn interpret(&self) -> (r: InstructionResult)
        ensures
            r@ == Value::String(self.value@),
    {
        InstructionResult::String(self.value.clone())
    }
}

impl crate::instruction::RegexLiteral {
    /// The value of the literal: the texts it stands for.
    pub fn interpret(&self) -> (r: InstructionResult)
        ensures
            r@ == Value::Regex(self.value@.map_values(|s: String| s@)),
    {
        let c = crate::instruction::copy_strings(&self.value);
        InstructionResult::Regex(c)
    }
}

impl crate::instruction::IntegerLiteral {
    /// The value of the literal.
    pub fn interpret(&self) -> (r: InstructionResult)
        ensures
            r@ == Value::Int(self.value),
    {
        InstructionResult::Int(self.value)
    }
}

impl crate::instruction::FloatLiteral {
    /// The value of the literal, held as its text.
    pub fn interpret(&self) -> (r: InstructionResult)
        ensures
            r@ == Value::Float(self.value@),
    {
        InstructionResult::Float(self.value.clone())
    }
}

impl crate::instruction::BooleanLiteral {
    /// The value of the literal.
    pub fn interpret(&self) -> (r: InstructionResult)
        ensures
            r@ == Value::Bool(self.value),
    {
        InstructionResult::Bool(self.value)
    }
}

impl Instruction {
    /// Runs this instruction: its value, or why the run stops. Actions are added to
    /// `trace`; `depth` is how many more nested calls may be made.
    pub fn interpret<F: FloatArithmetic>(
        &self,
        environment: &mut Environment,
        trace: &mut Trace,
        floats: &F,
        depth: u32,
    ) -> (r: Result<InstructionResult, InterpreterError>)
        requires
            old(environment).wf(),
        ensures
            run_keeps(*old(environment), *final(environment), *old(trace), *final(trace)),
            ran_as(run(*self, run_state(*old(environment), *old(trace)), depth as nat), run_state(*final(environment), *final(trace)), r),
        decreases depth, self, 1nat,
    {
        match &self.instruction_type {
            InstructionType::StringLiteral(s) => Ok(s.interpret()),
            InstructionType::RegexLiteral(x) => Ok(x.interpret()),
            InstructionType::IntegerLiteral(i) => Ok(i.interpret()),
            InstructionType::FloatLiteral(f) => Ok(f.interpret()),
            InstructionType::BooleanLiteral(b) => Ok(b.interpret()),
            InstructionType::BuiltIn(b) => self.interpret_builtin(b, environment, trace, floats, depth),
            InstructionType::Block(b) => self.interpret_block(b, environment, trace, floats, depth),
            InstructionType::Paren(p) => p.expression.interpret(environment, trace, floats, depth),
            InstructionType::For(f) => self.interpret_for(f, environment, trace, floats, depth),
            InstructionType::Function(f) => {
                environment.add_function(f.clone());
                Ok(InstructionResult::Nothing)
            },
            InstructionType::Conditional(c) => {
                let condition = c.condition.interpret(environment, trace, floats, depth)?;
                match condition {
                    InstructionResult::Bool(true) => c.if_body.interpret(environment, trace, floats, depth),
                    InstructionResult::Bool(false) => c.else_body.interpret(environment, trace, floats, depth),
                    _ => Err(failed("condition is not a boolean")),
                }
            },
            InstructionType::Assignment(a) => {
                let value = a.body.interpret(environment, trace, floats, depth)?;
                if !environment.can_insert() {
                    return Err(failed("no scope to store a value in"));
                }
                let ghost before = *environment;
                let stored_value = value.clone();
                let ghost sv = stored_value;
                environment.insert(a.variable.name.clone(), stored_value);
                proof {
                    lemma_store_view(before, *environment, *trace, a.variable.name@, sv);
                }
                Ok(value)
            },
            InstructionType::Variable(v) => {
                proof {
                    lemma_lookup_view(*environment, *trace, v.name@);
                }
                match environment.get(v.name.as_str()) {
                    Some(value) => Ok(value),
                    None => Err(failed("variable not found")),
                }
            },
            InstructionType::FunctionCall(c) => self.interpret_call(c, environment, trace, floats, depth),
            InstructionType::UnaryOperation(u) => {
                let value = u.body.interpret(environment, trace, floats, depth)?;
                unary_operate(u.operator, &value, floats)
            },
            InstructionType::BinaryOperation(b) => {
                let left = b.left.interpret(environment, trace, floats, depth)?;
                let right = b.right.interpret(environment, trace, floats, depth)?;
                operate(b.operator, &left, &right, floats)
            },
            InstructionType::TypeCast(t) => {
                let value = t.from.interpret(environment, trace, floats, depth)?;
                cast(&value, &t.to, floats)
            },
            InstructionType::Nothing => Ok(InstructionResult::Nothing),
            _ => Err(failed("instruction cannot run here")),
        }
    }

    /// Runs a call of a built-in function. `print` and `println` print their arguments'
    /// texts, each followed by a space; `input` sends its argument to the program under
    /// test and `output` expects it as the next line from it.
    fn interpret_builtin<F: FloatArithmetic>(
        &self,
        builtin: &crate::instruction::BuiltIn,
        environment: &mut Environment,
        trace: &mut Trace,
        floats: &F,
        depth: u32,
    ) -> (r: Result<InstructionResult, InterpreterError>)
        requires
            old(environment).wf(),
            self.instruction_type == InstructionType::BuiltIn(*builtin),
        ensures
            run_keeps(*old(environment), *final(environment), *old(trace), *final(trace)),
            r is Ok ==> r->Ok_0@ == Value::Nothing,
            ran_as(run(*self, run_state(*old(environment), *old(trace)), depth as nat), run_state(*final(environment), *final(trace)), r),
        decreases depth, self, 0nat,
    {
        proof {
            reveal_strlit("print");
            reveal_strlit("println");
            reveal_strlit("input");
            reveal_strlit("output");
            assert("print"@[0] != "input"@[0] && "print"@[0] != "output"@[0]);
            assert("println"@.len() != "input"@.len() && "println"@.len() != "output"@.len());
        }
        let ghost st0 = run_state(*old(environment), *old(trace));
        let is_print = chars_equal(&chars_of(builtin.name.as_str()), "print");
        let is_println = chars_equal(&chars_of(builtin.name.as_str()), "println");
        if is_print || is_println {
            let ghost args = builtin.arguments@;
            let ghost all = run_arguments(args, args.len() as int, st0, depth as nat);
            let ghost mut values: Seq<Value> = seq![];
            let mut text = String::new();
            let mut i: usize = 0;
            proof {
                reveal_strlit(" ");
                assert(" "@ =~= seq![' ']);
            }
            while i < builtin.arguments.len()
                invariant
                    self.instruction_type == InstructionType::BuiltIn(*builtin),
                    i <= builtin.arguments@.len(),
                    run_keeps(*old(environment), *environment, *old(trace), *trace),
                    st0 == run_state(*old(environment), *old(trace)),
                    builtin.name@ == "print"@ || builtin.name@ == "println"@,
                    !(builtin.name@ == "input"@ || builtin.name@ == "output"@),
                    args == builtin.arguments@,
                    all == run_arguments(args, args.len() as int, st0, depth as nat),
                    " "@ == seq![' '],
                    all is Some ==> run_arguments(args, i as int, st0, depth as nat) == Some(
                        (Some(values), run_state(*environment, *trace)),
                    ),
                    all is Some && printed(values) is Some ==> printed(values) == Some(text@),
                decreases builtin.arguments@.len() - i,
            {
                proof {
                    if all is Some {
                        lemma_arguments_prefix(args, args.len() as int, i + 1, st0, depth as nat);
                    }
                }
                assert(decreases_to!(self => self.instruction_type));
                assert(decreases_to!(self.instruction_type => self.instruction_type->BuiltIn_0));
                assert(decreases_to!(*builtin => builtin.arguments));
                assert(decreases_to!(builtin.arguments => builtin.arguments@));
                assert(decreases_to!(builtin.arguments@ => builtin.arguments@[i as int]));
                let value = builtin.arguments[i].interpret(environment, trace, floats, depth)?;
                let shown_text = value_text(&value, floats);
                text.append(shown_text.as_str());
                text.append(" ");
                proof {
                    let before = values;
                    values = values.push(value@);
                    assert(values.drop_last() =~= before);
                }
                i += 1;
            }
            proof {
                if all is Some {
                    assert(args.len() == i);
                }
            }
            let ghost before = *trace;
            let action = if is_print {
                Action::Print(text)
            } else {
                Action::Println(text)
            };
            let ghost ga = action;
            trace.actions.push(action);
            proof {
                lemma_step_view(*environment, before, *trace, ga);
            }
            return Ok(InstructionResult::Nothing);
        }
        let is_input = chars_equal(&chars_of(builtin.name.as_str()), "input");
        let is_output = chars_equal(&chars_of(builtin.name.as_str()), "output");
        if !(is_input || is_output) || builtin.arguments.len() == 0 {
            return Err(failed("unknown built-in call"));
        }
        assert(decreases_to!(self => self.instruction_type));
        assert(decreases_to!(self.instruction_type => self.instruction_type->BuiltIn_0));
        assert(decreases_to!(*builtin => builtin.arguments));
        assert(decreases_to!(builtin.arguments => builtin.arguments@));
        assert(decreases_to!(builtin.arguments@ => builtin.arguments@[0]));
        let argument = builtin.arguments[0].interpret(environment, trace, floats, depth)?;
        let text = match argument {
            InstructionResult::String(s) => s,
            _ => {
                return Err(failed("argument is not a string"));
            },
        };
        if !trace.has_process {
            if is_input {
                return Err(failed("No process to send input to"));
            } else {
                return Err(failed("No process to receive output from"));
            }
        }
        let ghost before = *trace;
        let action = if is_input {
            Action::Send(text)
        } else {
            Action::Expect(text)
        };
        let ghost ga = action;
        trace.actions.push(action);
        proof {
            lemma_step_view(*environment, before, *trace, ga);
        }
        Ok(InstructionResult::Nothing)
    }

    /// Runs a block: its statements in a scope of their own; its value is the last
    /// statement's, or nothing if it has none.
    fn interpret_block<F: FloatArithmetic>(
        &self,
        block: &crate::instruction::Block,
        environment: &mut Environment,
        trace: &mut Trace,
        floats: &F,
        depth: u32,
    ) -> (r: Result<InstructionResult, InterpreterError>)
        requires
            old(environment).wf(),
            self.instruction_type == InstructionType::Block(*block),
        ensures
            run_keeps(*old(environment), *final(environment), *old(trace), *final(trace)),
            r is Ok && block.statements@.len() == 0 ==> r->Ok_0@ == Value::Nothing,
            ran_as(run(*self, run_state(*old(environment), *old(trace)), depth as nat), run_state(*final(environment), *final(trace)), r),
        decreases depth, self, 0nat,
    {
        if !environment.has_frame() {
            return Err(failed("no frame to open a scope in"));
        }
        let ghost st0 = run_state(*old(environment), *old(trace));
        let ghost stmts = block.statements@;
        let ghost all = run_statements(stmts, stmts.len() as int, st0.open_scope(), depth as nat);
        let ghost e0 = *environment;
        environment.add_scope();
        let ghost mid = *environment;
        proof {
            lemma_open_view(e0, mid, *trace);
        }
        let mut result = InstructionResult::Nothing;
        let mut i: usize = 0;
        while i < block.statements.len()
            invariant
                self.instruction_type == InstructionType::Block(*block),
                i <= block.statements@.len(),
                old(environment).frames_view().len() > 0,
                mid.frames_view() == old(environment).frames_view().update(
                    old(environment).frames_view().len() - 1,
                    old(environment).frames_view().last().push(seq![]),
                ),
                run_keeps(mid, *environment, *old(trace), *trace),
                mid.globals() == old(environment).globals(),
                i == 0 ==> result@ == Value::Nothing,
                st0 == run_state(*old(environment), *old(trace)),
                stmts == block.statements@,
                all == run_statements(stmts, stmts.len() as int, st0.open_scope(), depth as nat),
                all is Some ==> run_statements(stmts, i as int, st0.open_scope(), depth as nat) == Some(
                    (Some(result@), run_state(*environment, *trace)),
                ),
            decreases block.statements@.len() - i,
        {
            proof {
                if all is Some {
                    lemma_statements_prefix(stmts, stmts.len() as int, i + 1, st0.open_scope(), depth as nat);
                }
            }
            assert(decreases_to!(self => self.instruction_type));
            assert(decreases_to!(self.instruction_type => self.instruction_type->Block_0));
            assert(decreases_to!(*block => block.statements));
            assert(decreases_to!(block.statements => block.statements@));
            assert(decreases_to!(block.statements@ => block.statements@[i as int]));
            result = match block.statements[i].interpret(environment, trace, floats, depth) {
                Ok(value) => value,
                Err(e) => {
                    let ghost e_env = *environment;
                    environment.remove_scope();
                    proof {
                        lemma_scope_closed(*old(environment), mid, e_env, *environment);
                        lemma_close_view(e_env, *environment, *trace);
                    }
                    return Err(e);
                },
            };
            i += 1;
        }
        let ghost e_env = *environment;
        environment.remove_scope();
        proof {
            lemma_scope_closed(*old(environment), mid, e_env, *environment);
            lemma_close_view(e_env, *environment, *trace);
        }
        Ok(result)
    }

    /// Runs a `for` loop: the body once for each text of the iterable, which the loop
    /// variable holds, in a scope of their own; its value is the last run's.
    fn interpret_for<F: FloatArithmetic>(
        &self,
        for_loop: &crate::instruction::For,
        environment: &mut Environment,
        trace: &mut Trace,
        floats: &F,
        depth: u32,
    ) -> (r: Result<InstructionResult, InterpreterError>)
        requires
            old(environment).wf(),
            self.instruction_type == InstructionType::For(*for_loop),
        ensures
            run_keeps(*old(environment), *final(environment), *old(trace), *final(trace)),
            ran_as(run(*self, run_state(*old(environment), *old(trace)), depth as nat), run_state(*final(environment), *final(trace)), r),
        decreases depth, self, 0nat,
    {
        if !environment.has_frame() {
            return Err(failed("no frame to open a scope in"));
        }
        let ghost st0 = run_state(*old(environment), *old(trace));
        let ghost e0 = *environment;
        environment.add_scope();
        let ghost mid = *environment;
        proof {
            lemma_open_view(e0, mid, *trace);
        }
        assert(decreases_to!(self => self.instruction_type));
        assert(decreases_to!(self.instruction_type => self.instruction_type->For_0));
        assert(decreases_to!(*for_loop => for_loop.assignment));
        assert(decreases_to!(for_loop.assignment => for_loop.assignment.body));
        let items = match for_loop.assignment.body.interpret(environment, trace, floats, depth) {
            Ok(InstructionResult::Regex(items)) => items,
            Ok(_) => {
                let ghost e_env = *environment;
                environment.remove_scope();
                proof {
                    lemma_scope_closed(*old(environment), mid, e_env, *environment);
                    lemma_close_view(e_env, *environment, *trace);
                }
                return Err(failed("loop over a value that is not iterable"));
            },
            Err(e) => {
                let ghost e_env = *environment;
                environment.remove_scope();
                proof {
                    lemma_scope_closed(*old(environment), mid, e_env, *environment);
                    lemma_close_view(e_env, *environment, *trace);
                }
                return Err(e);
            },
        };
        let ghost texts = items@.map_values(|s: String| s@);
        let ghost s1 = run_state(*environment, *trace);
        let ghost all = run_items(*for_loop, texts, texts.len() as int, s1, depth as nat);
        let ghost whole = match all {
            Some((o, s2)) => Some((o, s2.close_scope())),
            None => None::<(Option<Value>, RunState)>,
        };
        assert(run(*self, st0, depth as nat) is Some ==> run(*self, st0, depth as nat) == whole);
        let mut result = InstructionResult::Nothing;
        let mut i: usize = 0;
        while i < items.len()
            invariant
                self.instruction_type == InstructionType::For(*for_loop),
                i <= items@.len(),
                old(environment).frames_view().len() > 0,
                mid.frames_view() == old(environment).frames_view().update(
                    old(environment).frames_view().len() - 1,
                    old(environment).frames_view().last().push(seq![]),
                ),
                run_keeps(mid, *environment, *old(trace), *trace),
                mid.globals() == old(environment).globals(),
                st0 == run_state(*old(environment), *old(trace)),
                texts == items@.map_values(|s: String| s@),
                all == run_items(*for_loop, texts, texts.len() as int, s1, depth as nat),
                whole == match all {
                    Some((o, s2)) => Some((o, s2.close_scope())),
                    None => None::<(Option<Value>, RunState)>,
                },
                run(*self, st0, depth as nat) is Some ==> run(*self, st0, depth as nat) == whole,
                all is Some ==> run_items(*for_loop, texts, i as int, s1, depth as nat) == Some(
                    (Some(result@), run_state(*environment, *trace)),
                ),
            decreases items@.len() - i,
        {
            proof {
                if all is Some {
                    lemma_items_prefix(*for_loop, texts, texts.len() as int, i + 1, s1, depth as nat);
                }
            }
            let ghost before = *environment;
            let item = InstructionResult::String(items[i].clone());
            let ghost gi = item;
            environment.insert(for_loop.assignment.variable.name.clone(), item);
            proof {
                lemma_store_view(before, *environment, *trace, for_loop.assignment.variable.name@, gi);
            }
            assert(decreases_to!(self => self.instruction_type));
            assert(decreases_to!(self.instruction_type => self.instruction_type->For_0));
            assert(decreases_to!(*for_loop => for_loop.body));
            result = match for_loop.body.interpret(environment, trace, floats, depth) {
                Ok(value) => value,
                Err(e) => {
                    let ghost e_env = *environment;
                    environment.remove_scope();
                    proof {
                        lemma_scope_closed(*old(environment), mid, e_env, *environment);
                        lemma_close_view(e_env, *environment, *trace);
                    }
                    return Err(e);
                },
            };
            i += 1;
        }
        let ghost e_env = *environment;
        environment.remove_scope();
        proof {
            lemma_scope_closed(*old(environment), mid, e_env, *environment);
            lemma_close_view(e_env, *environment, *trace);
        }
        Ok(result)
    }

    /// Runs a call: the arguments are evaluated in the caller's frame, then the
    /// function's body runs in a frame of its own with them bound to the parameters. A call of an unknown
    /// function, or one nested deeper than `depth` allows, stops the run.
    fn interpret_call<F: FloatArithmetic>(
        &self,
        call: &crate::instruction::FunctionCall,
        environment: &mut Environment,
        trace: &mut Trace,
        floats: &F,
        depth: u32,
    ) -> (r: Result<InstructionResult, InterpreterError>)
        requires
            old(environment).wf(),
            self.instruction_type == InstructionType::FunctionCall(*call),
        ensures
            run_keeps(*old(environment), *final(environment), *old(trace), *final(trace)),
            ran_as(run(*self, run_state(*old(environment), *old(trace)), depth as nat), run_state(*final(environment), *final(trace)), r),
        decreases depth, self, 0nat,
    {
        let ghost st0 = run_state(*old(environment), *old(trace));
        let function = match environment.get_function(call.name.as_str()) {
            Some(f) => f,
            None => {
                return Err(failed("function not found"));
            },
        };
        if depth == 0 {
            return Err(failed("too many nested calls"));
        }
        let ghost args = call.arguments@;
        let ghost all = run_arguments(args, args.len() as int, st0, depth as nat);
        assert(entry_value(st0.functions, call.name@) == Some(*function));
        let mut arguments: Vec<InstructionResult> = Vec::new();
        let mut i: usize = 0;
        while i < call.arguments.len()
            invariant
                self.instruction_type == InstructionType::FunctionCall(*call),
                i <= call.arguments@.len(),
                run_keeps(*old(environment), *environment, *old(trace), *trace),
                st0 == run_state(*old(environment), *old(trace)),
                args == call.arguments@,
                all == run_arguments(args, args.len() as int, st0, depth as nat),
                all is Some ==> run_arguments(args, i as int, st0, depth as nat) == Some(
                    (Some(arguments@.map_values(|a: InstructionResult| a@)), run_state(*environment, *trace)),
                ),
                entry_value(st0.functions, call.name@) == Some(*function),
                depth > 0,
            decreases call.arguments@.len() - i,
        {
            proof {
                if all is Some {
                    lemma_arguments_prefix(args, args.len() as int, i + 1, st0, depth as nat);
                }
            }
            assert(decreases_to!(self => self.instruction_type));
            assert(decreases_to!(self.instruction_type => self.instruction_type->FunctionCall_0));
            assert(decreases_to!(*call => call.arguments));
            assert(decreases_to!(call.arguments => call.arguments@));
            assert(decreases_to!(call.arguments@ => call.arguments@[i as int]));
            let ghost before = arguments@;
            let value = match call.arguments[i].interpret(environment, trace, floats, depth) {
                Ok(v) => v,
                Err(e) => {
                    proof {
                        if all is Some {
                            assert(run_arguments(args, i + 1, st0, depth as nat) == Some(
                                (None::<Seq<Value>>, run_state(*environment, *trace)),
                            ));
                            assert(all == run_arguments(args, i + 1, st0, depth as nat));
                            assert(run(*self, st0, depth as nat) == Some(
                                (None::<Value>, run_state(*environment, *trace)),
                            ));
                        }
                    }
                    return Err(e);
                },
            };
            arguments.push(value);
            proof {
                assert(arguments@.map_values(|a: InstructionResult| a@) =~= before.map_values(
                    |a: InstructionResult| a@,
                ).push(arguments@.last()@));
            }
            i += 1;
        }
        let ghost values = arguments@.map_values(|a: InstructionResult| a@);
        let ghost start = *environment;
        let ghost s1 = run_state(start, *trace);
        environment.add_frame();
        let ghost mid = *environment;
        proof {
            lemma_frame_open_view(start, mid, *trace);
        }
        let mut k: usize = 0;
        while k < function.parameters.len() && k < arguments.len()
            invariant
                start.wf(),
                mid.frames_view() == start.frames_view().push(seq![seq![]]),
                env_keeps(mid, *environment),
                k <= function.parameters@.len(),
                k <= arguments@.len(),
                values == arguments@.map_values(|a: InstructionResult| a@),
                environment.function_table() == start.function_table(),
                run_state(*environment, *trace) == bind(function.parameters@, values, k as int, s1.open_frame()),
            decreases function.parameters@.len() - k,
        {
            let ghost before = *environment;
            let stored_value = arguments[k].clone();
            let ghost sv = stored_value;
            environment.insert(function.parameters[k].name.clone(), stored_value);
            proof {
                lemma_store_view(before, *environment, *trace, function.parameters@[k as int].name@, sv);
            }
            k += 1;
        }
        let ghost before_scope = *environment;
        environment.add_scope();
        let ghost inner = *environment;
        proof {
            lemma_open_view(before_scope, inner, *trace);
        }
        let result = function.body.interpret(environment, trace, floats, depth - 1);
        let ghost e_env = *environment;
        environment.remove_scope();
        proof {
            lemma_scope_closed(before_scope, inner, e_env, *environment);
            lemma_close_view(e_env, *environment, *trace);
        }
        let ghost e2 = *environment;
        environment.remove_frame();
        proof {
            lemma_frame_closed(start, mid, e2, *environment);
            lemma_frame_close_view(e2, *environment, *trace);
        }
        result
    }
}

/// What running the program does, item by item: the console output of the
/// constants' values, and each test with its actions and how it ended.
#[derive(Debug, PartialEq)]
pub enum Event {
    Console(Vec<Action>),
    Test { name: String, command: String, actions: Vec<Action>, error: Option<InterpreterError> },
}

/// The items of a program that a run reports on, in order: its tests and its
/// constants.
pub open spec fn reported(program: Seq<Instruction>) -> Seq<Instruction>
    decreases program.len(),
{
    if program.len() == 0 {
        seq![]
    } else {
        let rest = reported(program.drop_last());
        match program.last().instruction_type {
            InstructionType::Test(_) => rest.push(program.last()),
            InstructionType::Assignment(_) => rest.push(program.last()),
            _ => rest,
        }
    }
}

/// Whether `e` reports on the item `i`: a test by its name and command, a constant
/// by its console output.
pub open spec fn reports_on(e: Event, i: Instruction) -> bool {
    match i.instruction_type {
        InstructionType::Test(t) => e matches Event::Test { name, command, .. } && name == t.name
            && command == t.command,
        _ => e is Console,
    }
}

/// The state in which a test's body starts: a frame of its own with one empty scope,
/// the global constants `g` and functions `fs`, no steps yet, and a program under
/// test.
pub open spec fn test_start(g: Seq<(Seq<char>, Value)>, fs: Seq<(Seq<char>, Function)>) -> RunState {
    RunState { frames: seq![seq![seq![]]], globals: g, functions: fs, steps: seq![], has_process: true }
}

/// The state in which a constant is evaluated: no frame, the global constants `g`
/// and functions `fs`, no steps yet, and no program under test.
pub open spec fn constant_start(g: Seq<(Seq<char>, Value)>, fs: Seq<(Seq<char>, Function)>) -> RunState {
    RunState { frames: seq![], globals: g, functions: fs, steps: seq![], has_process: false }
}

/// What running the items `program[..n]` reports, from the global constants and
/// the functions in `g` (`None` where they are not known): for each reported item,
/// its steps and whether it reports a stop (a test that ended in an error; a constant
/// never does), where the rules decide them (see `run`); and the global constants and
/// functions after.
pub open spec fn reports(
    program: Seq<Instruction>,
    n: int,
    g: Option<(Seq<(Seq<char>, Value)>, Seq<(Seq<char>, Function)>)>,
) -> (Seq<Option<(Seq<Step>, bool)>>, Option<(Seq<(Seq<char>, Value)>, Seq<(Seq<char>, Function)>)>)
    decreases n,
{
    if n <= 0 || n > program.len() {
        (seq![], g)
    } else {
        let (rs, g1) = reports(program, n - 1, g);
        let item = program[n - 1];
        match item.instruction_type {
            InstructionType::Test(t) => match g1 {
                Some((gv, fv)) => match run(*t.body, test_start(gv, fv), CALL_DEPTH as nat) {
                    Some((o, st)) => (rs.push(Some((st.steps, o is None))), Some((st.globals, st.functions))),
                    None => (rs.push(None), None),
                },
                None => (rs.push(None), None),
            },
            InstructionType::Assignment(_) => match g1 {
                Some((gv, fv)) => match run(item, constant_start(gv, fv), CALL_DEPTH as nat) {
                    Some((_, st)) => (rs.push(Some((st.steps, false))), Some((st.globals, st.functions))),
                    None => (rs.push(None), None),
                },
                None => (rs.push(None), None),
            },
            InstructionType::Function(f) => match g1 {
                Some((gv, fv)) => (rs, Some((gv, entries_insert(fv, f.name@, f)))),
                None => (rs, None),
            },
            _ => (rs, g1),
        }
    }
}

/// The steps an event shows, and whether it reports a stop.
pub open spec fn event_view(e: Event) -> (Seq<Step>, bool) {
    match e {
        Event::Console(actions) => (steps_of(actions@), false),
        Event::Test { actions, error, .. } => (steps_of(actions@), error is Some),
    }
}

/// The interpreter: the program, the options and the names known while it runs.
pub struct Interpreter {
    args: Args,
    program: Vec<Instruction>,
    environment: Environment,
}

impl Interpreter {
    /// The items still to run.
    pub closed spec fn program_view(&self) -> Seq<Instruction> {
        self.program@
    }

    /// The values of the global constants and the functions known so far.
    pub closed spec fn names(&self) -> (Seq<(Seq<char>, Value)>, Seq<(Seq<char>, Function)>) {
        (stored(self.environment.globals()), self.environment.function_table())
    }

    /// The interpreter is consistent and no frame is running.
    pub closed spec fn wf(&self) -> bool {
        self.environment.wf() && self.environment.frames_view().len() == 0
    }

    /// An interpreter of `program` with nothing known yet.
    pub fn new(program: Vec<Instruction>, args: Args) -> (r: Interpreter)
        ensures
            r.program_view() == program@,
            r.wf(),
            r.names() == (Seq::<(Seq<char>, Value)>::empty(), Seq::<(Seq<char>, Function)>::empty()),
    {
        let r = Interpreter { program, args, environment: Environment::new() };
        assert(stored(r.environment.globals()) =~= Seq::<(Seq<char>, Value)>::empty());
        assert(r.environment.function_table() =~= Seq::<(Seq<char>, Function)>::empty());
        r
    }

    /// Runs the program item by item, handing each item over to the run: functions
    /// become known, constants are evaluated without a program under test (an error
    /// only stops that constant), and each test runs in a frame of its own with a
    /// program under test. The events are what the run does, in order; no item is
    /// left to run after.
    pub fn interpret<F: FloatArithmetic>(&mut self, floats: &F) -> (r: Vec<Event>)
        requires
            old(self).wf(),
        ensures
            final(self).wf(),
            final(self).program_view().len() == 0,
            r@.len() == reported(old(self).program_view()).len(),
            forall|k: int|
                0 <= k < r@.len() ==> #[trigger] reports_on(r@[k], reported(old(self).program_view())[k]),
            ({
                let known = reports(
                    old(self).program_view(),
                    old(self).program_view().len() as int,
                    Some(old(self).names()),
                ).0;
                &&& known.len() == r@.len()
                &&& forall|k: int|
                    0 <= k < r@.len() ==> (#[trigger] known[k] matches Some(v) ==> event_view(r@[k]) == v)
            }),
    {
        let mut program: Vec<Instruction> = Vec::new();
        std::mem::swap(&mut program, &mut self.program);
        let ghost all = program@;
        let mut events: Vec<Event> = Vec::new();
        let ghost mut i: int = 0;
        let ghost g0 = Some(self.names());
        while program.len() > 0
            invariant
                0 <= i <= all.len(),
                program@ == all.skip(i),
                all == old(self).program_view(),
                self.program@.len() == 0,
                self.environment.wf(),
                self.environment.frames_view().len() == 0,
                g0 == Some(old(self).names()),
                events@.len() == reported(all.take(i)).len(),
                forall|k: int| 0 <= k < events@.len() ==> #[trigger] reports_on(events@[k], reported(all.take(i))[k]),
                reports(all, i, g0).0.len() == events@.len(),
                forall|k: int|
                    0 <= k < events@.len() ==> (#[trigger] reports(all, i, g0).0[k] matches Some(v)
                        ==> event_view(events@[k]) == v),
                reports(all, i, g0).1 matches Some(g) ==> g == self.names(),
            decreases program@.len(),
        {
            assert(all.take(i + 1).drop_last() =~= all.take(i));
            assert(program@[0] == all[i]);
            assert(all.take(i + 1).last() == all[i]);
            let item = program.remove(0);
            let ghost before_events = events@;
            let ghost prev = reports(all, i, g0);
            let is_function = matches!(item.instruction_type, InstructionType::Function(_));
            if is_function {
                match item.instruction_type {
                    InstructionType::Function(f) => {
                        self.environment.add_function(f);
                        proof {
                            assert(reports(all, i + 1, g0).0 == prev.0);
                            assert(reports(all, i + 1, g0).1 matches Some(g) ==> g == self.names());
                        }
                    },
                    _ => {},
                }
            } else {
                match &item.instruction_type {
                    InstructionType::Test(test) => {
                        let ghost e0 = self.environment;
                        self.environment.add_frame();
                        let mut trace = Trace { actions: Vec::new(), has_process: true };
                        proof {
                            let fv = self.environment.frames_view();
                            assert(fv.len() == 1);
                            assert(stored(seq![]) =~= seq![]);
                            assert(fv[0].map_values(|e: Seq<(Seq<char>, InstructionResult)>| stored(e)) =~= seq![seq![]]);
                            assert(stored_frames(fv) =~= seq![seq![seq![]]]);
                            assert(steps_of(trace.actions@) =~= seq![]);
                            assert(run_state(self.environment, trace) == test_start(
                                stored(e0.globals()),
                                e0.function_table(),
                            ));
                        }
                        let ghost env1 = self.environment;
                        let ghost t0 = trace;
                        let result = test.body.interpret(&mut self.environment, &mut trace, floats, CALL_DEPTH);
                        let ghost env2 = self.environment;
                        self.environment.remove_frame();
                        let error = match result {
                            Ok(_) => None,
                            Err(e) => Some(e),
                        };
                        events.push(Event::Test {
                            name: test.name.clone(),
                            command: test.command.clone(),
                            actions: trace.actions,
                            error,
                        });
                        proof {
                            let x = match prev.1 {
                                Some((gv, fv)) => match run(*test.body, test_start(gv, fv), CALL_DEPTH as nat) {
                                    Some((o, st)) => Some((st.steps, o is None)),
                                    None => None,
                                },
                                None => None,
                            };
                            assert(reports(all, i + 1, g0).0 == prev.0.push(x));
                            if let Some((gv, fv)) = prev.1 {
                                assert(run_state(env1, t0) == test_start(gv, fv));
                                if let Some((o, st)) = run(*test.body, test_start(gv, fv), CALL_DEPTH as nat) {
                                    assert(run_state(env2, trace) == st);
                                    assert(event_view(events@.last()) == (st.steps, o is None));
                                    assert(reports(all, i + 1, g0).1 == Some((st.globals, st.functions)));
                                }
                            }
                            assert(x matches Some(v) ==> event_view(events@.last()) == v);
                            assert(events@ == before_events.push(events@.last()));
                            assert forall|k: int| 0 <= k < events@.len() implies (#[trigger] reports(
                                all,
                                i + 1,
                                g0,
                            ).0[k] matches Some(v) ==> event_view(events@[k]) == v) by {
                                if k < before_events.len() {
                                    assert(events@[k] == before_events[k]);
                                    assert(reports(all, i + 1, g0).0[k] == prev.0[k]);
                                    assert(prev.0[k] == reports(all, i, g0).0[k]);
                                    if let Some(v) = prev.0[k] {
                                        assert(event_view(before_events[k]) == v);
                                    }
                                } else {
                                    assert(k == before_events.len());
                                    assert(reports(all, i + 1, g0).0[k] == x);
                                    assert(events@[k] == events@.last());
                                }
                            }
                        }
                    },
                    InstructionType::Assignment(_) => {
                        let mut trace = Trace { actions: Vec::new(), has_process: false };
                        proof {
                            assert(stored_frames(self.environment.frames_view()) =~= seq![]);
                            assert(steps_of(trace.actions@) =~= seq![]);
                        }
                        let ghost env1 = self.environment;
                        let ghost t0 = trace;
                        let _ = item.interpret(&mut self.environment, &mut trace, floats, CALL_DEPTH);
                        let ghost t2 = trace;
                        events.push(Event::Console(trace.actions));
                        proof {
                            let x = match prev.1 {
                                Some((gv, fv)) => match run(item, constant_start(gv, fv), CALL_DEPTH as nat) {
                                    Some((_, st)) => Some((st.steps, false)),
                                    None => None,
                                },
                                None => None,
                            };
                            assert(reports(all, i + 1, g0).0 == prev.0.push(x));
                            if let Some((gv, fv)) = prev.1 {
                                assert(run_state(env1, t0) == constant_start(gv, fv));
                                if let Some((o, st)) = run(item, constant_start(gv, fv), CALL_DEPTH as nat) {
                                    assert(run_state(self.environment, t2) == st);
                                    assert(event_view(events@.last()) == (st.steps, false));
                                }
                            }
                            assert(events@ == before_events.push(events@.last()));
                            assert forall|k: int| 0 <= k < events@.len() implies (#[trigger] reports(
                                all,
                                i + 1,
                                g0,
                            ).0[k] matches Some(v) ==> event_view(events@[k]) == v) by {
                                if k < before_events.len() {
                                    assert(events@[k] == before_events[k]);
                                    assert(reports(all, i + 1, g0).0[k] == prev.0[k]);
                                    assert(prev.0[k] == reports(all, i, g0).0[k]);
                                    if let Some(v) = prev.0[k] {
                                        assert(event_view(before_events[k]) == v);
                                    }
                                } else {
                                    assert(reports(all, i + 1, g0).0[k] == x);
                                    assert(events@[k] == events@.last());
                                }
                            }
                        }
                    },
                    _ => {},
                }
            }
            proof {
                i = i + 1;
                assert(program@ =~= all.skip(i));
            }
        }
        assert(all.take(i) =~= all);
        events
    }
}

} // verus!
