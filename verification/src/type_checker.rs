use vstd::prelude::*;

use crate::cli::Args;
use crate::environment::{
    as_messages, entries_insert, entry_index, entry_value, keys_distinct, lemma_same_keys, scoped_insert,
    scoped_lookup, unassigned_warnings, unused_warnings, ParseEnvironment,
};
use crate::error::{ParserError, ParserErrorType, ParserMessage, ParserWarning, ParserWarningType};
use crate::instruction::{
    Assignment, Binary, Block, BuiltIn, Conditional, Function, FunctionCall, Instruction, InstructionType,
    IterableAssignment, TypeCast, Unary,
};
use crate::operators::{operator_signature, result_type, BinaryOperator, UnaryOperator};
use crate::parser::messages_kept;
use crate::token::Token;
use crate::types::{castable, Type};
use crate::variable::Variable;

verus! {

/// The left operand types an operator accepts, in the order of its signature.
pub open spec fn left_types(sig: Seq<(Type, Type, Type)>) -> Seq<Type>
    decreases sig.len(),
{
    if sig.len() == 0 {
        seq![]
    } else {
        left_types(sig.drop_last()).push(sig.last().0)
    }
}

/// The right operand types an operator accepts after a left operand of type `left`.
pub open spec fn right_types_for(sig: Seq<(Type, Type, Type)>, left: Type) -> Seq<Type>
    decreases sig.len(),
{
    if sig.len() == 0 {
        seq![]
    } else if sig.last().0 == left {
        right_types_for(sig.drop_last(), left).push(sig.last().1)
    } else {
        right_types_for(sig.drop_last(), left)
    }
}

/// The message is a type mismatch: a value of type `actual` at `token` where one of
/// `expected` was due.
pub open spec fn is_mismatch(m: ParserMessage, expected: Seq<Type>, actual: Type, token: Token) -> bool {
    &&& m is Error
    &&& m->Error_0.token == token
    &&& m->Error_0.error_type matches ParserErrorType::MismatchedType { expected: e, actual: a }
        && e@ == expected && a == actual
}

/// The type of `left op right` from the operand types. An operator that does not
/// accept them gives no type and one error: about the right operand, with the right
/// types it accepts after this left one, if it accepts the left type at all, else
/// about the left operand, with the left types it accepts.
pub fn binary_type(
    op: BinaryOperator,
    left: &Type,
    right: &Type,
    left_token: &Token,
    right_token: &Token,
    messages: &mut Vec<ParserMessage>,
) -> (r: Type)
    ensures
        match result_type(op, *left, *right) {
            Some(t) => r == t && final(messages)@ == old(messages)@,
            None => {
                let sig = operator_signature(op);
                &&& r == Type::Nothing
                &&& final(messages)@.len() == old(messages)@.len() + 1
                &&& messages_kept(old(messages)@, final(messages)@)
                &&& if left_types(sig).contains(*left) {
                    is_mismatch(final(messages)@.last(), right_types_for(sig, *left), *right, *right_token)
                } else {
                    is_mismatch(final(messages)@.last(), left_types(sig), *left, *left_token)
                }
            },
        },
        notes_of(final(messages)@) == match result_type(op, *left, *right) {
            Some(_) => notes_of(old(messages)@),
            None => notes_of(old(messages)@).push(binary_note(op, *left, *right, *left_token, *right_token)),
        },
{
    if let Some(t) = op.result_type_of(left, right) {
        return t;
    }
    let sig = op.resulting_types();
    let mut lefts: Vec<Type> = Vec::new();
    let mut rights: Vec<Type> = Vec::new();
    let mut known = false;
    let mut i: usize = 0;
    while i < sig.len()
        invariant
            i <= sig@.len(),
            sig@ == operator_signature(op),
            lefts@ == left_types(sig@.take(i as int)),
            rights@ == right_types_for(sig@.take(i as int), *left),
            known == left_types(sig@.take(i as int)).contains(*left),
        decreases sig@.len() - i,
    {
        proof {
            assert(sig@.take(i + 1).drop_last() =~= sig@.take(i as int));
        }
        lefts.push(sig[i].0.clone());
        if sig[i].0.same(left) {
            known = true;
            rights.push(sig[i].1.clone());
        }
        i += 1;
        proof {
            let l = left_types(sig@.take(i as int));
            assert(l == left_types(sig@.take(i - 1)).push(sig@[i - 1].0));
            if !known {
                assert forall|k: int| 0 <= k < l.len() implies l[k] != *left by {
                    if k < l.len() - 1 {
                        assert(l[k] == left_types(sig@.take(i - 1))[k]);
                    }
                }
            } else {
                if !left_types(sig@.take(i - 1)).contains(*left) {
                    assert(l[l.len() - 1] == *left);
                } else {
                    let prev = left_types(sig@.take(i - 1));
                    let k = choose|k: int| 0 <= k < prev.len() && #[trigger] prev[k] == *left;
                    assert(l[k] == *left);
                }
            }
        }
    }
    assert(sig@.take(i as int) =~= sig@);
    let ghost before = messages@;
    let m = if known {
        ParserMessage::error_mismatched_type(rights, right.clone(), right_token.clone())
    } else {
        ParserMessage::error_mismatched_type(lefts, left.clone(), left_token.clone())
    };
    let ghost gm = m;
    messages.push(m);
    proof {
        lemma_notes_push(before, gm);
    }
    Type::Nothing
}

/// The type of a unary operation from its operand's type, which it keeps. `!` wants
/// a boolean, `-` an integer or a float; another operand type is an error at `token`.
pub fn unary_type(op: UnaryOperator, body: &Type, token: &Token, messages: &mut Vec<ParserMessage>) -> (r: Type)
    ensures
        r == *body,
        match op {
            UnaryOperator::Not => if *body == Type::Bool {
                final(messages)@ == old(messages)@
            } else {
                messages_kept(old(messages)@, final(messages)@) && final(messages)@.len() == old(messages)@.len() + 1 && is_mismatch(final(messages)@.last(), seq![Type::Bool], *body, *token)
            },
            UnaryOperator::Negation => if *body == Type::Int || *body == Type::Float {
                final(messages)@ == old(messages)@
            } else {
                messages_kept(old(messages)@, final(messages)@) && final(messages)@.len() == old(messages)@.len() + 1 && is_mismatch(
                    final(messages)@.last(),
                    seq![Type::Int, Type::Float],
                    *body,
                    *token,
                )
            },
        },
        notes_of(final(messages)@) == if unary_accepts(op, *body) {
            notes_of(old(messages)@)
        } else {
            notes_of(old(messages)@).push(Note::Mismatch(unary_expected(op), *body, *token))
        },
{
    let ghost before = messages@;
    match op {
        UnaryOperator::Not => {
            if !matches!(body, Type::Bool) {
                let mut expected: Vec<Type> = Vec::new();
                expected.push(Type::Bool);
                assert(expected@ =~= seq![Type::Bool]);
                let m = ParserMessage::error_mismatched_type(expected, body.clone(), token.clone());
                let ghost gm = m;
                messages.push(m);
                proof {
                    lemma_notes_push(before, gm);
                }
            }
        },
        UnaryOperator::Negation => {
            if !matches!(body, Type::Int | Type::Float) {
                let mut expected: Vec<Type> = Vec::new();
                expected.push(Type::Int);
                expected.push(Type::Float);
                assert(expected@ =~= seq![Type::Int, Type::Float]);
                let m = ParserMessage::error_mismatched_type(expected, body.clone(), token.clone());
                let ghost gm = m;
                messages.push(m);
                proof {
                    lemma_notes_push(before, gm);
                }
            }
        },
    }
    body.clone()
}

/// The type of a type cast from the type of its operand: the target type if the
/// cast is allowed, else no type and an error at `token`.
pub fn cast_type(from: &Type, to: &Type, token: &Token, messages: &mut Vec<ParserMessage>) -> (r: Type)
    ensures
        castable(*from, *to) ==> r == *to && final(messages)@ == old(messages)@,
        !castable(*from, *to) ==> r == Type::Nothing && final(messages)@ == old(messages)@.push(
            ParserMessage::Error(
                ParserError { error_type: ParserErrorType::TypeCast { from: *from, to: *to }, token: *token },
            ),
        ),
        !castable(*from, *to) ==> notes_of(final(messages)@) == notes_of(old(messages)@).push(
            Note::Message(
                ParserMessage::Error(
                    ParserError { error_type: ParserErrorType::TypeCast { from: *from, to: *to }, token: *token },
                ),
            ),
        ),
{
    proof {
        lemma_notes_push(
            old(messages)@,
            ParserMessage::Error(
                ParserError { error_type: ParserErrorType::TypeCast { from: *from, to: *to }, token: *token },
            ),
        );
    }
    if !from.can_cast_to(to) {
        messages.push(
            ParserMessage::Error(
                ParserError::new(ParserErrorType::TypeCast { from: from.clone(), to: to.clone() }, token.clone()),
            ),
        );
        Type::Nothing
    } else {
        to.clone()
    }
}

/// Records a type mismatch unless `actual` is `expected`.
fn expect_type(expected: &Type, actual: &Type, token: &Token, messages: &mut Vec<ParserMessage>)
    ensures
        *expected == *actual ==> final(messages)@ == old(messages)@,
        *expected != *actual ==> messages_kept(old(messages)@, final(messages)@) && final(messages)@.len() == old(messages)@.len() + 1 && is_mismatch(
            final(messages)@.last(),
            seq![*expected],
            *actual,
            *token,
        ),
        notes_of(final(messages)@) == if *expected == *actual {
            notes_of(old(messages)@)
        } else {
            notes_of(old(messages)@).push(Note::Mismatch(seq![*expected], *actual, *token))
        },
{
    if !expected.same(actual) {
        let mut types: Vec<Type> = Vec::new();
        types.push(expected.clone());
        assert(types@ =~= seq![*expected]);
        let ghost before = messages@;
        let m = ParserMessage::error_mismatched_type(types, actual.clone(), token.clone());
        let ghost gm = m;
        messages.push(m);
        proof {
            lemma_notes_push(before, gm);
        }
    }
}

/// The type of `left op right` from the operand types: none where the operator
/// does not accept them.
pub open spec fn binary_result(op: BinaryOperator, left: Type, right: Type) -> Type {
    match result_type(op, left, right) {
        Some(t) => t,
        None => Type::Nothing,
    }
}

/// Whether a unary operator accepts an operand of type `t`.
pub open spec fn unary_accepts(op: UnaryOperator, t: Type) -> bool {
    match op {
        UnaryOperator::Not => t == Type::Bool,
        UnaryOperator::Negation => t == Type::Int || t == Type::Float,
    }
}

/// The type of the expression `i` with the variables `scopes`, where `i` is made of
/// literals, names, parentheses, operators and casts; an operation or cast that does
/// not type-check has no type. `None` for any other instruction.
pub open spec fn expression_type(i: Instruction, scopes: Seq<Seq<(Seq<char>, Variable)>>) -> Option<Type>
    decreases i,
{
    match i.instruction_type {
        InstructionType::StringLiteral(_) => Some(Type::String),
        InstructionType::RegexLiteral(_) => Some(Type::Regex),
        InstructionType::IntegerLiteral(_) => Some(Type::Int),
        InstructionType::FloatLiteral(_) => Some(Type::Float),
        InstructionType::BooleanLiteral(_) => Some(Type::Bool),
        InstructionType::Nothing => Some(Type::Nothing),
        InstructionType::Variable(v) => Some(
            match scoped_lookup(scopes, v.name@) {
                Some(d) => d.var_type,
                None => v.var_type,
            },
        ),
        InstructionType::Paren(p) => expression_type(*p.expression, scopes),
        InstructionType::UnaryOperation(u) => expression_type(*u.body, scopes),
        InstructionType::BinaryOperation(b) => match (
            expression_type(*b.left, scopes),
            expression_type(*b.right, scopes),
        ) {
            (Some(l), Some(r)) => Some(binary_result(b.operator, l, r)),
            _ => None,
        },
        InstructionType::TypeCast(c) => match expression_type(*c.from, scopes) {
            Some(f) => Some(
                if castable(f, c.to) {
                    c.to
                } else {
                    Type::Nothing
                },
            ),
            None => None,
        },
        _ => None,
    }
}

/// Whether the expression `i` (see `expression_type`) type-checks without a message:
/// every operator accepts its operands and every cast is allowed.
pub open spec fn expression_clean(i: Instruction, scopes: Seq<Seq<(Seq<char>, Variable)>>) -> bool
    decreases i,
{
    match i.instruction_type {
        InstructionType::Paren(p) => expression_clean(*p.expression, scopes),
        InstructionType::UnaryOperation(u) => expression_clean(*u.body, scopes) && (expression_type(
            *u.body,
            scopes,
        ) matches Some(t) && unary_accepts(u.operator, t)),
        InstructionType::BinaryOperation(b) => expression_clean(*b.left, scopes) && expression_clean(
            *b.right,
            scopes,
        ) && (expression_type(*b.left, scopes) matches Some(l) && (expression_type(*b.right, scopes) matches Some(r)
            && result_type(b.operator, l, r) is Some)),
        InstructionType::TypeCast(c) => expression_clean(*c.from, scopes) && (expression_type(
            *c.from,
            scopes,
        ) matches Some(f) && castable(f, c.to)),
        _ => true,
    }
}

/// A message of the type checker as the checker's rules tell it: a type mismatch by
/// the types that were due, the type found and the token; any other message as it is.
pub ghost enum Note {
    Mismatch(Seq<Type>, Type, Token),
    Message(ParserMessage),
}

/// The note that a message stands for.
pub open spec fn note_of(m: ParserMessage) -> Note {
    match m {
        ParserMessage::Error(e) => match e.error_type {
            ParserErrorType::MismatchedType { expected, actual } => Note::Mismatch(expected@, actual, e.token),
            _ => Note::Message(m),
        },
        ParserMessage::Warning(_) => Note::Message(m),
    }
}

/// The notes that messages stand for, in order.
pub open spec fn notes_of(ms: Seq<ParserMessage>) -> Seq<Note> {
    ms.map_values(|m: ParserMessage| note_of(m))
}

/// The notes of warnings, in order.
pub open spec fn warning_notes(ws: Seq<ParserWarning>) -> Seq<Note> {
    ws.map_values(|w: ParserWarning| Note::Message(ParserMessage::Warning(w)))
}

/// What the type checker knows of a function: its parameter types and return type.
pub open spec fn signature(f: Function) -> (Seq<Type>, Type) {
    (f.parameters@.map_values(|v: Variable| v.var_type), f.return_type)
}

/// The signatures of the entries of a function table.
pub open spec fn signatures(table: Seq<(Seq<char>, Function)>) -> Seq<(Seq<char>, (Seq<Type>, Type))> {
    table.map_values(|e: (Seq<char>, Function)| (e.0, signature(e.1)))
}

/// The state of a type check: the variables in scope, the functions known and the
/// notes so far.
pub ghost struct CheckState {
    pub scopes: Seq<Seq<(Seq<char>, Variable)>>,
    pub functions: Seq<(Seq<char>, (Seq<Type>, Type))>,
    pub notes: Seq<Note>,
}

/// The state of a type check with the environment `env` and the messages `messages`.
pub open spec fn state_of(env: ParseEnvironment, messages: Seq<ParserMessage>) -> CheckState {
    CheckState {
        scopes: env.scopes(),
        functions: signatures(env.function_table()),
        notes: notes_of(messages),
    }
}

impl CheckState {
    /// With the note `n` added.
    pub open spec fn note(self, n: Note) -> CheckState {
        CheckState { scopes: self.scopes, functions: self.functions, notes: self.notes.push(n) }
    }

    /// With a mismatch noted at `token` unless `actual` is `expected`.
    pub open spec fn expect(self, expected: Type, actual: Type, token: Token) -> CheckState {
        if expected == actual {
            self
        } else {
            self.note(Note::Mismatch(seq![expected], actual, token))
        }
    }

    /// With a new innermost scope.
    pub open spec fn open_scope(self) -> CheckState {
        CheckState { scopes: self.scopes.push(seq![]), functions: self.functions, notes: self.notes }
    }

    /// Without the innermost scope, after the warnings about its variables.
    pub open spec fn close_scope(self) -> CheckState {
        let vars = self.scopes.last().map_values(|e: (Seq<char>, Variable)| e.1);
        CheckState {
            scopes: self.scopes.drop_last(),
            functions: self.functions,
            notes: self.notes + warning_notes(unused_warnings(vars)) + warning_notes(
                unassigned_warnings(vars),
            ),
        }
    }

    /// With the variable `v` declared, where it has a name.
    pub open spec fn declare(self, v: Variable) -> CheckState {
        if v.name@.len() > 0 {
            CheckState { scopes: scoped_insert(self.scopes, v), functions: self.functions, notes: self.notes }
        } else {
            self
        }
    }

    /// With the function `f` known.
    pub open spec fn define(self, f: Function) -> CheckState {
        CheckState {
            scopes: self.scopes,
            functions: entries_insert(self.functions, f.name@, signature(f)),
            notes: self.notes,
        }
    }
}

/// The note of a wrong number of arguments at `token`.
pub open spec fn count_note(expected: usize, actual: usize, token: Token) -> Note {
    Note::Message(
        ParserMessage::Error(
            ParserError {
                error_type: ParserErrorType::MismatchedNumberOfArguments { expected, actual },
                token,
            },
        ),
    )
}

/// The operand types a unary operator wants.
pub open spec fn unary_expected(op: UnaryOperator) -> Seq<Type> {
    match op {
        UnaryOperator::Not => seq![Type::Bool],
        UnaryOperator::Negation => seq![Type::Int, Type::Float],
    }
}

/// The note of a binary operator that does not accept its operand types (see
/// `binary_type`).
pub open spec fn binary_note(op: BinaryOperator, left: Type, right: Type, left_token: Token, right_token: Token) -> Note {
    let sig = operator_signature(op);
    if left_types(sig).contains(left) {
        Note::Mismatch(right_types_for(sig, left), right, right_token)
    } else {
        Note::Mismatch(left_types(sig), left, left_token)
    }
}

/// The variables `params[..n]` declared in order.
pub open spec fn declared_all(params: Seq<Variable>, n: int, st: CheckState) -> CheckState
    decreases n,
{
    if n <= 0 {
        st
    } else {
        declared_all(params, n - 1, st).declare(params[n - 1])
    }
}

/// Type checking the instruction `i`, with errors at `t`, from the state `st`: its
/// type and the state after.
pub open spec fn checked(i: Instruction, t: Token, st: CheckState) -> (Type, CheckState)
    decreases i, 0int,
{
    match i.instruction_type {
        InstructionType::StringLiteral(_) => (Type::String, st),
        InstructionType::RegexLiteral(_) => (Type::Regex, st),
        InstructionType::IntegerLiteral(_) => (Type::Int, st),
        InstructionType::FloatLiteral(_) => (Type::Float, st),
        InstructionType::BooleanLiteral(_) => (Type::Bool, st),
        InstructionType::BuiltIn(b) => (Type::Nothing, checked_builtin(b, t, st)),
        InstructionType::Block(b) => checked_block(b, t, st),
        InstructionType::Paren(p) => checked(*p.expression, t, st),
        InstructionType::Test(x) => {
            let (ty, s) = checked(*x.body, t, st.open_scope());
            (ty, s.close_scope())
        },
        InstructionType::Function(f) => (Type::Nothing, checked_function(f, t, st)),
        InstructionType::For(f) => {
            let s1 = checked_iterable(f.assignment, t, st.open_scope());
            let (ty, s2) = checked(*f.body, t, s1);
            (ty, s2.close_scope())
        },
        InstructionType::Conditional(c) => checked_conditional(c, t, st),
        InstructionType::Assignment(a) => (Type::Nothing, checked_assignment(a, t, st)),
        InstructionType::IterableAssignment(a) => (Type::Nothing, checked_iterable(a, t, st)),
        InstructionType::Variable(v) => (
            match scoped_lookup(st.scopes, v.name@) {
                Some(d) => d.var_type,
                None => v.var_type,
            },
            st,
        ),
        InstructionType::FunctionCall(c) => checked_call(c, t, st),
        InstructionType::UnaryOperation(u) => checked_unary(u, t, st),
        InstructionType::BinaryOperation(b) => checked_binary(b, t, st),
        InstructionType::TypeCast(c) => checked_cast(c, t, st),
        InstructionType::Nothing => (Type::Nothing, st),
    }
}

/// Type checking a block: its statements in a scope of their own.
pub open spec fn checked_block(b: Block, t: Token, st: CheckState) -> (Type, CheckState)
    decreases b, 0int,
{
    let (ty, s) = checked_statements(b.statements@, b.statements@.len() as int, t, st.open_scope());
    (ty, s.close_scope())
}

/// Type checking the statements `stmts[..n]` (`n` at most their number) of a block in order: the type of the
/// last, and a warning about each other one whose value goes unused.
pub open spec fn checked_statements(stmts: Seq<Instruction>, n: int, t: Token, st: CheckState) -> (Type, CheckState)
    decreases stmts, n,
{
    if n <= 0 || n > stmts.len() {
        (Type::Nothing, st)
    } else {
        let (_, s1) = checked_statements(stmts, n - 1, t, st);
        let (ty, s2) = checked(stmts[n - 1], t, s1);
        (
            ty,
            if ty != Type::Nothing && n - 1 != stmts.len() - 1 {
                s2.note(
                    Note::Message(
                        ParserMessage::Warning(
                            ParserWarning { warning_type: ParserWarningType::UnusedValue, token: stmts[n - 1].token },
                        ),
                    ),
                )
            } else {
                s2
            },
        )
    }
}

/// Type checking a call of a built-in function.
pub open spec fn checked_builtin(b: BuiltIn, t: Token, st: CheckState) -> CheckState
    decreases b, 1int,
{
    if b.name@ == "input"@ || b.name@ == "output"@ {
        checked_input_output(b, t, st)
    } else {
        checked_print(b, t, st)
    }
}

/// Type checking a call of `input` or `output`: one argument, a string.
pub open spec fn checked_input_output(b: BuiltIn, t: Token, st: CheckState) -> CheckState
    decreases b, 0int,
{
    let s1 = if b.arguments.len() != 1 {
        st.note(count_note(1, b.arguments.len(), t))
    } else {
        st
    };
    if b.arguments@.len() > 0 {
        let (ty, s2) = checked(b.arguments@[0], t, s1);
        s2.expect(Type::String, ty, t)
    } else {
        s1
    }
}

/// Type checking a call of `print` or `println`: at least one argument, each a string.
pub open spec fn checked_print(b: BuiltIn, t: Token, st: CheckState) -> CheckState
    decreases b, 0int,
{
    let s1 = if b.arguments@.len() == 0 {
        st.note(count_note(1, 0, t))
    } else {
        st
    };
    checked_strings(b.arguments@, b.arguments@.len() as int, t, s1)
}

/// Type checking the arguments `args[..n]` of a print, each of which must be a string.
pub open spec fn checked_strings(args: Seq<Instruction>, n: int, t: Token, st: CheckState) -> CheckState
    decreases args, n,
{
    if n <= 0 || n > args.len() {
        st
    } else {
        let s1 = checked_strings(args, n - 1, t, st);
        let (ty, s2) = checked(args[n - 1], t, s1);
        s2.expect(Type::String, ty, t)
    }
}

/// Type checking a function: it becomes known, and its body is checked with its
/// parameters in a scope of their own.
pub open spec fn checked_function(f: Function, t: Token, st: CheckState) -> CheckState
    decreases f, 0int,
{
    let s1 = declared_all(f.parameters@, f.parameters@.len() as int, st.define(f).open_scope());
    let (_, s2) = checked(*f.body, t, s1);
    s2.close_scope()
}

/// Type checking `name: type in iterable`: the iterable's items must be of the
/// variable's type, which is then declared.
pub open spec fn checked_iterable(a: IterableAssignment, t: Token, st: CheckState) -> CheckState
    decreases a, 0int,
{
    let (bt, s1) = checked(*a.body, t, st);
    if bt == Type::Regex && a.variable.var_type == Type::String {
        s1.declare(a.variable)
    } else {
        s1.note(Note::Mismatch(seq![Type::Iterable(Box::new(a.variable.var_type))], a.variable.var_type, t))
    }
}

/// Type checking a conditional.
pub open spec fn checked_conditional(c: Conditional, t: Token, st: CheckState) -> (Type, CheckState)
    decreases c, 0int,
{
    let (ct, s1) = checked(*c.condition, t, st);
    let (it, s2) = checked(*c.if_body, t, s1.expect(Type::Bool, ct, t));
    let (et, s3) = checked(*c.else_body, t, s2);
    (it, s3.expect(it, et, t))
}

/// Type checking an assignment.
pub open spec fn checked_assignment(a: Assignment, t: Token, st: CheckState) -> CheckState
    decreases a, 0int,
{
    let (bt, s1) = checked(*a.body, t, st);
    let s2 = s1.expect(a.variable.var_type, bt, t);
    if a.declaration {
        s2.declare(a.variable)
    } else {
        s2
    }
}

/// Type checking a call of a function.
pub open spec fn checked_call(c: FunctionCall, t: Token, st: CheckState) -> (Type, CheckState)
    decreases c, 0int,
{
    match entry_value(st.functions, c.name@) {
        None => (
            Type::Nothing,
            st.note(
                Note::Message(
                    ParserMessage::Error(
                        ParserError { error_type: ParserErrorType::IdentifierNotDefined(c.name), token: t },
                    ),
                ),
            ),
        ),
        Some(sig) => {
            let params = sig.0;
            let s1 = if params.len() != c.arguments@.len() {
                st.note(count_note(params.len() as usize, c.arguments.len(), t))
            } else {
                st
            };
            let n = if params.len() < c.arguments@.len() { params.len() as int } else { c.arguments@.len() as int };
            (sig.1, checked_arguments(c.arguments@, params, n, t, s1))
        },
    }
}

/// Type checking the arguments `args[..n]` of a call, each of its parameter's type.
pub open spec fn checked_arguments(args: Seq<Instruction>, params: Seq<Type>, n: int, t: Token, st: CheckState) -> CheckState
    decreases args, n,
{
    if n <= 0 || n > args.len() {
        st
    } else {
        let s1 = checked_arguments(args, params, n - 1, t, st);
        let (ty, s2) = checked(args[n - 1], t, s1);
        s2.expect(params[n - 1], ty, t)
    }
}

/// Type checking a unary operation.
pub open spec fn checked_unary(u: Unary, t: Token, st: CheckState) -> (Type, CheckState)
    decreases u, 0int,
{
    let (bt, s1) = checked(*u.body, t, st);
    (
        bt,
        if unary_accepts(u.operator, bt) {
            s1
        } else {
            s1.note(Note::Mismatch(unary_expected(u.operator), bt, t))
        },
    )
}

/// Type checking a binary operation.
pub open spec fn checked_binary(b: Binary, t: Token, st: CheckState) -> (Type, CheckState)
    decreases b, 0int,
{
    let (lt, s1) = checked(*b.left, t, st);
    let (rt, s2) = checked(*b.right, t, s1);
    match result_type(b.operator, lt, rt) {
        Some(x) => (x, s2),
        None => (Type::Nothing, s2.note(binary_note(b.operator, lt, rt, b.left.token, b.right.token))),
    }
}

/// Type checking a type cast.
pub open spec fn checked_cast(c: TypeCast, t: Token, st: CheckState) -> (Type, CheckState)
    decreases c, 0int,
{
    let (ft, s1) = checked(*c.from, t, st);
    if castable(ft, c.to) {
        (c.to, s1)
    } else {
        (
            Type::Nothing,
            s1.note(
                Note::Message(
                    ParserMessage::Error(
                        ParserError { error_type: ParserErrorType::TypeCast { from: ft, to: c.to }, token: t },
                    ),
                ),
            ),
        )
    }
}

/// An operation on operands whose own check notes nothing (literals, variables)
/// type-checks without a note exactly when the operator accepts the operand types,
/// and then has the operator's result type; otherwise one note is added and the
/// operation has no type.
pub proof fn law_operation_checks(
    left: Instruction,
    right: Instruction,
    op: BinaryOperator,
    tok: Token,
    t: Token,
    st: CheckState,
)
    requires
        checked(left, t, st).1 == st,
        checked(right, t, st).1 == st,
    ensures
        ({
            let i = Instruction {
                instruction_type: InstructionType::BinaryOperation(
                    Binary { operator: op, left: Box::new(left), right: Box::new(right) },
                ),
                token: tok,
            };
            let (ty, after) = checked(i, t, st);
            &&& (after.notes == st.notes <==> result_type(op, checked(left, t, st).0, checked(right, t, st).0) is Some)
            &&& after.notes.len() <= st.notes.len() + 1
            &&& result_type(op, checked(left, t, st).0, checked(right, t, st).0) matches Some(x) ==> ty == x
            &&& result_type(op, checked(left, t, st).0, checked(right, t, st).0) is None ==> ty == Type::Nothing
        }),
{
    let b = Binary { operator: op, left: Box::new(left), right: Box::new(right) };
    let i = Instruction { instruction_type: InstructionType::BinaryOperation(b), token: tok };
    assert(checked(i, t, st) == checked_binary(b, t, st));
    let lt = checked(left, t, st).0;
    let rt = checked(right, t, st).0;
    if result_type(op, lt, rt) is None {
        let n = binary_note(op, lt, rt, left.token, right.token);
        assert(checked_binary(b, t, st) == (Type::Nothing, st.note(n)));
        assert(st.note(n).notes.len() == st.notes.len() + 1);
    }
}

/// A cast of an operand whose own check notes nothing type-checks without a note
/// exactly when the operand's type may be cast to the target type, and then has the
/// target type; otherwise one note is added and the cast has no type.
pub proof fn law_cast_checks(from: Instruction, to: Type, tok: Token, t: Token, st: CheckState)
    requires
        checked(from, t, st).1 == st,
    ensures
        ({
            let i = Instruction {
                instruction_type: InstructionType::TypeCast(TypeCast { from: Box::new(from), to }),
                token: tok,
            };
            let (ty, after) = checked(i, t, st);
            &&& (after.notes == st.notes <==> castable(checked(from, t, st).0, to))
            &&& after.notes.len() <= st.notes.len() + 1
            &&& castable(checked(from, t, st).0, to) ==> ty == to
            &&& !castable(checked(from, t, st).0, to) ==> ty == Type::Nothing
        }),
{
    let c = TypeCast { from: Box::new(from), to };
    let i = Instruction { instruction_type: InstructionType::TypeCast(c), token: tok };
    assert(checked(i, t, st) == checked_cast(c, t, st));
    let ft = checked(from, t, st).0;
    if !castable(ft, to) {
        let (ty, after) = checked_cast(c, t, st);
        assert(after.notes.len() == st.notes.len() + 1);
    }
}

/// Adding a message adds its note.
proof fn lemma_notes_push(ms: Seq<ParserMessage>, m: ParserMessage)
    ensures
        notes_of(ms.push(m)) == notes_of(ms).push(note_of(m)),
{
    assert(notes_of(ms.push(m)) =~= notes_of(ms).push(note_of(m)));
}

/// Adding warnings adds their notes.
proof fn lemma_notes_warnings(ms: Seq<ParserMessage>, a: Seq<ParserWarning>, b: Seq<ParserWarning>)
    ensures
        notes_of(ms + as_messages(a) + as_messages(b)) == notes_of(ms) + warning_notes(a) + warning_notes(b),
{
    assert(notes_of(ms + as_messages(a) + as_messages(b)) =~= notes_of(ms) + warning_notes(a) + warning_notes(b));
}

/// The signatures of a table after storing a function are those of the table with
/// the function's signature stored.
proof fn lemma_signatures_insert(table: Seq<(Seq<char>, Function)>, f: Function, g: Function)
    requires
        keys_distinct(table),
        g.name == f.name,
        g.parameters@ == f.parameters@,
        g.return_type == f.return_type,
    ensures
        signatures(entries_insert(table, f.name@, g)) == entries_insert(signatures(table), f.name@, signature(f)),
{
    lemma_same_keys(table, signatures(table), f.name@);
    assert(signatures(entries_insert(table, f.name@, g)) =~= entries_insert(signatures(table), f.name@, signature(f)));
}

/// The signature stored under a name is that of the function stored under it.
proof fn lemma_signatures_value(table: Seq<(Seq<char>, Function)>, name: Seq<char>)
    requires
        keys_distinct(table),
    ensures
        entry_value(signatures(table), name) == match entry_value(table, name) {
            Some(f) => Some(signature(f)),
            None => None::<(Seq<Type>, Type)>,
        },
{
    lemma_same_keys(table, signatures(table), name);
}

/// Whether `t` is a token that stands for no place in the source.
pub open spec fn placeless(t: Token) -> bool {
    &&& t.token_type@ == crate::token::TokenKind::Nothing
    &&& t.file@.len() == 0
    &&& t.row == 0
    &&& t.column == 0
    &&& t.line@.len() == 0
    &&& t.last_token is None
}

/// Type checking the items `program[..n]` of a program in order, each with errors
/// at the token `t`.
pub open spec fn checked_program(program: Seq<Instruction>, n: int, t: Token, st: CheckState) -> CheckState
    decreases n,
{
    if n <= 0 || n > program.len() {
        st
    } else {
        checked(program[n - 1], t, checked_program(program, n - 1, t, st)).1
    }
}

/// What a step of type checking keeps: the environment stays consistent with as many
/// scopes, and messages are only added.
pub open spec fn check_keeps(
    before_env: ParseEnvironment,
    after_env: ParseEnvironment,
    before: Seq<ParserMessage>,
    after: Seq<ParserMessage>,
) -> bool {
    &&& after_env.wf()
    &&& after_env.scopes().len() == before_env.scopes().len()
    &&& messages_kept(before, after)
}

/// Opens a scope for checking.
fn open_scope(environment: &mut ParseEnvironment, messages: &Vec<ParserMessage>)
    requires
        old(environment).wf(),
    ensures
        final(environment).wf(),
        final(environment).scopes().len() == old(environment).scopes().len() + 1,
        state_of(*final(environment), messages@) == state_of(*old(environment), messages@).open_scope(),
{
    environment.add_scope();
}

/// Closes the innermost scope after the warnings about its variables.
fn close_scope(environment: &mut ParseEnvironment, messages: &mut Vec<ParserMessage>)
    requires
        old(environment).wf(),
        old(environment).scopes().len() >= 1,
    ensures
        final(environment).wf(),
        final(environment).scopes().len() == old(environment).scopes().len() - 1,
        messages_kept(old(messages)@, final(messages)@),
        state_of(*final(environment), final(messages)@) == state_of(*old(environment), old(messages)@).close_scope(),
{
    let ghost vars = environment.scopes().last().map_values(|e: (Seq<char>, Variable)| e.1);
    environment.remove_scope(messages);
    proof {
        lemma_notes_warnings(old(messages)@, unused_warnings(vars), unassigned_warnings(vars));
    }
}

/// Declares `variable` where it has a name.
fn declare(environment: &mut ParseEnvironment, messages: &Vec<ParserMessage>, variable: &Variable)
    requires
        old(environment).wf(),
        old(environment).scopes().len() >= 1,
    ensures
        final(environment).wf(),
        final(environment).scopes().len() == old(environment).scopes().len(),
        state_of(*final(environment), messages@) == state_of(*old(environment), messages@).declare(*variable),
{
    if crate::text::chars_of(variable.name.as_str()).len() > 0 {
        environment.insert(variable.clone());
    }
}

/// Makes `function` known.
fn define(environment: &mut ParseEnvironment, messages: &Vec<ParserMessage>, function: &Function)
    requires
        old(environment).wf(),
    ensures
        final(environment).wf(),
        final(environment).scopes() == old(environment).scopes(),
        state_of(*final(environment), messages@) == state_of(*old(environment), messages@).define(*function),
{
    proof {
        environment.lemma_distinct();
    }
    let copy = function.clone();
    let ghost g = copy;
    environment.add_function(copy);
    proof {
        lemma_signatures_insert(old(environment).function_table(), *function, g);
    }
}

impl Instruction {
    /// The type of this instruction, recording type errors in `messages`. Names are
    /// looked up in `environment`, where declarations and functions are added as they
    /// are met; errors are reported at `token`, the token of the top-level item.
    pub fn type_check(
        &self,
        environment: &mut ParseEnvironment,
        token: &Token,
        messages: &mut Vec<ParserMessage>,
    ) -> (r: Type)
        requires
            old(environment).wf(),
            old(environment).scopes().len() >= 1,
        ensures
            check_keeps(*old(environment), *final(environment), old(messages)@, final(messages)@),
            (r, state_of(*final(environment), final(messages)@)) == checked(*self, *token, state_of(*old(environment), old(messages)@)),
            expression_type(*self, old(environment).scopes()) matches Some(t) ==> {
                &&& r == t
                &&& *final(environment) == *old(environment)
                &&& expression_clean(*self, old(environment).scopes()) ==> final(messages)@ == old(messages)@
                &&& !expression_clean(*self, old(environment).scopes()) ==> final(messages)@.len() > old(messages)@.len()
            },
        decreases self, 1nat,
    {
        match &self.instruction_type {
            InstructionType::StringLiteral(_) => Type::String,
            InstructionType::RegexLiteral(_) => Type::Regex,
            InstructionType::IntegerLiteral(_) => Type::Int,
            InstructionType::FloatLiteral(_) => Type::Float,
            InstructionType::BooleanLiteral(_) => Type::Bool,
            InstructionType::BuiltIn(b) => b.type_check(environment, token, messages),
            InstructionType::Block(b) => b.type_check(environment, token, messages),
            InstructionType::Paren(p) => p.expression.type_check(environment, token, messages),
            InstructionType::Test(t) => {
                open_scope(environment, messages);
                let result = t.body.type_check(environment, token, messages);
                close_scope(environment, messages);
                result
            },
            InstructionType::Function(f) => f.type_check(environment, token, messages),
            InstructionType::For(f) => {
                open_scope(environment, messages);
                f.assignment.type_check(environment, token, messages);
                let result = f.body.type_check(environment, token, messages);
                close_scope(environment, messages);
                result
            },
            InstructionType::Conditional(c) => c.type_check(environment, token, messages),
            InstructionType::Assignment(a) => a.type_check(environment, token, messages),
            InstructionType::IterableAssignment(a) => a.type_check(environment, token, messages),
            InstructionType::Variable(v) => match environment.get(v.name.as_str()) {
                Some(d) => d.var_type,
                None => v.var_type.clone(),
            },
            InstructionType::FunctionCall(f) => f.type_check(environment, token, messages),
            InstructionType::UnaryOperation(u) => u.type_check(environment, token, messages),
            InstructionType::BinaryOperation(b) => b.type_check(environment, token, messages),
            InstructionType::TypeCast(t) => t.type_check(environment, token, messages),
            InstructionType::Nothing => Type::Nothing,
        }
    }
}

impl crate::instruction::Binary {
    /// The type of `left op right` (see `binary_type`); mismatches are reported at the
    /// operand's own token.
    pub fn type_check(
        &self,
        environment: &mut ParseEnvironment,
        token: &Token,
        messages: &mut Vec<ParserMessage>,
    ) -> (r: Type)
        requires
            old(environment).wf(),
            old(environment).scopes().len() >= 1,
        ensures
            check_keeps(*old(environment), *final(environment), old(messages)@, final(messages)@),
            (r, state_of(*final(environment), final(messages)@)) == checked_binary(*self, *token, state_of(*old(environment), old(messages)@)),
            ({
                let s = old(environment).scopes();
                expression_type(*self.left, s) is Some && expression_type(*self.right, s) is Some ==> {
                    let l = expression_type(*self.left, s)->0;
                    let rt = expression_type(*self.right, s)->0;
                    &&& r == binary_result(self.operator, l, rt)
                    &&& *final(environment) == *old(environment)
                    &&& expression_clean(*self.left, s) && expression_clean(*self.right, s) && result_type(self.operator, l, rt) is Some
                        ==> final(messages)@ == old(messages)@
                    &&& !(expression_clean(*self.left, s) && expression_clean(*self.right, s) && result_type(self.operator, l, rt) is Some)
                        ==> final(messages)@.len() > old(messages)@.len()
                }
            }),
        decreases self, 0nat,
    {
        let left_type = self.left.type_check(environment, token, messages);
        let right_type = self.right.type_check(environment, token, messages);
        binary_type(self.operator, &left_type, &right_type, &self.left.token, &self.right.token, messages)
    }
}

impl crate::instruction::Unary {
    /// The type of a unary operation (see `unary_type`).
    pub fn type_check(
        &self,
        environment: &mut ParseEnvironment,
        token: &Token,
        messages: &mut Vec<ParserMessage>,
    ) -> (r: Type)
        requires
            old(environment).wf(),
            old(environment).scopes().len() >= 1,
        ensures
            check_keeps(*old(environment), *final(environment), old(messages)@, final(messages)@),
            (r, state_of(*final(environment), final(messages)@)) == checked_unary(*self, *token, state_of(*old(environment), old(messages)@)),
            ({
                let s = old(environment).scopes();
                expression_type(*self.body, s) matches Some(t) ==> {
                    &&& r == t
                    &&& *final(environment) == *old(environment)
                    &&& expression_clean(*self.body, s) && unary_accepts(self.operator, t) ==> final(messages)@ == old(messages)@
                    &&& !(expression_clean(*self.body, s) && unary_accepts(self.operator, t)) ==> final(messages)@.len() > old(messages)@.len()
                }
            }),
        decreases self, 0nat,
    {
        let body_type = self.body.type_check(environment, token, messages);
        unary_type(self.operator, &body_type, token, messages)
    }
}

impl crate::instruction::TypeCast {
    /// The type of a type cast (see `cast_type`).
    pub fn type_check(
        &self,
        environment: &mut ParseEnvironment,
        token: &Token,
        messages: &mut Vec<ParserMessage>,
    ) -> (r: Type)
        requires
            old(environment).wf(),
            old(environment).scopes().len() >= 1,
        ensures
            check_keeps(*old(environment), *final(environment), old(messages)@, final(messages)@),
            (r, state_of(*final(environment), final(messages)@)) == checked_cast(*self, *token, state_of(*old(environment), old(messages)@)),
            ({
                let s = old(environment).scopes();
                expression_type(*self.from, s) matches Some(f) ==> {
                    &&& r == (if castable(f, self.to) { self.to } else { Type::Nothing })
                    &&& *final(environment) == *old(environment)
                    &&& expression_clean(*self.from, s) && castable(f, self.to) ==> final(messages)@ == old(messages)@
                    &&& !(expression_clean(*self.from, s) && castable(f, self.to)) ==> final(messages)@.len() > old(messages)@.len()
                }
            }),
        decreases self, 0nat,
    {
        let from_type = self.from.type_check(environment, token, messages);
        cast_type(&from_type, &self.to, token, messages)
    }
}

impl crate::instruction::Conditional {
    /// The type of a conditional: that of its first branch. The condition must be a
    /// boolean and both branches of one type.
    pub fn type_check(
        &self,
        environment: &mut ParseEnvironment,
        token: &Token,
        messages: &mut Vec<ParserMessage>,
    ) -> (r: Type)
        requires
            old(environment).wf(),
            old(environment).scopes().len() >= 1,
        ensures
            check_keeps(*old(environment), *final(environment), old(messages)@, final(messages)@),
            (r, state_of(*final(environment), final(messages)@)) == checked_conditional(*self, *token, state_of(*old(environment), old(messages)@)),
        decreases self, 0nat,
    {
        let condition_type = self.condition.type_check(environment, token, messages);
        expect_type(&Type::Bool, &condition_type, token, messages);
        let if_type = self.if_body.type_check(environment, token, messages);
        let else_type = self.else_body.type_check(environment, token, messages);
        expect_type(&if_type, &else_type, token, messages);
        if_type
    }
}

impl crate::instruction::Block {
    /// The type of a block: that of its last statement, or no type if it is empty. Its
    /// statements are checked in a scope of their own; a value that an earlier
    /// statement leaves unused is warned about.
    pub fn type_check(
        &self,
        environment: &mut ParseEnvironment,
        token: &Token,
        messages: &mut Vec<ParserMessage>,
    ) -> (r: Type)
        requires
            old(environment).wf(),
            old(environment).scopes().len() >= 1,
        ensures
            check_keeps(*old(environment), *final(environment), old(messages)@, final(messages)@),
            (r, state_of(*final(environment), final(messages)@)) == checked_block(*self, *token, state_of(*old(environment), old(messages)@)),
            self.statements@.len() == 0 ==> r == Type::Nothing,
        decreases self, 0nat,
    {
        let mut result = Type::Nothing;
        open_scope(environment, messages);
        let ghost start = state_of(*old(environment), old(messages)@).open_scope();
        let mut i: usize = 0;
        while i < self.statements.len()
            invariant
                i <= self.statements@.len(),
                environment.wf(),
                environment.scopes().len() == old(environment).scopes().len() + 1,
                messages_kept(old(messages)@, messages@),
                i == 0 ==> result == Type::Nothing,
                start == state_of(*old(environment), old(messages)@).open_scope(),
                (result, state_of(*environment, messages@)) == checked_statements(
                    self.statements@,
                    i as int,
                    *token,
                    start,
                ),
            decreases self.statements@.len() - i,
        {
            assert(decreases_to!(self => self.statements));
            assert(decreases_to!(self.statements => self.statements@));
            assert(decreases_to!(self.statements@ => self.statements@[i as int]));
            let statement = &self.statements[i];
            let t = statement.type_check(environment, token, messages);
            if !matches!(t, Type::Nothing) && i != self.statements.len() - 1 {
                let m = ParserMessage::Warning(
                    ParserWarning::new(ParserWarningType::UnusedValue, statement.token.clone()),
                );
                let ghost before = messages@;
                let ghost gm = m;
                messages.push(m);
                proof {
                    lemma_notes_push(before, gm);
                }
            }
            result = t;
            i += 1;
        }
        close_scope(environment, messages);
        result
    }
}

impl crate::instruction::BuiltIn {
    /// The type of a call of a built-in function: none. `print` and `println` want
    /// at least one argument, `input` and `output` exactly one; every argument must be
    /// a string.
    pub fn type_check(
        &self,
        environment: &mut ParseEnvironment,
        token: &Token,
        messages: &mut Vec<ParserMessage>,
    ) -> (r: Type)
        requires
            old(environment).wf(),
            old(environment).scopes().len() >= 1,
        ensures
            check_keeps(*old(environment), *final(environment), old(messages)@, final(messages)@),
            state_of(*final(environment), final(messages)@) == checked_builtin(*self, *token, state_of(*old(environment), old(messages)@)),
            r == Type::Nothing,
        decreases self, 1nat,
    {
        if crate::text::chars_equal(&crate::text::chars_of(self.name.as_str()), "input")
            || crate::text::chars_equal(&crate::text::chars_of(self.name.as_str()), "output") {
            self.type_check_input_output(environment, token, messages)
        } else {
            self.type_check_print(environment, token, messages)
        }
    }

    /// Checks a call of `print` or `println`.
    pub fn type_check_print(
        &self,
        environment: &mut ParseEnvironment,
        token: &Token,
        messages: &mut Vec<ParserMessage>,
    ) -> (r: Type)
        requires
            old(environment).wf(),
            old(environment).scopes().len() >= 1,
        ensures
            check_keeps(*old(environment), *final(environment), old(messages)@, final(messages)@),
            state_of(*final(environment), final(messages)@) == checked_print(*self, *token, state_of(*old(environment), old(messages)@)),
            r == Type::Nothing,
        decreases self, 0nat,
    {
        if self.arguments.len() == 0 {
            let m = ParserMessage::error_mismatched_number_of_arguments(1, 0, token.clone());
            let ghost gm = m;
            messages.push(m);
            proof {
                lemma_notes_push(old(messages)@, gm);
            }
        }
        let ghost start = state_of(*environment, messages@);
        let mut i: usize = 0;
        while i < self.arguments.len()
            invariant
                i <= self.arguments@.len(),
                environment.wf(),
                environment.scopes().len() == old(environment).scopes().len(),
                environment.scopes().len() >= 1,
                messages_kept(old(messages)@, messages@),
                state_of(*environment, messages@) == checked_strings(self.arguments@, i as int, *token, start),
            decreases self.arguments@.len() - i,
        {
            assert(decreases_to!(self => self.arguments));
            assert(decreases_to!(self.arguments => self.arguments@));
            assert(decreases_to!(self.arguments@ => self.arguments@[i as int]));
            let t = self.arguments[i].type_check(environment, token, messages);
            expect_type(&Type::String, &t, token, messages);
            i += 1;
        }
        Type::Nothing
    }

    /// Checks a call of `input` or `output`.
    pub fn type_check_input_output(
        &self,
        environment: &mut ParseEnvironment,
        token: &Token,
        messages: &mut Vec<ParserMessage>,
    ) -> (r: Type)
        requires
            old(environment).wf(),
            old(environment).scopes().len() >= 1,
        ensures
            check_keeps(*old(environment), *final(environment), old(messages)@, final(messages)@),
            state_of(*final(environment), final(messages)@) == checked_input_output(*self, *token, state_of(*old(environment), old(messages)@)),
            r == Type::Nothing,
        decreases self, 0nat,
    {
        if self.arguments.len() != 1 {
            let m = ParserMessage::error_mismatched_number_of_arguments(1, self.arguments.len(), token.clone());
            let ghost gm = m;
            messages.push(m);
            proof {
                lemma_notes_push(old(messages)@, gm);
            }
        }
        if self.arguments.len() > 0 {
            assert(decreases_to!(self => self.arguments));
            assert(decreases_to!(self.arguments => self.arguments@));
            assert(decreases_to!(self.arguments@ => self.arguments@[0]));
            let t = self.arguments[0].type_check(environment, token, messages);
            expect_type(&Type::String, &t, token, messages);
        }
        Type::Nothing
    }
}

impl crate::instruction::IterableAssignment {
    /// Checks `name: type in iterable`: the iterable's items must be of the variable's
    /// type; the variable is then declared. The type is none either way.
    pub fn type_check(
        &self,
        environment: &mut ParseEnvironment,
        token: &Token,
        messages: &mut Vec<ParserMessage>,
    ) -> (r: Type)
        requires
            old(environment).wf(),
            old(environment).scopes().len() >= 1,
        ensures
            check_keeps(*old(environment), *final(environment), old(messages)@, final(messages)@),
            state_of(*final(environment), final(messages)@) == checked_iterable(*self, *token, state_of(*old(environment), old(messages)@)),
            r == Type::Nothing,
        decreases self, 0nat,
    {
        let body_type = self.body.type_check(environment, token, messages);
        if body_type.is_iterable() && body_type.get_iterable_inner_type().same(&self.variable.var_type) {
            declare(environment, messages, &self.variable);
        } else {
            let mut expected: Vec<Type> = Vec::new();
            expected.push(Type::Iterable(Box::new(self.variable.var_type.clone())));
            assert(expected@ =~= seq![Type::Iterable(Box::new(self.variable.var_type))]);
            let m = ParserMessage::error_mismatched_type(expected, self.variable.var_type.clone(), token.clone());
            let ghost before = messages@;
            let ghost gm = m;
            messages.push(m);
            proof {
                lemma_notes_push(before, gm);
            }
        }
        Type::Nothing
    }
}

impl crate::instruction::Assignment {
    /// Checks an assignment: the value must be of the variable's type; a declaration
    /// then declares the variable. The type is none.
    pub fn type_check(
        &self,
        environment: &mut ParseEnvironment,
        token: &Token,
        messages: &mut Vec<ParserMessage>,
    ) -> (r: Type)
        requires
            old(environment).wf(),
            old(environment).scopes().len() >= 1,
        ensures
            check_keeps(*old(environment), *final(environment), old(messages)@, final(messages)@),
            state_of(*final(environment), final(messages)@) == checked_assignment(*self, *token, state_of(*old(environment), old(messages)@)),
            r == Type::Nothing,
        decreases self, 0nat,
    {
        let body_type = self.body.type_check(environment, token, messages);
        expect_type(&self.variable.var_type, &body_type, token, messages);
        if self.declaration && crate::text::chars_of(self.variable.name.as_str()).len() > 0 {
            environment.insert(self.variable.clone());
        }
        Type::Nothing
    }
}

impl crate::instruction::Function {
    /// Checks a function: it becomes known, and its body is checked with its
    /// parameters in a scope of their own. The type is none.
    pub fn type_check(
        &self,
        environment: &mut ParseEnvironment,
        token: &Token,
        messages: &mut Vec<ParserMessage>,
    ) -> (r: Type)
        requires
            old(environment).wf(),
            old(environment).scopes().len() >= 1,
        ensures
            check_keeps(*old(environment), *final(environment), old(messages)@, final(messages)@),
            state_of(*final(environment), final(messages)@) == checked_function(*self, *token, state_of(*old(environment), old(messages)@)),
            r == Type::Nothing,
        decreases self, 0nat,
    {
        define(environment, messages, self);
        open_scope(environment, messages);
        let ghost start = state_of(*old(environment), old(messages)@).define(*self).open_scope();
        let mut i: usize = 0;
        while i < self.parameters.len()
            invariant
                i <= self.parameters@.len(),
                environment.wf(),
                environment.scopes().len() == old(environment).scopes().len() + 1,
                messages@ == old(messages)@,
                start == state_of(*old(environment), old(messages)@).define(*self).open_scope(),
                state_of(*environment, messages@) == declared_all(self.parameters@, i as int, start),
            decreases self.parameters@.len() - i,
        {
            declare(environment, messages, &self.parameters[i]);
            i += 1;
        }
        self.body.type_check(environment, token, messages);
        close_scope(environment, messages);
        Type::Nothing
    }
}

impl crate::instruction::FunctionCall {
    /// The type of a call: the function's return type. The number of arguments must
    /// be that of the parameters, and each argument of its parameter's type. A call
    /// of an unknown function is an error and has no type.
    pub fn type_check(
        &self,
        environment: &mut ParseEnvironment,
        token: &Token,
        messages: &mut Vec<ParserMessage>,
    ) -> (r: Type)
        requires
            old(environment).wf(),
            old(environment).scopes().len() >= 1,
        ensures
            check_keeps(*old(environment), *final(environment), old(messages)@, final(messages)@),
            (r, state_of(*final(environment), final(messages)@)) == checked_call(*self, *token, state_of(*old(environment), old(messages)@)),
            entry_value(old(environment).function_table(), self.name@) matches Some(f) ==> r
                == f.return_type,
        decreases self, 0nat,
    {
        proof {
            environment.lemma_distinct();
            lemma_signatures_value(environment.function_table(), self.name@);
        }
        let (parameter_types, return_type) = match environment.get_function(self.name.as_str()) {
            Some(f) => {
                let mut types: Vec<Type> = Vec::new();
                let mut k: usize = 0;
                while k < f.parameters.len()
                    invariant
                        k <= f.parameters@.len(),
                        types@.len() == k,
                        forall|j: int| 0 <= j < k ==> #[trigger] types@[j] == f.parameters@[j].var_type,
                    decreases f.parameters@.len() - k,
                {
                    types.push(f.parameters[k].var_type.clone());
                    k += 1;
                }
                assert(types@ =~= signature(*f).0);
                (types, f.return_type.clone())
            },
            None => {
                let m = ParserMessage::Error(
                    ParserError::new(ParserErrorType::IdentifierNotDefined(self.name.clone()), token.clone()),
                );
                let ghost gm = m;
                messages.push(m);
                proof {
                    lemma_notes_push(old(messages)@, gm);
                }
                return Type::Nothing;
            },
        };
        let ghost sig = entry_value(state_of(*old(environment), old(messages)@).functions, self.name@)->0;
        assert(parameter_types@ == sig.0 && return_type == sig.1);
        if parameter_types.len() != self.arguments.len() {
            let m = ParserMessage::error_mismatched_number_of_arguments(
                parameter_types.len(),
                self.arguments.len(),
                token.clone(),
            );
            let ghost gm = m;
            messages.push(m);
            proof {
                lemma_notes_push(old(messages)@, gm);
            }
        }
        let ghost start = state_of(*environment, messages@);
        let mut i: usize = 0;
        while i < parameter_types.len() && i < self.arguments.len()
            invariant
                environment.wf(),
                environment.scopes().len() == old(environment).scopes().len(),
                environment.scopes().len() >= 1,
                messages_kept(old(messages)@, messages@),
                i <= parameter_types@.len(),
                i <= self.arguments@.len(),
                state_of(*environment, messages@) == checked_arguments(
                    self.arguments@,
                    parameter_types@,
                    i as int,
                    *token,
                    start,
                ),
            decreases self.arguments@.len() - i,
        {
            assert(decreases_to!(self => self.arguments));
            assert(decreases_to!(self.arguments => self.arguments@));
            assert(decreases_to!(self.arguments@ => self.arguments@[i as int]));
            let t = self.arguments[i].type_check(environment, token, messages);
            expect_type(&parameter_types[i], &t, token, messages);
            i += 1;
        }
        return_type
    }
}

/// The type checker: the program and the names known while it is checked.
pub struct TypeChecker {
    pub program: Vec<Instruction>,
    pub environment: ParseEnvironment,
}

impl TypeChecker {
    /// A checker of `program`, with one empty scope and no functions known.
    pub fn new(program: Vec<Instruction>, args: Args) -> (r: TypeChecker)
        ensures
            r.program@ == program@,
            r.environment.wf(),
            r.environment.scopes().len() == 1,
            r.environment.function_table().len() == 0,
    {
        TypeChecker { program, environment: ParseEnvironment::new(args) }
    }

    /// Checks every item of the program in order. The program passes when nothing
    /// was recorded; else the messages are returned, in order.
    pub fn check(&mut self) -> (r: Result<(), Vec<ParserMessage>>)
        requires
            old(self).environment.wf(),
            old(self).environment.scopes().len() >= 1,
        ensures
            final(self).environment.wf(),
            final(self).program@ == old(self).program@,
            r is Err ==> r->Err_0@.len() > 0,
            exists|t: Token|
                #[trigger] placeless(t) && {
                    let st = checked_program(
                        old(self).program@,
                        old(self).program@.len() as int,
                        t,
                        state_of(old(self).environment, seq![]),
                    );
                    &&& st.scopes == final(self).environment.scopes()
                    &&& (r is Ok <==> st.notes.len() == 0)
                    &&& r matches Err(m) ==> notes_of(m@) == st.notes
                },
    {
        let mut result: Vec<ParserMessage> = Vec::new();
        let none = Token::none();
        let ghost start = state_of(self.environment, result@);
        assert(start == state_of(old(self).environment, seq![])) by {
            assert(notes_of(result@) =~= notes_of(seq![]));
        }
        let mut i: usize = 0;
        while i < self.program.len()
            invariant
                i <= self.program@.len(),
                self.program@ == old(self).program@,
                self.environment.wf(),
                self.environment.scopes().len() >= 1,
                start == state_of(old(self).environment, seq![]),
                state_of(self.environment, result@) == checked_program(self.program@, i as int, none, start),
            decreases self.program@.len() - i,
        {
            self.program[i].type_check(&mut self.environment, &none, &mut result);
            i += 1;
        }
        assert(placeless(none));
        if result.len() == 0 {
            Ok(())
        } else {
            Err(result)
        }
    }
}

/// What can be type checked: a node of the syntax tree.
pub trait TypeCheck {
    /// The type of the node, with type errors recorded in `messages`.
    fn type_check(&self, environment: &mut ParseEnvironment, token: &Token, messages: &mut Vec<ParserMessage>) -> (r: Type)
        requires
            old(environment).wf(),
            old(environment).scopes().len() >= 1,
        ensures
            check_keeps(*old(environment), *final(environment), old(messages)@, final(messages)@),
    ;
}

impl TypeCheck for Instruction {
    fn type_check(&self, environment: &mut ParseEnvironment, token: &Token, messages: &mut Vec<ParserMessage>) -> (r: Type)
        ensures
            (r, state_of(*final(environment), final(messages)@)) == checked(*self, *token, state_of(*old(environment), old(messages)@)),
    {
        Instruction::type_check(self, environment, token, messages)
    }
}

impl TypeCheck for crate::instruction::Binary {
    fn type_check(&self, environment: &mut ParseEnvironment, token: &Token, messages: &mut Vec<ParserMessage>) -> (r: Type)
        ensures
            (r, state_of(*final(environment), final(messages)@)) == checked_binary(*self, *token, state_of(*old(environment), old(messages)@)),
    {
        crate::instruction::Binary::type_check(self, environment, token, messages)
    }
}

impl TypeCheck for crate::instruction::Unary {
    fn type_check(&self, environment: &mut ParseEnvironment, token: &Token, messages: &mut Vec<ParserMessage>) -> (r: Type)
        ensures
            (r, state_of(*final(environment), final(messages)@)) == checked_unary(*self, *token, state_of(*old(environment), old(messages)@)),
    {
        crate::instruction::Unary::type_check(self, environment, token, messages)
    }
}

impl TypeCheck for crate::instruction::TypeCast {
    fn type_check(&self, environment: &mut ParseEnvironment, token: &Token, messages: &mut Vec<ParserMessage>) -> (r: Type)
        ensures
            (r, state_of(*final(environment), final(messages)@)) == checked_cast(*self, *token, state_of(*old(environment), old(messages)@)),
    {
        crate::instruction::TypeCast::type_check(self, environment, token, messages)
    }
}

impl TypeCheck for crate::instruction::Conditional {
    fn type_check(&self, environment: &mut ParseEnvironment, token: &Token, messages: &mut Vec<ParserMessage>) -> (r: Type)
        ensures
            (r, state_of(*final(environment), final(messages)@)) == checked_conditional(*self, *token, state_of(*old(environment), old(messages)@)),
    {
        crate::instruction::Conditional::type_check(self, environment, token, messages)
    }
}

impl TypeCheck for crate::instruction::Block {
    fn type_check(&self, environment: &mut ParseEnvironment, token: &Token, messages: &mut Vec<ParserMessage>) -> (r: Type)
        ensures
            (r, state_of(*final(environment), final(messages)@)) == checked_block(*self, *token, state_of(*old(environment), old(messages)@)),
    {
        crate::instruction::Block::type_check(self, environment, token, messages)
    }
}

impl TypeCheck for crate::instruction::BuiltIn {
    fn type_check(&self, environment: &mut ParseEnvironment, token: &Token, messages: &mut Vec<ParserMessage>) -> (r: Type)
        ensures
            state_of(*final(environment), final(messages)@) == checked_builtin(*self, *token, state_of(*old(environment), old(messages)@)),
            r == Type::Nothing,
    {
        crate::instruction::BuiltIn::type_check(self, environment, token, messages)
    }
}

impl TypeCheck for crate::instruction::IterableAssignment {
    fn type_check(&self, environment: &mut ParseEnvironment, token: &Token, messages: &mut Vec<ParserMessage>) -> (r: Type)
        ensures
            state_of(*final(environment), final(messages)@) == checked_iterable(*self, *token, state_of(*old(environment), old(messages)@)),
            r == Type::Nothing,
    {
        crate::instruction::IterableAssignment::type_check(self, environment, token, messages)
    }
}

impl TypeCheck for crate::instruction::Assignment {
    fn type_check(&self, environment: &mut ParseEnvironment, token: &Token, messages: &mut Vec<ParserMessage>) -> (r: Type)
        ensures
            state_of(*final(environment), final(messages)@) == checked_assignment(*self, *token, state_of(*old(environment), old(messages)@)),
            r == Type::Nothing,
    {
        crate::instruction::Assignment::type_check(self, environment, token, messages)
    }
}

impl TypeCheck for crate::instruction::Function {
    fn type_check(&self, environment: &mut ParseEnvironment, token: &Token, messages: &mut Vec<ParserMessage>) -> (r: Type)
        ensures
            state_of(*final(environment), final(messages)@) == checked_function(*self, *token, state_of(*old(environment), old(messages)@)),
            r == Type::Nothing,
    {
        crate::instruction::Function::type_check(self, environment, token, messages)
    }
}

impl TypeCheck for crate::instruction::FunctionCall {
    fn type_check(&self, environment: &mut ParseEnvironment, token: &Token, messages: &mut Vec<ParserMessage>) -> (r: Type)
        ensures
            (r, state_of(*final(environment), final(messages)@)) == checked_call(*self, *token, state_of(*old(environment), old(messages)@)),
    {
        crate::instruction::FunctionCall::type_check(self, environment, token, messages)
    }
}

} // verus!
