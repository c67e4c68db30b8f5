use vstd::prelude::*;

use crate::error::{InterpreterError, LexerError, ParserError, ParserErrorType, ParserWarning, ParserWarningType};
use crate::instruction::{Instruction, InstructionType};
use crate::operators::{BinaryOperator, UnaryOperator};
use crate::text::{chars_of, string_from, string_of};
use crate::token::{PrintStyle, Token, TokenKind, TokenType};
use crate::types::Type;
use crate::values::{int_text, value_text, FloatArithmetic};
use crate::variable::SnakeCase;

verus! {

/// How a piece of a message is shown.
#[derive(Debug, PartialEq, Eq, Structural, Clone, Copy)]
pub enum Style {
    Plain,
    /// A line number.
    LineNumber,
    /// Bright red, for errors.
    Error,
    /// Bright yellow, for warnings.
    Warning,
    /// Bright blue, for help.
    Help,
    /// Bright green, for text to insert.
    Insert,
}

/// A piece of a message: its text and how it is shown.
#[derive(Debug, PartialEq)]
pub struct Piece {
    pub text: String,
    pub style: Style,
}

fn piece(text: String, style: Style) -> (r: Piece)
    ensures
        r.text == text,
        r.style == style,
{
    Piece { text, style }
}

fn plain(text: &str) -> (r: Piece)
    ensures
        r.text@ == text@,
        r.style == Style::Plain,
{
    Piece { text: string_of(text), style: Style::Plain }
}

/// `a` followed by `b`.
fn join(a: &String, b: &str) -> (r: String)
    ensures
        r@ == a@ + b@,
{
    let mut r = a.clone();
    r.append(b);
    r
}

/// `n` copies of the character `c`.
fn repeat_char(c: char, n: usize) -> (r: String)
    ensures
        r@ == Seq::new(n as nat, |i: int| c),
{
    let mut cs: Vec<char> = Vec::new();
    let mut i: usize = 0;
    while i < n
        invariant
            i <= n,
            cs@ == Seq::new(i as nat, |k: int| c),
        decreases n - i,
    {
        cs.push(c);
        i += 1;
        assert(cs@ =~= Seq::new(i as nat, |k: int| c));
    }
    string_from(cs.as_slice())
}

/// The name of a type as the language writes it.
pub open spec fn type_text(t: Type) -> Seq<char>
    decreases t,
{
    match t {
        Type::String => "string"@,
        Type::Regex => "regex"@,
        Type::Int => "int"@,
        Type::Float => "float"@,
        Type::Bool => "bool"@,
        Type::Nothing => "none"@,
        Type::Iterable(inner) => "Iter<"@ + type_text(*inner) + ">"@,
        Type::Any => "T"@,
    }
}

impl Type {
    /// The name of this type (see `type_text`).
    pub fn text(&self) -> (r: String)
        ensures
            r@ == type_text(*self),
        decreases self,
    {
        match self {
            Type::String => string_of("string"),
            Type::Regex => string_of("regex"),
            Type::Int => string_of("int"),
            Type::Float => string_of("float"),
            Type::Bool => string_of("bool"),
            Type::Nothing => string_of("none"),
            Type::Iterable(inner) => {
                let r = join(&join(&string_of("Iter<"), inner.text().as_str()), ">");
                assert(r@ =~= type_text(*self));
                r
            },
            Type::Any => string_of("T"),
        }
    }
}

/// The text of a binary operator.
pub open spec fn binary_operator_text(op: BinaryOperator) -> Seq<char> {
    match op {
        BinaryOperator::And => "&&"@,
        BinaryOperator::Or => "||"@,
        BinaryOperator::Equal => "=="@,
        BinaryOperator::NotEqual => "!="@,
        BinaryOperator::GreaterThan => ">"@,
        BinaryOperator::GreaterThanOrEqual => ">="@,
        BinaryOperator::LessThan => "<"@,
        BinaryOperator::LessThanOrEqual => "<="@,
        BinaryOperator::Addition => "+"@,
        BinaryOperator::Subtraction => "-"@,
        BinaryOperator::Multiplication => "*"@,
        BinaryOperator::Division => "/"@,
        BinaryOperator::Modulo => "%"@,
    }
}

impl BinaryOperator {
    /// The text of this operator.
    pub fn text(&self) -> (r: String)
        ensures
            r@ == binary_operator_text(*self),
    {
        match self {
            BinaryOperator::And => string_of("&&"),
            BinaryOperator::Or => string_of("||"),
            BinaryOperator::Equal => string_of("=="),
            BinaryOperator::NotEqual => string_of("!="),
            BinaryOperator::GreaterThan => string_of(">"),
            BinaryOperator::GreaterThanOrEqual => string_of(">="),
            BinaryOperator::LessThan => string_of("<"),
            BinaryOperator::LessThanOrEqual => string_of("<="),
            BinaryOperator::Addition => string_of("+"),
            BinaryOperator::Subtraction => string_of("-"),
            BinaryOperator::Multiplication => string_of("*"),
            BinaryOperator::Division => string_of("/"),
            BinaryOperator::Modulo => string_of("%"),
        }
    }
}

impl UnaryOperator {
    /// The text of this operator.
    pub fn text(&self) -> (r: String)
        ensures
            r@ == match *self {
                UnaryOperator::Not => "!"@,
                UnaryOperator::Negation => "-"@,
            },
    {
        match self {
            UnaryOperator::Not => string_of("!"),
            UnaryOperator::Negation => string_of("-"),
        }
    }
}

/// How a token type is named in messages.
pub open spec fn token_text(k: TokenKind) -> Seq<char> {
    match k {
        TokenKind::StringLiteral(v) => v,
        TokenKind::RegexLiteral(v) => v,
        TokenKind::IntegerLiteral(v) => "`"@ + crate::values::decimal(v as int) + "`"@,
        TokenKind::FloatLiteral(v) => "`"@ + v + "`"@,
        TokenKind::BooleanLiteral(v) => if v {
            "`true`"@
        } else {
            "`false`"@
        },
        TokenKind::Keyword(v) => "keyword `"@ + v + "`"@,
        TokenKind::BuiltIn(v) => "built-in `"@ + v + "`"@,
        TokenKind::Type(t) => type_text(t),
        TokenKind::Colon => ":"@,
        TokenKind::Comma => ","@,
        TokenKind::Identifier(v) => "identifier `"@ + v + "`"@,
        TokenKind::OpenBlock => "{"@,
        TokenKind::CloseBlock => "}"@,
        TokenKind::OpenParen => "("@,
        TokenKind::CloseParen => ")"@,
        TokenKind::TypeCast => "Keyword `as`"@,
        TokenKind::AssignmentOperator => "="@,
        TokenKind::IterableAssignmentOperator => "keyword `in`"@,
        TokenKind::UnaryOperator(v) => "unary operator `"@ + v + "`"@,
        TokenKind::BinaryOperator(v) => "binary operator `"@ + v + "`"@,
        TokenKind::Semicolon => ";"@,
        TokenKind::Nothing => ""@,
    }
}

/// How a token type is named in messages where it stands alone: in backticks for
/// punctuation and types.
pub open spec fn quoted_token_text(k: TokenKind) -> Seq<char> {
    if k is Semicolon || k is OpenParen || k is CloseParen || k is OpenBlock || k is CloseBlock
        || k is Colon || k is Type {
        "`"@ + token_text(k) + "`"@
    } else {
        token_text(k)
    }
}

/// `before`, then `s`, then `after`.
fn wrap(before: &str, s: &String, after: &str) -> (r: String)
    ensures
        r@ == before@ + s@ + after@,
{
    let r = join(&join(&string_of(before), s.as_str()), after);
    assert(r@ =~= before@ + s@ + after@);
    r
}

impl TokenType {
    /// How this token type is named in messages (see `token_text`).
    pub fn text(&self) -> (r: String)
        ensures
            r@ == token_text(self@),
    {
        match self {
            TokenType::StringLiteral { value } => value.clone(),
            TokenType::RegexLiteral { value } => value.clone(),
            TokenType::IntegerLiteral { value } => wrap("`", &int_text(*value), "`"),
            TokenType::FloatLiteral { value } => wrap("`", value, "`"),
            TokenType::BooleanLiteral { value } => if *value {
                string_of("`true`")
            } else {
                string_of("`false`")
            },
            TokenType::Keyword { value } => wrap("keyword `", value, "`"),
            TokenType::BuiltIn { value } => wrap("built-in `", value, "`"),
            TokenType::Type { value } => value.text(),
            TokenType::Colon => string_of(":"),
            TokenType::Comma => string_of(","),
            TokenType::Identifier { value } => wrap("identifier `", value, "`"),
            TokenType::OpenBlock => string_of("{"),
            TokenType::CloseBlock => string_of("}"),
            TokenType::OpenParen => string_of("("),
            TokenType::CloseParen => string_of(")"),
            TokenType::TypeCast => string_of("Keyword `as`"),
            TokenType::AssignmentOperator => string_of("="),
            TokenType::IterableAssignmentOperator => string_of("keyword `in`"),
            TokenType::UnaryOperator { value } => wrap("unary operator `", value, "`"),
            TokenType::BinaryOperator { value } => wrap("binary operator `", value, "`"),
            TokenType::Semicolon => string_of(";"),
            TokenType::Nothing => string_of(""),
        }
    }

    /// The name in messages, in backticks for punctuation and types (see
    /// `quoted_token_text`).
    fn quoted_text(&self) -> (r: String)
        ensures
            r@ == quoted_token_text(self@),
    {
        match self {
            TokenType::Semicolon | TokenType::OpenParen | TokenType::CloseParen
            | TokenType::OpenBlock | TokenType::CloseBlock | TokenType::Colon
            | TokenType::Type { .. } => wrap("`", &self.text(), "`"),
            _ => self.text(),
        }
    }
}

/// The title of a warning.
pub open spec fn warning_title(w: ParserWarningType) -> Seq<char> {
    match w {
        ParserWarningType::TrailingSemicolon => "Trailing semicolon"@,
        ParserWarningType::EmptyBlock => "Empty block"@,
        ParserWarningType::UnusedValue => "Unused value"@,
        ParserWarningType::UnusedVariable => "Unused variable"@,
        ParserWarningType::VariableNotRead => "Variable is not read after assignment"@,
        ParserWarningType::VariableNeverReAssigned => "Variable is never reassigned"@,
        ParserWarningType::ConstantNotUpperCase(_) => "Constants should be in UPPER_SNAKE_CASE"@,
        ParserWarningType::VariableNotSnakeCase(_) => "Variables should be in snake_case"@,
        ParserWarningType::SelfAssignment => "Assignment without effect"@,
        ParserWarningType::NoBlock(_) => "A block should be used here"@,
        ParserWarningType::MagicLiteral(t) => "Magic "@ + type_text(t) + " detected"@,
    }
}

impl ParserWarningType {
    /// The title of this warning (see `warning_title`).
    pub fn text(&self) -> (r: String)
        ensures
            r@ == warning_title(*self),
    {
        match self {
            ParserWarningType::TrailingSemicolon => string_of("Trailing semicolon"),
            ParserWarningType::EmptyBlock => string_of("Empty block"),
            ParserWarningType::UnusedValue => string_of("Unused value"),
            ParserWarningType::UnusedVariable => string_of("Unused variable"),
            ParserWarningType::VariableNotRead => string_of("Variable is not read after assignment"),
            ParserWarningType::VariableNeverReAssigned => string_of("Variable is never reassigned"),
            ParserWarningType::ConstantNotUpperCase(_) => string_of("Constants should be in UPPER_SNAKE_CASE"),
            ParserWarningType::VariableNotSnakeCase(_) => string_of("Variables should be in snake_case"),
            ParserWarningType::SelfAssignment => string_of("Assignment without effect"),
            ParserWarningType::NoBlock(_) => string_of("A block should be used here"),
            ParserWarningType::MagicLiteral(t) => wrap("Magic ", &t.text(), " detected"),
        }
    }
}

impl crate::variable::Variable {
    /// The variable as a declaration writes it: `const name: type` or `name: type`.
    pub fn text(&self) -> (r: String)
        ensures
            r@ == (if self.constant {
                "const "@
            } else {
                ""@
            }) + self.name@ + ": "@ + type_text(self.var_type),
    {
        let start = if self.constant {
            string_of("const ")
        } else {
            string_of("")
        };
        let r = join(&join(&join(&start, self.name.as_str()), ": "), self.var_type.text().as_str());
        assert(r@ =~= (if self.constant {
            "const "@
        } else {
            ""@
        }) + self.name@ + ": "@ + type_text(self.var_type));
        r
    }
}

/// How a declaration writes a variable: `const name: type` or `name: type`.
pub open spec fn variable_text(v: crate::variable::Variable) -> Seq<char> {
    (if v.constant {
        "const "@
    } else {
        ""@
    }) + v.name@ + ": "@ + type_text(v.var_type)
}

/// The text of a unary operator.
pub open spec fn unary_operator_text(op: UnaryOperator) -> Seq<char> {
    match op {
        UnaryOperator::Not => "!"@,
        UnaryOperator::Negation => "-"@,
    }
}

/// An instruction written back as source text, the way messages show it.
pub open spec fn instruction_text(i: Instruction) -> Seq<char>
    decreases i, 0int,
{
    match i.instruction_type {
        InstructionType::StringLiteral(s) => s.value@,
        InstructionType::RegexLiteral(x) => "RegexLiteral { value: "@ + crate::text::debug_list(
            x.value@.map_values(|s: String| s@),
        ) + " }"@,
        InstructionType::IntegerLiteral(n) => crate::values::decimal(n.value as int),
        InstructionType::FloatLiteral(f) => f.value@,
        InstructionType::BooleanLiteral(b) => if b.value {
            "true"@
        } else {
            "false"@
        },
        InstructionType::BuiltIn(b) => b.name@ + "("@ + joined_texts(b.arguments@, b.arguments@.len() as int)
            + ")"@,
        InstructionType::Block(b) => "{\n"@ + block_lines(b.statements@, b.statements@.len() as int) + "}"@,
        InstructionType::Paren(p) => "("@ + instruction_text(*p.expression) + ")"@,
        InstructionType::Test(t) => "test "@ + t.name@ + " { "@ + instruction_text(*t.body) + " }"@,
        InstructionType::Function(f) => "fn "@ + f.name@ + "("@ + parameters_text(
            f.parameters@,
            f.parameters@.len() as int,
        ) + "): "@ + type_text(f.return_type) + " "@ + instruction_text(*f.body),
        InstructionType::For(f) => "for "@ + variable_text(f.assignment.variable) + " in "@
            + instruction_text(*f.assignment.body) + " "@ + instruction_text(*f.body),
        InstructionType::Conditional(c) => "if "@ + instruction_text(*c.condition) + " "@ + instruction_text(
            *c.if_body,
        ) + if c.else_body.instruction_type is Nothing {
            ""@
        } else {
            " else {\n"@ + instruction_text(*c.else_body) + "\n}"@
        },
        InstructionType::Assignment(a) => variable_text(a.variable) + " = "@ + instruction_text(*a.body),
        InstructionType::IterableAssignment(a) => variable_text(a.variable) + " in "@ + instruction_text(
            *a.body,
        ),
        InstructionType::Variable(v) => variable_text(v),
        InstructionType::FunctionCall(c) => c.name@ + "("@ + joined_texts(c.arguments@, c.arguments@.len() as int)
            + ")"@,
        InstructionType::UnaryOperation(u) => unary_operator_text(u.operator) + instruction_text(*u.body),
        InstructionType::BinaryOperation(b) => "("@ + instruction_text(*b.left) + " "@ + binary_operator_text(
            b.operator,
        ) + " "@ + instruction_text(*b.right) + ")"@,
        InstructionType::TypeCast(t) => instruction_text(*t.from) + " as "@ + type_text(t.to),
        InstructionType::Nothing => ""@,
    }
}

/// The texts of `items[..n]` joined by `, `.
pub open spec fn joined_texts(items: Seq<Instruction>, n: int) -> Seq<char>
    decreases items, n,
{
    if n <= 0 || n > items.len() {
        ""@
    } else if n == 1 {
        instruction_text(items[0])
    } else {
        joined_texts(items, n - 1) + ", "@ + instruction_text(items[n - 1])
    }
}

/// The statements `stmts[..n]` of a block, each on a line of its own, indented.
pub open spec fn block_lines(stmts: Seq<Instruction>, n: int) -> Seq<char>
    decreases stmts, n,
{
    if n <= 0 || n > stmts.len() {
        ""@
    } else {
        block_lines(stmts, n - 1) + "    "@ + instruction_text(stmts[n - 1]) + "\n"@
    }
}

/// The parameters `params[..n]` of a function, each followed by `, ` but the last of
/// all.
pub open spec fn parameters_text(params: Seq<crate::variable::Variable>, n: int) -> Seq<char>
    decreases n,
{
    if n <= 0 || n > params.len() {
        ""@
    } else {
        parameters_text(params, n - 1) + variable_text(params[n - 1]) + if n - 1 != params.len() - 1 {
            ", "@
        } else {
            ""@
        }
    }
}

/// The texts of `items` joined by `, `.
fn join_texts(items: &Vec<Instruction>) -> (r: String)
    ensures
        r@ == joined_texts(items@, items@.len() as int),
    decreases items@, 0nat,
{
    let mut r = String::new();
    proof {
        reveal_strlit("");
    }
    let mut i: usize = 0;
    while i < items.len()
        invariant
            i <= items@.len(),
            r@ == joined_texts(items@, i as int),
        decreases items@.len() - i,
    {
        if i > 0 {
            r.append(", ");
        }
        assert(decreases_to!(items@ => items@[i as int]));
        r.append(items[i].text().as_str());
        i += 1;
        proof {
            reveal_strlit("");
            assert(r@ =~= joined_texts(items@, i as int));
        }
    }
    r
}

impl Instruction {
    /// The instruction written back as source text, the way messages show it.
    pub fn text(&self) -> (r: String)
        ensures
            r@ == instruction_text(*self),
        decreases self, 1nat,
    {
        proof {
            reveal_strlit("");
        }
        match &self.instruction_type {
            InstructionType::StringLiteral(s) => s.value.clone(),
            InstructionType::RegexLiteral(x) => wrap("RegexLiteral { value: ", &crate::text::debug_text(&x.value), " }"),
            InstructionType::IntegerLiteral(i) => int_text(i.value),
            InstructionType::FloatLiteral(f) => f.value.clone(),
            InstructionType::BooleanLiteral(b) => if b.value {
                string_of("true")
            } else {
                string_of("false")
            },
            InstructionType::BuiltIn(b) => {
                assert(decreases_to!(self => self.instruction_type));
                assert(decreases_to!(self.instruction_type => self.instruction_type->BuiltIn_0));
                assert(decreases_to!(*b => b.arguments));
                assert(decreases_to!(b.arguments => b.arguments@));
                let r = join(&wrap("", &b.name, "("), &join(&join_texts(&b.arguments), ")"));
                assert(r@ =~= instruction_text(*self));
                r
            },
            InstructionType::Block(b) => {
                let mut r = string_of("{\n");
                let mut i: usize = 0;
                while i < b.statements.len()
                    invariant
                        self.instruction_type == InstructionType::Block(*b),
                        i <= b.statements@.len(),
                        r@ == "{\n"@ + block_lines(b.statements@, i as int),
                    decreases b.statements@.len() - i,
                {
                    assert(decreases_to!(self => self.instruction_type));
                    assert(decreases_to!(self.instruction_type => self.instruction_type->Block_0));
                    assert(decreases_to!(*b => b.statements));
                    assert(decreases_to!(b.statements => b.statements@));
                    assert(decreases_to!(b.statements@ => b.statements@[i as int]));
                    r.append("    ");
                    r.append(b.statements[i].text().as_str());
                    r.append("\n");
                    i += 1;
                    assert(r@ =~= "{\n"@ + block_lines(b.statements@, i as int));
                }
                r.append("}");
                assert(r@ =~= instruction_text(*self));
                r
            },
            InstructionType::Paren(p) => wrap("(", &p.expression.text(), ")"),
            InstructionType::Test(t) => {
                let head = wrap("test ", &t.name, " { ");
                let r = join(&join(&head, t.body.text().as_str()), " }");
                assert(r@ =~= instruction_text(*self));
                r
            },
            InstructionType::Function(f) => {
                let mut r = wrap("fn ", &f.name, "(");
                let mut i: usize = 0;
                while i < f.parameters.len()
                    invariant
                        i <= f.parameters@.len(),
                        r@ == "fn "@ + f.name@ + "("@ + parameters_text(f.parameters@, i as int),
                    decreases f.parameters@.len() - i,
                {
                    r.append(f.parameters[i].text().as_str());
                    if i != f.parameters.len() - 1 {
                        r.append(", ");
                    }
                    i += 1;
                    proof {
                        reveal_strlit("");
                    }
                    assert(r@ =~= "fn "@ + f.name@ + "("@ + parameters_text(f.parameters@, i as int));
                }
                r.append("): ");
                r.append(f.return_type.text().as_str());
                r.append(" ");
                r.append(f.body.text().as_str());
                assert(r@ =~= instruction_text(*self));
                r
            },
            InstructionType::For(f) => {
                let mut r = wrap("for ", &f.assignment.variable.text(), " in ");
                r.append(f.assignment.body.text().as_str());
                r.append(" ");
                r.append(f.body.text().as_str());
                assert(r@ =~= instruction_text(*self));
                r
            },
            InstructionType::Conditional(c) => {
                let mut r = wrap("if ", &c.condition.text(), " ");
                r.append(c.if_body.text().as_str());
                if !matches!(c.else_body.instruction_type, InstructionType::Nothing) {
                    r.append(" else {\n");
                    r.append(c.else_body.text().as_str());
                    r.append("\n}");
                }
                assert(r@ =~= instruction_text(*self));
                r
            },
            InstructionType::Assignment(a) => {
                let mut r = a.variable.text();
                r.append(" = ");
                r.append(a.body.text().as_str());
                assert(r@ =~= instruction_text(*self));
                r
            },
            InstructionType::IterableAssignment(a) => {
                let mut r = a.variable.text();
                r.append(" in ");
                r.append(a.body.text().as_str());
                assert(r@ =~= instruction_text(*self));
                r
            },
            InstructionType::Variable(v) => v.text(),
            InstructionType::FunctionCall(c) => {
                assert(decreases_to!(self => self.instruction_type));
                assert(decreases_to!(self.instruction_type => self.instruction_type->FunctionCall_0));
                assert(decreases_to!(*c => c.arguments));
                assert(decreases_to!(c.arguments => c.arguments@));
                let r = join(&wrap("", &c.name, "("), &join(&join_texts(&c.arguments), ")"));
                assert(r@ =~= instruction_text(*self));
                r
            },
            InstructionType::UnaryOperation(u) => join(&u.operator.text(), u.body.text().as_str()),
            InstructionType::BinaryOperation(b) => {
                let mut r = wrap("(", &b.left.text(), " ");
                r.append(b.operator.text().as_str());
                r.append(" ");
                r.append(b.right.text().as_str());
                r.append(")");
                assert(r@ =~= instruction_text(*self));
                r
            },
            InstructionType::TypeCast(t) => {
                let mut r = t.from.text();
                r.append(" as ");
                r.append(t.to.text().as_str());
                assert(r@ =~= instruction_text(*self));
                r
            },
            InstructionType::Nothing => string_of(""),
        }
    }
}

/// The backticked names of `types[..n]`, joined by `, `.
pub open spec fn type_list_text(types: Seq<Type>, n: int) -> Seq<char>
    decreases n,
{
    if n <= 0 || n > types.len() {
        ""@
    } else {
        type_list_text(types, n - 1) + (if n > 1 {
            ", "@
        } else {
            ""@
        }) + "`"@ + type_text(types[n - 1]) + "`"@
    }
}

/// The texts of `items[..n]`, each in backticks, joined by `, `.
pub open spec fn instruction_list_text(items: Seq<Instruction>, n: int) -> Seq<char>
    decreases n,
{
    if n <= 0 || n > items.len() {
        ""@
    } else {
        instruction_list_text(items, n - 1) + (if n > 1 {
            ", "@
        } else {
            ""@
        }) + "`"@ + instruction_text(items[n - 1]) + "`"@
    }
}

/// A count as messages write it: in decimal, at most the largest `i64`.
pub open spec fn count_text(n: usize) -> Seq<char> {
    crate::values::decimal(
        if n <= 9223372036854775807 {
            n as int
        } else {
            9223372036854775807
        },
    )
}

/// The title of an error.
pub open spec fn error_title(e: ParserErrorType) -> Seq<char> {
    match e {
        ParserErrorType::UnexpectedToken(t) => "Unexpected token: "@ + quoted_token_text(t@),
        ParserErrorType::UnexpectedEndOfFile => "Unexpected end of file"@,
        ParserErrorType::UnclosedDelimiter(t) => "Unclosed delimiter: "@ + quoted_token_text(t@),
        ParserErrorType::MismatchedType { expected, actual } => if expected@.len() == 1 {
            "Type error: Expected `"@ + type_text(expected@[0]) + "`, found `"@ + type_text(actual) + "`"@
        } else {
            "Type error: Expected one of "@ + type_list_text(expected@, expected@.len() as int) + ", found `"@
                + type_text(actual) + "`"@
        },
        ParserErrorType::MismatchedNumberOfArguments { expected, actual } => "Expected "@ + count_text(expected)
            + " arguments, found "@ + count_text(actual),
        ParserErrorType::MismatchedTokenType { expected, actual } => "Expected `"@ + quoted_token_text(expected@)
            + "`, found `"@ + token_text(actual@) + "`"@,
        ParserErrorType::MismatchedInstruction { expected, actual } => "Expected one of `"@
            + instruction_list_text(expected@, expected@.len() as int) + "`, found `"@ + instruction_text(actual)
            + "`"@,
        ParserErrorType::GlobalScope(t) => "Unexpected token in global scope: "@ + token_text(t@),
        ParserErrorType::TypeCast { from, to } => "Cannot cast `"@ + type_text(from) + "` to `"@ + type_text(to)
            + "`"@,
        ParserErrorType::RegexError => "Regex syntax not supported"@,
        ParserErrorType::IdentifierNotDefined(name) => "Identifier `"@ + name@ + "` not defined"@,
        ParserErrorType::ConstantReassignment(v) => "Cannot reassign constant `"@ + v.name@ + "`"@,
        ParserErrorType::VaribleTypeAnnotation => "Type annotations are required"@,
        ParserErrorType::Nothing => ""@,
    }
}

/// The backticked names of `types`, joined by `, `.
fn type_list(types: &Vec<Type>) -> (r: String)
    ensures
        r@ == type_list_text(types@, types@.len() as int),
{
    let mut r = String::new();
    proof {
        reveal_strlit("");
    }
    let mut i: usize = 0;
    while i < types.len()
        invariant
            i <= types@.len(),
            r@ == type_list_text(types@, i as int),
        decreases types@.len() - i,
    {
        if i > 0 {
            r.append(", ");
        }
        r.append(wrap("`", &types[i].text(), "`").as_str());
        i += 1;
        proof {
            reveal_strlit("");
        }
        assert(r@ =~= type_list_text(types@, i as int));
    }
    r
}

impl ParserErrorType {
    /// The title of an error.
    pub fn text(&self) -> (r: String)
        ensures
            r@ == error_title(*self),
    {
        proof {
            reveal_strlit("");
        }
        match self {
            ParserErrorType::UnexpectedToken(t) => join(&string_of("Unexpected token: "), t.quoted_text().as_str()),
            ParserErrorType::UnexpectedEndOfFile => string_of("Unexpected end of file"),
            ParserErrorType::UnclosedDelimiter(t) => join(&string_of("Unclosed delimiter: "), t.quoted_text().as_str()),
            ParserErrorType::MismatchedType { expected, actual } => {
                if expected.len() == 1 {
                    let r = wrap("Type error: Expected `", &expected[0].text(), "`, found `");
                    let r = join(&r, wrap("", &actual.text(), "`").as_str());
                    assert(r@ =~= error_title(*self));
                    r
                } else {
                    let r = wrap("Type error: Expected one of ", &type_list(expected), ", found `");
                    let r = join(&r, wrap("", &actual.text(), "`").as_str());
                    assert(r@ =~= error_title(*self));
                    r
                }
            },
            ParserErrorType::MismatchedNumberOfArguments { expected, actual } => {
                let r = wrap("Expected ", &int_text_usize(*expected), " arguments, found ");
                let r = join(&r, int_text_usize(*actual).as_str());
                assert(r@ =~= error_title(*self));
                r
            },
            ParserErrorType::MismatchedTokenType { expected, actual } => {
                let r = wrap("Expected `", &expected.quoted_text(), "`, found `");
                let r = join(&r, wrap("", &actual.text(), "`").as_str());
                assert(r@ =~= error_title(*self));
                r
            },
            ParserErrorType::MismatchedInstruction { expected, actual } => {
                let mut list = String::new();
                let mut i: usize = 0;
                while i < expected.len()
                    invariant
                        i <= expected@.len(),
                        list@ == instruction_list_text(expected@, i as int),
                    decreases expected@.len() - i,
                {
                    if i > 0 {
                        list.append(", ");
                    }
                    list.append(wrap("`", &expected[i].text(), "`").as_str());
                    i += 1;
                    proof {
                        reveal_strlit("");
                    }
                    assert(list@ =~= instruction_list_text(expected@, i as int));
                }
                let r = wrap("Expected one of `", &list, "`, found `");
                let r = join(&r, wrap("", &actual.text(), "`").as_str());
                assert(r@ =~= error_title(*self));
                r
            },
            ParserErrorType::GlobalScope(t) => join(&string_of("Unexpected token in global scope: "), t.text().as_str()),
            ParserErrorType::TypeCast { from, to } => {
                let mut r = wrap("Cannot cast `", &from.text(), "` to `");
                r.append(to.text().as_str());
                r.append("`");
                assert(r@ =~= error_title(*self));
                r
            },
            ParserErrorType::RegexError => string_of("Regex syntax not supported"),
            ParserErrorType::IdentifierNotDefined(name) => wrap("Identifier `", name, "` not defined"),
            ParserErrorType::ConstantReassignment(v) => wrap("Cannot reassign constant `", &v.name, "`"),
            ParserErrorType::VaribleTypeAnnotation => string_of("Type annotations are required"),
            ParserErrorType::Nothing => string_of(""),
        }
    }
}

/// The decimal writing of a count (see `count_text`).
fn int_text_usize(n: usize) -> (r: String)
    ensures
        r@ == count_text(n),
{
    let m = n as u64;
    if m <= 9223372036854775807u64 {
        int_text(m as i64)
    } else {
        int_text(9223372036854775807i64)
    }
}

/// The text and style of each piece.
pub open spec fn pieces_view(ps: Seq<Piece>) -> Seq<(Seq<char>, Style)> {
    ps.map_values(|p: Piece| (p.text@, p.style))
}

/// `n` copies of the character `c`.
pub open spec fn repeated(c: char, n: nat) -> Seq<char> {
    Seq::new(n, |i: int| c)
}

/// How many marks underline a token: the byte length of its text.
pub open spec fn mark_width(k: TokenKind) -> usize {
    match k {
        TokenKind::StringLiteral(v) => crate::token::utf8_width(v) as usize,
        TokenKind::RegexLiteral(v) => crate::token::utf8_width(v) as usize,
        TokenKind::FloatLiteral(v) => crate::token::utf8_width(v) as usize,
        TokenKind::Keyword(v) => crate::token::utf8_width(v) as usize,
        TokenKind::BuiltIn(v) => crate::token::utf8_width(v) as usize,
        TokenKind::Identifier(v) => crate::token::utf8_width(v) as usize,
        TokenKind::UnaryOperator(v) => crate::token::utf8_width(v) as usize,
        TokenKind::BinaryOperator(v) => crate::token::utf8_width(v) as usize,
        TokenKind::IntegerLiteral(v) => crate::token::utf8_width(crate::values::decimal(v as int)) as usize,
        TokenKind::BooleanLiteral(v) => if v {
            4
        } else {
            5
        },
        TokenKind::Type(t) => crate::token::utf8_width(type_text(t)) as usize,
        TokenKind::TypeCast => 2,
        TokenKind::IterableAssignmentOperator => 2,
        TokenKind::Nothing => 0,
        _ => 1,
    }
}

/// A line number padded on the right to four characters.
pub open spec fn line_number_text(row: u32) -> Seq<char> {
    let d = crate::values::decimal(row as int);
    d + repeated(
        ' ',
        if d.len() < 4 {
            (4 - d.len()) as nat
        } else {
            0
        },
    )
}

/// The indentation under a line number: four characters, or as many as it has.
pub open spec fn gutter_width(row: u32) -> nat {
    let n = crate::values::decimal(row as int).len();
    if n > 4 {
        n
    } else {
        4
    }
}

/// `n`, or the largest `usize` where it is larger.
pub open spec fn capped(n: int) -> nat {
    if n <= usize::MAX {
        n as nat
    } else {
        usize::MAX as nat
    }
}

/// How a token is underlined, with the text of the help where there is one.
pub ghost enum Underline {
    Warning,
    Error,
    Help(Seq<char>),
}

/// The underline that a print style asks for.
pub open spec fn underline_of(style: PrintStyle) -> Underline {
    match style {
        PrintStyle::Warning => Underline::Warning,
        PrintStyle::Error => Underline::Error,
        PrintStyle::Help(m) => Underline::Help(m@),
    }
}

/// The pieces that show the line of `t` with the line number and underline `t` in
/// the style: `^` marks, yellow for a warning, red for an error, blue followed by the
/// help text.
pub open spec fn token_pieces(t: Token, style: Underline) -> Seq<(Seq<char>, Style)> {
    let column = if t.column > 0 {
        t.column - 1
    } else {
        0
    };
    let lines = seq![
        (line_number_text(t.row), Style::LineNumber),
        (t.line@ + "      \n"@ + repeated(' ', capped(gutter_width(t.row) + column)), Style::Plain),
    ];
    let marks = repeated('^', mark_width(t.token_type@) as nat);
    match style {
        Underline::Warning => lines.push((marks, Style::Warning)),
        Underline::Error => lines.push((marks, Style::Error)),
        Underline::Help(m) => lines.push((marks, Style::Help)).push((" "@ + m, Style::Plain)),
    }
}

/// The texts of `tokens[..n]`, each followed by a space.
pub open spec fn inserted_text(tokens: Seq<TokenType>, n: int) -> Seq<char>
    decreases n,
{
    if n <= 0 || n > tokens.len() {
        ""@
    } else {
        inserted_text(tokens, n - 1) + token_text(tokens[n - 1]@) + " "@
    }
}

/// The pieces that show the line of `t` with `tokens` inserted after `t`, marked
/// with `+` and followed by `message`.
pub open spec fn insertion_pieces(t: Token, tokens: Seq<TokenType>, message: Seq<char>) -> Seq<(Seq<char>, Style)> {
    let width = mark_width(t.token_type@) as int;
    let column = t.column as int;
    let end = if column > 0 && width <= usize::MAX - column {
        column - 1 + width
    } else {
        0
    };
    let ins = inserted_text(tokens, tokens.len() as int);
    let ins_len = if ins.len() > 0 {
        ins.len() - 1
    } else {
        0
    };
    let line = t.line@;
    let split = if end <= line.len() {
        end
    } else {
        line.len() as int
    };
    let new_line = line.subrange(0, split) + ins.subrange(0, ins_len) + line.subrange(split, line.len() as int);
    seq![
        (line_number_text(t.row), Style::LineNumber),
        (new_line + "      \n"@ + repeated(' ', capped(gutter_width(t.row) + end)), Style::Plain),
        (repeated('+', ins_len as nat) + " "@, Style::Insert),
        (message, Style::Insert),
    ]
}

/// The head of a message: the label in its style, then the title and where it
/// stands.
pub open spec fn head_pieces(label: Seq<char>, style: Style, title: Seq<char>, file: Seq<char>, row: u32, column: u64) -> Seq<
    (Seq<char>, Style),
> {
    seq![
        (label, style),
        (title + "              \nIn: "@ + file + ":"@ + crate::values::decimal(row as int) + ":"@
            + crate::values::decimal(
            if column <= 9223372036854775807 {
                column as int
            } else {
                9223372036854775807
            },
        ) + "      \n"@, Style::Plain),
    ]
}

/// The blank line that ends a part of a message.
pub open spec fn gap() -> Seq<(Seq<char>, Style)> {
    seq![("                \n"@, Style::Plain)]
}

/// The pieces of an error as it is printed: nothing for the empty error; else
/// `error: ` in red, the title, where it stands, and the source line with the token
/// underlined, with help for a missing semicolon, a reassigned constant and a missing
/// type annotation.
pub open spec fn error_pieces(e: ParserError) -> Seq<(Seq<char>, Style)> {
    let title = error_title(e.error_type);
    let t = e.token;
    match e.error_type {
        ParserErrorType::Nothing => seq![],
        ParserErrorType::MismatchedTokenType { expected: TokenType::Semicolon, .. } => match t.last_token {
            Some(last) => {
                let width = mark_width(last.token_type@) as int;
                let column: u64 = if width <= 0xffff_ffff {
                    (last.column + width) as u64
                } else {
                    last.column as u64
                };
                head_pieces("error: "@, Style::Error, title, last.file@, last.row, column) + insertion_pieces(
                    *last,
                    seq![TokenType::Semicolon],
                    "add a semicolon here"@,
                ) + gap() + token_pieces(t, Underline::Help("unexpected token"@)) + gap()
            },
            None => head_pieces("error: "@, Style::Error, title, t.file@, t.row, t.column as u64) + token_pieces(
                t,
                Underline::Error,
            ) + gap(),
        },
        ParserErrorType::ConstantReassignment(v) => head_pieces(
            "error: "@,
            Style::Error,
            title,
            t.file@,
            v.declaration_token.row,
            v.declaration_token.column as u64,
        ) + token_pieces(v.declaration_token, Underline::Help("consider changing to `let`"@)) + gap()
            + token_pieces(t, Underline::Error) + gap(),
        ParserErrorType::VaribleTypeAnnotation => head_pieces("error: "@, Style::Error, title, t.file@, t.row, t.column as u64)
            + insertion_pieces(t, seq![TokenType::Colon, TokenType::Type { value: Type::Any }], "add a type annotation here"@)
            + gap() + token_pieces(t, Underline::Error) + gap(),
        _ => head_pieces("error: "@, Style::Error, title, t.file@, t.row, t.column as u64) + token_pieces(t, Underline::Error)
            + gap(),
    }
}

/// The hint of a warning, where it has one.
pub open spec fn warning_hint(w: ParserWarningType) -> Option<Seq<char>> {
    match w {
        ParserWarningType::TrailingSemicolon => Some("remove this semicolon"@),
        ParserWarningType::EmptyBlock => Some("remove this block"@),
        ParserWarningType::UnusedVariable => Some("prefix with `_` to suppress this warning"@),
        ParserWarningType::VariableNeverReAssigned => Some("consider changing to `const`"@),
        ParserWarningType::ConstantNotUpperCase(name) => Some(
            "consider changing the name to "@ + crate::variable::converted(name@, true),
        ),
        ParserWarningType::VariableNotSnakeCase(name) => Some(
            "consider changing the name to "@ + crate::variable::converted(name@, false),
        ),
        ParserWarningType::MagicLiteral(_) => Some("consider using a named constant"@),
        _ => None,
    }
}

/// The pieces of a warning as it is printed: `warning: ` in yellow, the title,
/// where it stands, the source line with the token underlined, and the hint where
/// there is one.
pub open spec fn warning_pieces(w: ParserWarning) -> Seq<(Seq<char>, Style)> {
    let t = w.token;
    head_pieces("warning: "@, Style::Warning, warning_title(w.warning_type), t.file@, t.row, t.column as u64)
        + token_pieces(t, Underline::Warning) + match warning_hint(w.warning_type) {
        Some(h) => seq![(" "@, Style::Plain), (h, Style::Warning), ("             \n"@, Style::Plain)],
        None => gap(),
    }
}

/// The width of a token in the source text: the byte length of its text.
fn shown_width(t: &Token) -> (r: usize)
    ensures
        r == mark_width(t.token_type@),
{
    match &t.token_type {
        TokenType::StringLiteral { value } | TokenType::RegexLiteral { value }
        | TokenType::FloatLiteral { value } | TokenType::Keyword { value }
        | TokenType::BuiltIn { value } | TokenType::Identifier { value }
        | TokenType::UnaryOperator { value } | TokenType::BinaryOperator { value } => value.as_str().len(),
        TokenType::IntegerLiteral { value } => int_text(*value).as_str().len(),
        TokenType::BooleanLiteral { value } => if *value {
            4
        } else {
            5
        },
        TokenType::Type { value } => value.text().as_str().len(),
        TokenType::TypeCast | TokenType::IterableAssignmentOperator => 2,
        TokenType::Nothing => 0,
        _ => 1,
    }
}

/// The line number padded on the right to four characters.
fn line_number(row: u32) -> (r: String)
    ensures
        r@ == line_number_text(row),
{
    let mut r = int_text(row as i64);
    let n = chars_of(r.as_str()).len();
    let ghost d = r@;
    let mut k = n;
    proof {
        reveal_strlit(" ");
        assert(d + repeated(' ', 0) =~= d);
    }
    while k < 4
        invariant
            k >= n,
            k == n || k <= 4,
            n == d.len(),
            d == crate::values::decimal(row as int),
            r@ == d + repeated(' ', (k - n) as nat),
            " "@ == seq![' '],
        decreases 4 - k,
    {
        r.append(" ");
        k += 1;
        assert(r@ =~= d + repeated(' ', (k - n) as nat));
    }
    r
}

/// The indentation under the line number: four characters, or as many as the
/// line number has.
fn gutter(row: u32) -> (r: usize)
    ensures
        r >= 4,
        r == gutter_width(row),
{
    let n = chars_of(int_text(row as i64).as_str()).len();
    if n > 4 {
        n
    } else {
        4
    }
}

impl Token {
    /// The token's line with the line number, and under it the token underlined in
    /// the style: `^` marks, yellow for a warning, red for an error, blue followed by
    /// the help text.
    pub fn as_string(&self, style: &PrintStyle) -> (r: Vec<Piece>)
        ensures
            pieces_view(r@) == token_pieces(*self, underline_of(*style)),
    {
        proof {
            reveal_strlit("");
        }
        let column = if self.column > 0 {
            (self.column - 1) as usize
        } else {
            0
        };
        let indent = gutter(self.row);
        let pad = if indent <= usize::MAX - column {
            indent + column
        } else {
            usize::MAX
        };
        let mut r: Vec<Piece> = Vec::new();
        r.push(piece(line_number(self.row), Style::LineNumber));
        let mut text = join(&self.line, "      \n");
        text.append(repeat_char(' ', pad).as_str());
        r.push(piece(text, Style::Plain));
        let marks = repeat_char('^', shown_width(self));
        match style {
            PrintStyle::Warning => r.push(piece(marks, Style::Warning)),
            PrintStyle::Error => r.push(piece(marks, Style::Error)),
            PrintStyle::Help(message) => {
                r.push(piece(marks, Style::Help));
                r.push(piece(wrap(" ", message, ""), Style::Plain));
            },
        }
        r
    }

    /// The token's line with the line number and `tokens` inserted after the token,
    /// marked with `+` and followed by `message`.
    pub fn insert_tokens(&self, tokens: &Vec<TokenType>, message: &str) -> (r: Vec<Piece>)
        ensures
            pieces_view(r@) == insertion_pieces(*self, tokens@, message@),
    {
        proof {
            reveal_strlit("");
            reveal_strlit(" ");
        }
        let width = shown_width(self);
        let column = self.column as usize;
        let end = if column > 0 && width <= usize::MAX - column {
            column - 1 + width
        } else {
            0
        };
        let mut inserted = String::new();
        let mut i: usize = 0;
        while i < tokens.len()
            invariant
                i <= tokens@.len(),
                inserted@ == inserted_text(tokens@, i as int),
            decreases tokens@.len() - i,
        {
            inserted.append(tokens[i].text().as_str());
            inserted.append(" ");
            i += 1;
            assert(inserted@ =~= inserted_text(tokens@, i as int));
        }
        let inserted_chars = chars_of(inserted.as_str());
        let inserted_len = if inserted_chars.len() > 0 {
            inserted_chars.len() - 1
        } else {
            0
        };
        let line = chars_of(self.line.as_str());
        let split = if end <= line.len() {
            end
        } else {
            line.len()
        };
        let mut new_line: Vec<char> = Vec::new();
        let mut k: usize = 0;
        while k < split
            invariant
                k <= split <= line@.len(),
                new_line@ == line@.subrange(0, k as int),
            decreases split - k,
        {
            new_line.push(line[k]);
            k += 1;
            assert(new_line@ =~= line@.subrange(0, k as int));
        }
        let ghost first = new_line@;
        let mut k: usize = 0;
        while k < inserted_len
            invariant
                inserted_len <= inserted_chars@.len(),
                k <= inserted_len,
                new_line@ == first + inserted_chars@.subrange(0, k as int),
            decreases inserted_len - k,
        {
            new_line.push(inserted_chars[k]);
            k += 1;
            assert(new_line@ =~= first + inserted_chars@.subrange(0, k as int));
        }
        let ghost second = new_line@;
        let mut k: usize = split;
        while k < line.len()
            invariant
                split <= k <= line@.len(),
                new_line@ == second + line@.subrange(split as int, k as int),
            decreases line@.len() - k,
        {
            new_line.push(line[k]);
            k += 1;
            assert(new_line@ =~= second + line@.subrange(split as int, k as int));
        }
        let indent = gutter(self.row);
        let pad = if indent <= usize::MAX - end {
            indent + end
        } else {
            usize::MAX
        };
        let mut text = join(&string_from(new_line.as_slice()), "      \n");
        text.append(repeat_char(' ', pad).as_str());
        let mut r: Vec<Piece> = Vec::new();
        r.push(piece(line_number(self.row), Style::LineNumber));
        r.push(piece(text, Style::Plain));
        let mut marks = repeat_char('+', inserted_len);
        marks.append(" ");
        r.push(piece(marks, Style::Insert));
        r.push(piece(string_of(message), Style::Insert));
        assert(pieces_view(r@) =~= insertion_pieces(*self, tokens@, message@));
        r
    }
}

/// Appends the pieces of `rest`.
fn extend(pieces: &mut Vec<Piece>, rest: Vec<Piece>)
    ensures
        final(pieces)@ == old(pieces)@ + rest@,
{
    let mut rest = rest;
    let mut moved: Vec<Piece> = Vec::new();
    let ghost all = rest@;
    while rest.len() > 0
        invariant
            moved@ + rest@ == all,
        decreases rest@.len(),
    {
        let p = rest.remove(0);
        let ghost before = moved@;
        moved.push(p);
        assert(moved@ + rest@ =~= all) by {
            assert(moved@ =~= before.push(p));
        }
    }
    assert(moved@ =~= all);
    let ghost start = pieces@;
    let mut i: usize = 0;
    let n = moved.len();
    let mut moved = moved;
    while moved.len() > 0
        invariant
            pieces@ + moved@ == start + all,
        decreases moved@.len(),
    {
        let p = moved.remove(0);
        let ghost before = pieces@;
        pieces.push(p);
        assert(pieces@ + moved@ =~= start + all) by {
            assert(pieces@ =~= before.push(p));
        }
    }
    assert(pieces@ =~= start + all);
}

/// The head of a message: the label in its style, then the title and where it
/// stands.
fn head(label: &str, label_style: Style, title: String, file: &String, row: u32, column: u64) -> (r: Vec<Piece>)
    ensures
        pieces_view(r@) == head_pieces(label@, label_style, title@, file@, row, column),
{
    let mut text = join(&title, "              \nIn: ");
    text.append(file.as_str());
    text.append(":");
    text.append(int_text(row as i64).as_str());
    text.append(":");
    let c = if column <= 9223372036854775807u64 {
        column as i64
    } else {
        9223372036854775807i64
    };
    text.append(int_text(c).as_str());
    text.append("      \n");
    let mut r: Vec<Piece> = Vec::new();
    r.push(piece(string_of(label), label_style));
    r.push(piece(text, Style::Plain));
    assert(pieces_view(r@) =~= head_pieces(label@, label_style, title@, file@, row, column));
    r
}

impl ParserError {
    /// The message of this error as it is printed: nothing for the empty error;
    /// else `error: ` in red, the title, where it stands, and the source line with the
    /// token underlined, with help for a missing semicolon, a reassigned constant and
    /// a missing type annotation.
    pub fn report(&self) -> (r: Vec<Piece>)
        ensures
            pieces_view(r@) == error_pieces(*self),
    {
        if matches!(self.error_type, ParserErrorType::Nothing) {
            return Vec::new();
        }
        let title = self.error_type.text();
        match &self.error_type {
            ParserErrorType::MismatchedTokenType { expected: TokenType::Semicolon, .. } => {
                match &self.token.last_token {
                    Some(last) => {
                        let width = shown_width(last) as u64;
                        let column = if width <= 0xffff_ffffu64 {
                            last.column as u64 + width
                        } else {
                            last.column as u64
                        };
                        let mut r = head("error: ", Style::Error, title, &last.file, last.row, column);
                        let mut semicolon: Vec<TokenType> = Vec::new();
                        semicolon.push(TokenType::Semicolon);
                        assert(semicolon@ =~= seq![TokenType::Semicolon]);
                        extend(&mut r, last.insert_tokens(&semicolon, "add a semicolon here"));
                        r.push(plain("                \n"));
                        extend(&mut r, self.token.as_string(&PrintStyle::Help(string_of("unexpected token"))));
                        r.push(plain("                \n"));
                        assert(pieces_view(r@) =~= error_pieces(*self));
                        r
                    },
                    None => {
                        let mut r = head("error: ", Style::Error, title, &self.token.file, self.token.row, self.token.column as u64);
                        extend(&mut r, self.token.as_string(&PrintStyle::Error));
                        r.push(plain("                \n"));
                        assert(pieces_view(r@) =~= error_pieces(*self));
                        r
                    },
                }
            },
            ParserErrorType::ConstantReassignment(v) => {
                let mut r = head("error: ", Style::Error, title, &self.token.file, v.declaration_token.row, v.declaration_token.column as u64);
                extend(&mut r, v.declaration_token.as_string(&PrintStyle::Help(string_of("consider changing to `let`"))));
                r.push(plain("                \n"));
                extend(&mut r, self.token.as_string(&PrintStyle::Error));
                r.push(plain("                \n"));
                assert(pieces_view(r@) =~= error_pieces(*self));
                r
            },
            ParserErrorType::VaribleTypeAnnotation => {
                let mut r = head("error: ", Style::Error, title, &self.token.file, self.token.row, self.token.column as u64);
                let mut annotation: Vec<TokenType> = Vec::new();
                annotation.push(TokenType::Colon);
                annotation.push(TokenType::Type { value: Type::Any });
                assert(annotation@ =~= seq![TokenType::Colon, TokenType::Type { value: Type::Any }]);
                extend(&mut r, self.token.insert_tokens(&annotation, "add a type annotation here"));
                r.push(plain("                \n"));
                extend(&mut r, self.token.as_string(&PrintStyle::Error));
                r.push(plain("                \n"));
                assert(pieces_view(r@) =~= error_pieces(*self));
                r
            },
            _ => {
                let mut r = head("error: ", Style::Error, title, &self.token.file, self.token.row, self.token.column as u64);
                extend(&mut r, self.token.as_string(&PrintStyle::Error));
                r.push(plain("                \n"));
                assert(pieces_view(r@) =~= error_pieces(*self));
                r
            },
        }
    }
}

impl ParserWarning {
    /// The message of this warning as it is printed: `warning: ` in yellow, the
    /// title, where it stands, the source line with the token underlined, and a hint
    /// where there is one.
    pub fn report(&self) -> (r: Vec<Piece>)
        ensures
            pieces_view(r@) == warning_pieces(*self),
    {
        let title = self.warning_type.text();
        let hint: Option<String> = match &self.warning_type {
            ParserWarningType::TrailingSemicolon => Some(string_of("remove this semicolon")),
            ParserWarningType::EmptyBlock => Some(string_of("remove this block")),
            ParserWarningType::UnusedVariable => Some(string_of("prefix with `_` to suppress this warning")),
            ParserWarningType::VariableNeverReAssigned => Some(string_of("consider changing to `const`")),
            ParserWarningType::ConstantNotUpperCase(name) => Some(
                join(&string_of("consider changing the name to "), name.to_upper_snake_case().as_str()),
            ),
            ParserWarningType::VariableNotSnakeCase(name) => Some(
                join(&string_of("consider changing the name to "), name.to_snake_case().as_str()),
            ),
            ParserWarningType::MagicLiteral(_) => Some(string_of("consider using a named constant")),
            _ => None,
        };
        let mut r = head("warning: ", Style::Warning, title, &self.token.file, self.token.row, self.token.column as u64);
        extend(&mut r, self.token.as_string(&PrintStyle::Warning));
        match hint {
            Some(h) => {
                r.push(plain(" "));
                r.push(piece(h, Style::Warning));
                r.push(plain("             \n"));
            },
            None => r.push(plain("                \n")),
        }
        r
    }
}

impl LexerError {
    /// The message of this error as it is printed.
    pub fn report(&self) -> (r: Vec<Piece>)
        ensures
            pieces_view(r@) == lexer_pieces(*self),
    {
        let mut r: Vec<Piece> = Vec::new();
        r.push(piece(string_of("error: "), Style::Error));
        match self {
            LexerError::FileNotFound(path) => r.push(piece(wrap("File not found: `", path, "`\n"), Style::Plain)),
            LexerError::FileExtensionNotTesc(path) => {
                let message = wrap("File extension must be `tesc`: `", path, "`");
                let extension = extension_len(path);
                let shown = chars_of(message.as_str()).len();
                let width = if shown <= usize::MAX - 7 {
                    shown + 7
                } else {
                    shown
                };
                let pad = if extension < width {
                    width - 1 - extension
                } else {
                    0
                };
                let mut text = join(&message, "\n");
                text.append(repeat_char(' ', pad).as_str());
                r.push(piece(text, Style::Plain));
                r.push(piece(repeat_char('^', extension), Style::Warning));
                r.push(plain(" change this to `tesc`\n"));
            },
            LexerError::PermissionDenied(path) => r.push(piece(wrap("Permission denied: `", path, "`\n"), Style::Plain)),
            LexerError::Unknown(path, reason) => {
                let mut text = wrap("Unknown error: `", path, "`\n\nRust error: ");
                text.append(reason.as_str());
                text.append("\n");
                r.push(piece(text, Style::Plain));
            },
        }
        assert(pieces_view(r@) =~= lexer_pieces(*self));
        r
    }
}

/// Where the last component of the path `cs[..n]` starts: after its last `/`.
pub open spec fn component_start(cs: Seq<char>, n: int) -> int
    decreases n,
{
    if n <= 0 {
        0
    } else if cs[n - 1] == '/' {
        n
    } else {
        component_start(cs, n - 1)
    }
}

/// The place of the last `.` of `cs[..n]` that stands past `start`, if any.
pub open spec fn last_dot(cs: Seq<char>, start: int, n: int) -> Option<int>
    decreases n - start,
{
    if n <= start {
        None
    } else if cs[n - 1] == '.' && n - 1 > start {
        Some(n - 1)
    } else {
        last_dot(cs, start, n - 1)
    }
}

/// The number of characters of a path's extension: what follows the last `.` of its
/// last component, or none if that component has no `.` past its first character.
pub open spec fn extension_width(cs: Seq<char>) -> int {
    match last_dot(cs, component_start(cs, cs.len() as int), cs.len() as int) {
        Some(d) => cs.len() - d - 1,
        None => 0,
    }
}

/// The number of characters of a path's extension (see `extension_width`).
fn extension_len(path: &String) -> (r: usize)
    ensures
        r == extension_width(path@),
{
    let cs = chars_of(path.as_str());
    let mut start: usize = 0;
    let mut i: usize = 0;
    while i < cs.len()
        invariant
            i <= cs@.len(),
            start <= i,
            start == component_start(cs@, i as int),
        decreases cs@.len() - i,
    {
        if cs[i] == '/' {
            start = i + 1;
        }
        i += 1;
    }
    let mut dot: Option<usize> = None;
    let mut k: usize = start;
    proof {
        assert(last_dot(cs@, start as int, start as int) is None);
    }
    while k < cs.len()
        invariant
            start <= k <= cs@.len(),
            dot matches Some(d) ==> d < k,
            dot matches Some(d) ==> last_dot(cs@, start as int, k as int) == Some(d as int),
            dot is None ==> last_dot(cs@, start as int, k as int) is None,
        decreases cs@.len() - k,
    {
        if cs[k] == '.' && k > start {
            dot = Some(k);
        }
        k += 1;
    }
    match dot {
        Some(d) => cs.len() - d - 1,
        None => 0,
    }
}

/// The pieces of a lexer error as it is printed.
pub open spec fn lexer_pieces(e: LexerError) -> Seq<(Seq<char>, Style)> {
    let label = seq![("error: "@, Style::Error)];
    match e {
        LexerError::FileNotFound(path) => label.push(("File not found: `"@ + path@ + "`\n"@, Style::Plain)),
        LexerError::FileExtensionNotTesc(path) => {
            let message = "File extension must be `tesc`: `"@ + path@ + "`"@;
            let extension = extension_width(path@);
            let width: int = if message.len() <= usize::MAX - 7 {
                message.len() + 7int
            } else {
                message.len() as int
            };
            let pad = if extension < width {
                width - 1 - extension
            } else {
                0
            };
            label.push((message + "\n"@ + repeated(' ', pad as nat), Style::Plain)).push(
                (repeated('^', extension as nat), Style::Warning),
            ).push((" change this to `tesc`\n"@, Style::Plain))
        },
        LexerError::PermissionDenied(path) => label.push(("Permission denied: `"@ + path@ + "`\n"@, Style::Plain)),
        LexerError::Unknown(path, reason) => label.push(
            ("Unknown error: `"@ + path@ + "`\n\nRust error: "@ + reason@ + "\n"@, Style::Plain),
        ),
    }
}

impl InterpreterError {
    /// The message of this error as it is printed.
    pub fn report<F: FloatArithmetic>(&self, floats: &F) -> (r: String)
        ensures
            self matches InterpreterError::TestFailed(m) ==> r@ == "Test failed: "@ + m@,
            self matches InterpreterError::TypeCast { result, from, to } ==> (
            crate::values::shown(result@) matches Some(t) ==> r@ == "Type cast error: Failed to cast `"@
                + type_text(*from) + " "@ + t + "` to `"@ + type_text(*to) + "`\n"@),
    {
        match self {
            InterpreterError::TypeCast { result, from, to } => {
                let mut r = wrap("Type cast error: Failed to cast `", &from.text(), " ");
                r.append(value_text(result, floats).as_str());
                r.append("` to `");
                r.append(to.text().as_str());
                r.append("`\n");
                proof {
                    if crate::values::shown(result@) is Some {
                        assert(r@ =~= "Type cast error: Failed to cast `"@ + type_text(*from) + " "@
                            + crate::values::shown(result@)->0 + "` to `"@ + type_text(*to) + "`\n"@);
                    }
                }
                r
            },
            InterpreterError::TestFailed(m) => join(&string_of("Test failed: "), m.as_str()),
        }
    }
}

} // verus!
