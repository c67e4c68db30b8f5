use vstd::prelude::*;

use crate::operators::{BinaryOperator, UnaryOperator};
use crate::token::{Token, TokenKind};
use crate::types::Type;
use crate::variable::Variable;

verus! {

#[derive(Debug, PartialEq)]
pub struct StringLiteral {
    pub value: String,
}

/// A regex literal, held as the strings it stands for.
#[derive(Debug, PartialEq)]
pub struct RegexLiteral {
    pub value: Vec<String>,
}

#[derive(Debug, PartialEq)]
pub struct IntegerLiteral {
    pub value: i64,
}

/// A float literal, held as its source text.
#[derive(Debug, PartialEq)]
pub struct FloatLiteral {
    pub value: String,
}

#[derive(Debug, PartialEq)]
pub struct BooleanLiteral {
    pub value: bool,
}

/// A call of a built-in function: `input`, `output`, `print` or `println`.
#[derive(Debug, PartialEq)]
pub struct BuiltIn {
    pub name: String,
    pub arguments: Vec<Instruction>,
}

#[derive(Debug, PartialEq)]
pub struct Block {
    pub statements: Vec<Instruction>,
}

#[derive(Debug, PartialEq)]
pub struct Paren {
    pub expression: Box<Instruction>,
}

/// A test: its name, the command that starts the program under test, and its body.
#[derive(Debug, PartialEq)]
pub struct TestInstruction {
    pub name: String,
    pub command: String,
    pub body: Box<Instruction>,
}

#[derive(Debug, PartialEq)]
pub struct Function {
    pub name: String,
    pub parameters: Vec<Variable>,
    pub body: Box<Instruction>,
    pub return_type: Type,
}

#[derive(Debug, PartialEq)]
pub struct For {
    pub assignment: IterableAssignment,
    pub body: Box<Instruction>,
}

#[derive(Debug, PartialEq)]
pub struct Conditional {
    pub condition: Box<Instruction>,
    pub if_body: Box<Instruction>,
    pub else_body: Box<Instruction>,
}

#[derive(Debug, PartialEq)]
pub struct Assignment {
    pub variable: Variable,
    pub body: Box<Instruction>,
    pub token: Token,
    pub declaration: bool,
}

/// The `name: type in iterable` part of a `for` loop.
#[derive(Debug, PartialEq)]
pub struct IterableAssignment {
    pub variable: Variable,
    pub body: Box<Instruction>,
}

#[derive(Debug, PartialEq)]
pub struct FunctionCall {
    pub name: String,
    pub arguments: Vec<Instruction>,
}

#[derive(Debug, PartialEq)]
pub struct Unary {
    pub operator: UnaryOperator,
    pub body: Box<Instruction>,
}

#[derive(Debug, PartialEq)]
pub struct Binary {
    pub operator: BinaryOperator,
    pub left: Box<Instruction>,
    pub right: Box<Instruction>,
}

/// The unary operation node, under its other name.
pub type UnaryOperation = Unary;

/// The binary operation node, under its other name.
pub type BinaryOperation = Binary;

#[derive(Debug, PartialEq)]
pub struct TypeCast {
    pub from: Box<Instruction>,
    pub to: Type,
}

#[derive(Debug, PartialEq)]
pub enum InstructionType {
    StringLiteral(StringLiteral),
    RegexLiteral(RegexLiteral),
    IntegerLiteral(IntegerLiteral),
    FloatLiteral(FloatLiteral),
    BooleanLiteral(BooleanLiteral),
    BuiltIn(BuiltIn),
    Block(Block),
    Paren(Paren),
    Test(TestInstruction),
    Function(Function),
    For(For),
    Conditional(Conditional),
    Assignment(Assignment),
    IterableAssignment(IterableAssignment),
    Variable(Variable),
    FunctionCall(FunctionCall),
    UnaryOperation(Unary),
    BinaryOperation(Binary),
    TypeCast(TypeCast),
    Nothing,
}

/// The value of an instruction when it runs. A float is held as its text.
#[derive(Debug, PartialEq)]
pub enum InstructionResult {
    String(String),
    Regex(Vec<String>),
    Int(i64),
    Float(String),
    Bool(bool),
    Nothing,
}

/// The mathematical value of a run-time value: texts as sequences of characters.
pub ghost enum Value {
    String(Seq<char>),
    Regex(Seq<Seq<char>>),
    Int(i64),
    Float(Seq<char>),
    Bool(bool),
    Nothing,
}

impl View for InstructionResult {
    type V = Value;

    open spec fn view(&self) -> Value {
        match self {
            InstructionResult::String(s) => Value::String(s@),
            InstructionResult::Regex(v) => Value::Regex(v@.map_values(|s: String| s@)),
            InstructionResult::Int(i) => Value::Int(*i),
            InstructionResult::Float(s) => Value::Float(s@),
            InstructionResult::Bool(b) => Value::Bool(*b),
            InstructionResult::Nothing => Value::Nothing,
        }
    }
}

impl Clone for InstructionResult {
    fn clone(&self) -> (r: InstructionResult)
        ensures
            r@ == self@,
    {
        match self {
            InstructionResult::String(s) => InstructionResult::String(s.clone()),
            InstructionResult::Regex(v) => {
                let c = copy_strings(v);
                assert(c@.map_values(|s: String| s@) =~= v@.map_values(|s: String| s@));
                InstructionResult::Regex(c)
            },
            InstructionResult::Int(i) => InstructionResult::Int(*i),
            InstructionResult::Float(s) => InstructionResult::Float(s.clone()),
            InstructionResult::Bool(b) => InstructionResult::Bool(*b),
            InstructionResult::Nothing => InstructionResult::Nothing,
        }
    }
}

/// A node of the syntax tree, with the token it starts at.
#[derive(Debug, PartialEq)]
pub struct Instruction {
    pub instruction_type: InstructionType,
    pub token: Token,
}

/// A copy of the instructions `v`.
fn copy_instructions(v: &Vec<Instruction>) -> (r: Vec<Instruction>)
    ensures
        r@.len() == v@.len(),
        forall|i: int| 0 <= i < v@.len() ==> #[trigger] r@[i].token == v@[i].token,
    decreases v@,
{
    let mut r: Vec<Instruction> = Vec::new();
    let mut i: usize = 0;
    while i < v.len()
        invariant
            i <= v@.len(),
            r@.len() == i,
            forall|j: int| 0 <= j < i ==> #[trigger] r@[j].token == v@[j].token,
        decreases v@.len() - i,
    {
        assert(decreases_to!(v@ => v@[i as int]));
        r.push(copy_instruction(&v[i]));
        i += 1;
    }
    r
}

/// A copy of the strings `v`.
pub fn copy_strings(v: &Vec<String>) -> (r: Vec<String>)
    ensures
        r@ == v@,
{
    let mut r: Vec<String> = Vec::new();
    let mut i: usize = 0;
    while i < v.len()
        invariant
            i <= v@.len(),
            r@ == v@.take(i as int),
        decreases v@.len() - i,
    {
        r.push(v[i].clone());
        i += 1;
        assert(r@ =~= v@.take(i as int));
    }
    assert(v@.take(v@.len() as int) =~= v@);
    r
}

/// A copy of the variables `v`.
pub fn copy_variables(v: &Vec<Variable>) -> (r: Vec<Variable>)
    ensures
        r@ == v@,
{
    let mut r: Vec<Variable> = Vec::new();
    let mut i: usize = 0;
    while i < v.len()
        invariant
            i <= v@.len(),
            r@ == v@.take(i as int),
        decreases v@.len() - i,
    {
        r.push(v[i].clone());
        i += 1;
        assert(r@ =~= v@.take(i as int));
    }
    assert(v@.take(v@.len() as int) =~= v@);
    r
}

/// A copy of the instruction `i`.
fn copy_instruction(i: &Instruction) -> (r: Instruction)
    ensures
        r.token == i.token,
    decreases i,
{
    let instruction_type = match &i.instruction_type {
        InstructionType::StringLiteral(x) => InstructionType::StringLiteral(
            StringLiteral { value: x.value.clone() },
        ),
        InstructionType::RegexLiteral(x) => InstructionType::RegexLiteral(
            RegexLiteral { value: copy_strings(&x.value) },
        ),
        InstructionType::IntegerLiteral(x) => InstructionType::IntegerLiteral(
            IntegerLiteral { value: x.value },
        ),
        InstructionType::FloatLiteral(x) => InstructionType::FloatLiteral(
            FloatLiteral { value: x.value.clone() },
        ),
        InstructionType::BooleanLiteral(x) => InstructionType::BooleanLiteral(
            BooleanLiteral { value: x.value },
        ),
        InstructionType::BuiltIn(x) => InstructionType::BuiltIn(
            BuiltIn { name: x.name.clone(), arguments: copy_instructions(&x.arguments) },
        ),
        InstructionType::Block(x) => InstructionType::Block(
            Block { statements: copy_instructions(&x.statements) },
        ),
        InstructionType::Paren(x) => InstructionType::Paren(
            Paren { expression: Box::new(copy_instruction(&x.expression)) },
        ),
        InstructionType::Test(x) => InstructionType::Test(
            TestInstruction {
                name: x.name.clone(),
                command: x.command.clone(),
                body: Box::new(copy_instruction(&x.body)),
            },
        ),
        InstructionType::Function(x) => InstructionType::Function(
            Function {
                name: x.name.clone(),
                parameters: copy_variables(&x.parameters),
                body: Box::new(copy_instruction(&x.body)),
                return_type: x.return_type.clone(),
            },
        ),
        InstructionType::For(x) => InstructionType::For(
            For {
                assignment: IterableAssignment {
                    variable: x.assignment.variable.clone(),
                    body: Box::new(copy_instruction(&x.assignment.body)),
                },
                body: Box::new(copy_instruction(&x.body)),
            },
        ),
        InstructionType::Conditional(x) => InstructionType::Conditional(
            Conditional {
                condition: Box::new(copy_instruction(&x.condition)),
                if_body: Box::new(copy_instruction(&x.if_body)),
                else_body: Box::new(copy_instruction(&x.else_body)),
            },
        ),
        InstructionType::Assignment(x) => InstructionType::Assignment(
            Assignment {
                variable: x.variable.clone(),
                body: Box::new(copy_instruction(&x.body)),
                token: x.token.clone(),
                declaration: x.declaration,
            },
        ),
        InstructionType::IterableAssignment(x) => InstructionType::IterableAssignment(
            IterableAssignment {
                variable: x.variable.clone(),
                body: Box::new(copy_instruction(&x.body)),
            },
        ),
        InstructionType::Variable(x) => InstructionType::Variable(x.clone()),
        InstructionType::FunctionCall(x) => InstructionType::FunctionCall(
            FunctionCall { name: x.name.clone(), arguments: copy_instructions(&x.arguments) },
        ),
        InstructionType::UnaryOperation(x) => InstructionType::UnaryOperation(
            Unary { operator: x.operator, body: Box::new(copy_instruction(&x.body)) },
        ),
        InstructionType::BinaryOperation(x) => InstructionType::BinaryOperation(
            Binary {
                operator: x.operator,
                left: Box::new(copy_instruction(&x.left)),
                right: Box::new(copy_instruction(&x.right)),
            },
        ),
        InstructionType::TypeCast(x) => InstructionType::TypeCast(
            TypeCast { from: Box::new(copy_instruction(&x.from)), to: x.to.clone() },
        ),
        InstructionType::Nothing => InstructionType::Nothing,
    };
    Instruction { instruction_type, token: i.token.clone() }
}

impl Clone for Instruction {
    fn clone(&self) -> (r: Instruction)
        ensures
            r.token == self.token,
    {
        copy_instruction(self)
    }
}

impl Clone for Function {
    fn clone(&self) -> (r: Function)
        ensures
            r.name == self.name,
            r.parameters@ == self.parameters@,
            r.return_type == self.return_type,
    {
        Function {
            name: self.name.clone(),
            parameters: copy_variables(&self.parameters),
            body: Box::new(copy_instruction(&self.body)),
            return_type: self.return_type.clone(),
        }
    }
}

impl Instruction {
    /// An instruction of the given kind at the given token.
    pub fn new(instruction_type: InstructionType, token: Token) -> (r: Instruction)
        ensures
            r.instruction_type == instruction_type,
            r.token == token,
    {
        Instruction { instruction_type, token }
    }

    /// The empty instruction, at no place in the source.
    pub fn none() -> (r: Instruction)
        ensures
            r.instruction_type is Nothing,
            r.token.token_type@ == TokenKind::Nothing,
            r.token.last_token is None,
    {
        Instruction { instruction_type: InstructionType::Nothing, token: Token::none() }
    }

    /// The innermost expression of nested blocks and parentheses: the last statement of
    /// a non-empty block, the expression in parentheses, otherwise the instruction itself.
    pub fn inner_most(&self) -> (r: &Instruction)
        ensures
            !(self.instruction_type is Paren) && !(self.instruction_type is Block
                && self.instruction_type->Block_0.statements@.len() > 0) ==> r == self,
            !(r.instruction_type is Paren),
            r.instruction_type is Block ==> r.instruction_type->Block_0.statements@.len() == 0,
        decreases self,
    {
        match &self.instruction_type {
            InstructionType::Block(block) => {
                if block.statements.len() == 0 {
                    self
                } else {
                    let last = &block.statements[block.statements.len() - 1];
                    assert(decreases_to!(self => last));
                    last.inner_most()
                }
            },
            InstructionType::Paren(paren) => paren.expression.inner_most(),
            _ => self,
        }
    }
}

} // verus!
