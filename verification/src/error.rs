use vstd::prelude::*;

use crate::instruction::{Instruction, InstructionResult};
use crate::token::Token;
use crate::types::Type;
use crate::token::TokenType;
use crate::variable::Variable;

verus! {

/// Why the source file could not be read; each carries the path as text.
#[derive(Debug, PartialEq)]
pub enum LexerError {
    FileNotFound(String),
    FileExtensionNotTesc(String),
    PermissionDenied(String),
    /// Any other failure, with the system's description of it.
    Unknown(String, String),
}

/// Why a test stopped while it ran.
#[derive(Debug, PartialEq)]
pub enum InterpreterError {
    /// A value that could not be cast: the value, its type and the target type.
    TypeCast { result: InstructionResult, from: Type, to: Type },
    /// The test failed, with the reason.
    TestFailed(String),
}

/// The kinds of parse and type errors.
#[derive(Debug, PartialEq)]
pub enum ParserErrorType {
    UnexpectedToken(TokenType),
    UnexpectedEndOfFile,
    UnclosedDelimiter(TokenType),
    MismatchedType { expected: Vec<Type>, actual: Type },
    MismatchedNumberOfArguments { expected: usize, actual: usize },
    MismatchedTokenType { expected: TokenType, actual: TokenType },
    MismatchedInstruction { expected: Vec<Instruction>, actual: Instruction },
    GlobalScope(TokenType),
    TypeCast { from: Type, to: Type },
    RegexError,
    IdentifierNotDefined(String),
    ConstantReassignment(Variable),
    VaribleTypeAnnotation,
    Nothing,
}

/// A parse or type error and the token it is about.
#[derive(Debug, PartialEq)]
pub struct ParserError {
    pub error_type: ParserErrorType,
    pub token: Token,
}

impl ParserError {
    pub fn new(error_type: ParserErrorType, token: Token) -> (r: ParserError)
        ensures
            r.error_type == error_type,
            r.token == token,
    {
        ParserError { error_type, token }
    }

    /// The error that stands for no error.
    pub fn none() -> (r: ParserError)
        ensures
            r.error_type is Nothing,
            r.token.token_type@ == crate::token::TokenKind::Nothing,
    {
        ParserError { error_type: ParserErrorType::Nothing, token: Token::none() }
    }
}

/// The kinds of warnings about style and likely mistakes.
#[derive(Debug, PartialEq)]
pub enum ParserWarningType {
    TrailingSemicolon,
    EmptyBlock,
    UnusedValue,
    UnusedVariable,
    VariableNotRead,
    VariableNeverReAssigned,
    ConstantNotUpperCase(String),
    VariableNotSnakeCase(String),
    SelfAssignment,
    /// A statement that should be a block; the token is where the block would end.
    NoBlock(Box<Token>),
    MagicLiteral(Type),
}

/// A warning and the token it is about.
#[derive(Debug, PartialEq)]
pub struct ParserWarning {
    pub warning_type: ParserWarningType,
    pub token: Token,
}

impl ParserWarning {
    pub fn new(warning_type: ParserWarningType, token: Token) -> (r: ParserWarning)
        ensures
            r.warning_type == warning_type,
            r.token == token,
    {
        ParserWarning { warning_type, token }
    }
}

/// A message of the parser or type checker, in the order it arose.
#[derive(Debug, PartialEq)]
pub enum ParserMessage {
    Error(ParserError),
    Warning(ParserWarning),
}

impl ParserMessage {
    /// The error that a value of type `actual` was found where one of `expected` was due.
    pub fn error_mismatched_type(expected: Vec<Type>, actual: Type, token: Token) -> (r:
        ParserMessage)
        ensures
            r == ParserMessage::Error(
                ParserError {
                    error_type: ParserErrorType::MismatchedType { expected, actual },
                    token,
                },
            ),
    {
        ParserMessage::Error(
            ParserError::new(ParserErrorType::MismatchedType { expected, actual }, token),
        )
    }

    /// The error that `actual` arguments were given where `expected` were due.
    pub fn error_mismatched_number_of_arguments(
        expected: usize,
        actual: usize,
        token: Token,
    ) -> (r: ParserMessage)
        ensures
            r == ParserMessage::Error(
                ParserError {
                    error_type: ParserErrorType::MismatchedNumberOfArguments { expected, actual },
                    token,
                },
            ),
    {
        ParserMessage::Error(
            ParserError::new(
                ParserErrorType::MismatchedNumberOfArguments { expected, actual },
                token,
            ),
        )
    }

    /// Whether this message is an error.
    pub fn is_error(&self) -> (r: bool)
        ensures
            r == (*self is Error),
    {
        matches!(self, ParserMessage::Error(_))
    }
}

/// The ways the program ends, each with its exit status (see `code`).
#[derive(Debug, PartialEq, Eq, Structural, Clone, Copy)]
pub enum ExitCode {
    SourceFileNotFound,
    FileExtentionNotTesc,
    SourcePermissionDenied,
    ProcessNotFound,
    ProcessPermissionDenied,
    ParserError,
    TypeCheckerError,
    Unknown,
}

impl ExitCode {
    /// The exit status of the program for this ending.
    pub fn code(&self) -> (r: i32)
        ensures
            r == match *self {
                ExitCode::SourceFileNotFound => 1i32,
                ExitCode::FileExtentionNotTesc => 2,
                ExitCode::SourcePermissionDenied => 3,
                ExitCode::ProcessNotFound => 21,
                ExitCode::ProcessPermissionDenied => 22,
                ExitCode::ParserError => 31,
                ExitCode::TypeCheckerError => 41,
                ExitCode::Unknown => 101,
            },
    {
        match self {
            ExitCode::SourceFileNotFound => 1,
            ExitCode::FileExtentionNotTesc => 2,
            ExitCode::SourcePermissionDenied => 3,
            ExitCode::ProcessNotFound => 21,
            ExitCode::ProcessPermissionDenied => 22,
            ExitCode::ParserError => 31,
            ExitCode::TypeCheckerError => 41,
            ExitCode::Unknown => 101,
        }
    }
}

} // verus!
