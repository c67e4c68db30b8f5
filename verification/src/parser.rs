use vstd::prelude::*;

use crate::cli::Args;
use crate::environment::{entry_value, lemma_names_kept_trans, names_kept, same_keys, same_names, scoped_lookup, ParseEnvironment};
use crate::error::{ParserError, ParserErrorType, ParserMessage, ParserWarning, ParserWarningType};
use crate::instruction::{
    Binary, BooleanLiteral, FloatLiteral, Instruction, InstructionType, IntegerLiteral, RegexLiteral,
    StringLiteral,
};
use crate::text::{chars_of, chars_equal, string_from};
use crate::token::{cursor_peek, cursor_current, Token, TokenCollection, TokenKind, TokenType};
use crate::operators::{precedence, BinaryOperator, UnaryOperator};
use crate::types::Type;
use crate::variable::{SnakeCase, Variable};

verus! {

/// Whether the tokens can be read by the parser: every identifier has a name, and
/// every string literal starts and ends with a one-byte character (its quotes).
pub open spec fn tokens_ok(tokens: Seq<Token>) -> bool {
    forall|i: int|
        0 <= i < tokens.len() ==> {
            &&& (#[trigger] tokens[i]).token_type@ matches TokenKind::Identifier(name) ==> name.len()
                > 0
            &&& tokens[i].token_type@ matches TokenKind::StringLiteral(text) ==> string_text_ok(
                text,
            )
        }
}

/// A string literal's text holds its two enclosing one-byte characters.
pub open spec fn string_text_ok(text: Seq<char>) -> bool {
    text.len() >= 2 && (text[0] as u32) < 128 && (text.last() as u32) < 128
}

/// The value of a string literal: its text without the enclosing quotes.
pub open spec fn string_value(text: Seq<char>) -> Seq<char> {
    text.subrange(1, text.len() - 1)
}

/// Every message of `before` is still there, at its place, in `after`.
pub open spec fn messages_kept(before: Seq<ParserMessage>, after: Seq<ParserMessage>) -> bool {
    &&& before.len() <= after.len()
    &&& forall|i: int| 0 <= i < before.len() ==> #[trigger] after[i] == before[i]
}

/// The binary operator written `s`, if any.
pub open spec fn operator_named(s: Seq<char>) -> Option<BinaryOperator> {
    if s == seq!['&', '&'] {
        Some(BinaryOperator::And)
    } else if s == seq!['|', '|'] {
        Some(BinaryOperator::Or)
    } else if s == seq!['=', '='] {
        Some(BinaryOperator::Equal)
    } else if s == seq!['!', '='] {
        Some(BinaryOperator::NotEqual)
    } else if s == seq!['>'] {
        Some(BinaryOperator::GreaterThan)
    } else if s == seq!['>', '='] {
        Some(BinaryOperator::GreaterThanOrEqual)
    } else if s == seq!['<'] {
        Some(BinaryOperator::LessThan)
    } else if s == seq!['<', '='] {
        Some(BinaryOperator::LessThanOrEqual)
    } else if s == seq!['+'] {
        Some(BinaryOperator::Addition)
    } else if s == seq!['-'] {
        Some(BinaryOperator::Subtraction)
    } else if s == seq!['*'] {
        Some(BinaryOperator::Multiplication)
    } else if s == seq!['/'] {
        Some(BinaryOperator::Division)
    } else if s == seq!['%'] {
        Some(BinaryOperator::Modulo)
    } else {
        None
    }
}

/// The unary operator that a token stands for, if any: `!` and `-` as unary
/// operators, and `-` as a binary operator where an operand is expected.
pub open spec fn unary_operator_named(k: TokenKind) -> Option<UnaryOperator> {
    match k {
        TokenKind::UnaryOperator(s) => if s == seq!['!'] {
            Some(UnaryOperator::Not)
        } else if s == seq!['-'] {
            Some(UnaryOperator::Negation)
        } else {
            None
        },
        TokenKind::BinaryOperator(s) => if s == seq!['-'] {
            Some(UnaryOperator::Negation)
        } else {
            None
        },
        _ => None,
    }
}

/// The binary operator written `text`, if any.
fn binary_operator_of(text: &String) -> (r: Option<BinaryOperator>)
    ensures
        r == operator_named(text@),
{
    let cs = chars_of(text.as_str());
    let r = if cs.len() == 1 {
        let c = cs[0];
        if c == '>' {
            Some(BinaryOperator::GreaterThan)
        } else if c == '<' {
            Some(BinaryOperator::LessThan)
        } else if c == '+' {
            Some(BinaryOperator::Addition)
        } else if c == '-' {
            Some(BinaryOperator::Subtraction)
        } else if c == '*' {
            Some(BinaryOperator::Multiplication)
        } else if c == '/' {
            Some(BinaryOperator::Division)
        } else if c == '%' {
            Some(BinaryOperator::Modulo)
        } else {
            None
        }
    } else if cs.len() == 2 {
        let a = cs[0];
        let b = cs[1];
        if a == '&' && b == '&' {
            Some(BinaryOperator::And)
        } else if a == '|' && b == '|' {
            Some(BinaryOperator::Or)
        } else if a == '=' && b == '=' {
            Some(BinaryOperator::Equal)
        } else if a == '!' && b == '=' {
            Some(BinaryOperator::NotEqual)
        } else if a == '>' && b == '=' {
            Some(BinaryOperator::GreaterThanOrEqual)
        } else if a == '<' && b == '=' {
            Some(BinaryOperator::LessThanOrEqual)
        } else {
            None
        }
    } else {
        None
    };
    proof {
        if cs@.len() == 1 {
            assert(cs@ =~= seq![cs@[0]]);
        } else if cs@.len() == 2 {
            assert(cs@ =~= seq![cs@[0], cs@[1]]);
        }
    }
    r
}

/// Whether the string `s` is the word `w`.
fn is_word(s: &String, w: &str) -> (r: bool)
    ensures
        r == (s@ == w@),
{
    chars_equal(&chars_of(s.as_str()), w)
}

/// Integers that are no magic literals.
pub open spec fn white_listed_integer(v: i64) -> bool {
    v == 0 || v == 1
}

/// Float texts that are no magic literals.
pub open spec fn white_listed_float(text: Seq<char>) -> bool {
    text == seq!['0', '.', '0'] || text == seq!['1', '.', '0']
}

/// Booleans that are no magic literals.
pub open spec fn white_listed_bool(v: bool) -> bool {
    v || !v
}

/// The parser: the tokens with their cursor, the names in scope, the options, and
/// the errors and warnings found so far, in the order they arose. Warnings are
/// collected whether or not the options silence them; the options that decide
/// whether a style or magic-literal warning arises are applied here.
pub struct Parser {
    pub tokens: TokenCollection,
    pub environment: ParseEnvironment,
    pub args: Args,
    pub in_constant_declaration: bool,
    pub success: bool,
    pub messages: Vec<ParserMessage>,
}

impl Parser {
    /// How many tokens the cursor has taken.
    pub open spec fn at(&self) -> int {
        if self.tokens.started {
            self.tokens.index + 1
        } else {
            0
        }
    }

    /// How many tokens are left to take.
    pub open spec fn remaining(&self) -> int {
        self.tokens.tokens@.len() - self.at()
    }

    /// The next token to take, if any is left before the last.
    pub open spec fn upcoming(&self) -> Option<Token> {
        cursor_peek(self.tokens.tokens@, self.tokens.index as int, self.tokens.started)
    }

    /// The token last taken, if any.
    pub open spec fn taken(&self) -> Option<Token> {
        cursor_current(self.tokens.tokens@, self.tokens.index as int, self.tokens.started)
    }

    /// The parser is consistent: the cursor is on a token once it has started and at
    /// the start before, the tokens can be read, and the names are well kept.
    pub open spec fn wf(&self) -> bool {
        &&& self.tokens.wf()
        &&& (self.tokens.started ==> self.tokens.index < self.tokens.tokens@.len())
        &&& (!self.tokens.started ==> self.tokens.index == 0)
        &&& tokens_ok(self.tokens.tokens@)
        &&& self.environment.wf()
        &&& self.environment.scopes().len() >= 1
    }

    /// What every step of the parser keeps from the state `before`: the tokens and the
    /// options are unchanged, the cursor has not moved back, messages are only added,
    /// a parse that has failed stays failed, and no scope opened before has been closed.
    pub open spec fn keeps(&self, before: Parser) -> bool {
        &&& self.wf()
        &&& (!before.success ==> !self.success)
        &&& self.tokens.tokens@ == before.tokens.tokens@
        &&& self.at() >= before.at()
        &&& self.args == before.args
        &&& messages_kept(before.messages@, self.messages@)
        &&& self.environment.scopes().len() >= before.environment.scopes().len()
        &&& names_kept(before.environment.scopes(), self.environment.scopes())
    }

    /// Whether a parser can be made for `tokens` (see `new`): the cursor is at the
    /// start, and the tokens can be read.
    pub fn accepts(tokens: &TokenCollection) -> (r: bool)
        ensures
            r == (tokens.wf() && tokens_ok(tokens.tokens@) && !tokens.started && tokens.index == 0),
    {
        if tokens.started || tokens.index != 0 || tokens.tokens.len() == usize::MAX {
            return false;
        }
        let mut i: usize = 0;
        while i < tokens.tokens.len()
            invariant
                i <= tokens.tokens@.len(),
                forall|j: int|
                    0 <= j < i ==> {
                        &&& (#[trigger] tokens.tokens@[j]).token_type@ matches TokenKind::Identifier(name)
                            ==> name.len() > 0
                        &&& tokens.tokens@[j].token_type@ matches TokenKind::StringLiteral(text)
                            ==> string_text_ok(text)
                    },
            decreases tokens.tokens@.len() - i,
        {
            match &tokens.tokens[i].token_type {
                TokenType::Identifier { value } => {
                    if chars_of(value.as_str()).len() == 0 {
                        return false;
                    }
                },
                TokenType::StringLiteral { value } => {
                    let cs = chars_of(value.as_str());
                    if cs.len() < 2 || (cs[0] as u32) >= 128 || (cs[cs.len() - 1] as u32) >= 128 {
                        return false;
                    }
                },
                _ => {},
            }
            i += 1;
        }
        true
    }

    /// A parser at the start of `tokens`, with one empty scope and no messages.
    pub fn new(tokens: TokenCollection, args: Args) -> (r: Parser)
        requires
            tokens.wf(),
            tokens_ok(tokens.tokens@),
            !tokens.started,
            tokens.index == 0,
        ensures
            r.wf(),
            r.tokens == tokens,
            r.args == args,
            r.environment.scopes().len() == 1,
            r.messages@.len() == 0,
            r.success,
            !r.in_constant_declaration,
    {
        let environment = ParseEnvironment::new(args.clone());
        Parser {
            tokens,
            environment,
            args,
            in_constant_declaration: false,
            success: true,
            messages: Vec::new(),
        }
    }

    /// Takes the next token, or fails at the end of the tokens with an error about the
    /// last token taken.
    fn get_next_token(&mut self) -> (r: Result<Token, ParserError>)
        requires
            old(self).wf(),
        ensures
            final(self).keeps(*old(self)),
            final(self).environment == old(self).environment,
            final(self).messages == old(self).messages,
            final(self).in_constant_declaration == old(self).in_constant_declaration,
            final(self).success == old(self).success,
            match old(self).upcoming() {
                Some(t) => r == Ok::<Token, ParserError>(t) && final(self).at() == old(self).at()
                    + 1 && final(self).taken() == Some(t),
                None => r is Err && r->Err_0.error_type is UnexpectedEndOfFile && final(self).at()
                    == old(self).at(),
            },
    {
        match self.tokens.next() {
            Some(token) => Ok(token),
            None => {
                let last = match self.tokens.current() {
                    Some(t) => t,
                    None => Token::none(),
                };
                Err(ParserError::new(ParserErrorType::UnexpectedEndOfFile, last))
            },
        }
    }

    /// The next token, without taking it, or an error at the end of the tokens.
    fn peek_next_token(&self) -> (r: Result<Token, ParserError>)
        requires
            self.wf(),
        ensures
            match self.upcoming() {
                Some(t) => r == Ok::<Token, ParserError>(t),
                None => r is Err && r->Err_0.error_type is UnexpectedEndOfFile,
            },
    {
        match self.tokens.peek() {
            Some(token) => Ok(token),
            None => {
                let last = match self.tokens.current() {
                    Some(t) => t,
                    None => Token::none(),
                };
                Err(ParserError::new(ParserErrorType::UnexpectedEndOfFile, last))
            },
        }
    }

    /// Skips the tokens of the instruction the cursor is in.
    fn skip_instruction(&mut self)
        requires
            old(self).wf(),
        ensures
            final(self).keeps(*old(self)),
            final(self).environment == old(self).environment,
            final(self).messages == old(self).messages,
            final(self).in_constant_declaration == old(self).in_constant_declaration,
            final(self).success == old(self).success,
            old(self).upcoming() is Some && !(old(self).upcoming()->0.token_type@ is OpenBlock)
                ==> final(self).at() > old(self).at(),
            (final(self).tokens.index as int, final(self).tokens.started) == crate::token::cursor_skip(
                old(self).tokens.tokens@,
                old(self).tokens.index as int,
                old(self).tokens.started,
            ),
    {
        self.tokens.advance_to_next_instruction();
        proof {
            lemma_skip(
                old(self).tokens.tokens@,
                old(self).tokens.index as int,
                old(self).tokens.started,
            );
        }
    }

    /// Whether the parse left as many scopes open as it found, where it went without
    /// an error.
    pub open spec fn settles(&self, before: Parser) -> bool {
        self.success ==> self.environment.scopes().len() == before.environment.scopes().len()
    }

    /// Only the cursor differs between this state and `before`.
    pub open spec fn moved_only(&self, before: Parser) -> bool {
        &&& self.environment == before.environment
        &&& self.messages == before.messages
        &&& self.in_constant_declaration == before.in_constant_declaration
        &&& self.success == before.success
    }

    /// Whether a literal that is not white-listed gets a magic-literal warning.
    pub open spec fn magic_checked(&self) -> bool {
        !self.args.disable_magic_warnings && !self.in_constant_declaration
            && !self.args.disable_style_warnings
    }

    /// Takes a string literal; its value is its text without the quotes.
    fn parse_string_literal(&mut self) -> (r: Result<Instruction, ParserError>)
        requires
            old(self).wf(),
        ensures
            final(self).keeps(*old(self)),
            r is Ok ==> final(self).settles(*old(self)),
            final(self).moved_only(*old(self)),
            match old(self).upcoming() {
                None => r is Err && r->Err_0.error_type is UnexpectedEndOfFile && final(self).at()
                    == old(self).at(),
                Some(t) => final(self).at() == old(self).at() + 1 && match t.token_type@ {
                    TokenKind::StringLiteral(text) => r is Ok && r->Ok_0.token == t
                        && r->Ok_0.instruction_type is StringLiteral
                        && r->Ok_0.instruction_type->StringLiteral_0.value@ == string_value(text),
                    _ => r is Err && r->Err_0.token == t
                        && r->Err_0.error_type is MismatchedTokenType,
                },
            },
    {
        let token = self.get_next_token()?;
        assert(self.tokens.tokens@[self.tokens.index as int] == token);
        match &token.token_type {
            TokenType::StringLiteral { value } => {
                let cs = chars_of(value.as_str());
                assert(string_text_ok(cs@));
                let mut inner: Vec<char> = Vec::new();
                let mut i: usize = 1;
                while i < cs.len() - 1
                    invariant
                        1 <= i,
                        cs@.len() >= 2,
                        i <= cs@.len() - 1,
                        inner@ == cs@.subrange(1, i as int),
                    decreases cs@.len() - i,
                {
                    inner.push(cs[i]);
                    i += 1;
                }
                let value = string_from(inner.as_slice());
                Ok(Instruction::new(InstructionType::StringLiteral(StringLiteral { value }), token))
            },
            _ => {
                let actual = token.token_type.clone();
                Err(ParserError::new(
                    ParserErrorType::MismatchedTokenType {
                        expected: TokenType::StringLiteral { value: String::new() },
                        actual,
                    },
                    token,
                ))
            },
        }
    }

    /// The messages after taking the literal `t` of type `ty`: a magic-literal warning
    /// is added when the check applies and the literal is not white-listed.
    pub open spec fn after_literal(&self, white: bool, ty: Type, t: Token) -> Seq<ParserMessage> {
        if self.magic_checked() && !white {
            self.messages@.push(
                ParserMessage::Warning(
                    ParserWarning { warning_type: ParserWarningType::MagicLiteral(ty), token: t },
                ),
            )
        } else {
            self.messages@
        }
    }

    /// Adds a magic-literal warning about `token` of type `ty` unless `white`.
    fn check_magic(&mut self, white: bool, ty: Type, token: &Token)
        requires
            old(self).wf(),
        ensures
            final(self).keeps(*old(self)),
            final(self).at() == old(self).at(),
            final(self).tokens == old(self).tokens,
            final(self).environment == old(self).environment,
            final(self).in_constant_declaration == old(self).in_constant_declaration,
            final(self).success == old(self).success,
            final(self).messages@ == old(self).after_literal(white, ty, *token),
    {
        if !self.args.disable_magic_warnings && !self.in_constant_declaration && !white
            && !self.args.disable_style_warnings {
            self.messages.push(
                ParserMessage::Warning(
                    ParserWarning::new(ParserWarningType::MagicLiteral(ty), token.clone()),
                ),
            );
        } else {
            assert(self.messages@ =~= self.messages@.subrange(0, self.messages@.len() as int));
        }
    }

    /// Takes an integer literal, with a magic-literal warning where it applies.
    fn parse_integer_literal(&mut self) -> (r: Result<Instruction, ParserError>)
        requires
            old(self).wf(),
            old(self).upcoming() matches Some(t) && t.token_type@ is IntegerLiteral,
        ensures
            final(self).keeps(*old(self)),
            r is Ok ==> final(self).settles(*old(self)),
            final(self).at() == old(self).at() + 1,
            final(self).environment == old(self).environment,
            final(self).in_constant_declaration == old(self).in_constant_declaration,
            final(self).success == old(self).success,
            ({
                let t = old(self).upcoming()->0;
                let v = t.token_type@->IntegerLiteral_0;
                &&& r == Ok::<Instruction, ParserError>(
                    Instruction {
                        instruction_type: InstructionType::IntegerLiteral(IntegerLiteral { value: v }),
                        token: t,
                    },
                )
                &&& final(self).messages@ == old(self).after_literal(white_listed_integer(v), Type::Int, t)
            }),
    {
        let token = self.get_next_token()?;
        match &token.token_type {
            TokenType::IntegerLiteral { value } => {
                let v = *value;
                self.check_magic(v == 0 || v == 1, Type::Int, &token);
                Ok(Instruction::new(InstructionType::IntegerLiteral(IntegerLiteral { value: v }), token))
            },
            _ => Err(ParserError::new(ParserErrorType::Nothing, token)),
        }
    }

    /// Takes a float literal, with a magic-literal warning where it applies.
    fn parse_float_literal(&mut self) -> (r: Result<Instruction, ParserError>)
        requires
            old(self).wf(),
            old(self).upcoming() matches Some(t) && t.token_type@ is FloatLiteral,
        ensures
            final(self).keeps(*old(self)),
            r is Ok ==> final(self).settles(*old(self)),
            final(self).at() == old(self).at() + 1,
            final(self).environment == old(self).environment,
            final(self).in_constant_declaration == old(self).in_constant_declaration,
            final(self).success == old(self).success,
            ({
                let t = old(self).upcoming()->0;
                let v = t.token_type@->FloatLiteral_0;
                &&& r is Ok && r->Ok_0.token == t
                &&& r->Ok_0.instruction_type is FloatLiteral
                &&& r->Ok_0.instruction_type->FloatLiteral_0.value@ == v
                &&& final(self).messages@ == old(self).after_literal(white_listed_float(v), Type::Float, t)
            }),
    {
        let token = self.get_next_token()?;
        match &token.token_type {
            TokenType::FloatLiteral { value } => {
                proof {
                    reveal_strlit("0.0");
                    reveal_strlit("1.0");
                    assert("0.0"@ =~= seq!['0', '.', '0']);
                    assert("1.0"@ =~= seq!['1', '.', '0']);
                }
                let white = chars_equal(&chars_of(value.as_str()), "0.0") || chars_equal(
                    &chars_of(value.as_str()),
                    "1.0",
                );
                self.check_magic(white, Type::Float, &token);
                let text = value.clone();
                Ok(Instruction::new(InstructionType::FloatLiteral(FloatLiteral { value: text }), token))
            },
            _ => Err(ParserError::new(ParserErrorType::Nothing, token)),
        }
    }

    /// Takes a boolean literal, with a magic-literal warning where it applies.
    fn parse_boolean_literal(&mut self) -> (r: Result<Instruction, ParserError>)
        requires
            old(self).wf(),
            old(self).upcoming() matches Some(t) && t.token_type@ is BooleanLiteral,
        ensures
            final(self).keeps(*old(self)),
            r is Ok ==> final(self).settles(*old(self)),
            final(self).at() == old(self).at() + 1,
            final(self).environment == old(self).environment,
            final(self).in_constant_declaration == old(self).in_constant_declaration,
            final(self).success == old(self).success,
            ({
                let t = old(self).upcoming()->0;
                let v = t.token_type@->BooleanLiteral_0;
                &&& r == Ok::<Instruction, ParserError>(
                    Instruction {
                        instruction_type: InstructionType::BooleanLiteral(BooleanLiteral { value: v }),
                        token: t,
                    },
                )
                &&& final(self).messages@ == old(self).after_literal(white_listed_bool(v), Type::Bool, t)
            }),
    {
        let token = self.get_next_token()?;
        match &token.token_type {
            TokenType::BooleanLiteral { value } => {
                let v = *value;
                self.check_magic(true, Type::Bool, &token);
                Ok(Instruction::new(InstructionType::BooleanLiteral(BooleanLiteral { value: v }), token))
            },
            _ => Err(ParserError::new(ParserErrorType::Nothing, token)),
        }
    }

    /// Takes a regular expression literal and expands it into the texts it stands for.
    fn parse_regex_literal(&mut self) -> (r: Result<Instruction, ParserError>)
        requires
            old(self).wf(),
            old(self).upcoming() matches Some(t) && t.token_type@ is RegexLiteral,
        ensures
            final(self).keeps(*old(self)),
            r is Ok ==> final(self).settles(*old(self)),
            final(self).moved_only(*old(self)),
            final(self).at() == old(self).at() + 1,
            ({
                let t = old(self).upcoming()->0;
                match crate::regex::regex_texts(t.token_type@->RegexLiteral_0, old(self).args.max_size) {
                    None => r == Err::<Instruction, ParserError>(
                        ParserError { error_type: ParserErrorType::RegexError, token: t },
                    ),
                    Some(texts) => r is Ok && r->Ok_0.token == t
                        && r->Ok_0.instruction_type is RegexLiteral
                        && crate::regex::texts(r->Ok_0.instruction_type->RegexLiteral_0.value@) == texts,
                }
            }),
    {
        let token = self.get_next_token()?;
        match &token.token_type {
            TokenType::RegexLiteral { .. } => {
                let value = crate::regex::parse(&token, self.args.max_size)?;
                Ok(Instruction::new(InstructionType::RegexLiteral(RegexLiteral { value }), token))
            },
            _ => Err(ParserError::new(ParserErrorType::Nothing, token)),
        }
    }

    /// Takes the next token and fails unless it is of the type `expected`.
    fn expect_token(&mut self, expected: TokenType) -> (r: Result<(), ParserError>)
        requires
            old(self).wf(),
        ensures
            final(self).keeps(*old(self)),
            final(self).moved_only(*old(self)),
            match old(self).upcoming() {
                None => r is Err && r->Err_0.error_type is UnexpectedEndOfFile && final(self).at()
                    == old(self).at(),
                Some(t) => if t.token_type@ == expected@ {
                    r is Ok && final(self).at() == old(self).at() + 1 && final(self).taken() == Some(t)
                } else {
                    &&& r is Err
                    &&& r->Err_0.token == t
                    &&& r->Err_0.error_type matches ParserErrorType::MismatchedTokenType { expected: e, actual: a }
                        && e == expected && a@ == t.token_type@
                    &&& final(self).at() > old(self).at()
                    &&& ({
                        let (i, st, _) = crate::token::cursor_next(
                            old(self).tokens.tokens@,
                            old(self).tokens.index as int,
                            old(self).tokens.started,
                        );
                        (final(self).tokens.index as int, final(self).tokens.started)
                            == crate::token::cursor_skip(old(self).tokens.tokens@, i, st)
                    })
                },
            },
    {
        let token = self.get_next_token()?;
        if !token.token_type.same(&expected) {
            self.skip_instruction();
            let actual = token.token_type.clone();
            Err(ParserError::new(ParserErrorType::MismatchedTokenType { expected, actual }, token))
        } else {
            Ok(())
        }
    }

    /// Takes the token that ends a statement: a semicolon or a closing brace. Any other
    /// token is left untaken and is an error.
    fn end_statement(&mut self) -> (r: Result<(), ParserError>)
        requires
            old(self).wf(),
        ensures
            final(self).keeps(*old(self)),
            final(self).moved_only(*old(self)),
            match old(self).upcoming() {
                None => r is Err && r->Err_0.error_type is UnexpectedEndOfFile && final(self).at()
                    == old(self).at(),
                Some(t) => if t.token_type@ is Semicolon || t.token_type@ is CloseBlock {
                    r is Ok && final(self).at() == old(self).at() + 1
                } else {
                    &&& r is Err
                    &&& r->Err_0.token == t
                    &&& r->Err_0.error_type matches ParserErrorType::MismatchedTokenType { expected: e, actual: a }
                        && e@ == TokenKind::Semicolon && a@ == t.token_type@
                    &&& final(self).at() == if old(self).tokens.started {
                        old(self).at()
                    } else {
                        old(self).at() + 1
                    }
                },
            },
    {
        let token = self.get_next_token()?;
        match token.token_type {
            TokenType::Semicolon | TokenType::CloseBlock => Ok(()),
            _ => {
                self.tokens.back();
                let actual = token.token_type.clone();
                Err(ParserError::new(
                    ParserErrorType::MismatchedTokenType { expected: TokenType::Semicolon, actual },
                    token,
                ))
            },
        }
    }

    /// Records the error `e`; the parse no longer succeeds.
    fn report(&mut self, e: ParserError)
        requires
            old(self).wf(),
        ensures
            final(self).keeps(*old(self)),
            final(self).tokens == old(self).tokens,
            final(self).environment == old(self).environment,
            final(self).in_constant_declaration == old(self).in_constant_declaration,
            final(self).messages@ == old(self).messages@.push(ParserMessage::Error(e)),
            !final(self).success,
    {
        self.messages.push(ParserMessage::Error(e));
        self.success = false;
    }

    /// Records the warning `w`.
    fn warn(&mut self, w: ParserWarning)
        requires
            old(self).wf(),
        ensures
            final(self).keeps(*old(self)),
            final(self).tokens == old(self).tokens,
            final(self).environment == old(self).environment,
            final(self).in_constant_declaration == old(self).in_constant_declaration,
            final(self).success == old(self).success,
            final(self).messages@ == old(self).messages@.push(ParserMessage::Warning(w)),
    {
        self.messages.push(ParserMessage::Warning(w));
    }

    /// The token last taken; there is one once a token has been taken.
    fn last_taken(&self) -> (r: Token)
        requires
            self.wf(),
            self.tokens.started,
        ensures
            Some(r) == self.taken(),
    {
        self.tokens.current().unwrap()
    }

    /// Parses a statement: an expression and the token that ends it. A missing end is
    /// recorded as an error, and the expression is still returned.
    fn parse_statement(&mut self) -> (r: Result<Instruction, ParserError>)
        requires
            old(self).wf(),
        ensures
            final(self).keeps(*old(self)),
            r is Ok ==> final(self).settles(*old(self)),
            old(self).upcoming() is Some || r is Ok ==> final(self).at() > old(self).at(),
            r is Ok && (old(self).upcoming() matches Some(t) && (t.token_type@ == TokenKind::Keyword(
                "let"@) || t.token_type@ == TokenKind::Keyword("const"@))) ==> declares(
                r->Ok_0,
                old(self).tokens.tokens@,
                old(self).at(),
            ),
            declaration_statement(old(self).tokens.tokens@, old(self).at()) matches Some((i, e)) ==> r
                == Ok::<Instruction, ParserError>(i) && final(self).at() == e,
            literal_statement(old(self).tokens.tokens@, old(self).at()) matches Some((i, e)) ==> r
                == Ok::<Instruction, ParserError>(i) && final(self).at() == e,
            call_statement(old(self).tokens.tokens@, old(self).at()) matches Some((n, texts, e)) ==> r is Ok
                && shaped(r->Ok_0, Shape::Call(n, texts)) && final(self).at() == e,
            literal_block(old(self).tokens.tokens@, old(self).at()) matches Some((st, e)) ==> r is Ok && (
            r->Ok_0.instruction_type matches InstructionType::Block(b) && shaped_all(b.statements@, st))
                && final(self).at() == e + 1,
        decreases old(self).remaining(), 10nat,
    {
        let ghost s0 = *self;
        let instruction = self.parse_expression(true, true)?;
        let ghost s1 = *self;
        proof {
            lemma_same_at(s0, s1);
            lemma_upcoming_at(s1);
            if literal_block(s0.tokens.tokens@, s0.at()) is Some {
                lemma_statements_end(s0.tokens.tokens@, s0.at() + 1);
            }
        }
        match self.end_statement() {
            Ok(()) => {},
            Err(e) => {
                self.report(e);
            },
        }
        Ok(instruction)
    }

    /// Parses an expression: an operand, then the binary operators (if
    /// `parse_binary`), type casts (if `parse_type_cast`) and assignments that follow.
    fn parse_expression(&mut self, parse_binary: bool, parse_type_cast: bool) -> (r: Result<
        Instruction,
        ParserError,
    >)
        requires
            old(self).wf(),
        ensures
            final(self).keeps(*old(self)),
            r is Ok ==> final(self).settles(*old(self)),
            old(self).upcoming() is None ==> r is Err && final(self).at() == old(self).at(),
            old(self).upcoming() is Some && !(old(self).upcoming()->0.token_type@ is Semicolon)
                ==> final(self).at() > old(self).at(),
            old(self).upcoming() is Some && old(self).upcoming()->0.token_type@ is Semicolon ==> r
                is Ok && final(self).at() == old(self).at(),
            r is Ok && !parse_binary ==> !(r->Ok_0.instruction_type is BinaryOperation),
            r is Ok && parse_binary && parse_type_cast ==> (final(self).upcoming() matches Some(n)
                && !continues_expression(n)),
            r is Ok && parse_binary && parse_type_cast && (old(self).upcoming() matches Some(t)
                && (t.token_type@ == TokenKind::Keyword("let"@) || t.token_type@ == TokenKind::Keyword("const"@)))
                ==> declares(r->Ok_0, old(self).tokens.tokens@, old(self).at()),
            literal_expression(old(self).tokens.tokens@, old(self).at(), parse_binary) matches Some((i, e))
                ==> r == Ok::<Instruction, ParserError>(i) && final(self).at() == e && (!old(
                self,
            ).magic_checked() ==> final(self).messages@ == old(self).messages@
                && final(self).in_constant_declaration == old(self).in_constant_declaration),
            literal_declaration(old(self).tokens.tokens@, old(self).at()) matches Some((i, e)) ==> r
                == Ok::<Instruction, ParserError>(i) && final(self).at() == e,
            literal_block(old(self).tokens.tokens@, old(self).at()) matches Some((st, e)) ==> r is Ok && (
            r->Ok_0.instruction_type matches InstructionType::Block(b) && shaped_all(b.statements@, st))
                && final(self).at() == e,
            string_operand(old(self).tokens.tokens@, old(self).at()) matches Some(v) ==> r is Ok && is_string(
                r->Ok_0,
                v,
                old(self).tokens.tokens@[old(self).at()],
            ) && final(self).at() == old(self).at() + 1,
            string_call(old(self).tokens.tokens@, old(self).at()) matches Some((n, texts, e)) ==> r is Ok && (
            r->Ok_0.instruction_type matches InstructionType::BuiltIn(b) && b.name@ == n && strings_are(
                b.arguments@,
                texts,
            )) && r->Ok_0.token == old(self).tokens.tokens@[old(self).at()] && final(self).at() == e,
        decreases old(self).remaining(), 9nat,
    {
        let ghost toks = self.tokens.tokens@;
        let ghost a = self.at();
        let ghost goal = literal_expression(toks, a, parse_binary);
        let ghost goal2 = literal_declaration(toks, a);
        let ghost goal3 = literal_block(toks, a);
        let ghost goal4 = string_operand(toks, a);
        let ghost goal5 = string_call(toks, a);
        proof {
            lemma_upcoming_at(*self);
        }
        let token = self.peek_next_token()?;
        let mut instruction = match &token.token_type {
            TokenType::StringLiteral { .. } => self.parse_string_literal()?,
            TokenType::RegexLiteral { .. } => self.parse_regex_literal()?,
            TokenType::IntegerLiteral { .. } => self.parse_integer_literal()?,
            TokenType::FloatLiteral { .. } => self.parse_float_literal()?,
            TokenType::BooleanLiteral { .. } => self.parse_boolean_literal()?,
            TokenType::Keyword { .. } => self.parse_keyword()?,
            TokenType::BuiltIn { .. } => self.parse_builtin()?,
            TokenType::Identifier { .. } => self.parse_identifier()?,
            TokenType::OpenBlock => self.parse_block()?,
            TokenType::OpenParen => self.parse_parentheses()?,
            TokenType::UnaryOperator { .. } => self.parse_unary_operator()?,
            TokenType::BinaryOperator { value } => {
                if is_word(value, "-") {
                    self.parse_unary_operator()?
                } else {
                    self.skip_instruction();
                    let t = token.token_type.clone();
                    return Err(ParserError::new(ParserErrorType::UnexpectedToken(t), token));
                }
            },
            TokenType::Semicolon => Instruction::new(InstructionType::Nothing, token.clone()),
            _ => {
                self.skip_instruction();
                let t = token.token_type.clone();
                return Err(ParserError::new(ParserErrorType::UnexpectedToken(t), token));
            },
        };
        proof {
            lemma_upcoming_at(*self);
            if let Some((gi, ge)) = goal2 {
                lemma_chain_end(toks, a + 6, literal_at(toks, a + 5)->0);
            }
            if let Some((gs, ge)) = goal3 {
                lemma_statements_end(toks, a + 1);
            }
        }
        let mut next = self.peek_next_token()?;
        let ghost first_declares = parse_binary && parse_type_cast && (token.token_type@
            == TokenKind::Keyword("let"@) || token.token_type@ == TokenKind::Keyword("const"@));
        loop
            invariant
                first_declares ==> declares(instruction, old(self).tokens.tokens@, old(self).at())
                    && !continues_expression(next),
                toks == old(self).tokens.tokens@,
                a == old(self).at(),
                goal == literal_expression(toks, a, parse_binary),
                goal matches Some(g) ==> infix_chain(toks, self.at(), instruction, parse_binary) == Some(g),
                goal is Some && !old(self).magic_checked() ==> self.messages@ == old(self).messages@
                    && self.in_constant_declaration == old(self).in_constant_declaration,
                goal2 == literal_declaration(toks, a),
                goal2 matches Some(g) ==> g == (instruction, self.at()) && !continues_expression(next),
                goal3 == literal_block(toks, a),
                goal4 == string_operand(toks, a),
                goal5 == string_call(toks, a),
                goal5 matches Some((n, texts, e)) ==> (instruction.instruction_type matches InstructionType::BuiltIn(b)
                    && b.name@ == n && strings_are(b.arguments@, texts)) && instruction.token == toks[a]
                    && self.at() == e && !continues_expression(next),
                goal4 matches Some(v) ==> is_string(instruction, v, toks[a]) && self.at() == a + 1
                    && !continues_expression(next),
                goal3 matches Some((gs, ge)) ==> (instruction.instruction_type matches InstructionType::Block(b)
                    && shaped_all(b.statements@, gs)) && self.at() == ge && !continues_expression(next),
                self.keeps(*old(self)),
                self.settles(*old(self)),
                old(self).upcoming() is Some && !(old(self).upcoming()->0.token_type@ is Semicolon)
                    ==> self.at() > old(self).at(),
                old(self).upcoming() is Some && old(self).upcoming()->0.token_type@ is Semicolon
                    ==> self.at() == old(self).at() && instruction.instruction_type is Nothing,
                self.upcoming() == Some(next),
                old(self).upcoming() is Some,
                old(self).wf(),
                !parse_binary ==> !(instruction.instruction_type is BinaryOperation),
            ensures
                first_declares ==> declares(instruction, old(self).tokens.tokens@, old(self).at()),
                goal matches Some(g) ==> g == (instruction, self.at()),
                goal is Some && !old(self).magic_checked() ==> self.messages@ == old(self).messages@
                    && self.in_constant_declaration == old(self).in_constant_declaration,
                goal2 matches Some(g) ==> g == (instruction, self.at()),
                goal3 matches Some((gs, ge)) ==> (instruction.instruction_type matches InstructionType::Block(b)
                    && shaped_all(b.statements@, gs)) && self.at() == ge,
                goal4 matches Some(v) ==> is_string(instruction, v, toks[a]) && self.at() == a + 1,
                goal5 matches Some((n, texts, e)) ==> (instruction.instruction_type matches InstructionType::BuiltIn(b)
                    && b.name@ == n && strings_are(b.arguments@, texts)) && instruction.token == toks[a]
                    && self.at() == e,
                self.keeps(*old(self)),
                self.settles(*old(self)),
                old(self).upcoming() is Some && !(old(self).upcoming()->0.token_type@ is Semicolon)
                    ==> self.at() > old(self).at(),
                old(self).upcoming() is Some && old(self).upcoming()->0.token_type@ is Semicolon
                    ==> self.at() == old(self).at() && instruction.instruction_type is Nothing,
                self.upcoming() == Some(next),
                !parse_binary ==> !(instruction.instruction_type is BinaryOperation),
                parse_binary && parse_type_cast ==> !continues_expression(next),
            decreases self.remaining(),
        {
            proof {
                lemma_same_at(*old(self), *self);
                lemma_upcoming_at(*self);
            }
            if !next.binary_operator() {
                break;
            }
            match next.token_type {
                TokenType::BinaryOperator { .. } => {
                    if !parse_binary {
                        break;
                    }
                    instruction = self.parse_binary_operator(instruction)?;
                },
                TokenType::TypeCast => {
                    if !parse_type_cast {
                        break;
                    }
                    instruction = self.parse_type_cast(instruction)?;
                },
                _ => {
                    instruction = self.parse_assignment(instruction)?;
                },
            }
            proof {
                lemma_upcoming_at(*self);
            }
            next = self.peek_next_token()?;
        }
        Ok(instruction)
    }

    /// Parses what starts with a keyword: a declaration, a `for` loop or a
    /// conditional. Any other keyword is an unexpected token.
    fn parse_keyword(&mut self) -> (r: Result<Instruction, ParserError>)
        requires
            old(self).wf(),
            old(self).upcoming() matches Some(t) && t.token_type@ is Keyword,
        ensures
            final(self).keeps(*old(self)),
            r is Ok ==> final(self).settles(*old(self)),
            final(self).at() > old(self).at(),
            r is Ok ==> !(r->Ok_0.instruction_type is BinaryOperation),
            r is Ok && (old(self).upcoming()->0.token_type@ == TokenKind::Keyword("let"@)
                || old(self).upcoming()->0.token_type@ == TokenKind::Keyword("const"@)) ==> {
                &&& declares(r->Ok_0, old(self).tokens.tokens@, old(self).at())
                &&& final(self).upcoming() matches Some(n) && !continues_expression(n)
            },
            literal_declaration(old(self).tokens.tokens@, old(self).at()) matches Some((i, e)) ==> r
                == Ok::<Instruction, ParserError>(i) && final(self).at() == e,
        decreases old(self).remaining(), 8nat,
    {
        let token = self.peek_next_token()?;
        match &token.token_type {
            TokenType::Keyword { value } => {
                if is_word(value, "let") || is_word(value, "const") {
                    self.parse_declaration()
                } else if is_word(value, "for") {
                    self.parse_for()
                } else if is_word(value, "if") {
                    self.parse_conditional()
                } else {
                    self.skip_instruction();
                    let t = token.token_type.clone();
                    Err(ParserError::new(ParserErrorType::UnexpectedToken(t), token))
                }
            },
            _ => {
                self.skip_instruction();
                Err(ParserError::new(ParserErrorType::Nothing, token))
            },
        }
    }

    /// Parses `( expression )`.
    fn parse_parentheses(&mut self) -> (r: Result<Instruction, ParserError>)
        requires
            old(self).wf(),
            old(self).upcoming() is Some,
        ensures
            final(self).keeps(*old(self)),
            r is Ok ==> final(self).settles(*old(self)),
            final(self).at() > old(self).at(),
            r is Ok ==> r->Ok_0.instruction_type is Paren && r->Ok_0.token == old(self).upcoming()->0,
        decreases old(self).remaining(), 7nat,
    {
        let token = self.get_next_token()?;
        let instruction = self.parse_expression(true, true)?;
        self.expect_token(TokenType::CloseParen)?;
        Ok(Instruction::new(
            InstructionType::Paren(crate::instruction::Paren { expression: Box::new(instruction) }),
            token,
        ))
    }

    /// Parses `- operand` or `! operand`; the operand is parsed without binary
    /// operators and type casts.
    fn parse_unary_operator(&mut self) -> (r: Result<Instruction, ParserError>)
        requires
            old(self).wf(),
            old(self).upcoming() is Some,
        ensures
            final(self).keeps(*old(self)),
            r is Ok ==> final(self).settles(*old(self)),
            final(self).at() > old(self).at(),
            r is Ok ==> r->Ok_0.token == old(self).upcoming()->0 && (r->Ok_0.instruction_type matches InstructionType::UnaryOperation(u)
                && u.operator == unary_operator_named(old(self).upcoming()->0.token_type@)->0),
            unary_operator_named(old(self).upcoming()->0.token_type@) is None ==> r is Err,
        decreases old(self).remaining(), 7nat,
    {
        proof {
            reveal_strlit("!");
            reveal_strlit("-");
            assert("!"@ =~= seq!['!']);
            assert("-"@ =~= seq!['-']);
        }
        let token = self.get_next_token()?;
        let operator = match &token.token_type {
            TokenType::UnaryOperator { value } => {
                if is_word(value, "!") {
                    UnaryOperator::Not
                } else if is_word(value, "-") {
                    UnaryOperator::Negation
                } else {
                    let t = token.token_type.clone();
                    return Err(ParserError::new(ParserErrorType::UnexpectedToken(t), token));
                }
            },
            TokenType::BinaryOperator { value } => {
                if is_word(value, "-") {
                    UnaryOperator::Negation
                } else {
                    let t = token.token_type.clone();
                    return Err(ParserError::new(ParserErrorType::UnexpectedToken(t), token));
                }
            },
            _ => {
                let t = token.token_type.clone();
                return Err(ParserError::new(ParserErrorType::UnexpectedToken(t), token));
            },
        };
        let instruction = self.parse_expression(false, false)?;
        Ok(Instruction::new(
            InstructionType::UnaryOperation(
                crate::instruction::Unary { operator, body: Box::new(instruction) },
            ),
            token,
        ))
    }

    /// Parses the arguments of a call, expressions separated by commas, up to the
    /// closing parenthesis, which is left untaken. There are none exactly where the
    /// list is empty: the closing parenthesis (or the end of the tokens) comes first.
    fn parse_arguments(&mut self) -> (r: Result<Vec<Instruction>, ParserError>)
        requires
            old(self).wf(),
        ensures
            final(self).keeps(*old(self)),
            r is Ok ==> final(self).settles(*old(self)),
            r is Ok ==> final(self).upcoming() is None || final(self).upcoming()->0.token_type@ is CloseParen,
            (old(self).upcoming() is None || old(self).upcoming()->0.token_type@ is CloseParen) ==> r is Ok
                && r->Ok_0@.len() == 0 && final(self).at() == old(self).at(),
            r is Ok && old(self).upcoming() is Some && !(old(self).upcoming()->0.token_type@ is CloseParen)
                ==> r->Ok_0@.len() > 0 && final(self).at() > old(self).at(),
            string_texts(old(self).tokens.tokens@, old(self).at()) matches Some((texts, e)) ==> r is Ok
                && strings_are(r->Ok_0@, texts) && final(self).at() == e,
        decreases old(self).remaining(), 11nat,
    {
        let ghost toks = self.tokens.tokens@;
        let ghost goal = string_texts(toks, self.at());
        let mut arguments: Vec<Instruction> = Vec::new();
        loop
            invariant
                toks == self.tokens.tokens@,
                goal == string_texts(toks, old(self).at()),
                goal matches Some((texts, e)) ==> arguments@.len() <= texts.len() && string_texts(toks, self.at())
                    == Some((texts.skip(arguments@.len() as int), e)) && strings_are(
                    arguments@,
                    texts.take(arguments@.len() as int),
                ),
                self.keeps(*old(self)),
                self.settles(*old(self)),
                arguments@.len() == 0 ==> self.at() == old(self).at(),
                arguments@.len() > 0 ==> self.at() > old(self).at(),
                old(self).wf(),
                (old(self).upcoming() is None || old(self).upcoming()->0.token_type@ is CloseParen)
                    ==> arguments@.len() == 0,
            ensures
                self.keeps(*old(self)),
                self.settles(*old(self)),
                self.upcoming() is None || self.upcoming()->0.token_type@ is CloseParen,
                arguments@.len() == 0 ==> self.at() == old(self).at(),
                arguments@.len() > 0 ==> self.at() > old(self).at(),
                (old(self).upcoming() is None || old(self).upcoming()->0.token_type@ is CloseParen)
                    ==> arguments@.len() == 0,
                goal matches Some((texts, e)) ==> strings_are(arguments@, texts) && self.at() == e,
            decreases self.remaining(),
        {
            proof {
                if self.at() == old(self).at() {
                    lemma_same_at(*old(self), *self);
                }
                lemma_upcoming_at(*self);
                if let Some((texts, e)) = goal {
                    assert(texts.take(texts.len() as int) =~= texts);
                }
            }
            let ghost before = arguments@;
            let ghost j = self.at();
            let token = match self.tokens.peek() {
                Some(t) => t,
                None => break,
            };
            if matches!(token.token_type, TokenType::CloseParen) {
                break;
            }
            let ghost s0 = *self;
            let argument = self.parse_expression(true, true)?;
            arguments.push(argument);
            proof {
                lemma_upcoming_at(*self);
            }
            let next = self.peek_next_token()?;
            proof {
                if self.at() == s0.at() {
                    lemma_same_at(s0, *self);
                }
                if let Some((texts, e)) = goal {
                    let k = before.len() as int;
                    let sk = texts.skip(k);
                    assert(string_texts(toks, j) == Some((sk, e)));
                    assert(!(toks[j].token_type@ is CloseParen));
                    assert(sk.len() >= 1);
                    assert(texts.skip(k)[0] == texts[k]);
                    assert(arguments@.drop_last() == before);
                    assert(texts.take(k + 1) =~= texts.take(k).push(texts[k]));
                    assert(texts.skip(k + 1) =~= texts.skip(k).drop_first());
                    assert forall|m: int| 0 <= m < arguments@.len() implies ((#[trigger] arguments@[m]).instruction_type matches InstructionType::StringLiteral(x)
                        && x.value@ == texts.take(k + 1)[m]) by {
                        if m < k {
                            assert(arguments@[m] == before[m]);
                        }
                    }
                }
            }
            match next.token_type {
                TokenType::Comma => {
                    self.get_next_token()?;
                },
                TokenType::CloseParen => {
                    proof {
                        if let Some((texts, e)) = goal {
                            assert(texts.take(texts.len() as int) =~= texts);
                        }
                    }
                    break;
                },
                _ => {
                    self.skip_instruction();
                    let after = self.peek_next_token()?;
                    let t = after.token_type.clone();
                    return Err(ParserError::new(
                        ParserErrorType::MismatchedTokenType { expected: TokenType::Comma, actual: t },
                        after,
                    ));
                },
            }
        }
        Ok(arguments)
    }

    /// Parses a name: a call of a known function with its arguments, or a known
    /// variable. An unknown name is an error.
    fn parse_identifier(&mut self) -> (r: Result<Instruction, ParserError>)
        requires
            old(self).wf(),
            old(self).upcoming() is Some,
        ensures
            final(self).keeps(*old(self)),
            r is Ok ==> final(self).settles(*old(self)),
            final(self).at() > old(self).at(),
            ({
                let t = old(self).upcoming()->0;
                let scopes = old(self).environment.scopes();
                let functions = old(self).environment.function_table();
                match t.token_type@ {
                    TokenKind::Identifier(name) => if entry_value(functions, name) is Some {
                        r is Ok ==> (r->Ok_0.token == t
                            && (r->Ok_0.instruction_type matches InstructionType::FunctionCall(c)
                            && c.name@ == name))
                    } else if scoped_lookup(scopes, name) is Some {
                        r == Ok::<Instruction, ParserError>(
                            Instruction {
                                instruction_type: InstructionType::Variable(
                                    scoped_lookup(scopes, name)->0,
                                ),
                                token: t,
                            },
                        )
                    } else {
                        r is Err && r->Err_0.token == t
                            && (r->Err_0.error_type matches ParserErrorType::IdentifierNotDefined(n)
                            && n@ == name)
                    },
                    _ => r is Err,
                }
            }),
        decreases old(self).remaining(), 7nat,
    {
        let token = self.get_next_token()?;
        match &token.token_type {
            TokenType::Identifier { value } => {
                let variable = self.environment.get(value.as_str());
                let is_function = self.environment.get_function(value.as_str()).is_some();
                if variable.is_none() && !is_function {
                    self.skip_instruction();
                    Err(ParserError::new(ParserErrorType::IdentifierNotDefined(value.clone()), token))
                } else if is_function {
                    self.expect_token(TokenType::OpenParen)?;
                    let arguments = self.parse_arguments()?;
                    self.expect_token(TokenType::CloseParen)?;
                    let name = value.clone();
                    Ok(Instruction::new(
                        InstructionType::FunctionCall(
                            crate::instruction::FunctionCall { name, arguments },
                        ),
                        token,
                    ))
                } else {
                    Ok(Instruction::new(InstructionType::Variable(variable.unwrap()), token))
                }
            },
            _ => Err(ParserError::new(ParserErrorType::Nothing, token)),
        }
    }

    /// Parses a call of a built-in function with its arguments.
    fn parse_builtin(&mut self) -> (r: Result<Instruction, ParserError>)
        requires
            old(self).wf(),
            old(self).upcoming() is Some,
        ensures
            final(self).keeps(*old(self)),
            r is Ok ==> final(self).settles(*old(self)),
            final(self).at() > old(self).at(),
            r is Ok ==> r->Ok_0.token == old(self).upcoming()->0 && (r->Ok_0.instruction_type matches InstructionType::BuiltIn(b)
                && old(self).upcoming()->0.token_type@ == TokenKind::BuiltIn(b.name@)),
            string_call(old(self).tokens.tokens@, old(self).at()) matches Some((n, texts, e)) ==> r is Ok && (
            r->Ok_0.instruction_type matches InstructionType::BuiltIn(b) && b.name@ == n && strings_are(
                b.arguments@,
                texts,
            )) && r->Ok_0.token == old(self).tokens.tokens@[old(self).at()] && final(self).at() == e,
        decreases old(self).remaining(), 7nat,
    {
        proof {
            lemma_upcoming_at(*self);
        }
        let token = self.get_next_token()?;
        proof {
            lemma_upcoming_at(*self);
        }
        self.expect_token(TokenType::OpenParen)?;
        let arguments = self.parse_arguments()?;
        proof {
            lemma_upcoming_at(*self);
        }
        self.expect_token(TokenType::CloseParen)?;
        match &token.token_type {
            TokenType::BuiltIn { value } => {
                let name = value.clone();
                Ok(Instruction::new(
                    InstructionType::BuiltIn(crate::instruction::BuiltIn { name, arguments }),
                    token,
                ))
            },
            _ => Err(ParserError::new(ParserErrorType::Nothing, token)),
        }
    }

    /// Parses a block: statements up to the closing brace, in a scope of their own.
    /// The errors of the statements are recorded and the block goes on; an empty
    /// block is warned about. The closing brace is left untaken. A block parsed
    /// without an error leaves every scope with the names it had: what the block
    /// declares is not known after it.
    fn parse_block(&mut self) -> (r: Result<Instruction, ParserError>)
        requires
            old(self).wf(),
            old(self).upcoming() is Some,
        ensures
            final(self).keeps(*old(self)),
            r is Ok ==> final(self).settles(*old(self)),
            final(self).at() > old(self).at(),
            r is Ok ==> r->Ok_0.instruction_type is Block && r->Ok_0.token == old(self).upcoming()->0,
            r is Ok && final(self).success ==> same_names(
                old(self).environment.scopes(),
                final(self).environment.scopes(),
            ),
            old(self).upcoming()->0.token_type@ is OpenBlock ==> (literal_statements(
                old(self).tokens.tokens@,
                old(self).at() + 1,
            ) matches Some((st, e)) ==> r is Ok && (r->Ok_0.instruction_type matches InstructionType::Block(b)
                && shaped_all(b.statements@, st)) && final(self).at() == e),
        decreases old(self).remaining(), 7nat,
    {
        let ghost toks = self.tokens.tokens@;
        let ghost goal = if self.upcoming()->0.token_type@ is OpenBlock {
            literal_statements(toks, self.at() + 1)
        } else {
            None
        };
        let token = self.get_next_token()?;
        let mut statements: Vec<Instruction> = Vec::new();
        self.environment.add_scope();
        let ghost opened = self.environment.scopes();
        self.in_constant_declaration = false;
        let mut next_token = self.peek_next_token()?;
        while !matches!(next_token.token_type, TokenType::CloseBlock)
            invariant
                self.keeps(*old(self)),
                self.at() > old(self).at(),
                self.environment.scopes().len() > old(self).environment.scopes().len(),
                self.success ==> self.environment.scopes().len() == old(self).environment.scopes().len() + 1,
                self.upcoming() == Some(next_token),
                opened == old(self).environment.scopes().push(Seq::empty()),
                names_kept(opened, self.environment.scopes()),
                toks == self.tokens.tokens@,
                goal == if old(self).upcoming()->0.token_type@ is OpenBlock {
                    literal_statements(toks, old(self).at() + 1)
                } else {
                    None
                },
                goal matches Some((st, e)) ==> statements@.len() <= st.len() && literal_statements(toks, self.at())
                    == Some((st.skip(statements@.len() as int), e)) && shaped_all(
                    statements@,
                    st.take(statements@.len() as int),
                ),
            decreases self.remaining(),
        {
            proof {
                lemma_upcoming_at(*self);
            }
            let ghost before = self.environment.scopes();
            let ghost before_statements = statements@;
            let ghost rest = literal_statements(toks, self.at());
            let ghost s_at = self.at();
            match self.parse_statement() {
                Ok(instruction) => statements.push(instruction),
                Err(e) => self.report(e),
            }
            next_token = match self.peek_next_token() {
                Ok(t) => t,
                Err(_) => {
                    proof {
                        lemma_upcoming_at(*self);
                        if let Some((st, e)) = goal {
                            let (i, e1) = statement_shape(toks, s_at)->0;
                            assert(self.at() == e1);
                            assert(literal_statements(toks, e1) is Some);
                            assert(upcoming_at(toks, e1) is Some);
                            assert(self.upcoming() is Some);
                        }
                    }
                    self.skip_instruction();
                    return Err(ParserError::new(
                        ParserErrorType::UnclosedDelimiter(TokenType::OpenBlock),
                        token,
                    ));
                },
            };
            proof {
                lemma_names_kept_trans(opened, before, self.environment.scopes());
                if let Some((st, e)) = goal {
                    let k = before_statements.len() as int;
                    let (sh, e1) = statement_shape(toks, s_at)->0;
                    let (tail, e2) = literal_statements(toks, e1)->0;
                    assert(st.skip(k) == seq![sh] + tail);
                    assert(st.skip(k)[0] == st[k]);
                    assert(st.take(k + 1) =~= st.take(k).push(st[k]));
                    assert(st.skip(k + 1) =~= st.skip(k).drop_first());
                    assert((seq![sh] + tail).drop_first() =~= tail);
                    assert(st.skip(k + 1) == tail);
                    assert forall|m: int| 0 <= m < statements@.len() implies shaped(
                        #[trigger] statements@[m],
                        st.take(k + 1)[m],
                    ) by {
                        if m < k {
                            assert(statements@[m] == before_statements[m]);
                        }
                    }
                }
            }
        }
        proof {
            lemma_upcoming_at(*self);
            if let Some((st, e)) = goal {
                assert(st.take(st.len() as int) =~= st);
            }
        }
        let ghost inside = self.environment.scopes();
        self.environment.remove_scope(&mut self.messages);
        proof {
            if self.success {
                let o = old(self).environment.scopes();
                assert forall|i: int| 0 <= i < o.len() implies same_keys(
                    #[trigger] o[i],
                    self.environment.scopes()[i],
                ) by {
                    assert(same_keys(inside[i], opened[i]));
                    assert(opened[i] == o[i]);
                    assert(self.environment.scopes()[i] == inside[i]);
                }
            }
        }
        if statements.len() == 0 {
            self.warn(ParserWarning::new(ParserWarningType::EmptyBlock, token.clone()));
        }
        Ok(Instruction::new(
            InstructionType::Block(crate::instruction::Block { statements }),
            token,
        ))
    }

    /// Parses `operator operand` after `left`, the operand without binary operators,
    /// and builds the tree that respects precedence (see `combined`).
    fn parse_binary_operator(&mut self, left: Instruction) -> (r: Result<Instruction, ParserError>)
        requires
            old(self).wf(),
            old(self).upcoming() is Some,
        ensures
            final(self).keeps(*old(self)),
            r is Ok ==> final(self).settles(*old(self)),
            final(self).at() > old(self).at(),
            r is Ok ==> {
                let t = old(self).upcoming()->0;
                &&& t.token_type@ is BinaryOperator
                &&& operator_named(t.token_type@->BinaryOperator_0) is Some
                &&& exists|right: Instruction|
                    !(right.instruction_type is BinaryOperation) && !(
                    right.instruction_type is Nothing) && r->Ok_0 == combined(
                        left,
                        operator_named(t.token_type@->BinaryOperator_0)->0,
                        right,
                        t,
                    )
            },
            ({
                let t = old(self).upcoming()->0;
                match (t.token_type@, literal_expression(old(self).tokens.tokens@, old(self).at() + 1, false)) {
                    (TokenKind::BinaryOperator(text), Some((right, e))) => operator_named(text) is Some ==> r
                        == Ok::<Instruction, ParserError>(combined(left, operator_named(text)->0, right, t))
                        && final(self).at() == e && (!old(self).magic_checked() ==> final(self).messages@
                        == old(self).messages@ && final(self).in_constant_declaration
                        == old(self).in_constant_declaration),
                    _ => true,
                }
            }),
        decreases old(self).remaining(), 7nat,
    {
        let token = self.get_next_token()?;
        let new_operator = match &token.token_type {
            TokenType::BinaryOperator { value } => match binary_operator_of(value) {
                Some(op) => op,
                None => {
                    let t = token.token_type.clone();
                    return Err(ParserError::new(ParserErrorType::UnexpectedToken(t), token));
                },
            },
            _ => {
                let t = token.token_type.clone();
                return Err(ParserError::new(ParserErrorType::UnexpectedToken(t), token));
            },
        };
        let new_right = self.parse_expression(false, true)?;
        if matches!(new_right.instruction_type, InstructionType::Nothing) {
            return Err(ParserError::new(
                ParserErrorType::UnexpectedToken(TokenType::Semicolon),
                token.clone(),
            ));
        }
        let ghost right_value = new_right;
        let ghost left_value = left;
        let Instruction { instruction_type, token: left_token } = left;
        let result = match instruction_type {
            InstructionType::BinaryOperation(crate::instruction::Binary { operator, left, right }) => {
                if new_operator.binds_looser_or_equal(&operator) {
                    let whole = Instruction {
                        instruction_type: InstructionType::BinaryOperation(
                            crate::instruction::Binary { operator, left, right },
                        ),
                        token: left_token,
                    };
                    Instruction::new(
                        InstructionType::BinaryOperation(
                            crate::instruction::Binary {
                                operator: new_operator,
                                left: Box::new(whole),
                                right: Box::new(new_right),
                            },
                        ),
                        token,
                    )
                } else {
                    let inner = Instruction::new(
                        InstructionType::BinaryOperation(
                            crate::instruction::Binary {
                                operator: new_operator,
                                left: right,
                                right: Box::new(new_right),
                            },
                        ),
                        token.clone(),
                    );
                    Instruction::new(
                        InstructionType::BinaryOperation(
                            crate::instruction::Binary { operator, left, right: Box::new(inner) },
                        ),
                        token,
                    )
                }
            },
            other => {
                let whole = Instruction { instruction_type: other, token: left_token };
                Instruction::new(
                    InstructionType::BinaryOperation(
                        crate::instruction::Binary {
                            operator: new_operator,
                            left: Box::new(whole),
                            right: Box::new(new_right),
                        },
                    ),
                    token,
                )
            },
        };
        assert(result == combined(left_value, new_operator, right_value, token));
        Ok(result)
    }

    /// Parses `as type` after `from`.
    fn parse_type_cast(&mut self, from: Instruction) -> (r: Result<Instruction, ParserError>)
        requires
            old(self).wf(),
            old(self).upcoming() is Some,
        ensures
            final(self).keeps(*old(self)),
            r is Ok ==> final(self).settles(*old(self)),
            final(self).moved_only(*old(self)),
            final(self).at() > old(self).at(),
            r is Ok ==> r->Ok_0.token == old(self).upcoming()->0 && (
            r->Ok_0.instruction_type matches InstructionType::TypeCast(c) && *c.from == from),
    {
        let token = self.get_next_token()?;
        let target = self.get_next_token()?;
        let to = match &target.token_type {
            TokenType::Type { value } => value.clone(),
            _ => {
                self.skip_instruction();
                let t = token.token_type.clone();
                return Err(ParserError::new(
                    ParserErrorType::MismatchedTokenType {
                        expected: TokenType::Type { value: Type::Any },
                        actual: t,
                    },
                    token,
                ));
            },
        };
        Ok(Instruction::new(
            InstructionType::TypeCast(crate::instruction::TypeCast { from: Box::new(from), to }),
            token,
        ))
    }

    /// Parses `= expression` after `target`, which must be a variable that is not a
    /// constant and is in scope once the expression is parsed. Assigning a variable
    /// to itself is warned about.
    fn parse_assignment(&mut self, target: Instruction) -> (r: Result<Instruction, ParserError>)
        requires
            old(self).wf(),
            old(self).upcoming() is Some,
        ensures
            final(self).keeps(*old(self)),
            r is Ok ==> final(self).settles(*old(self)),
            final(self).at() > old(self).at(),
            r is Ok ==> r->Ok_0.token == old(self).upcoming()->0 && (
            r->Ok_0.instruction_type matches InstructionType::Assignment(a)
                && target.instruction_type == InstructionType::Variable(a.variable)
                && !a.variable.constant && !a.declaration),
            target.instruction_type matches InstructionType::Variable(v) ==> (v.constant ==> r == Err::<
                Instruction,
                ParserError,
            >(ParserError { error_type: ParserErrorType::ConstantReassignment(v), token: target.token })
                && {
                let (i, st, _) = crate::token::cursor_next(
                    old(self).tokens.tokens@,
                    old(self).tokens.index as int,
                    old(self).tokens.started,
                );
                (final(self).tokens.index as int, final(self).tokens.started) == crate::token::cursor_skip(
                    old(self).tokens.tokens@,
                    i,
                    st,
                )
            }),
            !(target.instruction_type is Variable) ==> r == Err::<Instruction, ParserError>(
                ParserError {
                    error_type: ParserErrorType::UnexpectedToken(old(self).upcoming()->0.token_type),
                    token: old(self).upcoming()->0,
                },
            ),
        decreases old(self).remaining(), 7nat,
    {
        let token = self.get_next_token()?;
        let Instruction { instruction_type, token: target_token } = target;
        let variable = match instruction_type {
            InstructionType::Variable(v) => v,
            _ => {
                self.skip_instruction();
                let t = token.token_type.clone();
                return Err(ParserError::new(ParserErrorType::UnexpectedToken(t), token));
            },
        };
        if variable.constant {
            self.skip_instruction();
            return Err(ParserError::new(ParserErrorType::ConstantReassignment(variable), target_token));
        }
        if !matches!(token.token_type, TokenType::AssignmentOperator) {
            self.skip_instruction();
            let t = token.token_type.clone();
            return Err(ParserError::new(
                ParserErrorType::MismatchedTokenType { expected: TokenType::AssignmentOperator, actual: t },
                token,
            ));
        }
        let body = self.parse_expression(true, true)?;
        if self.environment.get(variable.name.as_str()).is_none() {
            self.skip_instruction();
            return Err(ParserError::new(
                ParserErrorType::IdentifierNotDefined(variable.name.clone()),
                token.clone(),
            ));
        }
        let same = match &body.instruction_type {
            InstructionType::Variable(v) => is_word(&variable.name, v.name.as_str()),
            _ => false,
        };
        if same {
            self.warn(ParserWarning::new(ParserWarningType::SelfAssignment, body.token.clone()));
        }
        let assignment_token = token.clone();
        Ok(Instruction::new(
            InstructionType::Assignment(
                crate::instruction::Assignment {
                    variable,
                    body: Box::new(body),
                    token: assignment_token,
                    declaration: false,
                },
            ),
            token,
        ))
    }

    /// Warns about the declared name `identifier` where style warnings are on and it
    /// is not in the case its kind asks for.
    fn check_name(&mut self, identifier: &Token, constant: bool)
        requires
            old(self).wf(),
            identifier.token_type is Identifier,
        ensures
            final(self).keeps(*old(self)),
            final(self).tokens == old(self).tokens,
            final(self).environment == old(self).environment,
            final(self).in_constant_declaration == old(self).in_constant_declaration,
            final(self).success == old(self).success,
            final(self).messages@ == old(self).messages@ + name_notes(*identifier, constant, old(self).args),
    {
        match &identifier.token_type {
            TokenType::Identifier { value } => {
                if !constant {
                    if !self.args.disable_style_warnings && !value.is_snake_case() {
                        self.warn(ParserWarning::new(
                            ParserWarningType::VariableNotSnakeCase(value.clone()),
                            identifier.clone(),
                        ));
                    }
                } else {
                    if !self.args.disable_style_warnings && !value.is_upper_snake_case() {
                        self.warn(ParserWarning::new(
                            ParserWarningType::ConstantNotUpperCase(value.clone()),
                            identifier.clone(),
                        ));
                    }
                }
            },
            _ => {},
        }
        assert(old(self).messages@ + Seq::<ParserMessage>::empty() =~= old(self).messages@);
    }

    /// Records the variable `name` of a declaration that has no type annotation, with
    /// the type `Any`, and gives the error at the name.
    fn missing_annotation(&mut self, token: &Token, identifier: Token, name: String, constant: bool) -> (e: ParserError)
        requires
            old(self).wf(),
            name@.len() > 0,
        ensures
            final(self).keeps(*old(self)),
            final(self).tokens == old(self).tokens,
            final(self).messages == old(self).messages,
            final(self).success == old(self).success,
            !final(self).in_constant_declaration,
            final(self).environment.scopes().len() == old(self).environment.scopes().len(),
            scoped_lookup(final(self).environment.scopes(), name@) == Some(
                (Variable {
                    name,
                    var_type: Type::Any,
                    declaration_token: *token,
                    identifier_token: identifier,
                    last_assignment_token: *token,
                    type_token: *token,
                    constant,
                    read: true,
                    assigned: true,
                }),
            ),
            e == (ParserError { error_type: ParserErrorType::VaribleTypeAnnotation, token: identifier }),
    {
        let variable = Variable {
            name,
            var_type: Type::Any,
            declaration_token: token.clone(),
            identifier_token: identifier.clone(),
            last_assignment_token: token.clone(),
            type_token: token.clone(),
            constant,
            read: true,
            assigned: true,
        };
        self.environment.insert(variable);
        self.in_constant_declaration = false;
        ParserError::new(ParserErrorType::VaribleTypeAnnotation, identifier)
    }

    /// Parses `let name: type = expression`, `const NAME: type = expression`, or
    /// `name: type in expression` (after `for`). The variable is declared in the
    /// innermost scope; names not in the expected case style are warned about.
    #[verifier::rlimit(100)]
    #[verifier::spinoff_prover]
    fn parse_declaration(&mut self) -> (r: Result<Instruction, ParserError>)
        requires
            old(self).wf(),
        ensures
            final(self).keeps(*old(self)),
            r is Ok ==> final(self).settles(*old(self)),
            old(self).upcoming() is Some ==> final(self).at() > old(self).at(),
            ({
                let toks = old(self).tokens.tokens@;
                let a = old(self).at();
                let v = declared_variable(toks, a);
                r is Ok ==> {
                    &&& old(self).upcoming() is Some
                    &&& a + 5 <= toks.len()
                    &&& toks[a + 1].token_type is Identifier
                    &&& toks[a + 2].token_type@ is Colon
                    &&& toks[a + 3].token_type is Type
                    &&& declares(r->Ok_0, toks, a)
                    &&& final(self).upcoming() matches Some(n) && !continues_expression(n)
                    &&& r->Ok_0.token == toks[a]
                    &&& scoped_lookup(final(self).environment.scopes(), v.name@) == Some(v)
                    &&& match toks[a + 4].token_type@ {
                        TokenKind::AssignmentOperator => r->Ok_0.instruction_type matches InstructionType::Assignment(x)
                            && x.variable == v && x.token == toks[a + 1] && x.declaration,
                        TokenKind::IterableAssignmentOperator => r->Ok_0.instruction_type matches InstructionType::IterableAssignment(x)
                            && x.variable == v,
                        _ => false,
                    }
                }
            }),
            ({
                let toks = old(self).tokens.tokens@;
                let a = old(self).at();
                let v = Variable { var_type: Type::Any, last_assignment_token: toks[a], type_token: toks[a],
                    ..declared_variable(toks, a) };
                old(self).upcoming() is Some && a + 1 < toks.len() && toks[a + 1].token_type is Identifier
                    && !(a + 2 < toks.len() && toks[a + 2].token_type@ is Colon) ==> {
                    &&& r == Err::<Instruction, ParserError>(ParserError {
                        error_type: ParserErrorType::VaribleTypeAnnotation,
                        token: toks[a + 1],
                    })
                    &&& scoped_lookup(final(self).environment.scopes(), v.name@) == Some(v)
                    &&& upcoming_at(toks, a + 2) is Some ==> crate::token::cursor_skip(toks, a + 2, true)
                        == (final(self).tokens.index as int, final(self).tokens.started)
                }
            }),
            old(self).upcoming() is Some && old(self).at() + 1 < old(self).tokens.tokens@.len()
                && !(old(self).tokens.tokens@[old(self).at() + 1].token_type is Identifier) ==> r is Err
                && r->Err_0.token == old(self).tokens.tokens@[old(self).at() + 1]
                && r->Err_0.error_type is MismatchedTokenType,
            ({
                let toks = old(self).tokens.tokens@;
                let a = old(self).at();
                let name = toks[a + 1].token_type->Identifier_value;
                let constant = toks[a].token_type@ == TokenKind::Keyword("const"@);
                old(self).upcoming() is Some && a + 1 < toks.len() && toks[a + 1].token_type is Identifier
                    && !old(self).args.disable_style_warnings && (if constant {
                    !crate::variable::upper_snake_case(name@)
                } else {
                    !crate::variable::snake_case(name@)
                }) ==> {
                    &&& old(self).messages@.len() < final(self).messages@.len()
                    &&& final(self).messages@[old(self).messages@.len() as int] == ParserMessage::Warning(
                        ParserWarning {
                            warning_type: if constant {
                                ParserWarningType::ConstantNotUpperCase(name)
                            } else {
                                ParserWarningType::VariableNotSnakeCase(name)
                            },
                            token: toks[a + 1],
                        },
                    )
                }
            }),
            declaration_head(old(self).tokens.tokens@, old(self).at()) ==> match literal_expression(
                old(self).tokens.tokens@,
                old(self).at() + 5,
                true,
            ) {
                Some((body, e)) => r == Ok::<Instruction, ParserError>(
                    declaration_of(old(self).tokens.tokens@, old(self).at(), body),
                ) && final(self).at() == e,
                None => true,
            },
            ({
                let toks = old(self).tokens.tokens@;
                let a = old(self).at();
                declaration_head(toks, a) && literal_expression(toks, a + 5, true) is Some && (toks[a].token_type@
                    == TokenKind::Keyword("const"@) || old(self).args.disable_magic_warnings
                    || old(self).args.disable_style_warnings) ==> final(self).messages@ == old(self).messages@
                    + naming_notes(toks, a, old(self).args)
            }),
        decreases old(self).remaining(), 5nat,
    {
        let ghost s0 = *self;
        proof {
            lemma_upcoming_at(s0);
        }
        let token = self.get_next_token()?;
        let ghost s1 = *self;
        proof {
            lemma_upcoming_at(s1);
        }
        let constant = match &token.token_type {
            TokenType::Keyword { value } => is_word(value, "const"),
            _ => false,
        };
        let identifier = self.get_next_token()?;
        let ghost s2 = *self;
        proof {
            lemma_upcoming_at(s2);
            assert(token == s0.tokens.tokens@[s0.at()]);
            assert(identifier == s1.tokens.tokens@[s1.at()]);
        }
        let identifier_name = match &identifier.token_type {
            TokenType::Identifier { value } => {
                if constant {
                    self.in_constant_declaration = true;
                }
                self.check_name(&identifier, constant);
                value.clone()
            },
            _ => {
                self.skip_instruction();
                self.in_constant_declaration = false;
                let t = identifier.token_type.clone();
                return Err(ParserError::new(
                    ParserErrorType::MismatchedTokenType {
                        expected: TokenType::Identifier { value: String::new() },
                        actual: t,
                    },
                    identifier,
                ));
            },
        };
        let ghost s3 = *self;
        proof {
            lemma_same_at(s2, s3);
            lemma_upcoming_at(s3);
            assert(identifier_name == identifier.token_type->Identifier_value);
            assert(constant == (token.token_type@ == TokenKind::Keyword("const"@)));
        }
        if self.expect_token(TokenType::Colon).is_err() {
            let ghost s_err = *self;
            let e = self.missing_annotation(&token, identifier, identifier_name, constant);
            proof {
                assert(upcoming_at(s0.tokens.tokens@, s0.at() + 2) is Some ==> crate::token::cursor_skip(
                    s0.tokens.tokens@,
                    s0.at() + 2,
                    true,
                ) == (s_err.tokens.index as int, s_err.tokens.started));
            }
            return Err(e);
        }
        let ghost s4 = *self;
        proof {
            lemma_upcoming_at(s4);
        }
        let type_token = self.get_next_token()?;
        let ghost s5 = *self;
        proof {
            lemma_upcoming_at(s5);
        }
        let var_type = match &type_token.token_type {
            TokenType::Type { value } => value.clone(),
            _ => {
                self.skip_instruction();
                self.in_constant_declaration = false;
                let t = type_token.token_type.clone();
                return Err(ParserError::new(
                    ParserErrorType::MismatchedTokenType {
                        expected: TokenType::Type { value: Type::Any },
                        actual: t,
                    },
                    type_token,
                ));
            },
        };
        let assignment = self.get_next_token()?;
        proof {
            assert(type_token == s4.tokens.tokens@[s4.at()]);
            assert(assignment == s5.tokens.tokens@[s5.at()]);
        }
        let iterable = match &assignment.token_type {
            TokenType::AssignmentOperator => false,
            TokenType::IterableAssignmentOperator => true,
            _ => {
                self.skip_instruction();
                self.in_constant_declaration = false;
                let t = assignment.token_type.clone();
                return Err(ParserError::new(
                    ParserErrorType::MismatchedTokenType {
                        expected: TokenType::AssignmentOperator,
                        actual: t,
                    },
                    assignment,
                ));
            },
        };
        let variable = Variable {
            name: identifier_name,
            var_type,
            declaration_token: token.clone(),
            identifier_token: identifier.clone(),
            last_assignment_token: assignment.clone(),
            type_token,
            constant,
            read: true,
            assigned: true,
        };
        let instruction = match self.parse_expression(true, true) {
            Ok(instruction) => instruction,
            Err(e) => {
                self.environment.insert(variable);
                self.in_constant_declaration = false;
                return Err(e);
            },
        };
        self.in_constant_declaration = false;
        self.environment.insert(variable.clone());
        assert(variable == declared_variable(s0.tokens.tokens@, s0.at()));
        if !iterable {
            Ok(Instruction::new(
                InstructionType::Assignment(
                    crate::instruction::Assignment {
                        variable,
                        body: Box::new(instruction),
                        token: identifier,
                        declaration: true,
                    },
                ),
                token,
            ))
        } else {
            Ok(Instruction::new(
                InstructionType::IterableAssignment(
                    crate::instruction::IterableAssignment { variable, body: Box::new(instruction) },
                ),
                token,
            ))
        }
    }

    /// Parses `for name: type in iterable statement`: the loop variable and the body
    /// are in a scope of their own. A declaration that fails is recorded and the body
    /// is still parsed; the loop is then the empty instruction. A body that is no
    /// block is warned about.
    fn parse_for(&mut self) -> (r: Result<Instruction, ParserError>)
        requires
            old(self).wf(),
            old(self).upcoming() is Some,
        ensures
            final(self).keeps(*old(self)),
            r is Ok ==> final(self).settles(*old(self)),
            final(self).at() > old(self).at(),
            r is Ok ==> (r->Ok_0.token == old(self).upcoming()->0
                && (r->Ok_0.instruction_type matches InstructionType::For(f)
                && f.assignment.variable == declared_variable(old(self).tokens.tokens@, old(self).at())
                && old(self).tokens.tokens@[old(self).at() + 4].token_type@ is IterableAssignmentOperator))
                || (r->Ok_0.instruction_type is Nothing && !final(self).success),
            ({
                let toks = old(self).tokens.tokens@;
                let a = old(self).at();
                declaration_head(toks, a) && toks[a + 4].token_type@ is IterableAssignmentOperator ==> match literal_expression(
                    toks,
                    a + 5,
                    true,
                ) {
                    Some((iterable, e)) => match literal_block(toks, e) {
                        Some((st, e2)) => r is Ok && (r->Ok_0.instruction_type matches InstructionType::For(f)
                            && f.assignment.variable == declared_variable(toks, a) && *f.assignment.body
                            == iterable && (f.body.instruction_type matches InstructionType::Block(b)
                            && shaped_all(b.statements@, st))) && r->Ok_0.token == toks[a] && final(self).at() == e2,
                        None => true,
                    },
                    None => true,
                }
            }),
            r is Ok && final(self).success ==> same_names(
                old(self).environment.scopes(),
                final(self).environment.scopes(),
            ),
        decreases old(self).remaining(), 6nat,
    {
        let token = self.peek_next_token()?;
        self.environment.add_scope();
        let ghost opened = self.environment.scopes();
        let assignment = match self.parse_declaration() {
            Ok(instruction) => match instruction.instruction_type {
                InstructionType::IterableAssignment(a) => Some(a),
                other => {
                    self.skip_instruction();
                    let actual = Instruction { instruction_type: other, token: instruction.token };
                    let expected = Instruction {
                        instruction_type: InstructionType::IterableAssignment(
                            crate::instruction::IterableAssignment {
                                variable: Variable {
                                    name: String::new(),
                                    var_type: Type::Any,
                                    declaration_token: Token::none(),
                                    identifier_token: Token::none(),
                                    last_assignment_token: Token::none(),
                                    type_token: Token::none(),
                                    constant: false,
                                    read: false,
                                    assigned: false,
                                },
                                body: Box::new(Instruction::none()),
                            },
                        ),
                        token: token.clone(),
                    };
                    let mut expected_list: Vec<Instruction> = Vec::new();
                    expected_list.push(expected);
                    return Err(ParserError::new(
                        ParserErrorType::MismatchedInstruction { expected: expected_list, actual },
                        token,
                    ));
                },
            },
            Err(e) => {
                self.report(e);
                None
            },
        };
        let ghost declared = self.environment.scopes();
        let statement = self.parse_statement();
        let ghost inside = self.environment.scopes();
        proof {
            lemma_names_kept_trans(opened, declared, inside);
        }
        self.environment.remove_scope(&mut self.messages);
        proof {
            if self.success && statement is Ok {
                let o = old(self).environment.scopes();
                assert forall|i: int| 0 <= i < o.len() implies same_keys(
                    #[trigger] o[i],
                    self.environment.scopes()[i],
                ) by {
                    assert(same_keys(inside[i], opened[i]));
                    assert(opened[i] == o[i]);
                    assert(self.environment.scopes()[i] == inside[i]);
                }
            }
        }
        let body = statement?;
        match body.instruction_type {
            InstructionType::Block(_) => {},
            InstructionType::Nothing => {
                let current = self.last_taken();
                self.skip_instruction();
                let t = current.token_type.clone();
                return Err(ParserError::new(ParserErrorType::UnexpectedToken(t), current));
            },
            _ => {
                let current = self.last_taken();
                self.warn(ParserWarning::new(
                    ParserWarningType::NoBlock(Box::new(current)),
                    body.token.clone(),
                ));
            },
        }
        self.tokens.back();
        match assignment {
            Some(assignment) => Ok(Instruction::new(
                InstructionType::For(crate::instruction::For { assignment, body: Box::new(body) }),
                token,
            )),
            None => Ok(Instruction::none()),
        }
    }

    /// Parses `if condition statement`, with `else statement` where it follows. A
    /// branch that is no block is warned about. The token that ends the conditional is
    /// left untaken for the statement around it.
    fn parse_conditional(&mut self) -> (r: Result<Instruction, ParserError>)
        requires
            old(self).wf(),
            old(self).upcoming() is Some,
        ensures
            final(self).keeps(*old(self)),
            r is Ok ==> final(self).settles(*old(self)),
            final(self).at() > old(self).at(),
            r is Ok ==> r->Ok_0.instruction_type is Conditional && r->Ok_0.token == old(self).upcoming()->0,
        decreases old(self).remaining(), 6nat,
    {
        let token = self.get_next_token()?;
        let condition = self.parse_expression(true, true)?;
        let if_body = self.parse_statement()?;
        match if_body.instruction_type {
            InstructionType::Block(_) => {},
            InstructionType::Nothing => {
                let current = self.last_taken();
                self.skip_instruction();
                let t = current.token_type.clone();
                return Err(ParserError::new(ParserErrorType::UnexpectedToken(t), current));
            },
            _ => {
                let current = self.last_taken();
                self.warn(ParserWarning::new(
                    ParserWarningType::NoBlock(Box::new(current)),
                    if_body.token.clone(),
                ));
            },
        }
        let next = self.peek_next_token()?;
        let is_else = match &next.token_type {
            TokenType::Keyword { value } => is_word(value, "else"),
            _ => false,
        };
        let else_body = if is_else {
            self.get_next_token()?;
            let statement = self.parse_statement()?;
            self.tokens.back();
            statement
        } else {
            self.tokens.back();
            Instruction::none()
        };
        match else_body.instruction_type {
            InstructionType::Block(_) | InstructionType::Nothing => {},
            _ => {
                let following = match self.tokens.peek() {
                    Some(t) => t,
                    None => Token::none(),
                };
                self.warn(ParserWarning::new(
                    ParserWarningType::NoBlock(Box::new(following)),
                    else_body.token.clone(),
                ));
            },
        }
        Ok(Instruction::new(
            InstructionType::Conditional(
                crate::instruction::Conditional {
                    condition: Box::new(condition),
                    if_body: Box::new(if_body),
                    else_body: Box::new(else_body),
                },
            ),
            token,
        ))
    }

    /// Parses a test: `name("command") statement`. The command is read as a constant,
    /// without magic-literal warnings.
    fn parse_test(&mut self) -> (r: Result<Instruction, ParserError>)
        requires
            old(self).wf(),
            old(self).upcoming() is Some,
        ensures
            final(self).keeps(*old(self)),
            r is Ok ==> final(self).settles(*old(self)),
            final(self).at() > old(self).at(),
            r is Ok ==> r->Ok_0.token == old(self).upcoming()->0 && (
            r->Ok_0.instruction_type matches InstructionType::Test(t)
                && old(self).upcoming()->0.token_type@ == TokenKind::Identifier(t.name@)
                && old(self).at() + 3 < old(self).tokens.tokens@.len()
                && old(self).tokens.tokens@[old(self).at() + 1].token_type@ is OpenParen
                && old(self).tokens.tokens@[old(self).at() + 2].token_type@ == TokenKind::StringLiteral(
                    old(self).tokens.tokens@[old(self).at() + 2].token_type->StringLiteral_value@)
                && t.command@ == string_value(old(self).tokens.tokens@[old(self).at() + 2].token_type->StringLiteral_value@)
                && old(self).tokens.tokens@[old(self).at() + 3].token_type@ is CloseParen),
            test_item(old(self).tokens.tokens@, old(self).at()) matches Some((name, command, st, e)) ==> r is Ok
                && test_shaped(r->Ok_0, name, command, st) && r->Ok_0.token == old(self).tokens.tokens@[old(
                self,
            ).at()] && final(self).at() == e,
    {
        let ghost s0 = *self;
        proof {
            lemma_upcoming_at(s0);
        }
        let token = self.get_next_token()?;
        let name = match &token.token_type {
            TokenType::Identifier { value } => value.clone(),
            _ => {
                return Err(ParserError::new(ParserErrorType::Nothing, token));
            },
        };
        let ghost s1 = *self;
        proof {
            lemma_upcoming_at(s1);
        }
        self.expect_token(TokenType::OpenParen)?;
        self.in_constant_declaration = true;
        let ghost s2 = *self;
        proof {
            lemma_upcoming_at(s2);
        }
        let path = self.parse_string_literal()?;
        let ghost s3 = *self;
        proof {
            lemma_upcoming_at(s3);
        }
        let command = match path.instruction_type {
            InstructionType::StringLiteral(p) => p.value,
            _ => {
                return Err(ParserError::new(ParserErrorType::Nothing, token));
            },
        };
        self.in_constant_declaration = false;
        self.expect_token(TokenType::CloseParen)?;
        let body = self.parse_statement()?;
        Ok(Instruction::new(
            InstructionType::Test(
                crate::instruction::TestInstruction { name, command, body: Box::new(body) },
            ),
            token,
        ))
    }

    /// Parses one parameter, `name: type`, of a function.
    fn parse_parameter(&mut self, constant: bool) -> (r: Result<Variable, ParserError>)
        requires
            old(self).wf(),
            old(self).upcoming() is Some,
        ensures
            final(self).keeps(*old(self)),
            r is Ok ==> final(self).settles(*old(self)),
            final(self).moved_only(*old(self)),
            final(self).at() > old(self).at(),
            r is Ok ==> r->Ok_0.name@.len() > 0 && r->Ok_0.constant == constant
                && old(self).upcoming()->0.token_type@ == TokenKind::Identifier(r->Ok_0.name@),
            old(self).upcoming()->0.token_type is Identifier ==> (r is Ok <==> typed_at(
                old(self).tokens.tokens@,
                old(self).at(),
            )),
            r is Ok ==> r->Ok_0 == parameter_at(old(self).tokens.tokens@, old(self).at(), constant)
                && final(self).at() == old(self).at() + 3,
    {
        let token = self.get_next_token()?;
        assert(self.tokens.tokens@[self.tokens.index as int] == token);
        let name = match &token.token_type {
            TokenType::Identifier { value } => value.clone(),
            _ => {
                let t = token.token_type.clone();
                return Err(ParserError::new(
                    ParserErrorType::MismatchedTokenType {
                        expected: TokenType::Identifier { value: String::new() },
                        actual: t,
                    },
                    token,
                ));
            },
        };
        self.expect_token(TokenType::Colon)?;
        let type_token = self.get_next_token()?;
        let var_type = match &type_token.token_type {
            TokenType::Type { value } => value.clone(),
            _ => {
                self.skip_instruction();
                let t = type_token.token_type.clone();
                return Err(ParserError::new(
                    ParserErrorType::MismatchedTokenType {
                        expected: TokenType::Type { value: Type::Any },
                        actual: t,
                    },
                    type_token,
                ));
            },
        };
        Ok(Variable {
            name,
            var_type,
            declaration_token: token.clone(),
            identifier_token: token.clone(),
            last_assignment_token: token.clone(),
            type_token,
            constant,
            read: true,
            assigned: true,
        })
    }

    /// Parses the parameters of a function up to the closing parenthesis, which is
    /// left untaken. After the keyword `const`, the parameters are constants.
    fn parse_parameters(&mut self) -> (r: Result<Vec<Variable>, ParserError>)
        requires
            old(self).wf(),
        ensures
            final(self).keeps(*old(self)),
            r is Ok ==> final(self).settles(*old(self)),
            final(self).moved_only(*old(self)),
            r is Ok ==> forall|i: int| 0 <= i < r->Ok_0@.len() ==> (#[trigger] r->Ok_0@[i]).name@.len() > 0,
            ({
                let expected = parameters_from(old(self).tokens.tokens@, old(self).at(), false);
                &&& r is Ok <==> expected is Some
                &&& r matches Ok(v) ==> expected == Some((v@, final(self).at()))
            }),
    {
        let ghost toks = self.tokens.tokens@;
        let ghost start = self.at();
        let mut arguments: Vec<Variable> = Vec::new();
        let mut constant = false;
        assert(arguments@ + Seq::<Variable>::empty() =~= arguments@);
        loop
            invariant
                self.keeps(*old(self)),
                self.moved_only(*old(self)),
                forall|i: int| 0 <= i < arguments@.len() ==> (#[trigger] arguments@[i]).name@.len() > 0,
                toks == self.tokens.tokens@,
                start == old(self).at(),
                parameters_from(toks, start, false) == prefixed(arguments@, parameters_from(toks, self.at(), constant)),
            ensures
                self.keeps(*old(self)),
                self.moved_only(*old(self)),
                forall|i: int| 0 <= i < arguments@.len() ==> (#[trigger] arguments@[i]).name@.len() > 0,
                parameters_from(toks, start, false) == Some((arguments@, self.at())),
            decreases self.remaining(),
        {
            let ghost j = self.at();
            proof {
                lemma_upcoming_at(*self);
            }
            let token = match self.tokens.peek() {
                Some(t) => t,
                None => {
                    assert(arguments@ + Seq::<Variable>::empty() =~= arguments@);
                    break;
                },
            };
            match &token.token_type {
                TokenType::CloseParen => {
                    assert(arguments@ + Seq::<Variable>::empty() =~= arguments@);
                    break;
                },
                TokenType::Keyword { value } => {
                    if !is_word(value, "const") {
                        self.skip_instruction();
                        let t = token.token_type.clone();
                        return Err(ParserError::new(
                            ParserErrorType::MismatchedTokenType {
                                expected: TokenType::Identifier { value: String::new() },
                                actual: t,
                            },
                            token,
                        ));
                    }
                    constant = true;
                    self.get_next_token()?;
                },
                TokenType::Identifier { .. } => {
                    let ghost c0 = constant;
                    let parameter = self.parse_parameter(constant)?;
                    let ghost before = arguments@;
                    arguments.push(parameter);
                    let ghost s3 = *self;
                    proof {
                        lemma_upcoming_at(s3);
                    }
                    let next = self.peek_next_token()?;
                    match next.token_type {
                        TokenType::Comma => {
                            self.get_next_token()?;
                            proof {
                                match parameters_from(toks, j + 4, c0) {
                                    Some((ps, e)) => {
                                        assert(before + (seq![parameter] + ps) =~= arguments@ + ps);
                                    },
                                    None => {},
                                }
                            }
                        },
                        TokenType::CloseParen => {
                            assert(before + seq![parameter] =~= arguments@);
                            assert(arguments@ + Seq::<Variable>::empty() =~= arguments@);
                            break;
                        },
                        _ => {
                            self.skip_instruction();
                            let after = self.peek_next_token()?;
                            let t = after.token_type.clone();
                            return Err(ParserError::new(
                                ParserErrorType::MismatchedTokenType {
                                    expected: TokenType::Comma,
                                    actual: t,
                                },
                                after,
                            ));
                        },
                    }
                },
                _ => {
                    self.skip_instruction();
                    let t = token.token_type.clone();
                    return Err(ParserError::new(ParserErrorType::UnexpectedToken(t), token));
                },
            }
        }
        Ok(arguments)
    }

    /// Parses a function: `fn name(parameters): type statement`. The function is
    /// known, with its parameters in a scope of their own, while its body is parsed,
    /// so that it can call itself.
    fn parse_function(&mut self) -> (r: Result<Instruction, ParserError>)
        requires
            old(self).wf(),
            old(self).upcoming() is Some,
        ensures
            final(self).keeps(*old(self)),
            r is Ok ==> final(self).settles(*old(self)),
            final(self).at() > old(self).at(),
            r is Ok ==> r->Ok_0.token == old(self).upcoming()->0 && r->Ok_0.instruction_type is Function,
            function_item(old(self).tokens.tokens@, old(self).at()) matches Some((name, ps, ty, st, e)) ==> r is Ok
                && function_shaped(r->Ok_0, name, ps, ty, st) && final(self).at() == e,
            r is Ok && final(self).success ==> same_names(
                old(self).environment.scopes(),
                final(self).environment.scopes(),
            ),
    {
        let ghost toks = self.tokens.tokens@;
        let ghost a = self.at();
        proof {
            lemma_upcoming_at(*self);
        }
        let token = self.get_next_token()?;
        proof {
            lemma_upcoming_at(*self);
        }
        let name_token = self.get_next_token()?;
        proof {
            lemma_upcoming_at(*self);
        }
        let name = match &name_token.token_type {
            TokenType::Identifier { value } => value.clone(),
            _ => {
                let t = name_token.token_type.clone();
                return Err(ParserError::new(
                    ParserErrorType::MismatchedTokenType {
                        expected: TokenType::Identifier { value: String::new() },
                        actual: t,
                    },
                    name_token,
                ));
            },
        };
        self.expect_token(TokenType::OpenParen)?;
        let parameters = self.parse_parameters()?;
        proof {
            lemma_upcoming_at(*self);
        }
        self.expect_token(TokenType::CloseParen)?;
        proof {
            lemma_upcoming_at(*self);
        }
        self.expect_token(TokenType::Colon)?;
        proof {
            lemma_upcoming_at(*self);
        }
        let return_type_token = self.get_next_token()?;
        let return_type = match &return_type_token.token_type {
            TokenType::Type { value } => value.clone(),
            _ => {
                self.skip_instruction();
                let t = return_type_token.token_type.clone();
                return Err(ParserError::new(
                    ParserErrorType::MismatchedTokenType {
                        expected: TokenType::Type { value: Type::Any },
                        actual: t,
                    },
                    return_type_token,
                ));
            },
        };
        let mut function = crate::instruction::Function {
            name,
            parameters: crate::instruction::copy_variables(&parameters),
            body: Box::new(Instruction::none()),
            return_type,
        };
        let ghost unchanged = self.environment.scopes();
        self.environment.add_function(function.clone());
        self.environment.add_scope();
        let ghost opened = self.environment.scopes();
        let ghost cursor = self.tokens;
        let mut i: usize = 0;
        while i < parameters.len()
            invariant
                self.tokens == cursor,
                self.keeps(*old(self)),
                self.environment.scopes().len() > old(self).environment.scopes().len(),
                self.success ==> self.environment.scopes().len() == old(self).environment.scopes().len() + 1,
                forall|k: int| 0 <= k < parameters@.len() ==> (#[trigger] parameters@[k]).name@.len() > 0,
                unchanged == old(self).environment.scopes(),
                opened == unchanged.push(Seq::empty()),
                names_kept(opened, self.environment.scopes()),
            decreases parameters@.len() - i,
        {
            let ghost before = self.environment.scopes();
            self.environment.insert(parameters[i].clone());
            proof {
                lemma_names_kept_trans(opened, before, self.environment.scopes());
            }
            i += 1;
        }
        let ghost bound = self.environment.scopes();
        let ghost body_at = self.at();
        let body = self.parse_statement()?;
        let ghost inside = self.environment.scopes();
        proof {
            lemma_names_kept_trans(opened, bound, inside);
        }
        self.environment.remove_scope(&mut self.messages);
        proof {
            if self.success {
                let o = old(self).environment.scopes();
                assert forall|j: int| 0 <= j < o.len() implies same_keys(
                    #[trigger] o[j],
                    self.environment.scopes()[j],
                ) by {
                    assert(same_keys(inside[j], opened[j]));
                    assert(opened[j] == o[j]);
                    assert(self.environment.scopes()[j] == inside[j]);
                }
            }
        }
        function.body = Box::new(body);
        self.environment.add_function(function.clone());
        Ok(Instruction::new(InstructionType::Function(function), token))
    }

    /// Parses the whole program: tests, functions and constants. Errors of top-level
    /// items are recorded and parsing goes on with the next item. The program is
    /// returned as `Ok` unless an error was recorded inside an item, and as `Err`
    /// otherwise; either way every token but the last has been taken.
    #[verifier::rlimit(60)]
    pub fn parse(&mut self) -> (r: Result<Vec<Instruction>, Vec<Instruction>>)
        requires
            old(self).wf(),
        ensures
            final(self).keeps(*old(self)),
            final(self).upcoming() is None,
            r is Ok <==> final(self).success,
            forall|i: int| 0 <= i < parsed_program(r).len() ==> #[trigger] top_level(parsed_program(r)[i]),
            program_items(old(self).tokens.tokens@, old(self).at()) matches Some(its) ==> items_shaped(
                parsed_program(r),
                its,
            ),
    {
        let mut program: Vec<Instruction> = Vec::new();
        let ghost toks = self.tokens.tokens@;
        let ghost goal = program_items(toks, self.at());
        loop
            invariant
                self.keeps(*old(self)),
                forall|i: int| 0 <= i < program@.len() ==> #[trigger] top_level(program@[i]),
                toks == self.tokens.tokens@,
                goal == program_items(toks, old(self).at()),
                goal matches Some(its) ==> program@.len() <= its.len() && program_items(toks, self.at()) == Some(
                    its.skip(program@.len() as int),
                ) && items_shaped(program@, its.take(program@.len() as int)),
            ensures
                self.keeps(*old(self)),
                self.upcoming() is None,
                forall|i: int| 0 <= i < program@.len() ==> #[trigger] top_level(program@[i]),
                goal matches Some(its) ==> items_shaped(program@, its),
            decreases self.remaining(),
        {
            let ghost s0 = *self;
            proof {
                lemma_upcoming_at(s0);
            }
            let token = match self.tokens.peek() {
                Some(t) => t,
                None => {
                    proof {
                        if let Some(its) = goal {
                            assert(its.take(its.len() as int) =~= its);
                        }
                    }
                    break;
                },
            };
            let ghost rest = program_items(toks, s0.at());
            let instruction = match &token.token_type {
                TokenType::Identifier { .. } => self.parse_test(),
                TokenType::Keyword { value } => {
                    if is_word(value, "const") {
                        self.parse_statement()
                    } else if is_word(value, "fn") {
                        self.parse_function()
                    } else {
                        self.skip_instruction();
                        let t = token.token_type.clone();
                        Err(ParserError::new(ParserErrorType::GlobalScope(t), token))
                    }
                },
                TokenType::OpenBlock | TokenType::CloseBlock => {
                    self.tokens.next();
                    let t = token.token_type.clone();
                    Err(ParserError::new(ParserErrorType::GlobalScope(t), token))
                },
                _ => {
                    self.skip_instruction();
                    let t = token.token_type.clone();
                    Err(ParserError::new(ParserErrorType::GlobalScope(t), token))
                },
            };
            let ghost before = program@;
            match instruction {
                Ok(instruction) => program.push(instruction),
                Err(e) => self.messages.push(ParserMessage::Error(e)),
            }
            proof {
                if let Some(its) = goal {
                    let k = before.len() as int;
                    let sk = its.skip(k);
                    assert(rest == Some(sk));
                    assert(sk.len() >= 1);
                    assert(sk[0] == its[k]);
                    assert(program@.len() == k + 1);
                    assert(item_shaped(program@[k], its[k]));
                    assert(its.take(k + 1) =~= its.take(k).push(its[k]));
                    assert(its.skip(k + 1) =~= sk.drop_first());
                    assert forall|m: int| 0 <= m < program@.len() implies item_shaped(
                        #[trigger] program@[m],
                        its.take(k + 1)[m],
                    ) by {
                        if m < k {
                            assert(program@[m] == before[m]);
                        }
                    }
                }
            }
        }
        if self.success {
            Ok(program)
        } else {
            Err(program)
        }
    }
}

/// An item of the infix reading of an expression: an operand or an operator.
pub ghost enum InfixItem {
    Operand(Instruction),
    Operator(BinaryOperator),
}

/// The infix reading of an expression: the operands and operators of its binary
/// operations from left to right; any other instruction is one operand.
pub open spec fn infix(i: Instruction) -> Seq<InfixItem>
    decreases i,
{
    match i.instruction_type {
        InstructionType::BinaryOperation(b) => infix(*b.left) + seq![InfixItem::Operator(b.operator)]
            + infix(*b.right),
        _ => seq![InfixItem::Operand(i)],
    }
}

/// The tree for `left op right`, with `op` at the token `t`: where `left` is a binary
/// operation whose operator binds more tightly than `op`, or as tightly, `op` takes
/// the whole of `left`; otherwise `op` takes only the right operand of `left`.
pub open spec fn combined(left: Instruction, op: BinaryOperator, right: Instruction, t: Token) -> Instruction {
    let whole = Instruction {
        instruction_type: InstructionType::BinaryOperation(
            Binary { operator: op, left: Box::new(left), right: Box::new(right) },
        ),
        token: t,
    };
    match left.instruction_type {
        InstructionType::BinaryOperation(b) => if precedence(op) <= precedence(b.operator) {
            whole
        } else {
            Instruction {
                instruction_type: InstructionType::BinaryOperation(
                    Binary {
                        operator: b.operator,
                        left: b.left,
                        right: Box::new(
                            Instruction {
                                instruction_type: InstructionType::BinaryOperation(
                                    Binary { operator: op, left: b.right, right: Box::new(right) },
                                ),
                                token: t,
                            },
                        ),
                    },
                ),
                token: t,
            }
        },
        _ => whole,
    }
}

/// The literal operand that starts at the token `j` of `toks`, if the token there
/// can be taken and is an integer or boolean literal.
pub open spec fn literal_at(toks: Seq<Token>, j: int) -> Option<Instruction> {
    match upcoming_at(toks, j) {
        Some(t) => match t.token_type@ {
            TokenKind::IntegerLiteral(v) => Some(
                Instruction { instruction_type: InstructionType::IntegerLiteral(IntegerLiteral { value: v }), token: t },
            ),
            TokenKind::BooleanLiteral(b) => Some(
                Instruction { instruction_type: InstructionType::BooleanLiteral(BooleanLiteral { value: b }), token: t },
            ),
            _ => None,
        },
        None => None,
    }
}

/// Whether the token at `j` can be taken and ends an operand: it is no type cast and
/// no assignment.
pub open spec fn operand_ends(toks: Seq<Token>, j: int) -> bool {
    match upcoming_at(toks, j) {
        Some(m) => !(m.token_type@ is TypeCast) && !(m.token_type@ is AssignmentOperator),
        None => false,
    }
}

/// The expression that the binary operators and literal operands from the token `j`
/// of `toks` build on `left` (operators are read only where `binary` holds), and how
/// many tokens are taken at its end: each operator with the literal after it joins
/// the tree as `combined` says. `None` where the tokens leave this form.
pub open spec fn infix_chain(toks: Seq<Token>, j: int, left: Instruction, binary: bool) -> Option<(Instruction, int)>
    decreases toks.len() - j,
{
    match upcoming_at(toks, j) {
        None => None,
        Some(n) => if !continues_expression(n) || (n.token_type@ is BinaryOperator && !binary) {
            Some((left, j))
        } else {
            match n.token_type@ {
                TokenKind::BinaryOperator(text) => match (operator_named(text), literal_at(toks, j + 1)) {
                    (Some(op), Some(right)) => if operand_ends(toks, j + 2) {
                        infix_chain(toks, j + 2, combined(left, op, right, n), binary)
                    } else {
                        None
                    },
                    _ => None,
                },
                _ => None,
            }
        },
    }
}

/// Whether the tokens from `a` of `toks` start a declaration: a keyword, a name, a
/// colon, a type and `=` or `in`, all of which can be taken.
pub open spec fn declaration_head(toks: Seq<Token>, a: int) -> bool {
    &&& upcoming_at(toks, a) is Some
    &&& upcoming_at(toks, a + 1) matches Some(n) && n.token_type is Identifier
    &&& upcoming_at(toks, a + 2) matches Some(c) && c.token_type@ is Colon
    &&& upcoming_at(toks, a + 3) matches Some(ty) && ty.token_type is Type
    &&& upcoming_at(toks, a + 4) matches Some(o) && (o.token_type@ is AssignmentOperator
        || o.token_type@ is IterableAssignmentOperator)
}

/// The warning about the declared name `t`, where style warnings are on and the
/// name is not in the case its kind asks for: UPPER_SNAKE_CASE for a constant,
/// snake_case otherwise.
pub open spec fn name_notes(t: Token, constant: bool, args: Args) -> Seq<ParserMessage> {
    let name = t.token_type->Identifier_value;
    if !args.disable_style_warnings && !(if constant {
        crate::variable::upper_snake_case(name@)
    } else {
        crate::variable::snake_case(name@)
    }) {
        seq![
            ParserMessage::Warning(
                ParserWarning {
                    warning_type: if constant {
                        ParserWarningType::ConstantNotUpperCase(name)
                    } else {
                        ParserWarningType::VariableNotSnakeCase(name)
                    },
                    token: t,
                },
            ),
        ]
    } else {
        seq![]
    }
}

/// The warning about the name of the declaration whose head starts at `a` of `toks`.
pub open spec fn naming_notes(toks: Seq<Token>, a: int, args: Args) -> Seq<ParserMessage> {
    name_notes(toks[a + 1], toks[a].token_type@ == TokenKind::Keyword("const"@), args)
}

/// The declaration whose head starts at `a` of `toks`, with the value `body`.
pub open spec fn declaration_of(toks: Seq<Token>, a: int, body: Instruction) -> Instruction {
    let v = declared_variable(toks, a);
    Instruction {
        instruction_type: if toks[a + 4].token_type@ is AssignmentOperator {
            InstructionType::Assignment(
                crate::instruction::Assignment { variable: v, body: Box::new(body), token: toks[a + 1], declaration: true },
            )
        } else {
            InstructionType::IterableAssignment(crate::instruction::IterableAssignment { variable: v, body: Box::new(body) })
        },
        token: toks[a],
    }
}

/// An expression of binary operators and literals ends at a token that can be taken
/// and continues no expression.
proof fn lemma_chain_end(toks: Seq<Token>, j: int, left: Instruction)
    requires
        infix_chain(toks, j, left, true) is Some,
    ensures
        ({
            let (_, e) = infix_chain(toks, j, left, true)->0;
            &&& e >= j
            &&& upcoming_at(toks, e) matches Some(n) && !continues_expression(n)
        }),
    decreases toks.len() - j,
{
    let n = upcoming_at(toks, j)->0;
    if continues_expression(n) {
        match n.token_type@ {
            TokenKind::BinaryOperator(text) => {
                let op = operator_named(text)->0;
                let right = literal_at(toks, j + 1)->0;
                lemma_chain_end(toks, j + 2, combined(left, op, right, n));
            },
            _ => {},
        }
    }
}

/// The expression statement of literals and binary operators that starts at `j` of
/// `toks` and is ended by `;`, and how many tokens are taken after the `;`.
pub open spec fn literal_statement(toks: Seq<Token>, j: int) -> Option<(Instruction, int)> {
    match literal_expression(toks, j, true) {
        Some((i, e)) => match upcoming_at(toks, e) {
            Some(s) => if s.token_type@ is Semicolon && j < e {
                Some((i, e + 1))
            } else {
                None
            },
            None => None,
        },
        None => None,
    }
}

/// What a statement of a block is known to be: exactly an instruction, or a call of
/// a built-in function with the name and string arguments given.
pub ghost enum Shape {
    Exact(Instruction),
    Call(Seq<char>, Seq<Seq<char>>),
}

/// Whether the instruction `i` has the shape `s`.
pub open spec fn shaped(i: Instruction, s: Shape) -> bool {
    match s {
        Shape::Exact(x) => i == x,
        Shape::Call(n, texts) => i.instruction_type matches InstructionType::BuiltIn(b) && b.name@ == n
            && strings_are(b.arguments@, texts),
    }
}

/// Whether the instructions `is` have the shapes `ss`, in order.
pub open spec fn shaped_all(is: Seq<Instruction>, ss: Seq<Shape>) -> bool {
    &&& is.len() == ss.len()
    &&& forall|m: int| 0 <= m < is.len() ==> shaped(#[trigger] is[m], ss[m])
}

/// The call statement `name(texts...);` at `j` of `toks`, and how many tokens are
/// taken after the `;`.
pub open spec fn call_statement(toks: Seq<Token>, j: int) -> Option<(Seq<char>, Seq<Seq<char>>, int)> {
    match string_call(toks, j) {
        Some((n, texts, e)) => match upcoming_at(toks, e) {
            Some(s) => if s.token_type@ is Semicolon {
                Some((n, texts, e + 1))
            } else {
                None
            },
            None => None,
        },
        None => None,
    }
}

/// The shape of the statement at `j` of `toks` (an expression of literals and
/// binary operators, or a call with string arguments, ended by `;`), and how many
/// tokens are taken after it.
pub open spec fn statement_shape(toks: Seq<Token>, j: int) -> Option<(Shape, int)> {
    match literal_statement(toks, j) {
        Some((i, e)) => Some((Shape::Exact(i), e)),
        None => match call_statement(toks, j) {
            Some((n, texts, e)) => Some((Shape::Call(n, texts), e)),
            None => None,
        },
    }
}

/// The statements of those forms from `j` of `toks` up to a closing brace, and how
/// many tokens are taken before the brace.
pub open spec fn literal_statements(toks: Seq<Token>, j: int) -> Option<(Seq<Shape>, int)>
    decreases toks.len() - j,
{
    match upcoming_at(toks, j) {
        None => None,
        Some(t) => if t.token_type@ is CloseBlock {
            Some((seq![], j))
        } else {
            match statement_shape(toks, j) {
                Some((sh, e)) => if j < e <= toks.len() {
                    match literal_statements(toks, e) {
                        Some((ss, e2)) => Some((seq![sh] + ss, e2)),
                        None => None,
                    }
                } else {
                    None
                },
                None => None,
            }
        },
    }
}

/// The block of such statements that starts at `j` of `toks`: its statements, and
/// how many tokens are taken before its closing brace.
pub open spec fn literal_block(toks: Seq<Token>, j: int) -> Option<(Seq<Shape>, int)> {
    match upcoming_at(toks, j) {
        Some(t) => if t.token_type@ is OpenBlock {
            literal_statements(toks, j + 1)
        } else {
            None
        },
        None => None,
    }
}

/// Statements of that form end at a closing brace that can be taken.
proof fn lemma_statements_end(toks: Seq<Token>, j: int)
    requires
        literal_statements(toks, j) is Some,
    ensures
        ({
            let (_, e) = literal_statements(toks, j)->0;
            upcoming_at(toks, e) matches Some(t) && t.token_type@ is CloseBlock
        }),
    decreases toks.len() - j,
{
    let t = upcoming_at(toks, j)->0;
    if !(t.token_type@ is CloseBlock) {
        let (i, e) = statement_shape(toks, j)->0;
        lemma_statements_end(toks, e);
    }
}

/// The text of the string literal at `j` of `toks`, where the token after it can be
/// taken and continues no expression.
pub open spec fn string_operand(toks: Seq<Token>, j: int) -> Option<Seq<char>> {
    match (upcoming_at(toks, j), upcoming_at(toks, j + 1)) {
        (Some(t), Some(n)) => match t.token_type@ {
            TokenKind::StringLiteral(text) => if !continues_expression(n) {
                Some(string_value(text))
            } else {
                None
            },
            _ => None,
        },
        _ => None,
    }
}

/// Whether `i` is the string literal with the text `v` at the token `t`.
pub open spec fn is_string(i: Instruction, v: Seq<char>, t: Token) -> bool {
    &&& i.instruction_type matches InstructionType::StringLiteral(x) && x.value@ == v
    &&& i.token == t
}

/// The texts of the string literals from `j` of `toks`, separated by commas, up to a
/// closing parenthesis, and how many tokens are taken before it.
pub open spec fn string_texts(toks: Seq<Token>, j: int) -> Option<(Seq<Seq<char>>, int)>
    decreases toks.len() - j,
{
    match upcoming_at(toks, j) {
        None => None,
        Some(t) => if t.token_type@ is CloseParen {
            Some((seq![], j))
        } else {
            match (string_operand(toks, j), upcoming_at(toks, j + 1)) {
                (Some(v), Some(n)) => if n.token_type@ is CloseParen {
                    Some((seq![v], j + 1))
                } else if n.token_type@ is Comma {
                    match string_texts(toks, j + 2) {
                        Some((vs, e)) => Some((seq![v] + vs, e)),
                        None => None,
                    }
                } else {
                    None
                },
                _ => None,
            }
        },
    }
}

/// Whether the instructions `args` are string literals with the texts `texts`.
pub open spec fn strings_are(args: Seq<Instruction>, texts: Seq<Seq<char>>) -> bool {
    &&& args.len() == texts.len()
    &&& forall|m: int| 0 <= m < args.len() ==> ((#[trigger] args[m]).instruction_type matches InstructionType::StringLiteral(x) && x.value@ == texts[m])
}

/// The call `name(texts...)` of a built-in function at `j` of `toks` with string
/// literals as its arguments: its name, the texts, and how many tokens are taken at
/// its end, where the token there continues no expression.
pub open spec fn string_call(toks: Seq<Token>, j: int) -> Option<(Seq<char>, Seq<Seq<char>>, int)> {
    match (upcoming_at(toks, j), upcoming_at(toks, j + 1)) {
        (Some(t), Some(o)) => match t.token_type@ {
            TokenKind::BuiltIn(name) => if o.token_type@ is OpenParen {
                match string_texts(toks, j + 2) {
                    Some((texts, e)) => match upcoming_at(toks, e + 1) {
                        Some(n) => if !continues_expression(n) && e > j {
                            Some((name, texts, e + 1))
                        } else {
                            None
                        },
                        None => None,
                    },
                    None => None,
                }
            } else {
                None
            },
            _ => None,
        },
        _ => None,
    }
}

/// The test `name("command") { statements }` at `a` of `toks` whose body is a block
/// of statements of the forms above: its name, its command, the shapes of its
/// statements, and how many tokens are taken after its closing brace.
pub open spec fn test_item(toks: Seq<Token>, a: int) -> Option<(Seq<char>, Seq<char>, Seq<Shape>, int)> {
    match (upcoming_at(toks, a), upcoming_at(toks, a + 1), upcoming_at(toks, a + 2), upcoming_at(toks, a + 3)) {
        (Some(n), Some(o), Some(c), Some(cl)) => match (n.token_type@, c.token_type@) {
            (TokenKind::Identifier(name), TokenKind::StringLiteral(text)) => if o.token_type@ is OpenParen
                && cl.token_type@ is CloseParen {
                match literal_block(toks, a + 4) {
                    Some((st, e)) => Some((name, string_value(text), st, e + 1)),
                    None => None,
                }
            } else {
                None
            },
            _ => None,
        },
        _ => None,
    }
}

/// Whether `i` is the test with the name `name`, the command `command` and a block of
/// statements of the shapes `st`.
pub open spec fn test_shaped(i: Instruction, name: Seq<char>, command: Seq<char>, st: Seq<Shape>) -> bool {
    i.instruction_type matches InstructionType::Test(t) && t.name@ == name && t.command@ == command && (
    t.body.instruction_type matches InstructionType::Block(b) && shaped_all(b.statements@, st))
}

/// The function `fn name(parameters): type { statements }` at `a` of `toks` whose
/// body is a block of statements of the forms above: its name, parameters, return
/// type, the shapes of its statements, and how many tokens are taken after its
/// closing brace.
pub open spec fn function_item(toks: Seq<Token>, a: int) -> Option<(Seq<char>, Seq<Variable>, Type, Seq<Shape>, int)> {
    match (upcoming_at(toks, a), upcoming_at(toks, a + 1), upcoming_at(toks, a + 2)) {
        (Some(_), Some(n), Some(o)) => match n.token_type@ {
            TokenKind::Identifier(name) => if o.token_type@ is OpenParen {
                match parameters_from(toks, a + 3, false) {
                    Some((ps, e)) => match (upcoming_at(toks, e), upcoming_at(toks, e + 1), upcoming_at(toks, e + 2)) {
                        (Some(cl), Some(c), Some(ty)) => if cl.token_type@ is CloseParen && c.token_type@ is Colon
                            && ty.token_type is Type {
                            match literal_block(toks, e + 3) {
                                Some((st, e2)) => Some((name, ps, ty.token_type->Type_value, st, e2 + 1)),
                                None => None,
                            }
                        } else {
                            None
                        },
                        _ => None,
                    },
                    None => None,
                }
            } else {
                None
            },
            _ => None,
        },
        _ => None,
    }
}

/// Whether `i` is the function with the name, parameters, return type and block of
/// statements of the shapes given.
pub open spec fn function_shaped(i: Instruction, name: Seq<char>, ps: Seq<Variable>, ty: Type, st: Seq<Shape>) -> bool {
    i.instruction_type matches InstructionType::Function(f) && f.name@ == name && f.parameters@ == ps
        && f.return_type == ty && (f.body.instruction_type matches InstructionType::Block(b) && shaped_all(
        b.statements@,
        st,
    ))
}

/// Whether the token `t` is the keyword `let` or `const`.
pub open spec fn declares_keyword(t: Token) -> bool {
    t.token_type@ == TokenKind::Keyword("let"@) || t.token_type@ == TokenKind::Keyword("const"@)
}

/// The declaration `let|const name: type = expression` (or with `in`) that starts at
/// `a` of `toks`, whose expression is made of literals and binary operators, and how
/// many tokens are taken at the end of that expression.
pub open spec fn literal_declaration(toks: Seq<Token>, a: int) -> Option<(Instruction, int)> {
    match upcoming_at(toks, a) {
        Some(t) => if declares_keyword(t) && declaration_head(toks, a) {
            match literal_expression(toks, a + 5, true) {
                Some((body, e)) => Some((declaration_of(toks, a, body), e)),
                None => None,
            }
        } else {
            None
        },
        None => None,
    }
}

/// A declaration `let|const name: type = expression` declares the variable `name` of
/// type `type`, a constant exactly when the keyword is `const`, and assigns it the
/// expression; with `in` in place of `=` it declares the name over an iterable.
pub proof fn law_declaration_kind(toks: Seq<Token>, a: int)
    requires
        literal_declaration(toks, a) is Some,
    ensures
        literal_declaration(toks, a) matches Some((i, _)) && i.token == toks[a] && (if toks[a
            + 4].token_type@ is AssignmentOperator {
            i.instruction_type matches InstructionType::Assignment(asg) && asg.declaration
                && asg.variable.name == toks[a + 1].token_type->Identifier_value && asg.variable.var_type
                == toks[a + 3].token_type->Type_value && (asg.variable.constant <==> toks[a].token_type@
                == TokenKind::Keyword("const"@))
        } else {
            i.instruction_type matches InstructionType::IterableAssignment(asg) && asg.variable.name
                == toks[a + 1].token_type->Identifier_value && asg.variable.var_type == toks[a
                + 3].token_type->Type_value
        }),
{
}

/// The statement made of such a declaration and the `;` after it, and how many
/// tokens are taken after it.
pub open spec fn declaration_statement(toks: Seq<Token>, a: int) -> Option<(Instruction, int)> {
    match literal_declaration(toks, a) {
        Some((i, e)) => match upcoming_at(toks, e) {
            Some(s) => if s.token_type@ is Semicolon {
                Some((i, e + 1))
            } else {
                None
            },
            None => None,
        },
        None => None,
    }
}

/// What an item of a program is known to be: exactly an instruction (a constant
/// declaration), a test with its name, command and the shapes of its statements, or
/// a function with its name, parameters, return type and the shapes of its
/// statements.
pub ghost enum Item {
    Exact(Instruction),
    Test(Seq<char>, Seq<char>, Seq<Shape>),
    Function(Seq<char>, Seq<Variable>, Type, Seq<Shape>),
}

/// Whether the instruction `i` is the item `it`.
pub open spec fn item_shaped(i: Instruction, it: Item) -> bool {
    match it {
        Item::Exact(x) => i == x,
        Item::Test(name, command, st) => test_shaped(i, name, command, st),
        Item::Function(name, ps, ty, st) => function_shaped(i, name, ps, ty, st),
    }
}

/// Whether the instructions `is` are the items `its`, in order.
pub open spec fn items_shaped(is: Seq<Instruction>, its: Seq<Item>) -> bool {
    &&& is.len() == its.len()
    &&& forall|m: int| 0 <= m < is.len() ==> item_shaped(#[trigger] is[m], its[m])
}

/// The items of the program that the tokens from `j` of `toks` make, up to the last
/// token, where each item is a constant declaration of the form above ended by `;`, or
/// a test or a function whose body is a block of statements of the forms above.
pub open spec fn program_items(toks: Seq<Token>, j: int) -> Option<Seq<Item>>
    decreases toks.len() - j,
{
    match upcoming_at(toks, j) {
        None => Some(seq![]),
        Some(t) => {
            let first = if t.token_type@ == TokenKind::Keyword("const"@) {
                match declaration_statement(toks, j) {
                    Some((i, e)) => Some((Item::Exact(i), e)),
                    None => None,
                }
            } else if t.token_type@ is Identifier {
                match test_item(toks, j) {
                    Some((name, command, st, e)) => Some((Item::Test(name, command, st), e)),
                    None => None,
                }
            } else if t.token_type@ == TokenKind::Keyword("fn"@) {
                match function_item(toks, j) {
                    Some((name, ps, ty, st, e)) => Some((Item::Function(name, ps, ty, st), e)),
                    None => None,
                }
            } else {
                None
            };
            match first {
                Some((it, e)) => if j < e <= toks.len() {
                    match program_items(toks, e) {
                        Some(p) => Some(seq![it] + p),
                        None => None,
                    }
                } else {
                    None
                },
                None => None,
            }
        },
    }
}

/// The expression of literals and binary operators that starts at the token `j` of
/// `toks`, and how many tokens are taken at its end, where the tokens have that form.
pub open spec fn literal_expression(toks: Seq<Token>, j: int, binary: bool) -> Option<(Instruction, int)> {
    match literal_at(toks, j) {
        Some(lit) => infix_chain(toks, j + 1, lit, binary),
        None => None,
    }
}

/// Whether `op` is `*`, `/` or `%`.
pub open spec fn multiplicative(op: BinaryOperator) -> bool {
    op == BinaryOperator::Multiplication || op == BinaryOperator::Division || op == BinaryOperator::Modulo
}

/// Whether `op` is `+` or `-`.
pub open spec fn additive(op: BinaryOperator) -> bool {
    op == BinaryOperator::Addition || op == BinaryOperator::Subtraction
}

/// How tightly an operator binds, as the language documents it: `*`, `/` and `%`
/// tightest, then `+` and `-`, then the comparisons, then `&&` and `||`.
pub open spec fn binding_level(op: BinaryOperator) -> int {
    if multiplicative(op) {
        3
    } else if additive(op) {
        2
    } else if op == BinaryOperator::And || op == BinaryOperator::Or {
        0
    } else {
        1
    }
}

/// Reading `x op1 y op2 z`: where `op2` binds tighter than `op1`, it takes `y` and `z`
/// as the right operand of `op1` (so `a - b % c` is `a - (b % c)` and `a < b + c` is
/// `a < (b + c)`); otherwise the two group to the left (so `a - b - c` is
/// `(a - b) - c`, `a * b % c` is `(a * b) % c` and `a * b - c` is `(a * b) - c`).
pub proof fn law_operator_grouping(
    x: Instruction,
    y: Instruction,
    z: Instruction,
    op1: BinaryOperator,
    op2: BinaryOperator,
    t1: Token,
    t2: Token,
)
    ensures
        ({
            let left = Instruction {
                instruction_type: InstructionType::BinaryOperation(
                    Binary { operator: op1, left: Box::new(x), right: Box::new(y) },
                ),
                token: t1,
            };
            let r = combined(left, op2, z, t2);
            &&& binding_level(op2) > binding_level(op1) ==> (r.instruction_type matches InstructionType::BinaryOperation(
                b,
            ) && b.operator == op1 && *b.left == x && (b.right.instruction_type matches InstructionType::BinaryOperation(
                c,
            ) && c.operator == op2 && *c.left == y && *c.right == z))
            &&& binding_level(op2) <= binding_level(op1) ==> (r.instruction_type matches InstructionType::BinaryOperation(
                b,
            ) && b.operator == op2 && *b.left == left && *b.right == z)
        }),
{
}

/// Building `left op right` keeps the order of operands and operators: the infix
/// reading of the result is that of `left`, then `op`, then that of `right`.
pub proof fn law_combined_keeps_order(left: Instruction, op: BinaryOperator, right: Instruction, t: Token)
    ensures
        infix(combined(left, op, right, t)) == infix(left) + seq![InfixItem::Operator(op)] + infix(
            right,
        ),
{
    match left.instruction_type {
        InstructionType::BinaryOperation(b) => {
            if precedence(op) > precedence(b.operator) {
                let inner = Instruction {
                    instruction_type: InstructionType::BinaryOperation(
                        Binary { operator: op, left: b.right, right: Box::new(right) },
                    ),
                    token: t,
                };
                assert(infix(combined(left, op, right, t)) =~= infix(*b.left) + seq![
                    InfixItem::Operator(b.operator),
                ] + infix(inner));
                assert(infix(left) =~= infix(*b.left) + seq![InfixItem::Operator(b.operator)]
                    + infix(*b.right));
                assert(infix(combined(left, op, right, t)) =~= infix(left) + seq![
                    InfixItem::Operator(op),
                ] + infix(right));
            }
        },
        _ => {},
    }
}

/// The next token to take of a consistent parser is the one at the count of tokens
/// taken; after the first token, there is one exactly while that count is in range.
proof fn lemma_upcoming_at(p: Parser)
    requires
        p.wf(),
    ensures
        p.upcoming() matches Some(t) ==> 0 <= p.at() < p.tokens.tokens@.len() && t
            == p.tokens.tokens@[p.at()],
        p.tokens.started ==> (p.upcoming() is Some <==> p.at() < p.tokens.tokens@.len()),
        p.at() >= 0,
        p.upcoming() == upcoming_at(p.tokens.tokens@, p.at()),
{
}

/// The token that a parser which has taken `j` of the tokens `toks` takes next, if
/// any: every token but the last can be taken.
pub open spec fn upcoming_at(toks: Seq<Token>, j: int) -> Option<Token> {
    if 0 <= j && j + 1 < toks.len() || 0 < j && j < toks.len() {
        Some(toks[j])
    } else {
        None
    }
}

/// The parameter `name: type` whose name is the token at `j` of `toks`, a constant
/// when `constant` holds.
pub open spec fn parameter_at(toks: Seq<Token>, j: int, constant: bool) -> Variable {
    Variable {
        name: toks[j].token_type->Identifier_value,
        var_type: toks[j + 2].token_type->Type_value,
        declaration_token: toks[j],
        identifier_token: toks[j],
        last_assignment_token: toks[j],
        type_token: toks[j + 2],
        constant,
        read: true,
        assigned: true,
    }
}

/// Whether the tokens at `j + 1` and `j + 2` of `toks` can be taken and are a colon
/// and a type, as after the name of a parameter.
pub open spec fn typed_at(toks: Seq<Token>, j: int) -> bool {
    &&& upcoming_at(toks, j + 1) matches Some(c) && c.token_type@ is Colon
    &&& upcoming_at(toks, j + 2) matches Some(ty) && ty.token_type is Type
}

/// The outcome `o` with `pre` put before the items it found.
pub open spec fn prefixed<T>(pre: Seq<T>, o: Option<(Seq<T>, int)>) -> Option<(Seq<T>, int)> {
    match o {
        Some((ps, e)) => Some((pre + ps, e)),
        None => None,
    }
}

/// The parameters of a function whose list starts after `j` tokens of `toks` (all
/// constants once `const` has been read, as `constant` says), and how many tokens
/// are taken at their end, the closing parenthesis left untaken; `None` where the
/// list does not follow the form `[const] name: type, ...`.
pub open spec fn parameters_from(toks: Seq<Token>, j: int, constant: bool) -> Option<(Seq<Variable>, int)>
    decreases toks.len() - j,
{
    match upcoming_at(toks, j) {
        None => Some((seq![], j)),
        Some(t) => match t.token_type@ {
            TokenKind::CloseParen => Some((seq![], j)),
            TokenKind::Keyword(v) => if v == "const"@ {
                parameters_from(toks, j + 1, true)
            } else {
                None
            },
            TokenKind::Identifier(_) => if typed_at(toks, j) && upcoming_at(toks, j + 3) is Some {
                let p = parameter_at(toks, j, constant);
                match upcoming_at(toks, j + 3)->0.token_type@ {
                    TokenKind::Comma => match parameters_from(toks, j + 4, constant) {
                        Some((ps, e)) => Some((seq![p] + ps, e)),
                        None => None,
                    },
                    TokenKind::CloseParen => Some((seq![p], j + 3)),
                    _ => None,
                }
            } else {
                None
            },
            _ => None,
        },
    }
}

/// Whether `i` may stand at the top level of a program: a test, a function, or the
/// declaration of a constant.
pub open spec fn top_level(i: Instruction) -> bool {
    match i.instruction_type {
        InstructionType::Test(_) => true,
        InstructionType::Function(_) => true,
        InstructionType::Assignment(x) => x.declaration && x.variable.constant,
        InstructionType::IterableAssignment(x) => x.variable.constant,
        _ => false,
    }
}

/// The instructions that a parse returned, whether it succeeded or not.
pub open spec fn parsed_program(r: Result<Vec<Instruction>, Vec<Instruction>>) -> Seq<Instruction> {
    match r {
        Ok(p) => p@,
        Err(p) => p@,
    }
}

/// Whether the token `t` continues an expression: a binary operator, an assignment
/// or a type cast.
pub open spec fn continues_expression(t: Token) -> bool {
    t.token_type is BinaryOperator || t.token_type is AssignmentOperator || t.token_type is TypeCast
}

/// Whether `i` is the declaration whose keyword is the token at `a` of `toks`: an
/// assignment that declares `declared_variable(toks, a)`, or the binding of that
/// variable to the items of an iterable.
pub open spec fn declares(i: Instruction, toks: Seq<Token>, a: int) -> bool {
    &&& i.token == toks[a]
    &&& match i.instruction_type {
        InstructionType::Assignment(x) => x.variable == declared_variable(toks, a) && x.declaration
            && x.token == toks[a + 1] && toks[a + 4].token_type@ is AssignmentOperator,
        InstructionType::IterableAssignment(x) => x.variable == declared_variable(toks, a)
            && toks[a + 4].token_type@ is IterableAssignmentOperator,
        _ => false,
    }
}

/// The variable declared by `let name: type =` (or `const`, or `in` in place of `=`)
/// whose keyword is the token at `a`: its name, type and operator are the tokens at
/// `a + 1`, `a + 3` and `a + 4`; it is a constant after `const`.
pub open spec fn declared_variable(toks: Seq<Token>, a: int) -> Variable {
    Variable {
        name: toks[a + 1].token_type->Identifier_value,
        var_type: toks[a + 3].token_type->Type_value,
        declaration_token: toks[a],
        identifier_token: toks[a + 1],
        last_assignment_token: toks[a + 4],
        type_token: toks[a + 3],
        constant: toks[a].token_type@ == TokenKind::Keyword("const"@),
        read: true,
        assigned: true,
    }
}

/// Two consistent states over the same tokens at the same count of taken tokens have
/// the same cursor.
proof fn lemma_same_at(a: Parser, b: Parser)
    requires
        a.wf(),
        b.wf(),
        a.tokens.tokens@ == b.tokens.tokens@,
    ensures
        a.at() == b.at() ==> a.tokens.index == b.tokens.index && a.tokens.started
            == b.tokens.started && a.upcoming() == b.upcoming() && a.taken() == b.taken(),
{
}

/// What skipping to the next instruction does to a consistent cursor: it stays
/// consistent, does not move back, and moves on unless no token is left or the next
/// one opens a block.
proof fn lemma_skip(tokens: Seq<Token>, index: int, started: bool)
    requires
        0 <= index <= tokens.len(),
        started ==> index < tokens.len(),
        !started ==> index == 0,
    ensures
        ({
            let (i, s) = crate::token::cursor_skip(tokens, index, started);
            let at = if started { index + 1 } else { 0 };
            let at2 = if s { i + 1 } else { 0 };
            &&& 0 <= i <= tokens.len()
            &&& (s ==> i < tokens.len())
            &&& (!s ==> i == 0)
            &&& at2 >= at
            &&& (cursor_peek(tokens, index, started) matches Some(t) && !(t.token_type@ is OpenBlock)
                ==> at2 > at)
        }),
    decreases tokens.len() - index, if started { 0int } else { 1int },
{
    let (i1, s1, t1) = crate::token::cursor_next(tokens, index, started);
    match t1 {
        None => {},
        Some(token) => {
            if crate::token::ends_instruction(token.token_type@) {
            } else if token.token_type@ is OpenBlock {
            } else {
                lemma_skip(tokens, i1, s1);
            }
        },
    }
}

} // verus!
