use vstd::prelude::*;

use crate::types::Type;

verus! {

/// How a source excerpt is underlined when it is shown to the user.
pub enum PrintStyle {
    Warning,
    Error,
    Help(String),
}

/// The kinds of tokens of the language, with their text where they carry some.
/// A float literal carries its source text.
#[derive(Debug, PartialEq)]
pub enum TokenType {
    StringLiteral { value: String },
    RegexLiteral { value: String },
    IntegerLiteral { value: i64 },
    FloatLiteral { value: String },
    BooleanLiteral { value: bool },
    Keyword { value: String },
    BuiltIn { value: String },
    Type { value: Type },
    Colon,
    Comma,
    Identifier { value: String },
    OpenBlock,
    CloseBlock,
    OpenParen,
    CloseParen,
    TypeCast,
    AssignmentOperator,
    IterableAssignmentOperator,
    UnaryOperator { value: String },
    BinaryOperator { value: String },
    Semicolon,
    Nothing,
}

/// The mathematical value of a token type: its text as a sequence of characters.
pub ghost enum TokenKind {
    StringLiteral(Seq<char>),
    RegexLiteral(Seq<char>),
    IntegerLiteral(i64),
    FloatLiteral(Seq<char>),
    BooleanLiteral(bool),
    Keyword(Seq<char>),
    BuiltIn(Seq<char>),
    Type(Type),
    Colon,
    Comma,
    Identifier(Seq<char>),
    OpenBlock,
    CloseBlock,
    OpenParen,
    CloseParen,
    TypeCast,
    AssignmentOperator,
    IterableAssignmentOperator,
    UnaryOperator(Seq<char>),
    BinaryOperator(Seq<char>),
    Semicolon,
    Nothing,
}

impl View for TokenType {
    type V = TokenKind;

    open spec fn view(&self) -> TokenKind {
        match self {
            TokenType::StringLiteral { value } => TokenKind::StringLiteral(value@),
            TokenType::RegexLiteral { value } => TokenKind::RegexLiteral(value@),
            TokenType::IntegerLiteral { value } => TokenKind::IntegerLiteral(*value),
            TokenType::FloatLiteral { value } => TokenKind::FloatLiteral(value@),
            TokenType::BooleanLiteral { value } => TokenKind::BooleanLiteral(*value),
            TokenType::Keyword { value } => TokenKind::Keyword(value@),
            TokenType::BuiltIn { value } => TokenKind::BuiltIn(value@),
            TokenType::Type { value } => TokenKind::Type(*value),
            TokenType::Colon => TokenKind::Colon,
            TokenType::Comma => TokenKind::Comma,
            TokenType::Identifier { value } => TokenKind::Identifier(value@),
            TokenType::OpenBlock => TokenKind::OpenBlock,
            TokenType::CloseBlock => TokenKind::CloseBlock,
            TokenType::OpenParen => TokenKind::OpenParen,
            TokenType::CloseParen => TokenKind::CloseParen,
            TokenType::TypeCast => TokenKind::TypeCast,
            TokenType::AssignmentOperator => TokenKind::AssignmentOperator,
            TokenType::IterableAssignmentOperator => TokenKind::IterableAssignmentOperator,
            TokenType::UnaryOperator { value } => TokenKind::UnaryOperator(value@),
            TokenType::BinaryOperator { value } => TokenKind::BinaryOperator(value@),
            TokenType::Semicolon => TokenKind::Semicolon,
            TokenType::Nothing => TokenKind::Nothing,
        }
    }
}

impl Clone for TokenType {
    fn clone(&self) -> (r: TokenType)
        ensures
            r == *self,
    {
        match self {
            TokenType::StringLiteral { value } => TokenType::StringLiteral { value: value.clone() },
            TokenType::RegexLiteral { value } => TokenType::RegexLiteral { value: value.clone() },
            TokenType::IntegerLiteral { value } => TokenType::IntegerLiteral { value: *value },
            TokenType::FloatLiteral { value } => TokenType::FloatLiteral { value: value.clone() },
            TokenType::BooleanLiteral { value } => TokenType::BooleanLiteral { value: *value },
            TokenType::Keyword { value } => TokenType::Keyword { value: value.clone() },
            TokenType::BuiltIn { value } => TokenType::BuiltIn { value: value.clone() },
            TokenType::Type { value } => TokenType::Type { value: value.clone() },
            TokenType::Colon => TokenType::Colon,
            TokenType::Comma => TokenType::Comma,
            TokenType::Identifier { value } => TokenType::Identifier { value: value.clone() },
            TokenType::OpenBlock => TokenType::OpenBlock,
            TokenType::CloseBlock => TokenType::CloseBlock,
            TokenType::OpenParen => TokenType::OpenParen,
            TokenType::CloseParen => TokenType::CloseParen,
            TokenType::TypeCast => TokenType::TypeCast,
            TokenType::AssignmentOperator => TokenType::AssignmentOperator,
            TokenType::IterableAssignmentOperator => TokenType::IterableAssignmentOperator,
            TokenType::UnaryOperator { value } => TokenType::UnaryOperator { value: value.clone() },
            TokenType::BinaryOperator { value } => TokenType::BinaryOperator {
                value: value.clone(),
            },
            TokenType::Semicolon => TokenType::Semicolon,
            TokenType::Nothing => TokenType::Nothing,
        }
    }
}

impl TokenType {
    /// Whether this token type equals `other`, text included.
    pub fn same(&self, other: &TokenType) -> (r: bool)
        ensures
            r == (self@ == other@),
    {
        match self {
            TokenType::StringLiteral { value: a } => match other {
                TokenType::StringLiteral { value: b } => a.eq(b),
                _ => false,
            },
            TokenType::RegexLiteral { value: a } => match other {
                TokenType::RegexLiteral { value: b } => a.eq(b),
                _ => false,
            },
            TokenType::FloatLiteral { value: a } => match other {
                TokenType::FloatLiteral { value: b } => a.eq(b),
                _ => false,
            },
            TokenType::Keyword { value: a } => match other {
                TokenType::Keyword { value: b } => a.eq(b),
                _ => false,
            },
            TokenType::BuiltIn { value: a } => match other {
                TokenType::BuiltIn { value: b } => a.eq(b),
                _ => false,
            },
            TokenType::Identifier { value: a } => match other {
                TokenType::Identifier { value: b } => a.eq(b),
                _ => false,
            },
            TokenType::UnaryOperator { value: a } => match other {
                TokenType::UnaryOperator { value: b } => a.eq(b),
                _ => false,
            },
            TokenType::BinaryOperator { value: a } => match other {
                TokenType::BinaryOperator { value: b } => a.eq(b),
                _ => false,
            },
            TokenType::IntegerLiteral { value: a } => match other {
                TokenType::IntegerLiteral { value: b } => *a == *b,
                _ => false,
            },
            TokenType::BooleanLiteral { value: a } => match other {
                TokenType::BooleanLiteral { value: b } => *a == *b,
                _ => false,
            },
            TokenType::Type { value: a } => match other {
                TokenType::Type { value: b } => a.same(b),
                _ => false,
            },
            TokenType::Colon => matches!(other, TokenType::Colon),
            TokenType::Comma => matches!(other, TokenType::Comma),
            TokenType::OpenBlock => matches!(other, TokenType::OpenBlock),
            TokenType::CloseBlock => matches!(other, TokenType::CloseBlock),
            TokenType::OpenParen => matches!(other, TokenType::OpenParen),
            TokenType::CloseParen => matches!(other, TokenType::CloseParen),
            TokenType::TypeCast => matches!(other, TokenType::TypeCast),
            TokenType::AssignmentOperator => matches!(other, TokenType::AssignmentOperator),
            TokenType::IterableAssignmentOperator => matches!(other, TokenType::IterableAssignmentOperator),
            TokenType::Semicolon => matches!(other, TokenType::Semicolon),
            TokenType::Nothing => matches!(other, TokenType::Nothing),
        }
    }
}

/// A token with where it stands in the source, the text of its line, and the token
/// before it (whose own `last_token` is empty).
#[derive(Debug, PartialEq)]
pub struct Token {
    pub token_type: TokenType,
    pub file: String,
    pub row: u32,
    pub column: u32,
    pub line: String,
    pub last_token: Option<Box<Token>>,
}

/// The mathematical value of a token.
pub ghost struct TokenView {
    pub kind: TokenKind,
    pub file: Seq<char>,
    pub row: u32,
    pub column: u32,
    pub line: Seq<char>,
    pub last: Option<(TokenKind, Seq<char>, u32, u32, Seq<char>)>,
}

impl View for Token {
    type V = TokenView;

    open spec fn view(&self) -> TokenView {
        TokenView {
            kind: self.token_type@,
            file: self.file@,
            row: self.row,
            column: self.column,
            line: self.line@,
            last: match self.last_token {
                Some(t) => Some((t.token_type@, t.file@, t.row, t.column, t.line@)),
                None => None,
            },
        }
    }
}

impl Clone for Token {
    fn clone(&self) -> (r: Token)
        ensures
            r == *self,
        decreases self,
    {
        Token {
            token_type: self.token_type.clone(),
            file: self.file.clone(),
            row: self.row,
            column: self.column,
            line: self.line.clone(),
            last_token: match &self.last_token {
                Some(t) => Some(Box::new((**t).clone())),
                None => None,
            },
        }
    }
}

/// Number of characters in the decimal writing of `v`, sign included.
pub open spec fn decimal_width(v: int) -> nat {
    if v < 0 {
        1 + digit_count(-v)
    } else {
        digit_count(v)
    }
}

/// Number of decimal digits of a natural number.
pub open spec fn digit_count(v: int) -> nat
    decreases v,
{
    if v < 10 {
        1
    } else {
        1 + digit_count(v / 10)
    }
}

/// Number of characters in the name of a type, as the language writes it.
pub open spec fn type_name_width(t: Type) -> nat
    decreases t,
{
    match t {
        Type::String => 6,
        Type::Regex => 5,
        Type::Int => 3,
        Type::Float => 5,
        Type::Bool => 4,
        Type::Nothing => 4,
        Type::Iterable(inner) => 6 + type_name_width(*inner),
        Type::Any => 1,
    }
}

/// The number of bytes of the UTF-8 encoding of a text.
pub open spec fn utf8_width(s: Seq<char>) -> nat {
    vstd::utf8::encode_utf8(s).len()
}

/// Width of a token in the source, counted as the original text's byte length.
pub open spec fn token_width(k: TokenKind) -> nat {
    match k {
        TokenKind::StringLiteral(v) => utf8_width(v),
        TokenKind::RegexLiteral(v) => utf8_width(v),
        TokenKind::IntegerLiteral(v) => decimal_width(v as int),
        TokenKind::FloatLiteral(v) => utf8_width(v),
        TokenKind::BooleanLiteral(v) => if v { 4 } else { 5 },
        TokenKind::Keyword(v) => utf8_width(v),
        TokenKind::BuiltIn(v) => utf8_width(v),
        TokenKind::Type(t) => type_name_width(t),
        TokenKind::Colon => 1,
        TokenKind::Comma => 1,
        TokenKind::Identifier(v) => utf8_width(v),
        TokenKind::OpenBlock => 1,
        TokenKind::CloseBlock => 1,
        TokenKind::OpenParen => 1,
        TokenKind::CloseParen => 1,
        TokenKind::TypeCast => 2,
        TokenKind::AssignmentOperator => 1,
        TokenKind::IterableAssignmentOperator => 2,
        TokenKind::UnaryOperator(v) => utf8_width(v),
        TokenKind::BinaryOperator(v) => utf8_width(v),
        TokenKind::Semicolon => 1,
        TokenKind::Nothing => 0,
    }
}

/// Ten to the power `k`.
pub open spec fn pow10(k: nat) -> int
    decreases k,
{
    if k == 0 {
        1
    } else {
        10 * pow10((k - 1) as nat)
    }
}

proof fn lemma_decimal_width_bound(v: int, k: nat)
    requires
        0 <= v < pow10(k),
        k >= 1,
    ensures
        digit_count(v) <= k,
    decreases k,
{
    if v >= 10 {
        assert(k >= 2) by {
            if k == 1 {
                assert(pow10(1) == 10) by {
                    reveal_with_fuel(pow10, 2);
                }
            }
        }
        assert(v / 10 < pow10((k - 1) as nat));
        lemma_decimal_width_bound(v / 10, (k - 1) as nat);
    }
}

fn decimal_width_of(v: i64) -> (r: usize)
    ensures
        r == decimal_width(v as int),
{
    let mut n: u64 = if v < 0 {
        if v == i64::MIN {
            9223372036854775808u64
        } else {
            (-v) as u64
        }
    } else {
        v as u64
    };
    let ghost m: int = if v < 0 { -(v as int) } else { v as int };
    proof {
        assert(pow10(20) == 100000000000000000000int) by {
            reveal_with_fuel(pow10, 21);
        }
        lemma_decimal_width_bound(m, 20);
    }
    let mut width: usize = 1;
    while n >= 10
        invariant
            width + digit_count(n as int) == 1 + digit_count(m),
            digit_count(m) <= 20,
            width >= 1,
        decreases n,
    {
        assert(digit_count(n as int) == 1 + digit_count(n as int / 10));
        n = n / 10;
        width = width + 1;
    }
    if v < 0 {
        width + 1
    } else {
        width
    }
}

fn type_name_width_of(t: &Type) -> (r: usize)
    requires
        type_name_width(*t) < usize::MAX,
    ensures
        r == type_name_width(*t),
    decreases t,
{
    match t {
        Type::String => 6,
        Type::Regex => 5,
        Type::Int => 3,
        Type::Float => 5,
        Type::Bool => 4,
        Type::Nothing => 4,
        Type::Iterable(inner) => 6 + type_name_width_of(inner),
        Type::Any => 1,
    }
}

impl Token {
    /// A copy of this token without the token before it.
    pub fn detached(&self) -> (r: Token)
        ensures
            r.token_type@ == self.token_type@,
            r.file@ == self.file@,
            r.row == self.row,
            r.column == self.column,
            r.line@ == self.line@,
            r.last_token is None,
    {
        Token {
            token_type: self.token_type.clone(),
            file: self.file.clone(),
            row: self.row,
            column: self.column,
            line: self.line.clone(),
            last_token: None,
        }
    }

    /// The empty token, standing for no place in the source.
    pub fn none() -> (r: Token)
        ensures
            r.token_type@ == TokenKind::Nothing,
            r.file@ == Seq::<char>::empty(),
            r.row == 0,
            r.column == 0,
            r.line@ == Seq::<char>::empty(),
            r.last_token is None,
    {
        Token {
            token_type: TokenType::Nothing,
            file: String::new(),
            row: 0,
            column: 0,
            line: String::new(),
            last_token: None,
        }
    }

    /// Whether this token may continue an expression as an infix operator.
    pub fn binary_operator(&self) -> (r: bool)
        ensures
            r == (self.token_type is BinaryOperator || self.token_type is AssignmentOperator
                || self.token_type is TypeCast),
    {
        match &self.token_type {
            TokenType::BinaryOperator { .. } | TokenType::AssignmentOperator
            | TokenType::TypeCast => true,
            _ => false,
        }
    }

    /// The width of this token in the source.
    pub fn len(&self) -> (r: usize)
        requires
            token_width(self.token_type@) < usize::MAX,
        ensures
            r == token_width(self.token_type@),
    {
        match &self.token_type {
            TokenType::StringLiteral { value } => value.as_str().len(),
            TokenType::RegexLiteral { value } => value.as_str().len(),
            TokenType::IntegerLiteral { value } => decimal_width_of(*value),
            TokenType::FloatLiteral { value } => value.as_str().len(),
            TokenType::BooleanLiteral { value } => if *value {
                4
            } else {
                5
            },
            TokenType::Keyword { value } => value.as_str().len(),
            TokenType::BuiltIn { value } => value.as_str().len(),
            TokenType::Type { value } => type_name_width_of(value),
            TokenType::Colon => 1,
            TokenType::Comma => 1,
            TokenType::Identifier { value } => value.as_str().len(),
            TokenType::OpenBlock => 1,
            TokenType::CloseBlock => 1,
            TokenType::OpenParen => 1,
            TokenType::CloseParen => 1,
            TokenType::TypeCast => 2,
            TokenType::AssignmentOperator => 1,
            TokenType::IterableAssignmentOperator => 2,
            TokenType::UnaryOperator { value } => value.as_str().len(),
            TokenType::BinaryOperator { value } => value.as_str().len(),
            TokenType::Semicolon => 1,
            TokenType::Nothing => 0,
        }
    }
}

/// A sequence of tokens with a cursor. Before the first call of `next` the cursor
/// has not started; afterwards it stands on the token at `index`.
#[derive(Debug)]
pub struct TokenCollection {
    pub tokens: Vec<Token>,
    pub index: usize,
    pub started: bool,
}

/// The token that the cursor `(index, started)` stands on, if any.
pub open spec fn cursor_current(tokens: Seq<Token>, index: int, started: bool) -> Option<Token> {
    if index >= tokens.len() {
        None
    } else if started {
        Some(tokens[index])
    } else {
        None
    }
}

/// The token after the cursor `(index, started)`, if any.
pub open spec fn cursor_peek(tokens: Seq<Token>, index: int, started: bool) -> Option<Token> {
    if index + 1 >= tokens.len() {
        None
    } else if started {
        Some(tokens[index + 1])
    } else {
        Some(tokens[index])
    }
}

/// The cursor after one call of `next`, and what that call returns.
pub open spec fn cursor_next(tokens: Seq<Token>, index: int, started: bool) -> (
    int,
    bool,
    Option<Token>,
) {
    if index + 1 >= tokens.len() {
        (index, started, None)
    } else if !started {
        (index, true, cursor_current(tokens, index, true))
    } else {
        (index + 1, true, cursor_current(tokens, index + 1, true))
    }
}

/// Whether a token ends an instruction when skipping to the next one.
pub open spec fn ends_instruction(k: TokenKind) -> bool {
    k is Semicolon || k is CloseBlock
}

/// The cursor after skipping to the next instruction: tokens are taken until one
/// that ends an instruction has been taken, or until one that opens a block is the
/// next to take, or until no token is left.
pub open spec fn cursor_skip(tokens: Seq<Token>, index: int, started: bool) -> (int, bool)
    decreases tokens.len() - index, if started { 0int } else { 1int },
{
    let (i, s, t) = cursor_next(tokens, index, started);
    match t {
        None => (i, s),
        Some(token) => if ends_instruction(token.token_type@) {
            (i, s)
        } else if token.token_type@ is OpenBlock {
            (if i > 0 { i - 1 } else { i }, s)
        } else if 0 <= index {
            cursor_skip(tokens, i, s)
        } else {
            (i, s)
        },
    }
}

impl TokenCollection {
    /// The collection's cursor is within bounds.
    pub open spec fn wf(&self) -> bool {
        &&& self.index <= self.tokens@.len()
        &&& self.tokens@.len() < usize::MAX
    }

    /// A collection whose cursor has not started.
    pub fn new(tokens: Vec<Token>) -> (r: TokenCollection)
        ensures
            r.tokens@ == tokens@,
            r.index == 0,
            !r.started,
    {
        TokenCollection { tokens, index: 0, started: false }
    }

    /// The token the cursor stands on.
    pub fn current(&self) -> (r: Option<Token>)
        ensures
            r == cursor_current(self.tokens@, self.index as int, self.started),
    {
        if self.index >= self.tokens.len() {
            None
        } else if self.started {
            Some(self.tokens[self.index].clone())
        } else {
            None
        }
    }

    /// The token after the one the cursor stands on.
    pub fn peek(&self) -> (r: Option<Token>)
        requires
            self.wf(),
        ensures
            r == cursor_peek(self.tokens@, self.index as int, self.started),
    {
        if (self.index + 1) >= self.tokens.len() {
            None
        } else if self.started {
            Some(self.tokens[self.index + 1].clone())
        } else {
            Some(self.tokens[self.index].clone())
        }
    }

    /// Moves the cursor one token on and returns the token it then stands on.
    pub fn next(&mut self) -> (r: Option<Token>)
        requires
            old(self).wf(),
        ensures
            final(self).wf(),
            final(self).tokens@ == old(self).tokens@,
            ({
                let (i, s, t) = cursor_next(old(self).tokens@, old(self).index as int, old(self).started);
                &&& final(self).index == i
                &&& final(self).started == s
                &&& r == t
            }),
    {
        if (self.index + 1) >= self.tokens.len() {
            return None;
        }
        if !self.started {
            self.started = true;
        } else {
            self.index += 1;
        }
        let result = self.current();
        result
    }

    /// Moves the cursor one token back, if it is not on the first.
    pub fn back(&mut self)
        ensures
            final(self).tokens@ == old(self).tokens@,
            final(self).started == old(self).started,
            final(self).index == if old(self).index > 0 {
                old(self).index - 1
            } else {
                0
            },
    {
        if self.index > 0 {
            self.index -= 1;
        }
    }

    /// Skips the tokens of the instruction the cursor is in.
    pub fn advance_to_next_instruction(&mut self)
        requires
            old(self).wf(),
        ensures
            final(self).wf(),
            final(self).tokens@ == old(self).tokens@,
            (final(self).index as int, final(self).started) == cursor_skip(
                old(self).tokens@,
                old(self).index as int,
                old(self).started,
            ),
    {
        loop
            invariant
                self.wf(),
                self.tokens@ == old(self).tokens@,
                cursor_skip(self.tokens@, self.index as int, self.started) == cursor_skip(
                    old(self).tokens@,
                    old(self).index as int,
                    old(self).started,
                ),
            decreases self.tokens@.len() - self.index, if self.started { 0int } else { 1int },
        {
            match self.next() {
                Some(token) => {
                    if matches!(token.token_type, TokenType::Semicolon | TokenType::CloseBlock) {
                        return;
                    } else if matches!(token.token_type, TokenType::OpenBlock) {
                        self.back();
                        return;
                    }
                },
                None => {
                    return;
                },
            }
        }
    }
}

/// Moving back undoes moving on: from a started cursor with a token after it,
/// `next` goes to the next token and `back` returns to the token it left.
pub proof fn law_back_undoes_next(tokens: Seq<Token>, index: int)
    requires
        0 <= index,
        index + 1 < tokens.len(),
    ensures
        ({
            let (i, s, t) = cursor_next(tokens, index, true);
            &&& i == index + 1
            &&& s
            &&& t == Some(tokens[index + 1])
            &&& (if i > 0 { i - 1 } else { 0 }) == index
        }),
{
}

} // verus!
