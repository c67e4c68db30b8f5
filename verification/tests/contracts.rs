use test_script::cli::Args;
use test_script::error::{LexerError, ParserError, ParserErrorType, ParserMessage, ParserWarning, ParserWarningType};
use test_script::instruction::{Instruction, InstructionType};
use test_script::interpreter::{Action, Event, Interpreter};
use test_script::lexer::Lexer;
use test_script::parser::Parser;
use test_script::report::Style;
use test_script::token::{Token, TokenType};
use test_script::type_checker::TypeChecker;
use test_script::types::Type;
use test_script::values::FloatArithmetic;

struct NoFloats;

impl FloatArithmetic for NoFloats {
    fn add(&self, a: &String, _b: &String) -> String { a.clone() }
    fn subtract(&self, a: &String, _b: &String) -> String { a.clone() }
    fn multiply(&self, a: &String, _b: &String) -> String { a.clone() }
    fn divide(&self, a: &String, _b: &String) -> String { a.clone() }
    fn remainder(&self, a: &String, _b: &String) -> String { a.clone() }
    fn negate(&self, a: &String) -> String { a.clone() }
    fn equal(&self, a: &String, b: &String) -> bool { a == b }
    fn less(&self, _a: &String, _b: &String) -> bool { false }
    fn is_zero(&self, _a: &String) -> bool { false }
    fn to_int(&self, _a: &String) -> i64 { 0 }
    fn from_int(&self, i: i64) -> String { i.to_string() }
    fn parse(&self, s: &String) -> Option<String> { Some(s.clone()) }
    fn display(&self, a: &String) -> String { a.clone() }
}

fn args() -> Args {
    Args {
        file: "c.tesc".to_string(),
        disable_warnings: false,
        disable_style_warnings: false,
        disable_magic_warnings: true,
        max_size: 3,
        debug: false,
    }
}

fn parsed(source: &str) -> (Result<Vec<Instruction>, Vec<Instruction>>, Vec<ParserMessage>) {
    let mut lexer = Lexer::new(source, args());
    let tokens = lexer.try_tokenize().expect("lexes");
    let mut parser = Parser::new(tokens, args());
    let program = parser.parse();
    (program, parser.messages)
}

fn program(source: &str) -> Vec<Instruction> {
    let (program, messages) = parsed(source);
    program.unwrap_or_else(|_| panic!("parse errors: {:?}", messages))
}

fn check(source: &str) -> Result<(), Vec<ParserMessage>> {
    let mut checker = TypeChecker::new(program(source), args());
    checker.check()
}

fn errors(messages: &[ParserMessage]) -> Vec<&ParserErrorType> {
    messages
        .iter()
        .filter_map(|m| match m {
            ParserMessage::Error(e) => Some(&e.error_type),
            ParserMessage::Warning(_) => None,
        })
        .collect()
}

fn texts(pieces: &[test_script::report::Piece]) -> Vec<(String, Style)> {
    pieces.iter().map(|p| (p.text.clone(), p.style)).collect()
}

fn token(token_type: TokenType, row: u32, column: u32, line: &str) -> Token {
    let mut t = Token::none();
    t.token_type = token_type;
    t.file = "c.tesc".to_string();
    t.row = row;
    t.column = column;
    t.line = line.to_string();
    t
}

#[test]
fn a_declaration_declares_its_variable() {
    let program = program("const LIMIT: int = 3;");
    match &program[0].instruction_type {
        InstructionType::Assignment(a) => {
            assert!(a.declaration);
            assert!(a.variable.constant);
            assert_eq!(a.variable.name, "LIMIT");
            assert_eq!(a.variable.var_type, Type::Int);
            assert_eq!(a.token.token_type, TokenType::Identifier { value: "LIMIT".to_string() });
        }
        other => panic!("unexpected {:?}", other),
    }
}

#[test]
fn a_for_loop_binds_its_variable() {
    let program = program("t(\"./a\") { for d: string in `[1-2]` { input(d); }; }");
    let body = match &program[0].instruction_type {
        InstructionType::Test(t) => &t.body,
        other => panic!("unexpected {:?}", other),
    };
    let first = match &body.instruction_type {
        InstructionType::Block(b) => &b.statements[0],
        other => panic!("unexpected {:?}", other),
    };
    match &first.instruction_type {
        InstructionType::For(f) => {
            assert_eq!(f.assignment.variable.name, "d");
            assert_eq!(f.assignment.variable.var_type, Type::String);
            assert!(!f.assignment.variable.constant);
        }
        other => panic!("unexpected {:?}", other),
    }
}

#[test]
fn the_top_level_holds_tests_functions_and_constants() {
    let program = program("const A: int = 1;\nfn f(): int { 2; }\nt(\"./a\") { input(\"x\"); }");
    assert_eq!(program.len(), 3);
    assert!(matches!(program[0].instruction_type, InstructionType::Assignment(_)));
    assert!(matches!(program[1].instruction_type, InstructionType::Function(_)));
    assert!(matches!(program[2].instruction_type, InstructionType::Test(_)));
}

#[test]
fn a_test_keeps_its_command() {
    let program = program("greet(\"./greet --loud\") { input(\"x\"); }");
    match &program[0].instruction_type {
        InstructionType::Test(t) => {
            assert_eq!(t.name, "greet");
            assert_eq!(t.command, "./greet --loud");
        }
        other => panic!("unexpected {:?}", other),
    }
}

#[test]
fn a_well_typed_program_has_no_messages() {
    assert_eq!(check("const A: int = 1 + 2;\nt(\"./a\") { input(\"x\"); }"), Ok(()));
}

#[test]
fn a_value_of_the_wrong_type_is_a_mismatch() {
    let result = check("const A: int = \"text\";");
    let messages = result.expect_err("a mismatch");
    assert_eq!(
        errors(&messages),
        vec![&ParserErrorType::MismatchedType { expected: vec![Type::Int], actual: Type::String }]
    );
}

#[test]
fn a_call_with_too_few_arguments_is_counted() {
    let result = check("fn twice(s: string): string { s + s; }\nt(\"./a\") { output(twice()); }");
    let messages = result.expect_err("a count error");
    assert_eq!(
        errors(&messages),
        vec![&ParserErrorType::MismatchedNumberOfArguments { expected: 1, actual: 0 }]
    );
}

#[test]
fn print_wants_strings() {
    let result = check("t(\"./a\") { print(1); }");
    let messages = result.expect_err("a mismatch");
    assert_eq!(
        errors(&messages),
        vec![&ParserErrorType::MismatchedType { expected: vec![Type::String], actual: Type::Int }]
    );
}

#[test]
fn a_bad_cast_is_reported() {
    let result = check("const A: regex = 1 as regex;");
    let messages = result.expect_err("a cast error");
    assert!(errors(&messages).contains(&&ParserErrorType::TypeCast { from: Type::Int, to: Type::Regex }));
}

#[test]
fn events_follow_the_tests_and_constants() {
    let mut interpreter = Interpreter::new(
        program("const A: int = 1;\nfn f(): int { 2; }\none(\"./one\") { input(\"a\"); }\ntwo(\"./two\") { output(\"b\"); }"),
        args(),
    );
    let events = interpreter.interpret(&NoFloats);
    assert_eq!(events.len(), 3);
    assert_eq!(events[0], Event::Console(vec![]));
    match (&events[1], &events[2]) {
        (
            Event::Test { name: n1, command: c1, actions: a1, error: e1 },
            Event::Test { name: n2, command: c2, actions: a2, error: e2 },
        ) => {
            assert_eq!((n1.as_str(), c1.as_str()), ("one", "./one"));
            assert_eq!((n2.as_str(), c2.as_str()), ("two", "./two"));
            assert_eq!(a1, &vec![Action::Send("a".to_string())]);
            assert_eq!(a2, &vec![Action::Expect("b".to_string())]);
            assert_eq!((e1, e2), (&None, &None));
        }
        other => panic!("unexpected {:?}", other),
    }
}

#[test]
fn print_shows_evaluated_expressions() {
    let mut interpreter = Interpreter::new(
        program("t(\"./a\") { print((1 + 2 * 3) as string, \"x\" + \"y\"); println(true as string); }"),
        args(),
    );
    let events = interpreter.interpret(&NoFloats);
    match &events[0] {
        Event::Test { actions, error, .. } => {
            assert_eq!(error, &None);
            assert_eq!(
                actions,
                &vec![Action::Print("7 xy ".to_string()), Action::Println("true ".to_string())]
            );
        }
        other => panic!("unexpected {:?}", other),
    }
}

#[test]
fn instructions_are_written_back() {
    let program = program("const A: int = -(1 + 2) * 3;");
    assert_eq!(program[0].text(), "const A: int = (-((1 + 2)) * 3)");
}

#[test]
fn error_titles_of_every_kind() {
    assert_eq!(
        ParserErrorType::MismatchedNumberOfArguments { expected: 2, actual: 1 }.text(),
        "Expected 2 arguments, found 1"
    );
    assert_eq!(
        ParserErrorType::MismatchedType { expected: vec![Type::Int, Type::Float], actual: Type::Bool }.text(),
        "Type error: Expected one of `int`, `float`, found `bool`"
    );
    assert_eq!(
        ParserErrorType::MismatchedTokenType { expected: TokenType::Semicolon, actual: TokenType::Comma }.text(),
        "Expected ``;``, found `,`"
    );
    assert_eq!(
        ParserErrorType::UnexpectedToken(TokenType::Identifier { value: "x".to_string() }).text(),
        "Unexpected token: identifier `x`"
    );
}

#[test]
fn a_warning_report_in_pieces() {
    let t = token(TokenType::IntegerLiteral { value: 42 }, 3, 9, "let x = 42;");
    let w = ParserWarning::new(ParserWarningType::MagicLiteral(Type::Int), t);
    assert_eq!(
        texts(&w.report()),
        vec![
            ("warning: ".to_string(), Style::Warning),
            ("Magic int detected              \nIn: c.tesc:3:9      \n".to_string(), Style::Plain),
            ("3   ".to_string(), Style::LineNumber),
            ("let x = 42;      \n            ".to_string(), Style::Plain),
            ("^^".to_string(), Style::Warning),
            (" ".to_string(), Style::Plain),
            ("consider using a named constant".to_string(), Style::Warning),
            ("             \n".to_string(), Style::Plain),
        ]
    );
}

#[test]
fn a_missing_annotation_report_inserts_one() {
    let t = token(TokenType::Identifier { value: "x".to_string() }, 1, 5, "let x = 1;");
    let e = ParserError::new(ParserErrorType::VaribleTypeAnnotation, t);
    let pieces = texts(&e.report());
    assert_eq!(pieces[0], ("error: ".to_string(), Style::Error));
    assert_eq!(pieces[3], ("let x: T = 1;      \n         ".to_string(), Style::Plain));
    assert_eq!(pieces[4], ("+++ ".to_string(), Style::Insert));
    assert_eq!(pieces[5], ("add a type annotation here".to_string(), Style::Insert));
}

#[test]
fn a_wrong_extension_is_underlined() {
    let e = LexerError::FileExtensionNotTesc("dir/prog.txt".to_string());
    let pieces = texts(&e.report());
    assert_eq!(pieces[2], ("^^^".to_string(), Style::Warning));
    assert!(pieces[1].0.starts_with("File extension must be `tesc`: `dir/prog.txt`\n"));
}

#[test]
fn a_block_gives_its_last_value() {
    let mut interpreter = Interpreter::new(
        program("t(\"./a\") { let s: string = { \"x\"; \"y\"; }; output(s); }"),
        args(),
    );
    let events = interpreter.interpret(&NoFloats);
    match &events[0] {
        Event::Test { actions, error, .. } => {
            assert_eq!(error, &None);
            assert_eq!(actions, &vec![Action::Expect("y".to_string())]);
        }
        other => panic!("unexpected {:?}", other),
    }
}

#[test]
fn parameters_after_const_are_constants() {
    let items = program("fn add(const a: int, b: int): int {\n    a + b;\n}");
    match &items[0].instruction_type {
        InstructionType::Function(f) => {
            assert_eq!(f.parameters.len(), 2);
            assert_eq!(f.parameters[0].name, "a");
            assert_eq!(f.parameters[1].name, "b");
            assert!(f.parameters[0].constant);
            assert!(f.parameters[1].constant);
            assert_eq!(f.parameters[1].var_type, Type::Int);
        }
        other => panic!("not a function: {:?}", other),
    }
}

#[test]
fn a_function_without_parameters() {
    let items = program("fn one(): int {\n    1;\n}");
    match &items[0].instruction_type {
        InstructionType::Function(f) => assert_eq!(f.parameters.len(), 0),
        other => panic!("not a function: {:?}", other),
    }
}

#[test]
fn a_parameter_needs_a_colon() {
    let (_, messages) = parsed("fn bad(a int): int {\n    a;\n}");
    assert!(messages.iter().any(|m| matches!(m, ParserMessage::Error(_))));
}

#[test]
fn a_call_passes_its_arguments_in_order() {
    let mut interpreter = Interpreter::new(
        program("fn sub(a: int, b: int): int {\n    a - b;\n}\nt(\"./a\") {\n    output(sub(7, 2) as string);\n}"),
        args(),
    );
    let events = interpreter.interpret(&NoFloats);
    match &events[0] {
        Event::Test { actions, error, .. } => {
            assert_eq!(error, &None);
            assert_eq!(actions, &vec![Action::Expect("5".to_string())]);
        }
        other => panic!("not a test: {:?}", other),
    }
}
