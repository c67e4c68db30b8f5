use test_script::cli::Args;
use test_script::environment::Environment;
use test_script::error::{ExitCode, InterpreterError, LexerError, ParserError, ParserErrorType};
use test_script::instruction::{Instruction, InstructionResult};
use test_script::interpreter::{Action, Event, Interpreter};
use test_script::lexer::Lexer;
use test_script::parser::Parser;
use test_script::report::Style;
use test_script::token::{Token, TokenType};
use test_script::types::Type;
use test_script::values::FloatArithmetic;

struct NoFloats;

impl FloatArithmetic for NoFloats {
    fn add(&self, a: &String, _b: &String) -> String { a.clone() }
    fn subtract(&self, a: &String, _b: &String) -> String { a.clone() }
    fn multiply(&self, a: &String, _b: &String) -> String { a.clone() }
    fn divide(&self, a: &String, _b: &String) -> String { a.clone() }
    fn remainder(&self, a: &String, _b: &String) -> String { a.clone() }
    fn negate(&self, a: &String) -> String { a.clone() }
    fn equal(&self, a: &String, b: &String) -> bool { a == b }
    fn less(&self, _a: &String, _b: &String) -> bool { false }
    fn is_zero(&self, _a: &String) -> bool { false }
    fn to_int(&self, _a: &String) -> i64 { 0 }
    fn from_int(&self, i: i64) -> String { i.to_string() }
    fn parse(&self, s: &String) -> Option<String> { Some(s.clone()) }
    fn display(&self, a: &String) -> String { a.clone() }
}

fn args() -> Args {
    Args {
        file: "t.tesc".to_string(),
        disable_warnings: false,
        disable_style_warnings: false,
        disable_magic_warnings: false,
        max_size: 3,
        debug: false,
    }
}

fn program(source: &str) -> Vec<Instruction> {
    let mut lexer = Lexer::new(source, args());
    let tokens = lexer.try_tokenize().expect("lexes");
    let mut parser = Parser::new(tokens, args());
    parser.parse().expect("parses")
}

fn run(source: &str) -> Vec<Event> {
    let mut interpreter = Interpreter::new(program(source), args());
    interpreter.interpret(&NoFloats)
}

#[test]
fn a_test_sends_and_expects() {
    let events = run("greet(\"./greet\") {\n    input(\"Bob\");\n    output(\"Hello Bob\");\n}");
    assert_eq!(
        events,
        vec![Event::Test {
            name: "greet".to_string(),
            command: "./greet".to_string(),
            actions: vec![Action::Send("Bob".to_string()), Action::Expect("Hello Bob".to_string())],
            error: None,
        }]
    );
}

#[test]
fn a_loop_runs_over_a_regex() {
    let events = run("digits(\"./d\") {\n    for d: string in `[1-3]` {\n        input(d);\n    };\n}");
    match &events[0] {
        Event::Test { actions, error, .. } => {
            assert_eq!(error, &None);
            assert_eq!(
                actions,
                &vec![
                    Action::Send("1".to_string()),
                    Action::Send("2".to_string()),
                    Action::Send("3".to_string())
                ]
            );
        }
        other => panic!("unexpected {:?}", other),
    }
}

#[test]
fn constants_are_seen_by_tests() {
    let events = run("const NAME: string = \"x\";\nt(\"./a\") {\n    output(NAME + \"!\");\n}");
    assert_eq!(events[0], Event::Console(vec![]));
    match &events[1] {
        Event::Test { actions, .. } => assert_eq!(actions, &vec![Action::Expect("x!".to_string())]),
        other => panic!("unexpected {:?}", other),
    }
}

#[test]
fn print_adds_a_space_after_each_argument() {
    let events = run("t(\"./a\") {\n    println(\"a\", \"b\");\n}");
    match &events[0] {
        Event::Test { actions, .. } => assert_eq!(actions, &vec![Action::Println("a b ".to_string())]),
        other => panic!("unexpected {:?}", other),
    }
}

#[test]
fn a_failed_cast_stops_the_test() {
    let events = run("t(\"./a\") {\n    output(\"x\" as int as string);\n}");
    match &events[0] {
        Event::Test { error, actions, .. } => {
            assert!(actions.is_empty());
            assert_eq!(
                error,
                &Some(InterpreterError::TypeCast {
                    result: InstructionResult::String("x".to_string()),
                    from: Type::String,
                    to: Type::Int
                })
            );
        }
        other => panic!("unexpected {:?}", other),
    }
}

#[test]
fn input_outside_a_test_fails() {
    let events = run("const X: string = input(\"a\");");
    assert_eq!(events, vec![Event::Console(vec![])]);
}

#[test]
fn environment_scopes_hide_and_restore() {
    let mut env = Environment::new();
    env.insert("g".to_string(), InstructionResult::Int(1));
    env.add_frame();
    assert_eq!(env.get("g"), Some(InstructionResult::Int(1)));
    env.insert("x".to_string(), InstructionResult::Int(2));
    env.add_scope();
    env.insert("x".to_string(), InstructionResult::Int(3));
    env.remove_scope();
    assert_eq!(env.get("x"), Some(InstructionResult::Int(3)));
    env.remove_frame();
    assert_eq!(env.get("x"), None);
}

#[test]
fn exit_codes() {
    assert_eq!(ExitCode::SourceFileNotFound.code(), 1);
    assert_eq!(ExitCode::ProcessNotFound.code(), 21);
    assert_eq!(ExitCode::Unknown.code(), 101);
}

#[test]
fn error_titles() {
    assert_eq!(ParserErrorType::UnexpectedEndOfFile.text(), "Unexpected end of file");
    assert_eq!(
        ParserErrorType::TypeCast { from: Type::Regex, to: Type::Int }.text(),
        "Cannot cast `regex` to `int`"
    );
    assert_eq!(
        ParserErrorType::MismatchedType { expected: vec![Type::Int, Type::Float], actual: Type::Bool }.text(),
        "Type error: Expected one of `int`, `float`, found `bool`"
    );
    assert_eq!(TokenType::Keyword { value: "let".to_string() }.text(), "keyword `let`");
    assert_eq!(Type::Iterable(Box::new(Type::String)).text(), "Iter<string>");
}

#[test]
fn an_error_report_shows_the_line() {
    let mut token = Token::none();
    token.token_type = TokenType::Identifier { value: "abc".to_string() };
    token.file = "t.tesc".to_string();
    token.row = 3;
    token.column = 5;
    token.line = "let abc".to_string();
    let pieces = ParserError::new(ParserErrorType::IdentifierNotDefined("abc".to_string()), token).report();
    assert_eq!(pieces[0].text, "error: ");
    assert_eq!(pieces[0].style, Style::Error);
    assert_eq!(pieces[1].text, "Identifier `abc` not defined              \nIn: t.tesc:3:5      \n");
    assert_eq!(pieces[2].text, "3   ");
    assert_eq!(pieces[3].text, "let abc      \n        ");
    assert_eq!(pieces[4].text, "^^^");
    assert_eq!(pieces[4].style, Style::Error);
}

#[test]
fn the_empty_error_has_no_report() {
    assert!(ParserError::none().report().is_empty());
}

#[test]
fn a_lexer_error_report() {
    let pieces = LexerError::FileNotFound("a.tesc".to_string()).report();
    assert_eq!(pieces[1].text, "File not found: `a.tesc`\n");
}
