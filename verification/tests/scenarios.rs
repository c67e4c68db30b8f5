use test_script::cli::Args;
use test_script::error::{ParserErrorType, ParserMessage, ParserWarningType};
use test_script::instruction::Instruction;
use test_script::interpreter::{Action, Event, Interpreter};
use test_script::lexer::Lexer;
use test_script::parser::Parser;
use test_script::report::Style;
use test_script::type_checker::TypeChecker;
use test_script::values::FloatArithmetic;

struct Floats;

fn f(s: &str) -> f64 {
    s.parse().unwrap()
}

impl FloatArithmetic for Floats {
    fn add(&self, a: &String, b: &String) -> String { (f(a) + f(b)).to_string() }
    fn subtract(&self, a: &String, b: &String) -> String { (f(a) - f(b)).to_string() }
    fn multiply(&self, a: &String, b: &String) -> String { (f(a) * f(b)).to_string() }
    fn divide(&self, a: &String, b: &String) -> String { (f(a) / f(b)).to_string() }
    fn remainder(&self, a: &String, b: &String) -> String { (f(a) % f(b)).to_string() }
    fn negate(&self, a: &String) -> String { (-f(a)).to_string() }
    fn equal(&self, a: &String, b: &String) -> bool { f(a) == f(b) }
    fn less(&self, a: &String, b: &String) -> bool { f(a) < f(b) }
    fn is_zero(&self, a: &String) -> bool { f(a) == 0.0 }
    fn to_int(&self, a: &String) -> i64 { f(a) as i64 }
    fn from_int(&self, i: i64) -> String { (i as f64).to_string() }
    fn parse(&self, s: &String) -> Option<String> { s.parse::<f64>().ok().map(|x| x.to_string()) }
    fn display(&self, a: &String) -> String { f(a).to_string() }
}

fn args() -> Args {
    Args {
        file: "s.tesc".to_string(),
        disable_warnings: false,
        disable_style_warnings: false,
        disable_magic_warnings: true,
        max_size: 3,
        debug: false,
    }
}

fn parse(source: &str) -> (Result<Vec<Instruction>, Vec<Instruction>>, Vec<ParserMessage>) {
    let mut lexer = Lexer::new(source, args());
    let tokens = lexer.try_tokenize().expect("lexes");
    let mut parser = Parser::new(tokens, args());
    let program = parser.parse();
    (program, parser.messages)
}

fn has_error(messages: &[ParserMessage], wanted: &ParserErrorType) -> bool {
    messages.iter().any(|m| matches!(m, ParserMessage::Error(e) if &e.error_type == wanted))
}

fn actions_of(source: &str) -> Vec<Action> {
    let (program, messages) = parse(source);
    let program = program.unwrap_or_else(|_| panic!("parse errors: {:?}", messages));
    let mut checker = TypeChecker::new(program.clone(), args());
    let checked = checker.check();
    assert!(checked.is_ok(), "{:?}", checked.err().map(|m| m.iter().map(|x| match x {
        ParserMessage::Error(e) => format!("{:?}", e.error_type),
        ParserMessage::Warning(w) => format!("{:?}", w.warning_type),
    }).collect::<Vec<_>>()));
    let mut interpreter = Interpreter::new(program, args());
    let mut all = Vec::new();
    for event in interpreter.interpret(&Floats) {
        if let Event::Test { actions, error, .. } = event {
            assert_eq!(error, None);
            all.extend(actions);
        }
    }
    all
}

#[test]
fn a_declaration_needs_a_type() {
    let (_, messages) = parse("t(\"./a\") { let x = 1; }");
    assert!(has_error(&messages, &ParserErrorType::VaribleTypeAnnotation));
}

#[test]
fn a_constant_cannot_be_reassigned() {
    let (_, messages) = parse("t(\"./a\") { const X: int = 1; X = 2; }");
    assert!(messages.iter().any(|m| matches!(m,
        ParserMessage::Error(e) if matches!(e.error_type, ParserErrorType::ConstantReassignment(_)))));
}

#[test]
fn a_block_hides_its_variables() {
    let (_, messages) = parse("t(\"./a\") { { let y: int = 1; }; output(y as string); }");
    assert!(has_error(&messages, &ParserErrorType::IdentifierNotDefined("y".to_string())));
}

#[test]
fn a_function_returns_its_last_statement() {
    let actions = actions_of(
        "fn min(a: int, b: int): int {\n    if a < b {\n        a;\n    } else {\n        b;\n    }\n}\nt(\"./a\") {\n    output(min(4, 2) as string);\n}",
    );
    assert_eq!(actions, vec![Action::Expect("2".to_string())]);
}

#[test]
fn a_recursive_function_runs() {
    let actions = actions_of(
        "fn fib(n: int): int {\n    if n <= 1 {\n        n;\n    } else {\n        fib(n - 1) + fib(n - 2);\n    }\n}\nt(\"./a\") {\n    output(fib(10) as string);\n}",
    );
    assert_eq!(actions, vec![Action::Expect("55".to_string())]);
}

#[test]
fn print_and_println() {
    let actions = actions_of("t(\"./a\") {\n    print(\"a\");\n    println(\"b\");\n}");
    assert_eq!(actions, vec![Action::Print("a ".to_string()), Action::Println("b ".to_string())]);
}

#[test]
fn a_block_as_a_value() {
    let actions = actions_of("t(\"./a\") {\n    let s: string = { \"y\"; };\n    output(s);\n}");
    assert_eq!(actions, vec![Action::Expect("y".to_string())]);
}

#[test]
fn an_unused_value_stops_the_program() {
    let (program, _) = parse("t(\"./a\") {\n    let s: string = { \"x\"; \"y\"; };\n    output(s);\n}");
    let mut checker = TypeChecker::new(program.expect("parses"), args());
    let messages = checker.check().expect_err("a warning");
    assert!(messages.iter().any(|m| matches!(m,
        ParserMessage::Warning(w) if w.warning_type == ParserWarningType::UnusedValue)));
}

#[test]
fn a_condition_chooses_a_branch() {
    let actions = actions_of("t(\"./a\") {\n    if 1 < 0 {\n        output(\"yes\");\n    } else {\n        output(\"no\");\n    };\n}");
    assert_eq!(actions, vec![Action::Expect("no".to_string())]);
}

#[test]
fn a_variable_is_reassigned() {
    let actions = actions_of("t(\"./a\") {\n    let s: string = \"a\";\n    s = s + \"b\";\n    output(s);\n}");
    assert_eq!(actions, vec![Action::Expect("ab".to_string())]);
}

#[test]
fn a_style_warning_for_a_constant_name() {
    let (_, messages) = parse("const lower: int = 1;");
    assert!(messages.iter().any(|m| matches!(m,
        ParserMessage::Warning(w) if w.warning_type == ParserWarningType::ConstantNotUpperCase("lower".to_string()))));
}

#[test]
fn a_warning_report_has_a_hint() {
    let (_, messages) = parse("const lower: int = 1;");
    let warning = messages.iter().find_map(|m| match m {
        ParserMessage::Warning(w) => Some(w),
        _ => None,
    });
    let pieces = warning.expect("a warning").report();
    assert_eq!(pieces[0].text, "warning: ");
    assert_eq!(pieces[0].style, Style::Warning);
    assert!(pieces.iter().any(|p| p.text == "consider changing the name to LOWER"));
}

#[test]
fn an_empty_block_is_warned_about() {
    let (_, messages) = parse("t(\"./a\") { }");
    assert!(messages.iter().any(|m| matches!(m,
        ParserMessage::Warning(w) if w.warning_type == ParserWarningType::EmptyBlock)));
}
