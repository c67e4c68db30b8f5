use test_script::cli::Args;
use test_script::error::{ParserErrorType, ParserMessage, ParserWarningType};
use test_script::instruction::{Instruction, InstructionType};
use test_script::lexer::{LexFailure, Lexer};
use test_script::operators::BinaryOperator;
use test_script::parser::Parser;
use test_script::token::{TokenCollection, TokenType};
use test_script::type_checker::TypeChecker;
use test_script::types::Type;

fn args() -> Args {
    Args {
        file: "test.tesc".to_string(),
        disable_warnings: false,
        disable_style_warnings: false,
        disable_magic_warnings: false,
        max_size: 3,
        debug: false,
    }
}

fn tokens(source: &str) -> TokenCollection {
    let mut lexer = Lexer::new(source, args());
    lexer.try_tokenize().expect("the source lexes")
}

fn parse(source: &str) -> (Result<Vec<Instruction>, Vec<Instruction>>, Vec<ParserMessage>) {
    let collection = tokens(source);
    assert!(Parser::accepts(&collection));
    let mut parser = Parser::new(collection, args());
    let program = parser.parse();
    (program, parser.messages)
}

fn kinds(collection: &TokenCollection) -> Vec<TokenType> {
    collection.tokens.iter().map(|t| t.token_type.clone()).collect()
}

#[test]
fn lexer_reads_a_declaration() {
    let collection = tokens("let x: int = 42;");
    let k = kinds(&collection);
    assert_eq!(k[0], TokenType::Keyword { value: "let".to_string() });
    assert_eq!(k[1], TokenType::Identifier { value: "x".to_string() });
    assert_eq!(k[2], TokenType::Colon);
    assert_eq!(k[3], TokenType::Type { value: Type::Int });
    assert_eq!(k[4], TokenType::AssignmentOperator);
    assert_eq!(k[5], TokenType::IntegerLiteral { value: 42 });
    assert_eq!(k[6], TokenType::Semicolon);
}

#[test]
fn lexer_places_tokens() {
    let collection = tokens("let a: int = 1;\nconst B: int = 2;");
    let b = &collection.tokens[8];
    assert_eq!(b.token_type, TokenType::Identifier { value: "B".to_string() });
    assert_eq!(b.row, 2);
    assert_eq!(b.column, 7);
    assert_eq!(b.line, "const B: int = 2;");
}

#[test]
fn lexer_rejects_a_lone_ampersand() {
    let mut lexer = Lexer::new("a & b", args());
    assert_eq!(lexer.try_tokenize().err(), Some(LexFailure::UnexpectedCharacter('&')));
}

#[test]
fn lexer_rejects_a_huge_integer() {
    let mut lexer = Lexer::new("99999999999999999999", args());
    assert_eq!(lexer.try_tokenize().err(), Some(LexFailure::IntegerOutOfRange));
}

#[test]
fn parser_reads_a_constant() {
    let (program, messages) = parse("const ANSWER: int = 42;");
    let program = program.expect("no error");
    assert_eq!(program.len(), 1);
    match &program[0].instruction_type {
        InstructionType::Assignment(a) => {
            assert_eq!(a.variable.name, "ANSWER");
            assert!(a.variable.constant);
            assert!(a.declaration);
            assert_eq!(a.variable.var_type, Type::Int);
        }
        other => panic!("unexpected {:?}", other),
    }
    assert!(messages.is_empty());
}

#[test]
fn parser_respects_precedence() {
    let (program, _) = parse("const X: int = 1 + 2 * 3;");
    let program = program.expect("no error");
    let body = match &program[0].instruction_type {
        InstructionType::Assignment(a) => &a.body,
        other => panic!("unexpected {:?}", other),
    };
    match &body.instruction_type {
        InstructionType::BinaryOperation(b) => {
            assert_eq!(b.operator, BinaryOperator::Addition);
            match &b.right.instruction_type {
                InstructionType::BinaryOperation(inner) => {
                    assert_eq!(inner.operator, BinaryOperator::Multiplication)
                }
                other => panic!("unexpected {:?}", other),
            }
        }
        other => panic!("unexpected {:?}", other),
    }
}

#[test]
fn parser_groups_equal_precedence_to_the_left() {
    let (program, _) = parse("const X: int = 8 - 2 - 1;");
    let program = program.expect("no error");
    let body = match &program[0].instruction_type {
        InstructionType::Assignment(a) => &a.body,
        other => panic!("unexpected {:?}", other),
    };
    match &body.instruction_type {
        InstructionType::BinaryOperation(b) => {
            assert_eq!(b.operator, BinaryOperator::Subtraction);
            assert!(matches!(b.left.instruction_type, InstructionType::BinaryOperation(_)));
            assert!(matches!(b.right.instruction_type, InstructionType::IntegerLiteral(_)));
        }
        other => panic!("unexpected {:?}", other),
    }
}

#[test]
fn parser_warns_about_magic_literals() {
    let (_, messages) = parse("test(\"./a\") { let x: int = 7; }");
    assert!(messages.iter().any(|m| matches!(m,
        ParserMessage::Warning(w) if w.warning_type == ParserWarningType::MagicLiteral(Type::Int))));
}

#[test]
fn parser_reports_a_global_statement() {
    let (program, messages) = parse("let x: int = 1;");
    assert!(program.is_ok());
    assert!(messages.iter().any(|m| matches!(m,
        ParserMessage::Error(e) if matches!(e.error_type, ParserErrorType::GlobalScope(_)))));
}

#[test]
fn parser_reads_a_test_with_io() {
    let (program, messages) = parse("hello(\"./hello\") {\n    output(\"Hello\");\n}");
    let program = program.expect("no error");
    match &program[0].instruction_type {
        InstructionType::Test(t) => {
            assert_eq!(t.name, "hello");
            assert_eq!(t.command, "./hello");
            assert!(matches!(t.body.instruction_type, InstructionType::Block(_)));
        }
        other => panic!("unexpected {:?}", other),
    }
    assert!(!messages.iter().any(|m| matches!(m, ParserMessage::Error(_))));
}

#[test]
fn parser_reports_an_unknown_name() {
    let (program, messages) = parse("t(\"./a\") { output(y); }");
    assert!(program.is_err());
    assert!(messages.iter().any(|m| matches!(m,
        ParserMessage::Error(e) if e.error_type == ParserErrorType::IdentifierNotDefined("y".to_string()))));
}

#[test]
fn parser_reads_a_function_and_a_call() {
    let (program, _) = parse("fn twice(s: string): string { s + s; }\nt(\"./a\") { output(twice(\"a\")); }");
    let program = program.expect("no error");
    assert!(matches!(program[0].instruction_type, InstructionType::Function(_)));
    assert!(matches!(program[1].instruction_type, InstructionType::Test(_)));
}

#[test]
fn type_checker_accepts_a_well_typed_program() {
    let (program, _) = parse("t(\"./a\") { let s: string = \"a\" + \"b\"; output(s); }");
    let program = program.expect("no error");
    let mut checker = TypeChecker::new(program, args());
    assert!(checker.check().is_ok());
}

#[test]
fn type_checker_reports_a_mismatch() {
    let (program, _) = parse("t(\"./a\") { output(1 + \"b\"); }");
    let program = program.expect("no error");
    let mut checker = TypeChecker::new(program, args());
    let messages = checker.check().expect_err("a type error");
    assert!(messages.iter().any(|m| matches!(m,
        ParserMessage::Error(e) if matches!(e.error_type, ParserErrorType::MismatchedType { .. }))));
}

#[test]
fn greater_than_takes_only_its_own_characters() {
    let collection = tokens("a>b;\nc>=d;");
    assert_eq!(
        kinds(&collection)[0..8].to_vec(),
        vec![
            TokenType::Identifier { value: "a".to_string() },
            TokenType::BinaryOperator { value: ">".to_string() },
            TokenType::Identifier { value: "b".to_string() },
            TokenType::Semicolon,
            TokenType::Identifier { value: "c".to_string() },
            TokenType::BinaryOperator { value: ">=".to_string() },
            TokenType::Identifier { value: "d".to_string() },
            TokenType::Semicolon,
        ]
    );
    let columns: Vec<u32> = collection.tokens.iter().take(4).map(|t| t.column).collect();
    assert_eq!(columns, vec![1, 2, 3, 4]);
}

fn shape(i: &Instruction) -> String {
    match &i.instruction_type {
        InstructionType::IntegerLiteral(n) => n.value.to_string(),
        InstructionType::BinaryOperation(b) => {
            format!("({:?} {} {})", b.operator, shape(&b.left), shape(&b.right))
        }
        InstructionType::Assignment(a) => format!("{} = {}", a.variable.name, shape(&a.body)),
        other => format!("{:?}", other),
    }
}

fn constant_shapes(source: &str) -> Vec<String> {
    let (program, _) = parse(source);
    program.expect("parses").iter().map(shape).collect()
}

#[test]
fn multiplication_binds_tighter_than_addition() {
    assert_eq!(
        constant_shapes("const A: int = 1 + 2 * 3;\nconst B: int = 1 * 2 + 3;"),
        vec![
            "A = (Addition 1 (Multiplication 2 3))".to_string(),
            "B = (Addition (Multiplication 1 2) 3)".to_string(),
        ]
    );
}

#[test]
fn equal_precedence_groups_to_the_left() {
    assert_eq!(
        constant_shapes("const A: int = 6 * 2 / 3;\nconst B: int = 8 - 2 - 1;"),
        vec![
            "A = (Division (Multiplication 6 2) 3)".to_string(),
            "B = (Subtraction (Subtraction 8 2) 1)".to_string(),
        ]
    );
}

#[test]
fn a_loop_over_a_literal_with_a_block_of_statements() {
    let (program, _) = parse("t(\"./a\") {\n    for d: int in 5 {\n        1 + 2;\n        3;\n    };\n}");
    let program = program.expect("parses");
    let body = match &program[0].instruction_type {
        InstructionType::Test(t) => &t.body,
        other => panic!("not a test: {:?}", other),
    };
    let statements = match &body.instruction_type {
        InstructionType::Block(b) => &b.statements,
        other => panic!("not a block: {:?}", other),
    };
    match &statements[0].instruction_type {
        InstructionType::For(f) => {
            assert_eq!(f.assignment.variable.name, "d");
            assert_eq!(shape(&f.assignment.body), "5");
            match &f.body.instruction_type {
                InstructionType::Block(b) => {
                    let shapes: Vec<String> = b.statements.iter().map(shape).collect();
                    assert_eq!(shapes, vec!["(Addition 1 2)".to_string(), "3".to_string()]);
                }
                other => panic!("not a block: {:?}", other),
            }
        }
        other => panic!("not a loop: {:?}", other),
    }
}

#[test]
fn a_program_of_tests_and_constants_keeps_every_item() {
    let (program, messages) = parse(
        "const LIMIT: int = 1;\ngreet(\"./greet\") {\n    input(\"Bob\");\n    output(\"Hello Bob\", \"!\");\n}\nbye(\"./bye\") {\n}",
    );
    let program = program.unwrap_or_else(|_| panic!("{:?}", messages.len()));
    assert_eq!(program.len(), 3);
    assert_eq!(shape(&program[0]), "LIMIT = 1");
    match &program[1].instruction_type {
        InstructionType::Test(t) => {
            assert_eq!(t.name, "greet");
            assert_eq!(t.command, "./greet");
            match &t.body.instruction_type {
                InstructionType::Block(b) => {
                    assert_eq!(b.statements.len(), 2);
                    match &b.statements[1].instruction_type {
                        InstructionType::BuiltIn(c) => {
                            assert_eq!(c.name, "output");
                            assert_eq!(c.arguments.len(), 2);
                        }
                        other => panic!("not a call: {:?}", other),
                    }
                }
                other => panic!("not a block: {:?}", other),
            }
        }
        other => panic!("not a test: {:?}", other),
    }
    match &program[2].instruction_type {
        InstructionType::Test(t) => assert_eq!(t.name, "bye"),
        other => panic!("not a test: {:?}", other),
    }
}

#[test]
fn a_well_named_constant_gets_no_warning() {
    let (program, messages) = parse("const B: int = 42;");
    assert!(program.is_ok());
    assert!(messages.is_empty(), "{}", messages.len());
}

#[test]
fn a_declaration_without_type_skips_its_statement() {
    let (_, messages) = parse("t(\"./a\") {\n    let x = 5;\n    input(\"y\");\n}");
    assert!(messages.iter().any(|m| matches!(m, ParserMessage::Error(e) if e.error_type == ParserErrorType::VaribleTypeAnnotation)));
}

#[test]
fn a_function_item_keeps_its_parameters_and_body() {
    let (program, _) = parse("fn hello(a: string, b: int): string {\n    print(\"hi\");\n}");
    let program = program.expect("parses");
    match &program[0].instruction_type {
        InstructionType::Function(f) => {
            assert_eq!(f.name, "hello");
            assert_eq!(f.parameters.len(), 2);
            assert_eq!(f.return_type, Type::String);
            match &f.body.instruction_type {
                InstructionType::Block(b) => assert_eq!(b.statements.len(), 1),
                other => panic!("not a block: {:?}", other),
            }
        }
        other => panic!("not a function: {:?}", other),
    }
}
