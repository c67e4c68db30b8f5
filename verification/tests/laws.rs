use test_script::cli::Args;
use test_script::environment::ParseEnvironment;
use test_script::error::ParserMessage;
use test_script::instruction::{Instruction, InstructionType};
use test_script::lexer::Lexer;
use test_script::parser::Parser;
use test_script::token::{Token, TokenCollection, TokenType};
use test_script::types::Type;
use test_script::values::{int_text, parse_int};
use test_script::variable::Variable;

fn args() -> Args {
    Args {
        file: "l.tesc".to_string(),
        disable_warnings: false,
        disable_style_warnings: false,
        disable_magic_warnings: false,
        max_size: 3,
        debug: false,
    }
}

fn infix(i: &Instruction, out: &mut Vec<String>) {
    match &i.instruction_type {
        InstructionType::BinaryOperation(b) => {
            infix(&b.left, out);
            out.push(b.operator.text());
            infix(&b.right, out);
        }
        _ => out.push(i.text()),
    }
}

#[test]
fn operator_trees_keep_the_written_order() {
    let mut lexer = Lexer::new("const X: int = 1 + 2 * 3 - 4 / 5 == 6 && 7 < 8;", args());
    let tokens = lexer.try_tokenize().unwrap();
    let mut parser = Parser::new(tokens, args());
    let program = parser.parse().unwrap();
    let body = match &program[0].instruction_type {
        InstructionType::Assignment(a) => &a.body,
        other => panic!("unexpected {:?}", other),
    };
    let mut out = Vec::new();
    infix(body, &mut out);
    let written: Vec<String> =
        "1 + 2 * 3 - 4 / 5 == 6 && 7 < 8".split(' ').map(|s| s.to_string()).collect();
    assert_eq!(out, written);
    assert!(parser.messages.iter().all(|m| !matches!(m, ParserMessage::Error(_))));
}

#[test]
fn lookup_after_insert_finds_the_variable() {
    let mut env = ParseEnvironment::new(args());
    let v = Variable {
        name: "count".to_string(),
        var_type: Type::Int,
        declaration_token: Token::none(),
        identifier_token: Token::none(),
        last_assignment_token: Token::none(),
        type_token: Token::none(),
        constant: false,
        read: true,
        assigned: true,
    };
    env.add_scope();
    env.insert(v.clone());
    assert_eq!(env.get("count"), Some(v));
    assert_eq!(env.get("other"), None);
}

#[test]
fn integer_text_reads_back() {
    for i in [0i64, 7, -7, 1234567890, i64::MIN, i64::MAX] {
        assert_eq!(parse_int(&int_text(i)), Some(i));
    }
}

#[test]
fn back_undoes_next() {
    let mut one = Token::none();
    one.token_type = TokenType::Colon;
    let mut two = Token::none();
    two.token_type = TokenType::Semicolon;
    let mut tokens = TokenCollection::new(vec![one.clone(), two.clone(), one.clone()]);
    assert_eq!(tokens.next(), Some(one.clone()));
    assert_eq!(tokens.next(), Some(two.clone()));
    tokens.back();
    assert_eq!(tokens.current(), Some(one.clone()));
    assert_eq!(tokens.peek(), Some(two));
}
