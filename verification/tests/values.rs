use test_script::error::InterpreterError;
use test_script::instruction::InstructionResult;
use test_script::operators::{BinaryOperator, UnaryOperator};
use test_script::types::Type;
use test_script::values::{cast, int_text, operate, parse_int, unary_operate, value_text, FloatArithmetic};

struct Floats;

fn f(s: &str) -> f64 {
    s.parse().unwrap()
}

impl FloatArithmetic for Floats {
    fn add(&self, a: &String, b: &String) -> String {
        (f(a) + f(b)).to_string()
    }
    fn subtract(&self, a: &String, b: &String) -> String {
        (f(a) - f(b)).to_string()
    }
    fn multiply(&self, a: &String, b: &String) -> String {
        (f(a) * f(b)).to_string()
    }
    fn divide(&self, a: &String, b: &String) -> String {
        (f(a) / f(b)).to_string()
    }
    fn remainder(&self, a: &String, b: &String) -> String {
        (f(a) % f(b)).to_string()
    }
    fn negate(&self, a: &String) -> String {
        (-f(a)).to_string()
    }
    fn equal(&self, a: &String, b: &String) -> bool {
        f(a) == f(b)
    }
    fn less(&self, a: &String, b: &String) -> bool {
        f(a) < f(b)
    }
    fn is_zero(&self, a: &String) -> bool {
        f(a) == 0.0
    }
    fn to_int(&self, a: &String) -> i64 {
        f(a) as i64
    }
    fn from_int(&self, i: i64) -> String {
        (i as f64).to_string()
    }
    fn parse(&self, s: &String) -> Option<String> {
        s.parse::<f64>().ok().map(|x| x.to_string())
    }
    fn display(&self, a: &String) -> String {
        f(a).to_string()
    }
}

fn s(text: &str) -> InstructionResult {
    InstructionResult::String(text.to_string())
}

#[test]
fn integers_add_and_wrap() {
    let r = operate(BinaryOperator::Addition, &InstructionResult::Int(2), &InstructionResult::Int(3), &Floats);
    assert_eq!(r, Ok(InstructionResult::Int(5)));
    let r = operate(BinaryOperator::Addition, &InstructionResult::Int(i64::MAX), &InstructionResult::Int(1), &Floats);
    assert_eq!(r, Ok(InstructionResult::Int(i64::MIN)));
}

#[test]
fn integer_division_truncates() {
    let r = operate(BinaryOperator::Division, &InstructionResult::Int(-7), &InstructionResult::Int(2), &Floats);
    assert_eq!(r, Ok(InstructionResult::Int(-3)));
    let r = operate(BinaryOperator::Modulo, &InstructionResult::Int(-7), &InstructionResult::Int(2), &Floats);
    assert_eq!(r, Ok(InstructionResult::Int(-1)));
}

#[test]
fn division_by_zero_fails() {
    let r = operate(BinaryOperator::Division, &InstructionResult::Int(1), &InstructionResult::Int(0), &Floats);
    assert!(matches!(r, Err(InterpreterError::TestFailed(_))));
    let r = operate(BinaryOperator::Division, &InstructionResult::Int(i64::MIN), &InstructionResult::Int(-1), &Floats);
    assert!(matches!(r, Err(InterpreterError::TestFailed(_))));
}

#[test]
fn strings_concatenate_and_repeat() {
    assert_eq!(operate(BinaryOperator::Addition, &s("ab"), &s("cd"), &Floats), Ok(s("abcd")));
    assert_eq!(operate(BinaryOperator::Modulo, &s("ab"), &s("cd"), &Floats), Ok(s("abcd")));
    assert_eq!(operate(BinaryOperator::Multiplication, &s("ab"), &InstructionResult::Int(3), &Floats), Ok(s("ababab")));
    assert!(operate(BinaryOperator::Multiplication, &s("ab"), &InstructionResult::Int(-1), &Floats).is_err());
}

#[test]
fn comparisons_give_booleans() {
    let r = operate(BinaryOperator::LessThanOrEqual, &InstructionResult::Int(2), &InstructionResult::Int(2), &Floats);
    assert_eq!(r, Ok(InstructionResult::Bool(true)));
    assert_eq!(operate(BinaryOperator::NotEqual, &s("a"), &s("a"), &Floats), Ok(InstructionResult::Bool(false)));
    let r = operate(BinaryOperator::Or, &InstructionResult::Bool(false), &InstructionResult::Bool(true), &Floats);
    assert_eq!(r, Ok(InstructionResult::Bool(true)));
}

#[test]
fn floats_go_through_the_arithmetic() {
    let r = operate(
        BinaryOperator::Addition,
        &InstructionResult::Float("1.5".to_string()),
        &InstructionResult::Float("2.25".to_string()),
        &Floats,
    );
    assert_eq!(r, Ok(InstructionResult::Float("3.75".to_string())));
}

#[test]
fn mixed_operands_fail() {
    assert!(operate(BinaryOperator::Addition, &InstructionResult::Int(1), &s("a"), &Floats).is_err());
}

#[test]
fn unary_operators() {
    assert_eq!(unary_operate(UnaryOperator::Not, &InstructionResult::Bool(true), &Floats), Ok(InstructionResult::Bool(false)));
    assert_eq!(unary_operate(UnaryOperator::Negation, &InstructionResult::Int(5), &Floats), Ok(InstructionResult::Int(-5)));
    assert_eq!(unary_operate(UnaryOperator::Negation, &InstructionResult::Int(i64::MIN), &Floats), Ok(InstructionResult::Int(i64::MIN)));
    assert!(unary_operate(UnaryOperator::Not, &InstructionResult::Int(1), &Floats).is_err());
}

#[test]
fn integers_are_written_in_decimal() {
    assert_eq!(int_text(0), "0");
    assert_eq!(int_text(-45), "-45");
    assert_eq!(int_text(i64::MIN), "-9223372036854775808");
    assert_eq!(int_text(i64::MAX), "9223372036854775807");
}

#[test]
fn integers_are_parsed_like_std() {
    assert_eq!(parse_int(&"42".to_string()), Some(42));
    assert_eq!(parse_int(&"+7".to_string()), Some(7));
    assert_eq!(parse_int(&"-9223372036854775808".to_string()), Some(i64::MIN));
    assert_eq!(parse_int(&"9223372036854775808".to_string()), None);
    assert_eq!(parse_int(&"-".to_string()), None);
    assert_eq!(parse_int(&"".to_string()), None);
    assert_eq!(parse_int(&"1a".to_string()), None);
    assert_eq!(parse_int(&" 1".to_string()), None);
}

#[test]
fn casts_follow_the_rules() {
    assert_eq!(cast(&s("12"), &Type::Int, &Floats), Ok(InstructionResult::Int(12)));
    assert_eq!(
        cast(&s("x"), &Type::Int, &Floats),
        Err(InterpreterError::TypeCast { result: s("x"), from: Type::String, to: Type::Int })
    );
    assert_eq!(cast(&s("true"), &Type::Bool, &Floats), Ok(InstructionResult::Bool(true)));
    assert!(matches!(cast(&s("yes"), &Type::Bool, &Floats), Err(InterpreterError::TypeCast { .. })));
    assert_eq!(cast(&InstructionResult::Int(0), &Type::Bool, &Floats), Ok(InstructionResult::Bool(false)));
    assert_eq!(cast(&InstructionResult::Bool(true), &Type::Int, &Floats), Ok(InstructionResult::Int(1)));
    assert_eq!(cast(&InstructionResult::Int(-3), &Type::String, &Floats), Ok(s("-3")));
    assert_eq!(cast(&InstructionResult::Int(2), &Type::Float, &Floats), Ok(InstructionResult::Float("2".to_string())));
    assert!(cast(&InstructionResult::Nothing, &Type::Int, &Floats).is_err());
}

#[test]
fn values_are_shown_as_text() {
    assert_eq!(value_text(&InstructionResult::Bool(false), &Floats), "false");
    assert_eq!(value_text(&InstructionResult::Nothing, &Floats), "()");
    assert_eq!(value_text(&InstructionResult::Regex(vec!["a".to_string(), "b".to_string()]), &Floats), "[\"a\", \"b\"]");
}
