use test_script::error::{ParserErrorType, InterpreterError};
use test_script::process::{compare_line, expected_lines, input_lines, split_command};
use test_script::regex::{expand, expand_class, join_all, parse, RegexNode};
use test_script::token::{Token, TokenType};

fn regex_token(text: &str) -> Token {
    let mut t = Token::none();
    t.token_type = TokenType::RegexLiteral { value: text.to_string() };
    t
}

fn strings(v: &[&str]) -> Vec<String> {
    v.iter().map(|s| s.to_string()).collect()
}

#[test]
fn a_digit_class_expands_to_the_digits() {
    let texts = parse(&regex_token("`[0-9]`"), 3).expect("expands");
    assert_eq!(texts, strings(&["0", "1", "2", "3", "4", "5", "6", "7", "8", "9"]));
}

#[test]
fn a_bounded_repetition_expands_in_order() {
    let texts = parse(&regex_token("`[ab]{1,2}`"), 3).expect("expands");
    assert_eq!(texts, strings(&["a", "b", "aa", "ab", "ba", "bb"]));
}

#[test]
fn a_star_stops_at_the_maximum() {
    let texts = parse(&regex_token("`a*`"), 2).expect("expands");
    assert_eq!(texts, strings(&["", "a", "aa"]));
}

#[test]
fn a_concatenation_combines_its_parts() {
    let texts = parse(&regex_token("`x[12]`"), 3).expect("expands");
    assert_eq!(texts, strings(&["x1", "x2"]));
}

#[test]
fn an_alternation_is_not_supported() {
    let e = parse(&regex_token("`^a`"), 3).expect_err("unsupported");
    assert_eq!(e.error_type, ParserErrorType::RegexError);
}

#[test]
fn an_invalid_pattern_is_an_error() {
    let e = parse(&regex_token("`(`"), 3).expect_err("does not parse");
    assert_eq!(e.error_type, ParserErrorType::RegexError);
}

#[test]
fn classes_keep_printable_ascii_only() {
    let texts = expand_class(&vec![('\n', ' '), ('~', '\u{80}')]);
    assert_eq!(texts, strings(&["\u{c}", "\r", " ", "~"]));
}

#[test]
fn expansion_of_nodes() {
    let node = RegexNode::Concat(vec![
        RegexNode::Literal("a".to_string()),
        RegexNode::Repetition { min: 0, max: None, sub: Box::new(RegexNode::Literal("b".to_string())) },
    ]);
    assert_eq!(expand(&node, 2), Some(strings(&["a", "ab", "abb"])));
    assert_eq!(expand(&RegexNode::Unsupported, 2), None);
    assert_eq!(expand(&RegexNode::Concat(vec![]), 2), Some(vec![]));
}

#[test]
fn parts_are_joined() {
    assert_eq!(join_all(&strings(&["a", "bc", ""])), "abc");
}

#[test]
fn commands_are_split_into_words() {
    assert_eq!(split_command("python3  'my file.py' -v"), strings(&["python3", "my file.py", "-v"]));
    assert_eq!(split_command(""), Vec::<String>::new());
}

#[test]
fn input_is_sent_line_by_line() {
    assert_eq!(input_lines("a\nb"), strings(&["a", "b"]));
    assert_eq!(input_lines("a\n"), strings(&["a", ""]));
}

#[test]
fn expected_output_is_read_line_by_line() {
    assert_eq!(expected_lines("a\r\nb\n"), strings(&["a", "b"]));
    assert_eq!(expected_lines(""), Vec::<String>::new());
}

#[test]
fn output_lines_are_compared_without_trailing_space() {
    assert!(compare_line(&"hello \n".to_string(), &"hello".to_string()).is_ok());
    assert_eq!(
        compare_line(&"bye\n".to_string(), &"hello".to_string()),
        Err(InterpreterError::TestFailed("Expected: `hello`, got: `bye`".to_string()))
    );
}
