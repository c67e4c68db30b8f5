use vstd::prelude::*;

use crate::error::InterpreterError;
use crate::instruction::{InstructionResult, Value};
use crate::lexer::{digits_value, is_digit, lemma_digits_value_grows, lemma_digits_value_nonneg};
use crate::operators::BinaryOperator;
use crate::text::{chars_of, string_from};
use crate::types::Type;

verus! {

/// Arithmetic, comparison and conversion of floats, whose values are held as their
/// texts. The program that runs the interpreter supplies it.
pub trait FloatArithmetic {
    fn add(&self, a: &String, b: &String) -> String;

    fn subtract(&self, a: &String, b: &String) -> String;

    fn multiply(&self, a: &String, b: &String) -> String;

    fn divide(&self, a: &String, b: &String) -> String;

    fn remainder(&self, a: &String, b: &String) -> String;

    fn negate(&self, a: &String) -> String;

    fn equal(&self, a: &String, b: &String) -> bool;

    fn less(&self, a: &String, b: &String) -> bool;

    fn is_zero(&self, a: &String) -> bool;

    /// The integer part, saturated to the range of `i64`.
    fn to_int(&self, a: &String) -> i64;

    fn from_int(&self, i: i64) -> String;

    /// The float a text denotes, if any.
    fn parse(&self, s: &String) -> Option<String>;

    /// The text a float is shown as.
    fn display(&self, a: &String) -> String;
}

/// The text `s` repeated `n` times.
pub open spec fn repeated(s: Seq<char>, n: nat) -> Seq<char>
    decreases n,
{
    if n == 0 {
        seq![]
    } else {
        repeated(s, (n - 1) as nat) + s
    }
}

/// The value of `left op right` when no float takes part; nothing where the operation
/// fails: a division or remainder by zero or that overflows, a negative repetition
/// count, or operand values the operator does not take. Integer addition,
/// subtraction and multiplication wrap around.
pub open spec fn operation(op: BinaryOperator, left: Value, right: Value) -> Option<Value> {
    match (left, right) {
        (Value::Int(a), Value::Int(b)) => match op {
            BinaryOperator::Addition => Some(Value::Int(a.wrapping_add(b))),
            BinaryOperator::Subtraction => Some(Value::Int(a.wrapping_sub(b))),
            BinaryOperator::Multiplication => Some(Value::Int(a.wrapping_mul(b))),
            BinaryOperator::Division => match a.checked_div(b) {
                Some(q) => Some(Value::Int(q)),
                None => None,
            },
            BinaryOperator::Modulo => match a.checked_rem(b) {
                Some(q) => Some(Value::Int(q)),
                None => None,
            },
            BinaryOperator::Equal => Some(Value::Bool(a == b)),
            BinaryOperator::NotEqual => Some(Value::Bool(a != b)),
            BinaryOperator::GreaterThan => Some(Value::Bool(a > b)),
            BinaryOperator::GreaterThanOrEqual => Some(Value::Bool(a >= b)),
            BinaryOperator::LessThan => Some(Value::Bool(a < b)),
            BinaryOperator::LessThanOrEqual => Some(Value::Bool(a <= b)),
            _ => None,
        },
        (Value::String(a), Value::String(b)) => match op {
            BinaryOperator::Addition | BinaryOperator::Modulo => Some(Value::String(a + b)),
            BinaryOperator::Equal => Some(Value::Bool(a == b)),
            BinaryOperator::NotEqual => Some(Value::Bool(a != b)),
            _ => None,
        },
        (Value::String(a), Value::Int(n)) => match op {
            BinaryOperator::Multiplication => if n >= 0 {
                Some(Value::String(repeated(a, n as nat)))
            } else {
                None
            },
            _ => None,
        },
        (Value::Bool(a), Value::Bool(b)) => match op {
            BinaryOperator::And => Some(Value::Bool(a && b)),
            BinaryOperator::Or => Some(Value::Bool(a || b)),
            BinaryOperator::Equal => Some(Value::Bool(a == b)),
            BinaryOperator::NotEqual => Some(Value::Bool(a != b)),
            _ => None,
        },
        _ => None,
    }
}

/// Whether a float takes part in an operation.
pub open spec fn has_float(left: Value, right: Value) -> bool {
    left is Float || right is Float
}

/// Integers compare as numbers: `a < b` holds exactly when `a` is less than `b`,
/// `a > b` is `b < a` (so no integer is greater than itself), `a <= b` is "not
/// `a > b`", `a >= b` is `b <= a`, and `==`, `!=` are equality and its negation.
pub proof fn law_integer_comparisons(a: i64, b: i64)
    ensures
        operation(BinaryOperator::LessThan, Value::Int(a), Value::Int(b)) == Some(Value::Bool(a < b)),
        operation(BinaryOperator::GreaterThan, Value::Int(a), Value::Int(b)) == operation(
            BinaryOperator::LessThan,
            Value::Int(b),
            Value::Int(a),
        ),
        operation(BinaryOperator::GreaterThan, Value::Int(a), Value::Int(a)) == Some(Value::Bool(false)),
        operation(BinaryOperator::LessThan, Value::Int(a), Value::Int(a)) == Some(Value::Bool(false)),
        operation(BinaryOperator::LessThanOrEqual, Value::Int(a), Value::Int(b)) == Some(
            Value::Bool(!(b < a)),
        ),
        operation(BinaryOperator::GreaterThanOrEqual, Value::Int(a), Value::Int(b)) == operation(
            BinaryOperator::LessThanOrEqual,
            Value::Int(b),
            Value::Int(a),
        ),
        operation(BinaryOperator::Equal, Value::Int(a), Value::Int(b)) == Some(Value::Bool(a == b)),
        operation(BinaryOperator::NotEqual, Value::Int(a), Value::Int(b)) == Some(Value::Bool(a != b)),
{
}

/// Integer arithmetic is that of the integers where the result fits in 64 bits:
/// `+`, `-` and `*` give the sum, difference and product, and `+` does not depend on
/// the order of its operands; dividing by zero, or taking a remainder by zero, fails.
pub proof fn law_integer_arithmetic(a: i64, b: i64)
    ensures
        operation(BinaryOperator::Addition, Value::Int(a), Value::Int(b)) == operation(
            BinaryOperator::Addition,
            Value::Int(b),
            Value::Int(a),
        ),
        i64::MIN <= a + b <= i64::MAX ==> operation(BinaryOperator::Addition, Value::Int(a), Value::Int(b))
            == Some(Value::Int((a + b) as i64)),
        i64::MIN <= a - b <= i64::MAX ==> operation(BinaryOperator::Subtraction, Value::Int(a), Value::Int(b))
            == Some(Value::Int((a - b) as i64)),
        i64::MIN <= a * b <= i64::MAX ==> operation(
            BinaryOperator::Multiplication,
            Value::Int(a),
            Value::Int(b),
        ) == Some(Value::Int((a * b) as i64)),
        b == 0 ==> operation(BinaryOperator::Division, Value::Int(a), Value::Int(b)) is None,
        b == 0 ==> operation(BinaryOperator::Modulo, Value::Int(a), Value::Int(b)) is None,
{
    assert(i64::MIN <= a + b <= i64::MAX ==> a.wrapping_add(b) == a + b);
    assert(i64::MIN <= a - b <= i64::MAX ==> a.wrapping_sub(b) == a - b);
    assert(i64::MIN <= a * b <= i64::MAX ==> a.wrapping_mul(b) == a * b);
}

/// Equality is symmetric on all values, and every integer, text, text list or
/// boolean equals itself; `!=` is the negation of `==`.
pub proof fn law_equality(x: Value, y: Value)
    ensures
        operation(BinaryOperator::Equal, x, y) == operation(BinaryOperator::Equal, y, x),
        operation(BinaryOperator::Equal, x, y) matches Some(Value::Bool(e)) ==> operation(
            BinaryOperator::NotEqual,
            x,
            y,
        ) == Some(Value::Bool(!e)),
        (x is Int || x is String || x is Bool) ==> operation(BinaryOperator::Equal, x, x) == Some(
            Value::Bool(true),
        ),
{
}

/// A text times a number `n` of at least zero is that text written `n` times: its
/// length is `n` times the text's, and its character at `i` is the text's at `i`
/// modulo the text's length; a negative count fails.
pub proof fn law_text_repetition(s: Seq<char>, n: i64)
    ensures
        n < 0 ==> operation(BinaryOperator::Multiplication, Value::String(s), Value::Int(n)) is None,
        n >= 0 ==> (operation(BinaryOperator::Multiplication, Value::String(s), Value::Int(n)) matches Some(
            Value::String(t),
        ) && t.len() == s.len() * n && forall|i: int| 0 <= i < t.len() ==> #[trigger] t[i] == s[i % s.len() as int]),
{
    if n >= 0 {
        lemma_repeated(s, n as nat);
    }
}

proof fn lemma_repeated(s: Seq<char>, n: nat)
    ensures
        repeated(s, n).len() == s.len() * n,
        forall|i: int| 0 <= i < repeated(s, n).len() ==> #[trigger] repeated(s, n)[i] == s[i % s.len() as int],
    decreases n,
{
    if n > 0 {
        lemma_repeated(s, (n - 1) as nat);
        let prev = repeated(s, (n - 1) as nat);
        let m: int = s.len() as int;
        assert(repeated(s, n) == prev + s);
        assert(m * n == m * (n - 1) + m) by (nonlinear_arith);
        assert(prev.len() == m * (n - 1));
        assert forall|i: int| 0 <= i < repeated(s, n).len() implies #[trigger] repeated(s, n)[i] == s[i
            % m] by {
            if i >= prev.len() {
                let j = i - prev.len();
                assert(0 <= j < m);
                vstd::arithmetic::div_mod::lemma_mod_multiples_vanish((n - 1) as int, j, m);
                vstd::arithmetic::div_mod::lemma_small_mod(j as nat, m as nat);
                assert(i == m * (n - 1) + j);
                assert(repeated(s, n)[i] == s[j]);
            } else {
                assert(repeated(s, n)[i] == prev[i]);
            }
        }
        assert(repeated(s, n).len() == m * n);
    } else {
        assert(s.len() * n == 0) by (nonlinear_arith)
            requires
                n == 0,
        ;
    }
}

/// Integer division truncates toward zero and the remainder takes the sign of the
/// dividend: for a nonzero divisor `b`, `a / b` is `q` and `a % b` is `r` with
/// `b * q + r == a`, `r` smaller than `b` in size, and `r` zero or of the sign of
/// `a`. The one quotient that does not fit, `i64::MIN / -1`, fails, and so does its
/// remainder.
#[verifier::spinoff_prover]
#[verifier::rlimit(40)]
pub proof fn law_integer_division(a: i64, b: i64)
    ensures
        b != 0 && !(a == i64::MIN && b == -1) ==> (operation(
            BinaryOperator::Division,
            Value::Int(a),
            Value::Int(b),
        ) matches Some(Value::Int(q)) && operation(BinaryOperator::Modulo, Value::Int(a), Value::Int(b))
            matches Some(Value::Int(r)) && b * q + r == a && (b > 0 ==> -b < r < b) && (b < 0 ==> b < r
            < -b) && (a >= 0 ==> r >= 0) && (a <= 0 ==> r <= 0)),
        a == i64::MIN && b == -1 ==> operation(BinaryOperator::Division, Value::Int(a), Value::Int(b)) is None
            && operation(BinaryOperator::Modulo, Value::Int(a), Value::Int(b)) is None,
{
    let x: int = a as int;
    let d: int = b as int;
    if d != 0 && !(a == i64::MIN && b == -1) && x != 0 {
        let (q, r): (int, int) = if x > 0 && d > 0 {
            lemma_nonnegative_division(x, d);
            (x / d, x % d)
        } else if x < 0 && d < 0 {
            lemma_nonnegative_division(-x, -d);
            let q0: int = (-x) / (-d);
            assert((-d) * q0 == -(d * q0)) by (nonlinear_arith);
            if d < -1 {
                vstd::arithmetic::div_mod::lemma_div_decreases(-x, -d);
            }
            (q0, -((-x) % (-d)))
        } else if x < 0 {
            lemma_nonnegative_division(-x, d);
            let q0: int = (-x) / d;
            assert(d * (-q0) == -(d * q0)) by (nonlinear_arith);
            (-q0, -((-x) % d))
        } else {
            lemma_nonnegative_division(x, -d);
            let q0: int = x / (-d);
            assert(d * (-q0) == (-d) * q0) by (nonlinear_arith);
            (-q0, x % (-d))
        };
        assert(d * q + r == x);
        assert((d > 0 ==> -d < r < d) && (d < 0 ==> d < r < -d) && (x >= 0 ==> r >= 0) && (x <= 0 ==> r
            <= 0));
        assert(i64::MIN <= q <= i64::MAX);
        assert(a.checked_div(b) == Some(q as i64));
        assert(a.checked_rem(b) == Some(r as i64));
        assert(operation(BinaryOperator::Division, Value::Int(a), Value::Int(b)) == Some(Value::Int(q as i64)));
        assert(operation(BinaryOperator::Modulo, Value::Int(a), Value::Int(b)) == Some(Value::Int(r as i64)));
        assert(b * (q as i64) + (r as i64) == a);
    } else if d != 0 && x == 0 {
        assert(operation(BinaryOperator::Division, Value::Int(a), Value::Int(b)) == Some(Value::Int(0)));
        assert(operation(BinaryOperator::Modulo, Value::Int(a), Value::Int(b)) == Some(Value::Int(0)));
    }
}

/// Division of a number of at least zero by a positive one.
proof fn lemma_nonnegative_division(x: int, d: int)
    requires
        0 <= x,
        0 < d,
    ensures
        x == d * (x / d) + x % d,
        0 <= x % d < d,
        0 <= x / d <= x,
{
    vstd::arithmetic::div_mod::lemma_fundamental_div_mod(x, d);
    vstd::arithmetic::div_mod::lemma_mod_pos_bound(x, d);
    vstd::arithmetic::div_mod::lemma_div_pos_is_pos(x, d);
    vstd::arithmetic::div_mod::lemma_div_is_ordered_by_denominator(x, 1, d);
    vstd::arithmetic::div_mod::lemma_div_basics(x);
}

/// The logical operators on booleans: `&&` holds when both operands hold, `||` when
/// either does; both are symmetric, and neither takes a non-boolean operand.
pub proof fn law_boolean_logic(x: bool, y: bool, v: Value, w: Value)
    ensures
        operation(BinaryOperator::And, Value::Bool(x), Value::Bool(y)) == Some(Value::Bool(x && y)),
        operation(BinaryOperator::Or, Value::Bool(x), Value::Bool(y)) == Some(Value::Bool(x || y)),
        operation(BinaryOperator::And, Value::Bool(x), Value::Bool(y)) == operation(
            BinaryOperator::And,
            Value::Bool(y),
            Value::Bool(x),
        ),
        operation(BinaryOperator::Or, Value::Bool(x), Value::Bool(y)) == operation(
            BinaryOperator::Or,
            Value::Bool(y),
            Value::Bool(x),
        ),
        !(v is Bool) ==> {
            &&& operation(BinaryOperator::And, v, w) is None
            &&& operation(BinaryOperator::And, w, v) is None
            &&& operation(BinaryOperator::Or, v, w) is None
            &&& operation(BinaryOperator::Or, w, v) is None
        },
{
}

/// Texts join by `+` (and by `%`): the result is the left text followed by the right
/// one. Texts are compared only for equality: `-`, `*`, `/`, `<`, `<=`, `>`, `>=`,
/// `&&` and `||` fail on two texts.
pub proof fn law_text_concatenation(s: Seq<char>, t: Seq<char>)
    ensures
        operation(BinaryOperator::Addition, Value::String(s), Value::String(t)) == Some(Value::String(s + t)),
        operation(BinaryOperator::Modulo, Value::String(s), Value::String(t)) == Some(Value::String(s + t)),
        operation(BinaryOperator::Equal, Value::String(s), Value::String(t)) == Some(Value::Bool(s == t)),
        operation(BinaryOperator::NotEqual, Value::String(s), Value::String(t)) == Some(Value::Bool(s != t)),
        operation(BinaryOperator::Subtraction, Value::String(s), Value::String(t)) is None,
        operation(BinaryOperator::Multiplication, Value::String(s), Value::String(t)) is None,
        operation(BinaryOperator::Division, Value::String(s), Value::String(t)) is None,
        operation(BinaryOperator::LessThan, Value::String(s), Value::String(t)) is None,
        operation(BinaryOperator::LessThanOrEqual, Value::String(s), Value::String(t)) is None,
        operation(BinaryOperator::GreaterThan, Value::String(s), Value::String(t)) is None,
        operation(BinaryOperator::GreaterThanOrEqual, Value::String(s), Value::String(t)) is None,
        operation(BinaryOperator::And, Value::String(s), Value::String(t)) is None,
        operation(BinaryOperator::Or, Value::String(s), Value::String(t)) is None,
{
}

/// The error of an operation that fails.
fn operation_failed() -> (r: InterpreterError)
    ensures
        r is TestFailed,
{
    InterpreterError::TestFailed(crate::text::string_of("operation failed"))
}

/// `s` repeated `n` times.
fn repeat_text(s: &String, n: i64) -> (r: String)
    requires
        n >= 0,
    ensures
        r@ == repeated(s@, n as nat),
{
    let mut r = String::new();
    let mut i: i64 = 0;
    while i < n
        invariant
            0 <= i <= n,
            r@ == repeated(s@, i as nat),
        decreases n - i,
    {
        r.append(s.as_str());
        i += 1;
    }
    r
}

/// The concatenation of `a` and `b`.
fn concat(a: &String, b: &String) -> (r: String)
    ensures
        r@ == a@ + b@,
{
    let mut r = a.clone();
    r.append(b.as_str());
    r
}

/// Applies a binary operator to two values (see `operation`); operations on floats
/// are done by `floats`.
pub fn operate<F: FloatArithmetic>(
    op: BinaryOperator,
    left: &InstructionResult,
    right: &InstructionResult,
    floats: &F,
) -> (r: Result<InstructionResult, InterpreterError>)
    ensures
        !has_float(left@, right@) ==> match operation(op, left@, right@) {
            Some(v) => r is Ok && r->Ok_0@ == v,
            None => r is Err && r->Err_0 is TestFailed,
        },
{
    match (left, right) {
        (InstructionResult::Int(a), InstructionResult::Int(b)) => {
            let (a, b) = (*a, *b);
            match op {
                BinaryOperator::Addition => Ok(InstructionResult::Int(a.wrapping_add(b))),
                BinaryOperator::Subtraction => Ok(InstructionResult::Int(a.wrapping_sub(b))),
                BinaryOperator::Multiplication => Ok(InstructionResult::Int(a.wrapping_mul(b))),
                BinaryOperator::Division => match a.checked_div(b) {
                    Some(q) => Ok(InstructionResult::Int(q)),
                    None => Err(operation_failed()),
                },
                BinaryOperator::Modulo => match a.checked_rem(b) {
                    Some(q) => Ok(InstructionResult::Int(q)),
                    None => Err(operation_failed()),
                },
                BinaryOperator::Equal => Ok(InstructionResult::Bool(a == b)),
                BinaryOperator::NotEqual => Ok(InstructionResult::Bool(a != b)),
                BinaryOperator::GreaterThan => Ok(InstructionResult::Bool(a > b)),
                BinaryOperator::GreaterThanOrEqual => Ok(InstructionResult::Bool(a >= b)),
                BinaryOperator::LessThan => Ok(InstructionResult::Bool(a < b)),
                BinaryOperator::LessThanOrEqual => Ok(InstructionResult::Bool(a <= b)),
                _ => Err(operation_failed()),
            }
        },
        (InstructionResult::String(a), InstructionResult::String(b)) => match op {
            BinaryOperator::Addition | BinaryOperator::Modulo => Ok(InstructionResult::String(concat(a, b))),
            BinaryOperator::Equal => Ok(InstructionResult::Bool(a.eq(b))),
            BinaryOperator::NotEqual => Ok(InstructionResult::Bool(!a.eq(b))),
            _ => Err(operation_failed()),
        },
        (InstructionResult::String(a), InstructionResult::Int(n)) => match op {
            BinaryOperator::Multiplication => {
                if *n >= 0 {
                    Ok(InstructionResult::String(repeat_text(a, *n)))
                } else {
                    Err(operation_failed())
                }
            },
            _ => Err(operation_failed()),
        },
        (InstructionResult::Bool(a), InstructionResult::Bool(b)) => {
            let (a, b) = (*a, *b);
            match op {
                BinaryOperator::And => Ok(InstructionResult::Bool(a && b)),
                BinaryOperator::Or => Ok(InstructionResult::Bool(a || b)),
                BinaryOperator::Equal => Ok(InstructionResult::Bool(a == b)),
                BinaryOperator::NotEqual => Ok(InstructionResult::Bool(a != b)),
                _ => Err(operation_failed()),
            }
        },
        (InstructionResult::Float(a), InstructionResult::Float(b)) => match op {
            BinaryOperator::Addition => Ok(InstructionResult::Float(floats.add(a, b))),
            BinaryOperator::Subtraction => Ok(InstructionResult::Float(floats.subtract(a, b))),
            BinaryOperator::Multiplication => Ok(InstructionResult::Float(floats.multiply(a, b))),
            BinaryOperator::Division => Ok(InstructionResult::Float(floats.divide(a, b))),
            BinaryOperator::Modulo => Ok(InstructionResult::Float(floats.remainder(a, b))),
            BinaryOperator::Equal => Ok(InstructionResult::Bool(floats.equal(a, b))),
            BinaryOperator::NotEqual => Ok(InstructionResult::Bool(!floats.equal(a, b))),
            BinaryOperator::LessThan => Ok(InstructionResult::Bool(floats.less(a, b))),
            BinaryOperator::GreaterThan => Ok(InstructionResult::Bool(floats.less(b, a))),
            BinaryOperator::LessThanOrEqual => Ok(InstructionResult::Bool(!floats.less(b, a))),
            BinaryOperator::GreaterThanOrEqual => Ok(InstructionResult::Bool(!floats.less(a, b))),
            _ => Err(operation_failed()),
        },
        _ => Err(operation_failed()),
    }
}

/// The value of `!v` or `-v`: logical negation of a boolean; wrapping negation of an
/// integer; a float is negated by `floats`. Other values fail.
pub fn unary_operate<F: FloatArithmetic>(
    op: crate::operators::UnaryOperator,
    v: &InstructionResult,
    floats: &F,
) -> (r: Result<InstructionResult, InterpreterError>)
    ensures
        match (op, *v) {
            (crate::operators::UnaryOperator::Not, InstructionResult::Bool(b)) => r is Ok && r->Ok_0@
                == Value::Bool(!b),
            (crate::operators::UnaryOperator::Negation, InstructionResult::Int(i)) => r is Ok
                && r->Ok_0@ == Value::Int(0i64.wrapping_sub(i)),
            (crate::operators::UnaryOperator::Negation, InstructionResult::Float(_)) => r is Ok
                && r->Ok_0 is Float,
            _ => r is Err,
        },
{
    match (op, v) {
        (crate::operators::UnaryOperator::Not, InstructionResult::Bool(b)) => Ok(InstructionResult::Bool(!*b)),
        (crate::operators::UnaryOperator::Negation, InstructionResult::Int(i)) => Ok(
            InstructionResult::Int(0i64.wrapping_sub(*i)),
        ),
        (crate::operators::UnaryOperator::Negation, InstructionResult::Float(f)) => Ok(
            InstructionResult::Float(floats.negate(f)),
        ),
        _ => Err(operation_failed()),
    }
}

/// The character of a decimal digit.
pub open spec fn digit_char(d: int) -> char {
    ((d + '0' as int) as u32) as char
}

/// The decimal digits of a natural number, most significant first.
pub open spec fn decimal_digits(n: nat) -> Seq<char>
    decreases n,
{
    if n < 10 {
        seq![digit_char(n as int)]
    } else {
        decimal_digits(n / 10) + seq![digit_char((n % 10) as int)]
    }
}

/// The decimal writing of an integer, with a minus sign when it is negative.
pub open spec fn decimal(i: int) -> Seq<char> {
    if i < 0 {
        seq!['-'] + decimal_digits((-i) as nat)
    } else {
        decimal_digits(i as nat)
    }
}

fn digits_of(n: u64) -> (r: Vec<char>)
    ensures
        r@ == decimal_digits(n as nat),
    decreases n,
{
    let d = (n % 10) as u8;
    let c = (d + 48u8) as char;
    if n < 10 {
        let mut r = Vec::new();
        r.push(c);
        assert(r@ =~= decimal_digits(n as nat));
        r
    } else {
        let mut r = digits_of(n / 10);
        r.push(c);
        assert(r@ =~= decimal_digits(n as nat));
        r
    }
}

/// The decimal writing of `i`.
pub fn int_text(i: i64) -> (r: String)
    ensures
        r@ == decimal(i as int),
{
    if i < 0 {
        let magnitude: u64 = if i == i64::MIN {
            9223372036854775808u64
        } else {
            (-i) as u64
        };
        let mut cs: Vec<char> = Vec::new();
        cs.push('-');
        let ds = digits_of(magnitude);
        let mut k: usize = 0;
        while k < ds.len()
            invariant
                k <= ds@.len(),
                cs@ == seq!['-'] + ds@.take(k as int),
            decreases ds@.len() - k,
        {
            cs.push(ds[k]);
            k += 1;
            assert(cs@ =~= seq!['-'] + ds@.take(k as int));
        }
        assert(ds@.take(k as int) =~= ds@);
        string_from(cs.as_slice())
    } else {
        let ds = digits_of(i as u64);
        string_from(ds.as_slice())
    }
}

/// The digits of an integer's text: the text without its sign.
pub open spec fn int_body(s: Seq<char>) -> Seq<char> {
    if s.len() > 0 && (s[0] == '-' || s[0] == '+') {
        s.drop_first()
    } else {
        s
    }
}

/// The integer that a text denotes as `str::parse::<i64>` reads it: an optional sign,
/// then one or more decimal digits, in the range of `i64`.
pub open spec fn parsed_int(s: Seq<char>) -> Option<i64> {
    let negative = s.len() > 0 && s[0] == '-';
    let body = int_body(s);
    if body.len() == 0 || !(forall|j: int| 0 <= j < body.len() ==> is_digit(#[trigger] body[j])) {
        None
    } else {
        let v = if negative {
            -digits_value(body)
        } else {
            digits_value(body)
        };
        if i64::MIN <= v <= i64::MAX {
            Some(v as i64)
        } else {
            None
        }
    }
}

/// The integer that `s` denotes (see `parsed_int`).
pub fn parse_int(s: &String) -> (r: Option<i64>)
    ensures
        r == parsed_int(s@),
{
    let cs = chars_of(s.as_str());
    let negative = cs.len() > 0 && cs[0] == '-';
    let start: usize = if cs.len() > 0 && (cs[0] == '-' || cs[0] == '+') {
        1
    } else {
        0
    };
    let ghost body = int_body(s@);
    assert(body =~= cs@.skip(start as int));
    if start >= cs.len() {
        return None;
    }
    let mut value: u64 = 0;
    let mut i: usize = start;
    while i < cs.len()
        invariant
            cs@ == s@,
            body == int_body(s@),
            negative == (s@.len() > 0 && s@[0] == '-'),
            start <= i <= cs@.len(),
            body.len() == cs@.len() - start,
            forall|j: int| 0 <= j < body.len() ==> #[trigger] body[j] == cs@[j + start],
            forall|j: int| 0 <= j < i - start ==> is_digit(#[trigger] body[j]),
            value == digits_value(body.take(i - start)),
            value <= 9223372036854775808u64,
        decreases cs@.len() - i,
    {
        let c = cs[i];
        assert(body[i - start] == cs@[i as int]);
        if !('0' <= c && c <= '9') {
            assert(!is_digit(body[i - start]));
            return None;
        }
        let d = (c as u32 - '0' as u32) as u64;
        assert(body.take(i - start + 1).drop_last() =~= body.take(i - start));
        if value > (9223372036854775808u64 - d) / 10 {
            proof {
                assert(digits_value(body.take(i - start + 1)) == 10 * value + d);
                assert(10 * value + d > 9223372036854775808u64) by (nonlinear_arith)
                    requires
                        value > (9223372036854775808u64 - d) / 10,
                        0 <= d <= 9,
                ;
            }
            let mut k: usize = i + 1;
            while k < cs.len()
                invariant
                    cs@ == s@,
                    body == int_body(s@),
                    start <= i,
                    value > (9223372036854775808u64 - d) / 10,
                    0 <= d <= 9,
                    digits_value(body.take(i - start + 1)) == 10 * value + d,
                    i + 1 <= k <= cs@.len(),
                    body.len() == cs@.len() - start,
                    forall|j: int| 0 <= j < body.len() ==> #[trigger] body[j] == cs@[j + start],
                    forall|j: int| 0 <= j < k - start ==> is_digit(#[trigger] body[j]),
                decreases cs@.len() - k,
            {
                assert(body[k - start] == cs@[k as int]);
                if !('0' <= cs[k] && cs[k] <= '9') {
                    assert(!is_digit(body[k - start]));
                    return None;
                }
                k += 1;
            }
            proof {
                lemma_digits_value_grows(body, i - start + 1);
                assert(body.take(body.len() as int) =~= body);
            }
            return None;
        }
        assert(value * 10 + d <= 9223372036854775808u64) by (nonlinear_arith)
            requires
                0 <= value <= (9223372036854775808u64 - d) / 10,
                0 <= d <= 9,
        ;
        value = value * 10 + d;
        i += 1;
    }
    assert(body.take(body.len() as int) =~= body);
    if negative {
        if value == 9223372036854775808u64 {
            Some(i64::MIN)
        } else {
            let v = value as i64;
            Some(-v)
        }
    } else {
        if value > 9223372036854775807u64 {
            None
        } else {
            Some(value as i64)
        }
    }
}

/// The text a value is shown as, where it does not rest on float arithmetic: a
/// string itself, an integer in decimal, a boolean as `true` or `false`, the empty
/// value as `()`, a regex as the list of its texts.
pub open spec fn shown(v: Value) -> Option<Seq<char>> {
    match v {
        Value::String(s) => Some(s),
        Value::Int(i) => Some(decimal(i as int)),
        Value::Bool(b) => Some(
            if b {
                "true"@
            } else {
                "false"@
            },
        ),
        Value::Nothing => Some("()"@),
        Value::Regex(items) => Some(crate::text::debug_list(items)),
        Value::Float(_) => None,
    }
}

/// The text a value is shown as: a string itself, an integer in decimal, a boolean
/// as `true` or `false`, the empty value as `()`, a regex as the list of its texts;
/// a float is shown by `floats`.
pub fn value_text<F: FloatArithmetic>(v: &InstructionResult, floats: &F) -> (r: String)
    ensures
        v matches InstructionResult::String(s) ==> r@ == s@,
        v matches InstructionResult::Int(i) ==> r@ == decimal(*i as int),
        v matches InstructionResult::Bool(b) ==> r@ == if *b {
            "true"@
        } else {
            "false"@
        },
        *v is Nothing ==> r@ == "()"@,
        v matches InstructionResult::Regex(items) ==> r@ == crate::text::debug_list(
            items@.map_values(|s: String| s@),
        ),
        shown(v@) matches Some(t) ==> r@ == t,
{
    match v {
        InstructionResult::String(s) => s.clone(),
        InstructionResult::Int(i) => int_text(*i),
        InstructionResult::Bool(b) => if *b {
            crate::text::string_of("true")
        } else {
            crate::text::string_of("false")
        },
        InstructionResult::Nothing => crate::text::string_of("()"),
        InstructionResult::Regex(items) => crate::text::debug_text(items),
        InstructionResult::Float(f) => floats.display(f),
    }
}

/// The error of a value that cannot be cast from `from` to `to`.
fn cast_failed(v: &InstructionResult, from: Type, to: Type) -> (r: InterpreterError)
    ensures
        r matches InterpreterError::TypeCast { result, from: f, to: t } && result@ == v@ && f == from
            && t == to,
{
    InterpreterError::TypeCast { result: v.clone(), from, to }
}

/// Casts a value to a type: to a string, its text (see `value_text`); to an integer,
/// a string that denotes one (else a cast error), a boolean as 0 or 1, a float
/// through `floats`; to a boolean, the string `true` or `false` (else a cast error),
/// an integer or float that is not zero; to a float, through `floats`. Other casts
/// fail.
pub fn cast<F: FloatArithmetic>(v: &InstructionResult, to: &Type, floats: &F) -> (r: Result<
    InstructionResult,
    InterpreterError,
>)
    ensures
        *to == Type::String ==> r is Ok && r->Ok_0 is String && (shown(v@) matches Some(t)
            ==> r->Ok_0@ == Value::String(t)),
        *to == Type::Int ==> match *v {
            InstructionResult::String(s) => match parsed_int(s@) {
                Some(i) => r is Ok && r->Ok_0@ == Value::Int(i),
                None => r is Err && r->Err_0 == InterpreterError::TypeCast { result: *v, from: Type::String, to: Type::Int },
            },
            InstructionResult::Bool(b) => r is Ok && r->Ok_0@ == Value::Int(if b { 1 } else { 0 }),
            InstructionResult::Float(_) => r is Ok && r->Ok_0 is Int,
            _ => r is Err,
        },
        *to == Type::Bool ==> match *v {
            InstructionResult::String(s) => if s@ == "true"@ {
                r is Ok && r->Ok_0@ == Value::Bool(true)
            } else if s@ == "false"@ {
                r is Ok && r->Ok_0@ == Value::Bool(false)
            } else {
                r is Err && (r->Err_0 matches InterpreterError::TypeCast { result, from, to: t } && result@
                    == v@ && from == Type::String && t == Type::Bool)
            },
            InstructionResult::Int(i) => r is Ok && r->Ok_0@ == Value::Bool(i != 0),
            InstructionResult::Float(_) => r is Ok && r->Ok_0 is Bool,
            _ => r is Err,
        },
        *to == Type::Float ==> match *v {
            InstructionResult::String(_) | InstructionResult::Int(_) | InstructionResult::Bool(_) => true,
            _ => r is Err,
        },
        !(*to == Type::String || *to == Type::Int || *to == Type::Bool || *to == Type::Float) ==> r is Err,
{
    match to {
        Type::String => Ok(InstructionResult::String(value_text(v, floats))),
        Type::Int => match v {
            InstructionResult::String(s) => match parse_int(s) {
                Some(i) => Ok(InstructionResult::Int(i)),
                None => Err(InterpreterError::TypeCast { result: InstructionResult::String(s.clone()), from: Type::String, to: Type::Int }),
            },
            InstructionResult::Bool(b) => Ok(InstructionResult::Int(if *b { 1 } else { 0 })),
            InstructionResult::Float(f) => Ok(InstructionResult::Int(floats.to_int(f))),
            _ => Err(operation_failed()),
        },
        Type::Bool => match v {
            InstructionResult::String(s) => {
                proof {
                    reveal_strlit("true");
                    reveal_strlit("false");
                }
                if crate::text::chars_equal(&chars_of(s.as_str()), "true") {
                    Ok(InstructionResult::Bool(true))
                } else if crate::text::chars_equal(&chars_of(s.as_str()), "false") {
                    Ok(InstructionResult::Bool(false))
                } else {
                    Err(cast_failed(v, Type::String, Type::Bool))
                }
            },
            InstructionResult::Int(i) => Ok(InstructionResult::Bool(*i != 0)),
            InstructionResult::Float(f) => Ok(InstructionResult::Bool(!floats.is_zero(f))),
            _ => Err(operation_failed()),
        },
        Type::Float => match v {
            InstructionResult::String(s) => match floats.parse(s) {
                Some(f) => Ok(InstructionResult::Float(f)),
                None => Err(cast_failed(v, Type::String, Type::Float)),
            },
            InstructionResult::Int(i) => Ok(InstructionResult::Float(floats.from_int(*i))),
            InstructionResult::Bool(b) => Ok(InstructionResult::Float(floats.from_int(if *b { 1 } else { 0 }))),
            _ => Err(operation_failed()),
        },
        _ => Err(operation_failed()),
    }
}

proof fn lemma_digits_of_decimal(n: nat)
    ensures
        forall|j: int| 0 <= j < decimal_digits(n).len() ==> is_digit(#[trigger] decimal_digits(n)[j]),
        digits_value(decimal_digits(n)) == n,
        decimal_digits(n).len() > 0,
    decreases n,
{
    let d = (n % 10) as int;
    assert(digit_char(d) as int == d + 48) by {
        assert(0 <= d < 10);
    }
    if n < 10 {
        let s = decimal_digits(n);
        assert(s.drop_last() =~= seq![]);
        assert(digits_value(s.drop_last()) == 0);
        assert(s.last() == digit_char(d));
        assert(digits_value(s) == 10 * digits_value(s.drop_last()) + (s.last() as int - '0' as int));
    } else {
        lemma_digits_of_decimal(n / 10);
        let s = decimal_digits(n);
        assert(s.drop_last() =~= decimal_digits(n / 10));
        assert(s.last() == digit_char(d));
        assert(digits_value(s) == 10 * digits_value(s.drop_last()) + (s.last() as int - '0' as int));
        assert(10 * (n / 10) + d == n);
    }
}

/// Reading back the decimal writing of an integer gives the integer:
/// `parse_int(int_text(i))` is `Some(i)`.
pub proof fn law_parse_int_text(i: i64)
    ensures
        parsed_int(decimal(i as int)) == Some(i),
{
    if i < 0 {
        let m = (-(i as int)) as nat;
        lemma_digits_of_decimal(m);
        let s = decimal(i as int);
        assert(s[0] == '-');
        assert(int_body(s) =~= decimal_digits(m));
    } else {
        lemma_digits_of_decimal(i as nat);
        let s = decimal(i as int);
        assert(is_digit(s[0]));
        assert(int_body(s) == s);
    }
}

} // verus!
