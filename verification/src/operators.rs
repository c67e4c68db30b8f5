use vstd::prelude::*;

use crate::types::Type;

verus! {

/// The binary operators of the language.
#[derive(Debug, PartialEq, Eq, Structural, Clone, Copy)]
pub enum BinaryOperator {
    And,
    Or,
    Equal,
    NotEqual,
    GreaterThan,
    GreaterThanOrEqual,
    LessThan,
    LessThanOrEqual,
    Addition,
    Subtraction,
    Multiplication,
    Division,
    Modulo,
}

/// The unary operators of the language.
#[derive(Debug, PartialEq, Eq, Structural, Clone, Copy)]
pub enum UnaryOperator {
    Not,
    Negation,
}

/// The operator that leads the precedence group of `op`: `&&` for the logical
/// operators, `==` for the comparisons, `+` for addition and subtraction, and `*` for
/// multiplication, division and modulo.
pub open spec fn group_of(op: BinaryOperator) -> BinaryOperator {
    match op {
        BinaryOperator::Addition | BinaryOperator::Subtraction => BinaryOperator::Addition,
        BinaryOperator::Multiplication | BinaryOperator::Division | BinaryOperator::Modulo => {
            BinaryOperator::Multiplication
        },
        BinaryOperator::And | BinaryOperator::Or => BinaryOperator::And,
        _ => BinaryOperator::Equal,
    }
}

/// The number of an operator, in the order the operators are declared.
pub open spec fn operator_number(op: BinaryOperator) -> u8 {
    match op {
        BinaryOperator::And => 0,
        BinaryOperator::Or => 1,
        BinaryOperator::Equal => 2,
        BinaryOperator::NotEqual => 3,
        BinaryOperator::GreaterThan => 4,
        BinaryOperator::GreaterThanOrEqual => 5,
        BinaryOperator::LessThan => 6,
        BinaryOperator::LessThanOrEqual => 7,
        BinaryOperator::Addition => 8,
        BinaryOperator::Subtraction => 9,
        BinaryOperator::Multiplication => 10,
        BinaryOperator::Division => 11,
        BinaryOperator::Modulo => 12,
    }
}

/// The precedence of an operator: operators with a higher one bind tighter.
pub open spec fn precedence(op: BinaryOperator) -> u8 {
    operator_number(group_of(op))
}

/// The pairs of operand types an operator accepts, and the type of its result on each.
pub open spec fn operator_signature(op: BinaryOperator) -> Seq<(Type, Type, Type)> {
    match op {
        BinaryOperator::And | BinaryOperator::Or => seq![(Type::Bool, Type::Bool, Type::Bool)],
        BinaryOperator::Equal | BinaryOperator::NotEqual => seq![
            (Type::Int, Type::Int, Type::Bool),
            (Type::Float, Type::Float, Type::Bool),
            (Type::String, Type::String, Type::Bool),
            (Type::Bool, Type::Bool, Type::Bool),
        ],
        BinaryOperator::GreaterThan | BinaryOperator::GreaterThanOrEqual
        | BinaryOperator::LessThan | BinaryOperator::LessThanOrEqual => seq![
            (Type::Int, Type::Int, Type::Bool),
            (Type::Float, Type::Float, Type::Bool),
        ],
        BinaryOperator::Addition => seq![
            (Type::Int, Type::Int, Type::Int),
            (Type::Float, Type::Float, Type::Float),
            (Type::String, Type::String, Type::String),
        ],
        BinaryOperator::Subtraction | BinaryOperator::Division => seq![
            (Type::Int, Type::Int, Type::Int),
            (Type::Float, Type::Float, Type::Float),
        ],
        BinaryOperator::Multiplication => seq![
            (Type::Int, Type::Int, Type::Int),
            (Type::Float, Type::Float, Type::Float),
            (Type::String, Type::Int, Type::String),
        ],
        BinaryOperator::Modulo => seq![
            (Type::Int, Type::Int, Type::Int),
            (Type::Float, Type::Float, Type::Float),
            (Type::String, Type::String, Type::String),
        ],
    }
}

/// The result type of the first entry of `sig` from `i` on whose operand types are
/// `left` and `right`.
pub open spec fn lookup_result(sig: Seq<(Type, Type, Type)>, i: int, left: Type, right: Type) -> Option<Type>
    decreases sig.len() - i,
{
    if i < 0 || i >= sig.len() {
        None
    } else if sig[i].0 == left && sig[i].1 == right {
        Some(sig[i].2)
    } else {
        lookup_result(sig, i + 1, left, right)
    }
}

/// The type of `left op right`, if the operator accepts those operand types.
pub open spec fn result_type(op: BinaryOperator, left: Type, right: Type) -> Option<Type> {
    lookup_result(operator_signature(op), 0, left, right)
}

/// Operators bind in four levels, tightest first: `*`, `/` and `%`; then `+` and `-`;
/// then the comparisons `==`, `!=`, `>`, `>=`, `<`, `<=`; then `&&` and `||`. Operators
/// of one level bind equally tightly.
pub proof fn law_precedence_levels()
    ensures
        precedence(BinaryOperator::Multiplication) == precedence(BinaryOperator::Division),
        precedence(BinaryOperator::Multiplication) == precedence(BinaryOperator::Modulo),
        precedence(BinaryOperator::Addition) == precedence(BinaryOperator::Subtraction),
        precedence(BinaryOperator::Addition) < precedence(BinaryOperator::Multiplication),
        precedence(BinaryOperator::Equal) < precedence(BinaryOperator::Addition),
        precedence(BinaryOperator::Equal) == precedence(BinaryOperator::NotEqual),
        precedence(BinaryOperator::Equal) == precedence(BinaryOperator::GreaterThan),
        precedence(BinaryOperator::Equal) == precedence(BinaryOperator::GreaterThanOrEqual),
        precedence(BinaryOperator::Equal) == precedence(BinaryOperator::LessThan),
        precedence(BinaryOperator::Equal) == precedence(BinaryOperator::LessThanOrEqual),
        precedence(BinaryOperator::And) < precedence(BinaryOperator::Equal),
        precedence(BinaryOperator::And) == precedence(BinaryOperator::Or),
{
}

/// The operand types each operator accepts, as the language documents them, with
/// the type of the result: `==` and `!=` take two integers, floats, texts or booleans
/// and give a boolean; the other comparisons take two integers or two floats (not
/// texts) and give a boolean; `+` takes two integers, floats or texts; `-` and `/` two
/// integers or floats; `*` two integers or floats, or a text and an integer; `%` two
/// integers, floats or texts; `&&` and `||` two booleans; each arithmetic result has
/// the operands' type. No other pair of equal types is accepted.
pub proof fn law_operand_types(t: Type)
    requires
        t == Type::Int || t == Type::Float || t == Type::String || t == Type::Bool,
    ensures
        result_type(BinaryOperator::Equal, t, t) == Some(Type::Bool),
        result_type(BinaryOperator::NotEqual, t, t) == Some(Type::Bool),
        (t == Type::Int || t == Type::Float) ==> {
            &&& result_type(BinaryOperator::LessThan, t, t) == Some(Type::Bool)
            &&& result_type(BinaryOperator::LessThanOrEqual, t, t) == Some(Type::Bool)
            &&& result_type(BinaryOperator::GreaterThan, t, t) == Some(Type::Bool)
            &&& result_type(BinaryOperator::GreaterThanOrEqual, t, t) == Some(Type::Bool)
            &&& result_type(BinaryOperator::Subtraction, t, t) == Some(t)
            &&& result_type(BinaryOperator::Division, t, t) == Some(t)
            &&& result_type(BinaryOperator::Multiplication, t, t) == Some(t)
        },
        t != Type::Bool ==> result_type(BinaryOperator::Addition, t, t) == Some(t),
        t != Type::Bool ==> result_type(BinaryOperator::Modulo, t, t) == Some(t),
        t == Type::String ==> {
            &&& result_type(BinaryOperator::LessThan, t, t) is None
            &&& result_type(BinaryOperator::LessThanOrEqual, t, t) is None
            &&& result_type(BinaryOperator::GreaterThan, t, t) is None
            &&& result_type(BinaryOperator::GreaterThanOrEqual, t, t) is None
            &&& result_type(BinaryOperator::Subtraction, t, t) is None
            &&& result_type(BinaryOperator::Division, t, t) is None
            &&& result_type(BinaryOperator::Multiplication, t, t) is None
        },
        t == Type::Bool ==> {
            &&& result_type(BinaryOperator::LessThan, t, t) is None
            &&& result_type(BinaryOperator::LessThanOrEqual, t, t) is None
            &&& result_type(BinaryOperator::GreaterThan, t, t) is None
            &&& result_type(BinaryOperator::GreaterThanOrEqual, t, t) is None
            &&& result_type(BinaryOperator::Addition, t, t) is None
            &&& result_type(BinaryOperator::Subtraction, t, t) is None
            &&& result_type(BinaryOperator::Multiplication, t, t) is None
            &&& result_type(BinaryOperator::Division, t, t) is None
            &&& result_type(BinaryOperator::Modulo, t, t) is None
        },
        t != Type::Bool ==> result_type(BinaryOperator::And, t, t) is None && result_type(
            BinaryOperator::Or,
            t,
            t,
        ) is None,
        result_type(BinaryOperator::Multiplication, Type::String, Type::Int) == Some(Type::String),
        result_type(BinaryOperator::And, Type::Bool, Type::Bool) == Some(Type::Bool),
        result_type(BinaryOperator::Or, Type::Bool, Type::Bool) == Some(Type::Bool),
{
    reveal_with_fuel(lookup_result, 5);
}

/// A comparison or a logical operator always gives a boolean, and an operator never
/// accepts operands of two different types but for a text repeated an integer
/// number of times.
pub proof fn law_result_types(op: BinaryOperator, left: Type, right: Type)
    ensures
        result_type(op, left, right) is Some && left != right ==> op == BinaryOperator::Multiplication
            && left == Type::String && right == Type::Int,
        result_type(op, left, right) is Some && (group_of(op) == BinaryOperator::Equal || group_of(op)
            == BinaryOperator::And) ==> result_type(op, left, right) == Some(Type::Bool),
{
    reveal_with_fuel(lookup_result, 5);
}

impl BinaryOperator {
    /// The operator that leads this operator's precedence group.
    pub fn value(&self) -> (r: BinaryOperator)
        ensures
            r == group_of(*self),
    {
        match self {
            BinaryOperator::Addition => BinaryOperator::Addition,
            BinaryOperator::Subtraction => BinaryOperator::Addition,
            BinaryOperator::Multiplication => BinaryOperator::Multiplication,
            BinaryOperator::Division => BinaryOperator::Multiplication,
            BinaryOperator::Modulo => BinaryOperator::Multiplication,
            BinaryOperator::Equal => BinaryOperator::Equal,
            BinaryOperator::NotEqual => BinaryOperator::Equal,
            BinaryOperator::GreaterThan => BinaryOperator::Equal,
            BinaryOperator::GreaterThanOrEqual => BinaryOperator::Equal,
            BinaryOperator::LessThan => BinaryOperator::Equal,
            BinaryOperator::LessThanOrEqual => BinaryOperator::Equal,
            BinaryOperator::And => BinaryOperator::And,
            BinaryOperator::Or => BinaryOperator::And,
        }
    }

    /// The number of this operator, in the order the operators are declared.
    pub fn to_u8(&self) -> (r: u8)
        ensures
            r == operator_number(*self),
    {
        match self {
            BinaryOperator::And => 0,
            BinaryOperator::Or => 1,
            BinaryOperator::Equal => 2,
            BinaryOperator::NotEqual => 3,
            BinaryOperator::GreaterThan => 4,
            BinaryOperator::GreaterThanOrEqual => 5,
            BinaryOperator::LessThan => 6,
            BinaryOperator::LessThanOrEqual => 7,
            BinaryOperator::Addition => 8,
            BinaryOperator::Subtraction => 9,
            BinaryOperator::Multiplication => 10,
            BinaryOperator::Division => 11,
            BinaryOperator::Modulo => 12,
        }
    }

    /// The precedence of this operator.
    pub fn priority(&self) -> (r: u8)
        ensures
            r == precedence(*self),
    {
        self.value().to_u8()
    }

    /// Whether this operator binds at most as tightly as `other`.
    pub fn binds_looser_or_equal(&self, other: &BinaryOperator) -> (r: bool)
        ensures
            r == (precedence(*self) <= precedence(*other)),
    {
        self.priority() <= other.priority()
    }

    /// The pairs of operand types this operator accepts.
    pub fn valid_types(&self) -> (r: Vec<(Type, Type)>)
        ensures
            r@.len() == operator_signature(*self).len(),
            forall|i: int|
                0 <= i < r@.len() ==> #[trigger] r@[i] == (
                    operator_signature(*self)[i].0,
                    operator_signature(*self)[i].1,
                ),
    {
        let sig = self.resulting_types();
        let mut r: Vec<(Type, Type)> = Vec::new();
        let mut i: usize = 0;
        while i < sig.len()
            invariant
                i <= sig@.len(),
                sig@ == operator_signature(*self),
                r@.len() == i,
                forall|j: int| 0 <= j < i ==> #[trigger] r@[j] == (sig@[j].0, sig@[j].1),
            decreases sig@.len() - i,
        {
            r.push((sig[i].0.clone(), sig[i].1.clone()));
            i += 1;
        }
        r
    }

    /// The pairs of operand types this operator accepts, each with the type of the
    /// result.
    pub fn resulting_types(&self) -> (r: Vec<(Type, Type, Type)>)
        ensures
            r@ == operator_signature(*self),
    {
        let r = match self {
            BinaryOperator::And | BinaryOperator::Or => vec![(Type::Bool, Type::Bool, Type::Bool)],
            BinaryOperator::Equal | BinaryOperator::NotEqual => vec![
                (Type::Int, Type::Int, Type::Bool),
                (Type::Float, Type::Float, Type::Bool),
                (Type::String, Type::String, Type::Bool),
                (Type::Bool, Type::Bool, Type::Bool),
            ],
            BinaryOperator::GreaterThan | BinaryOperator::GreaterThanOrEqual
            | BinaryOperator::LessThan | BinaryOperator::LessThanOrEqual => vec![
                (Type::Int, Type::Int, Type::Bool),
                (Type::Float, Type::Float, Type::Bool),
            ],
            BinaryOperator::Addition => vec![
                (Type::Int, Type::Int, Type::Int),
                (Type::Float, Type::Float, Type::Float),
                (Type::String, Type::String, Type::String),
            ],
            BinaryOperator::Subtraction | BinaryOperator::Division => vec![
                (Type::Int, Type::Int, Type::Int),
                (Type::Float, Type::Float, Type::Float),
            ],
            BinaryOperator::Multiplication => vec![
                (Type::Int, Type::Int, Type::Int),
                (Type::Float, Type::Float, Type::Float),
                (Type::String, Type::Int, Type::String),
            ],
            BinaryOperator::Modulo => vec![
                (Type::Int, Type::Int, Type::Int),
                (Type::Float, Type::Float, Type::Float),
                (Type::String, Type::String, Type::String),
            ],
        };
        assert(r@ =~= operator_signature(*self));
        r
    }

    /// The type of `left op right`, if this operator accepts those operand types.
    pub fn result_type_of(&self, left: &Type, right: &Type) -> (r: Option<Type>)
        ensures
            r == result_type(*self, *left, *right),
    {
        let sig = self.resulting_types();
        let mut i: usize = 0;
        while i < sig.len()
            invariant
                i <= sig@.len(),
                sig@ == operator_signature(*self),
                lookup_result(sig@, i as int, *left, *right) == result_type(*self, *left, *right),
            decreases sig@.len() - i,
        {
            if sig[i].0.same(left) && sig[i].1.same(right) {
                return Some(sig[i].2.clone());
            }
            i += 1;
        }
        None
    }
}

} // verus!
