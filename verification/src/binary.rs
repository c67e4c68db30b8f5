use vstd::prelude::*;

use crate::error::InterpreterError;
use crate::instruction::InstructionResult;
use crate::operators::{operator_signature, precedence, BinaryOperator};
use crate::types::Type;
use crate::values::{has_float, operate, operation, FloatArithmetic};

verus! {

/// A binary operation of the language, known by its operator.
pub trait BinaryOperationTrait {
    /// The operator of this operation.
    spec fn op(&self) -> BinaryOperator;

    /// The operator of this operation.
    fn operator(&self) -> (r: BinaryOperator)
        ensures
            r == self.op(),
    ;

    /// Applies the operation to two values (see `values::operation`).
    fn operate<F: FloatArithmetic>(
        &self,
        left: &InstructionResult,
        right: &InstructionResult,
        floats: &F,
    ) -> (r: Result<InstructionResult, InterpreterError>)
        ensures
            !has_float(left@, right@) ==> match operation(self.op(), left@, right@) {
                Some(v) => r is Ok && r->Ok_0@ == v,
                None => r is Err,
            },
    {
        operate(self.operator(), left, right, floats)
    }

    /// The number of the operator's precedence group, by which operations are
    /// ordered when a tree of them is built.
    fn to_u8(&self) -> (r: u8)
        ensures
            r == precedence(self.op()),
    {
        self.operator().value().to_u8()
    }

    /// The precedence of the operator.
    fn priority(&self) -> (r: u8)
        ensures
            r == precedence(self.op()),
    {
        self.operator().priority()
    }

    /// The operator that leads the precedence group.
    fn value(&self) -> (r: BinaryOperator)
        ensures
            r == crate::operators::group_of(self.op()),
    {
        self.operator().value()
    }

    /// The pairs of operand types the operation accepts.
    fn valid_types(&self) -> (r: Vec<(Type, Type)>)
        ensures
            r@.len() == operator_signature(self.op()).len(),
            forall|i: int|
                0 <= i < r@.len() ==> #[trigger] r@[i] == (
                    operator_signature(self.op())[i].0,
                    operator_signature(self.op())[i].1,
                ),
    {
        self.operator().valid_types()
    }

    /// The pairs of operand types the operation accepts, with the result type of each.
    fn resulting_types(&self) -> (r: Vec<(Type, Type, Type)>)
        ensures
            r@ == operator_signature(self.op()),
    {
        self.operator().resulting_types()
    }
}

/// `&&`.
pub struct And;

/// `/`.
pub struct Division;

/// `==`.
pub struct Equal;

/// `==`, under its other name.
pub struct Equality;

/// `<`.
pub struct LessThan;

/// `%`.
pub struct Modulo;

/// `*`.
pub struct Multiplication;

impl BinaryOperationTrait for And {
    open spec fn op(&self) -> BinaryOperator {
        BinaryOperator::And
    }

    fn operator(&self) -> (r: BinaryOperator) {
        BinaryOperator::And
    }
}

impl BinaryOperationTrait for Division {
    open spec fn op(&self) -> BinaryOperator {
        BinaryOperator::Division
    }

    fn operator(&self) -> (r: BinaryOperator) {
        BinaryOperator::Division
    }
}

impl BinaryOperationTrait for Equal {
    open spec fn op(&self) -> BinaryOperator {
        BinaryOperator::Equal
    }

    fn operator(&self) -> (r: BinaryOperator) {
        BinaryOperator::Equal
    }
}

impl BinaryOperationTrait for Equality {
    open spec fn op(&self) -> BinaryOperator {
        BinaryOperator::Equal
    }

    fn operator(&self) -> (r: BinaryOperator) {
        BinaryOperator::Equal
    }
}

impl BinaryOperationTrait for LessThan {
    open spec fn op(&self) -> BinaryOperator {
        BinaryOperator::LessThan
    }

    fn operator(&self) -> (r: BinaryOperator) {
        BinaryOperator::LessThan
    }
}

impl BinaryOperationTrait for Modulo {
    open spec fn op(&self) -> BinaryOperator {
        BinaryOperator::Modulo
    }

    fn operator(&self) -> (r: BinaryOperator) {
        BinaryOperator::Modulo
    }
}

impl BinaryOperationTrait for Multiplication {
    open spec fn op(&self) -> BinaryOperator {
        BinaryOperator::Multiplication
    }

    fn operator(&self) -> (r: BinaryOperator) {
        BinaryOperator::Multiplication
    }
}

} // verus!
