//! The numeric operator: which computation an operator symbol asks for, and
//! when it must not be carried out.

use crate::error::Error;
use crate::literal::{is_number, is_zero, is_zero_bits, Literal};
use vstd::prelude::*;

verus! {

/// The four operations of the calculator.
#[derive(Debug, Clone, Copy, PartialEq, Eq, Structural)]
pub enum Operation {
    Add,
    Subtract,
    Multiply,
    Divide,
}

/// A computation on doubles that the caller carries out. Its answer, like
/// every operand, is the 64 bits of a double.
#[derive(Debug)]
pub enum Request {
    /// The value of this number literal.
    Literal(Literal),
    /// `left` and `right` combined by `operation`, in this order. A division
    /// is only requested with a `right` that is not zero.
    Binary { operation: Operation, left: u64, right: u64 },
}

/// The mathematical value of a [`Request`].
pub enum RequestView {
    Literal(Seq<char>),
    Binary { operation: Operation, left: u64, right: u64 },
}

impl View for Request {
    type V = RequestView;

    open spec fn view(&self) -> RequestView {
        match self {
            Request::Literal(literal) => RequestView::Literal(literal@),
            Request::Binary { operation, left, right } => RequestView::Binary {
                operation: *operation,
                left: *left,
                right: *right,
            },
        }
    }
}

/// What holds of every request that an evaluation makes: a literal is a
/// number, and a division has a divisor that is not zero.
pub open spec fn is_proper(request: RequestView) -> bool {
    match request {
        RequestView::Literal(text) => is_number(text),
        RequestView::Binary { operation, left, right } => operation == Operation::Divide
            ==> !is_zero(right),
    }
}

/// A way of answering requests: any assignment of a double to each literal
/// and to each operation on two doubles. What this crate proves, it proves
/// for every such assignment, so also for the arithmetic of the machine.
pub struct Numerics {
    pub literal: spec_fn(Seq<char>) -> u64,
    pub binary: spec_fn(Operation, u64, u64) -> u64,
}

impl Numerics {
    /// The answer that these numerics give to `request`.
    pub open spec fn answer(self, request: RequestView) -> u64 {
        match request {
            RequestView::Literal(text) => (self.literal)(text),
            RequestView::Binary { operation, left, right } => (self.binary)(
                operation,
                left,
                right,
            ),
        }
    }
}

/// The operation that an operator symbol stands for.
pub open spec fn operation_of(operator: char) -> Option<Operation> {
    if operator == '+' {
        Some(Operation::Add)
    } else if operator == '-' {
        Some(Operation::Subtract)
    } else if operator == '*' {
        Some(Operation::Multiply)
    } else if operator == '/' {
        Some(Operation::Divide)
    } else {
        None
    }
}

/// The request that `left operator right` leads to, or the reason why there
/// is nothing to compute.
pub open spec fn requested(left: u64, right: u64, operator: char) -> Result<RequestView, Error> {
    match operation_of(operator) {
        None => Err(Error::UnknownOperator),
        Some(operation) => if operation == Operation::Divide && is_zero(right) {
            Err(Error::DivisionByZero)
        } else {
            Ok(RequestView::Binary { operation, left, right })
        },
    }
}

/// The value of `left operator right` under `numerics`.
pub open spec fn applied(numerics: Numerics, left: u64, right: u64, operator: char) -> Result<
    u64,
    Error,
> {
    match requested(left, right, operator) {
        Err(e) => Err(e),
        Ok(request) => Ok(numerics.answer(request)),
    }
}

/// Decides what `left operator right` asks for.
///
/// A sum, a difference and a product are always requested, with the operands
/// as given. A quotient is requested unless `right` is zero, of either sign,
/// which is reported as a division by zero. Any other symbol is reported as
/// an unknown operator.
pub fn apply_operation(left: u64, right: u64, operator: char) -> (result: Result<Request, Error>)
    ensures
        match requested(left, right, operator) {
            Ok(request) => result matches Ok(made) && made@ == request && is_proper(made@),
            Err(e) => result matches Err(reported) && reported == e,
        },
        operator == '/' && is_zero(right) ==> result matches Err(Error::DivisionByZero),
        operator == '+' || operator == '-' || operator == '*' ==> result is Ok,
{
    let operation = match operator {
        '+' => Operation::Add,
        '-' => Operation::Subtract,
        '*' => Operation::Multiply,
        '/' => {
            if is_zero_bits(right) {
                return Err(Error::DivisionByZero);
            }
            Operation::Divide
        },
        _ => {
            return Err(Error::UnknownOperator);
        },
    };
    Ok(Request::Binary { operation, left, right })
}

} // verus!
