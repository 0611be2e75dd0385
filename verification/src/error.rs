use vstd::prelude::*;

verus! {

/// Why an expression could not be evaluated.
#[derive(Debug, Clone, Copy, PartialEq, Eq, Structural)]
pub enum Error {
    /// A run of digits, points and sign in infix input is not a number.
    InvalidNumber,
    /// Infix input holds a character that no token starts with or contains.
    UnexpectedCharacter(char),
    /// A word of prefix input is neither a number nor an operator.
    InvalidSymbol,
    /// An operator other than `+ - * /` reached the numeric operator.
    UnknownOperator,
    /// The right operand of `/` is zero.
    DivisionByZero,
    /// Operators and operands do not pair up.
    MalformedExpression,
    /// A parenthesis reached the postfix evaluator.
    InvalidToken,
}

} // verus!
