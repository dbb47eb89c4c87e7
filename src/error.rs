use vstd::prelude::*;

use crate::lexer::Token;

verus! {

/// What the parser was looking for when it met an unsuitable token.
#[derive(Clone, Copy, Debug, PartialEq, Eq, Structural)]
pub enum Expected {
    /// A number or an opening parenthesis.
    PrimaryTerm,
    /// A binary operator, a closing parenthesis or the end of the input.
    OperatorOrEnd,
    /// The `)` that closes a group.
    ClosingParenthesis,
}

/// Why a text is not an expression.
#[derive(Clone, Copy, Debug, PartialEq, Eq, Structural)]
pub enum ParseError {
    /// A character outside the alphabet of expressions.
    UnexpectedCharacter(char),
    /// A token that cannot stand where it was found.
    UnexpectedToken(Expected, Token),
    /// A run of digits whose value does not fit in a `u32`.
    NumberTooLarge,
}

/// Why an expression has no value.
#[derive(Clone, Copy, Debug, PartialEq, Eq, Structural)]
pub enum EvalError {
    /// An operation whose operator is none of `+ - * / d`.
    UnknownOperator(char),
    /// A roll of dice with fewer than one side.
    InvalidDiceSpecification,
    /// A division whose divisor is zero.
    DivisionByZero,
    /// An exact intermediate result outside the 128-bit range.
    OutOfRange,
}

} // verus!
