//! Parsing and evaluation of arithmetic expressions with dice notation,
//! such as `2d6 + 3` ("roll two six-sided dice, sum them and add three").
//!
//! Text goes through the lexer ([`lexer`]), the precedence-climbing parser
//! ([`parser`]) and the evaluator ([`eval`]). Values are exact fractions
//! ([`fraction`]); individual dice results can be kept in a [`DiceLogger`].
//! [`theorems`] states and proves the laws that tie these together.
//!
//! Exact values make two cases explicit that floating point would leave to
//! infinities and NaN: a zero divisor gives `EvalError::DivisionByZero`, and
//! an intermediate numerator or denominator outside the 128-bit range gives
//! `EvalError::OutOfRange`. A literal above `u32::MAX` is rejected with
//! `ParseError::NumberTooLarge` rather than wrapped.
pub mod error;
pub mod eval;
pub mod fraction;
pub mod lexer;
pub mod logger;
pub mod parser;
pub mod theorems;

pub use error::{EvalError, Expected, ParseError};
pub use fraction::Fraction;
pub use lexer::{Lexer, Token};
pub use logger::DiceLogger;
pub use parser::Expression;
