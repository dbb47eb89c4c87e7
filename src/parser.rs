use vstd::prelude::*;

use crate::error::{Expected, ParseError};
use crate::lexer::{lex, token_at, Lexer, Token};

verus! {

/// An expression tree. Each operation owns its two operands.
#[derive(Debug, PartialEq, Eq)]
pub enum Expression {
    /// A non-negative integer literal.
    Number(u32),
    /// A binary operation `left op right`, with `op` one of `+ - * / d`.
    Operation(char, Box<Expression>, Box<Expression>),
}

/// Left and right binding powers of a binary operator. Each right power is
/// one above its left power, which makes every operator left-associative.
pub open spec fn binding_power(op: char) -> Option<(nat, nat)> {
    if op == '+' || op == '-' {
        Some((2, 3))
    } else if op == '*' || op == '/' {
        Some((4, 5))
    } else if op == 'd' {
        Some((6, 7))
    } else {
        None
    }
}

/// Parses the expression that starts at token `pos` and whose operators bind
/// at least as tightly as `min_bp`; gives the tree and the position after it.
pub open spec fn parse_expr(toks: Seq<Token>, pos: nat, min_bp: nat) -> Result<
    (Expression, nat),
    ParseError,
>
    decreases toks.len() - pos, 0nat,
{
    match token_at(toks, pos) {
        Token::Number(n) => parse_ops(toks, pos + 1, min_bp, Expression::Number(n)),
        Token::Op(c) => {
            if c == '(' {
                match parse_expr(toks, pos + 1, 0) {
                    Ok((inner, p)) => {
                        if token_at(toks, p) == Token::Op(')') && pos < p {
                            parse_ops(toks, p + 1, min_bp, inner)
                        } else {
                            Err(ParseError::UnexpectedToken(
                                Expected::ClosingParenthesis,
                                token_at(toks, p),
                            ))
                        }
                    },
                    Err(e) => Err(e),
                }
            } else {
                Err(ParseError::UnexpectedToken(Expected::PrimaryTerm, Token::Op(c)))
            }
        },
        Token::Eof => Err(ParseError::UnexpectedToken(Expected::PrimaryTerm, Token::Eof)),
    }
}

/// Extends `lhs`, which ends before token `pos`, with the operators that
/// follow it as long as they bind at least as tightly as `min_bp`.
pub open spec fn parse_ops(toks: Seq<Token>, pos: nat, min_bp: nat, lhs: Expression) -> Result<
    (Expression, nat),
    ParseError,
>
    decreases toks.len() - pos, 1nat,
{
    match token_at(toks, pos) {
        Token::Eof => Ok((lhs, pos)),
        Token::Number(n) => Err(ParseError::UnexpectedToken(Expected::OperatorOrEnd, Token::Number(n))),
        Token::Op(c) => {
            if c == ')' {
                Ok((lhs, pos))
            } else {
                match binding_power(c) {
                    None => Err(ParseError::UnexpectedToken(Expected::OperatorOrEnd, Token::Op(c))),
                    Some((l_bp, r_bp)) => {
                        if l_bp < min_bp {
                            Ok((lhs, pos))
                        } else {
                            match parse_expr(toks, pos + 1, r_bp) {
                                Ok((rhs, p)) => {
                                    if pos < p <= toks.len() {
                                        parse_ops(
                                            toks,
                                            p,
                                            min_bp,
                                            Expression::Operation(c, Box::new(lhs), Box::new(rhs)),
                                        )
                                    } else {
                                        Ok((lhs, pos))
                                    }
                                },
                                Err(e) => Err(e),
                            }
                        }
                    },
                }
            }
        },
    }
}

/// What parsing a whole text gives: the expression at its start. Tokens
/// after a complete expression that closes with `)` are not read.
pub open spec fn parse_text(s: Seq<char>) -> Result<Expression, ParseError> {
    match lex(s) {
        Ok(toks) => match parse_expr(toks, 0, 0) {
            Ok((e, _)) => Ok(e),
            Err(e) => Err(e),
        },
        Err(e) => Err(e),
    }
}

/// The binding powers of `op`, or `None` where it is no binary operator.
pub fn operation_priority(op: char) -> (r: Option<(u32, u32)>)
    ensures
        match binding_power(op) {
            Some((l, rb)) => r == Some((l as u32, rb as u32)),
            None => r is None,
        },
{
    if op == '+' || op == '-' {
        Some((2, 3))
    } else if op == '*' || op == '/' {
        Some((4, 5))
    } else if op == 'd' {
        Some((6, 7))
    } else {
        None
    }
}

/// Parses one expression from the lexer's next token on, by precedence
/// climbing, and leaves the lexer after it.
pub fn parse_expression(lexer: &mut Lexer, min_bp: u32) -> (r: Result<Expression, ParseError>)
    requires
        old(lexer).pos() <= old(lexer).tokens().len(),
    ensures
        final(lexer).tokens() == old(lexer).tokens(),
        final(lexer).pos() <= final(lexer).tokens().len(),
        match r {
            Ok(e) => {
                &&& parse_expr(old(lexer).tokens(), old(lexer).pos(), min_bp as nat) == Ok::<
                    (Expression, nat),
                    ParseError,
                >((e, final(lexer).pos()))
                &&& old(lexer).pos() < final(lexer).pos()
            },
            Err(x) => parse_expr(old(lexer).tokens(), old(lexer).pos(), min_bp as nat) == Err::<
                (Expression, nat),
                ParseError,
            >(x),
        },
    decreases old(lexer).tokens().len() - old(lexer).pos(),
{
    let ghost toks = lexer.tokens();
    let ghost pos0 = lexer.pos();
    let mut lhs = match lexer.next() {
        Token::Number(n) => Expression::Number(n),
        Token::Op(c) => {
            if c == '(' {
                let inner = match parse_expression(lexer, 0) {
                    Ok(inner) => inner,
                    Err(e) => return Err(e),
                };
                let close = lexer.next();
                if close != Token::Op(')') {
                    return Err(ParseError::UnexpectedToken(Expected::ClosingParenthesis, close));
                }
                inner
            } else {
                return Err(ParseError::UnexpectedToken(Expected::PrimaryTerm, Token::Op(c)));
            }
        },
        Token::Eof => {
            return Err(ParseError::UnexpectedToken(Expected::PrimaryTerm, Token::Eof));
        },
    };
    assert(parse_expr(toks, pos0, min_bp as nat) == parse_ops(toks, lexer.pos(), min_bp as nat, lhs));
    loop
        invariant
            toks == old(lexer).tokens(),
            pos0 == old(lexer).pos(),
            lexer.tokens() == toks,
            pos0 < lexer.pos() <= toks.len(),
            parse_expr(toks, pos0, min_bp as nat) == parse_ops(toks, lexer.pos(), min_bp as nat, lhs),
        ensures
            lexer.tokens() == toks,
            pos0 < lexer.pos() <= toks.len(),
            parse_expr(toks, pos0, min_bp as nat) == Ok::<(Expression, nat), ParseError>(
                (lhs, lexer.pos()),
            ),
        decreases toks.len() - lexer.pos(),
    {
        let op = match lexer.peek() {
            Token::Eof => break,
            Token::Number(n) => {
                return Err(ParseError::UnexpectedToken(Expected::OperatorOrEnd, Token::Number(n)));
            },
            Token::Op(c) => {
                if c == ')' {
                    break;
                }
                c
            },
        };
        let (l_bp, r_bp) = match operation_priority(op) {
            Some(bp) => bp,
            None => {
                return Err(ParseError::UnexpectedToken(Expected::OperatorOrEnd, Token::Op(op)));
            },
        };
        if l_bp < min_bp {
            break;
        }
        lexer.next();
        let rhs = match parse_expression(lexer, r_bp) {
            Ok(rhs) => rhs,
            Err(e) => return Err(e),
        };
        lhs = Expression::Operation(op, Box::new(lhs), Box::new(rhs));
    }
    Ok(lhs)
}

impl Clone for Expression {
    /// A deep copy of the tree.
    fn clone(&self) -> (r: Self)
        ensures
            r == *self,
        decreases self,
    {
        match self {
            Expression::Number(n) => Expression::Number(*n),
            Expression::Operation(op, l, r) => {
                let lc = (**l).clone();
                let rc = (**r).clone();
                Expression::Operation(*op, Box::new(lc), Box::new(rc))
            },
        }
    }
}

impl Default for Expression {
    /// The number zero.
    fn default() -> (r: Self)
        ensures
            r == Expression::Number(0),
    {
        Expression::Number(0)
    }
}

impl<'a> TryFrom<&'a str> for Expression {
    type Error = ParseError;

    /// Parses a whole text into an expression.
    fn try_from(value: &'a str) -> (r: Result<Expression, ParseError>) {
        Expression::parse(value)
    }
}

impl<'a> vstd::std_specs::convert::TryFromSpecImpl<&'a str> for Expression {
    open spec fn obeys_try_from_spec() -> bool {
        true
    }

    open spec fn try_from_spec(v: &'a str) -> Result<Expression, ParseError> {
        parse_text(v@)
    }
}

impl Expression {
    /// Parses a whole text into an expression.
    pub fn parse(text: &str) -> (r: Result<Expression, ParseError>)
        ensures
            r == parse_text(text@),
    {
        match Lexer::new(text) {
            Ok(mut lexer) => parse_expression(&mut lexer, 0),
            Err(e) => Err(e),
        }
    }
}

} // verus!
