use vstd::prelude::*;

use crate::error::ParseError;

verus! {

/// One lexical unit of an expression.
#[derive(Clone, Copy, Debug, PartialEq, Eq, Structural)]
pub enum Token {
    /// A maximal run of decimal digits.
    Number(u32),
    /// One of `+ - * / ( ) d`; `D` is read as `d`.
    Op(char),
    /// Past the last token.
    Eof,
}

/// The characters that carry Unicode's `White_Space` property.
pub open spec fn is_white_space(c: char) -> bool {
    let n = c as u32;
    (0x09 <= n <= 0x0d) || n == 0x20 || n == 0x85 || n == 0xa0 || n == 0x1680 || (0x2000 <= n
        <= 0x200a) || n == 0x2028 || n == 0x2029 || n == 0x202f || n == 0x205f || n == 0x3000
}

/// The text with every white-space character removed.
pub open spec fn strip_white_space(s: Seq<char>) -> Seq<char>
    decreases s.len(),
{
    if s.len() == 0 {
        s
    } else {
        let rest = strip_white_space(s.drop_last());
        if is_white_space(s.last()) {
            rest
        } else {
            rest.push(s.last())
        }
    }
}

pub open spec fn is_digit(c: char) -> bool {
    '0' <= c <= '9'
}

pub open spec fn digit_value(c: char) -> nat {
    (c as u32 - '0' as u32) as nat
}

/// The character of a decimal digit.
pub open spec fn digit_char(d: nat) -> char {
    if d == 0 {
        '0'
    } else if d == 1 {
        '1'
    } else if d == 2 {
        '2'
    } else if d == 3 {
        '3'
    } else if d == 4 {
        '4'
    } else if d == 5 {
        '5'
    } else if d == 6 {
        '6'
    } else if d == 7 {
        '7'
    } else if d == 8 {
        '8'
    } else {
        '9'
    }
}

/// The decimal text of `n`, without sign or leading zeros.
pub open spec fn decimal(n: nat) -> Seq<char>
    decreases n,
{
    if n < 10 {
        seq![digit_char(n)]
    } else {
        decimal(n / 10).push(digit_char(n % 10))
    }
}

/// The canonical operator that a character stands for, if any.
pub open spec fn operator_of(c: char) -> Option<char> {
    if c == '+' || c == '-' || c == '*' || c == '/' || c == '(' || c == ')' {
        Some(c)
    } else if c == 'd' || c == 'D' {
        Some('d')
    } else {
        None
    }
}

/// `Ok(p + t)` where `r` is `Ok(t)`; errors pass through.
pub open spec fn prepend(p: Seq<Token>, r: Result<Seq<Token>, ParseError>) -> Result<
    Seq<Token>,
    ParseError,
> {
    match r {
        Ok(t) => Ok(p + t),
        Err(e) => Err(e),
    }
}

/// The tokens of a text without white space, read from the left.
pub open spec fn lex_tokens(s: Seq<char>) -> Result<Seq<Token>, ParseError>
    decreases s.len(), 0nat,
{
    if s.len() == 0 {
        Ok(Seq::empty())
    } else if is_digit(s[0]) {
        lex_number(s.drop_first(), digit_value(s[0]))
    } else {
        match operator_of(s[0]) {
            Some(op) => prepend(seq![Token::Op(op)], lex_tokens(s.drop_first())),
            None => Err(ParseError::UnexpectedCharacter(s[0])),
        }
    }
}

/// The rest of a number whose leading digits have the value `acc`, then the
/// tokens after it.
pub open spec fn lex_number(s: Seq<char>, acc: nat) -> Result<Seq<Token>, ParseError>
    decreases s.len(), 1nat,
{
    if s.len() > 0 && is_digit(s[0]) {
        lex_number(s.drop_first(), acc * 10 + digit_value(s[0]))
    } else if acc > u32::MAX {
        Err(ParseError::NumberTooLarge)
    } else {
        prepend(seq![Token::Number(acc as u32)], lex_tokens(s))
    }
}

/// The tokens of a text.
pub open spec fn lex(s: Seq<char>) -> Result<Seq<Token>, ParseError> {
    lex_tokens(strip_white_space(s))
}

/// The token at a position, or `Eof` past the end.
pub open spec fn token_at(toks: Seq<Token>, pos: nat) -> Token {
    if pos < toks.len() {
        toks[pos as int]
    } else {
        Token::Eof
    }
}

/// Once the digits read so far exceed `u32::MAX`, the number is too large.
proof fn lemma_number_too_large(s: Seq<char>, acc: nat)
    requires
        acc > u32::MAX,
    ensures
        lex_number(s, acc) == Err::<Seq<Token>, ParseError>(ParseError::NumberTooLarge),
    decreases s.len(),
{
    if s.len() > 0 && is_digit(s[0]) {
        lemma_number_too_large(s.drop_first(), acc * 10 + digit_value(s[0]));
    }
}

/// Relies on `char::is_whitespace`: true exactly for the characters with
/// Unicode's `White_Space` property.
#[verifier::external_body]
fn white_space(c: char) -> (r: bool)
    ensures
        r == is_white_space(c),
{
    c.is_whitespace()
}

/// The characters of `input` that are not white space, in order.
fn strip(input: &str) -> (r: Vec<char>)
    ensures
        r@ == strip_white_space(input@),
{
    let mut out: Vec<char> = Vec::new();
    let n = input.unicode_len();
    let mut i: usize = 0;
    while i < n
        invariant
            n == input@.len(),
            i <= n,
            out@ == strip_white_space(input@.take(i as int)),
        decreases n - i,
    {
        let c = input.get_char(i);
        assert(input@.take(i + 1).drop_last() =~= input@.take(i as int));
        if !white_space(c) {
            out.push(c);
        }
        i = i + 1;
    }
    assert(input@.take(n as int) =~= input@);
    out
}

/// A token stream: the tokens of a text, and how many have been consumed.
pub struct Lexer {
    tokens: Vec<Token>,
    pos: usize,
}

impl Lexer {
    /// All the tokens of the text, consumed or not.
    pub closed spec fn tokens(&self) -> Seq<Token> {
        self.tokens@
    }

    /// How many tokens have been consumed.
    pub closed spec fn pos(&self) -> nat {
        self.pos as nat
    }

    /// Splits `input` into tokens, or names the first character that no
    /// token can start with.
    pub fn new(input: &str) -> (r: Result<Self, ParseError>)
        ensures
            match r {
                Ok(l) => lex(input@) == Ok::<Seq<Token>, ParseError>(l.tokens()) && l.pos() == 0,
                Err(e) => lex(input@) == Err::<Seq<Token>, ParseError>(e),
            },
    {
        let chars = strip(input);
        let ghost s = chars@;
        let n = chars.len();
        let mut tokens: Vec<Token> = Vec::new();
        let mut i: usize = 0;
        assert(s.skip(0) =~= s);
        proof {
            match lex_tokens(s) {
                Ok(t) => assert(tokens@ + t =~= t),
                Err(_) => {},
            }
        }
        while i < n
            invariant
                n == s.len(),
                s == chars@,
                s == strip_white_space(input@),
                i <= n,
                lex_tokens(s) == prepend(tokens@, lex_tokens(s.skip(i as int))),
            decreases n - i,
        {
            let c = chars[i];
            assert(s.skip(i as int)[0] == c);
            assert(s.skip(i as int).drop_first() =~= s.skip(i + 1));
            if '0' <= c && c <= '9' {
                let mut acc: u32 = (c as u32) - ('0' as u32);
                let ghost start = i;
                i = i + 1;
                while i < n && '0' <= chars[i] && chars[i] <= '9'
                    invariant
                        n == s.len(),
                        s == chars@,
                        s == strip_white_space(input@),
                        start < i <= n,
                        lex_tokens(s) == prepend(tokens@, lex_number(s.skip(i as int), acc as nat)),
                    decreases n - i,
                {
                    let d = (chars[i] as u32) - ('0' as u32);
                    assert(s.skip(i as int).drop_first() =~= s.skip(i + 1));
                    if acc > 429496729 || (acc == 429496729 && d > 5) {
                        proof {
                            lemma_number_too_large(s.skip(i + 1), acc as nat * 10 + d as nat);
                            assert(s.skip(i as int)[0] == chars@[i as int]);
                            assert(lex_number(s.skip(i as int), acc as nat) == lex_number(
                                s.skip(i + 1),
                                acc as nat * 10 + d as nat,
                            ));
                        }
                        return Err(ParseError::NumberTooLarge);
                    }
                    acc = acc * 10 + d;
                    i = i + 1;
                }
                proof {
                    let t = seq![Token::Number(acc)];
                    assert(tokens@.push(Token::Number(acc)) =~= tokens@ + t);
                    match lex_tokens(s.skip(i as int)) {
                        Ok(rest) => assert(tokens@ + (t + rest) =~= tokens@ + t + rest),
                        Err(_) => {},
                    }
                }
                tokens.push(Token::Number(acc));
            } else {
                let op: char;
                if c == '+' || c == '-' || c == '*' || c == '/' || c == '(' || c == ')' {
                    op = c;
                } else if c == 'd' || c == 'D' {
                    op = 'd';
                } else {
                    assert(operator_of(c) is None);
                    assert(lex_tokens(s.skip(i as int)) == Err::<Seq<Token>, ParseError>(
                        ParseError::UnexpectedCharacter(c),
                    ));
                    return Err(ParseError::UnexpectedCharacter(c));
                }
                proof {
                    let t = seq![Token::Op(op)];
                    assert(tokens@.push(Token::Op(op)) =~= tokens@ + t);
                    match lex_tokens(s.skip(i + 1)) {
                        Ok(rest) => assert(tokens@ + (t + rest) =~= tokens@ + t + rest),
                        Err(_) => {},
                    }
                }
                tokens.push(Token::Op(op));
                i = i + 1;
            }
        }
        assert(s.skip(n as int) =~= Seq::<char>::empty());
        assert(tokens@ + Seq::<Token>::empty() =~= tokens@);
        Ok(Lexer { tokens, pos: 0 })
    }

    /// Consumes and returns the next token; `Eof` once all are consumed.
    pub fn next(&mut self) -> (t: Token)
        ensures
            t == token_at(old(self).tokens(), old(self).pos()),
            final(self).tokens() == old(self).tokens(),
            final(self).pos() == if old(self).pos() < old(self).tokens().len() {
                old(self).pos() + 1
            } else {
                old(self).pos()
            },
    {
        if self.pos < self.tokens.len() {
            let t = self.tokens[self.pos];
            self.pos = self.pos + 1;
            t
        } else {
            Token::Eof
        }
    }

    /// The next token, without consuming it.
    pub fn peek(&self) -> (t: Token)
        ensures
            t == token_at(self.tokens(), self.pos()),
    {
        if self.pos < self.tokens.len() {
            self.tokens[self.pos]
        } else {
            Token::Eof
        }
    }
}

} // verus!
