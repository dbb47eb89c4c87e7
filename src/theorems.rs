use vstd::prelude::*;

use crate::error::ParseError;
use crate::eval::{dice_free, outcome, seq_sum, valid_rolls};
use crate::fraction::to_count;
use crate::lexer::{
    decimal, digit_char, digit_value, is_digit, is_white_space, lex, lex_number, lex_tokens, strip_white_space, Token,
};
use crate::parser::{parse_expr, parse_ops, parse_text, Expression};

verus! {

/// The value of the digits `t` read after digits of value `acc`.
pub open spec fn fold_digits(acc: nat, t: Seq<char>) -> nat
    decreases t.len(),
{
    if t.len() == 0 {
        acc
    } else {
        fold_digits(acc * 10 + digit_value(t[0]), t.drop_first())
    }
}

proof fn lemma_decimal_digits(n: nat)
    ensures
        decimal(n).len() >= 1,
        forall|i: int| 0 <= i < decimal(n).len() ==> is_digit(#[trigger] decimal(n)[i]),
    decreases n,
{
    if n >= 10 {
        lemma_decimal_digits(n / 10);
    }
}

proof fn lemma_strip_nothing(s: Seq<char>)
    requires
        forall|i: int| 0 <= i < s.len() ==> !is_white_space(#[trigger] s[i]),
    ensures
        strip_white_space(s) == s,
    decreases s.len(),
{
    if s.len() > 0 {
        lemma_strip_nothing(s.drop_last());
        assert(s.drop_last().push(s.last()) =~= s);
    }
}

proof fn lemma_lex_digits(t: Seq<char>, acc: nat)
    requires
        forall|i: int| 0 <= i < t.len() ==> is_digit(#[trigger] t[i]),
    ensures
        lex_number(t, acc) == if fold_digits(acc, t) > u32::MAX {
            Err::<Seq<Token>, ParseError>(ParseError::NumberTooLarge)
        } else {
            Ok(seq![Token::Number(fold_digits(acc, t) as u32)])
        },
    decreases t.len(),
{
    if t.len() > 0 {
        assert(is_digit(t[0]));
        assert forall|i: int| 0 <= i < t.drop_first().len() implies is_digit(
            #[trigger] t.drop_first()[i],
        ) by {
            assert(t.drop_first()[i] == t[i + 1]);
        }
        lemma_lex_digits(t.drop_first(), acc * 10 + digit_value(t[0]));
    } else {
        assert(lex_tokens(t) == Ok::<Seq<Token>, ParseError>(Seq::empty()));
        assert(seq![Token::Number(acc as u32)] + Seq::<Token>::empty() =~= seq![
            Token::Number(acc as u32),
        ]);
    }
}

proof fn lemma_fold_push(acc: nat, t: Seq<char>, c: char)
    ensures
        fold_digits(acc, t.push(c)) == fold_digits(acc, t) * 10 + digit_value(c),
    decreases t.len(),
{
    if t.len() > 0 {
        assert(t.push(c).drop_first() =~= t.drop_first().push(c));
        assert(t.push(c)[0] == t[0]);
        lemma_fold_push(acc * 10 + digit_value(t[0]), t.drop_first(), c);
    } else {
        assert(t.push(c).drop_first() =~= Seq::<char>::empty());
        assert(t.push(c)[0] == c);
        assert(fold_digits(acc * 10 + digit_value(c), Seq::empty()) == acc * 10 + digit_value(c));
    }
}

proof fn lemma_fold_decimal(n: nat)
    ensures
        fold_digits(0, decimal(n)) == n,
    decreases n,
{
    if n < 10 {
        assert(decimal(n).drop_first() =~= Seq::<char>::empty());
        assert(digit_value(digit_char(n)) == n);
        assert(fold_digits(digit_value(digit_char(n)), Seq::empty()) == n);
    } else {
        assert(digit_value(digit_char(n % 10)) == n % 10);
        lemma_fold_decimal(n / 10);
        lemma_fold_push(0, decimal(n / 10), digit_char(n % 10));
    }
}

/// The decimal text of a number parses to that number, whose value is the
/// number itself.
pub proof fn literal_round_trip(n: u32)
    ensures
        parse_text(decimal(n as nat)) == Ok::<Expression, ParseError>(Expression::Number(n)),
        outcome(Expression::Number(n), Seq::empty()).0 == Ok::<(int, int), crate::error::EvalError>(
            (n as int, 1int),
        ),
{
    let s = decimal(n as nat);
    lemma_decimal_digits(n as nat);
    assert forall|i: int| 0 <= i < s.len() implies !is_white_space(#[trigger] s[i]) by {
        assert(is_digit(s[i]));
    }
    lemma_strip_nothing(s);
    assert forall|i: int| 0 <= i < s.drop_first().len() implies is_digit(
        #[trigger] s.drop_first()[i],
    ) by {
        assert(s.drop_first()[i] == s[i + 1]);
    }
    lemma_lex_digits(s.drop_first(), digit_value(s[0]));
    lemma_fold_decimal(n as nat);
    assert(lex(s) == Ok::<Seq<Token>, ParseError>(seq![Token::Number(n)]));
    assert(parse_ops(seq![Token::Number(n)], 1, 0, Expression::Number(n)) == Ok::<
        (Expression, nat),
        ParseError,
    >((Expression::Number(n), 1nat)));
    assert(parse_expr(seq![Token::Number(n)], 0, 0) == Ok::<(Expression, nat), ParseError>(
        (Expression::Number(n), 1nat),
    ));
}

/// An expression without dice has the same outcome whatever the dice would
/// show, rolls none, and so adds nothing to a log.
pub proof fn dice_free_is_deterministic(e: Expression, a: Seq<u32>, b: Seq<u32>)
    requires
        dice_free(e),
    ensures
        outcome(e, a) == outcome(e, b),
        outcome(e, a).1.len() == 0,
        valid_rolls(e, a) ==> a.len() == 0,
    decreases e,
{
    match e {
        Expression::Number(_) => {},
        Expression::Operation(op, l, r) => {
            dice_free_is_deterministic(*l, a, b);
            dice_free_is_deterministic(*r, a, b);
            assert(a.skip(0) =~= a);
            assert(b.skip(0) =~= b);
        },
    }
}

/// `count d sides` with at least one side: each die shows a result between
/// one and `sides`, exactly `count` dice are rolled, and the value is their
/// sum.
pub proof fn dice_roll_outcome(count: u32, sides: u32, drawn: Seq<u32>)
    requires
        sides >= 1,
        valid_rolls(
            Expression::Operation(
                'd',
                Box::new(Expression::Number(count)),
                Box::new(Expression::Number(sides)),
            ),
            drawn,
        ),
    ensures
        drawn.len() == count,
        forall|i: int| 0 <= i < drawn.len() ==> 1 <= #[trigger] drawn[i] <= sides,
        outcome(
            Expression::Operation(
                'd',
                Box::new(Expression::Number(count)),
                Box::new(Expression::Number(sides)),
            ),
            drawn,
        ).0 == Ok::<(int, int), crate::error::EvalError>((seq_sum(drawn), 1int)),
{
    let e = Expression::Operation(
        'd',
        Box::new(Expression::Number(count)),
        Box::new(Expression::Number(sides)),
    );
    assert(to_count((count as int, 1int)) == count);
    assert(to_count((sides as int, 1int)) == sides);
    let o = outcome(e, drawn);
    assert(outcome(Expression::Number(count), drawn) == (
        Ok::<(int, int), crate::error::EvalError>((count as int, 1int)),
        Seq::<nat>::empty(),
    ));
    assert(outcome(Expression::Number(sides), drawn.skip(0)) == (
        Ok::<(int, int), crate::error::EvalError>((sides as int, 1int)),
        Seq::<nat>::empty(),
    ));
    assert(o.1 =~= Seq::new(count as nat, |_i: int| sides as nat));
    assert forall|i: int| 0 <= i < drawn.len() implies 1 <= #[trigger] drawn[i] <= sides by {
        assert(o.1[i] == sides);
    }
    assert(drawn.subrange(0, count as int) =~= drawn);
}

/// Parsing one text twice gives the same tree, and without dice the same
/// value.
pub proof fn reparse_is_identical(
    s: Seq<char>,
    r1: Result<Expression, ParseError>,
    r2: Result<Expression, ParseError>,
    a: Seq<u32>,
    b: Seq<u32>,
)
    requires
        r1 == parse_text(s),
        r2 == parse_text(s),
    ensures
        r1 == r2,
        r1 is Ok && dice_free(r1->Ok_0) ==> outcome(r1->Ok_0, a).0 == outcome(r2->Ok_0, b).0,
{
    if r1 is Ok && dice_free(r1->Ok_0) {
        dice_free_is_deterministic(r1->Ok_0, a, b);
    }
}

} // verus!
