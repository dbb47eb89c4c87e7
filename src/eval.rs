use vstd::prelude::*;

use crate::error::EvalError;
use crate::logger::DiceLogger;
use crate::fraction::{frac_add, frac_div, frac_mul, frac_sub, to_count, Fraction};
use crate::parser::Expression;

verus! {

/// The sum of a sequence of die results.
pub open spec fn seq_sum(s: Seq<u32>) -> int
    decreases s.len(),
{
    if s.len() == 0 {
        0
    } else {
        seq_sum(s.drop_last()) + s.last()
    }
}

/// `a op b` for an arithmetic operator.
pub open spec fn combine(op: char, a: (int, int), b: (int, int)) -> Result<(int, int), EvalError> {
    if op == '+' {
        frac_add(a, b)
    } else if op == '-' {
        frac_sub(a, b)
    } else if op == '*' {
        frac_mul(a, b)
    } else if op == '/' {
        frac_div(a, b)
    } else {
        Err(EvalError::UnknownOperator(op))
    }
}

/// Evaluates `e` when the dice it rolls show `rolls`, in order. Gives the
/// value, as `(numerator, denominator)`, or the error; and the number of
/// sides of each die rolled, in order.
///
/// Both operands are evaluated, left first, before the operator is applied.
/// `count d sides` truncates both operands (see `to_count`), rejects fewer
/// than one side, and sums the next `count` results.
pub open spec fn outcome(e: Expression, rolls: Seq<u32>) -> (Result<(int, int), EvalError>, Seq<nat>)
    decreases e,
{
    match e {
        Expression::Number(n) => (Ok((n as int, 1int)), Seq::empty()),
        Expression::Operation(op, l, r) => {
            let lo = outcome(*l, rolls);
            match lo.0 {
                Err(x) => (Err(x), lo.1),
                Ok(a) => {
                    let ro = outcome(*r, rolls.skip(lo.1.len() as int));
                    let dice = lo.1 + ro.1;
                    match ro.0 {
                        Err(x) => (Err(x), dice),
                        Ok(b) => {
                            if op == 'd' {
                                let count = to_count(a);
                                let sides = to_count(b);
                                if sides == 0 {
                                    (Err(EvalError::InvalidDiceSpecification), dice)
                                } else {
                                    (
                                        Ok(
                                            (
                                                seq_sum(
                                                    rolls.subrange(
                                                        dice.len() as int,
                                                        (dice.len() + count) as int,
                                                    ),
                                                ),
                                                1int,
                                            ),
                                        ),
                                        dice + Seq::new(count, |_i: int| sides),
                                    )
                                }
                            } else {
                                (combine(op, a, b), dice)
                            }
                        },
                    }
                },
            }
        },
    }
}

/// Whether `rolls` is what the dice of `e` can show: one result per die that
/// `e` rolls with these results, each between one and that die's sides.
pub open spec fn valid_rolls(e: Expression, rolls: Seq<u32>) -> bool {
    within(rolls, outcome(e, rolls).1)
}

/// One result per die, each between one and that die's number of sides.
pub open spec fn within(rolls: Seq<u32>, sides: Seq<nat>) -> bool {
    &&& sides.len() == rolls.len()
    &&& forall|i: int| 0 <= i < rolls.len() ==> 1 <= #[trigger] rolls[i] <= sides[i]
}

proof fn lemma_within_concat(a: Seq<u32>, sa: Seq<nat>, b: Seq<u32>, sb: Seq<nat>)
    requires
        within(a, sa),
        within(b, sb),
    ensures
        within(a + b, sa + sb),
{
    assert forall|i: int| 0 <= i < (a + b).len() implies 1 <= #[trigger] (a + b)[i] <= (sa
        + sb)[i] by {
        if i >= a.len() {
            assert(b[i - a.len()] == (a + b)[i]);
        }
    }
}

/// The value of an evaluation's result, as `(numerator, denominator)`.
pub open spec fn result_value(r: Result<Fraction, EvalError>) -> Result<(int, int), EvalError> {
    match r {
        Ok(f) => Ok(f.value()),
        Err(e) => Err(e),
    }
}

/// Whether `e` rolls no dice.
pub open spec fn dice_free(e: Expression) -> bool
    decreases e,
{
    match e {
        Expression::Number(_) => true,
        Expression::Operation(op, l, r) => op != 'd' && dice_free(*l) && dice_free(*r),
    }
}

/// Results beyond the ones that `e` reads do not change its outcome.
pub proof fn lemma_outcome_extend(e: Expression, a: Seq<u32>, b: Seq<u32>)
    requires
        outcome(e, a).1.len() <= a.len(),
    ensures
        outcome(e, a + b) == outcome(e, a),
    decreases e,
{
    match e {
        Expression::Number(_) => {},
        Expression::Operation(op, l, r) => {
            let lo = outcome(*l, a);
            lemma_outcome_extend(*l, a, b);
            if lo.0 is Ok {
                let k = lo.1.len() as int;
                assert((a + b).skip(k) =~= a.skip(k) + b);
                lemma_outcome_extend(*r, a.skip(k), b);
                let dice = lo.1 + outcome(*r, a.skip(k)).1;
                if outcome(*r, a.skip(k)).0 is Ok && op == 'd' && to_count(
                    outcome(*r, a.skip(k)).0->Ok_0,
                ) != 0 {
                    let count = to_count(lo.0->Ok_0);
                    assert(dice.len() + count <= a.len());
                    assert((a + b).subrange(dice.len() as int, (dice.len() + count) as int) =~= a.subrange(
                        dice.len() as int,
                        (dice.len() + count) as int,
                    ));
                }
            }
        },
    }
}

/// Relies on `rand::random_range`: a uniform draw from `1 ..= sides` by the
/// thread-local generator, which lies in that range (it panics only on an
/// empty one).
#[verifier::external_body]
fn roll_die(sides: u32) -> (r: u32)
    requires
        sides >= 1,
    ensures
        1 <= r <= sides,
{
    rand::random_range(1..=sides)
}

/// Rolls `amount` dice of `sides` sides; gives their sum and the single results.
pub fn roll_dice(amount: u32, sides: u32) -> (r: (u64, Vec<u32>))
    requires
        sides >= 1,
    ensures
        r.1@.len() == amount,
        forall|i: int| 0 <= i < amount ==> 1 <= #[trigger] r.1@[i] <= sides,
        r.0 == seq_sum(r.1@),
{
    let mut results: Vec<u32> = Vec::new();
    let mut sum: u64 = 0;
    let mut i: u32 = 0;
    while i < amount
        invariant
            sides >= 1,
            i <= amount,
            results@.len() == i,
            forall|j: int| 0 <= j < i ==> 1 <= #[trigger] results@[j] <= sides,
            sum == seq_sum(results@),
            sum <= i * 4294967295,
        decreases amount - i,
    {
        let x = roll_die(sides);
        proof {
            assert(results@.push(x).drop_last() =~= results@);
        }
        results.push(x);
        sum = sum + x as u64;
        i = i + 1;
    }
    (sum, results)
}

/// Evaluates `e`, appending the result of each die rolled to `rolls`.
fn eval_into(e: &Expression, rolls: &mut Vec<u32>) -> (r: Result<Fraction, EvalError>)
    ensures
        final(rolls)@.len() >= old(rolls)@.len(),
        final(rolls)@.subrange(0, old(rolls)@.len() as int) == old(rolls)@,
        valid_rolls(*e, final(rolls)@.skip(old(rolls)@.len() as int)),
        outcome(*e, final(rolls)@.skip(old(rolls)@.len() as int)).0 == result_value(r),
        r is Ok ==> r->Ok_0.value().1 >= 1,
    decreases e,
{
    let ghost start = rolls@;
    match e {
        Expression::Number(n) => {
            assert(rolls@.skip(start.len() as int) =~= Seq::<u32>::empty());
            assert(rolls@.subrange(0, start.len() as int) =~= start);
            Ok(Fraction::from_integer(*n as i128))
        },
        Expression::Operation(op, l, r) => {
            let lv = eval_into(l, rolls);
            let ghost mid = rolls@;
            let ghost dl = mid.skip(start.len() as int);
            assert(mid.subrange(0, start.len() as int) == start);
            let a = match lv {
                Ok(a) => a,
                Err(x) => return Err(x),
            };
            let rv = eval_into(r, rolls);
            let ghost after = rolls@;
            let ghost dr = after.skip(mid.len() as int);
            let ghost drawn = after.skip(start.len() as int);
            assert(after.subrange(0, mid.len() as int) == mid);
            assert(drawn =~= dl + dr);
            assert(after.subrange(0, start.len() as int) =~= start);
            proof {
                lemma_outcome_extend(**l, dl, dr);
                assert(drawn.skip(dl.len() as int) =~= dr);
                lemma_within_concat(dl, outcome(**l, dl).1, dr, outcome(**r, dr).1);
            }
            let b = match rv {
                Ok(b) => b,
                Err(x) => return Err(x),
            };
            let ghost dice = outcome(**l, dl).1 + outcome(**r, dr).1;
            if *op == 'd' {
                let count = a.to_count();
                let sides = b.to_count();
                if sides == 0 {
                    return Err(EvalError::InvalidDiceSpecification);
                }
                let (sum, mut results) = roll_dice(count, sides);
                let ghost dd = results@;
                rolls.append(&mut results);
                let ghost all = rolls@.skip(start.len() as int);
                proof {
                    assert(rolls@ =~= after + dd);
                    assert(all =~= drawn + dd);
                    lemma_outcome_extend(**l, dl, dr + dd);
                    assert(dl + (dr + dd) =~= all);
                    assert(all.skip(dl.len() as int) =~= dr + dd);
                    lemma_outcome_extend(**r, dr, dd);
                    assert(all.subrange(dice.len() as int, (dice.len() + count) as int) =~= dd);
                    assert(rolls@.subrange(0, start.len() as int) =~= start);
                    lemma_within_concat(
                        drawn,
                        dice,
                        dd,
                        Seq::new(count as nat, |_i: int| sides as nat),
                    );
                }
                Ok(Fraction::from_integer(sum as i128))
            } else if *op == '+' {
                a.add(&b)
            } else if *op == '-' {
                a.sub(&b)
            } else if *op == '*' {
                a.mul(&b)
            } else if *op == '/' {
                a.div(&b)
            } else {
                Err(EvalError::UnknownOperator(*op))
            }
        },
    }
}

impl Expression {
    /// Evaluates the expression. Each die rolled gives a result between one
    /// and its number of sides; where a logger is given, those results are
    /// appended to it in the order in which the dice were rolled.
    pub fn eval(&self, dice_logger: Option<&mut DiceLogger>) -> (r: Result<Fraction, EvalError>)
        ensures
            r is Ok ==> r->Ok_0.value().1 >= 1,
            exists|drawn: Seq<u32>|
                {
                    &&& valid_rolls(*self, drawn)
                    &&& outcome(*self, drawn).0 == result_value(r)
                    &&& match dice_logger {
                        Some(l) => (*final(l))@ == (*l)@ + drawn,
                        None => true,
                    }
                },
    {
        let mut rolls: Vec<u32> = Vec::new();
        let r = eval_into(self, &mut rolls);
        assert(rolls@.skip(0) =~= rolls@);
        match dice_logger {
            Some(logger) => logger.append(&mut rolls),
            None => {},
        }
        r
    }
}

} // verus!
