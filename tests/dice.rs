use dice_parser::{DiceLogger, EvalError, Expected, Expression, Fraction, ParseError, Token};
use dice_parser::parser::operation_priority;

fn value(text: &str) -> f64 {
    let f = Expression::parse(text).unwrap().eval(None).unwrap();
    f.numer() as f64 / f.denom() as f64
}

fn same_fraction(f: &Fraction, num: i128, den: i128) -> bool {
    f.numer() * den == num * f.denom()
}

#[test]
fn test_logger() {
    let mut logger = DiceLogger::new();
    let expression: Expression = ("12d8+34").try_into().unwrap();
    expression.eval(Some(&mut logger)).unwrap();

    assert_eq!(logger.rolls().len(), 12);
}

#[test]
fn test_evaluation() {
    let expression: Expression = ("15+30000/(2*10)").try_into().unwrap();
    let v = expression.eval(None).unwrap();
    assert_eq!(v.numer() as f32 / v.denom() as f32, 1515.0);
}

#[test]
fn literal_text_evaluates_to_itself() {
    for n in [0u32, 7, 42, 1000, 65536, 4294967295] {
        let e = Expression::parse(&n.to_string()).unwrap();
        assert_eq!(e, Expression::Number(n));
        let v = e.eval(None).unwrap();
        assert_eq!(v.numer(), n as i128);
        assert_eq!(v.denom(), 1);
    }
}

#[test]
fn literal_above_u32_is_rejected() {
    assert_eq!(Expression::parse("4294967296"), Err(ParseError::NumberTooLarge));
    assert_eq!(Expression::parse("1+99999999999"), Err(ParseError::NumberTooLarge));
}

#[test]
fn expression_without_dice_is_deterministic_and_logs_nothing() {
    let e = Expression::parse("15+30000/(2*10)-7*3").unwrap();
    let mut logger = DiceLogger::new();
    let a = e.eval(Some(&mut logger)).unwrap();
    let b = e.eval(Some(&mut logger)).unwrap();
    assert_eq!(a.numer(), b.numer());
    assert_eq!(a.denom(), b.denom());
    assert_eq!(logger.len(), 0);
}

#[test]
fn dice_rolls_are_in_range_and_summed() {
    for (count, sides) in [(0u32, 1u32), (1, 1), (5, 6), (20, 3), (3, 100)] {
        let e = Expression::parse(&format!("{}d{}", count, sides)).unwrap();
        let mut logger = DiceLogger::new();
        let v = e.eval(Some(&mut logger)).unwrap();
        let rolls = logger.into_vec();
        assert_eq!(rolls.len(), count as usize);
        assert!(rolls.iter().all(|&r| 1 <= r && r <= sides));
        let sum: i128 = rolls.iter().map(|&r| r as i128).sum();
        assert!(same_fraction(&v, sum, 1));
    }
}

#[test]
fn one_sided_dice_give_their_count() {
    assert_eq!(value("7d1"), 7.0);
    assert_eq!(value("0d6"), 0.0);
}

#[test]
fn logger_accumulates_across_evaluations() {
    let e = Expression::parse("2d4 + 3D6").unwrap();
    let mut logger = DiceLogger::new();
    e.eval(Some(&mut logger)).unwrap();
    e.eval(Some(&mut logger)).unwrap();
    let rolls = logger.rolls();
    assert_eq!(rolls.len(), 10);
    for (i, &r) in rolls.iter().enumerate() {
        let sides = if i % 5 < 2 { 4 } else { 6 };
        assert!(1 <= r && r <= sides);
    }
}

#[test]
fn parentheses_change_precedence() {
    assert_eq!(value("2+3*4"), 14.0);
    assert_eq!(value("(2+3)*4"), 20.0);
}

#[test]
fn division_and_nesting() {
    assert_eq!(value("15+30000/(2*10)"), 1515.0);
}

#[test]
fn rolling_range() {
    for _ in 0..20 {
        let mut logger = DiceLogger::new();
        let e = Expression::parse("12d8+34").unwrap();
        let v = e.eval(Some(&mut logger)).unwrap();
        let x = v.numer() as f64 / v.denom() as f64;
        assert!(46.0 <= x && x <= 130.0);
        assert_eq!(logger.len(), 12);
        assert!(logger.rolls().iter().all(|&r| 1 <= r && r <= 8));
    }
}

#[test]
fn malformed_input_fails() {
    assert_eq!(
        Expression::parse("("),
        Err(ParseError::UnexpectedToken(Expected::PrimaryTerm, Token::Eof))
    );
    assert_eq!(Expression::parse("2 $ 3"), Err(ParseError::UnexpectedCharacter('$')));
    assert_eq!(
        Expression::parse("2 +"),
        Err(ParseError::UnexpectedToken(Expected::PrimaryTerm, Token::Eof))
    );
    assert_eq!(
        Expression::parse("(2"),
        Err(ParseError::UnexpectedToken(Expected::ClosingParenthesis, Token::Eof))
    );
    assert_eq!(
        Expression::parse("(2)3"),
        Err(ParseError::UnexpectedToken(Expected::OperatorOrEnd, Token::Number(3)))
    );
    assert_eq!(
        Expression::parse("2("),
        Err(ParseError::UnexpectedToken(Expected::OperatorOrEnd, Token::Op('(')))
    );
    assert_eq!(
        Expression::parse(""),
        Err(ParseError::UnexpectedToken(Expected::PrimaryTerm, Token::Eof))
    );
}

#[test]
fn reparsing_gives_identical_trees() {
    let text = "(1 + 2) * 3 - 4 / 5 d 6";
    let a = Expression::parse(text).unwrap();
    let b = Expression::parse(text).unwrap();
    assert_eq!(a, b);
    let c = Expression::parse("8 / (3 - 1) * 5").unwrap();
    let d = Expression::parse("8 / (3 - 1) * 5").unwrap();
    assert_eq!(c, d);
    let x = c.eval(None).unwrap();
    let y = d.eval(None).unwrap();
    assert_eq!((x.numer(), x.denom()), (y.numer(), y.denom()));
}

#[test]
fn operators_are_left_associative() {
    assert_eq!(value("10-2-3"), 5.0);
    assert_eq!(value("8/2/2"), 2.0);
    let e = Expression::parse("1-2+3").unwrap();
    assert_eq!(
        e,
        Expression::Operation(
            '+',
            Box::new(Expression::Operation(
                '-',
                Box::new(Expression::Number(1)),
                Box::new(Expression::Number(2))
            )),
            Box::new(Expression::Number(3))
        )
    );
}

#[test]
fn dice_bind_tighter_than_multiplication() {
    let e = Expression::parse("2*3d1").unwrap();
    assert_eq!(
        e,
        Expression::Operation(
            '*',
            Box::new(Expression::Number(2)),
            Box::new(Expression::Operation(
                'd',
                Box::new(Expression::Number(3)),
                Box::new(Expression::Number(1))
            ))
        )
    );
    assert_eq!(value("2*3d1"), 6.0);
}

#[test]
fn white_space_is_ignored_everywhere() {
    assert_eq!(value(" 1 2 \t+\n3 "), 15.0);
    assert_eq!(value("1\u{3000}+\u{a0}1"), 2.0);
}

#[test]
fn exact_fractions() {
    let v = Expression::parse("7/2").unwrap().eval(None).unwrap();
    assert!(same_fraction(&v, 7, 2));
    assert_eq!(value("1-3"), -2.0);
    assert_eq!(value("1/(0-4)"), -0.25);
}

#[test]
fn dice_parameters_are_truncated() {
    assert_eq!(value("(7/2)d1"), 3.0);
    assert_eq!(value("(1-5)d6"), 0.0);
    assert_eq!(value("2d(3/2)"), 2.0);
}

#[test]
fn evaluation_errors() {
    assert_eq!(
        Expression::parse("2d0").unwrap().eval(None).unwrap_err(),
        EvalError::InvalidDiceSpecification
    );
    assert_eq!(
        Expression::parse("0d0").unwrap().eval(None).unwrap_err(),
        EvalError::InvalidDiceSpecification
    );
    assert_eq!(
        Expression::parse("1/0").unwrap().eval(None).unwrap_err(),
        EvalError::DivisionByZero
    );
    assert_eq!(
        Expression::parse("4294967295*4294967295*4294967295*4294967295*4294967295")
            .unwrap()
            .eval(None)
            .unwrap_err(),
        EvalError::OutOfRange
    );
    let odd = Expression::Operation(
        '%',
        Box::new(Expression::Number(1)),
        Box::new(Expression::Number(2)),
    );
    assert_eq!(odd.eval(None).unwrap_err(), EvalError::UnknownOperator('%'));
}

#[test]
fn error_after_rolls_keeps_them_logged() {
    let e = Expression::parse("3d1/0").unwrap();
    let mut logger = DiceLogger::new();
    assert_eq!(e.eval(Some(&mut logger)).unwrap_err(), EvalError::DivisionByZero);
    assert_eq!(logger.rolls(), &vec![1, 1, 1]);
}

#[test]
fn trailing_closing_parenthesis_is_not_read() {
    assert_eq!(Expression::parse("2)"), Ok(Expression::Number(2)));
}

#[test]
fn lexer_peek_and_next() {
    let mut lexer = dice_parser::Lexer::new("12 d(3)").unwrap();
    assert_eq!(lexer.peek(), Token::Number(12));
    assert_eq!(lexer.next(), Token::Number(12));
    assert_eq!(lexer.next(), Token::Op('d'));
    assert_eq!(lexer.next(), Token::Op('('));
    assert_eq!(lexer.next(), Token::Number(3));
    assert_eq!(lexer.next(), Token::Op(')'));
    assert_eq!(lexer.next(), Token::Eof);
    assert_eq!(lexer.peek(), Token::Eof);
}

#[test]
fn render_lists_results_or_notes_none() {
    let mut logger = DiceLogger::new();
    assert_eq!(logger.render(), "No dice rolled");
    Expression::parse("3d1").unwrap().eval(Some(&mut logger)).unwrap();
    assert_eq!(logger.render(), "1, 1, 1");
    let mut single = DiceLogger::new();
    let mut rolls = vec![12u32];
    single.append(&mut rolls);
    assert!(rolls.is_empty());
    assert_eq!(single.render(), "12");
}

#[test]
fn append_keeps_order() {
    let mut logger = DiceLogger::new();
    logger.append(&mut vec![4, 2]);
    logger.append(&mut vec![3000000000, 7]);
    assert_eq!(logger.rolls(), &vec![4, 2, 3000000000, 7]);
    assert_eq!(logger.render(), "4, 2, 3000000000, 7");
}

#[test]
fn default_expression_is_zero() {
    let e = Expression::default();
    assert_eq!(e, Expression::Number(0));
    assert_eq!(e.eval(None).unwrap().numer(), 0);
}

#[test]
fn binding_powers() {
    assert_eq!(operation_priority('+'), Some((2, 3)));
    assert_eq!(operation_priority('-'), Some((2, 3)));
    assert_eq!(operation_priority('*'), Some((4, 5)));
    assert_eq!(operation_priority('/'), Some((4, 5)));
    assert_eq!(operation_priority('d'), Some((6, 7)));
    assert_eq!(operation_priority('('), None);
}

#[test]
fn roll_dice_sums_its_results() {
    let (sum, results) = dice_parser::eval::roll_dice(30, 4);
    assert_eq!(results.len(), 30);
    assert!(results.iter().all(|&r| 1 <= r && r <= 4));
    assert_eq!(sum, results.iter().map(|&r| r as u64).sum::<u64>());
}

#[test]
fn clones_are_equal() {
    let e = Expression::parse("(1+2d3)*4").unwrap();
    assert_eq!(e.clone(), e);
    let mut logger = DiceLogger::new();
    logger.append(&mut vec![5, 1]);
    let copy = logger.clone();
    assert_eq!(copy.rolls(), logger.rolls());
}
