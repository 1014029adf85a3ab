use calc::ast::{parse_tokens, Expression, Operator, ParseError};
use calc::token::Symbol::{Asterisk, LeftParenthesis, LessThan, Minus, Plus, RightParenthesis};
use calc::token::Token::{Number, Op, Whitespace};

#[test]
fn test_simple_1() {
    let input = vec![Number(2), Op(Plus), Number(2)];
    let expr = parse_tokens(input).unwrap();
    assert_eq!(expr.evaluate(), 4);
}

#[test]
fn test_simple_2() {
    let input = vec![Number(2), Op(Plus), Number(2), Op(Asterisk), Number(2)];
    let expr = parse_tokens(input).unwrap();
    assert_eq!(expr.evaluate(), 6);
}

#[test]
fn test_simple_3() {
    let input = vec![
        Op(LeftParenthesis),
        Number(2),
        Op(Plus),
        Number(4),
        Op(RightParenthesis),
        Op(Asterisk),
        Number(3),
    ];
    let expr = parse_tokens(input).unwrap();
    assert_eq!(expr.evaluate(), 18);
}

#[test]
fn unclosed_parenthesis_is_reported() {
    let input = vec![
        Op(LeftParenthesis),
        Number(2),
        Op(Plus),
        Number(4),
        Op(LeftParenthesis),
        Op(Asterisk),
        Number(3),
    ];
    assert_eq!(parse_tokens(input), Err(ParseError::UnmatchedParenthesis));
    let input = vec![Op(LeftParenthesis), Number(2)];
    assert_eq!(parse_tokens(input), Err(ParseError::UnmatchedParenthesis));
}

#[test]
fn adjacent_numbers_leave_trailing_tokens() {
    let input = vec![Number(2), Op(Plus), Number(4), Number(4), Op(Asterisk), Number(3)];
    assert_eq!(parse_tokens(input), Err(ParseError::TrailingTokens(Number(4))));
    let input =
        vec![Number(2), Op(Plus), Number(4), Number(4), Op(Asterisk), Op(Asterisk), Number(3)];
    assert_eq!(parse_tokens(input), Err(ParseError::TrailingTokens(Number(4))));
}

#[test]
fn missing_operand_is_reported() {
    assert_eq!(parse_tokens(vec![]), Err(ParseError::UnexpectedEnd));
    assert_eq!(parse_tokens(vec![Number(1), Op(Plus)]), Err(ParseError::UnexpectedEnd));
    assert_eq!(
        parse_tokens(vec![Number(1), Op(Plus), Op(RightParenthesis)]),
        Err(ParseError::UnexpectedToken(Op(RightParenthesis)))
    );
}

#[test]
fn whitespace_is_skipped_by_the_parser() {
    let input = vec![Whitespace(' '), Number(5), Whitespace(' '), Op(Minus), Number(7)];
    assert_eq!(parse_tokens(input).unwrap().evaluate(), -2);
}

#[test]
fn subtraction_folds_left() {
    let expr = parse_tokens(vec![Number(1), Op(Minus), Number(2), Op(Minus), Number(3)]).unwrap();
    let expected = Expression::Action {
        left: Box::new(Expression::Action {
            left: Box::new(Expression::Const(1)),
            action: Operator::Subtraction,
            right: Box::new(Expression::Const(2)),
        }),
        action: Operator::Subtraction,
        right: Box::new(Expression::Const(3)),
    };
    assert_eq!(expr, expected);
    assert_eq!(expr.evaluate(), -4);
}

#[test]
fn operators_apply() {
    assert_eq!(Operator::Summation.apply(3, 4), 7);
    assert_eq!(Operator::Subtraction.apply(3, 4), -1);
    assert_eq!(Operator::Multiplication.apply(3, 4), 12);
    assert_eq!(Operator::LessThanComparison.apply(3, 4), 1);
    assert_eq!(Operator::BiggerThanComparison.apply(3, 4), 0);
    assert_eq!(Operator::EqualityComparison.apply(4, 4), 1);
    assert_eq!(Operator::Multiplication.checked_apply(i128::MAX, 2), None);
    assert_eq!(Operator::Summation.checked_apply(i128::MAX, 0), Some(i128::MAX));
}

#[test]
fn evaluation_does_not_change_the_tree() {
    let expr = parse_tokens(vec![Number(6), Op(Asterisk), Number(7)]).unwrap();
    assert_eq!(expr.evaluate(), 42);
    assert_eq!(expr.evaluate(), 42);
    assert_eq!(expr.checked_evaluate(), Some(42));
}

#[test]
fn written_out_expression_parses_back() {
    let input = vec![
        Op(LeftParenthesis),
        Op(LeftParenthesis),
        Number(8),
        Op(Minus),
        Number(3),
        Op(RightParenthesis),
        Op(LessThan),
        Number(9),
        Op(RightParenthesis),
    ];
    let expected = Expression::Action {
        left: Box::new(Expression::Action {
            left: Box::new(Expression::Const(8)),
            action: Operator::Subtraction,
            right: Box::new(Expression::Const(3)),
        }),
        action: Operator::LessThanComparison,
        right: Box::new(Expression::Const(9)),
    };
    let expr = parse_tokens(input).unwrap();
    assert_eq!(expr, expected);
    assert_eq!(expr.evaluate(), 1);
}
