use calc::ast::ParseError;
use calc::token::Token::Number;
use calc::token::TokenizationError;
use calc::{evaluate_line, EvalError, Num};

const TESTS: &[(&'static str, Num)] = &[
    ("1>0", 1),
    ("1<0", 0),
    ("1=1", 1),
    ("1=0", 0),
    ("1+2", 3),
    ("1+2*3", 7),
    ("(1+2)*3", 9),
];

#[test]
fn test() {
    for (input, output) in TESTS {
        println!("Evaluating {}", *input);
        assert_eq!(Ok(*output), evaluate_line(*input));
    }
}

#[test]
fn precedence_and_associativity() {
    assert_eq!(evaluate_line("1+2*3"), Ok(7));
    assert_eq!(evaluate_line("(1+2)*3"), Ok(9));
    assert_eq!(evaluate_line("1-2-3"), Ok(-4));
    assert_eq!(evaluate_line("1 < 2 = 1"), Ok(1));
    assert_eq!(evaluate_line(" 10 - 2 * ( 3 + 1 ) "), Ok(2));
}

#[test]
fn relations_give_zero_or_one() {
    assert_eq!(evaluate_line("1>0"), Ok(1));
    assert_eq!(evaluate_line("1<0"), Ok(0));
    assert_eq!(evaluate_line("1=1"), Ok(1));
    assert_eq!(evaluate_line("1=0"), Ok(0));
}

#[test]
fn line_errors_are_typed() {
    assert_eq!(
        evaluate_line("abc"),
        Err(EvalError::Tokenization(TokenizationError { position: 0 }))
    );
    assert_eq!(evaluate_line("(1+2"), Err(EvalError::Parse(ParseError::UnmatchedParenthesis)));
    assert_eq!(
        evaluate_line("1 2"),
        Err(EvalError::Parse(ParseError::TrailingTokens(Number(2))))
    );
    assert_eq!(evaluate_line(""), Err(EvalError::Parse(ParseError::UnexpectedEnd)));
    assert_eq!(
        evaluate_line("170141183460469231731687303715884105727+1"),
        Err(EvalError::Overflow)
    );
}

#[test]
fn written_out_line_evaluates_to_its_value() {
    assert_eq!(evaluate_line("((8-3)<9)"), Ok(1));
    assert_eq!(evaluate_line("((12*3)-(4+5))"), Ok(27));
    assert_eq!(evaluate_line("(0=(7-7))"), Ok(1));
    assert_eq!(evaluate_line("007"), Err(EvalError::Tokenization(TokenizationError { position: 1 })));
}
