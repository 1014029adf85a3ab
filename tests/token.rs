use calc::token::Symbol::{Asterisk, LeftParenthesis, Plus, RightParenthesis};
use calc::token::Token::{Number, Op, Whitespace};
use calc::token::{tokenize, Token, TokenStream, TokenizationError};

struct TestCase(&'static str, &'static [Token]);

const TESTS_POSITIVE: &[TestCase] = &[
    TestCase("2+2", &[Number(2), Op(Plus), Number(2)]),
    TestCase("2++2", &[Number(2), Op(Plus), Op(Plus), Number(2)]),
    TestCase("", &[]),
    TestCase(
        "((2+555)+100)0",
        &[
            Op(LeftParenthesis),
            Op(LeftParenthesis),
            Number(2),
            Op(Plus),
            Number(555),
            Op(RightParenthesis),
            Op(Plus),
            Number(100),
            Op(RightParenthesis),
            Number(0),
        ],
    ),
    TestCase("2 * 10", &[Number(2), Whitespace(' '), Op(Asterisk), Whitespace(' '), Number(10)]),
];

#[test]
fn positive() {
    for TestCase(input, output) in TESTS_POSITIVE {
        let tokens = tokenize(input).unwrap();
        assert_eq!(tokens, *output);
        println!("{} converted to {:?} successfully", input, tokens);
    }
}

#[test]
fn leading_zero_is_refused() {
    assert_eq!(tokenize("0001"), Err(TokenizationError { position: 1 }));
    assert_eq!(tokenize("00"), Err(TokenizationError { position: 1 }));
    assert_eq!(tokenize("100"), Ok(vec![Number(100)]));
}

#[test]
fn letters_are_refused() {
    assert_eq!(tokenize("abc"), Err(TokenizationError { position: 0 }));
    assert_eq!(tokenize("1 + x"), Err(TokenizationError { position: 4 }));
}

#[test]
fn empty_line_has_no_tokens() {
    assert_eq!(tokenize(""), Ok(vec![]));
}

#[test]
fn whitespace_tokens_are_kept_one_per_character() {
    assert_eq!(
        tokenize("1\t \n2"),
        Ok(vec![Number(1), Whitespace('\t'), Whitespace(' '), Whitespace('\n'), Number(2)])
    );
    assert_eq!(tokenize("\u{3000}7"), Ok(vec![Whitespace('\u{3000}'), Number(7)]));
}

#[test]
fn largest_number_is_read() {
    assert_eq!(tokenize("170141183460469231731687303715884105727"), Ok(vec![Number(i128::MAX)]));
    assert_eq!(
        tokenize("170141183460469231731687303715884105728"),
        Err(TokenizationError { position: 38 })
    );
}

#[test]
fn stream_reads_and_advances() {
    let mut stream = TokenStream::new(vec![Number(1), Op(Plus)]);
    assert_eq!(stream.read(), Some(Number(1)));
    assert_eq!(stream.read(), Some(Number(1)));
    stream.advance();
    assert_eq!(stream.read(), Some(Op(Plus)));
    stream.advance();
    assert_eq!(stream.read(), None);
    stream.advance();
    assert_eq!(stream.read(), None);
}
