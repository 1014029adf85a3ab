//! Expressions written out as text, and what reading such text gives back.

use vstd::prelude::*;

use crate::ast::{lemma_parse_rendered, render, symbol_for, Expression};
use crate::token::{
    digit_of, flushed, is_space, lex_prefix, lex_step, tokens_of, LexState, Symbol, Token,
    TokenizationError,
};
use crate::{line_value, EvalError, Num};

verus! {

/// The character of a decimal digit.
pub open spec fn digit_char(d: int) -> char {
    if d == 0 {
        '0'
    } else if d == 1 {
        '1'
    } else if d == 2 {
        '2'
    } else if d == 3 {
        '3'
    } else if d == 4 {
        '4'
    } else if d == 5 {
        '5'
    } else if d == 6 {
        '6'
    } else if d == 7 {
        '7'
    } else if d == 8 {
        '8'
    } else {
        '9'
    }
}

/// The decimal digits of a natural number, without leading zeros.
pub open spec fn digits(n: nat) -> Seq<char>
    decreases n,
{
    if n < 10 {
        seq![digit_char(n as int)]
    } else {
        digits(n / 10).push(digit_char((n % 10) as int))
    }
}

/// The character that writes a symbol.
pub open spec fn symbol_char(s: Symbol) -> char {
    match s {
        Symbol::Plus => '+',
        Symbol::Minus => '-',
        Symbol::Asterisk => '*',
        Symbol::LessThan => '<',
        Symbol::BiggerThan => '>',
        Symbol::Equal => '=',
        Symbol::LeftParenthesis => '(',
        Symbol::RightParenthesis => ')',
    }
}

/// Whether every constant of an expression is at least zero, as every
/// number that the lexer reads is.
pub open spec fn constants_nonneg(e: Expression) -> bool
    decreases e,
{
    match e {
        Expression::Const(n) => n >= 0,
        Expression::Action { left, action, right } => constants_nonneg(*left) && constants_nonneg(
            *right,
        ),
    }
}

/// An expression written out as text, with every operation in parentheses.
pub open spec fn text(e: Expression) -> Seq<char>
    decreases e,
{
    match e {
        Expression::Const(n) => digits(n as nat),
        Expression::Action { left, action, right } => seq![symbol_char(Symbol::LeftParenthesis)]
            + text(*left) + seq![symbol_char(symbol_for(action))] + text(*right) + seq![
            symbol_char(Symbol::RightParenthesis),
        ],
    }
}

/// Reading one more character is one step of the lexer.
proof fn lemma_lex_push(s: Seq<char>, c: char)
    ensures
        lex_prefix(s + seq![c]) == match lex_prefix(s) {
            Ok(st) => lex_step(st, c, s.len() as int),
            Err(e) => Err(e),
        },
{
    let u = s + seq![c];
    assert(u.drop_last() =~= s);
    assert(u.last() == c);
}

proof fn lemma_digit_char(d: int)
    requires
        0 <= d < 10,
    ensures
        digit_of(digit_char(d)) == Some(d as Num),
        !is_space(digit_char(d)),
{
}

/// The digits of a number, read with no number pending, leave it pending.
proof fn lemma_lex_digits(s: Seq<char>, toks: Seq<Token>, n: nat)
    requires
        lex_prefix(s) == Ok::<LexState, TokenizationError>((toks, None)),
        n <= Num::MAX,
    ensures
        lex_prefix(s + digits(n)) == Ok::<LexState, TokenizationError>((toks, Some(n as Num))),
    decreases n,
{
    if n < 10 {
        lemma_digit_char(n as int);
        lemma_lex_push(s, digit_char(n as int));
    } else {
        let d = n % 10;
        let m = n / 10;
        lemma_lex_digits(s, toks, m);
        lemma_digit_char(d as int);
        assert(s + digits(n) =~= (s + digits(m)) + seq![digit_char(d as int)]);
        lemma_lex_push(s + digits(m), digit_char(d as int));
        assert(m * 10 + d == n);
    }
}

/// Reading a symbol character ends the pending number and adds the symbol.
proof fn lemma_lex_symbol(s: Seq<char>, toks: Seq<Token>, acc: Option<Num>, sym: Symbol)
    requires
        lex_prefix(s) == Ok::<LexState, TokenizationError>((toks, acc)),
    ensures
        lex_prefix(s + seq![symbol_char(sym)]) == Ok::<LexState, TokenizationError>(
            (toks + flushed(acc) + seq![Token::Op(sym)], None),
        ),
{
    lemma_lex_push(s, symbol_char(sym));
}

/// Reading the text of an expression, with no number pending, adds its
/// tokens; only the number that a constant ends with stays pending.
#[verifier::rlimit(100)]
proof fn lemma_lex_text(s: Seq<char>, toks: Seq<Token>, e: Expression)
    requires
        lex_prefix(s) == Ok::<LexState, TokenizationError>((toks, None)),
        constants_nonneg(e),
    ensures
        lex_prefix(s + text(e)) is Ok,
        lex_prefix(s + text(e))->Ok_0.0 + flushed(lex_prefix(s + text(e))->Ok_0.1) == toks
            + render(e),
        e is Action ==> lex_prefix(s + text(e))->Ok_0.1 is None,
    decreases e,
{
    match e {
        Expression::Const(n) => {
            lemma_lex_digits(s, toks, n as nat);
        },
        Expression::Action { left, action, right } => {
            let l = *left;
            let r = *right;
            let open = Symbol::LeftParenthesis;
            let close = Symbol::RightParenthesis;
            let op = symbol_for(action);
            let s1 = s + seq![symbol_char(open)];
            lemma_lex_symbol(s, toks, None, open);
            let t1 = toks + seq![Token::Op(open)];
            assert(toks + flushed(None) + seq![Token::Op(open)] =~= t1);
            lemma_lex_text(s1, t1, l);
            let s2 = s1 + text(l);
            let (t2, a2) = lex_prefix(s2)->Ok_0;
            lemma_lex_symbol(s2, t2, a2, op);
            let s3 = s2 + seq![symbol_char(op)];
            let t3 = t2 + flushed(a2) + seq![Token::Op(op)];
            lemma_lex_text(s3, t3, r);
            let s4 = s3 + text(r);
            let (t4, a4) = lex_prefix(s4)->Ok_0;
            lemma_lex_symbol(s4, t4, a4, close);
            let s5 = s4 + seq![symbol_char(close)];
            assert(s5 =~= s + text(e));
            assert(t4 + flushed(a4) + seq![Token::Op(close)] =~= toks + render(e));
            assert((toks + render(e)) + flushed(None) =~= toks + render(e));
        },
    }
}

/// The text of an expression tokenizes to its tokens.
pub proof fn lemma_tokenize_text(e: Expression)
    requires
        constants_nonneg(e),
    ensures
        tokens_of(text(e)) == Ok::<Seq<Token>, TokenizationError>(render(e)),
{
    let s = Seq::<char>::empty();
    assert(lex_prefix(s) == Ok::<LexState, TokenizationError>((seq![], None)));
    lemma_lex_text(s, seq![], e);
    assert(s + text(e) =~= text(e));
    assert(Seq::<Token>::empty() + render(e) =~= render(e));
}

/// Every expression whose constants are at least zero, written out as
/// text, is read back as itself: evaluating the line gives the value of
/// the expression, or `Overflow` where a subexpression does not fit.
pub proof fn lemma_line_round_trip(e: Expression)
    requires
        constants_nonneg(e),
    ensures
        line_value(text(e)) == (if e.fits() {
            Ok::<Num, EvalError>(e.value() as Num)
        } else {
            Err::<Num, EvalError>(EvalError::Overflow)
        }),
{
    lemma_tokenize_text(e);
    lemma_parse_rendered(e);
}

} // verus!
