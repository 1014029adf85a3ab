//! Evaluation of single-line arithmetic and relational expressions:
//! a lexer, a recursive-descent parser and a tree evaluator.

use vstd::prelude::*;

pub mod token;
pub mod ast;
pub mod text;

use crate::ast::{parse_tokens, parsed, Expression, ParseError};
use crate::token::{tokenize, tokens_of, TokenizationError};

verus! {

/// The integer type that numbers and results are held in.
pub type Num = i128;

/// Why a line could not be evaluated.
#[derive(PartialEq, Eq, Structural, Debug, Copy, Clone)]
pub enum EvalError {
    /// The line holds a character that is no token, or a malformed number.
    Tokenization(TokenizationError),
    /// The tokens do not form an expression.
    Parse(ParseError),
    /// The value of a subexpression does not fit in `Num`.
    Overflow,
}

/// What evaluating a line gives: its value, or the first error met.
pub open spec fn line_value(s: Seq<char>) -> Result<Num, EvalError> {
    match tokens_of(s) {
        Err(e) => Err(EvalError::Tokenization(e)),
        Ok(t) => match parsed(t) {
            Err(e) => Err(EvalError::Parse(e)),
            Ok(expr) => if expr.fits() {
                Ok(expr.value() as Num)
            } else {
                Err(EvalError::Overflow)
            },
        },
    }
}

/// Tokenizes, parses and evaluates one line of text.
pub fn evaluate_line(line: &str) -> (r: Result<Num, EvalError>)
    ensures
        r == line_value(line@),
{
    let tokens = match tokenize(line) {
        Ok(t) => t,
        Err(e) => return Err(EvalError::Tokenization(e)),
    };
    let expr: Expression = match parse_tokens(tokens) {
        Ok(e) => e,
        Err(e) => return Err(EvalError::Parse(e)),
    };
    match expr.checked_evaluate() {
        Some(v) => Ok(v),
        None => Err(EvalError::Overflow),
    }
}

} // verus!
