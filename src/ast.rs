//! The expression tree, its evaluation, and the recursive-descent parser
//! that builds it from tokens.

use vstd::prelude::*;

use crate::token::{Symbol, Token, TokenStream};
use crate::Num;

verus! {

/// The possible operators, each represents a function on two integers returning a new integer.
/// This is not the same as Symbol token, because it does not include the parentheses
#[derive(PartialEq, Eq, Structural, Debug, Copy, Clone)]
pub enum Operator {
    Summation,
    Subtraction,
    Multiplication,
    LessThanComparison,
    BiggerThanComparison,
    EqualityComparison,
}

/// Whether an integer fits in `Num`.
pub open spec fn in_range(v: int) -> bool {
    Num::MIN <= v <= Num::MAX
}

/// The operator that a symbol stands for; parentheses stand for none.
pub open spec fn operator_of(symbol: Symbol) -> Option<Operator> {
    match symbol {
        Symbol::Plus => Some(Operator::Summation),
        Symbol::Minus => Some(Operator::Subtraction),
        Symbol::Asterisk => Some(Operator::Multiplication),
        Symbol::LessThan => Some(Operator::LessThanComparison),
        Symbol::BiggerThan => Some(Operator::BiggerThanComparison),
        Symbol::Equal => Some(Operator::EqualityComparison),
        _ => None,
    }
}

impl Operator {
    /// The value of the operator on two integers; a comparison gives 1
    /// when it holds and 0 when it does not.
    pub open spec fn spec_apply(self, left: int, right: int) -> int {
        match self {
            Operator::Summation => left + right,
            Operator::Subtraction => left - right,
            Operator::Multiplication => left * right,
            Operator::LessThanComparison => if left < right {
                1
            } else {
                0
            },
            Operator::BiggerThanComparison => if left > right {
                1
            } else {
                0
            },
            Operator::EqualityComparison => if left == right {
                1
            } else {
                0
            },
        }
    }

    /// Applies the operator to two numbers and returns the result
    pub fn apply(&self, left: Num, right: Num) -> (r: Num)
        requires
            in_range(self.spec_apply(left as int, right as int)),
        ensures
            r == self.spec_apply(left as int, right as int),
    {
        match *self {
            Operator::Summation => left + right,
            Operator::Subtraction => left - right,
            Operator::Multiplication => left * right,
            Operator::LessThanComparison => if left < right {
                1
            } else {
                0
            },
            Operator::BiggerThanComparison => if left > right {
                1
            } else {
                0
            },
            Operator::EqualityComparison => if left == right {
                1
            } else {
                0
            },
        }
    }

    /// Applies the operator to two numbers, or returns `None` where the
    /// result does not fit in `Num`.
    pub fn checked_apply(&self, left: Num, right: Num) -> (r: Option<Num>)
        ensures
            r == (if in_range(self.spec_apply(left as int, right as int)) {
                Some(self.spec_apply(left as int, right as int) as Num)
            } else {
                None::<Num>
            }),
    {
        match *self {
            Operator::Summation => left.checked_add(right),
            Operator::Subtraction => left.checked_sub(right),
            Operator::Multiplication => left.checked_mul(right),
            _ => Some(self.apply(left, right)),
        }
    }

    /// Tries to transform the Symbol token into an Operator
    fn from_symbol(symbol: Symbol) -> (r: Option<Self>)
        ensures
            r == operator_of(symbol),
    {
        match symbol {
            Symbol::Plus => Some(Operator::Summation),
            Symbol::Minus => Some(Operator::Subtraction),
            Symbol::Asterisk => Some(Operator::Multiplication),
            Symbol::LessThan => Some(Operator::LessThanComparison),
            Symbol::BiggerThan => Some(Operator::BiggerThanComparison),
            Symbol::Equal => Some(Operator::EqualityComparison),
            _ => None,
        }
    }
}

/// An AST node representing an expression
#[derive(PartialEq, Eq, Debug)]
pub enum Expression {
    /// A constant literal
    Const(Num),
    /// Operation on two subexpressions
    Action { left: Box<Expression>, action: Operator, right: Box<Expression> },
}

impl Expression {
    /// The value of the expression, over unbounded integers.
    pub open spec fn value(self) -> int
        decreases self,
    {
        match self {
            Expression::Const(v) => v as int,
            Expression::Action { left, action, right } => action.spec_apply(
                left.value(),
                right.value(),
            ),
        }
    }

    /// Whether the value of every subexpression fits in `Num`.
    pub open spec fn fits(self) -> bool
        decreases self,
    {
        match self {
            Expression::Const(_) => true,
            Expression::Action { left, action, right } => left.fits() && right.fits() && in_range(
                self.value(),
            ),
        }
    }

    /// Evaluates the expression and returns its value
    pub fn evaluate(&self) -> (r: Num)
        requires
            self.fits(),
        ensures
            r == self.value(),
        decreases self,
    {
        match self {
            Expression::Const(val) => *val,
            Expression::Action { left, action, right } => action.apply(
                left.evaluate(),
                right.evaluate(),
            ),
        }
    }

    /// Evaluates the expression, or returns `None` where the value of a
    /// subexpression does not fit in `Num`.
    pub fn checked_evaluate(&self) -> (r: Option<Num>)
        ensures
            r == (if self.fits() {
                Some(self.value() as Num)
            } else {
                None::<Num>
            }),
        decreases self,
    {
        match self {
            Expression::Const(val) => Some(*val),
            Expression::Action { left, action, right } => match left.checked_evaluate() {
                Some(l) => match right.checked_evaluate() {
                    Some(r) => action.checked_apply(l, r),
                    None => None,
                },
                None => None,
            },
        }
    }
}

/// Why a token sequence is not an expression.
#[derive(PartialEq, Eq, Structural, Debug, Copy, Clone)]
pub enum ParseError {
    /// The tokens ended where a number or an opening parenthesis was needed.
    UnexpectedEnd,
    /// This token stood where a number or an opening parenthesis was needed.
    UnexpectedToken(Token),
    /// An opening parenthesis was not closed right after its contents.
    UnmatchedParenthesis,
    /// This token was left over after a whole expression.
    TrailingTokens(Token),
}

/// The result of reading one grammar rule at some position: the
/// expression and the position just after it.
pub type Parsed = Result<(Expression, int), ParseError>;

pub open spec fn is_relation_token(tok: Token) -> bool {
    tok == Token::Op(Symbol::LessThan) || tok == Token::Op(Symbol::BiggerThan) || tok
        == Token::Op(Symbol::Equal)
}

pub open spec fn is_term_token(tok: Token) -> bool {
    tok == Token::Op(Symbol::Plus) || tok == Token::Op(Symbol::Minus)
}

pub open spec fn is_factor_token(tok: Token) -> bool {
    tok == Token::Op(Symbol::Asterisk)
}

/// The operator of an operator token.
pub open spec fn operator_token(tok: Token) -> Operator {
    operator_of(tok->Op_0)->0
}

/// The result of an exec parsing function, with the position it stopped at.
pub open spec fn outcome(r: Result<Expression, ParseError>, q: int) -> Parsed {
    match r {
        Ok(e) => Ok((e, q)),
        Err(err) => Err(err),
    }
}

// The rules below read `t` from position `p`. A rule never moves back and
// never past the end; the tests `p <= q <= t.len()` on the positions that
// the rules return say so for the termination of the definitions.

/// `primary := Number | '(' relation ')'`
pub open spec fn parse_primary(t: Seq<Token>, p: int) -> Parsed
    decreases t.len() - p, 0int,
{
    if p < 0 || p >= t.len() {
        Err(ParseError::UnexpectedEnd)
    } else {
        match t[p] {
            Token::Number(n) => Ok((Expression::Const(n), p + 1)),
            Token::Op(Symbol::LeftParenthesis) => match parse_relation(t, p + 1) {
                Ok((e, q)) => if 0 <= q < t.len() && t[q] == Token::Op(Symbol::RightParenthesis) {
                    Ok((e, q + 1))
                } else {
                    Err(ParseError::UnmatchedParenthesis)
                },
                Err(err) => Err(err),
            },
            tok => Err(ParseError::UnexpectedToken(tok)),
        }
    }
}

/// `(mulOp primary)*`, folded to the left onto `acc`.
pub open spec fn parse_factor_rest(t: Seq<Token>, p: int, acc: Expression) -> Parsed
    decreases t.len() - p, 1int,
{
    if 0 <= p < t.len() && is_factor_token(t[p]) {
        match parse_primary(t, p + 1) {
            Ok((e, q)) => {
                let next = Expression::Action {
                    left: Box::new(acc),
                    action: operator_token(t[p]),
                    right: Box::new(e),
                };
                if p < q <= t.len() {
                    parse_factor_rest(t, q, next)
                } else {
                    Ok((next, q))
                }
            },
            Err(err) => Err(err),
        }
    } else {
        Ok((acc, p))
    }
}

/// `factor := primary (mulOp primary)*`
pub open spec fn parse_factor(t: Seq<Token>, p: int) -> Parsed
    decreases t.len() - p, 2int,
{
    match parse_primary(t, p) {
        Ok((e, q)) => if p <= q <= t.len() {
            parse_factor_rest(t, q, e)
        } else {
            Ok((e, q))
        },
        Err(err) => Err(err),
    }
}

/// `(addOp factor)*`, folded to the left onto `acc`.
pub open spec fn parse_term_rest(t: Seq<Token>, p: int, acc: Expression) -> Parsed
    decreases t.len() - p, 3int,
{
    if 0 <= p < t.len() && is_term_token(t[p]) {
        match parse_factor(t, p + 1) {
            Ok((e, q)) => {
                let next = Expression::Action {
                    left: Box::new(acc),
                    action: operator_token(t[p]),
                    right: Box::new(e),
                };
                if p < q <= t.len() {
                    parse_term_rest(t, q, next)
                } else {
                    Ok((next, q))
                }
            },
            Err(err) => Err(err),
        }
    } else {
        Ok((acc, p))
    }
}

/// `term := factor (addOp factor)*`
pub open spec fn parse_term(t: Seq<Token>, p: int) -> Parsed
    decreases t.len() - p, 4int,
{
    match parse_factor(t, p) {
        Ok((e, q)) => if p <= q <= t.len() {
            parse_term_rest(t, q, e)
        } else {
            Ok((e, q))
        },
        Err(err) => Err(err),
    }
}

/// `(relOp term)*`, folded to the left onto `acc`.
pub open spec fn parse_relation_rest(t: Seq<Token>, p: int, acc: Expression) -> Parsed
    decreases t.len() - p, 5int,
{
    if 0 <= p < t.len() && is_relation_token(t[p]) {
        match parse_term(t, p + 1) {
            Ok((e, q)) => {
                let next = Expression::Action {
                    left: Box::new(acc),
                    action: operator_token(t[p]),
                    right: Box::new(e),
                };
                if p < q <= t.len() {
                    parse_relation_rest(t, q, next)
                } else {
                    Ok((next, q))
                }
            },
            Err(err) => Err(err),
        }
    } else {
        Ok((acc, p))
    }
}

/// `relation := term (relOp term)*`
pub open spec fn parse_relation(t: Seq<Token>, p: int) -> Parsed
    decreases t.len() - p, 6int,
{
    match parse_term(t, p) {
        Ok((e, q)) => if p <= q <= t.len() {
            parse_relation_rest(t, q, e)
        } else {
            Ok((e, q))
        },
        Err(err) => Err(err),
    }
}


/// Tries to read a primary from the token stream.
/// A primary is either a constant literal or a subexpression wrapped in parentheses.
fn read_primary(stream: &mut TokenStream) -> (r: Result<Expression, ParseError>)
    requires
        old(stream).spec_pos() <= old(stream).spec_tokens().len() <= usize::MAX,
    ensures
        final(stream).spec_tokens() == old(stream).spec_tokens(),
        old(stream).spec_pos() <= final(stream).spec_pos() <= old(stream).spec_tokens().len(),
        r is Ok ==> old(stream).spec_pos() < final(stream).spec_pos(),
        parse_primary(old(stream).spec_tokens(), old(stream).spec_pos()) == outcome(
            r,
            final(stream).spec_pos(),
        ),
    decreases old(stream).spec_tokens().len() - old(stream).spec_pos(), 0int,
{
    match stream.read() {
        None => Err(ParseError::UnexpectedEnd),
        Some(Token::Number(num)) => {
            stream.advance();
            Ok(Expression::Const(num))
        },
        Some(Token::Op(Symbol::LeftParenthesis)) => {
            stream.advance();
            let expr = match read_relation(stream) {
                Ok(e) => e,
                Err(err) => return Err(err),
            };
            match stream.read() {
                Some(Token::Op(Symbol::RightParenthesis)) => {
                    stream.advance();
                    Ok(expr)
                },
                _ => Err(ParseError::UnmatchedParenthesis),
            }
        },
        Some(tok) => Err(ParseError::UnexpectedToken(tok)),
    }
}

/// Whether the token is `*`.
fn is_factor_symbol(tok: &Token) -> (r: bool)
    ensures
        r == is_factor_token(*tok),
{
    if let Token::Op(s) = *tok {
        s == Symbol::Asterisk
    } else {
        false
    }
}

/// Tries to read a factor from the token stream.
/// A factor is a product of subexpressions.
fn read_factor(tokens: &mut TokenStream) -> (r: Result<Expression, ParseError>)
    requires
        old(tokens).spec_pos() <= old(tokens).spec_tokens().len() <= usize::MAX,
    ensures
        final(tokens).spec_tokens() == old(tokens).spec_tokens(),
        old(tokens).spec_pos() <= final(tokens).spec_pos() <= old(tokens).spec_tokens().len(),
        r is Ok ==> old(tokens).spec_pos() < final(tokens).spec_pos(),
        parse_factor(old(tokens).spec_tokens(), old(tokens).spec_pos()) == outcome(
            r,
            final(tokens).spec_pos(),
        ),
    decreases old(tokens).spec_tokens().len() - old(tokens).spec_pos(), 2int,
{
    let ghost t = tokens.spec_tokens();
    let ghost p0 = tokens.spec_pos();
    let mut expr = match read_primary(tokens) {
        Ok(e) => e,
        Err(err) => return Err(err),
    };
    loop
        invariant
            t == old(tokens).spec_tokens(),
            p0 == old(tokens).spec_pos(),
            tokens.spec_tokens() == t,
            p0 < tokens.spec_pos() <= t.len() <= usize::MAX,
            parse_factor(t, p0) == parse_factor_rest(t, tokens.spec_pos(), expr),
        ensures
            !(tokens.spec_pos() < t.len() && is_factor_token(t[tokens.spec_pos()])),
        decreases t.len() - tokens.spec_pos(),
    {
        let tok = match tokens.read() {
            Some(tok) => tok,
            None => break,
        };
        if !is_factor_symbol(&tok) {
            break;
        }
        let action = match tok {
            Token::Op(s) => Operator::from_symbol(s).unwrap(),
            _ => break,
        };
        tokens.advance();
        let right = match read_primary(tokens) {
            Ok(e) => e,
            Err(err) => return Err(err),
        };
        expr = Expression::Action { left: Box::new(expr), action, right: Box::new(right) };
    }
    Ok(expr)
}

/// Whether the token is `+` or `-`.
fn is_term_symbol(tok: &Token) -> (r: bool)
    ensures
        r == is_term_token(*tok),
{
    if let Token::Op(s) = *tok {
        s == Symbol::Plus || s == Symbol::Minus
    } else {
        false
    }
}

/// Tries to read a term from the token stream.
/// A term is a sum or a difference of subexpressions.
fn read_term(tokens: &mut TokenStream) -> (r: Result<Expression, ParseError>)
    requires
        old(tokens).spec_pos() <= old(tokens).spec_tokens().len() <= usize::MAX,
    ensures
        final(tokens).spec_tokens() == old(tokens).spec_tokens(),
        old(tokens).spec_pos() <= final(tokens).spec_pos() <= old(tokens).spec_tokens().len(),
        r is Ok ==> old(tokens).spec_pos() < final(tokens).spec_pos(),
        parse_term(old(tokens).spec_tokens(), old(tokens).spec_pos()) == outcome(
            r,
            final(tokens).spec_pos(),
        ),
    decreases old(tokens).spec_tokens().len() - old(tokens).spec_pos(), 4int,
{
    let ghost t = tokens.spec_tokens();
    let ghost p0 = tokens.spec_pos();
    let mut expr = match read_factor(tokens) {
        Ok(e) => e,
        Err(err) => return Err(err),
    };
    loop
        invariant
            t == old(tokens).spec_tokens(),
            p0 == old(tokens).spec_pos(),
            tokens.spec_tokens() == t,
            p0 < tokens.spec_pos() <= t.len() <= usize::MAX,
            parse_term(t, p0) == parse_term_rest(t, tokens.spec_pos(), expr),
        ensures
            !(tokens.spec_pos() < t.len() && is_term_token(t[tokens.spec_pos()])),
        decreases t.len() - tokens.spec_pos(),
    {
        let tok = match tokens.read() {
            Some(tok) => tok,
            None => break,
        };
        if !is_term_symbol(&tok) {
            break;
        }
        let action = match tok {
            Token::Op(s) => Operator::from_symbol(s).unwrap(),
            _ => break,
        };
        tokens.advance();
        let right = match read_factor(tokens) {
            Ok(e) => e,
            Err(err) => return Err(err),
        };
        expr = Expression::Action { left: Box::new(expr), action, right: Box::new(right) };
    }
    Ok(expr)
}

/// Whether the token is one of the comparison symbols.
fn is_relation_symbol(tok: &Token) -> (r: bool)
    ensures
        r == is_relation_token(*tok),
{
    if let Token::Op(s) = *tok {
        s == Symbol::LessThan || s == Symbol::BiggerThan || s == Symbol::Equal
    } else {
        false
    }
}

/// Tries to read a relation from the token stream.
/// A relation is subexpressions compared with each other by the comparison operators.
fn read_relation(tokens: &mut TokenStream) -> (r: Result<Expression, ParseError>)
    requires
        old(tokens).spec_pos() <= old(tokens).spec_tokens().len() <= usize::MAX,
    ensures
        final(tokens).spec_tokens() == old(tokens).spec_tokens(),
        old(tokens).spec_pos() <= final(tokens).spec_pos() <= old(tokens).spec_tokens().len(),
        r is Ok ==> old(tokens).spec_pos() < final(tokens).spec_pos(),
        parse_relation(old(tokens).spec_tokens(), old(tokens).spec_pos()) == outcome(
            r,
            final(tokens).spec_pos(),
        ),
    decreases old(tokens).spec_tokens().len() - old(tokens).spec_pos(), 6int,
{
    let ghost t = tokens.spec_tokens();
    let ghost p0 = tokens.spec_pos();
    let mut expr = match read_term(tokens) {
        Ok(e) => e,
        Err(err) => return Err(err),
    };
    loop
        invariant
            t == old(tokens).spec_tokens(),
            p0 == old(tokens).spec_pos(),
            tokens.spec_tokens() == t,
            p0 < tokens.spec_pos() <= t.len() <= usize::MAX,
            parse_relation(t, p0) == parse_relation_rest(t, tokens.spec_pos(), expr),
        ensures
            !(tokens.spec_pos() < t.len() && is_relation_token(t[tokens.spec_pos()])),
        decreases t.len() - tokens.spec_pos(),
    {
        let tok = match tokens.read() {
            Some(tok) => tok,
            None => break,
        };
        if !is_relation_symbol(&tok) {
            break;
        }
        let action = match tok {
            Token::Op(s) => Operator::from_symbol(s).unwrap(),
            _ => break,
        };
        tokens.advance();
        let right = match read_term(tokens) {
            Ok(e) => e,
            Err(err) => return Err(err),
        };
        expr = Expression::Action { left: Box::new(expr), action, right: Box::new(right) };
    }
    Ok(expr)
}

/// The tokens with the whitespace tokens taken out; the grammar reads
/// only these.
pub open spec fn without_whitespace(t: Seq<Token>) -> Seq<Token>
    decreases t.len(),
{
    if t.len() == 0 {
        seq![]
    } else if t.last() is Whitespace {
        without_whitespace(t.drop_last())
    } else {
        without_whitespace(t.drop_last()).push(t.last())
    }
}

/// The expression that a token sequence spells, or why it spells none:
/// one relation, read from the tokens other than whitespace, that must
/// take all of them.
pub open spec fn parsed(t: Seq<Token>) -> Result<Expression, ParseError> {
    let u = without_whitespace(t);
    match parse_relation(u, 0) {
        Ok((e, q)) => if 0 <= q < u.len() {
            Err(ParseError::TrailingTokens(u[q]))
        } else {
            Ok(e)
        },
        Err(err) => Err(err),
    }
}

/// Parses the input vector of tokens into an `Expression`, after taking
/// out its whitespace tokens.
pub fn parse_tokens(tokens: Vec<Token>) -> (r: Result<Expression, ParseError>)
    ensures
        r == parsed(tokens@),
{
    let mut kept: Vec<Token> = Vec::new();
    let mut i: usize = 0;
    while i < tokens.len()
        invariant
            i <= tokens@.len(),
            kept@ == without_whitespace(tokens@.take(i as int)),
        decreases tokens@.len() - i,
    {
        let tok = tokens[i];
        proof {
            assert(tokens@.take(i + 1).drop_last() =~= tokens@.take(i as int));
        }
        match tok {
            Token::Whitespace(_) => {},
            _ => kept.push(tok),
        }
        i += 1;
    }
    assert(tokens@.take(tokens@.len() as int) =~= tokens@);
    let mut stream = TokenStream::new(kept);
    let expr = match read_relation(&mut stream) {
        Ok(e) => e,
        Err(err) => return Err(err),
    };
    match stream.read() {
        None => Ok(expr),
        Some(tok) => Err(ParseError::TrailingTokens(tok)),
    }
}

/// Taking out whitespace distributes over concatenation.
proof fn lemma_without_whitespace_add(a: Seq<Token>, b: Seq<Token>)
    ensures
        without_whitespace(a + b) == without_whitespace(a) + without_whitespace(b),
    decreases b.len(),
{
    if b.len() == 0 {
        assert(a + b =~= a);
        assert(without_whitespace(a) + without_whitespace(b) =~= without_whitespace(a));
    } else {
        let init = b.drop_last();
        lemma_without_whitespace_add(a, init);
        assert((a + b).drop_last() =~= a + init);
        assert((a + b).last() == b.last());
        if !(b.last() is Whitespace) {
            assert((without_whitespace(a) + without_whitespace(init)).push(b.last())
                =~= without_whitespace(a) + without_whitespace(init).push(b.last()));
        }
    }
}

/// A sequence of one token that is not whitespace is kept whole.
proof fn lemma_without_whitespace_one(x: Token)
    requires
        !(x is Whitespace),
    ensures
        without_whitespace(seq![x]) == seq![x],
{
    let e = Seq::<Token>::empty();
    assert(seq![x].len() == 1 && seq![x].last() == x);
    assert(seq![x].drop_last() =~= e);
    assert(without_whitespace(e) =~= e);
    assert(e.push(x) =~= seq![x]);
}

/// Two numbers in a row at the start: the first is a whole relation and
/// the second is left over.
pub proof fn lemma_adjacent_numbers(a: Num, b: Num, rest: Seq<Token>)
    ensures
        parsed(seq![Token::Number(a), Token::Number(b)] + rest) == Err::<Expression, ParseError>(
            ParseError::TrailingTokens(Token::Number(b)),
        ),
{
    let x = Token::Number(a);
    let y = Token::Number(b);
    lemma_without_whitespace_add(seq![x, y] + Seq::<Token>::empty(), rest);
    assert(seq![x, y] + Seq::<Token>::empty() =~= seq![x, y]);
    lemma_without_whitespace_add(seq![x], seq![y]);
    assert(seq![x] + seq![y] =~= seq![x, y]);
    lemma_without_whitespace_one(x);
    lemma_without_whitespace_one(y);
    let u = seq![x, y] + without_whitespace(rest);
    assert(without_whitespace(seq![x, y] + rest) == u);
    let c = Expression::Const(a);
    assert(u[0] == x && u[1] == y);
    assert(parse_primary(u, 0) == Ok::<(Expression, int), ParseError>((c, 1)));
    assert(parse_factor_rest(u, 1, c) == Ok::<(Expression, int), ParseError>((c, 1)));
    assert(parse_factor(u, 0) == Ok::<(Expression, int), ParseError>((c, 1)));
    assert(parse_term_rest(u, 1, c) == Ok::<(Expression, int), ParseError>((c, 1)));
    assert(parse_term(u, 0) == Ok::<(Expression, int), ParseError>((c, 1)));
    assert(parse_relation_rest(u, 1, c) == Ok::<(Expression, int), ParseError>((c, 1)));
    assert(parse_relation(u, 0) == Ok::<(Expression, int), ParseError>((c, 1)));
}

/// The symbol that writes an operator.
pub open spec fn symbol_for(op: Operator) -> Symbol {
    match op {
        Operator::Summation => Symbol::Plus,
        Operator::Subtraction => Symbol::Minus,
        Operator::Multiplication => Symbol::Asterisk,
        Operator::LessThanComparison => Symbol::LessThan,
        Operator::BiggerThanComparison => Symbol::BiggerThan,
        Operator::EqualityComparison => Symbol::Equal,
    }
}

/// The tokens of an expression written out with every operation in
/// parentheses: the well-formed token sequences.
pub open spec fn render(e: Expression) -> Seq<Token>
    decreases e,
{
    match e {
        Expression::Const(n) => seq![Token::Number(n)],
        Expression::Action { left, action, right } => seq![Token::Op(Symbol::LeftParenthesis)]
            + render(*left) + seq![Token::Op(symbol_for(action))] + render(*right) + seq![
            Token::Op(Symbol::RightParenthesis),
        ],
    }
}

/// A written-out expression holds no whitespace token.
proof fn lemma_render_without_whitespace(e: Expression)
    ensures
        without_whitespace(render(e)) == render(e),
    decreases e,
{
    match e {
        Expression::Const(n) => {
            lemma_without_whitespace_one(Token::Number(n));
        },
        Expression::Action { left, action, right } => {
            let a = seq![Token::Op(Symbol::LeftParenthesis)];
            let b = seq![Token::Op(symbol_for(action))];
            let c = seq![Token::Op(Symbol::RightParenthesis)];
            lemma_render_without_whitespace(*left);
            lemma_render_without_whitespace(*right);
            lemma_without_whitespace_one(a[0]);
            lemma_without_whitespace_one(b[0]);
            lemma_without_whitespace_one(c[0]);
            lemma_without_whitespace_add(a, render(*left));
            lemma_without_whitespace_add(a + render(*left), b);
            lemma_without_whitespace_add(a + render(*left) + b, render(*right));
            lemma_without_whitespace_add(a + render(*left) + b + render(*right), c);
        },
    }
}

/// A written-out expression, wherever it stands in a token sequence, is
/// read back by `primary` as itself.
proof fn lemma_primary_render(e: Expression, t: Seq<Token>, p: int)
    requires
        0 <= p,
        p + render(e).len() <= t.len(),
        t.subrange(p, p + render(e).len()) == render(e),
    ensures
        parse_primary(t, p) == Ok::<(Expression, int), ParseError>((e, p + render(e).len())),
    decreases e,
{
    let s = render(e);
    assert(t[p] == s[0]);
    match e {
        Expression::Const(n) => {},
        Expression::Action { left, action, right } => {
            let l = *left;
            let r = *right;
            let pl = p + 1 + render(l).len();
            let pr = pl + 1 + render(r).len();
            assert(s.len() == render(l).len() + render(r).len() + 3);
            assert(t.subrange(p + 1, pl) =~= render(l)) by {
                assert forall|i: int| 0 <= i < render(l).len() implies t[p + 1 + i]
                    == render(l)[i] by {
                    assert(t[p + 1 + i] == s[1 + i]);
                }
            }
            assert(t.subrange(pl + 1, pr) =~= render(r)) by {
                assert forall|i: int| 0 <= i < render(r).len() implies t[pl + 1 + i]
                    == render(r)[i] by {
                    assert(t[pl + 1 + i] == s[pl + 1 + i - p]);
                }
            }
            assert(t[pl] == s[pl - p]);
            assert(t[pr] == s[pr - p]);
            lemma_primary_render(l, t, p + 1);
            lemma_primary_render(r, t, pl + 1);
            let close = Token::Op(Symbol::RightParenthesis);
            assert(t[pl] == Token::Op(symbol_for(action)));
            assert(t[pr] == close);
            assert(operator_token(t[pl]) == action);
            let q = p + 1;
            if action == Operator::Multiplication {
                assert(parse_factor_rest(t, pr, e) == Ok::<(Expression, int), ParseError>((e, pr)));
                assert(parse_factor_rest(t, pl, l) == Ok::<(Expression, int), ParseError>((e, pr)));
                assert(parse_factor(t, q) == Ok::<(Expression, int), ParseError>((e, pr)));
                assert(parse_term_rest(t, pr, e) == Ok::<(Expression, int), ParseError>((e, pr)));
                assert(parse_term(t, q) == Ok::<(Expression, int), ParseError>((e, pr)));
            } else if action == Operator::Summation || action == Operator::Subtraction {
                assert(parse_factor_rest(t, pl, l) == Ok::<(Expression, int), ParseError>((l, pl)));
                assert(parse_factor(t, q) == Ok::<(Expression, int), ParseError>((l, pl)));
                assert(parse_factor_rest(t, pr, r) == Ok::<(Expression, int), ParseError>((r, pr)));
                assert(parse_factor(t, pl + 1) == Ok::<(Expression, int), ParseError>((r, pr)));
                assert(parse_term_rest(t, pr, e) == Ok::<(Expression, int), ParseError>((e, pr)));
                assert(parse_term_rest(t, pl, l) == Ok::<(Expression, int), ParseError>((e, pr)));
                assert(parse_term(t, q) == Ok::<(Expression, int), ParseError>((e, pr)));
            } else {
                assert(parse_factor_rest(t, pl, l) == Ok::<(Expression, int), ParseError>((l, pl)));
                assert(parse_factor(t, q) == Ok::<(Expression, int), ParseError>((l, pl)));
                assert(parse_term_rest(t, pl, l) == Ok::<(Expression, int), ParseError>((l, pl)));
                assert(parse_term(t, q) == Ok::<(Expression, int), ParseError>((l, pl)));
                assert(parse_factor_rest(t, pr, r) == Ok::<(Expression, int), ParseError>((r, pr)));
                assert(parse_factor(t, pl + 1) == Ok::<(Expression, int), ParseError>((r, pr)));
                assert(parse_term_rest(t, pr, r) == Ok::<(Expression, int), ParseError>((r, pr)));
                assert(parse_term(t, pl + 1) == Ok::<(Expression, int), ParseError>((r, pr)));
                assert(parse_relation_rest(t, pl, l) == parse_relation_rest(t, pr, e));
            }
            assert(parse_relation_rest(t, pr, e) == Ok::<(Expression, int), ParseError>((e, pr)));
            assert(parse_relation(t, q) == Ok::<(Expression, int), ParseError>((e, pr)));
        },
    }
}

/// Every expression, written out with its operations in parentheses,
/// parses back to itself; its value is then the one `evaluate` returns.
pub proof fn lemma_parse_rendered(e: Expression)
    ensures
        parsed(render(e)) == Ok::<Expression, ParseError>(e),
{
    let t = render(e);
    let n = t.len() as int;
    lemma_render_without_whitespace(e);
    assert(t.subrange(0, n) =~= t);
    lemma_primary_render(e, t, 0);
    assert(parse_factor_rest(t, n, e) == Ok::<(Expression, int), ParseError>((e, n)));
    assert(parse_factor(t, 0) == Ok::<(Expression, int), ParseError>((e, n)));
    assert(parse_term_rest(t, n, e) == Ok::<(Expression, int), ParseError>((e, n)));
    assert(parse_term(t, 0) == Ok::<(Expression, int), ParseError>((e, n)));
    assert(parse_relation_rest(t, n, e) == Ok::<(Expression, int), ParseError>((e, n)));
    assert(parse_relation(t, 0) == Ok::<(Expression, int), ParseError>((e, n)));
}

} // verus!
