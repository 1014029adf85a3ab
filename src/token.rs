//! The lexer: from a line of text to a sequence of tokens, and a cursor
//! over such a sequence.

use vstd::prelude::*;

use crate::Num;

verus! {

/// Any non-numeric and non-whitespace characters,
/// currently limited to operators and parentheses
#[derive(PartialEq, Eq, Structural, Debug, Copy, Clone)]
pub enum Symbol {
    Plus,
    Minus,
    Asterisk,
    LessThan,
    BiggerThan,
    Equal,
    LeftParenthesis,
    RightParenthesis,
}

/// The symbol that a character stands for, if any.
pub open spec fn symbol_of(c: char) -> Option<Symbol> {
    if c == '+' {
        Some(Symbol::Plus)
    } else if c == '-' {
        Some(Symbol::Minus)
    } else if c == '*' {
        Some(Symbol::Asterisk)
    } else if c == '>' {
        Some(Symbol::BiggerThan)
    } else if c == '<' {
        Some(Symbol::LessThan)
    } else if c == '=' {
        Some(Symbol::Equal)
    } else if c == '(' {
        Some(Symbol::LeftParenthesis)
    } else if c == ')' {
        Some(Symbol::RightParenthesis)
    } else {
        None
    }
}

impl Symbol {
    fn parse_char(c: char) -> (r: Option<Self>)
        ensures
            r == symbol_of(c),
    {
        match c {
            '+' => Some(Symbol::Plus),
            '-' => Some(Symbol::Minus),
            '*' => Some(Symbol::Asterisk),
            '>' => Some(Symbol::BiggerThan),
            '<' => Some(Symbol::LessThan),
            '=' => Some(Symbol::Equal),
            '(' => Some(Symbol::LeftParenthesis),
            ')' => Some(Symbol::RightParenthesis),
            _ => None,
        }
    }
}

#[derive(PartialEq, Eq, Structural, Debug, Copy, Clone)]
pub enum Token {
    Op(Symbol),
    Number(Num),
    Whitespace(char),
}

/// The error of the lexer: the index, counted in characters, of the first
/// character that does not fit.
#[derive(PartialEq, Eq, Structural, Debug, Copy, Clone)]
pub struct TokenizationError {
    pub position: usize,
}

/// Unicode's `White_Space` property, as `char::is_whitespace` documents it.
pub open spec fn is_space(c: char) -> bool {
    let u = c as u32;
    (0x09 <= u && u <= 0x0D) || u == 0x20 || u == 0x85 || u == 0xA0 || u == 0x1680 || (0x2000
        <= u && u <= 0x200A) || u == 0x2028 || u == 0x2029 || u == 0x202F || u == 0x205F || u
        == 0x3000
}

/// The value of a decimal digit, if the character is one.
pub open spec fn digit_of(c: char) -> Option<Num> {
    if '0' <= c && c <= '9' {
        Some((c as u32 - '0' as u32) as Num)
    } else {
        None
    }
}

fn is_whitespace(c: char) -> (r: bool)
    ensures
        r == is_space(c),
{
    let u = c as u32;
    (0x09 <= u && u <= 0x0D) || u == 0x20 || u == 0x85 || u == 0xA0 || u == 0x1680 || (0x2000
        <= u && u <= 0x200A) || u == 0x2028 || u == 0x2029 || u == 0x202F || u == 0x205F || u
        == 0x3000
}

fn to_digit(c: char) -> (r: Option<Num>)
    ensures
        r == digit_of(c),
        r matches Some(d) ==> 0 <= d <= 9,
{
    if '0' <= c && c <= '9' {
        Some((c as u32 - '0' as u32) as Num)
    } else {
        None
    }
}

/// The tokens that a pending number adds when it ends.
pub open spec fn flushed(acc: Option<Num>) -> Seq<Token> {
    match acc {
        Some(n) => seq![Token::Number(n)],
        None => seq![],
    }
}

/// The state of the lexer after a prefix of its input: the tokens emitted
/// so far and the number still being read.
pub type LexState = (Seq<Token>, Option<Num>);

/// One character, at index `i`, read in the state `st`.
///
/// A digit extends the pending number; a number of more than one digit
/// that starts with `0`, or one too large for `Num`, is refused at the
/// digit that makes it so. Whitespace and symbols end the pending number.
pub open spec fn lex_step(st: LexState, c: char, i: int) -> Result<LexState, TokenizationError> {
    let (toks, acc) = st;
    if is_space(c) {
        Ok((toks + flushed(acc) + seq![Token::Whitespace(c)], None))
    } else if digit_of(c) is Some {
        let d = digit_of(c)->0;
        match acc {
            None => Ok((toks, Some(d))),
            Some(n) => if n != 0 && n * 10 + d <= Num::MAX {
                Ok((toks, Some((n * 10 + d) as Num)))
            } else {
                Err(TokenizationError { position: i as usize })
            },
        }
    } else if symbol_of(c) is Some {
        Ok((toks + flushed(acc) + seq![Token::Op(symbol_of(c)->0)], None))
    } else {
        Err(TokenizationError { position: i as usize })
    }
}

/// The state of the lexer after reading all of `s`, or its first error.
pub open spec fn lex_prefix(s: Seq<char>) -> Result<LexState, TokenizationError>
    decreases s.len(),
{
    if s.len() == 0 {
        Ok((seq![], None))
    } else {
        match lex_prefix(s.drop_last()) {
            Ok(st) => lex_step(st, s.last(), s.len() - 1),
            Err(e) => Err(e),
        }
    }
}

/// The tokens of a line of text, or the error at its first bad character.
pub open spec fn tokens_of(s: Seq<char>) -> Result<Seq<Token>, TokenizationError> {
    match lex_prefix(s) {
        Ok((toks, acc)) => Ok(toks + flushed(acc)),
        Err(e) => Err(e),
    }
}

/// Once the lexer has failed on a prefix, the whole input fails alike.
proof fn lemma_error_stays(s: Seq<char>, k: int)
    requires
        0 <= k <= s.len(),
        lex_prefix(s.take(k)) is Err,
    ensures
        lex_prefix(s) == lex_prefix(s.take(k)),
    decreases s.len(),
{
    if k < s.len() {
        assert(s.drop_last().take(k) =~= s.take(k));
        lemma_error_stays(s.drop_last(), k);
    } else {
        assert(s.take(k) =~= s);
    }
}

/// Transforms the input string into a vector of tokens, or reports the
/// index of the first character that is neither whitespace, a digit nor a
/// symbol, or that makes a malformed or too large number.
pub fn tokenize(input: &str) -> (r: Result<Vec<Token>, TokenizationError>)
    ensures
        r matches Ok(v) ==> tokens_of(input@) == Ok::<Seq<Token>, TokenizationError>(v@),
        r matches Err(e) ==> tokens_of(input@) == Err::<Seq<Token>, TokenizationError>(e),
{
    let mut current_number: Option<Num> = None;
    let mut tokens: Vec<Token> = Vec::new();
    let len: usize = input.unicode_len();
    let mut i: usize = 0;
    while i < len
        invariant
            i <= len,
            len == input@.len(),
            lex_prefix(input@.take(i as int)) == Ok::<LexState, TokenizationError>(
                (tokens@, current_number),
            ),
            current_number matches Some(n) ==> n >= 0,
        decreases len - i,
    {
        let c = input.get_char(i);
        let ghost before = tokens@;
        let ghost acc = current_number;
        proof {
            assert(input@.take(i + 1).drop_last() =~= input@.take(i as int));
        }
        if is_whitespace(c) {
            if let Some(num) = current_number {
                tokens.push(Token::Number(num));
                current_number = None;
            }
            tokens.push(Token::Whitespace(c));
            assert(tokens@ =~= before + flushed(acc) + seq![Token::Whitespace(c)]);
        } else if let Some(digit) = to_digit(c) {
            match current_number {
                None => {
                    current_number = Some(digit);
                },
                Some(num) => {
                    let next = if num != 0 {
                        match num.checked_mul(10) {
                            Some(m) => m.checked_add(digit),
                            None => None,
                        }
                    } else {
                        None
                    };
                    match next {
                        Some(n) => {
                            current_number = Some(n);
                        },
                        None => {
                            proof {
                                assert(input@.take(i + 1).last() == c);
                                assert(lex_step((before, acc), c, i as int) is Err);
                                lemma_error_stays(input@, i + 1);
                            }
                            return Err(TokenizationError { position: i });
                        },
                    }
                },
            }
        } else {
            match Symbol::parse_char(c) {
                Some(op) => {
                    if let Some(num) = current_number {
                        tokens.push(Token::Number(num));
                        current_number = None;
                    }
                    tokens.push(Token::Op(op));
                    assert(tokens@ =~= before + flushed(acc) + seq![Token::Op(op)]);
                },
                None => {
                    proof {
                        lemma_error_stays(input@, i + 1);
                    }
                    return Err(TokenizationError { position: i });
                },
            }
        }
        i += 1;
    }
    assert(input@.take(len as int) =~= input@);
    if let Some(num) = current_number {
        tokens.push(Token::Number(num));
    }
    assert(tokens@ =~= tokens_of(input@)->Ok_0);
    Ok(tokens)
}

/// Wrapper for the vector of tokens providing stream-like API
pub struct TokenStream {
    tokens: Vec<Token>,
    pos: usize,
}

impl TokenStream {
    /// The tokens that the stream walks over.
    pub closed spec fn spec_tokens(&self) -> Seq<Token> {
        self.tokens@
    }

    /// The index of the token under the cursor.
    pub closed spec fn spec_pos(&self) -> int {
        self.pos as int
    }

    /// The token under the cursor, or `None` past the end.
    pub open spec fn spec_read(&self) -> Option<Token> {
        if 0 <= self.spec_pos() < self.spec_tokens().len() {
            Some(self.spec_tokens()[self.spec_pos()])
        } else {
            None
        }
    }

    /// Moves the cursor one token ahead
    pub fn advance(&mut self)
        requires
            old(self).spec_pos() < usize::MAX,
        ensures
            final(self).spec_tokens() == old(self).spec_tokens(),
            final(self).spec_pos() == old(self).spec_pos() + 1,
    {
        self.pos += 1;
    }

    /// Looks up the token under the cursor,
    /// returns None if the stream has finished
    pub fn read(&mut self) -> (r: Option<Token>)
        ensures
            *final(self) == *old(self),
            r == old(self).spec_read(),
    {
        if self.pos < self.tokens.len() {
            Some(self.tokens[self.pos])
        } else {
            None
        }
    }

    /// Creates a new stream from a vector of tokens
    pub fn new(tokens: Vec<Token>) -> (r: Self)
        ensures
            r.spec_tokens() == tokens@,
            r.spec_pos() == 0,
            r.spec_tokens().len() <= usize::MAX,
    {
        let _n: usize = tokens.len();
        TokenStream { tokens, pos: 0 }
    }
}

/// The whitespace tokens of a token sequence, in order.
pub open spec fn whitespace_tokens(t: Seq<Token>) -> Seq<Token>
    decreases t.len(),
{
    if t.len() == 0 {
        seq![]
    } else if t.last() is Whitespace {
        whitespace_tokens(t.drop_last()).push(t.last())
    } else {
        whitespace_tokens(t.drop_last())
    }
}

/// A whitespace token for each whitespace character of a text, in order.
pub open spec fn whitespace_chars(s: Seq<char>) -> Seq<Token>
    decreases s.len(),
{
    if s.len() == 0 {
        seq![]
    } else if is_space(s.last()) {
        whitespace_chars(s.drop_last()).push(Token::Whitespace(s.last()))
    } else {
        whitespace_chars(s.drop_last())
    }
}

/// Ending a pending number adds no whitespace token.
proof fn lemma_flush_whitespace(toks: Seq<Token>, acc: Option<Num>)
    ensures
        whitespace_tokens(toks + flushed(acc)) == whitespace_tokens(toks),
{
    if acc is Some {
        assert((toks + flushed(acc)).drop_last() =~= toks);
    } else {
        assert(toks + flushed(acc) =~= toks);
    }
}

/// One token appended adds itself to the whitespace tokens if it is one.
proof fn lemma_append_whitespace(a: Seq<Token>, x: Token)
    ensures
        whitespace_tokens(a + seq![x]) == (if x is Whitespace {
            whitespace_tokens(a).push(x)
        } else {
            whitespace_tokens(a)
        }),
{
    let b = a + seq![x];
    assert(b.len() == a.len() + 1);
    assert(b.drop_last() =~= a);
    assert(b.last() == x);
}

proof fn lemma_prefix_whitespace(s: Seq<char>)
    requires
        lex_prefix(s) is Ok,
    ensures
        whitespace_tokens(lex_prefix(s)->Ok_0.0) == whitespace_chars(s),
    decreases s.len(),
{
    if s.len() > 0 {
        let init = s.drop_last();
        let c = s.last();
        lemma_prefix_whitespace(init);
        let (toks, acc) = lex_prefix(init)->Ok_0;
        lemma_flush_whitespace(toks, acc);
        if is_space(c) {
            lemma_append_whitespace(toks + flushed(acc), Token::Whitespace(c));
        } else if digit_of(c) is None && symbol_of(c) is Some {
            lemma_append_whitespace(toks + flushed(acc), Token::Op(symbol_of(c)->0));
        }
    }
}

/// Tokenizing keeps every whitespace character as one whitespace token,
/// in the order of the text.
pub proof fn lemma_whitespace_kept(s: Seq<char>)
    requires
        tokens_of(s) is Ok,
    ensures
        whitespace_tokens(tokens_of(s)->Ok_0) == whitespace_chars(s),
{
    lemma_prefix_whitespace(s);
    let (toks, acc) = lex_prefix(s)->Ok_0;
    lemma_flush_whitespace(toks, acc);
}

} // verus!
