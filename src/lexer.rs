use vstd::prelude::*;

use crate::token::{ParseError, Token};
use vstd::std_specs::iter::IteratorSpec;

verus! {

broadcast use vstd::string::axiom_spec_iter, vstd::string::next_postcondition;

pub open spec fn is_digit(c: char) -> bool {
    '0' <= c && c <= '9'
}

/// ASCII whitespace: space, tab, line feed, form feed and carriage return.
pub open spec fn is_space(c: char) -> bool {
    c == ' ' || c == '\t' || c == '\n' || c == '\x0C' || c == '\r'
}

pub open spec fn digit_value(c: char) -> int {
    c as int - '0' as int
}

/// The token a one-character operator or parenthesis stands for.
pub open spec fn symbol_token(c: char) -> Option<Token> {
    if c == '+' {
        Some(Token::Plus)
    } else if c == '-' {
        Some(Token::Minus)
    } else if c == '*' {
        Some(Token::Star)
    } else if c == '/' {
        Some(Token::Slash)
    } else if c == '(' {
        Some(Token::LParen)
    } else if c == ')' {
        Some(Token::RParen)
    } else {
        None
    }
}

fn symbol(c: char) -> (r: Option<Token>)
    ensures
        r == symbol_token(c),
{
    if c == '+' {
        Some(Token::Plus)
    } else if c == '-' {
        Some(Token::Minus)
    } else if c == '*' {
        Some(Token::Star)
    } else if c == '/' {
        Some(Token::Slash)
    } else if c == '(' {
        Some(Token::LParen)
    } else if c == ')' {
        Some(Token::RParen)
    } else {
        None
    }
}

/// The tokens of `cs` from index `i` on, up to the first lexing error, and that
/// error if there is one.
pub open spec fn lex_from(cs: Seq<char>, i: nat) -> (Seq<Token>, Option<ParseError>)
    decreases cs.len() - i, 0int,
{
    if i >= cs.len() {
        (seq![], None)
    } else if is_space(cs[i as int]) {
        lex_from(cs, i + 1)
    } else if is_digit(cs[i as int]) {
        lex_number(cs, i, i + 1, digit_value(cs[i as int]))
    } else if symbol_token(cs[i as int]) is Some {
        let rest = lex_from(cs, i + 1);
        (seq![symbol_token(cs[i as int])->0] + rest.0, rest.1)
    } else {
        (seq![], Some(ParseError::UnexpectedCharacter(cs[i as int], i as usize)))
    }
}

/// Lexing inside a run of digits that began at `start`; `acc` is the value of
/// the digits from `start` up to `i`.
pub open spec fn lex_number(cs: Seq<char>, start: nat, i: nat, acc: int) -> (
    Seq<Token>,
    Option<ParseError>,
)
    decreases cs.len() - i, 1int,
{
    if i < cs.len() && is_digit(cs[i as int]) {
        lex_number(cs, start, i + 1, acc * 10 + digit_value(cs[i as int]))
    } else if acc > u64::MAX {
        (seq![], Some(ParseError::NumberOverflow(start as usize)))
    } else {
        let rest = lex_from(cs, i);
        (seq![Token::Number(acc as u64)] + rest.0, rest.1)
    }
}

/// The tokens of a whole input, and the lexing error that ends them, if any.
pub open spec fn lex(cs: Seq<char>) -> (Seq<Token>, Option<ParseError>) {
    lex_from(cs, 0)
}

/// Once the value of a digit run exceeds `u64::MAX`, the run is an overflow.
pub proof fn lemma_number_overflows(cs: Seq<char>, start: nat, i: nat, acc: int)
    requires
        acc > u64::MAX,
    ensures
        lex_number(cs, start, i, acc) == (
            Seq::<Token>::empty(),
            Some(ParseError::NumberOverflow(start as usize)),
        ),
    decreases cs.len() - i,
{
    if i < cs.len() && is_digit(cs[i as int]) {
        lemma_number_overflows(cs, start, i + 1, acc * 10 + digit_value(cs[i as int]));
    }
}

/// A lexer over the characters of an input, with a cursor.
pub struct TokenIter {
    chars: Vec<char>,
    pos: usize,
}

impl TokenIter {
    pub closed spec fn chars(&self) -> Seq<char> {
        self.chars@
    }

    pub closed spec fn pos(&self) -> nat {
        self.pos as nat
    }

    /// What is left to lex.
    pub open spec fn remaining(&self) -> (Seq<Token>, Option<ParseError>) {
        lex_from(self.chars(), self.pos())
    }

    /// A lexer at the start of `str`.
    pub fn new(str: &str) -> (r: TokenIter)
        ensures
            r.chars() == str@,
            r.pos() == 0,
            r.remaining() == lex(str@),
    {
        let mut it = str.chars();
        let mut chars: Vec<char> = Vec::new();
        loop
            invariant
                chars@ + it.remaining() == str@,
            ensures
                chars@ == str@,
            decreases str@.len() - chars@.len(),
        {
            match it.next() {
                Some(c) => chars.push(c),
                None => {
                    assert(chars@ =~= str@);
                    break;
                },
            }
        }
        TokenIter { chars, pos: 0 }
    }

    /// The cursor stands within the input.
    pub open spec fn well_formed(&self) -> bool {
        self.pos() <= self.chars().len()
    }

    /// Produces the next token, skipping whitespace first. `Ok(None)` marks the
    /// end of the input, and an error an unrecognized character or a number
    /// too large for `u64`.
    pub fn next(&mut self) -> (r: Result<Option<Token>, ParseError>)
        requires
            old(self).well_formed(),
        ensures
            final(self).well_formed(),
            final(self).chars() == old(self).chars(),
            match r {
                Ok(Some(t)) => {
                    &&& old(self).remaining().0.len() > 0
                    &&& t == old(self).remaining().0[0]
                    &&& final(self).remaining() == (
                        old(self).remaining().0.drop_first(),
                        old(self).remaining().1,
                    )
                    &&& final(self).pos() > old(self).pos()
                },
                Ok(None) => old(self).remaining() == (Seq::<Token>::empty(), None::<ParseError>),
                Err(e) => old(self).remaining() == (Seq::<Token>::empty(), Some(e)),
            },
    {
        let n = self.chars.len();
        loop
            invariant
                self.chars@ == old(self).chars@,
                n == self.chars.len(),
                old(self).pos <= self.pos <= n,
                self.remaining() == old(self).remaining(),
            decreases n - self.pos,
        {
            if self.pos >= n {
                return Ok(None);
            }
            let c = self.chars[self.pos];
            if c == ' ' || c == '\t' || c == '\n' || c == '\x0C' || c == '\r' {
                self.pos = self.pos + 1;
            } else if '0' <= c && c <= '9' {
                let v = self.number();
                match v {
                    Ok(v) => {
                        return Ok(Some(Token::Number(v)));
                    },
                    Err(e) => return Err(e),
                }
            } else {
                match symbol(c) {
                    Some(t) => {
                        self.pos = self.pos + 1;
                        return Ok(Some(t));
                    },
                    None => return Err(ParseError::UnexpectedCharacter(c, self.pos)),
                }
            }
        }
    }

    /// Lexes everything that is left: the tokens up to the first error, and
    /// that error if there is one.
    pub fn tokenize(&mut self) -> (r: (Vec<Token>, Option<ParseError>))
        requires
            old(self).well_formed(),
        ensures
            r.0@ == old(self).remaining().0,
            r.1 == old(self).remaining().1,
    {
        let mut toks: Vec<Token> = Vec::new();
        let n = self.chars.len();
        loop
            invariant
                self.well_formed(),
                n == self.chars.len(),
                toks@ + self.remaining().0 == old(self).remaining().0,
                self.remaining().1 == old(self).remaining().1,
            decreases n - self.pos,
        {
            match self.next() {
                Ok(Some(t)) => {
                    proof {
                        let rem = old(self).remaining().0;
                        assert(toks@.push(t) + self.remaining().0 =~= rem);
                    }
                    toks.push(t);
                },
                Ok(None) => {
                    assert(toks@ =~= old(self).remaining().0);
                    return (toks, None);
                },
                Err(e) => {
                    assert(toks@ =~= old(self).remaining().0);
                    return (toks, Some(e));
                },
            }
        }
    }

    /// Reads the run of digits at the cursor, which starts with a digit.
    fn number(&mut self) -> (r: Result<u64, ParseError>)
        requires
            old(self).pos() < old(self).chars().len(),
            is_digit(old(self).chars()[old(self).pos() as int]),
        ensures
            final(self).chars() == old(self).chars(),
            final(self).well_formed(),
            match r {
                Ok(v) => {
                    &&& old(self).pos() < final(self).pos() <= final(self).chars().len()
                    &&& old(self).remaining() == (
                        seq![Token::Number(v)] + final(self).remaining().0,
                        final(self).remaining().1,
                    )
                },
                Err(e) => old(self).remaining() == (Seq::<Token>::empty(), Some(e)),
            },
    {
        let n = self.chars.len();
        let start = self.pos;
        let first = self.chars[self.pos];
        let mut acc: u64 = (first as u32 - '0' as u32) as u64;
        self.pos = self.pos + 1;
        while self.pos < self.chars.len() && '0' <= self.chars[self.pos] && self.chars[self.pos]
            <= '9'
            invariant
                self.chars@ == old(self).chars@,
                start == old(self).pos,
                start < self.pos <= self.chars.len(),
                old(self).remaining() == lex_number(
                    self.chars@,
                    start as nat,
                    self.pos as nat,
                    acc as int,
                ),
            decreases self.chars.len() - self.pos,
        {
            let c = self.chars[self.pos];
            let d: u64 = (c as u32 - '0' as u32) as u64;
            self.pos = self.pos + 1;
            let next = match acc.checked_mul(10) {
                Some(m) => m.checked_add(d),
                None => None,
            };
            match next {
                Some(n) => acc = n,
                None => {
                    proof {
                        lemma_number_overflows(
                            self.chars@,
                            start as nat,
                            self.pos as nat,
                            acc * 10 + digit_value(c),
                        );
                    }
                    return Err(ParseError::NumberOverflow(start));
                },
            }
        }
        Ok(acc)
    }
}

} // verus!
