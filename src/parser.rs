use vstd::prelude::*;

use crate::lexer::{lex, TokenIter};
use crate::token::{binding_power, is_operator, well_formed, Expression, ParseError, Token};

verus! {

/// What pulling a token past the last one gives: the lexing error that ended
/// the tokens, or else the end of the input.
pub open spec fn stream_error(end: Option<ParseError>) -> ParseError {
    match end {
        Some(e) => e,
        None => ParseError::UnexpectedEndOfInput,
    }
}

/// Prefix step on the token stream `toks` (followed by `end`) at index `at`:
/// an operand, and the index after it.
pub open spec fn nud_spec(toks: Seq<Token>, end: Option<ParseError>, at: nat) -> Result<
    (Expression, nat),
    ParseError,
>
    decreases toks.len() - at, 0int,
{
    if at >= toks.len() {
        Err(stream_error(end))
    } else {
        match toks[at as int] {
            Token::Number(v) => Ok((Expression::Literal(v), at + 1)),
            Token::LParen => match expr_spec(toks, end, at + 1, 0) {
                Err(e) => Err(e),
                Ok((inner, p)) => {
                    if p < toks.len() && toks[p as int] == Token::RParen {
                        Ok((inner, p + 1))
                    } else if p >= toks.len() && end is Some {
                        Err(end->0)
                    } else {
                        Err(ParseError::UnmatchedParenthesis(p as usize))
                    }
                },
            },
            t => Err(ParseError::UnexpectedToken(t, at as usize)),
        }
    }
}

/// An operand followed by every infix step whose operator binds tighter than `rbp`.
pub open spec fn expr_spec(toks: Seq<Token>, end: Option<ParseError>, pos: nat, rbp: nat) -> Result<
    (Expression, nat),
    ParseError,
>
    decreases toks.len() - pos, 1int,
{
    match nud_spec(toks, end, pos) {
        Err(e) => Err(e),
        Ok((left, p)) => {
            if pos < p <= toks.len() {
                infix_spec(toks, end, left, p, rbp)
            } else {
                Ok((left, p))
            }
        },
    }
}

/// The infix loop: extends `left` while the operator at `p` binds tighter than `rbp`.
pub open spec fn infix_spec(
    toks: Seq<Token>,
    end: Option<ParseError>,
    left: Expression,
    p: nat,
    rbp: nat,
) -> Result<(Expression, nat), ParseError>
    decreases toks.len() - p, 2int,
{
    if p >= toks.len() {
        match end {
            Some(e) => Err(e),
            None => Ok((left, p)),
        }
    } else if binding_power(toks[p as int]) > rbp {
        let op = toks[p as int];
        match expr_spec(toks, end, p + 1, binding_power(op)) {
            Err(e) => Err(e),
            Ok((right, q)) => {
                let joined = Expression::BinaryOp(Box::new(left), op, Box::new(right));
                if p < q <= toks.len() {
                    infix_spec(toks, end, joined, q, rbp)
                } else {
                    Ok((joined, q))
                }
            },
        }
    } else {
        Ok((left, p))
    }
}

/// A whole expression from index `pos`, which must use up the stream.
pub open spec fn parse_from(toks: Seq<Token>, end: Option<ParseError>, pos: nat) -> Result<
    Expression,
    ParseError,
> {
    match expr_spec(toks, end, pos, 0) {
        Err(e) => Err(e),
        Ok((e, p)) => {
            if p < toks.len() {
                if toks[p as int] == Token::RParen {
                    Err(ParseError::UnmatchedParenthesis(p as usize))
                } else {
                    Err(ParseError::TrailingTokens(toks[p as int], p as usize))
                }
            } else {
                match end {
                    Some(err) => Err(err),
                    None => Ok(e),
                }
            }
        },
    }
}

/// A whole expression over a token stream.
pub open spec fn parse_tokens(toks: Seq<Token>, end: Option<ParseError>) -> Result<
    Expression,
    ParseError,
> {
    parse_from(toks, end, 0)
}

/// A whole expression over the characters of an input.
pub open spec fn parse_input(cs: Seq<char>) -> Result<Expression, ParseError> {
    parse_tokens(lex(cs).0, lex(cs).1)
}

proof fn lemma_nud_well_formed(toks: Seq<Token>, end: Option<ParseError>, at: nat)
    ensures
        nud_spec(toks, end, at) is Ok ==> well_formed(nud_spec(toks, end, at)->Ok_0.0),
    decreases toks.len() - at, 0int,
{
    if at < toks.len() && toks[at as int] is LParen {
        lemma_expr_well_formed(toks, end, at + 1, 0);
    }
}

proof fn lemma_expr_well_formed(toks: Seq<Token>, end: Option<ParseError>, pos: nat, rbp: nat)
    ensures
        expr_spec(toks, end, pos, rbp) is Ok ==> well_formed(
            expr_spec(toks, end, pos, rbp)->Ok_0.0,
        ),
    decreases toks.len() - pos, 1int,
{
    lemma_nud_well_formed(toks, end, pos);
    if let Ok((left, p)) = nud_spec(toks, end, pos) {
        if pos < p <= toks.len() {
            lemma_infix_well_formed(toks, end, left, p, rbp);
        }
    }
}

proof fn lemma_infix_well_formed(
    toks: Seq<Token>,
    end: Option<ParseError>,
    left: Expression,
    p: nat,
    rbp: nat,
)
    requires
        well_formed(left),
    ensures
        infix_spec(toks, end, left, p, rbp) is Ok ==> well_formed(
            infix_spec(toks, end, left, p, rbp)->Ok_0.0,
        ),
    decreases toks.len() - p, 2int,
{
    if p < toks.len() && binding_power(toks[p as int]) > rbp {
        let op = toks[p as int];
        lemma_expr_well_formed(toks, end, p + 1, binding_power(op));
        if let Ok((right, q)) = expr_spec(toks, end, p + 1, binding_power(op)) {
            let joined = Expression::BinaryOp(Box::new(left), op, Box::new(right));
            assert(well_formed(joined));
            if p < q <= toks.len() {
                lemma_infix_well_formed(toks, end, joined, q, rbp);
            }
        }
    }
}

/// Every tree the parser returns holds only arithmetic operators in its
/// operator nodes.
pub proof fn lemma_parsed_trees_well_formed(toks: Seq<Token>, end: Option<ParseError>, pos: nat)
    ensures
        parse_from(toks, end, pos) is Ok ==> well_formed(parse_from(toks, end, pos)->Ok_0),
{
    lemma_expr_well_formed(toks, end, pos, 0);
}

/// Lexing and parsing keep no state from one run to the next: the same input
/// always gives the same tokens and the same tree, or the same error.
pub proof fn lemma_parse_deterministic(a: Seq<char>, b: Seq<char>)
    requires
        a == b,
    ensures
        lex(a) == lex(b),
        parse_input(a) == parse_input(b),
{
}

/// A Pratt parser over a stream of tokens with one token of lookahead. The
/// stream is the tokens held, then `end`: the lexing error that cut the input
/// short, pulled in place of a further token, or nothing.
pub struct Parser {
    tokens: Vec<Token>,
    end: Option<ParseError>,
    pos: usize,
}

impl Parser {
    pub closed spec fn tokens(&self) -> Seq<Token> {
        self.tokens@
    }

    pub closed spec fn end(&self) -> Option<ParseError> {
        self.end
    }

    pub closed spec fn pos(&self) -> nat {
        self.pos as nat
    }

    /// The cursor stands within the tokens.
    pub open spec fn well_formed(&self) -> bool {
        self.pos() <= self.tokens().len() <= usize::MAX
    }

    /// A parser over a complete list of tokens.
    pub fn new(tokens: Vec<Token>) -> (r: Parser)
        ensures
            r.well_formed(),
            r.tokens() == tokens@,
            r.end() == None::<ParseError>,
            r.pos() == 0,
    {
        let len: usize = tokens.len();
        assert(tokens@.len() == len);
        Parser { tokens, end: None, pos: 0 }
    }

    /// A parser over what is left of a lexer's input.
    pub fn from_lexer(lexer: TokenIter) -> (r: Parser)
        requires
            lexer.well_formed(),
        ensures
            r.well_formed(),
            r.tokens() == lexer.remaining().0,
            r.end() == lexer.remaining().1,
            r.pos() == 0,
    {
        let mut lexer = lexer;
        let (tokens, end) = lexer.tokenize();
        let len: usize = tokens.len();
        assert(tokens@.len() == len);
        Parser { tokens, end, pos: 0 }
    }

    /// The next token, left in place.
    fn peek(&self) -> (r: Result<Option<Token>, ParseError>)
        requires
            self.well_formed(),
        ensures
            match r {
                Ok(Some(t)) => self.pos() < self.tokens().len() && t == self.tokens()[self.pos()
                    as int],
                Ok(None) => self.pos() >= self.tokens().len() && self.end() is None,
                Err(e) => self.pos() >= self.tokens().len() && self.end() == Some(e),
            },
    {
        if self.pos < self.tokens.len() {
            Ok(Some(self.tokens[self.pos]))
        } else {
            match self.end {
                Some(e) => Err(e),
                None => Ok(None),
            }
        }
    }

    /// Whether the next token is an operator that binds tighter than `rbp`.
    fn next_binds_tighter_than(&self, rbp: u64) -> (r: Result<bool, ParseError>)
        requires
            self.well_formed(),
        ensures
            match r {
                Ok(b) => b == (self.pos() < self.tokens().len() && binding_power(
                    self.tokens()[self.pos() as int],
                ) > rbp) && (!b ==> self.pos() < self.tokens().len() || self.end() is None),
                Err(e) => self.pos() >= self.tokens().len() && self.end() == Some(e),
            },
    {
        match self.peek() {
            Ok(Some(t)) => Ok(t.lbp() > rbp),
            Ok(None) => Ok(false),
            Err(e) => Err(e),
        }
    }
}

impl Parser {
    /// Parses an operand and then every infix step whose operator binds tighter
    /// than `rbp`; `rbp == 0` reads a full expression. The tokens after it are
    /// left in place.
    pub fn expression(&mut self, rbp: u64) -> (r: Result<Expression, ParseError>)
        requires
            old(self).well_formed(),
        ensures
            final(self).well_formed(),
            final(self).tokens() == old(self).tokens(),
            final(self).end() == old(self).end(),
            match r {
                Ok(e) => {
                    &&& final(self).pos() > old(self).pos()
                    &&& expr_spec(old(self).tokens(), old(self).end(), old(self).pos(), rbp as nat)
                        == Ok::<(Expression, nat), ParseError>((e, final(self).pos()))
                },
                Err(e) => expr_spec(old(self).tokens(), old(self).end(), old(self).pos(), rbp as nat)
                    == Err::<(Expression, nat), ParseError>(e),
            },
        decreases old(self).tokens().len() - old(self).pos(), 3int,
    {
        let mut left = match self.parse_nud() {
            Ok(l) => l,
            Err(e) => return Err(e),
        };
        loop
            invariant
                self.well_formed(),
                self.tokens() == old(self).tokens(),
                self.end() == old(self).end(),
                self.pos() > old(self).pos(),
                expr_spec(old(self).tokens(), old(self).end(), old(self).pos(), rbp as nat)
                    == infix_spec(self.tokens(), self.end(), left, self.pos(), rbp as nat),
            decreases self.tokens().len() - self.pos(),
        {
            match self.next_binds_tighter_than(rbp) {
                Err(e) => return Err(e),
                Ok(false) => return Ok(left),
                Ok(true) => {
                    left = match self.parse_led(left) {
                        Ok(l) => l,
                        Err(e) => return Err(e),
                    };
                },
            }
        }
    }

    /// Consumes the next token and applies its prefix rule.
    fn parse_nud(&mut self) -> (r: Result<Expression, ParseError>)
        requires
            old(self).well_formed(),
        ensures
            final(self).well_formed(),
            final(self).tokens() == old(self).tokens(),
            final(self).end() == old(self).end(),
            match r {
                Ok(e) => {
                    &&& final(self).pos() > old(self).pos()
                    &&& nud_spec(old(self).tokens(), old(self).end(), old(self).pos())
                        == Ok::<(Expression, nat), ParseError>((e, final(self).pos()))
                },
                Err(e) => nud_spec(old(self).tokens(), old(self).end(), old(self).pos())
                    == Err::<(Expression, nat), ParseError>(e),
            },
        decreases old(self).tokens().len() - old(self).pos(), 2int,
    {
        if self.pos < self.tokens.len() {
            let at = self.pos;
            let t = self.tokens[at];
            self.pos = at + 1;
            t.nud(self, at)
        } else {
            match self.end {
                Some(e) => Err(e),
                None => Err(ParseError::UnexpectedEndOfInput),
            }
        }
    }

    /// Consumes the operator at the cursor and applies its infix rule to `expr`.
    fn parse_led(&mut self, expr: Expression) -> (r: Result<Expression, ParseError>)
        requires
            old(self).well_formed(),
            old(self).pos() < old(self).tokens().len(),
            is_operator(old(self).tokens()[old(self).pos() as int]),
        ensures
            final(self).well_formed(),
            final(self).tokens() == old(self).tokens(),
            final(self).end() == old(self).end(),
            ({
                let op = old(self).tokens()[old(self).pos() as int];
                match r {
                    Ok(e) => {
                        &&& final(self).pos() > old(self).pos() + 1
                        &&& exists|right: Expression|
                            #![auto]
                            e == Expression::BinaryOp(Box::new(expr), op, Box::new(right))
                                && expr_spec(
                                old(self).tokens(),
                                old(self).end(),
                                old(self).pos() + 1,
                                binding_power(op),
                            ) == Ok::<(Expression, nat), ParseError>((right, final(self).pos()))
                    },
                    Err(e) => expr_spec(
                        old(self).tokens(),
                        old(self).end(),
                        old(self).pos() + 1,
                        binding_power(op),
                    ) == Err::<(Expression, nat), ParseError>(e),
                }
            }),
        decreases old(self).tokens().len() - old(self).pos(), 2int,
    {
        let t = self.tokens[self.pos];
        self.pos = self.pos + 1;
        t.led(self, expr)
    }

    /// Parses a whole expression from the cursor: it must use up the stream,
    /// and a `)` left over is an unmatched parenthesis.
    pub fn parse(&mut self) -> (r: Result<Expression, ParseError>)
        requires
            old(self).well_formed(),
        ensures
            final(self).well_formed(),
            r == parse_from(old(self).tokens(), old(self).end(), old(self).pos()),
            r is Ok ==> well_formed(r->Ok_0),
    {
        proof {
            lemma_parsed_trees_well_formed(self.tokens(), self.end(), self.pos());
        }
        let e = match self.expression(0) {
            Ok(e) => e,
            Err(err) => return Err(err),
        };
        if self.pos < self.tokens.len() {
            let t = self.tokens[self.pos];
            match t {
                Token::RParen => Err(ParseError::UnmatchedParenthesis(self.pos)),
                _ => Err(ParseError::TrailingTokens(t, self.pos)),
            }
        } else {
            match self.end {
                Some(err) => Err(err),
                None => Ok(e),
            }
        }
    }
}

impl Token {
    /// Prefix rule of the token at index `at`, the cursor standing just after
    /// it: a number is a literal, `(` reads a group up to its `)`, anything
    /// else is unexpected.
    fn nud(&self, parser: &mut Parser, at: usize) -> (r: Result<Expression, ParseError>)
        requires
            old(parser).well_formed(),
            at < old(parser).tokens().len(),
            old(parser).pos() == at + 1,
            old(parser).tokens()[at as int] == *self,
        ensures
            final(parser).well_formed(),
            final(parser).tokens() == old(parser).tokens(),
            final(parser).end() == old(parser).end(),
            match r {
                Ok(e) => {
                    &&& final(parser).pos() > at
                    &&& nud_spec(old(parser).tokens(), old(parser).end(), at as nat)
                        == Ok::<(Expression, nat), ParseError>((e, final(parser).pos()))
                },
                Err(e) => nud_spec(old(parser).tokens(), old(parser).end(), at as nat)
                    == Err::<(Expression, nat), ParseError>(e),
            },
        decreases old(parser).tokens().len() - old(parser).pos(), 4int,
    {
        match *self {
            Token::Number(v) => Ok(Expression::Literal(v)),
            Token::LParen => {
                let inner = match parser.expression(0) {
                    Ok(e) => e,
                    Err(err) => return Err(err),
                };
                match parser.peek() {
                    Ok(Some(Token::RParen)) => {
                        parser.pos = parser.pos + 1;
                        Ok(inner)
                    },
                    Err(err) => Err(err),
                    _ => Err(ParseError::UnmatchedParenthesis(parser.pos)),
                }
            },
            t => Err(ParseError::UnexpectedToken(t, at)),
        }
    }

    /// Infix rule of an operator, the cursor standing just after it: reads the
    /// right operand at the operator's own binding power, which makes every
    /// operator left-associative.
    fn led(&self, parser: &mut Parser, lhs: Expression) -> (r: Result<Expression, ParseError>)
        requires
            old(parser).well_formed(),
            is_operator(*self),
        ensures
            final(parser).well_formed(),
            final(parser).tokens() == old(parser).tokens(),
            final(parser).end() == old(parser).end(),
            match r {
                Ok(e) => {
                    &&& final(parser).pos() > old(parser).pos()
                    &&& exists|right: Expression|
                        #![auto]
                        e == Expression::BinaryOp(Box::new(lhs), *self, Box::new(right))
                            && expr_spec(
                            old(parser).tokens(),
                            old(parser).end(),
                            old(parser).pos(),
                            binding_power(*self),
                        ) == Ok::<(Expression, nat), ParseError>((right, final(parser).pos()))
                },
                Err(e) => expr_spec(
                    old(parser).tokens(),
                    old(parser).end(),
                    old(parser).pos(),
                    binding_power(*self),
                ) == Err::<(Expression, nat), ParseError>(e),
            },
        decreases old(parser).tokens().len() - old(parser).pos(), 4int,
    {
        let rhs = match parser.expression(self.lbp()) {
            Ok(e) => e,
            Err(err) => return Err(err),
        };
        Ok(Expression::BinaryOp(Box::new(lhs), *self, Box::new(rhs)))
    }
}

/// Lexes and parses a whole input: the tree, or the first error met from left
/// to right.
pub fn parse(input: &str) -> (r: Result<Expression, ParseError>)
    ensures
        r == parse_input(input@),
        r is Ok ==> well_formed(r->Ok_0),
{
    let lexer = TokenIter::new(input);
    let mut parser = Parser::from_lexer(lexer);
    parser.parse()
}

} // verus!
