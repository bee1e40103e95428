use vstd::prelude::*;

verus! {

/// A lexical unit of arithmetic notation.
#[derive(Clone, Copy, Debug, PartialEq, Eq, Structural)]
pub enum Token {
    Number(u64),
    Plus,
    Minus,
    Star,
    Slash,
    LParen,
    RParen,
}

/// The syntax tree of an arithmetic expression. The operator of a `BinaryOp`
/// is one of `Plus`, `Minus`, `Star` and `Slash`.
#[derive(Debug, PartialEq, Eq)]
pub enum Expression {
    Literal(u64),
    BinaryOp(Box<Expression>, Token, Box<Expression>),
}

/// The first failure met while lexing or parsing. Positions count characters
/// for lexing errors and tokens for parsing errors, from zero.
#[derive(Clone, Copy, Debug, PartialEq, Eq, Structural)]
pub enum ParseError {
    /// A character outside digits, whitespace, `+ - * / ( )`, and where it stands.
    UnexpectedCharacter(char, usize),
    /// A run of digits, starting at the given character, whose value exceeds `u64::MAX`.
    NumberOverflow(usize),
    /// The tokens ran out where an operand was expected.
    UnexpectedEndOfInput,
    /// A token that cannot start an operand, and its index.
    UnexpectedToken(Token, usize),
    /// An opened group not closed by `)`, or a `)` with no matching `(`;
    /// the index of the token (or of the end) where `)` was wanted or found.
    UnmatchedParenthesis(usize),
    /// A complete expression was followed by this token, at this index.
    TrailingTokens(Token, usize),
}

/// Binding power of a token in infix position.
pub open spec fn binding_power(t: Token) -> nat {
    match t {
        Token::Plus | Token::Minus => 10,
        Token::Star | Token::Slash => 20,
        _ => 0,
    }
}

/// The four arithmetic operators.
pub open spec fn is_operator(t: Token) -> bool {
    t is Plus || t is Minus || t is Star || t is Slash
}

/// Every operator node of the tree holds an arithmetic operator.
pub open spec fn well_formed(e: Expression) -> bool
    decreases e,
{
    match e {
        Expression::Literal(_) => true,
        Expression::BinaryOp(l, op, r) => is_operator(op) && well_formed(*l) && well_formed(*r),
    }
}

/// The arithmetic value of a tree, over the integers.
pub open spec fn eval(e: Expression) -> int
    decreases e,
{
    match e {
        Expression::Literal(v) => v as int,
        Expression::BinaryOp(l, op, r) => apply(op, eval(*l), eval(*r)),
    }
}

/// The arithmetic meaning of an operator token.
pub open spec fn apply(op: Token, a: int, b: int) -> int {
    match op {
        Token::Plus => a + b,
        Token::Minus => a - b,
        Token::Star => a * b,
        Token::Slash => a / b,
        _ => 0,
    }
}

impl Token {
    /// Binding power used by the infix loop: 20 for `*` and `/`, 10 for `+` and `-`,
    /// 0 for every token that never extends a left operand.
    pub fn lbp(&self) -> (r: u64)
        ensures
            r == binding_power(*self),
            r > 0 <==> is_operator(*self),
    {
        match *self {
            Token::Plus => 10,
            Token::Minus => 10,
            Token::Star => 20,
            Token::Slash => 20,
            _ => 0,
        }
    }
}

} // verus!
