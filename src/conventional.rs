use vstd::prelude::*;

use crate::lexer::lex;
use crate::parser::{expr_spec, infix_spec, nud_spec, parse_input, parse_tokens};
use crate::token::{apply, eval, Expression, ParseError, Token};

verus! {

pub open spec fn is_additive(t: Token) -> bool {
    t is Plus || t is Minus
}

pub open spec fn is_multiplicative(t: Token) -> bool {
    t is Star || t is Slash
}

// Conventional infix evaluation, by the layered grammar
//   sum     := product (('+' | '-') product)*
//   product := factor (('*' | '/') factor)*
//   factor  := number | '(' sum ')'
// where each repetition folds from the left. Each function gives the value of
// the phrase starting at index `p` and the index after it, or `None` where no
// such phrase starts there.

/// A number or a parenthesized sum.
pub open spec fn factor_value(toks: Seq<Token>, p: nat) -> Option<(int, nat)>
    decreases toks.len() - p, 0int,
{
    if p >= toks.len() {
        None
    } else {
        match toks[p as int] {
            Token::Number(v) => Some((v as int, p + 1)),
            Token::LParen => match sum_value(toks, p + 1) {
                Some((v, q)) => {
                    if q < toks.len() && toks[q as int] == Token::RParen {
                        Some((v, q + 1))
                    } else {
                        None
                    }
                },
                None => None,
            },
            _ => None,
        }
    }
}

/// Factors joined by `*` and `/`, after a first one whose value is `acc`.
pub open spec fn product_rest(toks: Seq<Token>, acc: int, p: nat) -> Option<(int, nat)>
    decreases toks.len() - p, 1int,
{
    if p < toks.len() && is_multiplicative(toks[p as int]) {
        match factor_value(toks, p + 1) {
            Some((v, q)) => {
                if p + 1 < q <= toks.len() {
                    product_rest(toks, apply(toks[p as int], acc, v), q)
                } else {
                    None
                }
            },
            None => None,
        }
    } else {
        Some((acc, p))
    }
}

/// Factors joined by `*` and `/`.
pub open spec fn product_value(toks: Seq<Token>, p: nat) -> Option<(int, nat)>
    decreases toks.len() - p, 2int,
{
    match factor_value(toks, p) {
        Some((v, q)) => {
            if p < q <= toks.len() {
                product_rest(toks, v, q)
            } else {
                None
            }
        },
        None => None,
    }
}

/// Products joined by `+` and `-`.
pub open spec fn sum_value(toks: Seq<Token>, p: nat) -> Option<(int, nat)>
    decreases toks.len() - p, 3int,
{
    match product_value(toks, p) {
        Some((v, q)) => {
            if p < q <= toks.len() {
                sum_rest(toks, v, q)
            } else {
                None
            }
        },
        None => None,
    }
}

/// Products joined by `+` and `-`, after a first one whose value is `acc`.
pub open spec fn sum_rest(toks: Seq<Token>, acc: int, p: nat) -> Option<(int, nat)>
    decreases toks.len() - p, 4int,
{
    if p < toks.len() && is_additive(toks[p as int]) {
        match product_value(toks, p + 1) {
            Some((v, q)) => {
                if p + 1 < q <= toks.len() {
                    sum_rest(toks, apply(toks[p as int], acc, v), q)
                } else {
                    None
                }
            },
            None => None,
        }
    } else {
        Some((acc, p))
    }
}

/// The conventional value of a token sequence that forms one whole expression
/// with balanced parentheses; `None` for any other sequence.
pub open spec fn conventional_value(toks: Seq<Token>) -> Option<int> {
    match sum_value(toks, 0) {
        Some((v, q)) => {
            if q == toks.len() {
                Some(v)
            } else {
                None
            }
        },
        None => None,
    }
}

/// No multiplicative operator stands at `q`.
pub open spec fn product_ends_at(toks: Seq<Token>, q: nat) -> bool {
    q >= toks.len() || !is_multiplicative(toks[q as int])
}

proof fn lemma_factor(toks: Seq<Token>, p: nat)
    requires
        factor_value(toks, p) is Some,
    ensures
        ({
            let (v, q) = factor_value(toks, p)->0;
            let r = nud_spec(toks, None, p);
            &&& p < q <= toks.len()
            &&& r is Ok
            &&& r->Ok_0.1 == q
            &&& eval(r->Ok_0.0) == v
        }),
    decreases toks.len() - p, 0int,
{
    if toks[p as int] is LParen {
        lemma_sum(toks, p + 1);
    }
}

proof fn lemma_sum(toks: Seq<Token>, p: nat)
    requires
        sum_value(toks, p) is Some,
    ensures
        ({
            let (v, q) = sum_value(toks, p)->0;
            let r = expr_spec(toks, None, p, 0);
            &&& p < q <= toks.len()
            &&& r is Ok
            &&& r->Ok_0.1 == q
            &&& eval(r->Ok_0.0) == v
        }),
    decreases toks.len() - p, 3int,
{
    let (fv, p1) = factor_value(toks, p)->0;
    lemma_factor(toks, p);
    let f = nud_spec(toks, None, p)->Ok_0.0;
    assert(expr_spec(toks, None, p, 0) == infix_spec(toks, None, f, p1, 0));
    lemma_product_rest(toks, f, p1, 0);
    let (tv, q1) = product_rest(toks, fv, p1)->0;
    let e1 = choose|e: Expression|
        eval(e) == tv && infix_spec(toks, None, f, p1, 0) == infix_spec(toks, None, e, q1, 0);
    lemma_sum_rest(toks, e1, q1);
}

proof fn lemma_product_rest(toks: Seq<Token>, left: Expression, p: nat, rbp: nat)
    requires
        p <= toks.len(),
        rbp == 0 || rbp == 10,
        product_rest(toks, eval(left), p) is Some,
    ensures
        ({
            let (v, q) = product_rest(toks, eval(left), p)->0;
            &&& p <= q <= toks.len()
            &&& product_ends_at(toks, q)
            &&& exists|e: Expression|
                eval(e) == v && infix_spec(toks, None, left, p, rbp) == infix_spec(
                    toks,
                    None,
                    e,
                    q,
                    rbp,
                )
        }),
    decreases toks.len() - p, 1int,
{
    if p < toks.len() && is_multiplicative(toks[p as int]) {
        let op = toks[p as int];
        let (fv, q2) = factor_value(toks, p + 1)->0;
        lemma_factor(toks, p + 1);
        let f = nud_spec(toks, None, p + 1)->Ok_0.0;
        assert(infix_spec(toks, None, f, q2, 20) == Ok::<(Expression, nat), ParseError>((f, q2)));
        assert(expr_spec(toks, None, p + 1, 20) == Ok::<(Expression, nat), ParseError>((f, q2)));
        let joined = Expression::BinaryOp(Box::new(left), op, Box::new(f));
        assert(eval(joined) == apply(op, eval(left), fv));
        assert(infix_spec(toks, None, left, p, rbp) == infix_spec(toks, None, joined, q2, rbp));
        lemma_product_rest(toks, joined, q2, rbp);
    }
}

proof fn lemma_product(toks: Seq<Token>, p: nat)
    requires
        product_value(toks, p) is Some,
    ensures
        ({
            let (v, q) = product_value(toks, p)->0;
            let r = expr_spec(toks, None, p, 10);
            &&& p < q <= toks.len()
            &&& product_ends_at(toks, q)
            &&& r is Ok
            &&& r->Ok_0.1 == q
            &&& eval(r->Ok_0.0) == v
        }),
    decreases toks.len() - p, 2int,
{
    let (fv, p1) = factor_value(toks, p)->0;
    lemma_factor(toks, p);
    let f = nud_spec(toks, None, p)->Ok_0.0;
    assert(expr_spec(toks, None, p, 10) == infix_spec(toks, None, f, p1, 10));
    lemma_product_rest(toks, f, p1, 10);
    let (tv, q1) = product_rest(toks, fv, p1)->0;
    let e1 = choose|e: Expression|
        eval(e) == tv && infix_spec(toks, None, f, p1, 10) == infix_spec(toks, None, e, q1, 10);
    assert(infix_spec(toks, None, e1, q1, 10) == Ok::<(Expression, nat), ParseError>((e1, q1)));
}

proof fn lemma_sum_rest(toks: Seq<Token>, left: Expression, p: nat)
    requires
        p <= toks.len(),
        product_ends_at(toks, p),
        sum_rest(toks, eval(left), p) is Some,
    ensures
        ({
            let (v, q) = sum_rest(toks, eval(left), p)->0;
            let r = infix_spec(toks, None, left, p, 0);
            &&& p <= q <= toks.len()
            &&& r is Ok
            &&& r->Ok_0.1 == q
            &&& eval(r->Ok_0.0) == v
        }),
    decreases toks.len() - p, 4int,
{
    if p < toks.len() && is_additive(toks[p as int]) {
        let op = toks[p as int];
        let (tv, q2) = product_value(toks, p + 1)->0;
        lemma_product(toks, p + 1);
        let t = expr_spec(toks, None, p + 1, 10)->Ok_0.0;
        let joined = Expression::BinaryOp(Box::new(left), op, Box::new(t));
        assert(eval(joined) == apply(op, eval(left), tv));
        assert(infix_spec(toks, None, left, p, 0) == infix_spec(toks, None, joined, q2, 0));
        lemma_sum_rest(toks, joined, q2);
    }
}

/// A token sequence that forms a whole expression with balanced parentheses
/// parses, and its tree evaluates to the conventional value, with `*` and `/`
/// binding tighter than `+` and `-` and every operator associating to the left.
pub proof fn lemma_parse_tokens_evaluates_conventionally(toks: Seq<Token>)
    requires
        conventional_value(toks) is Some,
    ensures
        parse_tokens(toks, None) is Ok,
        eval(parse_tokens(toks, None)->Ok_0) == conventional_value(toks)->0,
{
    lemma_sum(toks, 0);
}

/// An input that lexes without error into a whole expression parses, and its
/// tree evaluates to the conventional value.
pub proof fn lemma_parse_input_evaluates_conventionally(cs: Seq<char>)
    requires
        lex(cs).1 is None,
        conventional_value(lex(cs).0) is Some,
    ensures
        parse_input(cs) is Ok,
        eval(parse_input(cs)->Ok_0) == conventional_value(lex(cs).0)->0,
{
    lemma_parse_tokens_evaluates_conventionally(lex(cs).0);
}

} // verus!
