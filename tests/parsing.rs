use pratt_parser::{parse, Expression, ParseError, Parser, Token, TokenIter};

fn lit(v: u64) -> Expression {
    Expression::Literal(v)
}

fn bin(l: Expression, op: Token, r: Expression) -> Expression {
    Expression::BinaryOp(Box::new(l), op, Box::new(r))
}

fn eval(e: &Expression) -> i128 {
    match e {
        Expression::Literal(v) => *v as i128,
        Expression::BinaryOp(l, op, r) => {
            let (a, b) = (eval(l), eval(r));
            match op {
                Token::Plus => a + b,
                Token::Minus => a - b,
                Token::Star => a * b,
                Token::Slash => a / b,
                _ => panic!("not an operator"),
            }
        }
    }
}

fn lex_all(s: &str) -> (Vec<Token>, Option<ParseError>) {
    TokenIter::new(s).tokenize()
}

#[test]
fn precedence_multiplication_nests_right() {
    assert_eq!(
        parse("2+3*4"),
        Ok(bin(lit(2), Token::Plus, bin(lit(3), Token::Star, lit(4))))
    );
}

#[test]
fn subtraction_is_left_associative() {
    assert_eq!(
        parse("8-3-2"),
        Ok(bin(bin(lit(8), Token::Minus, lit(3)), Token::Minus, lit(2)))
    );
}

#[test]
fn division_is_left_associative() {
    assert_eq!(
        parse("100/5/2"),
        Ok(bin(bin(lit(100), Token::Slash, lit(5)), Token::Slash, lit(2)))
    );
}

#[test]
fn parentheses_group() {
    assert_eq!(
        parse("(2+3)*4"),
        Ok(bin(bin(lit(2), Token::Plus, lit(3)), Token::Star, lit(4)))
    );
}

#[test]
fn nested_parentheses_are_transparent() {
    assert_eq!(parse("((7))"), Ok(lit(7)));
}

#[test]
fn multi_digit_literal_lexing() {
    assert_eq!(
        lex_all("123 + 7"),
        (vec![Token::Number(123), Token::Plus, Token::Number(7)], None)
    );
}

#[test]
fn lexer_yields_tokens_one_by_one() {
    let mut it = TokenIter::new(" 4\t*( 5)\n");
    assert_eq!(it.next(), Ok(Some(Token::Number(4))));
    assert_eq!(it.next(), Ok(Some(Token::Star)));
    assert_eq!(it.next(), Ok(Some(Token::LParen)));
    assert_eq!(it.next(), Ok(Some(Token::Number(5))));
    assert_eq!(it.next(), Ok(Some(Token::RParen)));
    assert_eq!(it.next(), Ok(None));
}

#[test]
fn dangling_operator_is_end_of_input() {
    assert_eq!(parse("2+"), Err(ParseError::UnexpectedEndOfInput));
}

#[test]
fn empty_input_is_end_of_input() {
    assert_eq!(parse(""), Err(ParseError::UnexpectedEndOfInput));
    assert_eq!(parse("   "), Err(ParseError::UnexpectedEndOfInput));
}

#[test]
fn unclosed_group_is_unmatched() {
    assert_eq!(parse("(2+3"), Err(ParseError::UnmatchedParenthesis(4)));
}

#[test]
fn group_closed_by_other_token_is_unmatched() {
    assert_eq!(parse("(2 3)"), Err(ParseError::UnmatchedParenthesis(2)));
}

#[test]
fn stray_close_is_unmatched() {
    assert_eq!(parse("2)"), Err(ParseError::UnmatchedParenthesis(1)));
}

#[test]
fn trailing_tokens() {
    assert_eq!(
        parse("2 3"),
        Err(ParseError::TrailingTokens(Token::Number(3), 1))
    );
}

#[test]
fn operator_in_prefix_position_is_unexpected() {
    assert_eq!(
        parse("*2"),
        Err(ParseError::UnexpectedToken(Token::Star, 0))
    );
    assert_eq!(
        parse(")"),
        Err(ParseError::UnexpectedToken(Token::RParen, 0))
    );
}

#[test]
fn unexpected_character_when_lexing() {
    assert_eq!(
        lex_all("2&3"),
        (
            vec![Token::Number(2)],
            Some(ParseError::UnexpectedCharacter('&', 1))
        )
    );
    assert_eq!(parse("2&3"), Err(ParseError::UnexpectedCharacter('&', 1)));
}

#[test]
fn lexing_error_after_complete_expression_is_reported() {
    assert_eq!(parse("1 + 2 x"), Err(ParseError::UnexpectedCharacter('x', 6)));
}

#[test]
fn trailing_tokens_before_lexing_error() {
    assert_eq!(
        parse("2 3 &"),
        Err(ParseError::TrailingTokens(Token::Number(3), 1))
    );
}

#[test]
fn largest_number_and_overflow() {
    assert_eq!(parse("18446744073709551615"), Ok(lit(u64::MAX)));
    assert_eq!(
        parse("1+18446744073709551616"),
        Err(ParseError::NumberOverflow(2))
    );
    assert_eq!(
        lex_all("7 99999999999999999999999 +"),
        (vec![Token::Number(7)], Some(ParseError::NumberOverflow(2)))
    );
}

#[test]
fn evaluation_matches_conventional_arithmetic() {
    let cases: Vec<(&str, i128)> = vec![
        ("1 + 2 * 3 - 4 / 2", 5),
        ("(1 + 2) * (3 - 4)", -3),
        ("10 - 4 - 3", 3),
        ("2 * 3 + 4 * 5", 26),
        ("((2 + 3) * 4 - 6) / 7", 2),
        ("42", 42),
    ];
    for (input, value) in cases {
        let tree = parse(input).unwrap();
        assert_eq!(eval(&tree), value, "{}", input);
    }
}

#[test]
fn parsing_twice_gives_equal_trees() {
    let a = parse("(1+2)*3-4/5");
    let b = parse("(1+2)*3-4/5");
    assert!(a.is_ok());
    assert_eq!(a, b);
}

#[test]
fn parser_over_token_list() {
    let tokens = vec![
        Token::Number(1),
        Token::Minus,
        Token::LParen,
        Token::Number(2),
        Token::Plus,
        Token::Number(3),
        Token::RParen,
    ];
    let mut parser = Parser::new(tokens);
    assert_eq!(
        parser.parse(),
        Ok(bin(lit(1), Token::Minus, bin(lit(2), Token::Plus, lit(3))))
    );
}

#[test]
fn expression_stops_at_weaker_operator() {
    let tokens = vec![
        Token::Number(2),
        Token::Star,
        Token::Number(3),
        Token::Plus,
        Token::Number(4),
    ];
    let mut parser = Parser::new(tokens);
    assert_eq!(
        parser.expression(10),
        Ok(bin(lit(2), Token::Star, lit(3)))
    );
    assert_eq!(
        parser.parse(),
        Err(ParseError::UnexpectedToken(Token::Plus, 3))
    );
}

#[test]
fn binding_powers() {
    assert_eq!(Token::Star.lbp(), 20);
    assert_eq!(Token::Slash.lbp(), 20);
    assert_eq!(Token::Plus.lbp(), 10);
    assert_eq!(Token::Minus.lbp(), 10);
    assert_eq!(Token::LParen.lbp(), 0);
    assert_eq!(Token::Number(5).lbp(), 0);
}

#[test]
fn parser_from_lexer_pulls_lexing_error() {
    let mut parser = Parser::from_lexer(TokenIter::new("(1 + $"));
    assert_eq!(
        parser.parse(),
        Err(ParseError::UnexpectedCharacter('$', 5))
    );
    let mut parser = Parser::from_lexer(TokenIter::new(" 6 / 3 "));
    assert_eq!(
        parser.parse(),
        Ok(bin(lit(6), Token::Slash, lit(3)))
    );
}

#[test]
fn mixed_precedence_tree() {
    assert_eq!(
        parse("1*2+3/4-5"),
        Ok(bin(
            bin(
                bin(lit(1), Token::Star, lit(2)),
                Token::Plus,
                bin(lit(3), Token::Slash, lit(4))
            ),
            Token::Minus,
            lit(5)
        ))
    );
}
