use expr_node::ast::{BinOp, Expr, UnOp};
use expr_node::error::{ParseError, ParseErrorKind};
use expr_node::parser::{parse, parse_tokens};
use expr_node::token::{tokenize, Lexeme, Token};

fn var(name: &str) -> Box<Expr> {
    Box::new(Expr::Var(name.to_string()))
}

fn val(numeral: &str) -> Box<Expr> {
    Box::new(Expr::Val(numeral.to_string()))
}

fn bin(lhs: Box<Expr>, op: BinOp, rhs: Box<Expr>) -> Box<Expr> {
    Box::new(Expr::BinOp { lhs, op, rhs })
}

fn neg(expr: Box<Expr>) -> Box<Expr> {
    Box::new(Expr::UnOp { op: UnOp::Neg, expr })
}

fn fault(kind: ParseErrorKind, position: usize) -> Result<Expr, ParseError> {
    Err(ParseError { kind, position })
}

#[test]
fn tokenize_splits_at_longest_tokens() {
    let lexemes = tokenize("ab1 + 23.5*(x_)").unwrap();
    let expected = vec![
        Lexeme { token: Token::Ident("ab1".to_string()), offset: 0 },
        Lexeme { token: Token::Plus, offset: 4 },
        Lexeme { token: Token::Number("23.5".to_string()), offset: 6 },
        Lexeme { token: Token::Star, offset: 10 },
        Lexeme { token: Token::Open, offset: 11 },
        Lexeme { token: Token::Ident("x_".to_string()), offset: 12 },
        Lexeme { token: Token::Close, offset: 14 },
    ];
    assert_eq!(lexemes, expected);
}

#[test]
fn tokenize_drops_white_space() {
    let lexemes = tokenize(" \t a\n-\r/ ").unwrap();
    let expected = vec![
        Lexeme { token: Token::Ident("a".to_string()), offset: 3 },
        Lexeme { token: Token::Minus, offset: 5 },
        Lexeme { token: Token::Slash, offset: 7 },
    ];
    assert_eq!(lexemes, expected);
}

#[test]
fn tokenize_of_nothing_is_empty() {
    assert_eq!(tokenize("").unwrap(), vec![]);
    assert_eq!(tokenize("   ").unwrap(), vec![]);
}

#[test]
fn tokenize_numeral_needs_digit_after_point() {
    assert_eq!(
        tokenize("1."),
        Err(ParseError { kind: ParseErrorKind::UnknownCharacter, position: 1 })
    );
    assert_eq!(
        tokenize("1.x"),
        Err(ParseError { kind: ParseErrorKind::UnknownCharacter, position: 1 })
    );
    assert_eq!(
        tokenize("1.25.5"),
        Err(ParseError { kind: ParseErrorKind::UnknownCharacter, position: 4 })
    );
}

#[test]
fn tokenize_numeral_then_name() {
    let lexemes = tokenize("12ab").unwrap();
    let expected = vec![
        Lexeme { token: Token::Number("12".to_string()), offset: 0 },
        Lexeme { token: Token::Ident("ab".to_string()), offset: 2 },
    ];
    assert_eq!(lexemes, expected);
}

#[test]
fn tokenize_counts_characters_not_bytes() {
    assert_eq!(
        tokenize("a + é"),
        Err(ParseError { kind: ParseErrorKind::UnknownCharacter, position: 4 })
    );
    assert_eq!(
        tokenize("é+a"),
        Err(ParseError { kind: ParseErrorKind::UnknownCharacter, position: 0 })
    );
}

#[test]
fn parse_single_operands() {
    assert_eq!(parse("x"), Ok(*var("x")));
    assert_eq!(parse("42"), Ok(*val("42")));
    assert_eq!(parse("0.125"), Ok(*val("0.125")));
    assert_eq!(parse(" ( y ) "), Ok(*var("y")));
}

#[test]
fn parse_product_binds_tighter_than_sum() {
    let expected = bin(val("1"), BinOp::Add, bin(val("2"), BinOp::Mul, val("3")));
    assert_eq!(parse("1+2*3"), Ok(*expected));
    let expected = bin(bin(val("1"), BinOp::Mul, val("2")), BinOp::Add, val("3"));
    assert_eq!(parse("1*2+3"), Ok(*expected));
}

#[test]
fn parse_parentheses_group() {
    let expected = bin(bin(val("1"), BinOp::Add, val("2")), BinOp::Mul, val("3"));
    assert_eq!(parse("(1+2)*3"), Ok(*expected));
}

#[test]
fn parse_chains_group_from_the_left() {
    let expected = bin(bin(val("8"), BinOp::Sub, val("3")), BinOp::Sub, val("2"));
    assert_eq!(parse("8-3-2"), Ok(*expected));
    let expected = bin(bin(val("8"), BinOp::Div, val("4")), BinOp::Div, val("2"));
    assert_eq!(parse("8/4/2"), Ok(*expected));
}

#[test]
fn parse_sum_resumes_after_product() {
    let expected = bin(
        bin(val("1"), BinOp::Sub, bin(val("2"), BinOp::Mul, val("3"))),
        BinOp::Sub,
        val("4"),
    );
    assert_eq!(parse("1-2*3-4"), Ok(*expected));
}

#[test]
fn parse_sign_applies_to_the_operand() {
    assert_eq!(parse("-x"), Ok(*neg(var("x"))));
    let expected = bin(neg(var("a")), BinOp::Mul, var("b"));
    assert_eq!(parse("-a*b"), Ok(*expected));
    let expected = bin(var("a"), BinOp::Sub, neg(var("b")));
    assert_eq!(parse("a - -b"), Ok(*expected));
    let expected = Expr::UnOp { op: UnOp::Pos, expr: val("7") };
    assert_eq!(parse("+7"), Ok(expected));
    let expected = neg(bin(var("a"), BinOp::Add, var("b")));
    assert_eq!(parse("-(a+b)"), Ok(*expected));
}

#[test]
fn parse_rejects_two_signs() {
    assert_eq!(parse("--x"), fault(ParseErrorKind::UnexpectedToken, 1));
}

#[test]
fn parse_rejects_end_where_operand_is_expected() {
    assert_eq!(parse(""), fault(ParseErrorKind::UnexpectedEnd, 0));
    assert_eq!(parse("a+"), fault(ParseErrorKind::UnexpectedEnd, 2));
    assert_eq!(parse("a * "), fault(ParseErrorKind::UnexpectedEnd, 4));
    assert_eq!(parse("-"), fault(ParseErrorKind::UnexpectedEnd, 1));
    assert_eq!(parse("("), fault(ParseErrorKind::UnexpectedEnd, 1));
}

#[test]
fn parse_rejects_unmatched_parentheses() {
    assert_eq!(parse("(a+b"), fault(ParseErrorKind::UnmatchedParen, 0));
    assert_eq!(parse("2*(a+(b)"), fault(ParseErrorKind::UnmatchedParen, 2));
    assert_eq!(parse("a+b)"), fault(ParseErrorKind::UnmatchedParen, 3));
}

#[test]
fn parse_rejects_unexpected_tokens() {
    assert_eq!(parse("2 3"), fault(ParseErrorKind::UnexpectedToken, 2));
    assert_eq!(parse("a+*b"), fault(ParseErrorKind::UnexpectedToken, 2));
    assert_eq!(parse("*a"), fault(ParseErrorKind::UnexpectedToken, 0));
    assert_eq!(parse("()"), fault(ParseErrorKind::UnexpectedToken, 1));
    assert_eq!(parse("(a b)"), fault(ParseErrorKind::UnexpectedToken, 3));
    assert_eq!(parse("a (b)"), fault(ParseErrorKind::UnexpectedToken, 2));
}

#[test]
fn parse_rejects_unknown_characters() {
    assert_eq!(parse("a $ b"), fault(ParseErrorKind::UnknownCharacter, 2));
    assert_eq!(parse("a = 1"), fault(ParseErrorKind::UnknownCharacter, 2));
}

#[test]
fn parse_tokens_reports_token_index() {
    let lexemes = tokenize("a  +  )").unwrap();
    assert_eq!(parse_tokens(&lexemes), Err((ParseErrorKind::UnexpectedToken, 2)));
    let lexemes = tokenize("a  +  b").unwrap();
    assert_eq!(parse_tokens(&lexemes), Ok(*bin(var("a"), BinOp::Add, var("b"))));
}

#[test]
fn parse_error_reasons() {
    let at = |kind| ParseError { kind, position: 0 };
    assert_eq!(at(ParseErrorKind::UnknownCharacter).reason(), "unknown character");
    assert_eq!(at(ParseErrorKind::UnexpectedEnd).reason(), "unexpected end of input");
    assert_eq!(at(ParseErrorKind::UnmatchedParen).reason(), "unmatched parenthesis");
    assert_eq!(at(ParseErrorKind::UnexpectedToken).reason(), "unexpected token");
}

#[test]
fn expr_copies_are_equal() {
    let expr = parse("-(a+2)*b/3.5").unwrap();
    assert_eq!(expr.duplicate(), expr);
    assert_eq!(expr.clone(), expr);
}

#[test]
fn parse_right_operand_in_parentheses() {
    let expected = bin(val("8"), BinOp::Sub, bin(val("3"), BinOp::Sub, val("2")));
    assert_eq!(parse("8-(3-2)"), Ok(*expected));
    let expected = bin(var("a"), BinOp::Div, bin(var("b"), BinOp::Mul, var("c")));
    assert_eq!(parse("a/(b*c)"), Ok(*expected));
    let expected = bin(bin(var("a"), BinOp::Div, var("b")), BinOp::Mul, var("c"));
    assert_eq!(parse("((a/b))*c"), Ok(*expected));
}
