use calculator::ast::{Bop, Expr, Uop};
use calculator::lexer::{Lexer, Token};
use calculator::loc::Loc;
use calculator::parser::{ParseError, Parser};

fn parse(source: &str) -> Result<(Expr, Loc), ParseError> {
    let lexer = Lexer::new(source);
    let mut parser = Parser::new(lexer);
    parser.parse_expr()
}

fn parse_tree(source: &str) -> Expr {
    parse(source).unwrap().0
}

#[test]
fn test_single_literal_location() {
    let (expr, loc) = parse("42").unwrap();
    match &expr {
        Expr::Num(num) => {
            assert_eq!(num.num, 42);
            assert_eq!(num.loc, Loc::new(1, 1, 3));
        }
        _ => panic!("expected a literal"),
    }
    assert_eq!(loc, Loc::new(1, 1, 3));
    assert_eq!(expr.loc(), Loc::new(1, 1, 3));
}

#[test]
fn test_leading_whitespace_location() {
    let (expr, _) = parse("  7").unwrap();
    assert_eq!(expr.loc(), Loc::new(1, 3, 4));
}

#[test]
fn test_subtraction_left_associative() {
    let expr = parse_tree("1 - 2 - 3");
    assert_eq!(expr.to_text(), "((1 - 2) - 3)");
}

#[test]
fn test_power_right_associative() {
    let expr = parse_tree("2 ^ 3 ^ 2");
    assert_eq!(expr.to_text(), "(2 ^ (3 ^ 2))");
}

#[test]
fn test_multiplication_binds_tighter() {
    let expr = parse_tree("1 + 2 * 3");
    assert_eq!(expr.to_text(), "(1 + (2 * 3))");
}

#[test]
fn test_unary_binds_tighter_than_power() {
    let expr = parse_tree("-1 ^ 2");
    match &expr {
        Expr::Binary(binary) => {
            assert_eq!(binary.op, Bop::Pow);
            match &*binary.l {
                Expr::Unary(unary) => {
                    assert_eq!(unary.op, Uop::Neg);
                    match &*unary.r {
                        Expr::Num(num) => assert_eq!(num.num, 1),
                        _ => panic!("expected a literal under the negation"),
                    }
                }
                _ => panic!("expected a negation on the left of ^"),
            }
            match &*binary.r {
                Expr::Num(num) => assert_eq!(num.num, 2),
                _ => panic!("expected a literal on the right of ^"),
            }
        }
        _ => panic!("expected a power node at the root"),
    }
    assert_eq!(expr.to_text(), "(-1 ^ 2)");
}

#[test]
fn test_unary_binds_tighter_than_subtraction() {
    let expr = parse_tree("-1 - 2");
    assert_eq!(expr.to_text(), "(-1 - 2)");
    match &expr {
        Expr::Binary(binary) => assert_eq!(binary.op, Bop::Sub),
        _ => panic!("expected a subtraction at the root"),
    }
}

#[test]
fn test_non_associative_chain_rejected() {
    assert_eq!(parse("1 == 2 == 3").unwrap_err(), ParseError::NonAssoc);
    assert_eq!(parse("1 != 2 == 3").unwrap_err(), ParseError::NonAssoc);
}

#[test]
fn test_equality_parses_alone() {
    let expr = parse_tree("1 == 2");
    match &expr {
        Expr::Binary(binary) => assert_eq!(binary.op, Bop::Eq),
        _ => panic!("expected an equality at the root"),
    }
}

#[test]
fn test_unbalanced_at_end_of_input() {
    match parse("(1 + 2").unwrap_err() {
        ParseError::Unbalanced(open, at) => {
            assert_eq!(open, Loc::new(1, 1, 2));
            assert_eq!(at, Loc::new(1, 7, 7));
        }
        other => panic!("expected Unbalanced, got {:?}", other),
    }
}

#[test]
fn test_unbalanced_at_wrong_token() {
    match parse("(1 + 2]").unwrap_err() {
        ParseError::Unbalanced(open, at) => {
            assert_eq!(open, Loc::new(1, 1, 2));
            assert_eq!(at, Loc::new(1, 7, 8));
        }
        other => panic!("expected Unbalanced, got {:?}", other),
    }
}

#[test]
fn test_not_an_expression() {
    match parse("+").unwrap_err() {
        ParseError::NotAnExpr(token, loc) => {
            assert_eq!(token, Token::Add);
            assert_eq!(loc, Loc::new(1, 1, 2));
        }
        other => panic!("expected NotAnExpr, got {:?}", other),
    }
    match parse("#").unwrap_err() {
        ParseError::NotAnExpr(token, _) => assert_eq!(token, Token::Unexpected('#')),
        other => panic!("expected NotAnExpr, got {:?}", other),
    }
}

#[test]
fn test_empty_input_is_eof() {
    assert_eq!(parse("").unwrap_err(), ParseError::UnexpectedEof);
    assert_eq!(parse("1 +").unwrap_err(), ParseError::UnexpectedEof);
}

#[test]
fn test_parenthesized_locations() {
    let (expr, loc) = parse("(1)").unwrap();
    // The node keeps the literal's own span; the returned span covers the
    // parentheses.
    assert_eq!(expr.loc(), Loc::new(1, 2, 3));
    assert_eq!(loc, Loc::new(1, 1, 4));
}

#[test]
fn test_binary_location_spans_operands() {
    let (expr, loc) = parse("1 + 2").unwrap();
    assert_eq!(loc, Loc::new(1, 1, 6));
    assert_eq!(expr.loc(), Loc::new(1, 1, 6));
}

#[test]
fn test_location_across_lines() {
    let (expr, _) = parse("1 +\n2").unwrap();
    let loc = expr.loc();
    assert_eq!(loc.line_start, 1);
    assert_eq!(loc.line_end, 2);
    assert_eq!(loc.col_start, 1);
    assert_eq!(loc.col_end, 2);
}

#[test]
fn test_bop_from_token() {
    assert_eq!(Bop::try_from(Token::Add), Some(Bop::Add));
    assert_eq!(Bop::try_from(Token::Pow), Some(Bop::Pow));
    assert_eq!(Bop::try_from(Token::Ne), Some(Bop::Ne));
    assert_eq!(Bop::try_from(Token::Int(3)), None);
    assert_eq!(Bop::try_from(Token::Not), None);
}

#[test]
fn test_uop_from_token() {
    assert_eq!(Uop::from_token(Token::Sub), Some(Uop::Neg));
    assert_eq!(Uop::from_token(Token::Not), Some(Uop::Not));
    assert_eq!(Uop::from_token(Token::Add), None);
}
