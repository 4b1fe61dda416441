use calculator::ast::{Binary, Bop, Expr, Num, Uop};
use calculator::lexer::Lexer;
use calculator::loc::Loc;
use calculator::parser::Parser;

fn parse_tree(source: &str) -> Expr {
    let lexer = Lexer::new(source);
    let mut parser = Parser::new(lexer);
    parser.parse_expr().unwrap().0
}

#[test]
fn test_print_literal() {
    assert_eq!(parse_tree("0").to_text(), "0");
    assert_eq!(parse_tree("234").to_text(), "234");
    assert_eq!(parse_tree("4294967295").to_text(), "4294967295");
}

#[test]
fn test_print_tree() {
    assert_eq!(parse_tree("1 + 2").to_text(), "(1 + 2)");
    assert_eq!(parse_tree("!(1 != 2)").to_text(), "!(1 != 2)");
    assert_eq!(parse_tree("- 9 / (8 - 2)").to_text(), "(-9 / (8 - 2))");
}

#[test]
fn test_print_built_tree() {
    let loc = Loc::new(1, 1, 1);
    let tree = Expr::Binary(Binary {
        l: Box::new(Expr::Num(Num { num: 6, loc })),
        r: Box::new(Expr::Num(Num { num: 7, loc })),
        op: Bop::Mul,
        loc,
    });
    assert_eq!(tree.to_text(), "(6 * 7)");
}

#[test]
fn test_symbols() {
    assert_eq!(Bop::Add.symbol(), "+");
    assert_eq!(Bop::Sub.symbol(), "-");
    assert_eq!(Bop::Mul.symbol(), "*");
    assert_eq!(Bop::Div.symbol(), "/");
    assert_eq!(Bop::Pow.symbol(), "^");
    assert_eq!(Bop::Eq.symbol(), "==");
    assert_eq!(Bop::Ne.symbol(), "!=");
    assert_eq!(Uop::Neg.symbol(), "-");
    assert_eq!(Uop::Not.symbol(), "!");
}

#[test]
fn test_reparse_printed_form_keeps_shape() {
    let sources = [
        "1 - 2 - 3",
        "2 ^ 3 ^ 2",
        "1 + 2 * 3",
        "-1 ^ 2",
        "!(1 == 2)",
        "((1))",
        "1 * (2 + 3) / --4",
    ];
    for source in sources {
        let first = parse_tree(source);
        let printed = first.to_text();
        let second = parse_tree(&printed);
        // The printed form is fully parenthesized, so printing it again
        // reproduces it exactly: re-parsing kept the shape.
        assert_eq!(second.to_text(), printed);
    }
}

#[test]
fn test_literal_round_trip() {
    for v in [0u32, 1, 9, 10, 255, 1000000, u32::MAX] {
        let text = format!("{}", v);
        match parse_tree(&text) {
            Expr::Num(num) => assert_eq!(num.num, v),
            _ => panic!("expected a literal"),
        }
    }
}

#[test]
fn test_merge_is_associative() {
    let a = Loc::new(1, 1, 2);
    let b = Loc::new(2, 4, 7);
    let c = Loc::new(5, 3, 9);
    assert_eq!(a.merge(b).merge(c), a.merge(b.merge(c)));
    let merged = a.merge(b);
    assert_eq!(merged.line_start, 1);
    assert_eq!(merged.line_end, 2);
    assert_eq!(merged.col_start, 1);
    assert_eq!(merged.col_end, 7);
}
