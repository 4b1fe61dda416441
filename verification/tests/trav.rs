use calculator::ast::{Binary, Expr, Num, Unary};
use calculator::lexer::Lexer;
use calculator::parser::Parser;
use calculator::trav::{walk_binary, walk_expr, walk_num, walk_unary, Traversal};

fn parse_tree(source: &str) -> Expr {
    let lexer = Lexer::new(source);
    let mut parser = Parser::new(lexer);
    parser.parse_expr().unwrap().0
}

/// A pass that records every literal it visits, in visiting order, and can
/// be told to fail at one particular literal value.
struct RecordLiterals {
    seen: Vec<u32>,
    fail_on: Option<u32>,
}

impl Traversal<u32, &'static str> for RecordLiterals {
    fn trav_expr(&mut self, expr: &Expr) -> Result<u32, &'static str> {
        walk_expr(self, expr)
    }

    fn trav_binary(&mut self, binary: &Binary) -> Result<u32, &'static str> {
        walk_binary(self, binary)
    }

    fn trav_unary(&mut self, unary: &Unary) -> Result<u32, &'static str> {
        walk_unary(self, unary)
    }

    fn trav_num(&mut self, num: &Num) -> Result<u32, &'static str> {
        self.seen.push(num.num);
        if self.fail_on == Some(num.num) {
            Err("stopped")
        } else {
            Ok(num.num)
        }
    }
}

/// A pass that overrides nothing of interest: every hook uses the default
/// walk, so a literal yields the neutral value.
struct NeutralPass;

impl Traversal<u32, &'static str> for NeutralPass {
    fn trav_expr(&mut self, expr: &Expr) -> Result<u32, &'static str> {
        walk_expr(self, expr)
    }

    fn trav_binary(&mut self, binary: &Binary) -> Result<u32, &'static str> {
        walk_binary(self, binary)
    }

    fn trav_unary(&mut self, unary: &Unary) -> Result<u32, &'static str> {
        walk_unary(self, unary)
    }

    fn trav_num(&mut self, num: &Num) -> Result<u32, &'static str> {
        walk_num(self, num)
    }
}

#[test]
fn test_walk_visits_left_before_right() {
    let expr = parse_tree("1 - 2 - 3");
    let mut pass = RecordLiterals { seen: Vec::new(), fail_on: None };
    let r = pass.trav_expr(&expr);
    assert!(r.is_ok());
    assert_eq!(pass.seen, vec![1, 2, 3]);
}

#[test]
fn test_walk_stops_at_first_failure() {
    let expr = parse_tree("1 - 2 - 3");
    let mut pass = RecordLiterals { seen: Vec::new(), fail_on: Some(2) };
    let r = pass.trav_expr(&expr);
    assert_eq!(r, Err("stopped"));
    // The failure in the left subtree propagates without visiting 3.
    assert_eq!(pass.seen, vec![1, 2]);
}

#[test]
fn test_walk_through_unary_and_parens() {
    let expr = parse_tree("-(1 + 2) * 3");
    let mut pass = RecordLiterals { seen: Vec::new(), fail_on: None };
    pass.trav_expr(&expr).unwrap();
    assert_eq!(pass.seen, vec![1, 2, 3]);
}

#[test]
fn test_default_literal_yields_neutral_value() {
    let expr = parse_tree("7");
    let mut pass = NeutralPass;
    assert_eq!(pass.trav_expr(&expr), Ok(0));
}
