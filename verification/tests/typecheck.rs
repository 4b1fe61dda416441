use calculator::ast::Expr;
use calculator::lexer::Lexer;
use calculator::parser::Parser;
use calculator::trav::Traversal;
use calculator::typ::Type;
use calculator::typecheck::{TypeCheck, TypeError};

fn parse_tree(source: &str) -> Expr {
    let lexer = Lexer::new(source);
    let mut parser = Parser::new(lexer);
    parser.parse_expr().unwrap().0
}

fn typecheck(source: &str) -> Result<Type, TypeError> {
    let expr = parse_tree(source);
    let mut pass = TypeCheck {};
    pass.trav_expr(&expr)
}

#[test]
fn test_arithmetic_is_integer() {
    assert_eq!(typecheck("1 + 2"), Ok(Type::Int));
    assert_eq!(typecheck("1 - 2 * 3"), Ok(Type::Int));
    assert_eq!(typecheck("2 ^ 3 ^ 2"), Ok(Type::Int));
    assert_eq!(typecheck("-5"), Ok(Type::Int));
}

#[test]
fn test_equality_is_boolean() {
    assert_eq!(typecheck("1 == 2"), Ok(Type::Bool));
    assert_eq!(typecheck("1 != 2"), Ok(Type::Bool));
    assert_eq!(typecheck("!(1 == 2)"), Ok(Type::Bool));
}

#[test]
fn test_boolean_operand_in_arithmetic_fails() {
    assert_eq!(
        typecheck("1 + (2 == 3)"),
        Err(TypeError::UnificationError(Type::Int, Type::Bool))
    );
}

#[test]
fn test_equality_of_booleans_is_allowed() {
    assert_eq!(typecheck("(1 == 2) == (3 == 4)"), Ok(Type::Bool));
}

#[test]
fn test_negation_of_boolean_fails() {
    assert_eq!(
        typecheck("-(1 == 2)"),
        Err(TypeError::UnificationError(Type::Bool, Type::Int))
    );
}

#[test]
fn test_logical_not_of_integer_fails() {
    assert_eq!(
        typecheck("!1"),
        Err(TypeError::UnificationError(Type::Int, Type::Bool))
    );
}

#[test]
fn test_first_mismatch_wins() {
    // Both operands are ill-typed; the left one's mismatch is reported.
    assert_eq!(
        typecheck("(1 + (2 == 3)) * (-(4 == 5))"),
        Err(TypeError::UnificationError(Type::Int, Type::Bool))
    );
}

#[test]
fn test_default_type_is_integer() {
    assert_eq!(Type::default(), Type::Int);
}
