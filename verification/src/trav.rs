use crate::ast::Binary;
use crate::ast::Expr;
use crate::ast::Num;
use crate::ast::Unary;
use vstd::prelude::*;

verus! {

/// The reusable depth-first walk over expression trees. A pass implements
/// the four hooks; for any hook that needs no custom logic the matching
/// `walk_*` function below supplies the default recursion, so a new pass
/// never re-derives the walk order.
pub trait Traversal<T: Default, E>: Sized {
    /// Visit one node, dispatching on its variant.
    fn trav_expr(&mut self, expr: &Expr) -> Result<T, E>;

    /// Visit a binary node.
    fn trav_binary(&mut self, binary: &Binary) -> Result<T, E>;

    /// Visit a unary node.
    fn trav_unary(&mut self, unary: &Unary) -> Result<T, E>;

    /// Visit a literal.
    fn trav_num(&mut self, num: &Num) -> Result<T, E>;
}

/// The default visit of a node: dispatch on its variant.
pub fn walk_expr<T: Default, E, V: Traversal<T, E>>(pass: &mut V, expr: &Expr) -> Result<T, E> {
    match expr {
        Expr::Binary(binary) => pass.trav_binary(binary),
        Expr::Unary(unary) => pass.trav_unary(unary),
        Expr::Num(num) => pass.trav_num(num),
    }
}

/// The default visit of a binary node: the left child first, then the right
/// child; the first failure is propagated and the remaining child is not
/// visited.
pub fn walk_binary<T: Default, E, V: Traversal<T, E>>(pass: &mut V, binary: &Binary) -> Result<
    T,
    E,
> {
    match pass.trav_expr(&binary.l) {
        Ok(_) => pass.trav_expr(&binary.r),
        Err(e) => Err(e),
    }
}

/// The default visit of a unary node: visit the operand and hand its outcome
/// through.
pub fn walk_unary<T: Default, E, V: Traversal<T, E>>(pass: &mut V, unary: &Unary) -> Result<T, E> {
    pass.trav_expr(&unary.r)
}

/// The default visit of a literal: succeed with the neutral value of the
/// result type.
pub fn walk_num<T: Default, E, V: Traversal<T, E>>(_pass: &mut V, _num: &Num) -> (r: Result<T, E>)
    ensures
        r matches Ok(v) && T::default.ensures((), v),
{
    Ok(T::default())
}

} // verus!
