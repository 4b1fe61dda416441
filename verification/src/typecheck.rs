use crate::ast::Binary;
use crate::ast::Bop;
use crate::ast::Expr;
use crate::ast::Num;
use crate::ast::Unary;
use crate::ast::Uop;
use crate::trav::Traversal;
use crate::typ::Type;
use vstd::prelude::*;

verus! {

/// The type checking pass, built on the traversal framework.
pub struct TypeCheck {}

/// Why type checking rejected a tree.
#[derive(Clone, Copy, Debug, PartialEq, Eq, Structural)]
pub enum TypeError {
    /// The two named types were required to be identical but are not.
    UnificationError(Type, Type),
}

/// Unification: the two types must already be identical; there is no
/// coercion. On a mismatch the error names both observed types.
pub open spec fn spec_unify(a: Type, b: Type) -> Result<Type, TypeError> {
    match (a, b) {
        (Type::Int, Type::Int) => Ok(Type::Int),
        (Type::Bool, Type::Bool) => Ok(Type::Bool),
        _ => Err(TypeError::UnificationError(a, b)),
    }
}

pub fn unify(a: Type, b: Type) -> (r: Result<Type, TypeError>)
    ensures
        r == spec_unify(a, b),
{
    match (a, b) {
        (Type::Int, Type::Int) => Ok(Type::Int),
        (Type::Bool, Type::Bool) => Ok(Type::Bool),
        _ => Err(TypeError::UnificationError(a, b)),
    }
}

/// The type of a whole tree: literals are integers; a unary node unifies its
/// operand against the type its operator works on; a binary node first
/// unifies its two operands with each other, then unifies the agreed type
/// against integer for arithmetic operators, while equality operators accept
/// either agreed type and force the node itself to boolean. The first
/// mismatch, in left-to-right visiting order, is the result.
pub open spec fn spec_typecheck(e: Expr) -> Result<Type, TypeError>
    decreases e,
{
    match e {
        Expr::Num(_) => Ok(Type::Int),
        Expr::Unary(unary) => match spec_typecheck(*unary.r) {
            Err(err) => Err(err),
            Ok(t) => match unary.op {
                Uop::Neg => spec_unify(t, Type::Int),
                Uop::Not => spec_unify(t, Type::Bool),
            },
        },
        Expr::Binary(binary) => match spec_typecheck(*binary.l) {
            Err(err) => Err(err),
            Ok(lt) => match spec_typecheck(*binary.r) {
                Err(err) => Err(err),
                Ok(rt) => match spec_unify(lt, rt) {
                    Err(err) => Err(err),
                    Ok(t) => match binary.op {
                        Bop::Add | Bop::Sub | Bop::Mul | Bop::Div | Bop::Pow => spec_unify(
                            t,
                            Type::Int,
                        ),
                        // Equal operands of either type compare; the
                        // comparison itself is boolean.
                        Bop::Eq | Bop::Ne => Ok(Type::Bool),
                    },
                },
            },
        },
    }
}

impl Traversal<Type, TypeError> for TypeCheck {
    fn trav_expr(&mut self, expr: &Expr) -> (r: Result<Type, TypeError>)
        ensures
            r == spec_typecheck(*expr),
        decreases expr.size(), 1nat,
    {
        match expr {
            Expr::Binary(binary) => self.trav_binary(binary),
            Expr::Unary(unary) => self.trav_unary(unary),
            Expr::Num(num) => self.trav_num(num),
        }
    }

    fn trav_binary(&mut self, binary: &Binary) -> (r: Result<Type, TypeError>)
        ensures
            r == spec_typecheck(Expr::Binary(*binary)),
        decreases 1 + (*binary.l).size() + (*binary.r).size(), 0nat,
    {
        let l = match self.trav_expr(&binary.l) {
            Ok(t) => t,
            Err(err) => {
                return Err(err);
            },
        };
        let r = match self.trav_expr(&binary.r) {
            Ok(t) => t,
            Err(err) => {
                return Err(err);
            },
        };
        let typ = match unify(l, r) {
            Ok(t) => t,
            Err(err) => {
                return Err(err);
            },
        };

        match binary.op {
            Bop::Add | Bop::Sub | Bop::Mul | Bop::Div | Bop::Pow => unify(typ, Type::Int),
            Bop::Eq | Bop::Ne => Ok(Type::Bool),
        }
    }

    fn trav_unary(&mut self, unary: &Unary) -> (r: Result<Type, TypeError>)
        ensures
            r == spec_typecheck(Expr::Unary(*unary)),
        decreases 1 + (*unary.r).size(), 0nat,
    {
        let typ = match self.trav_expr(&unary.r) {
            Ok(t) => t,
            Err(err) => {
                return Err(err);
            },
        };

        match unary.op {
            Uop::Neg => unify(typ, Type::Int),
            Uop::Not => unify(typ, Type::Bool),
        }
    }

    fn trav_num(&mut self, num: &Num) -> (r: Result<Type, TypeError>)
        ensures
            r == spec_typecheck(Expr::Num(*num)),
        decreases 0nat, 0nat,
    {
        Ok(Type::Int)
    }
}

} // verus!
