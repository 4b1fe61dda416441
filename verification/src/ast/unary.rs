use crate::ast::expr::Expr;
use crate::ast::op::Assoc;
use crate::ast::op::Operator;
use crate::lexer::Token;
use crate::loc::Loc;
use vstd::prelude::*;

verus! {

/// A unary application: the operand, the operator, and the span covering the
/// operator through the operand.
#[derive(Debug)]
pub struct Unary {
    pub r: Box<Expr>,
    pub op: Uop,
    pub loc: Loc,
}

/// The closed set of unary operators.
#[derive(Clone, Copy, Debug, PartialEq, Eq, Structural)]
pub enum Uop {
    Neg,
    Not,
}

impl Uop {
    /// The unary operator that a token stands for, if any.
    pub open spec fn spec_from_token(token: Token) -> Option<Uop> {
        match token {
            Token::Sub => Some(Uop::Neg),
            Token::Not => Some(Uop::Not),
            _ => None,
        }
    }

    pub fn from_token(token: Token) -> (r: Option<Uop>)
        ensures
            r == Uop::spec_from_token(token),
    {
        match token {
            Token::Sub => Some(Uop::Neg),
            Token::Not => Some(Uop::Not),
            _ => None,
        }
    }

    /// The character that prints this operator.
    pub open spec fn spec_symbol(self) -> Seq<char> {
        match self {
            Uop::Neg => seq!['-'],
            Uop::Not => seq!['!'],
        }
    }

    pub fn symbol(self) -> (r: &'static str)
        ensures
            r@ == self.spec_symbol(),
    {
        match self {
            Uop::Neg => {
                let s: &'static str = "-";
                proof {
                    reveal_strlit("-");
                    assert(s@ =~= seq!['-']);
                }
                s
            },
            Uop::Not => {
                let s: &'static str = "!";
                proof {
                    reveal_strlit("!");
                    assert(s@ =~= seq!['!']);
                }
                s
            },
        }
    }
}

impl Operator for Uop {
    /// Unary operators bind strictly tighter than every binary operator.
    open spec fn spec_precedence(self) -> usize {
        255
    }

    open spec fn spec_associativity(self) -> Assoc {
        Assoc::LeftToRight
    }

    fn precedence(self) -> usize {
        255
    }

    fn associativity(self) -> Assoc {
        Assoc::LeftToRight
    }
}

} // verus!
