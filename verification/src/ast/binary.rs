use crate::ast::expr::Expr;
use crate::ast::op::Assoc;
use crate::ast::op::Operator;
use crate::lexer::Token;
use crate::loc::Loc;
use vstd::prelude::*;

verus! {

/// A binary application: both operands, the operator, and the span covering
/// everything from the start of the left operand to the end of the right one.
#[derive(Debug)]
pub struct Binary {
    pub l: Box<Expr>,
    pub r: Box<Expr>,
    pub op: Bop,
    pub loc: Loc,
}

/// The closed set of binary operators.
#[derive(Clone, Copy, Debug, PartialEq, Eq, Structural)]
pub enum Bop {
    Add,
    Sub,
    Mul,
    Div,
    Pow,
    Eq,
    Ne,
}

impl Bop {
    /// The binary operator that a token stands for, if any.
    pub open spec fn spec_try_from(token: Token) -> Option<Bop> {
        match token {
            Token::Add => Some(Bop::Add),
            Token::Sub => Some(Bop::Sub),
            Token::Mul => Some(Bop::Mul),
            Token::Div => Some(Bop::Div),
            Token::Pow => Some(Bop::Pow),
            Token::Eq => Some(Bop::Eq),
            Token::Ne => Some(Bop::Ne),
            _ => None,
        }
    }

    pub fn try_from(token: Token) -> (r: Option<Bop>)
        ensures
            r == Bop::spec_try_from(token),
    {
        match token {
            Token::Add => Some(Bop::Add),
            Token::Sub => Some(Bop::Sub),
            Token::Mul => Some(Bop::Mul),
            Token::Div => Some(Bop::Div),
            Token::Pow => Some(Bop::Pow),
            Token::Eq => Some(Bop::Eq),
            Token::Ne => Some(Bop::Ne),
            _ => None,
        }
    }

    /// The characters that print this operator.
    pub open spec fn spec_symbol(self) -> Seq<char> {
        match self {
            Bop::Add => seq!['+'],
            Bop::Sub => seq!['-'],
            Bop::Mul => seq!['*'],
            Bop::Div => seq!['/'],
            Bop::Pow => seq!['^'],
            Bop::Eq => seq!['=', '='],
            Bop::Ne => seq!['!', '='],
        }
    }

    pub fn symbol(self) -> (r: &'static str)
        ensures
            r@ == self.spec_symbol(),
    {
        match self {
            Bop::Add => {
                let s: &'static str = "+";
                proof {
                    reveal_strlit("+");
                    assert(s@ =~= seq!['+']);
                }
                s
            },
            Bop::Sub => {
                let s: &'static str = "-";
                proof {
                    reveal_strlit("-");
                    assert(s@ =~= seq!['-']);
                }
                s
            },
            Bop::Mul => {
                let s: &'static str = "*";
                proof {
                    reveal_strlit("*");
                    assert(s@ =~= seq!['*']);
                }
                s
            },
            Bop::Div => {
                let s: &'static str = "/";
                proof {
                    reveal_strlit("/");
                    assert(s@ =~= seq!['/']);
                }
                s
            },
            Bop::Pow => {
                let s: &'static str = "^";
                proof {
                    reveal_strlit("^");
                    assert(s@ =~= seq!['^']);
                }
                s
            },
            Bop::Eq => {
                let s: &'static str = "==";
                proof {
                    reveal_strlit("==");
                    assert(s@ =~= seq!['=', '=']);
                }
                s
            },
            Bop::Ne => {
                let s: &'static str = "!=";
                proof {
                    reveal_strlit("!=");
                    assert(s@ =~= seq!['!', '=']);
                }
                s
            },
        }
    }
}

impl Operator for Bop {
    open spec fn spec_precedence(self) -> usize {
        match self {
            Bop::Eq | Bop::Ne => 2,
            Bop::Add | Bop::Sub => 3,
            Bop::Mul | Bop::Div => 4,
            Bop::Pow => 5,
        }
    }

    open spec fn spec_associativity(self) -> Assoc {
        match self {
            Bop::Eq | Bop::Ne => Assoc::NonAssoc,
            Bop::Add | Bop::Sub | Bop::Mul | Bop::Div => Assoc::LeftToRight,
            Bop::Pow => Assoc::RightToLeft,
        }
    }

    fn precedence(self) -> usize {
        match self {
            Bop::Eq | Bop::Ne => 2,
            Bop::Add | Bop::Sub => 3,
            Bop::Mul | Bop::Div => 4,
            Bop::Pow => 5,
        }
    }

    fn associativity(self) -> Assoc {
        match self {
            Bop::Eq | Bop::Ne => Assoc::NonAssoc,
            Bop::Add | Bop::Sub | Bop::Mul | Bop::Div => Assoc::LeftToRight,
            Bop::Pow => Assoc::RightToLeft,
        }
    }
}

} // verus!
