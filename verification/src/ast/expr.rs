use crate::ast::binary::Binary;
use crate::ast::num::dec_digits;
use crate::ast::num::push_digits;
use crate::ast::num::Num;
use crate::ast::unary::Unary;
use crate::loc::Loc;
use vstd::prelude::*;
use vstd::string::StringExecFns;

verus! {

/// An expression tree node. Every parent owns its children exclusively, so a
/// value of this type is a strict tree: no sharing, no cycles.
#[derive(Debug)]
pub enum Expr {
    Binary(Binary),
    Unary(Unary),
    Num(Num),
}

impl Expr {
    /// The number of nodes in the tree; the measure for recursive walks.
    pub open spec fn size(self) -> nat
        decreases self,
    {
        match self {
            Expr::Binary(binary) => 1 + (*binary.l).size() + (*binary.r).size(),
            Expr::Unary(unary) => 1 + (*unary.r).size(),
            Expr::Num(_) => 1,
        }
    }

    /// The span that this node covers.
    pub open spec fn spec_loc(self) -> Loc {
        match self {
            Expr::Binary(binary) => binary.loc,
            Expr::Unary(unary) => unary.loc,
            Expr::Num(num) => num.loc,
        }
    }

    pub fn loc(&self) -> (loc: Loc)
        ensures
            loc == self.spec_loc(),
    {
        match self {
            Expr::Binary(binary) => binary.loc,
            Expr::Unary(unary) => unary.loc,
            Expr::Num(num) => num.loc,
        }
    }

    /// The printed form of the tree: every binary node fully parenthesized
    /// with one space around its operator, a unary operator written directly
    /// before its operand, a literal as its decimal text.
    pub open spec fn spec_print(self) -> Seq<char>
        decreases self,
    {
        match self {
            Expr::Binary(binary) => seq!['('] + (*binary.l).spec_print() + seq![' ']
                + binary.op.spec_symbol() + seq![' '] + (*binary.r).spec_print() + seq![')'],
            Expr::Unary(unary) => unary.op.spec_symbol() + (*unary.r).spec_print(),
            Expr::Num(num) => dec_digits(num.num as int),
        }
    }

    /// Append the printed form of this tree to `out`.
    pub fn push_text(&self, out: &mut String)
        ensures
            final(out)@ == old(out)@ + self.spec_print(),
        decreases self.size(),
    {
        match self {
            Expr::Binary(binary) => {
                proof {
                    reveal_strlit("(");
                    reveal_strlit(" ");
                    reveal_strlit(")");
                    assert("("@ =~= seq!['(']);
                    assert(" "@ =~= seq![' ']);
                    assert(")"@ =~= seq![')']);
                }
                out.append("(");
                binary.l.push_text(out);
                out.append(" ");
                out.append(binary.op.symbol());
                out.append(" ");
                binary.r.push_text(out);
                out.append(")");
                proof {
                    assert(out@ =~= old(out)@ + self.spec_print());
                }
            },
            Expr::Unary(unary) => {
                out.append(unary.op.symbol());
                unary.r.push_text(out);
                proof {
                    assert(out@ =~= old(out)@ + self.spec_print());
                }
            },
            Expr::Num(num) => {
                push_digits(num.num, out);
            },
        }
    }

    /// The printed form of the tree as a string.
    pub fn to_text(&self) -> (r: String)
        ensures
            r@ == self.spec_print(),
    {
        let mut out = String::new();
        self.push_text(&mut out);
        proof {
            assert(out@ =~= self.spec_print());
        }
        out
    }
}

} // verus!
