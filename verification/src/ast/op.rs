use vstd::prelude::*;

verus! {

/// How two neighbouring operators of equal precedence group.
#[derive(Clone, Copy, Debug, PartialEq, Eq, Structural)]
pub enum Assoc {
    LeftToRight,
    RightToLeft,
    NonAssoc,
}

/// The binding behaviour of an operator: a precedence rank together with an
/// associativity. The parser threads values of this trait through its
/// recursive calls as the minimum binding that a candidate operator must beat.
pub trait Operator: Sized + Clone + Copy {
    /// The precedence rank, as contracts see it.
    spec fn spec_precedence(self) -> usize;

    /// The associativity, as contracts see it.
    spec fn spec_associativity(self) -> Assoc;

    fn precedence(self) -> (p: usize)
        ensures
            p == self.spec_precedence(),
    ;

    fn associativity(self) -> (a: Assoc)
        ensures
            a == self.spec_associativity(),
    ;
}

/// The weakest possible binding: parsing a whole expression starts from it,
/// so that every operator is accepted.
#[derive(Clone, Copy, Debug)]
pub struct DefaultOperator();

impl Operator for DefaultOperator {
    open spec fn spec_precedence(self) -> usize {
        0
    }

    open spec fn spec_associativity(self) -> Assoc {
        Assoc::LeftToRight
    }

    fn precedence(self) -> usize {
        0
    }

    fn associativity(self) -> Assoc {
        Assoc::LeftToRight
    }
}

} // verus!
