use vstd::prelude::*;

verus! {

/// The closed set of types an expression can have. There are no implicit
/// conversions: the two are never interchangeable.
#[derive(Clone, Copy, Debug, PartialEq, Eq, Structural)]
pub enum Type {
    Int,
    Bool,
}

impl Default for Type {
    /// The neutral type that passes fall back to.
    fn default() -> (r: Type)
        ensures
            r == Type::Int,
    {
        Type::Int
    }
}

} // verus!
