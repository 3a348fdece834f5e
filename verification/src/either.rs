use vstd::prelude::*;

verus! {

/// A value of one of two types.
#[derive(Debug, Clone, Copy, PartialEq, Eq)]
pub enum Either<L, R> {
    /// A value of the first type.
    Left(L),
    /// A value of the second type.
    Right(R),
}

} // verus!
