//! The strategies by which two values can be compared.

use vstd::prelude::*;

verus! {

/// A way of comparing two values of type `T`, named by a marker type that
/// holds no data. The strategy chooses the type of what it returns, and
/// says by `describes` what a result has to be.
pub trait DiffAlgo<'a, T: ?Sized + 'a> {
    /// What the strategy returns. It may borrow from either input.
    type Diff;

    /// The inputs that the strategy can be run on.
    spec fn accepts(l: &T, r: &T) -> bool;

    /// Whether `out` is a difference of `l` and `r` under this strategy.
    spec fn describes(l: &T, r: &T, out: Self::Diff) -> bool;

    /// The difference between `l` and `r` under this strategy.
    fn diff(l: &'a T, r: &'a T) -> (out: Self::Diff)
        requires
            Self::accepts(l, r),
        ensures
            Self::describes(l, r, out),
    ;
}

/// Marks a strategy whose result, together with one of the inputs, is
/// enough to rebuild the other: the results of a slice difference hold
/// both slices in order, those of a text difference the lines of both
/// texts, and a pixel patch added to the left grid gives the right one.
pub trait DiffPatch<'a, T: ?Sized + 'a>: DiffAlgo<'a, T> {
}

/// The strategy used where the caller names none.
pub struct Default;

} // verus!
