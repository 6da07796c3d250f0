//! Human-readable differences between slices, text, sets and pixel grids.
//!
//! Two values of one type are compared under a strategy, a marker type that
//! implements [`algo::DiffAlgo`] for what is compared. [`diff`] compares
//! under [`algo::Default`]; [`Diffable::diff`] takes the strategy as a type
//! argument.
//!
//! - [`builtin`] holds [`builtin::LcsDiff`] for slices and lines of text,
//!   [`sets`] the same strategy for hash sets.
//! - [`coalesce`] groups a per-element classification of two slices into
//!   runs, [`runs`] states what holds of the runs, and [`alignment`] gets
//!   the classification from the `diff` crate.
//! - [`img`] holds the strategies for pixel grids, [`subpixel`] the channel
//!   types they work on, and [`raster`] the same strategies on RGBA buffers
//!   of the `image` crate.
//! - [`fmt`] lays differences out as text.

use vstd::prelude::*;

pub mod algo;
pub mod alignment;
pub mod builtin;
pub mod coalesce;
pub mod fmt;
pub mod img;
pub mod raster;
pub mod runs;
pub mod sets;
pub mod subpixel;

use crate::algo::DiffAlgo;

verus! {

/// One unit of a difference: content found only on the left, on both sides,
/// or only on the right. `Both` keeps the two sides apart, since values that
/// compare equal need not be identical.
#[derive(Debug, PartialEq)]
pub enum DiffRes<T> {
    Left(T),
    Both(T, T),
    Right(T),
}

impl<T: View> View for DiffRes<T> {
    type V = DiffRes<T::V>;

    open spec fn view(&self) -> DiffRes<T::V> {
        match *self {
            DiffRes::Left(l) => DiffRes::Left(l@),
            DiffRes::Both(l, r) => DiffRes::Both(l@, r@),
            DiffRes::Right(r) => DiffRes::Right(r@),
        }
    }
}

/// A type of which two values can be compared. A difference is meant to be
/// read by a person, and need not allow one value to be rebuilt from the
/// other.
pub trait Diffable {
    /// What a strategy is handed when two values of this type are compared;
    /// it decides which strategies apply.
    type Item: ?Sized;

    /// The part of a value that is compared.
    spec fn item(&self) -> &Self::Item;

    /// The difference between this value and another under the strategy `A`.
    fn diff<'a, A: DiffAlgo<'a, Self::Item>>(&'a self, other: &'a Self) -> (out: A::Diff)
        requires
            A::accepts(self.item(), other.item()),
        ensures
            A::describes(self.item(), other.item(), out),
    ;
}

/// The difference between two values under the default strategy.
pub fn diff<'a, T: Diffable + ?Sized>(a: &'a T, b: &'a T) -> (out: <algo::Default as DiffAlgo<'a, T::Item>>::Diff) where
    algo::Default: DiffAlgo<'a, T::Item>,

    requires
        <algo::Default as DiffAlgo<'a, T::Item>>::accepts(a.item(), b.item()),
    ensures
        <algo::Default as DiffAlgo<'a, T::Item>>::describes(a.item(), b.item(), out),
{
    a.diff::<algo::Default>(b)
}

} // verus!
