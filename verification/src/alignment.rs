//! The alignment of two slices, computed by the `diff` crate.

use vstd::prelude::*;
use vstd::std_specs::cmp::PartialEqSpec;
use crate::DiffRes;
use crate::coalesce::{Tag, views};
use crate::runs::{both_count, covers, paired, pairs_up};

verus! {

/// What is known of a classification that aligns `l` with `r` along a
/// longest common subsequence.
///
/// It has one tag for each element consumed: a `Left` or `Both` for every
/// element of `l`, a `Right` or `Both` for every element of `r`, in order.
/// Where `==` on `T` is the relation `eq_spec`, it marks `Both` only
/// elements that compare equal, and no classification that does the same
/// marks more of them.
pub open spec fn aligned<T: PartialEq>(tags: Seq<Tag>, l: Seq<T>, r: Seq<T>) -> bool {
    &&& covers(tags, l.len() as int, r.len() as int)
    &&& T::obeys_eq_spec() ==> paired(tags, l, r)
    &&& T::obeys_eq_spec() ==> forall|other: Seq<Tag>|
        #[trigger] pairs_up(other, l, r) ==> both_count(other, other.len() as int) <= both_count(
            tags,
            tags.len() as int,
        )
}

/// Whether two sequences of `n` and `m` elements are small enough for the
/// table that the alignment is computed from, and for the list of what it
/// finds, to be allocated.
pub open spec fn fits(n: nat, m: nat) -> bool {
    128 * (n + 1) * (m + 1) <= isize::MAX
}

/// Whether two sequences of `n` and `m` elements are small enough to be
/// aligned.
pub fn within_limits(n: usize, m: usize) -> (ok: bool)
    ensures
        ok == fits(n as nat, m as nat),
{
    let limit: u128 = isize::MAX as u128 / 128;
    let rows: u128 = n as u128 + 1;
    let columns: u128 = m as u128 + 1;
    let ok = rows <= limit / columns;
    proof {
        let top = isize::MAX as int;
        let a = rows as int;
        let b = columns as int;
        let most = limit as int;
        let q = most / b;
        assert(most == top / 128);
        assert(a * b <= most <==> a <= q) by (nonlinear_arith)
            requires
                0 < a,
                0 < b,
                0 <= most,
                q == most / b,
        {
            assert(q * b <= most && most < q * b + b);
            if a <= q {
                assert(a * b <= q * b);
            } else {
                assert(a * b >= (q + 1) * b);
            }
        }
        assert(128 * (a * b) <= top <==> a * b <= top / 128);
        assert(128 * (n + 1) * (m + 1) == 128 * (a * b)) by (nonlinear_arith)
            requires
                a == n + 1,
                b == m + 1,
        ;
    }
    ok
}

/// Calls `diff::slice` and keeps, of each fragment it returns, whether it is
/// a `Left`, a `Right` or a `Both`.
///
/// Trusted: `diff::slice` returns one fragment for each element it consumes,
/// taking the elements of either slice in order and each exactly once; a
/// `Both` fragment holds one element of each slice, and the two compared
/// equal under `==`; and the `Both` fragments follow a longest common
/// subsequence, so that no other such list of fragments has more of them.
/// The bound on the lengths keeps its table, of at most `(n + 1) * (m + 1)`
/// entries of four bytes, and its list of fragments within what a vector
/// can hold.
#[verifier::external_body]
pub(crate) fn classify<T: PartialEq>(l: &[T], r: &[T]) -> (tags: Vec<Tag>)
    requires
        fits(l@.len(), r@.len()),
    ensures
        aligned(tags@, l@, r@),
{
    diff::slice(l, r)
        .iter()
        .map(|d| match d {
            diff::Result::Left(_) => Tag::Left,
            diff::Result::Right(_) => Tag::Right,
            diff::Result::Both(_, _) => Tag::Both,
        })
        .collect()
}

/// The difference that `diff::lines` computes between the lines of two
/// texts.
pub uninterp spec fn line_diff(l: Seq<char>, r: Seq<char>) -> Seq<DiffRes<Seq<char>>>;

/// Calls `diff::lines` and hands its fragments on as results, variant by
/// variant.
///
/// Trusted: what `diff::lines` returns depends on the characters of the two
/// texts alone. The bound on the lengths keeps its table and its list of
/// fragments within what a vector can hold: a text has no more lines than
/// characters.
#[verifier::external_body]
pub(crate) fn compare_lines<'a>(l: &'a str, r: &'a str) -> (out: Vec<DiffRes<&'a str>>)
    requires
        fits(l@.len(), r@.len()),
    ensures
        views(out@) == line_diff(l@, r@),
{
    diff::lines(l, r)
        .into_iter()
        .map(|d| match d {
            diff::Result::Left(l) => DiffRes::Left(l),
            diff::Result::Both(l, r) => DiffRes::Both(l, r),
            diff::Result::Right(r) => DiffRes::Right(r),
        })
        .collect()
}

} // verus!
