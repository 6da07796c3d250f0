//! Differences of slices, based on the longest common subsequence.

use vstd::prelude::*;
use vstd::std_specs::cmp::PartialEqSpec;
use crate::{DiffRes, Diffable};
use crate::algo::{DiffAlgo, DiffPatch};
use crate::alignment::{aligned, classify, compare_lines, fits, line_diff};
use crate::coalesce::{Tag, coalesce, coalesce_runs, views};
use crate::runs::{agreeing, alternating, consumed, left_side, right_side, solid, tag_of};
use crate::runs::{both_count, pairs_in, pairs_up};
use crate::runs::{lemma_all_both, lemma_all_pairs, lemma_both_runs_agree, lemma_consumed_by_both};
use crate::runs::{lemma_consumed_grows, lemma_count_pairs, lemma_empty_inputs, lemma_left_empty};
use crate::runs::{lemma_minimality, lemma_pairs_of_both, lemma_reconstruction, lemma_right_empty};
use crate::runs::{lemma_runs_keep_the_pairs, lemma_unused_tag};

verus! {

/// The difference that follows a longest common subsequence of the two
/// inputs.
pub struct LcsDiff;

/// Whether `runs` is the coalesced form of an alignment of `l` with `r`.
pub open spec fn is_lcs_diff<T: PartialEq>(l: Seq<T>, r: Seq<T>, runs: Seq<DiffRes<Seq<T>>>) -> bool {
    exists|tags: Seq<Tag>| #[trigger] aligned(tags, l, r) && runs == coalesce_runs(l, r, tags)
}

/// The left parts of a difference joined in order give back the left
/// sequence, and the right parts the right one. No two neighbours stand
/// under the same tag, and no result is empty.
pub proof fn lemma_lcs_diff_rebuilds<T: PartialEq>(l: Seq<T>, r: Seq<T>, runs: Seq<DiffRes<Seq<T>>>)
    requires
        is_lcs_diff(l, r, runs),
    ensures
        left_side(runs) == l,
        right_side(runs) == r,
        alternating(runs),
        forall|i: int| 0 <= i < runs.len() ==> solid(#[trigger] runs[i]),
{
    let tags = choose|tags: Seq<Tag>| #[trigger] aligned(tags, l, r) && runs == coalesce_runs(l, r, tags);
    lemma_reconstruction(l, r, tags);
    lemma_minimality(l, r, tags);
}

/// The difference of a sequence with itself is the single result `Both`
/// that holds the sequence on either side, where the sequence is not empty
/// and each of its elements compares equal to itself.
pub proof fn lemma_lcs_diff_of_same<T: PartialEq>(l: Seq<T>, runs: Seq<DiffRes<Seq<T>>>)
    requires
        is_lcs_diff(l, l, runs),
        T::obeys_eq_spec(),
        forall|i: int| 0 <= i < l.len() ==> (#[trigger] l[i]).eq_spec(&l[i]),
        l.len() > 0,
    ensures
        runs == seq![DiffRes::Both(l, l)],
{
    let tags = choose|tags: Seq<Tag>| #[trigger] aligned(tags, l, l) && runs == coalesce_runs(l, l, tags);
    let n = l.len() as int;
    // Pairing every element with itself is an alignment of `n` pairs,
    let plain = Seq::new(l.len(), |i: int| Tag::Both);
    lemma_consumed_by_both(plain, n);
    lemma_pairs_of_both(plain, n);
    assert forall|k: int| 0 <= k < plain.len() && #[trigger] plain[k] == Tag::Both implies l[consumed(
        plain,
        k,
    ).0].eq_spec(&l[consumed(plain, k).1]) by {
        lemma_consumed_by_both(plain, k);
    }
    assert(pairs_up(plain, l, l));
    // so the alignment found has no fewer, which leaves no room for a tag
    // that is not `Both`.
    lemma_count_pairs(tags, tags.len() as int);
    lemma_all_pairs(tags, tags.len() as int);
    lemma_all_both(l, l, tags);
}

/// A difference follows a longest common subsequence: no way of pairing
/// equal elements of the two sequences in order makes more pairs than the
/// difference holds under `Both`.
pub proof fn lemma_lcs_diff_is_longest<T: PartialEq>(
    l: Seq<T>,
    r: Seq<T>,
    runs: Seq<DiffRes<Seq<T>>>,
    other: Seq<Tag>,
)
    requires
        is_lcs_diff(l, r, runs),
        T::obeys_eq_spec(),
        pairs_up(other, l, r),
    ensures
        both_count(other, other.len() as int) <= pairs_in(runs),
{
    let tags = choose|tags: Seq<Tag>| #[trigger] aligned(tags, l, r) && runs == coalesce_runs(l, r, tags);
    lemma_runs_keep_the_pairs(l, r, tags);
}

/// Where no element of the left sequence compares equal to an element of
/// the right one, no result of their difference stands under `Both`: the
/// results under `Left` hold the left sequence, those under `Right` the
/// right one.
pub proof fn lemma_lcs_diff_of_disjoint<T: PartialEq>(l: Seq<T>, r: Seq<T>, runs: Seq<DiffRes<Seq<T>>>)
    requires
        is_lcs_diff(l, r, runs),
        T::obeys_eq_spec(),
        forall|i: int, j: int| 0 <= i < l.len() && 0 <= j < r.len() ==> !(#[trigger] l[i].eq_spec(&r[j])),
    ensures
        forall|i: int| 0 <= i < runs.len() ==> tag_of(#[trigger] runs[i]) != Tag::Both,
        left_side(runs) == l,
        right_side(runs) == r,
{
    let tags = choose|tags: Seq<Tag>| #[trigger] aligned(tags, l, r) && runs == coalesce_runs(l, r, tags);
    assert forall|k: int| 0 <= k < tags.len() implies tags[k] != Tag::Both by {
        if tags[k] == Tag::Both {
            lemma_consumed_grows(tags, 0, k);
            lemma_consumed_grows(tags, k + 1, tags.len() as int);
        }
    }
    lemma_unused_tag(l, r, tags, Tag::Both);
    lemma_reconstruction(l, r, tags);
}

/// Two empty sequences have the empty difference. An empty sequence
/// against one that is not has a single result, which holds the other
/// sequence whole.
pub proof fn lemma_lcs_diff_of_empty<T: PartialEq>(l: Seq<T>, r: Seq<T>, runs: Seq<DiffRes<Seq<T>>>)
    requires
        is_lcs_diff(l, r, runs),
    ensures
        l.len() == 0 && r.len() == 0 ==> runs == Seq::<DiffRes<Seq<T>>>::empty(),
        l.len() == 0 && r.len() > 0 ==> runs == seq![DiffRes::<Seq<T>>::Right(r)],
        l.len() > 0 && r.len() == 0 ==> runs == seq![DiffRes::<Seq<T>>::Left(l)],
{
    let tags = choose|tags: Seq<Tag>| #[trigger] aligned(tags, l, r) && runs == coalesce_runs(l, r, tags);
    if l.len() == 0 && r.len() == 0 {
        lemma_empty_inputs(l, r, tags);
    } else if l.len() == 0 {
        lemma_left_empty(l, r, tags);
    } else if r.len() == 0 {
        lemma_right_empty(l, r, tags);
    }
}

impl<'a, T: PartialEq + 'a> DiffAlgo<'a, [T]> for LcsDiff {
    type Diff = Vec<DiffRes<&'a [T]>>;

    open spec fn accepts(l: &[T], r: &[T]) -> bool {
        fits(l@.len(), r@.len())
    }

    /// The result is the coalesced form of an alignment of the two slices
    /// along a longest common subsequence. Its left parts joined give `l`
    /// and its right parts `r`; neighbours stand under different tags; no
    /// result is empty; and what stands under `Both` compares equal element
    /// by element.
    open spec fn describes(l: &[T], r: &[T], out: Self::Diff) -> bool {
        let runs = views(out@);
        &&& is_lcs_diff(l@, r@, runs)
        &&& left_side(runs) == l@
        &&& right_side(runs) == r@
        &&& alternating(runs)
        &&& forall|i: int| 0 <= i < runs.len() ==> solid(#[trigger] runs[i])
        &&& T::obeys_eq_spec() ==> forall|i: int| 0 <= i < runs.len() ==> agreeing(#[trigger] runs[i])
    }

    fn diff(l: &'a [T], r: &'a [T]) -> (out: Self::Diff) {
        let tags = classify(l, r);
        let out = coalesce(l, r, tags.as_slice());
        proof {
            lemma_reconstruction(l@, r@, tags@);
            lemma_minimality(l@, r@, tags@);
            if T::obeys_eq_spec() {
                lemma_both_runs_agree(l@, r@, tags@);
            }
        }
        out
    }
}

impl<'a, T: PartialEq + 'a> DiffPatch<'a, [T]> for LcsDiff {
}

impl<'a, T: PartialEq + 'a> DiffAlgo<'a, [T]> for crate::algo::Default {
    type Diff = Vec<DiffRes<&'a [T]>>;

    open spec fn accepts(l: &[T], r: &[T]) -> bool {
        <LcsDiff as DiffAlgo<'a, [T]>>::accepts(l, r)
    }

    open spec fn describes(l: &[T], r: &[T], out: Self::Diff) -> bool {
        <LcsDiff as DiffAlgo<'a, [T]>>::describes(l, r, out)
    }

    fn diff(l: &'a [T], r: &'a [T]) -> (out: Self::Diff) {
        LcsDiff::diff(l, r)
    }
}

impl<'a> DiffAlgo<'a, str> for LcsDiff {
    type Diff = Vec<DiffRes<&'a str>>;

    open spec fn accepts(l: &str, r: &str) -> bool {
        fits(l@.len(), r@.len())
    }

    /// The result is the difference between the lines of the two texts, one
    /// result for each line, as the `diff` crate computes it.
    open spec fn describes(l: &str, r: &str, out: Self::Diff) -> bool {
        views(out@) == line_diff(l@, r@)
    }

    fn diff(l: &'a str, r: &'a str) -> (out: Self::Diff) {
        compare_lines(l, r)
    }
}

impl<'a> DiffPatch<'a, str> for LcsDiff {
}

impl<'a> DiffAlgo<'a, str> for crate::algo::Default {
    type Diff = Vec<DiffRes<&'a str>>;

    open spec fn accepts(l: &str, r: &str) -> bool {
        <LcsDiff as DiffAlgo<'a, str>>::accepts(l, r)
    }

    open spec fn describes(l: &str, r: &str, out: Self::Diff) -> bool {
        <LcsDiff as DiffAlgo<'a, str>>::describes(l, r, out)
    }

    fn diff(l: &'a str, r: &'a str) -> (out: Self::Diff) {
        LcsDiff::diff(l, r)
    }
}

impl Diffable for str {
    type Item = str;

    open spec fn item(&self) -> &str {
        self
    }

    fn diff<'a, A: DiffAlgo<'a, str>>(&'a self, other: &'a Self) -> (out: A::Diff) {
        A::diff(self, other)
    }
}

impl<T: PartialEq> Diffable for [T] {
    type Item = [T];

    open spec fn item(&self) -> &[T] {
        self
    }

    fn diff<'a, A: DiffAlgo<'a, [T]>>(&'a self, other: &'a Self) -> (out: A::Diff) {
        A::diff(self, other)
    }
}

} // verus!
