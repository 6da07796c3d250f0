//! Differences of sets.

use vstd::prelude::*;
use vstd::std_specs::hash::obeys_key_model;
use std::collections::HashSet;
use std::hash::Hash;
use crate::{DiffRes, Diffable};
use crate::algo::DiffAlgo;
use crate::builtin::LcsDiff;

verus! {

broadcast use vstd::std_specs::hash::group_hash_axioms;

/// A result that borrows its elements, as one that holds them.
pub open spec fn owned<T>(d: DiffRes<&T>) -> DiffRes<T> {
    match d {
        DiffRes::Left(l) => DiffRes::Left(*l),
        DiffRes::Both(l, r) => DiffRes::Both(*l, *r),
        DiffRes::Right(r) => DiffRes::Right(*r),
    }
}

/// The results of `out` as ones that hold their elements.
pub open spec fn entries<T>(out: Seq<DiffRes<&T>>) -> Seq<DiffRes<T>> {
    out.map_values(|d: DiffRes<&T>| owned(d))
}

/// Whether `d` belongs to the difference of the sets `l` and `r`: an
/// element of `l` alone under `Left`, an element of `r` alone under
/// `Right`, an element of both under `Both`, on either side.
pub open spec fn in_set_diff<T>(l: Set<T>, r: Set<T>, d: DiffRes<T>) -> bool {
    match d {
        DiffRes::Left(x) => l.contains(x) && !r.contains(x),
        DiffRes::Both(x, y) => x == y && l.contains(x) && r.contains(x),
        DiffRes::Right(x) => !l.contains(x) && r.contains(x),
    }
}

/// The element that a result of a set difference stands for.
pub open spec fn element<T>(d: DiffRes<T>) -> T {
    match d {
        DiffRes::Left(x) => x,
        DiffRes::Both(x, _) => x,
        DiffRes::Right(x) => x,
    }
}

/// Whether `out` is the difference of the sets `l` and `r`: it holds each
/// result that belongs to the difference, once, and nothing else.
pub open spec fn is_set_diff<T>(l: Set<T>, r: Set<T>, out: Seq<DiffRes<T>>) -> bool {
    &&& out.no_duplicates()
    &&& forall|d: DiffRes<T>| out.contains(d) <==> in_set_diff(l, r, d)
}

/// The result that stands for an element `x` of either set.
pub open spec fn entry_for<T>(l: Set<T>, r: Set<T>, x: T) -> DiffRes<T> {
    if l.contains(x) && r.contains(x) {
        DiffRes::Both(x, x)
    } else if l.contains(x) {
        DiffRes::Left(x)
    } else {
        DiffRes::Right(x)
    }
}

/// Every element of either set stands in exactly one result of their
/// difference, under the tag that says which of the sets hold it; and the
/// difference holds no result for anything else.
pub proof fn lemma_one_result_for_each_element<T>(l: Set<T>, r: Set<T>, out: Seq<DiffRes<T>>)
    requires
        is_set_diff(l, r, out),
    ensures
        forall|x: T|
            l.contains(x) || r.contains(x) ==> exists|k: int|
                0 <= k < out.len() && #[trigger] out[k] == entry_for(l, r, x) && forall|j: int|
                    0 <= j < out.len() && element(#[trigger] out[j]) == x ==> j == k,
        forall|k: int|
            0 <= k < out.len() ==> l.contains(element(#[trigger] out[k])) || r.contains(element(out[k])),
{
    assert forall|x: T| l.contains(x) || r.contains(x) implies exists|k: int|
        0 <= k < out.len() && #[trigger] out[k] == entry_for(l, r, x) && forall|j: int|
            0 <= j < out.len() && element(#[trigger] out[j]) == x ==> j == k by {
        let d = entry_for(l, r, x);
        assert(in_set_diff(l, r, d));
        assert(out.contains(d));
        let k = choose|k: int| 0 <= k < out.len() && out[k] == d;
        assert forall|j: int| 0 <= j < out.len() && element(#[trigger] out[j]) == x implies j == k by {
            assert(out.contains(out[j]));
            assert(in_set_diff(l, r, out[j]));
            assert(out[j] == d);
        }
    }
    assert forall|k: int| 0 <= k < out.len() implies l.contains(element(#[trigger] out[k])) || r.contains(
        element(out[k]),
    ) by {
        assert(out.contains(out[k]));
        assert(in_set_diff(l, r, out[k]));
    }
}

/// Whether no element stands twice in `out`.
spec fn distinct<T>(out: Seq<DiffRes<&T>>) -> bool {
    forall|a: int, b: int|
        0 <= a < b < out.len() ==> element(owned(#[trigger] out[a])) != element(owned(#[trigger] out[b]))
}

/// Whether the results of `out` from position `from` on belong to the
/// difference of `l` and `r` and stand, under `Left` or not as `lefts`
/// says, for some of the first `i` elements of `seen`.
spec fn drawn_from<T>(
    out: Seq<DiffRes<&T>>,
    from: int,
    l: Set<T>,
    r: Set<T>,
    seen: Seq<&T>,
    i: int,
    lefts: bool,
) -> bool {
    forall|k: int|
        from <= k < out.len() ==> {
            &&& in_set_diff(l, r, owned(#[trigger] out[k]))
            &&& (owned(out[k]) is Left) == lefts
            &&& exists|j: int| 0 <= j < i && *(#[trigger] seen[j]) == element(owned(out[k]))
        }
}

/// Whether each of the first `i` elements of `seen` stands in `out`, under
/// `Left` or not as `lefts` says; under `Left`, only those that `r` lacks.
spec fn reached<T>(out: Seq<DiffRes<&T>>, r: Set<T>, seen: Seq<&T>, i: int, lefts: bool) -> bool {
    forall|j: int|
        0 <= j < i && (lefts ==> !r.contains(*(#[trigger] seen[j]))) ==> exists|k: int|
            0 <= k < out.len() && element(owned(#[trigger] out[k])) == *seen[j] && (owned(out[k]) is Left) == lefts
}

/// What `out` holds once the left set has been walked: a result under
/// `Left` for each element that the right set lacks, and nothing else.
spec fn holds_lefts<T>(out: Seq<DiffRes<&T>>, l: Set<T>, r: Set<T>) -> bool {
    &&& distinct(out)
    &&& forall|k: int| 0 <= k < out.len() ==> owned(#[trigger] out[k]) is Left && in_set_diff(l, r, owned(out[k]))
    &&& forall|x: T|
        l.contains(x) && !r.contains(x) ==> exists|k: int|
            0 <= k < out.len() && owned(#[trigger] out[k]) == DiffRes::Left(x)
}

/// What `out` has gained once the right set has been walked too: after the
/// first `n` results, one for each element of the right set, under `Both`
/// or `Right`, and nothing else.
spec fn holds_rights<T>(out: Seq<DiffRes<&T>>, n: int, l: Set<T>, r: Set<T>) -> bool {
    &&& distinct(out)
    &&& forall|k: int|
        n <= k < out.len() ==> !(owned(#[trigger] out[k]) is Left) && in_set_diff(l, r, owned(out[k]))
    &&& forall|x: T|
        r.contains(x) ==> exists|k: int|
            n <= k < out.len() && element(owned(#[trigger] out[k])) == x && !(owned(out[k]) is Left)
}

/// What the two walks leave in `out` is the difference of the sets.
proof fn lemma_walks_give_set_diff<T>(first: Seq<DiffRes<&T>>, out: Seq<DiffRes<&T>>, l: Set<T>, r: Set<T>)
    requires
        holds_lefts(first, l, r),
        first.len() <= out.len(),
        forall|k: int| 0 <= k < first.len() ==> #[trigger] out[k] == first[k],
        holds_rights(out, first.len() as int, l, r),
    ensures
        is_set_diff(l, r, entries(out)),
{
    let all = entries(out);
    assert forall|a: int, b: int| 0 <= a < all.len() && 0 <= b < all.len() && a != b implies all[a] != all[b] by {
        if a < b {
            assert(element(owned(out[a])) != element(owned(out[b])));
        } else {
            assert(element(owned(out[b])) != element(owned(out[a])));
        }
    }
    assert forall|d: DiffRes<T>| all.contains(d) <==> in_set_diff(l, r, d) by {
        if all.contains(d) {
            let k = choose|k: int| 0 <= k < all.len() && all[k] == d;
            if k < first.len() {
                assert(out[k] == first[k]);
            }
            assert(in_set_diff(l, r, owned(out[k])));
        }
        if in_set_diff(l, r, d) {
            match d {
                DiffRes::Left(x) => {
                    let k = choose|k: int| 0 <= k < first.len() && owned(#[trigger] first[k]) == DiffRes::Left(x);
                    assert(out[k] == first[k]);
                    assert(all[k] == d);
                },
                _ => {
                    let x = element(d);
                    let k = choose|k: int|
                        first.len() <= k < out.len() && element(owned(#[trigger] out[k])) == x && !(owned(out[k])
                            is Left);
                    assert(in_set_diff(l, r, owned(out[k])));
                    assert(all[k] == d);
                },
            }
        }
    }
}

impl<'a, T: Eq + Hash + 'a> DiffAlgo<'a, HashSet<T>> for LcsDiff {
    type Diff = Vec<DiffRes<&'a T>>;

    /// The elements have to be of a type on which hashing and `==` agree
    /// with equality.
    open spec fn accepts(l: &HashSet<T>, r: &HashSet<T>) -> bool {
        obeys_key_model::<T>()
    }

    /// Every element of either set stands in exactly one result: under
    /// `Left` if only the left set holds it, under `Right` if only the
    /// right set does, under `Both` if both do. The order of the results
    /// is left open.
    open spec fn describes(l: &HashSet<T>, r: &HashSet<T>, out: Self::Diff) -> bool {
        is_set_diff(l@, r@, entries(out@))
    }

    fn diff(l: &'a HashSet<T>, r: &'a HashSet<T>) -> (out: Self::Diff) {
        let mut out: Vec<DiffRes<&'a T>> = Vec::new();
        for item in it: l.iter()
            invariant
                obeys_key_model::<T>(),
                it.seq().unref().to_set() == l@,
                it.seq().no_duplicates(),
                distinct(out@),
                drawn_from(out@, 0, l@, r@, it.seq(), it.index(), true),
                reached(out@, r@, it.seq(), it.index(), true),
        {
            let ghost before = out@;
            let ghost i = it.index();
            proof {
                assert(it.seq().unref()[i] == *item);
                assert(it.seq().unref().to_set().contains(*item));
            }
            if !r.contains(item) {
                out.push(DiffRes::Left(item));
                proof {
                    assert forall|a: int, b: int| 0 <= a < b < out@.len() implies element(owned(#[trigger] out@[a]))
                        != element(owned(#[trigger] out@[b])) by {
                        assert(out@[a] == before[a]);
                        if b == before.len() {
                            let j = choose|j: int|
                                0 <= j < i && *(#[trigger] it.seq()[j]) == element(owned(before[a]));
                            assert(it.seq()[j] != it.seq()[i]);
                        } else {
                            assert(out@[b] == before[b]);
                        }
                    }
                    assert forall|k: int| 0 <= k < out@.len() implies {
                        &&& in_set_diff(l@, r@, owned(#[trigger] out@[k]))
                        &&& owned(out@[k]) is Left
                        &&& exists|j: int| 0 <= j < i + 1 && *(#[trigger] it.seq()[j]) == element(owned(out@[k]))
                    } by {
                        if k == before.len() {
                            assert(*it.seq()[i] == element(owned(out@[k])));
                        } else {
                            assert(out@[k] == before[k]);
                            let j = choose|j: int|
                                0 <= j < i && *(#[trigger] it.seq()[j]) == element(owned(before[k]));
                            assert(*it.seq()[j] == element(owned(out@[k])));
                        }
                    }
                    assert forall|j: int| 0 <= j < i + 1 && !r@.contains(*(#[trigger] it.seq()[j])) implies exists|
                        k: int,
                    |
                        0 <= k < out@.len() && element(owned(#[trigger] out@[k])) == *it.seq()[j] && owned(out@[k])
                            is Left by {
                        if j == i {
                            assert(element(owned(out@[before.len() as int])) == *it.seq()[j]);
                        } else {
                            let k = choose|k: int|
                                0 <= k < before.len() && element(owned(#[trigger] before[k])) == *it.seq()[j]
                                    && owned(before[k]) is Left;
                            assert(out@[k] == before[k]);
                        }
                    }
                }
            }
        }
        assert(holds_lefts(out@, l@, r@));
        let ghost first = out@;
        for item in it: r.iter()
            invariant
                obeys_key_model::<T>(),
                it.seq().unref().to_set() == r@,
                it.seq().no_duplicates(),
                holds_lefts(first, l@, r@),
                first.len() <= out@.len(),
                forall|k: int| 0 <= k < first.len() ==> #[trigger] out@[k] == first[k],
                distinct(out@),
                drawn_from(out@, first.len() as int, l@, r@, it.seq(), it.index(), false),
                reached(out@, r@, it.seq(), it.index(), false),
        {
            let ghost before = out@;
            let ghost i = it.index();
            proof {
                assert(it.seq().unref()[i] == *item);
                assert(it.seq().unref().to_set().contains(*item));
            }
            if l.contains(item) {
                out.push(DiffRes::Both(item, item));
            } else {
                out.push(DiffRes::Right(item));
            }
            proof {
                let n = first.len() as int;
                let last = before.len() as int;
                assert(element(owned(out@[last])) == *item);
                assert forall|a: int, b: int| 0 <= a < b < out@.len() implies element(owned(#[trigger] out@[a]))
                    != element(owned(#[trigger] out@[b])) by {
                    assert(out@[a] == before[a]);
                    if b == last {
                        if a < n {
                            assert(before[a] == first[a]);
                            assert(in_set_diff(l@, r@, owned(first[a])));
                        } else {
                            let j = choose|j: int|
                                0 <= j < i && *(#[trigger] it.seq()[j]) == element(owned(before[a]));
                            assert(it.seq()[j] != it.seq()[i]);
                        }
                    } else {
                        assert(out@[b] == before[b]);
                    }
                }
                assert forall|k: int| n <= k < out@.len() implies {
                    &&& in_set_diff(l@, r@, owned(#[trigger] out@[k]))
                    &&& !(owned(out@[k]) is Left)
                    &&& exists|j: int| 0 <= j < i + 1 && *(#[trigger] it.seq()[j]) == element(owned(out@[k]))
                } by {
                    if k == last {
                        assert(*it.seq()[i] == element(owned(out@[k])));
                    } else {
                        assert(out@[k] == before[k]);
                        let j = choose|j: int| 0 <= j < i && *(#[trigger] it.seq()[j]) == element(owned(before[k]));
                        assert(*it.seq()[j] == element(owned(out@[k])));
                    }
                }
                assert forall|j: int| 0 <= j < i + 1 implies exists|k: int|
                    0 <= k < out@.len() && element(owned(#[trigger] out@[k])) == *(#[trigger] it.seq()[j]) && !(owned(
                        out@[k],
                    ) is Left) by {
                    if j == i {
                        assert(element(owned(out@[last])) == *it.seq()[j]);
                    } else {
                        let k = choose|k: int|
                            0 <= k < before.len() && element(owned(#[trigger] before[k])) == *it.seq()[j] && !(owned(
                                before[k],
                            ) is Left);
                        assert(out@[k] == before[k]);
                    }
                }
                assert forall|k: int| 0 <= k < n implies #[trigger] out@[k] == first[k] by {
                    assert(out@[k] == before[k]);
                }
            }
        }
        assert(holds_rights(out@, first.len() as int, l@, r@));
        proof {
            lemma_walks_give_set_diff(first, out@, l@, r@);
        }
        out
    }
}

impl<T: Eq + Hash> Diffable for HashSet<T> {
    type Item = HashSet<T>;

    open spec fn item(&self) -> &HashSet<T> {
        self
    }

    fn diff<'a, A: DiffAlgo<'a, HashSet<T>>>(&'a self, other: &'a Self) -> (out: A::Diff) {
        A::diff(self, other)
    }
}

} // verus!
