//! Grouping a per-element classification into maximal runs.

use vstd::prelude::*;
use crate::DiffRes;

verus! {

/// The classification of one element of an alignment.
#[derive(Clone, Copy, Debug, PartialEq, Eq, Structural)]
pub enum Tag {
    Left,
    Right,
    Both,
}

/// A change of tag met while reading a classification: how many elements of
/// each side had been consumed, and the tags on either side of the change.
#[derive(Clone, Copy, Debug)]
pub struct Boundary {
    pub left: usize,
    pub right: usize,
    pub was: Tag,
    pub now: Tag,
}

/// The mathematical content of a `Boundary`.
pub ghost struct Cut {
    pub at: (int, int),
    pub was: Tag,
    pub now: Tag,
}

impl View for Boundary {
    type V = Cut;

    open spec fn view(&self) -> Cut {
        Cut { at: (self.left as int, self.right as int), was: self.was, now: self.now }
    }
}

/// Whether an element tagged `t` is taken from the left sequence.
pub open spec fn takes_left(t: Tag) -> bool {
    t != Tag::Right
}

/// Whether an element tagged `t` is taken from the right sequence.
pub open spec fn takes_right(t: Tag) -> bool {
    t != Tag::Left
}

/// The cursors after one more element tagged `t`.
pub open spec fn advance(at: (int, int), t: Tag) -> (int, int) {
    (
        if takes_left(t) { at.0 + 1 } else { at.0 },
        if takes_right(t) { at.1 + 1 } else { at.1 },
    )
}

/// A cursor held back to the length of its sequence.
pub open spec fn clip(i: int, len: int) -> int {
    if i < len { i } else { len }
}

/// The elements of `s` between two cursors, each held back to `s.len()`.
pub open spec fn span<T>(s: Seq<T>, from: int, to: int) -> Seq<T> {
    s.subrange(clip(from, s.len() as int), clip(to, s.len() as int))
}

/// The result that stands for a run tagged `tag` between two cursor pairs.
pub open spec fn run_between<T>(tag: Tag, l: Seq<T>, r: Seq<T>, from: (int, int), to: (int, int)) -> DiffRes<
    Seq<T>,
> {
    match tag {
        Tag::Left => DiffRes::Left(span(l, from.0, to.0)),
        Tag::Right => DiffRes::Right(span(r, from.1, to.1)),
        Tag::Both => DiffRes::Both(span(l, from.0, to.0), span(r, from.1, to.1)),
    }
}

/// Whether nothing of either sequence lies between two cursor pairs.
pub open spec fn blank<T>(l: Seq<T>, r: Seq<T>, from: (int, int), to: (int, int)) -> bool {
    span(l, from.0, to.0).len() == 0 && span(r, from.1, to.1).len() == 0
}

/// What is emitted once the classification has ended: the rest of both
/// sequences as one run tagged `tag`, or nothing if both are used up.
pub open spec fn flush<T>(l: Seq<T>, r: Seq<T>, tag: Tag, from: (int, int)) -> Seq<DiffRes<Seq<T>>> {
    if from.0 < l.len() || from.1 < r.len() {
        seq![run_between(tag, l, r, from, (l.len() as int, r.len() as int))]
    } else {
        seq![]
    }
}

/// The runs emitted from position `k` of `tags` on, when the run being read
/// is tagged `cur`, began at the cursors `start` and has reached `at`.
pub open spec fn runs_from<T>(
    l: Seq<T>,
    r: Seq<T>,
    tags: Seq<Tag>,
    k: int,
    cur: Tag,
    start: (int, int),
    at: (int, int),
) -> Seq<DiffRes<Seq<T>>>
    decreases tags.len() - k,
{
    if k < 0 || k >= tags.len() {
        flush(l, r, cur, start)
    } else if tags[k] == cur {
        runs_from(l, r, tags, k + 1, cur, start, advance(at, cur))
    } else {
        let rest = runs_from(l, r, tags, k + 1, tags[k], at, advance(at, tags[k]));
        if blank(l, r, start, at) {
            rest
        } else {
            seq![run_between(cur, l, r, start, at)] + rest
        }
    }
}

/// The coalesced form of a classification `tags` over `l` and `r`: one
/// result per maximal run of equal tags, empty runs left out, and whatever
/// the classification did not reach flushed as a last run.
pub open spec fn coalesce_runs<T>(l: Seq<T>, r: Seq<T>, tags: Seq<Tag>) -> Seq<DiffRes<Seq<T>>> {
    runs_from(l, r, tags, 0, Tag::Both, (0, 0), (0, 0))
}

/// The views of a sequence of results.
pub open spec fn views<T: View>(s: Seq<DiffRes<T>>) -> Seq<DiffRes<T::V>> {
    s.map_values(|d: DiffRes<T>| d@)
}

/// The views of a sequence of boundaries.
pub open spec fn cuts_of(bounds: Seq<Boundary>) -> Seq<Cut> {
    bounds.map_values(|b: Boundary| b@)
}

/// The boundaries recorded from position `k` of `tags` on, when the tag
/// last read is `cur` and the cursors stand at `at`.
pub open spec fn cuts_from(tags: Seq<Tag>, k: int, cur: Tag, at: (int, int)) -> Seq<Cut>
    decreases tags.len() - k,
{
    if k < 0 || k >= tags.len() {
        seq![]
    } else if tags[k] == cur {
        cuts_from(tags, k + 1, cur, advance(at, cur))
    } else {
        seq![Cut { at, was: cur, now: tags[k] }] + cuts_from(tags, k + 1, tags[k], advance(at, tags[k]))
    }
}

/// The runs materialised from a list of boundaries, when the last run
/// emitted ended at `start` and `trailing` is the tag last changed to.
pub open spec fn runs_of_cuts<T>(
    l: Seq<T>,
    r: Seq<T>,
    cuts: Seq<Cut>,
    start: (int, int),
    trailing: Tag,
) -> Seq<DiffRes<Seq<T>>>
    decreases cuts.len(),
{
    if cuts.len() == 0 {
        flush(l, r, trailing, start)
    } else {
        let c = cuts[0];
        let rest = runs_of_cuts(l, r, cuts.drop_first(), c.at, c.now);
        if blank(l, r, start, c.at) {
            rest
        } else {
            seq![run_between(c.was, l, r, start, c.at)] + rest
        }
    }
}

/// Whether the cursors of `cuts` never go back, starting from `from`.
pub open spec fn ascending(cuts: Seq<Cut>, from: (int, int)) -> bool
    decreases cuts.len(),
{
    cuts.len() == 0 || (from.0 <= cuts[0].at.0 && from.1 <= cuts[0].at.1 && ascending(
        cuts.drop_first(),
        cuts[0].at,
    ))
}

/// Cursors that never go back from `from` on do not go back from an
/// earlier start either.
proof fn lemma_ascending_from_earlier(cuts: Seq<Cut>, from: (int, int), earlier: (int, int))
    requires
        ascending(cuts, from),
        earlier.0 <= from.0,
        earlier.1 <= from.1,
    ensures
        ascending(cuts, earlier),
{
}

/// The cursors of the boundaries of a classification never go back.
proof fn lemma_cuts_ascending(tags: Seq<Tag>, k: int, cur: Tag, at: (int, int))
    requires
        0 <= k <= tags.len(),
    ensures
        ascending(cuts_from(tags, k, cur, at), at),
    decreases tags.len() - k,
{
    if k < tags.len() {
        if tags[k] == cur {
            lemma_cuts_ascending(tags, k + 1, cur, advance(at, cur));
            lemma_ascending_from_earlier(cuts_from(tags, k + 1, cur, advance(at, cur)), advance(at, cur), at);
        } else {
            let next = advance(at, tags[k]);
            let rest = cuts_from(tags, k + 1, tags[k], next);
            lemma_cuts_ascending(tags, k + 1, tags[k], next);
            lemma_ascending_from_earlier(rest, next, at);
            let all = seq![Cut { at, was: cur, now: tags[k] }] + rest;
            assert(all.drop_first() =~= rest);
        }
    }
}

/// Materialising the recorded boundaries gives the coalesced runs.
proof fn lemma_cuts_give_runs<T>(
    l: Seq<T>,
    r: Seq<T>,
    tags: Seq<Tag>,
    k: int,
    cur: Tag,
    start: (int, int),
    at: (int, int),
)
    requires
        0 <= k <= tags.len(),
    ensures
        runs_of_cuts(l, r, cuts_from(tags, k, cur, at), start, cur) == runs_from(l, r, tags, k, cur, start, at),
    decreases tags.len() - k,
{
    if k < tags.len() {
        if tags[k] == cur {
            lemma_cuts_give_runs(l, r, tags, k + 1, cur, start, advance(at, cur));
        } else {
            let next = advance(at, tags[k]);
            let rest = cuts_from(tags, k + 1, tags[k], next);
            lemma_cuts_give_runs(l, r, tags, k + 1, tags[k], at, next);
            let all = seq![Cut { at, was: cur, now: tags[k] }] + rest;
            assert(all.drop_first() =~= rest);
        }
    }
}

/// Reads a classification once and records every change of tag, with the
/// number of elements of each side consumed before it. The tag before the
/// first element counts as `Both`.
pub fn boundaries(tags: &[Tag]) -> (out: Vec<Boundary>)
    ensures
        cuts_of(out@) == cuts_from(tags@, 0, Tag::Both, (0, 0)),
{
    let mut last = Tag::Both;
    let mut splits: Vec<Boundary> = Vec::new();
    let mut l_idx: usize = 0;
    let mut r_idx: usize = 0;
    let mut k: usize = 0;
    while k < tags.len()
        invariant
            0 <= k <= tags@.len(),
            l_idx <= k,
            r_idx <= k,
            cuts_of(splits@) + cuts_from(tags@, k as int, last, (l_idx as int, r_idx as int))
                == cuts_from(tags@, 0, Tag::Both, (0, 0)),
        decreases tags@.len() - k,
    {
        let val = tags[k];
        if val != last {
            let b = Boundary { left: l_idx, right: r_idx, was: last, now: val };
            splits.push(b);
            last = val;
        }
        match val {
            Tag::Left => {
                l_idx += 1;
            },
            Tag::Right => {
                r_idx += 1;
            },
            Tag::Both => {
                l_idx += 1;
                r_idx += 1;
            },
        }
        k += 1;
    }
    splits
}

/// Groups a classification of the elements of `l` and `r` into runs.
///
/// Consecutive elements with the same tag form one result, which borrows the
/// elements it covers from `l` and `r`. A run that covers nothing is left
/// out. Cursors that the classification drives past the end of a sequence
/// are held back to its length, and whatever it leaves unread is flushed as
/// one last result under the tag last changed to (`Both` if none was).
pub fn coalesce<'a, T>(l: &'a [T], r: &'a [T], tags: &[Tag]) -> (out: Vec<DiffRes<&'a [T]>>)
    ensures
        views(out@) == coalesce_runs(l@, r@, tags@),
{
    let splits = boundaries(tags);
    let ghost cuts = cuts_of(splits@);
    proof {
        lemma_cuts_ascending(tags@, 0, Tag::Both, (0, 0));
        lemma_cuts_give_runs(l@, r@, tags@, 0, Tag::Both, (0, 0), (0, 0));
        assert(cuts.subrange(0, cuts.len() as int) =~= cuts);
    }
    let mut last_l_idx: usize = 0;
    let mut last_r_idx: usize = 0;
    let mut diff: Vec<DiffRes<&'a [T]>> = Vec::new();
    let mut trailing = Tag::Both;
    let mut j: usize = 0;
    while j < splits.len()
        invariant
            0 <= j <= splits@.len(),
            cuts == cuts_of(splits@),
            ascending(cuts.subrange(j as int, cuts.len() as int), (last_l_idx as int, last_r_idx as int)),
            views(diff@) + runs_of_cuts(
                l@,
                r@,
                cuts.subrange(j as int, cuts.len() as int),
                (last_l_idx as int, last_r_idx as int),
                trailing,
            ) == coalesce_runs(l@, r@, tags@),
        decreases splits@.len() - j,
    {
        let b = splits[j];
        let ghost tail = cuts.subrange(j as int, cuts.len() as int);
        proof {
            assert(tail.drop_first() =~= cuts.subrange(j + 1, cuts.len() as int));
        }
        trailing = b.now;
        let l_lo = if last_l_idx < l.len() { last_l_idx } else { l.len() };
        let l_hi = if b.left < l.len() { b.left } else { l.len() };
        let r_lo = if last_r_idx < r.len() { last_r_idx } else { r.len() };
        let r_hi = if b.right < r.len() { b.right } else { r.len() };
        if l_lo == l_hi && r_lo == r_hi {
            last_l_idx = b.left;
            last_r_idx = b.right;
        } else {
            let left = &l[l_lo..l_hi];
            let right = &r[r_lo..r_hi];
            let res = match b.was {
                Tag::Left => DiffRes::Left(left),
                Tag::Right => DiffRes::Right(right),
                Tag::Both => DiffRes::Both(left, right),
            };
            diff.push(res);
            last_l_idx = b.left;
            last_r_idx = b.right;
        }
        j += 1;
    }
    if last_l_idx < l.len() || last_r_idx < r.len() {
        let l_lo = if last_l_idx < l.len() { last_l_idx } else { l.len() };
        let r_lo = if last_r_idx < r.len() { last_r_idx } else { r.len() };
        let left = &l[l_lo..l.len()];
        let right = &r[r_lo..r.len()];
        let res = match trailing {
            Tag::Left => DiffRes::Left(left),
            Tag::Right => DiffRes::Right(right),
            Tag::Both => DiffRes::Both(left, right),
        };
        diff.push(res);
    }
    diff
}

} // verus!
