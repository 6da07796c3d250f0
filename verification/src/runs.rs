//! What holds of coalesced runs when the classification takes every element
//! of both sequences exactly once.

use vstd::prelude::*;
use vstd::std_specs::cmp::PartialEqSpec;
use crate::DiffRes;
use crate::coalesce::{Tag, advance, blank, coalesce_runs, flush, run_between, runs_from, span};

verus! {

/// The cursors after the first `k` tags of a classification.
pub open spec fn consumed(tags: Seq<Tag>, k: int) -> (int, int)
    decreases k,
{
    if k <= 0 {
        (0, 0)
    } else {
        advance(consumed(tags, k - 1), tags[k - 1])
    }
}

/// Whether `tags` takes exactly `n` elements from the left and `m` from the
/// right: one tag for each element consumed.
pub open spec fn covers(tags: Seq<Tag>, n: int, m: int) -> bool {
    consumed(tags, tags.len() as int) == (n, m)
}

/// The tag under which a result stands.
pub open spec fn tag_of<T>(d: DiffRes<T>) -> Tag {
    match d {
        DiffRes::Left(_) => Tag::Left,
        DiffRes::Both(_, _) => Tag::Both,
        DiffRes::Right(_) => Tag::Right,
    }
}

/// What a result holds of the left sequence.
pub open spec fn left_part<T>(d: DiffRes<Seq<T>>) -> Seq<T> {
    match d {
        DiffRes::Left(l) => l,
        DiffRes::Both(l, _) => l,
        DiffRes::Right(_) => Seq::empty(),
    }
}

/// What a result holds of the right sequence.
pub open spec fn right_part<T>(d: DiffRes<Seq<T>>) -> Seq<T> {
    match d {
        DiffRes::Left(_) => Seq::empty(),
        DiffRes::Both(_, r) => r,
        DiffRes::Right(r) => r,
    }
}

/// The left parts of `runs`, joined in order.
pub open spec fn left_side<T>(runs: Seq<DiffRes<Seq<T>>>) -> Seq<T>
    decreases runs.len(),
{
    if runs.len() == 0 {
        Seq::empty()
    } else {
        left_part(runs[0]) + left_side(runs.drop_first())
    }
}

/// The right parts of `runs`, joined in order.
pub open spec fn right_side<T>(runs: Seq<DiffRes<Seq<T>>>) -> Seq<T>
    decreases runs.len(),
{
    if runs.len() == 0 {
        Seq::empty()
    } else {
        right_part(runs[0]) + right_side(runs.drop_first())
    }
}

/// Whether no two neighbours in `runs` stand under the same tag.
pub open spec fn alternating<T>(runs: Seq<DiffRes<T>>) -> bool {
    forall|i: int, j: int|
        0 <= i && j == i + 1 && j < runs.len() ==> tag_of(#[trigger] runs[i]) != tag_of(#[trigger] runs[j])
}

/// Whether a result covers at least one element, and as many on either side
/// if it stands under `Both`.
pub open spec fn solid<T>(d: DiffRes<Seq<T>>) -> bool {
    match d {
        DiffRes::Left(l) => l.len() > 0,
        DiffRes::Both(l, r) => l.len() > 0 && l.len() == r.len(),
        DiffRes::Right(r) => r.len() > 0,
    }
}

/// Whether the cursors `start` and `at` can be the two ends of a run of at
/// least one element tagged `cur`.
pub open spec fn open_run(cur: Tag, start: (int, int), at: (int, int)) -> bool {
    match cur {
        Tag::Left => start.0 < at.0 && start.1 == at.1,
        Tag::Right => start.0 == at.0 && start.1 < at.1,
        Tag::Both => start.0 < at.0 && at.0 - start.0 == at.1 - start.1,
    }
}

/// The cursors start at zero and never go back.
pub proof fn lemma_consumed_grows(tags: Seq<Tag>, i: int, j: int)
    requires
        0 <= i <= j,
    ensures
        0 <= consumed(tags, i).0 <= consumed(tags, j).0,
        0 <= consumed(tags, i).1 <= consumed(tags, j).1,
    decreases j,
{
    if i < j {
        lemma_consumed_grows(tags, i, j - 1);
    } else if 0 < i {
        lemma_consumed_grows(tags, i - 1, i - 1);
    }
}

/// The runs emitted from position `k` on hold what is left of both
/// sequences from `start` on, alternate in tag, and are not empty; the
/// first of them is the run being read, where that has begun.
proof fn lemma_runs_shape<T>(
    l: Seq<T>,
    r: Seq<T>,
    tags: Seq<Tag>,
    k: int,
    cur: Tag,
    start: (int, int),
    at: (int, int),
)
    requires
        covers(tags, l.len() as int, r.len() as int),
        0 <= k <= tags.len(),
        at == consumed(tags, k),
        0 <= start.0 <= at.0,
        0 <= start.1 <= at.1,
        start == at || open_run(cur, start, at),
    ensures
        ({
            let runs = runs_from(l, r, tags, k, cur, start, at);
            &&& left_side(runs) == l.subrange(start.0, l.len() as int)
            &&& right_side(runs) == r.subrange(start.1, r.len() as int)
            &&& alternating(runs)
            &&& forall|i: int| 0 <= i < runs.len() ==> solid(#[trigger] runs[i])
            &&& start != at ==> runs.len() > 0 && tag_of(runs[0]) == cur
        }),
    decreases tags.len() - k,
{
    let runs = runs_from(l, r, tags, k, cur, start, at);
    lemma_consumed_grows(tags, k, tags.len() as int);
    if k == tags.len() {
        if start != at {
            assert(left_side(runs.drop_first()) =~= Seq::empty());
            assert(right_side(runs.drop_first()) =~= Seq::empty());
        }
    } else if tags[k] == cur {
        lemma_runs_shape(l, r, tags, k + 1, cur, start, advance(at, cur));
    } else {
        let t = tags[k];
        let next = advance(at, t);
        let rest = runs_from(l, r, tags, k + 1, t, at, next);
        lemma_consumed_grows(tags, k + 1, tags.len() as int);
        lemma_runs_shape(l, r, tags, k + 1, t, at, next);
        if start != at {
            assert(runs.drop_first() =~= rest);
        }
    }
}

/// The number of classified elements that a result stands for: its
/// elements, a pair under `Both` counting once.
pub open spec fn weight<T>(d: DiffRes<Seq<T>>) -> nat {
    match d {
        DiffRes::Left(l) => l.len(),
        DiffRes::Both(l, _) => l.len(),
        DiffRes::Right(r) => r.len(),
    }
}

/// The tag `t`, `n` times.
pub open spec fn repeated(t: Tag, n: int) -> Seq<Tag> {
    Seq::new(if n < 0 { 0 } else { n as nat }, |i: int| t)
}

/// The classification that `runs` stands for: the tag of each result, as
/// many times as the result has elements.
pub open spec fn expanded<T>(runs: Seq<DiffRes<Seq<T>>>) -> Seq<Tag>
    decreases runs.len(),
{
    if runs.len() == 0 {
        Seq::empty()
    } else {
        repeated(tag_of(runs[0]), weight(runs[0]) as int) + expanded(runs.drop_first())
    }
}

/// The number of tags read into a run tagged `cur` between two cursor
/// pairs.
pub open spec fn tags_between(cur: Tag, start: (int, int), at: (int, int)) -> int {
    if cur == Tag::Right {
        at.1 - start.1
    } else {
        at.0 - start.0
    }
}

/// The runs emitted from position `k` on stand for the tags of the run
/// being read, followed by the tags from `k` on.
proof fn lemma_runs_spell<T>(
    l: Seq<T>,
    r: Seq<T>,
    tags: Seq<Tag>,
    k: int,
    cur: Tag,
    start: (int, int),
    at: (int, int),
)
    requires
        covers(tags, l.len() as int, r.len() as int),
        0 <= k <= tags.len(),
        at == consumed(tags, k),
        0 <= start.0 <= at.0,
        0 <= start.1 <= at.1,
        start == at || open_run(cur, start, at),
    ensures
        expanded(runs_from(l, r, tags, k, cur, start, at)) == repeated(cur, tags_between(cur, start, at))
            + tags.subrange(k, tags.len() as int),
    decreases tags.len() - k,
{
    let runs = runs_from(l, r, tags, k, cur, start, at);
    let so_far = repeated(cur, tags_between(cur, start, at));
    let to_come = tags.subrange(k, tags.len() as int);
    lemma_consumed_grows(tags, k, tags.len() as int);
    if k == tags.len() {
        if start != at {
            assert(expanded(runs.drop_first()) =~= Seq::empty());
        }
    } else if tags[k] == cur {
        let next = advance(at, cur);
        lemma_runs_spell(l, r, tags, k + 1, cur, start, next);
        assert(repeated(cur, tags_between(cur, start, next)) + tags.subrange(k + 1, tags.len() as int) =~= so_far
            + to_come);
    } else {
        let t = tags[k];
        let next = advance(at, t);
        let rest = runs_from(l, r, tags, k + 1, t, at, next);
        lemma_consumed_grows(tags, k + 1, tags.len() as int);
        lemma_runs_spell(l, r, tags, k + 1, t, at, next);
        if start != at {
            assert(runs.drop_first() =~= rest);
        }
    }
}

/// Coalescing loses nothing of the classification: the tags of the runs,
/// each as many times as its run has elements, spell the classification
/// out again. With the runs alternating in tag, each run is therefore a
/// maximal stretch of equal tags.
pub proof fn lemma_runs_spell_the_tags<T>(l: Seq<T>, r: Seq<T>, tags: Seq<Tag>)
    requires
        covers(tags, l.len() as int, r.len() as int),
    ensures
        expanded(coalesce_runs(l, r, tags)) == tags,
{
    lemma_runs_spell(l, r, tags, 0, Tag::Both, (0, 0), (0, 0));
}

/// Joining the left parts of the coalesced runs gives back the left
/// sequence, and joining the right parts gives back the right one: nothing
/// is skipped, repeated or moved.
pub proof fn lemma_reconstruction<T>(l: Seq<T>, r: Seq<T>, tags: Seq<Tag>)
    requires
        covers(tags, l.len() as int, r.len() as int),
    ensures
        left_side(coalesce_runs(l, r, tags)) == l,
        right_side(coalesce_runs(l, r, tags)) == r,
{
    lemma_runs_shape(l, r, tags, 0, Tag::Both, (0, 0), (0, 0));
}

/// No two neighbouring coalesced runs stand under the same tag, and every
/// run covers at least one element.
pub proof fn lemma_minimality<T>(l: Seq<T>, r: Seq<T>, tags: Seq<Tag>)
    requires
        covers(tags, l.len() as int, r.len() as int),
    ensures
        alternating(coalesce_runs(l, r, tags)),
        forall|i: int| 0 <= i < coalesce_runs(l, r, tags).len() ==> solid(#[trigger] coalesce_runs(l, r, tags)[i]),
{
    lemma_runs_shape(l, r, tags, 0, Tag::Both, (0, 0), (0, 0));
}

/// The cursors move on by at least one step with every tag.
pub proof fn lemma_consumed_steps(tags: Seq<Tag>, i: int, j: int)
    requires
        0 <= i <= j,
    ensures
        consumed(tags, i).0 + consumed(tags, i).1 + (j - i) <= consumed(tags, j).0 + consumed(tags, j).1,
    decreases j,
{
    if i < j {
        lemma_consumed_steps(tags, i, j - 1);
    }
}

/// After `k` tags that are all `Both`, both cursors stand at `k`.
pub proof fn lemma_consumed_by_both(tags: Seq<Tag>, k: int)
    requires
        0 <= k,
        forall|j: int| 0 <= j < k ==> tags[j] == Tag::Both,
    ensures
        consumed(tags, k) == (k, k),
    decreases k,
{
    if 0 < k {
        lemma_consumed_by_both(tags, k - 1);
    }
}

/// While every tag from `k` on repeats the tag of the run being read, no
/// boundary is met, and the run is flushed whole at the end.
proof fn lemma_constant_tail<T>(
    l: Seq<T>,
    r: Seq<T>,
    tags: Seq<Tag>,
    k: int,
    cur: Tag,
    start: (int, int),
    at: (int, int),
)
    requires
        0 <= k <= tags.len(),
        forall|j: int| k <= j < tags.len() ==> tags[j] == cur,
    ensures
        runs_from(l, r, tags, k, cur, start, at) == flush(l, r, cur, start),
    decreases tags.len() - k,
{
    if k < tags.len() {
        lemma_constant_tail(l, r, tags, k + 1, cur, start, advance(at, cur));
    }
}

/// A classification made of `Both` alone gives one result, which holds the
/// two sequences whole, unless both are empty.
pub proof fn lemma_all_both<T>(l: Seq<T>, r: Seq<T>, tags: Seq<Tag>)
    requires
        forall|j: int| 0 <= j < tags.len() ==> tags[j] == Tag::Both,
        l.len() > 0 || r.len() > 0,
    ensures
        coalesce_runs(l, r, tags) == seq![DiffRes::Both(l, r)],
{
    lemma_constant_tail(l, r, tags, 0, Tag::Both, (0, 0), (0, 0));
    assert(l.subrange(0, l.len() as int) =~= l);
    assert(r.subrange(0, r.len() as int) =~= r);
}

/// Nothing is emitted where both sequences are empty.
proof fn lemma_nothing_from_nothing<T>(
    l: Seq<T>,
    r: Seq<T>,
    tags: Seq<Tag>,
    k: int,
    cur: Tag,
    start: (int, int),
    at: (int, int),
)
    requires
        l.len() == 0,
        r.len() == 0,
        0 <= k <= tags.len(),
        0 <= start.0,
        0 <= start.1,
        0 <= at.0,
        0 <= at.1,
    ensures
        runs_from(l, r, tags, k, cur, start, at) == Seq::<DiffRes<Seq<T>>>::empty(),
    decreases tags.len() - k,
{
    if k < tags.len() {
        if tags[k] == cur {
            lemma_nothing_from_nothing(l, r, tags, k + 1, cur, start, advance(at, cur));
        } else {
            lemma_nothing_from_nothing(l, r, tags, k + 1, tags[k], at, advance(at, tags[k]));
        }
    }
}

/// Two empty sequences coalesce to no result at all, whatever the
/// classification says.
pub proof fn lemma_empty_inputs<T>(l: Seq<T>, r: Seq<T>, tags: Seq<Tag>)
    requires
        l.len() == 0,
        r.len() == 0,
    ensures
        coalesce_runs(l, r, tags) == Seq::<DiffRes<Seq<T>>>::empty(),
{
    lemma_nothing_from_nothing(l, r, tags, 0, Tag::Both, (0, 0), (0, 0));
}

/// A classification that takes nothing from the left is made of `Right`
/// alone, and one that takes nothing from the right of `Left` alone.
pub proof fn lemma_one_sided_tags(tags: Seq<Tag>, n: int, m: int)
    requires
        covers(tags, n, m),
    ensures
        n == 0 ==> forall|j: int| 0 <= j < tags.len() ==> tags[j] == Tag::Right,
        m == 0 ==> forall|j: int| 0 <= j < tags.len() ==> tags[j] == Tag::Left,
        n >= 0,
        m >= 0,
        n + m >= tags.len(),
{
    lemma_consumed_grows(tags, 0, tags.len() as int);
    lemma_consumed_steps(tags, 0, tags.len() as int);
    assert forall|j: int| 0 <= j < tags.len() implies (n == 0 ==> tags[j] == Tag::Right) && (m == 0 ==> tags[j]
        == Tag::Left) by {
        lemma_consumed_grows(tags, 0, j);
        lemma_consumed_grows(tags, j + 1, tags.len() as int);
    }
}

/// An empty left sequence against a right sequence that is not empty gives
/// the single result `Right`, which holds the right sequence whole.
pub proof fn lemma_left_empty<T>(l: Seq<T>, r: Seq<T>, tags: Seq<Tag>)
    requires
        covers(tags, l.len() as int, r.len() as int),
        l.len() == 0,
        r.len() > 0,
    ensures
        coalesce_runs(l, r, tags) == seq![DiffRes::<Seq<T>>::Right(r)],
{
    lemma_one_sided_tags(tags, 0, r.len() as int);
    lemma_constant_tail(l, r, tags, 1, Tag::Right, (0, 0), (0, 1));
    assert(r.subrange(0, r.len() as int) =~= r);
}

/// An empty right sequence against a left sequence that is not empty gives
/// the single result `Left`, which holds the left sequence whole.
pub proof fn lemma_right_empty<T>(l: Seq<T>, r: Seq<T>, tags: Seq<Tag>)
    requires
        covers(tags, l.len() as int, r.len() as int),
        l.len() > 0,
        r.len() == 0,
    ensures
        coalesce_runs(l, r, tags) == seq![DiffRes::<Seq<T>>::Left(l)],
{
    lemma_one_sided_tags(tags, l.len() as int, 0);
    lemma_constant_tail(l, r, tags, 1, Tag::Left, (0, 0), (1, 0));
    assert(l.subrange(0, l.len() as int) =~= l);
}

/// A tag that neither the run being read nor any tag from position `k` on
/// uses stands over none of the runs emitted from there on.
proof fn lemma_tags_carry_over<T>(
    l: Seq<T>,
    r: Seq<T>,
    tags: Seq<Tag>,
    k: int,
    cur: Tag,
    start: (int, int),
    at: (int, int),
    absent: Tag,
)
    requires
        covers(tags, l.len() as int, r.len() as int),
        0 <= k <= tags.len(),
        at == consumed(tags, k),
        0 <= start.0 <= at.0,
        0 <= start.1 <= at.1,
        forall|j: int| k <= j < tags.len() ==> tags[j] != absent,
        start == at || cur != absent,
    ensures
        forall|i: int|
            0 <= i < runs_from(l, r, tags, k, cur, start, at).len() ==> tag_of(
                #[trigger] runs_from(l, r, tags, k, cur, start, at)[i],
            ) != absent,
    decreases tags.len() - k,
{
    lemma_consumed_grows(tags, k, tags.len() as int);
    if k < tags.len() {
        if tags[k] == cur {
            lemma_tags_carry_over(l, r, tags, k + 1, cur, start, advance(at, cur), absent);
        } else {
            lemma_consumed_grows(tags, k + 1, tags.len() as int);
            lemma_tags_carry_over(l, r, tags, k + 1, tags[k], at, advance(at, tags[k]), absent);
        }
    }
}

/// A tag that the classification never uses stands over none of the
/// coalesced runs.
pub proof fn lemma_unused_tag<T>(l: Seq<T>, r: Seq<T>, tags: Seq<Tag>, absent: Tag)
    requires
        covers(tags, l.len() as int, r.len() as int),
        forall|j: int| 0 <= j < tags.len() ==> tags[j] != absent,
    ensures
        forall|i: int|
            0 <= i < coalesce_runs(l, r, tags).len() ==> tag_of(#[trigger] coalesce_runs(l, r, tags)[i]) != absent,
{
    lemma_tags_carry_over(l, r, tags, 0, Tag::Both, (0, 0), (0, 0), absent);
}

/// Whether every element that `tags` marks `Both` compares equal to the
/// element of the other side that it is paired with.
pub open spec fn paired<T: PartialEq>(tags: Seq<Tag>, l: Seq<T>, r: Seq<T>) -> bool {
    forall|k: int|
        0 <= k < tags.len() && #[trigger] tags[k] == Tag::Both ==> l[consumed(tags, k).0].eq_spec(
            &r[consumed(tags, k).1],
        )
}

/// The number of `Both` among the first `k` tags: the number of pairs that
/// they make.
pub open spec fn both_count(tags: Seq<Tag>, k: int) -> int
    decreases k,
{
    if k <= 0 {
        0
    } else if tags[k - 1] == Tag::Both {
        both_count(tags, k - 1) + 1
    } else {
        both_count(tags, k - 1)
    }
}

/// Whether `tags` aligns `l` with `r` and pairs only elements that compare
/// equal.
pub open spec fn pairs_up<T: PartialEq>(tags: Seq<Tag>, l: Seq<T>, r: Seq<T>) -> bool {
    covers(tags, l.len() as int, r.len() as int) && paired(tags, l, r)
}

/// Every tag moves the two cursors on by one step together, and a `Both`
/// by one more; no more tags are `Both` than either cursor has moved.
pub proof fn lemma_count_pairs(tags: Seq<Tag>, k: int)
    requires
        0 <= k,
    ensures
        consumed(tags, k).0 + consumed(tags, k).1 == k + both_count(tags, k),
        0 <= both_count(tags, k) <= consumed(tags, k).0,
        both_count(tags, k) <= consumed(tags, k).1,
        both_count(tags, k) <= k,
    decreases k,
{
    if 0 < k {
        lemma_count_pairs(tags, k - 1);
    }
}

/// Where every one of the first `k` tags counts as a pair, each of them is
/// `Both`.
pub proof fn lemma_all_pairs(tags: Seq<Tag>, k: int)
    requires
        0 <= k,
        both_count(tags, k) == k,
    ensures
        forall|j: int| 0 <= j < k ==> tags[j] == Tag::Both,
    decreases k,
{
    if 0 < k {
        lemma_count_pairs(tags, k - 1);
        lemma_all_pairs(tags, k - 1);
    }
}

/// `k` tags that are all `Both` make `k` pairs.
pub proof fn lemma_pairs_of_both(tags: Seq<Tag>, k: int)
    requires
        0 <= k,
        forall|j: int| 0 <= j < k ==> tags[j] == Tag::Both,
    ensures
        both_count(tags, k) == k,
    decreases k,
{
    if 0 < k {
        lemma_pairs_of_both(tags, k - 1);
    }
}

/// The number of pairs that `runs` holds: the elements of one side of its
/// results under `Both`.
pub open spec fn pairs_in<T>(runs: Seq<DiffRes<Seq<T>>>) -> int
    decreases runs.len(),
{
    if runs.len() == 0 {
        0
    } else if tag_of(runs[0]) == Tag::Both {
        weight(runs[0]) + pairs_in(runs.drop_first())
    } else {
        pairs_in(runs.drop_first())
    }
}

/// The pairs of two classifications, one after the other, add up.
proof fn lemma_count_pairs_joined(a: Seq<Tag>, b: Seq<Tag>, k: int)
    requires
        0 <= k <= b.len(),
    ensures
        both_count(a + b, a.len() + k) == both_count(a, a.len() as int) + both_count(b, k),
    decreases k,
{
    if 0 < k {
        lemma_count_pairs_joined(a, b, k - 1);
        assert((a + b)[a.len() + k - 1] == b[k - 1]);
    } else {
        lemma_count_pairs_prefix(a, a + b, a.len() as int);
    }
}

/// Two classifications that agree on their first `k` tags make the same
/// pairs there.
proof fn lemma_count_pairs_prefix(a: Seq<Tag>, b: Seq<Tag>, k: int)
    requires
        0 <= k <= a.len(),
        k <= b.len(),
        forall|j: int| 0 <= j < k ==> a[j] == b[j],
    ensures
        both_count(a, k) == both_count(b, k),
    decreases k,
{
    if 0 < k {
        lemma_count_pairs_prefix(a, b, k - 1);
    }
}

/// The runs hold as many pairs as the classification that they stand for.
proof fn lemma_pairs_in_runs<T>(runs: Seq<DiffRes<Seq<T>>>)
    ensures
        pairs_in(runs) == both_count(expanded(runs), expanded(runs).len() as int),
    decreases runs.len(),
{
    if runs.len() > 0 {
        let head = repeated(tag_of(runs[0]), weight(runs[0]) as int);
        let tail = expanded(runs.drop_first());
        lemma_pairs_in_runs(runs.drop_first());
        lemma_count_pairs_joined(head, tail, tail.len() as int);
        if tag_of(runs[0]) == Tag::Both {
            lemma_pairs_of_both(head, head.len() as int);
        } else {
            lemma_no_pairs(head, head.len() as int);
        }
    }
}

/// Tags none of which is `Both` make no pair.
proof fn lemma_no_pairs(tags: Seq<Tag>, k: int)
    requires
        0 <= k <= tags.len(),
        forall|j: int| 0 <= j < k ==> tags[j] != Tag::Both,
    ensures
        both_count(tags, k) == 0,
    decreases k,
{
    if 0 < k {
        lemma_no_pairs(tags, k - 1);
    }
}

/// The coalesced runs hold as many pairs as the classification makes.
pub proof fn lemma_runs_keep_the_pairs<T>(l: Seq<T>, r: Seq<T>, tags: Seq<Tag>)
    requires
        covers(tags, l.len() as int, r.len() as int),
    ensures
        pairs_in(coalesce_runs(l, r, tags)) == both_count(tags, tags.len() as int),
{
    lemma_runs_spell_the_tags(l, r, tags);
    lemma_pairs_in_runs(coalesce_runs(l, r, tags));
}

/// Whether the two sides of a result under `Both` have the same length and
/// compare equal element by element.
pub open spec fn agreeing<T: PartialEq>(d: DiffRes<Seq<T>>) -> bool {
    match d {
        DiffRes::Both(a, b) => a.len() == b.len() && forall|i: int|
            0 <= i < a.len() ==> (#[trigger] a[i]).eq_spec(&b[i]),
        _ => true,
    }
}

/// Where the run being read has paired equal elements so far, every run
/// emitted from position `k` on under `Both` pairs equal elements.
proof fn lemma_pairs_carry_over<T: PartialEq>(
    l: Seq<T>,
    r: Seq<T>,
    tags: Seq<Tag>,
    k: int,
    cur: Tag,
    start: (int, int),
    at: (int, int),
)
    requires
        covers(tags, l.len() as int, r.len() as int),
        paired(tags, l, r),
        0 <= k <= tags.len(),
        at == consumed(tags, k),
        0 <= start.0 <= at.0,
        0 <= start.1 <= at.1,
        cur == Tag::Both ==> at.0 - start.0 == at.1 - start.1 && forall|d: int|
            0 <= d < at.0 - start.0 ==> (#[trigger] l[start.0 + d]).eq_spec(&r[start.1 + d]),
    ensures
        forall|i: int|
            0 <= i < runs_from(l, r, tags, k, cur, start, at).len() ==> agreeing(
                #[trigger] runs_from(l, r, tags, k, cur, start, at)[i],
            ),
    decreases tags.len() - k,
{
    let runs = runs_from(l, r, tags, k, cur, start, at);
    lemma_consumed_grows(tags, k, tags.len() as int);
    if k == tags.len() {
        if start.0 < l.len() || start.1 < r.len() {
            if cur == Tag::Both {
                let a = span(l, start.0, at.0);
                let b = span(r, start.1, at.1);
                assert forall|i: int| 0 <= i < a.len() implies (#[trigger] a[i]).eq_spec(&b[i]) by {
                    assert(a[i] == l[start.0 + i]);
                }
            }
        }
    } else if tags[k] == cur {
        let next = advance(at, cur);
        lemma_pairs_carry_over(l, r, tags, k + 1, cur, start, next);
        assert(runs == runs_from(l, r, tags, k + 1, cur, start, next));
    } else {
        let t = tags[k];
        let next = advance(at, t);
        let rest = runs_from(l, r, tags, k + 1, t, at, next);
        lemma_consumed_grows(tags, k + 1, tags.len() as int);
        lemma_pairs_carry_over(l, r, tags, k + 1, t, at, next);
        if !blank(l, r, start, at) {
            assert(runs == seq![run_between(cur, l, r, start, at)] + rest);
            if cur == Tag::Both {
                let a = span(l, start.0, at.0);
                let b = span(r, start.1, at.1);
                assert forall|i: int| 0 <= i < a.len() implies (#[trigger] a[i]).eq_spec(&b[i]) by {
                    assert(a[i] == l[start.0 + i]);
                }
            }
        }
    }
}

/// Where the classification pairs only elements that compare equal, the two
/// sides of every coalesced run under `Both` compare equal element by
/// element.
pub proof fn lemma_both_runs_agree<T: PartialEq>(l: Seq<T>, r: Seq<T>, tags: Seq<Tag>)
    requires
        covers(tags, l.len() as int, r.len() as int),
        paired(tags, l, r),
    ensures
        forall|i: int|
            0 <= i < coalesce_runs(l, r, tags).len() ==> agreeing(#[trigger] coalesce_runs(l, r, tags)[i]),
{
    lemma_pairs_carry_over(l, r, tags, 0, Tag::Both, (0, 0), (0, 0));
}

} // verus!
