use hdiff::algo;
use hdiff::coalesce::{coalesce, Tag};
use hdiff::{DiffRes, Diffable};

#[test]
fn test_slice() {
    let a = [1, 2, 3, 4, 5, 6, 7, 8];
    let b = [1, 3, 4, 5, 2, 6, 7];
    let d = a.diff::<algo::Default>(&b);

    assert_eq!(
        d,
        vec![
            DiffRes::Both(&[1] as &[_], &[1]),
            DiffRes::Left(&[2]),
            DiffRes::Both(&[3, 4, 5], &[3, 4, 5]),
            DiffRes::Right(&[2]),
            DiffRes::Both(&[6, 7], &[6, 7]),
            DiffRes::Left(&[8]),
        ],
    );

    let a = [1, 2, 3, 4, 5];
    let b = [0, 1, 2, 3, 4, 5, 6, 7, 8];
    let d = a.diff::<algo::Default>(&b);
    assert_eq!(
        d,
        vec![
            DiffRes::Right(&[0] as &[_]),
            DiffRes::Both(&[1, 2, 3, 4, 5], &[1, 2, 3, 4, 5]),
            DiffRes::Right(&[6, 7, 8]),
        ],
    );
}

#[test]
fn coalesce_groups_equal_tags() {
    let l = [10u8, 20, 30];
    let r = [10u8, 25, 30];
    let tags = [Tag::Both, Tag::Left, Tag::Right, Tag::Both];
    let d = coalesce(&l, &r, &tags);
    assert_eq!(
        d,
        vec![
            DiffRes::Both(&[10u8] as &[_], &[10u8] as &[_]),
            DiffRes::Left(&[20u8]),
            DiffRes::Right(&[25u8]),
            DiffRes::Both(&[30u8], &[30u8]),
        ],
    );
}

fn left_parts<'a, T>(d: &[DiffRes<&'a [T]>]) -> Vec<&'a T> {
    let mut out = Vec::new();
    for res in d {
        match res {
            DiffRes::Left(l) | DiffRes::Both(l, _) => out.extend(l.iter()),
            DiffRes::Right(_) => {}
        }
    }
    out
}

fn right_parts<'a, T>(d: &[DiffRes<&'a [T]>]) -> Vec<&'a T> {
    let mut out = Vec::new();
    for res in d {
        match res {
            DiffRes::Right(r) | DiffRes::Both(_, r) => out.extend(r.iter()),
            DiffRes::Left(_) => {}
        }
    }
    out
}

fn kind<T>(res: &DiffRes<T>) -> u8 {
    match res {
        DiffRes::Left(_) => 0,
        DiffRes::Both(_, _) => 1,
        DiffRes::Right(_) => 2,
    }
}

#[test]
fn diff_rebuilds_both_inputs() {
    let a = [3u8, 1, 4, 1, 5, 9, 2, 6, 5, 3, 5];
    let b = [2u8, 7, 1, 8, 2, 8, 1, 8, 2, 8, 4, 5, 9];
    let d = hdiff::diff(&a[..], &b[..]);
    assert_eq!(left_parts(&d), a.iter().collect::<Vec<_>>());
    assert_eq!(right_parts(&d), b.iter().collect::<Vec<_>>());
}

#[test]
fn diff_never_repeats_a_tag() {
    let a = [3u8, 1, 4, 1, 5, 9, 2, 6, 5, 3, 5];
    let b = [2u8, 7, 1, 8, 2, 8, 1, 8, 2, 8, 4, 5, 9];
    let d = a.diff::<algo::Default>(&b);
    assert!(d.len() > 1);
    for pair in d.windows(2) {
        assert_ne!(kind(&pair[0]), kind(&pair[1]));
    }
    for res in &d {
        match res {
            DiffRes::Left(l) => assert!(!l.is_empty()),
            DiffRes::Right(r) => assert!(!r.is_empty()),
            DiffRes::Both(l, r) => {
                assert!(!l.is_empty());
                assert_eq!(l, r);
            }
        }
    }
}

#[test]
fn diff_of_a_slice_with_itself_is_one_both() {
    let a = [5, 6, 7];
    assert_eq!(a.diff::<algo::Default>(&a), vec![DiffRes::Both(&a[..], &a[..])]);
}

#[test]
fn diff_of_disjoint_slices_has_no_both() {
    let a = [1, 2];
    let b = [3, 4, 5];
    let d = a.diff::<algo::Default>(&b);
    assert_eq!(d, vec![DiffRes::Left(&a[..]), DiffRes::Right(&b[..])]);
}

#[test]
fn diff_with_an_empty_slice() {
    let none: [u8; 0] = [];
    let some = [1u8, 2];
    assert_eq!(none.diff::<algo::Default>(&none), Vec::new());
    assert_eq!(none.diff::<algo::Default>(&some), vec![DiffRes::Right(&some[..])]);
    assert_eq!(some.diff::<algo::Default>(&none), vec![DiffRes::Left(&some[..])]);
}

#[test]
fn boundaries_are_recorded_at_each_change() {
    let tags = [Tag::Left, Tag::Left, Tag::Both, Tag::Right];
    let b = hdiff::coalesce::boundaries(&tags);
    let seen: Vec<(usize, usize, Tag, Tag)> = b.iter().map(|b| (b.left, b.right, b.was, b.now)).collect();
    assert_eq!(
        seen,
        vec![
            (0, 0, Tag::Both, Tag::Left),
            (2, 0, Tag::Left, Tag::Both),
            (3, 1, Tag::Both, Tag::Right),
        ],
    );
    assert!(hdiff::coalesce::boundaries(&[Tag::Both, Tag::Both]).is_empty());
}

#[test]
fn coalesce_holds_cursors_back_to_the_lengths() {
    let l = [1u8];
    let r: [u8; 0] = [];
    let d = coalesce(&l, &r, &[Tag::Left, Tag::Left, Tag::Right]);
    assert_eq!(d, vec![DiffRes::Left(&l[..])]);
    let d = coalesce(&r, &r, &[Tag::Both, Tag::Left, Tag::Right, Tag::Both]);
    assert_eq!(d, Vec::new());
}

#[test]
fn coalesce_flushes_what_the_tags_leave_unread() {
    let l = [1u8, 2];
    let r = [3u8];
    assert_eq!(coalesce(&l, &r, &[]), vec![DiffRes::Both(&l[..], &r[..])]);
    assert_eq!(
        coalesce(&l, &r, &[Tag::Left, Tag::Right]),
        vec![DiffRes::Left(&l[..1]), DiffRes::Right(&r[..])],
    );
    assert_eq!(
        coalesce(&l, &r, &[Tag::Right, Tag::Both]),
        vec![DiffRes::Right(&r[..]), DiffRes::Both(&l[..], &r[1..])],
    );
}

fn longest_common(a: &[u8], b: &[u8]) -> usize {
    let mut table = vec![vec![0usize; b.len() + 1]; a.len() + 1];
    for i in 0..a.len() {
        for j in 0..b.len() {
            table[i + 1][j + 1] = if a[i] == b[j] {
                table[i][j] + 1
            } else {
                table[i][j + 1].max(table[i + 1][j])
            };
        }
    }
    table[a.len()][b.len()]
}

#[test]
fn diff_pairs_as_many_elements_as_can_be() {
    let cases: [(&[u8], &[u8]); 5] = [
        (&[1, 2, 3, 4, 5, 6, 7, 8], &[1, 3, 4, 5, 2, 6, 7]),
        (&[3, 1, 4, 1, 5, 9, 2, 6, 5, 3, 5], &[2, 7, 1, 8, 2, 8, 1, 8, 2, 8, 4, 5, 9]),
        (&[1, 1, 1], &[1, 1]),
        (&[1, 2, 1, 2], &[2, 1, 2, 1]),
        (&[], &[4]),
    ];
    for (a, b) in cases {
        let d = a.diff::<algo::Default>(b);
        let mut pairs = 0;
        for res in &d {
            if let DiffRes::Both(l, _) = res {
                pairs += l.len();
            }
        }
        assert_eq!(pairs, longest_common(a, b));
    }
}

#[test]
fn coalesce_follows_a_classification_that_does_not_fit() {
    let l = [1u8, 2];
    let r = [3u8];
    let none: [u8; 0] = [];
    assert_eq!(coalesce(&l, &r, &[Tag::Left]), vec![DiffRes::Left(&l[..])]);
    assert_eq!(
        coalesce(&l, &none, &[Tag::Left, Tag::Right, Tag::Left]),
        vec![DiffRes::Left(&l[..1]), DiffRes::Left(&l[1..])],
    );
}
