use hdiff::builtin::LcsDiff;
use hdiff::{DiffRes, Diffable};
use std::collections::HashSet;

#[test]
fn set_diff_covers_every_element_once() {
    let l: HashSet<u32> = [1, 2, 3, 4].into_iter().collect();
    let r: HashSet<u32> = [3, 4, 5].into_iter().collect();
    let d = l.diff::<LcsDiff>(&r);
    assert_eq!(d.len(), 5);
    for x in [1u32, 2] {
        assert!(d.contains(&DiffRes::Left(&x)));
    }
    for x in [3u32, 4] {
        assert!(d.contains(&DiffRes::Both(&x, &x)));
    }
    assert!(d.contains(&DiffRes::Right(&5)));
}

#[test]
fn set_diff_of_empty_sets_is_empty() {
    let l: HashSet<u32> = HashSet::new();
    let r: HashSet<u32> = HashSet::new();
    assert!(l.diff::<LcsDiff>(&r).is_empty());
    let one: HashSet<u32> = [7].into_iter().collect();
    assert_eq!(l.diff::<LcsDiff>(&one), vec![DiffRes::Right(&7)]);
    assert_eq!(one.diff::<LcsDiff>(&l), vec![DiffRes::Left(&7)]);
}
