use hdiff::algo;
use hdiff::builtin::LcsDiff;
use hdiff::fmt::{fmt_bytes, fmt_listings, fmt_slice, fmt_string, Listing};
use hdiff::coalesce::Tag;
use hdiff::{diff, DiffRes, Diffable};

#[test]
fn lines_are_diffed_one_by_one() {
    let a = "one\ntwo\nthree";
    let b = "one\n2\nthree";
    let d = a.diff::<LcsDiff>(b);
    assert_eq!(
        d,
        vec![
            DiffRes::Both("one", "one"),
            DiffRes::Left("two"),
            DiffRes::Right("2"),
            DiffRes::Both("three", "three"),
        ],
    );
}

#[test]
fn default_text_diff_is_the_line_diff() {
    let a = "x\ny\n";
    let b = "x\n";
    assert_eq!(diff(a, b), a.diff::<LcsDiff>(b));
    assert_eq!(a.diff::<algo::Default>(b), a.diff::<LcsDiff>(b));
    assert_eq!(
        diff(a, b),
        vec![DiffRes::Both("x", "x"), DiffRes::Left("y"), DiffRes::Both("", "")],
    );
}

#[test]
fn fmt_string_prefixes_each_line() {
    let d = vec![
        DiffRes::Both("one", "one"),
        DiffRes::Left("two"),
        DiffRes::Right("2"),
    ];
    assert_eq!(fmt_string(d), " one\n-two\n+2\n");
    assert_eq!(fmt_string(Vec::new()), "");
}

#[test]
fn fmt_bytes_writes_upper_case_hex() {
    let d = vec![
        DiffRes::Both(&[0x00u8, 0x0f] as &[u8], &[0x00u8, 0x0f] as &[u8]),
        DiffRes::Left(&[0xab]),
        DiffRes::Right(&[0xff, 0x10, 0x9a]),
    ];
    assert_eq!(fmt_bytes(d), " 00 0F\n-AB\n+\nFF 10 9A\n");
}

#[test]
fn fmt_slice_writes_debug_forms() {
    let d = vec![
        DiffRes::Both(&[1, 2] as &[i32], &[1, 2] as &[i32]),
        DiffRes::Left(&[-3]),
        DiffRes::Right(&[4, 5]),
    ];
    assert_eq!(fmt_slice(d), Some(String::from(" 1 2\n--3\n+\n4 5\n")));
    let words = vec![DiffRes::Left(&["a b", "c"] as &[&str])];
    assert_eq!(fmt_slice(words), Some(String::from("-\"a b\" \"c\"\n")));
    let nothing: Vec<DiffRes<&[u8]>> = Vec::new();
    assert_eq!(fmt_slice(nothing), Some(String::new()));
}

#[test]
fn fmt_listings_joins_with_spaces() {
    let entries = vec![
        Listing { tag: Tag::Left, items: vec![String::from("a")] },
        Listing { tag: Tag::Both, items: Vec::new() },
        Listing { tag: Tag::Right, items: vec![String::from("b"), String::from("c")] },
    ];
    assert_eq!(fmt_listings(&entries), "-a\n \n+\nb c\n");
}

struct Unprintable;

impl std::fmt::Debug for Unprintable {
    fn fmt(&self, _: &mut std::fmt::Formatter<'_>) -> std::fmt::Result {
        Err(std::fmt::Error)
    }
}

#[test]
fn fmt_slice_gives_up_where_debug_fails() {
    let items = [Unprintable];
    assert_eq!(fmt_slice(vec![DiffRes::Left(&items[..])]), None);
    assert_eq!(fmt_slice(vec![DiffRes::Left(&items[..0])]), Some(String::from("-\n")));
}

#[test]
fn fmt_string_shows_the_left_side_of_both() {
    let d = vec![DiffRes::Both("left", "right")];
    assert_eq!(fmt_string(d), " left\n");
    let slices = vec![DiffRes::Both(&[1u8] as &[u8], &[2u8] as &[u8])];
    assert_eq!(fmt_bytes(slices), " 01\n");
}
