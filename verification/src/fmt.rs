//! Differences laid out as text.

use vstd::prelude::*;
use std::fmt::{Debug, Write};
use crate::DiffRes;
use crate::coalesce::{Tag, views};
use crate::runs::tag_of;

verus! {

/// The character that opens the line of a result under `tag`.
pub open spec fn marker(tag: Tag) -> char {
    match tag {
        Tag::Left => '-',
        Tag::Both => ' ',
        Tag::Right => '+',
    }
}

/// What a result shows when it is laid out: the left side, unless it stands
/// under `Right`.
pub open spec fn shown<T>(d: DiffRes<T>) -> T {
    match d {
        DiffRes::Left(l) => l,
        DiffRes::Both(l, _) => l,
        DiffRes::Right(r) => r,
    }
}

/// The line that stands for one result of a text difference: its marker,
/// the text it shows, and a line feed.
pub open spec fn line_text(d: DiffRes<Seq<char>>) -> Seq<char> {
    seq![marker(tag_of(d))] + shown(d) + seq!['\n']
}

/// The lines of a text difference, one after the other.
pub open spec fn text_of_lines(diff: Seq<DiffRes<Seq<char>>>) -> Seq<char>
    decreases diff.len(),
{
    if diff.len() == 0 {
        Seq::empty()
    } else {
        text_of_lines(diff.drop_last()) + line_text(diff.last())
    }
}

/// Lays a text difference out line by line: `-` before what only the left
/// text holds, a space before what both hold, `+` before what only the right
/// text holds.
pub fn fmt_string(diff: Vec<DiffRes<&str>>) -> (out: String)
    ensures
        out@ == text_of_lines(views(diff@)),
{
    let mut out = String::new();
    let mut i: usize = 0;
    while i < diff.len()
        invariant
            0 <= i <= diff@.len(),
            out@ == text_of_lines(views(diff@).take(i as int)),
        decreases diff@.len() - i,
    {
        proof {
            reveal_strlit("-");
            reveal_strlit(" ");
            reveal_strlit("+");
            reveal_strlit("\n");
            assert(views(diff@).take(i + 1).drop_last() =~= views(diff@).take(i as int));
        }
        match &diff[i] {
            DiffRes::Left(l) => {
                out.append("-");
                out.append(l);
            },
            DiffRes::Both(l, _) => {
                out.append(" ");
                out.append(l);
            },
            DiffRes::Right(r) => {
                out.append("+");
                out.append(r);
            },
        }
        out.append("\n");
        i += 1;
    }
    proof {
        assert(views(diff@).take(diff@.len() as int) =~= views(diff@));
    }
    out
}

/// One result of a difference with its elements already turned into text.
pub struct Listing {
    pub tag: Tag,
    pub items: Vec<String>,
}

impl View for Listing {
    type V = (Tag, Seq<Seq<char>>);

    open spec fn view(&self) -> (Tag, Seq<Seq<char>>) {
        (self.tag, self.items@.map_values(|s: String| s@))
    }
}

/// The texts of `items` with one space between neighbours.
pub open spec fn joined(items: Seq<Seq<char>>) -> Seq<char>
    decreases items.len(),
{
    if items.len() == 0 {
        Seq::empty()
    } else if items.len() == 1 {
        items[0]
    } else {
        joined(items.drop_last()) + seq![' '] + items.last()
    }
}

/// The text that stands for one listing: its marker, the items with spaces
/// between them, and a line feed. Under `Right` the marker has a line of its
/// own, and the items follow on the next.
pub open spec fn listing_text(e: (Tag, Seq<Seq<char>>)) -> Seq<char> {
    let opening = if e.0 == Tag::Right {
        seq![marker(e.0), '\n']
    } else {
        seq![marker(e.0)]
    };
    opening + joined(e.1) + seq!['\n']
}

/// The texts of a sequence of listings, one after the other.
pub open spec fn text_of_listings(entries: Seq<(Tag, Seq<Seq<char>>)>) -> Seq<char>
    decreases entries.len(),
{
    if entries.len() == 0 {
        Seq::empty()
    } else {
        text_of_listings(entries.drop_last()) + listing_text(entries.last())
    }
}

/// The views of a sequence of listings.
pub open spec fn listing_views(entries: Seq<Listing>) -> Seq<(Tag, Seq<Seq<char>>)> {
    entries.map_values(|e: Listing| e@)
}

/// The texts of `items` with one space between neighbours.
fn join_items(items: &Vec<String>) -> (out: String)
    ensures
        out@ == joined(items@.map_values(|s: String| s@)),
{
    let ghost texts = items@.map_values(|s: String| s@);
    let mut out = String::new();
    let mut i: usize = 0;
    while i < items.len()
        invariant
            0 <= i <= items@.len(),
            texts == items@.map_values(|s: String| s@),
            out@ == joined(texts.take(i as int)),
        decreases items@.len() - i,
    {
        proof {
            reveal_strlit(" ");
            assert(texts.take(i + 1).drop_last() =~= texts.take(i as int));
        }
        if i != 0 {
            out.append(" ");
        }
        out.append(items[i].as_str());
        i += 1;
    }
    proof {
        assert(texts.take(items@.len() as int) =~= texts);
    }
    out
}

/// Lays out results whose elements are already text: one line for each,
/// opened by `-`, a space or `+`, with the elements separated by spaces.
/// Under `Right` the line breaks after the `+`.
pub fn fmt_listings(entries: &Vec<Listing>) -> (out: String)
    ensures
        out@ == text_of_listings(listing_views(entries@)),
{
    let ghost all = listing_views(entries@);
    let mut out = String::new();
    let mut i: usize = 0;
    while i < entries.len()
        invariant
            0 <= i <= entries@.len(),
            all == listing_views(entries@),
            out@ == text_of_listings(all.take(i as int)),
        decreases entries@.len() - i,
    {
        proof {
            reveal_strlit("-");
            reveal_strlit(" ");
            reveal_strlit("+");
            reveal_strlit("\n");
            assert(all.take(i + 1).drop_last() =~= all.take(i as int));
        }
        let entry = &entries[i];
        match entry.tag {
            Tag::Left => {
                out.append("-");
            },
            Tag::Both => {
                out.append(" ");
            },
            Tag::Right => {
                out.append("+");
                out.append("\n");
            },
        }
        let line = join_items(&entry.items);
        out.append(line.as_str());
        out.append("\n");
        i += 1;
    }
    proof {
        assert(all.take(entries@.len() as int) =~= all);
    }
    out
}

/// The character for a value below sixteen, in upper case.
pub open spec fn hex_char(n: int) -> char {
    seq!['0', '1', '2', '3', '4', '5', '6', '7', '8', '9', 'A', 'B', 'C', 'D', 'E', 'F'][n]
}

/// A byte as two hexadecimal digits in upper case.
pub open spec fn hex_text(b: u8) -> Seq<char> {
    seq![hex_char(b as int / 16), hex_char(b as int % 16)]
}

/// A difference of byte slices as listings, each byte as two digits.
pub open spec fn hex_listings(diff: Seq<DiffRes<Seq<u8>>>) -> Seq<(Tag, Seq<Seq<char>>)> {
    diff.map_values(|d: DiffRes<Seq<u8>>| (tag_of(d), shown(d).map_values(|b: u8| hex_text(b))))
}

/// The digit for a value below sixteen.
fn hex_digit(n: u8) -> (s: &'static str)
    requires
        n < 16,
    ensures
        s@ == seq![hex_char(n as int)],
{
    proof {
        reveal_strlit("0");
        reveal_strlit("1");
        reveal_strlit("2");
        reveal_strlit("3");
        reveal_strlit("4");
        reveal_strlit("5");
        reveal_strlit("6");
        reveal_strlit("7");
        reveal_strlit("8");
        reveal_strlit("9");
        reveal_strlit("A");
        reveal_strlit("B");
        reveal_strlit("C");
        reveal_strlit("D");
        reveal_strlit("E");
        reveal_strlit("F");
    }
    let s = match n {
        0 => "0",
        1 => "1",
        2 => "2",
        3 => "3",
        4 => "4",
        5 => "5",
        6 => "6",
        7 => "7",
        8 => "8",
        9 => "9",
        10 => "A",
        11 => "B",
        12 => "C",
        13 => "D",
        14 => "E",
        _ => "F",
    };
    s
}

/// A byte as two digits.
fn hex_pair(b: u8) -> (out: String)
    ensures
        out@ == hex_text(b),
{
    let mut out = String::new();
    out.append(hex_digit(b / 16));
    out.append(hex_digit(b % 16));
    out
}

/// Each byte of `bytes` as two digits.
fn hex_items(bytes: &[u8]) -> (items: Vec<String>)
    ensures
        items@.map_values(|s: String| s@) == bytes@.map_values(|b: u8| hex_text(b)),
{
    let mut items: Vec<String> = Vec::new();
    let mut i: usize = 0;
    while i < bytes.len()
        invariant
            0 <= i <= bytes@.len(),
            items@.len() == i,
            forall|j: int| 0 <= j < i ==> (#[trigger] items@[j])@ == hex_text(bytes@[j]),
        decreases bytes@.len() - i,
    {
        items.push(hex_pair(bytes[i]));
        i += 1;
    }
    items
}

/// Lays a difference of byte slices out, each byte as two hexadecimal
/// digits in upper case, in the layout of `fmt_listings`.
pub fn fmt_bytes(diff: Vec<DiffRes<&[u8]>>) -> (out: String)
    ensures
        out@ == text_of_listings(hex_listings(views(diff@))),
{
    let mut entries: Vec<Listing> = Vec::new();
    let mut i: usize = 0;
    while i < diff.len()
        invariant
            0 <= i <= diff@.len(),
            entries@.len() == i,
            forall|j: int| 0 <= j < i ==> (#[trigger] entries@[j])@ == hex_listings(views(diff@))[j],
        decreases diff@.len() - i,
    {
        let entry = match &diff[i] {
            DiffRes::Left(l) => Listing { tag: Tag::Left, items: hex_items(l) },
            DiffRes::Both(l, _) => Listing { tag: Tag::Both, items: hex_items(l) },
            DiffRes::Right(r) => Listing { tag: Tag::Right, items: hex_items(r) },
        };
        entries.push(entry);
        i += 1;
    }
    proof {
        assert(listing_views(entries@) =~= hex_listings(views(diff@)));
    }
    fmt_listings(&entries)
}

/// Whether `entries` has, for each result of `diff`, a listing under the
/// same tag with one text for each element that the result shows.
pub open spec fn lists<T>(entries: Seq<(Tag, Seq<Seq<char>>)>, diff: Seq<DiffRes<Seq<T>>>) -> bool {
    &&& entries.len() == diff.len()
    &&& forall|i: int|
        0 <= i < diff.len() ==> (#[trigger] entries[i]).0 == tag_of(diff[i]) && entries[i].1.len() == shown(
            diff[i],
        ).len()
}

/// Whether `diff` shows no element at all.
pub open spec fn shows_nothing<T>(diff: Seq<DiffRes<Seq<T>>>) -> bool {
    forall|i: int| 0 <= i < diff.len() ==> shown(#[trigger] diff[i]).len() == 0
}

/// Writes a value the way `{:?}` does, by the `Debug` of its type.
///
/// Trusted to return. Nothing is claimed of the text, nor of whether the
/// type's `Debug` gives one: both are up to the type.
#[verifier::external_body]
fn debug_text<T: Debug>(item: &T) -> (text: Option<String>) {
    let mut text = String::new();
    match write!(text, "{:?}", item) {
        Ok(()) => Some(text),
        Err(_) => None,
    }
}

/// Each element of `items` as `Debug` writes it, unless `Debug` fails on
/// one of them.
fn debug_items<T: Debug>(items: &[T]) -> (texts: Option<Vec<String>>)
    ensures
        texts matches Some(t) ==> t@.len() == items@.len(),
        items@.len() == 0 ==> texts is Some,
{
    let mut texts: Vec<String> = Vec::new();
    let mut i: usize = 0;
    while i < items.len()
        invariant
            0 <= i <= items@.len(),
            texts@.len() == i,
        decreases items@.len() - i,
    {
        match debug_text(&items[i]) {
            Some(text) => {
                texts.push(text);
            },
            None => {
                return None;
            },
        }
        i += 1;
    }
    Some(texts)
}

/// Lays a difference of slices out, each element written by its `Debug`, in
/// the layout of `fmt_listings`.
///
/// The text is that of some listing of `diff`; which one is up to `Debug`
/// for `T`. `None` is returned when `Debug` fails on an element, which
/// cannot happen where no element is shown.
pub fn fmt_slice<T: Debug>(diff: Vec<DiffRes<&[T]>>) -> (out: Option<String>)
    ensures
        out matches Some(text) ==> exists|entries: Seq<(Tag, Seq<Seq<char>>)>|
            #[trigger] lists(entries, views(diff@)) && text@ == text_of_listings(entries),
        shows_nothing(views(diff@)) ==> out is Some,
{
    let mut entries: Vec<Listing> = Vec::new();
    let mut i: usize = 0;
    while i < diff.len()
        invariant
            0 <= i <= diff@.len(),
            entries@.len() == i,
            forall|j: int|
                0 <= j < i ==> (#[trigger] entries@[j])@.0 == tag_of(views(diff@)[j]) && entries@[j]@.1.len()
                    == shown(views(diff@)[j]).len(),
        decreases diff@.len() - i,
    {
        proof {
            assert(views(diff@)[i as int] == diff@[i as int]@);
        }
        let (tag, shown_items) = match &diff[i] {
            DiffRes::Left(l) => (Tag::Left, debug_items(l)),
            DiffRes::Both(l, _) => (Tag::Both, debug_items(l)),
            DiffRes::Right(r) => (Tag::Right, debug_items(r)),
        };
        match shown_items {
            Some(items) => {
                entries.push(Listing { tag, items });
            },
            None => {
                return None;
            },
        }
        i += 1;
    }
    let out = fmt_listings(&entries);
    proof {
        assert(lists(listing_views(entries@), views(diff@)));
    }
    Some(out)
}

} // verus!
