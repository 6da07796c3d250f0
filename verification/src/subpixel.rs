//! The numeric types that the channels of a pixel can hold.

use vstd::prelude::*;

verus! {

/// The distance between two levels, held back to `top`.
pub open spec fn gap(a: int, b: int, top: int) -> int {
    let d = if a < b { b - a } else { a - b };
    if d < top { d } else { top }
}

/// A type of channel values. Contracts speak of a value through its
/// `level`, the number it stands for.
pub trait Subpixel: Copy + Sized {
    /// The number that a value stands for.
    spec fn level(self) -> int;

    /// The greatest level of the type.
    spec fn top() -> int;

    /// Two values with the same level are the same value.
    proof fn lemma_level_tells_apart(a: Self, b: Self)
        requires
            a.level() == b.level(),
        ensures
            a == b,
    ;

    /// The value of level zero.
    fn zero() -> (z: Self)
        ensures
            z.level() == 0,
    ;

    /// The value of the greatest level.
    fn max_value() -> (m: Self)
        ensures
            m.level() == Self::top(),
    ;

    /// The value halfway up to the greatest level, rounded down.
    fn half_max() -> (m: Self)
        ensures
            m.level() == Self::top() / 2,
    ;

    /// Whether this value is less than `other`.
    fn below(self, other: Self) -> (b: bool)
        ensures
            b == (self.level() < other.level()),
    ;

    /// The absolute difference of two values, saturating at the greatest
    /// level instead of overflowing.
    fn distance(self, other: Self) -> (d: Self)
        ensures
            d.level() == gap(self.level(), other.level(), Self::top()),
    ;
}

/// A type of channel values with a wider signed type that holds the
/// difference of any two of them.
pub trait DiffPixel: Subpixel {
    /// The type of a difference between two values.
    type Diff: Copy;

    /// The number that a difference stands for.
    spec fn amount(d: Self::Diff) -> int;

    /// What has to be added to this value to reach `to`.
    fn delta(self, to: Self) -> (d: Self::Diff)
        ensures
            Self::amount(d) == to.level() - self.level(),
    ;
}

impl Subpixel for u8 {
    open spec fn level(self) -> int {
        self as int
    }

    open spec fn top() -> int {
        u8::MAX as int
    }

    proof fn lemma_level_tells_apart(a: u8, b: u8) {
    }

    fn zero() -> (z: u8) {
        0
    }

    fn max_value() -> (m: u8) {
        u8::MAX
    }

    fn half_max() -> (m: u8) {
        u8::MAX / 2
    }

    fn below(self, other: u8) -> (b: bool) {
        self < other
    }

    fn distance(self, other: u8) -> (d: u8) {
        if self < other {
            other - self
        } else {
            self - other
        }
    }
}

impl DiffPixel for u8 {
    type Diff = i16;

    open spec fn amount(d: i16) -> int {
        d as int
    }

    fn delta(self, to: u8) -> (d: i16) {
        to as i16 - self as i16
    }
}

impl Subpixel for i8 {
    open spec fn level(self) -> int {
        self as int
    }

    open spec fn top() -> int {
        i8::MAX as int
    }

    proof fn lemma_level_tells_apart(a: i8, b: i8) {
    }

    fn zero() -> (z: i8) {
        0
    }

    fn max_value() -> (m: i8) {
        i8::MAX
    }

    fn half_max() -> (m: i8) {
        i8::MAX / 2
    }

    fn below(self, other: i8) -> (b: bool) {
        self < other
    }

    fn distance(self, other: i8) -> (d: i8) {
        let wide: i16 = if self < other {
            other as i16 - self as i16
        } else {
            self as i16 - other as i16
        };
        if wide < i8::MAX as i16 {
            wide as i8
        } else {
            i8::MAX
        }
    }
}

impl DiffPixel for i8 {
    type Diff = i16;

    open spec fn amount(d: i16) -> int {
        d as int
    }

    fn delta(self, to: i8) -> (d: i16) {
        to as i16 - self as i16
    }
}

impl Subpixel for u16 {
    open spec fn level(self) -> int {
        self as int
    }

    open spec fn top() -> int {
        u16::MAX as int
    }

    proof fn lemma_level_tells_apart(a: u16, b: u16) {
    }

    fn zero() -> (z: u16) {
        0
    }

    fn max_value() -> (m: u16) {
        u16::MAX
    }

    fn half_max() -> (m: u16) {
        u16::MAX / 2
    }

    fn below(self, other: u16) -> (b: bool) {
        self < other
    }

    fn distance(self, other: u16) -> (d: u16) {
        if self < other {
            other - self
        } else {
            self - other
        }
    }
}

impl DiffPixel for u16 {
    type Diff = i32;

    open spec fn amount(d: i32) -> int {
        d as int
    }

    fn delta(self, to: u16) -> (d: i32) {
        to as i32 - self as i32
    }
}

impl Subpixel for i16 {
    open spec fn level(self) -> int {
        self as int
    }

    open spec fn top() -> int {
        i16::MAX as int
    }

    proof fn lemma_level_tells_apart(a: i16, b: i16) {
    }

    fn zero() -> (z: i16) {
        0
    }

    fn max_value() -> (m: i16) {
        i16::MAX
    }

    fn half_max() -> (m: i16) {
        i16::MAX / 2
    }

    fn below(self, other: i16) -> (b: bool) {
        self < other
    }

    fn distance(self, other: i16) -> (d: i16) {
        let wide: i32 = if self < other {
            other as i32 - self as i32
        } else {
            self as i32 - other as i32
        };
        if wide < i16::MAX as i32 {
            wide as i16
        } else {
            i16::MAX
        }
    }
}

impl DiffPixel for i16 {
    type Diff = i32;

    open spec fn amount(d: i32) -> int {
        d as int
    }

    fn delta(self, to: i16) -> (d: i32) {
        to as i32 - self as i32
    }
}

impl Subpixel for u32 {
    open spec fn level(self) -> int {
        self as int
    }

    open spec fn top() -> int {
        u32::MAX as int
    }

    proof fn lemma_level_tells_apart(a: u32, b: u32) {
    }

    fn zero() -> (z: u32) {
        0
    }

    fn max_value() -> (m: u32) {
        u32::MAX
    }

    fn half_max() -> (m: u32) {
        u32::MAX / 2
    }

    fn below(self, other: u32) -> (b: bool) {
        self < other
    }

    fn distance(self, other: u32) -> (d: u32) {
        if self < other {
            other - self
        } else {
            self - other
        }
    }
}

impl DiffPixel for u32 {
    type Diff = i64;

    open spec fn amount(d: i64) -> int {
        d as int
    }

    fn delta(self, to: u32) -> (d: i64) {
        to as i64 - self as i64
    }
}

impl Subpixel for i32 {
    open spec fn level(self) -> int {
        self as int
    }

    open spec fn top() -> int {
        i32::MAX as int
    }

    proof fn lemma_level_tells_apart(a: i32, b: i32) {
    }

    fn zero() -> (z: i32) {
        0
    }

    fn max_value() -> (m: i32) {
        i32::MAX
    }

    fn half_max() -> (m: i32) {
        i32::MAX / 2
    }

    fn below(self, other: i32) -> (b: bool) {
        self < other
    }

    fn distance(self, other: i32) -> (d: i32) {
        let wide: i64 = if self < other {
            other as i64 - self as i64
        } else {
            self as i64 - other as i64
        };
        if wide < i32::MAX as i64 {
            wide as i32
        } else {
            i32::MAX
        }
    }
}

impl DiffPixel for i32 {
    type Diff = i64;

    open spec fn amount(d: i64) -> int {
        d as int
    }

    fn delta(self, to: i32) -> (d: i64) {
        to as i64 - self as i64
    }
}

impl Subpixel for u64 {
    open spec fn level(self) -> int {
        self as int
    }

    open spec fn top() -> int {
        u64::MAX as int
    }

    proof fn lemma_level_tells_apart(a: u64, b: u64) {
    }

    fn zero() -> (z: u64) {
        0
    }

    fn max_value() -> (m: u64) {
        u64::MAX
    }

    fn half_max() -> (m: u64) {
        u64::MAX / 2
    }

    fn below(self, other: u64) -> (b: bool) {
        self < other
    }

    fn distance(self, other: u64) -> (d: u64) {
        if self < other {
            other - self
        } else {
            self - other
        }
    }
}

impl DiffPixel for u64 {
    type Diff = i128;

    open spec fn amount(d: i128) -> int {
        d as int
    }

    fn delta(self, to: u64) -> (d: i128) {
        to as i128 - self as i128
    }
}

impl Subpixel for i64 {
    open spec fn level(self) -> int {
        self as int
    }

    open spec fn top() -> int {
        i64::MAX as int
    }

    proof fn lemma_level_tells_apart(a: i64, b: i64) {
    }

    fn zero() -> (z: i64) {
        0
    }

    fn max_value() -> (m: i64) {
        i64::MAX
    }

    fn half_max() -> (m: i64) {
        i64::MAX / 2
    }

    fn below(self, other: i64) -> (b: bool) {
        self < other
    }

    fn distance(self, other: i64) -> (d: i64) {
        let wide: i128 = if self < other {
            other as i128 - self as i128
        } else {
            self as i128 - other as i128
        };
        if wide < i64::MAX as i128 {
            wide as i64
        } else {
            i64::MAX
        }
    }
}

impl DiffPixel for i64 {
    type Diff = i128;

    open spec fn amount(d: i128) -> int {
        d as int
    }

    fn delta(self, to: i64) -> (d: i128) {
        to as i128 - self as i128
    }
}

impl Subpixel for usize {
    open spec fn level(self) -> int {
        self as int
    }

    open spec fn top() -> int {
        usize::MAX as int
    }

    proof fn lemma_level_tells_apart(a: usize, b: usize) {
    }

    fn zero() -> (z: usize) {
        0
    }

    fn max_value() -> (m: usize) {
        usize::MAX
    }

    fn half_max() -> (m: usize) {
        usize::MAX / 2
    }

    fn below(self, other: usize) -> (b: bool) {
        self < other
    }

    fn distance(self, other: usize) -> (d: usize) {
        if self < other {
            other - self
        } else {
            self - other
        }
    }
}

impl Subpixel for isize {
    open spec fn level(self) -> int {
        self as int
    }

    open spec fn top() -> int {
        isize::MAX as int
    }

    proof fn lemma_level_tells_apart(a: isize, b: isize) {
    }

    fn zero() -> (z: isize) {
        0
    }

    fn max_value() -> (m: isize) {
        isize::MAX
    }

    fn half_max() -> (m: isize) {
        isize::MAX / 2
    }

    fn below(self, other: isize) -> (b: bool) {
        self < other
    }

    fn distance(self, other: isize) -> (d: isize) {
        let wide: i128 = if self < other {
            other as i128 - self as i128
        } else {
            self as i128 - other as i128
        };
        if wide < isize::MAX as i128 {
            wide as isize
        } else {
            isize::MAX
        }
    }
}

} // verus!
