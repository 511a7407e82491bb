//! Keys that order a `SortedList`.

use vstd::prelude::*;
use core::cmp::Ordering;

verus! {

/// A key type that is totally ordered by an integer rank. Distinct keys have
/// distinct ranks, so comparing ranks decides both order and equality.
pub trait SortKey: Sized {
    spec fn rank(&self) -> int;

    proof fn rank_injective(a: &Self, b: &Self)
        requires
            a.rank() == b.rank(),
        ensures
            *a == *b,
    ;

    fn compare(&self, other: &Self) -> (r: Ordering)
        ensures
            (r == Ordering::Less) == (self.rank() < other.rank()),
            (r == Ordering::Equal) == (self.rank() == other.rank()),
            (r == Ordering::Greater) == (self.rank() > other.rank()),
    ;
}

impl SortKey for u8 {
    open spec fn rank(&self) -> int {
        *self as int
    }

    proof fn rank_injective(a: &Self, b: &Self) {
    }

    fn compare(&self, other: &Self) -> (r: Ordering) {
        if *self < *other {
            Ordering::Less
        } else if *self == *other {
            Ordering::Equal
        } else {
            Ordering::Greater
        }
    }
}

impl SortKey for u16 {
    open spec fn rank(&self) -> int {
        *self as int
    }

    proof fn rank_injective(a: &Self, b: &Self) {
    }

    fn compare(&self, other: &Self) -> (r: Ordering) {
        if *self < *other {
            Ordering::Less
        } else if *self == *other {
            Ordering::Equal
        } else {
            Ordering::Greater
        }
    }
}

impl SortKey for u32 {
    open spec fn rank(&self) -> int {
        *self as int
    }

    proof fn rank_injective(a: &Self, b: &Self) {
    }

    fn compare(&self, other: &Self) -> (r: Ordering) {
        if *self < *other {
            Ordering::Less
        } else if *self == *other {
            Ordering::Equal
        } else {
            Ordering::Greater
        }
    }
}

impl SortKey for u64 {
    open spec fn rank(&self) -> int {
        *self as int
    }

    proof fn rank_injective(a: &Self, b: &Self) {
    }

    fn compare(&self, other: &Self) -> (r: Ordering) {
        if *self < *other {
            Ordering::Less
        } else if *self == *other {
            Ordering::Equal
        } else {
            Ordering::Greater
        }
    }
}

impl SortKey for usize {
    open spec fn rank(&self) -> int {
        *self as int
    }

    proof fn rank_injective(a: &Self, b: &Self) {
    }

    fn compare(&self, other: &Self) -> (r: Ordering) {
        if *self < *other {
            Ordering::Less
        } else if *self == *other {
            Ordering::Equal
        } else {
            Ordering::Greater
        }
    }
}

impl SortKey for i32 {
    open spec fn rank(&self) -> int {
        *self as int
    }

    proof fn rank_injective(a: &Self, b: &Self) {
    }

    fn compare(&self, other: &Self) -> (r: Ordering) {
        if *self < *other {
            Ordering::Less
        } else if *self == *other {
            Ordering::Equal
        } else {
            Ordering::Greater
        }
    }
}

impl SortKey for i64 {
    open spec fn rank(&self) -> int {
        *self as int
    }

    proof fn rank_injective(a: &Self, b: &Self) {
    }

    fn compare(&self, other: &Self) -> (r: Ordering) {
        if *self < *other {
            Ordering::Less
        } else if *self == *other {
            Ordering::Equal
        } else {
            Ordering::Greater
        }
    }
}

} // verus!
