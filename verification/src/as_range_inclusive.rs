//! Translation of the range types of `core::ops` into an absolute
//! `(start, end)` pair with an inclusive end.
//!
//! This is the counterpart of [`crate::as_range`] for code that prefers the
//! inclusive-end representation of an active range; the two representations
//! describe the same windows and either could back a view.

use vstd::prelude::*;

verus! {

/// Marker restricting [`AsRangeInclusive`] to the range types of `core::ops`.
pub trait Sealed {}

/// Turns one of the range forms of `core::ops` into an absolute
/// `(start, end)` pair with an inclusive end, given the highest offset the
/// range may select.
///
/// An exclusive bound of zero selects nothing and is clamped to the
/// inclusive end `0`; apart from that the pair is returned as written, and a
/// reversed or out-of-bounds range is handed back unchanged for the caller
/// to reject.
pub trait AsRangeInclusive: Sealed + Sized {
    /// The start offset the range selects.
    spec fn spec_lower_incl(self, end: usize) -> int;

    /// The inclusive end offset the range selects.
    spec fn spec_upper_incl(self, end: usize) -> int;

    fn as_range_inclusive(self, end: usize) -> (r: (usize, usize))
        ensures
            r.0 == self.spec_lower_incl(end),
            r.1 == self.spec_upper_incl(end),
    ;
}

impl Sealed for core::ops::Range<usize> {

}

impl AsRangeInclusive for core::ops::Range<usize> {
    open spec fn spec_lower_incl(self, end: usize) -> int {
        self.start as int
    }

    open spec fn spec_upper_incl(self, end: usize) -> int {
        if self.end == 0 {
            0
        } else {
            self.end - 1
        }
    }

    fn as_range_inclusive(self, _end: usize) -> (usize, usize) {
        if self.end == 0 {
            (self.start, 0)
        } else {
            (self.start, self.end - 1)
        }
    }
}

impl Sealed for core::ops::RangeFrom<usize> {

}

impl AsRangeInclusive for core::ops::RangeFrom<usize> {
    open spec fn spec_lower_incl(self, end: usize) -> int {
        self.start as int
    }

    open spec fn spec_upper_incl(self, end: usize) -> int {
        end as int
    }

    fn as_range_inclusive(self, end: usize) -> (usize, usize) {
        (self.start, end)
    }
}

impl Sealed for core::ops::RangeFull {

}

impl AsRangeInclusive for core::ops::RangeFull {
    open spec fn spec_lower_incl(self, end: usize) -> int {
        0
    }

    open spec fn spec_upper_incl(self, end: usize) -> int {
        end as int
    }

    fn as_range_inclusive(self, end: usize) -> (usize, usize) {
        (0, end)
    }
}

impl Sealed for core::ops::RangeInclusive<usize> {

}

impl AsRangeInclusive for core::ops::RangeInclusive<usize> {
    open spec fn spec_lower_incl(self, end: usize) -> int {
        self@.start as int
    }

    open spec fn spec_upper_incl(self, end: usize) -> int {
        self@.end as int
    }

    fn as_range_inclusive(self, _end: usize) -> (usize, usize) {
        self.into_inner()
    }
}

impl Sealed for core::ops::RangeTo<usize> {

}

impl AsRangeInclusive for core::ops::RangeTo<usize> {
    open spec fn spec_lower_incl(self, end: usize) -> int {
        0
    }

    open spec fn spec_upper_incl(self, end: usize) -> int {
        if self.end == 0 {
            0
        } else {
            self.end - 1
        }
    }

    fn as_range_inclusive(self, _end: usize) -> (usize, usize) {
        if self.end == 0 {
            (0, 0)
        } else {
            (0, self.end - 1)
        }
    }
}

impl Sealed for core::ops::RangeToInclusive<usize> {

}

impl AsRangeInclusive for core::ops::RangeToInclusive<usize> {
    open spec fn spec_lower_incl(self, end: usize) -> int {
        0
    }

    open spec fn spec_upper_incl(self, end: usize) -> int {
        self.end as int
    }

    fn as_range_inclusive(self, _end: usize) -> (usize, usize) {
        (0, self.end)
    }
}

} // verus!
