//! Translation of the range types of `core::ops` into an absolute
//! `(start, end)` pair with an exclusive end.
//!
//! Every range form — exclusive end, inclusive end, open start, open end and
//! the full range — is turned into the same pair shape before a view
//! validates it, so the validation logic only ever sees one representation.

use vstd::prelude::*;

verus! {

// `core::ops::Range` and `core::ops::RangeInclusive` are already declared by
// vstd; the remaining range forms are declared here so that they can appear
// in trait implementations. Their fields are public in std, so no further
// assumptions about them are needed.
#[verifier::external_type_specification]
#[verifier::reject_recursive_types(Idx)]
pub struct ExRangeFrom<Idx>(core::ops::RangeFrom<Idx>);

#[verifier::external_type_specification]
#[verifier::reject_recursive_types(Idx)]
pub struct ExRangeTo<Idx>(core::ops::RangeTo<Idx>);

#[verifier::external_type_specification]
#[verifier::reject_recursive_types(Idx)]
pub struct ExRangeToInclusive<Idx>(core::ops::RangeToInclusive<Idx>);

#[verifier::external_type_specification]
pub struct ExRangeFull(core::ops::RangeFull);

/// Relies on `core::ops::RangeInclusive::into_inner`, which destructures the
/// range into its lower and upper bound, both inclusive.
pub assume_specification<Idx>[ core::ops::RangeInclusive::<Idx>::into_inner ](
    r: core::ops::RangeInclusive<Idx>,
) -> (p: (Idx, Idx))
    ensures
        p.0 == r@.start,
        p.1 == r@.end,
;

/// Marker restricting [`AsRange`] to the range types of `core::ops`.
pub trait Sealed {}

/// Turns one of the range forms of `core::ops` into an absolute
/// `(start, end)` pair with an exclusive end, given the length of the text
/// the range selects from.
///
/// The pair is returned as written: a reversed or out-of-bounds range is
/// handed back unchanged for the caller to reject.
pub trait AsRange: Sealed + Sized {
    /// The start offset the range selects.
    spec fn spec_lower(self, len: usize) -> int;

    /// The exclusive end offset the range selects.
    spec fn spec_upper(self, len: usize) -> int;

    fn as_range(self, len: usize) -> (r: (usize, usize))
        requires
            self.spec_upper(len) <= usize::MAX,
        ensures
            r.0 == self.spec_lower(len),
            r.1 == self.spec_upper(len),
    ;
}

impl Sealed for core::ops::Range<usize> {

}

impl AsRange for core::ops::Range<usize> {
    open spec fn spec_lower(self, len: usize) -> int {
        self.start as int
    }

    open spec fn spec_upper(self, len: usize) -> int {
        self.end as int
    }

    fn as_range(self, _len: usize) -> (usize, usize) {
        (self.start, self.end)
    }
}

impl Sealed for core::ops::RangeFrom<usize> {

}

impl AsRange for core::ops::RangeFrom<usize> {
    open spec fn spec_lower(self, len: usize) -> int {
        self.start as int
    }

    open spec fn spec_upper(self, len: usize) -> int {
        len as int
    }

    fn as_range(self, len: usize) -> (usize, usize) {
        (self.start, len)
    }
}

impl Sealed for core::ops::RangeFull {

}

impl AsRange for core::ops::RangeFull {
    open spec fn spec_lower(self, len: usize) -> int {
        0
    }

    open spec fn spec_upper(self, len: usize) -> int {
        len as int
    }

    fn as_range(self, len: usize) -> (usize, usize) {
        (0, len)
    }
}

impl Sealed for core::ops::RangeInclusive<usize> {

}

impl AsRange for core::ops::RangeInclusive<usize> {
    open spec fn spec_lower(self, len: usize) -> int {
        self@.start as int
    }

    open spec fn spec_upper(self, len: usize) -> int {
        self@.end + 1
    }

    fn as_range(self, _len: usize) -> (usize, usize) {
        let (start, end) = self.into_inner();
        (start, end + 1)
    }
}

impl Sealed for core::ops::RangeTo<usize> {

}

impl AsRange for core::ops::RangeTo<usize> {
    open spec fn spec_lower(self, len: usize) -> int {
        0
    }

    open spec fn spec_upper(self, len: usize) -> int {
        self.end as int
    }

    fn as_range(self, _len: usize) -> (usize, usize) {
        (0, self.end)
    }
}

impl Sealed for core::ops::RangeToInclusive<usize> {

}

impl AsRange for core::ops::RangeToInclusive<usize> {
    open spec fn spec_lower(self, len: usize) -> int {
        0
    }

    open spec fn spec_upper(self, len: usize) -> int {
        self.end + 1
    }

    fn as_range(self, _len: usize) -> (usize, usize) {
        (0, self.end + 1)
    }
}

} // verus!
