//! Ranges of counters.
use std::ops::Range;
use vstd::prelude::*;

verus! {

/// Where a column of counters, each as its distance from the one before, stands.
#[derive(Debug)]
pub struct DeltaRange(Range<usize>);

impl View for DeltaRange {
    type V = Range<usize>;

    closed spec fn view(&self) -> Range<usize> {
        self.0
    }
}

impl AsRef<Range<usize>> for DeltaRange {
    fn as_ref(&self) -> (r: &Range<usize>)
        ensures
            *r == self@,
    {
        &self.0
    }
}

impl From<Range<usize>> for DeltaRange {
    fn from(r: Range<usize>) -> (s: DeltaRange)
        ensures
            s@ == r,
    {
        DeltaRange(r)
    }
}

impl vstd::std_specs::convert::FromSpecImpl<Range<usize>> for DeltaRange {
    open spec fn obeys_from_spec() -> bool {
        false
    }

    open spec fn from_spec(r: Range<usize>) -> DeltaRange {
        arbitrary()
    }
}

impl From<DeltaRange> for Range<usize> {
    fn from(r: DeltaRange) -> (s: Range<usize>)
        ensures
            s.start == r@.start && s.end == r@.end,
    {
        r.0
    }
}

impl vstd::std_specs::convert::FromSpecImpl<DeltaRange> for Range<usize> {
    open spec fn obeys_from_spec() -> bool {
        true
    }

    open spec fn from_spec(r: DeltaRange) -> Range<usize> {
        r@
    }
}

impl Clone for DeltaRange {
    fn clone(&self) -> (r: Self)
        ensures
            r == *self,
    {
        DeltaRange(self.0.start..self.0.end)
    }
}

impl PartialEq for DeltaRange {
    fn eq(&self, other: &Self) -> (r: bool)
        ensures
            r <==> self@.start == other@.start && self@.end == other@.end,
    {
        self.0.start == other.0.start && self.0.end == other.0.end
    }
}

impl vstd::std_specs::cmp::PartialEqSpecImpl for DeltaRange {
    open spec fn obeys_eq_spec() -> bool {
        true
    }

    open spec fn eq_spec(&self, other: &Self) -> bool {
        self@ == other@
    }
}

/// Ranges of counters compare equal exactly where they start and end alike.
pub proof fn ranges_are_told_by_their_ends(a: DeltaRange, b: DeltaRange)
    ensures
        vstd::std_specs::cmp::PartialEqSpec::eq_spec(&a, &b) <==> a@.start == b@.start && a@.end
            == b@.end,
{
}

} // verus!
