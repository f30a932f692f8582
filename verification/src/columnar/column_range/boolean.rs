//! Ranges of booleans.
use std::ops::Range;
use vstd::prelude::*;

verus! {

/// Where a column of booleans stands.
#[derive(Debug)]
pub struct BooleanRange(Range<usize>);

impl View for BooleanRange {
    type V = Range<usize>;

    closed spec fn view(&self) -> Range<usize> {
        self.0
    }
}

impl AsRef<Range<usize>> for BooleanRange {
    fn as_ref(&self) -> (r: &Range<usize>)
        ensures
            *r == self@,
    {
        &self.0
    }
}

impl From<Range<usize>> for BooleanRange {
    fn from(r: Range<usize>) -> (s: BooleanRange)
        ensures
            s@ == r,
    {
        BooleanRange(r)
    }
}

impl vstd::std_specs::convert::FromSpecImpl<Range<usize>> for BooleanRange {
    open spec fn obeys_from_spec() -> bool {
        false
    }

    open spec fn from_spec(r: Range<usize>) -> BooleanRange {
        arbitrary()
    }
}

impl From<BooleanRange> for Range<usize> {
    fn from(r: BooleanRange) -> (s: Range<usize>)
        ensures
            s.start == r@.start && s.end == r@.end,
    {
        r.0
    }
}

impl vstd::std_specs::convert::FromSpecImpl<BooleanRange> for Range<usize> {
    open spec fn obeys_from_spec() -> bool {
        true
    }

    open spec fn from_spec(r: BooleanRange) -> Range<usize> {
        r@
    }
}

impl Clone for BooleanRange {
    fn clone(&self) -> (r: Self)
        ensures
            r == *self,
    {
        BooleanRange(self.0.start..self.0.end)
    }
}

impl PartialEq for BooleanRange {
    fn eq(&self, other: &Self) -> (r: bool)
        ensures
            r <==> self@.start == other@.start && self@.end == other@.end,
    {
        self.0.start == other.0.start && self.0.end == other.0.end
    }
}

impl vstd::std_specs::cmp::PartialEqSpecImpl for BooleanRange {
    open spec fn obeys_eq_spec() -> bool {
        true
    }

    open spec fn eq_spec(&self, other: &Self) -> bool {
        self@ == other@
    }
}

/// Ranges of booleans compare equal exactly where they start and end alike.
pub proof fn ranges_are_told_by_their_ends(a: BooleanRange, b: BooleanRange)
    ensures
        vstd::std_specs::cmp::PartialEqSpec::eq_spec(&a, &b) <==> a@.start == b@.start && a@.end
            == b@.end,
{
}

} // verus!
