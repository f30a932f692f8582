//! Ranges of raw bytes.
use std::ops::Range;
use vstd::prelude::*;

verus! {

/// Where the bytes of values stand.
#[derive(Debug)]
pub struct RawRange(Range<usize>);

impl View for RawRange {
    type V = Range<usize>;

    closed spec fn view(&self) -> Range<usize> {
        self.0
    }
}

impl RawRange {
    pub fn is_empty(&self) -> (r: bool)
        ensures
            r == (self@.start >= self@.end),
    {
        self.0.start >= self.0.end
    }

    pub fn end(&self) -> (r: usize)
        ensures
            r == self@.end,
    {
        self.0.end
    }
}

impl AsRef<Range<usize>> for RawRange {
    fn as_ref(&self) -> (r: &Range<usize>)
        ensures
            *r == self@,
    {
        &self.0
    }
}

impl From<Range<usize>> for RawRange {
    fn from(r: Range<usize>) -> (s: RawRange)
        ensures
            s@ == r,
    {
        RawRange(r)
    }
}

impl vstd::std_specs::convert::FromSpecImpl<Range<usize>> for RawRange {
    open spec fn obeys_from_spec() -> bool {
        false
    }

    open spec fn from_spec(r: Range<usize>) -> RawRange {
        arbitrary()
    }
}

impl From<RawRange> for Range<usize> {
    fn from(r: RawRange) -> (s: Range<usize>)
        ensures
            s.start == r@.start && s.end == r@.end,
    {
        r.0
    }
}

impl vstd::std_specs::convert::FromSpecImpl<RawRange> for Range<usize> {
    open spec fn obeys_from_spec() -> bool {
        true
    }

    open spec fn from_spec(r: RawRange) -> Range<usize> {
        r@
    }
}

impl Clone for RawRange {
    fn clone(&self) -> (r: Self)
        ensures
            r == *self,
    {
        RawRange(self.0.start..self.0.end)
    }
}

impl PartialEq for RawRange {
    fn eq(&self, other: &Self) -> (r: bool)
        ensures
            r <==> self@.start == other@.start && self@.end == other@.end,
    {
        self.0.start == other.0.start && self.0.end == other.0.end
    }
}

impl vstd::std_specs::cmp::PartialEqSpecImpl for RawRange {
    open spec fn obeys_eq_spec() -> bool {
        true
    }

    open spec fn eq_spec(&self, other: &Self) -> bool {
        self@ == other@
    }
}

/// Ranges of raw bytes compare equal exactly where they start and end alike.
pub proof fn ranges_are_told_by_their_ends(a: RawRange, b: RawRange)
    ensures
        vstd::std_specs::cmp::PartialEqSpec::eq_spec(&a, &b) <==> a@.start == b@.start && a@.end
            == b@.end,
{
}

} // verus!
