//! Ranges of run length encoded items.
use std::marker::PhantomData;
use std::ops::Range;
use vstd::prelude::*;

verus! {

/// Where a run length encoded column stands.
#[derive(Debug)]
#[verifier::reject_recursive_types(T)]
pub struct RleRange<T> {
    range: Range<usize>,
    _phantom: PhantomData<T>,
}

impl<T> View for RleRange<T> {
    type V = Range<usize>;

    closed spec fn view(&self) -> Range<usize> {
        self.range
    }
}

impl<T> RleRange<T> {
    pub fn start(&self) -> (r: usize)
        ensures
            r == self@.start,
    {
        self.range.start
    }

    pub fn end(&self) -> (r: usize)
        ensures
            r == self@.end,
    {
        self.range.end
    }
}

impl<T> AsRef<Range<usize>> for RleRange<T> {
    fn as_ref(&self) -> (r: &Range<usize>)
        ensures
            *r == self@,
    {
        &self.range
    }
}

impl<T> From<Range<usize>> for RleRange<T> {
    fn from(r: Range<usize>) -> (s: RleRange<T>)
        ensures
            s@ == r,
    {
        RleRange { range: r, _phantom: PhantomData }
    }
}

impl<T> vstd::std_specs::convert::FromSpecImpl<Range<usize>> for RleRange<T> {
    open spec fn obeys_from_spec() -> bool {
        false
    }

    open spec fn from_spec(r: Range<usize>) -> RleRange<T> {
        arbitrary()
    }
}

impl<T> From<RleRange<T>> for Range<usize> {
    fn from(r: RleRange<T>) -> (s: Range<usize>)
        ensures
            s.start == r@.start && s.end == r@.end,
    {
        r.range
    }
}

impl<T> vstd::std_specs::convert::FromSpecImpl<RleRange<T>> for Range<usize> {
    open spec fn obeys_from_spec() -> bool {
        true
    }

    open spec fn from_spec(r: RleRange<T>) -> Range<usize> {
        r@
    }
}

impl<T> Clone for RleRange<T> {
    fn clone(&self) -> (r: Self)
        ensures
            r@ == self@,
    {
        RleRange { range: self.range.start..self.range.end, _phantom: PhantomData }
    }
}

impl<T> PartialEq for RleRange<T> {
    fn eq(&self, other: &Self) -> (r: bool)
        ensures
            r <==> self@.start == other@.start && self@.end == other@.end,
    {
        self.range.start == other.range.start && self.range.end == other.range.end
    }
}

impl<T> vstd::std_specs::cmp::PartialEqSpecImpl for RleRange<T> {
    open spec fn obeys_eq_spec() -> bool {
        true
    }

    open spec fn eq_spec(&self, other: &Self) -> bool {
        self@ == other@
    }
}

/// Ranges of run length encoded items compare equal exactly where they start and
/// end alike.
pub proof fn ranges_are_told_by_their_ends<T>(a: RleRange<T>, b: RleRange<T>)
    ensures
        vstd::std_specs::cmp::PartialEqSpec::eq_spec(&a, &b) <==> a@.start == b@.start && a@.end
            == b@.end,
{
}

} // verus!
