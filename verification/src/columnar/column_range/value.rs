//! Ranges of values.
use super::raw::RawRange;
use super::rle::RleRange;
use std::ops::Range;
use vstd::prelude::*;

verus! {

/// Where a column of values stands: their metadata, and behind it their bytes.
#[derive(Debug)]
pub struct ValueRange {
    meta: RleRange<u64>,
    raw: RawRange,
}

/// The model of a `ValueRange`.
pub struct ValueRangeModel {
    pub meta: Range<usize>,
    pub raw: Range<usize>,
}

impl ValueRangeModel {
    /// The range of both columns; that of the metadata where there are no
    /// bytes.
    pub open spec fn spec_range(self) -> Range<usize> {
        if self.raw.start >= self.raw.end {
            self.meta
        } else {
            Range { start: self.meta.start, end: self.raw.end }
        }
    }
}

impl View for ValueRange {
    type V = ValueRangeModel;

    closed spec fn view(&self) -> ValueRangeModel {
        ValueRangeModel { meta: self.meta@, raw: self.raw@ }
    }
}

impl ValueRange {
    pub fn new(meta: RleRange<u64>, raw: RawRange) -> (r: Self)
        ensures
            r@ == (ValueRangeModel { meta: meta@, raw: raw@ }),
    {
        ValueRange { meta, raw }
    }

    pub fn range(&self) -> (r: Range<usize>)
        ensures
            r == self@.spec_range(),
    {
        if self.raw.is_empty() {
            self.meta.start()..self.meta.end()
        } else {
            self.meta.start()..self.raw.end()
        }
    }
}

impl Clone for ValueRange {
    fn clone(&self) -> (r: Self)
        ensures
            r@ == self@,
    {
        ValueRange { meta: self.meta.clone(), raw: self.raw.clone() }
    }
}

impl PartialEq for ValueRange {
    fn eq(&self, other: &Self) -> (r: bool)
        ensures
            r <==> self@.meta == other@.meta && self@.raw == other@.raw,
    {
        self.meta == other.meta && self.raw == other.raw
    }
}

impl vstd::std_specs::cmp::PartialEqSpecImpl for ValueRange {
    open spec fn obeys_eq_spec() -> bool {
        true
    }

    open spec fn eq_spec(&self, other: &Self) -> bool {
        self@ == other@
    }
}

/// The range of values starts with their metadata and ends with their bytes, or
/// with their metadata where there are no bytes. Two are equal where both of their
/// parts are.
pub proof fn values_stand_so(m: ValueRangeModel, a: ValueRange, b: ValueRange)
    ensures
        m.spec_range().start == m.meta.start,
        m.raw.start < m.raw.end ==> m.spec_range().end == m.raw.end,
        m.raw.start >= m.raw.end ==> m.spec_range().end == m.meta.end,
        vstd::std_specs::cmp::PartialEqSpec::eq_spec(&a, &b) <==> a@.meta == b@.meta && a@.raw
            == b@.raw,
{
}

} // verus!
