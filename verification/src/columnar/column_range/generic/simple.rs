//! Ranges of single columns.
use crate::columnar::column_range::boolean::BooleanRange;
use crate::columnar::column_range::delta::DeltaRange;
use crate::columnar::column_range::rle::RleRange;
use std::ops::Range;
use vstd::prelude::*;

verus! {

/// A range that is one column of the raw format.
#[derive(Debug)]
pub enum SimpleColRange {
    /// Run length encoded integers.
    RleInt(RleRange<u64>),
    /// Run length encoded texts.
    RleString(RleRange<String>),
    /// Counters, each as its distance from the one before.
    Delta(DeltaRange),
    /// Booleans.
    Boolean(BooleanRange),
}

impl SimpleColModel {
    pub open spec fn spec_range(self) -> Range<usize> {
        match self {
            SimpleColModel::RleInt(r) => r,
            SimpleColModel::RleString(r) => r,
            SimpleColModel::Delta(r) => r,
            SimpleColModel::Boolean(r) => r,
        }
    }
}

impl SimpleColRange {
    pub fn range(&self) -> (r: Range<usize>)
        ensures
            r == self@.spec_range(),
    {
        match self {
            SimpleColRange::RleInt(r) => Range::from(r.clone()),
            SimpleColRange::RleString(r) => Range::from(r.clone()),
            SimpleColRange::Delta(r) => Range::from(r.clone()),
            SimpleColRange::Boolean(r) => Range::from(r.clone()),
        }
    }
}

/// The model of a `SimpleColRange`.
pub enum SimpleColModel {
    RleInt(Range<usize>),
    RleString(Range<usize>),
    Delta(Range<usize>),
    Boolean(Range<usize>),
}

impl View for SimpleColRange {
    type V = SimpleColModel;

    open spec fn view(&self) -> SimpleColModel {
        match self {
            SimpleColRange::RleInt(r) => SimpleColModel::RleInt(r@),
            SimpleColRange::RleString(r) => SimpleColModel::RleString(r@),
            SimpleColRange::Delta(r) => SimpleColModel::Delta(r@),
            SimpleColRange::Boolean(r) => SimpleColModel::Boolean(r@),
        }
    }
}

impl Clone for SimpleColRange {
    fn clone(&self) -> (r: Self)
        ensures
            r@ == self@,
    {
        match self {
            SimpleColRange::RleInt(r) => SimpleColRange::RleInt(r.clone()),
            SimpleColRange::RleString(r) => SimpleColRange::RleString(r.clone()),
            SimpleColRange::Delta(r) => SimpleColRange::Delta(r.clone()),
            SimpleColRange::Boolean(r) => SimpleColRange::Boolean(r.clone()),
        }
    }
}

} // verus!
