//! Ranges of grouped columns.
use super::simple::{SimpleColModel, SimpleColRange};
use crate::columnar::column_range::rle::RleRange;
use crate::columnar::column_range::value::{ValueRange, ValueRangeModel};
use std::ops::Range;
use vstd::prelude::*;

verus! {

/// A column of counts, and behind it the columns of which each row takes that
/// many cells.
#[derive(Debug)]
pub struct GroupRange {
    pub num: RleRange<u64>,
    pub values: Vec<GroupedColumnRange>,
}

/// The model of a `GroupRange`.
pub struct GroupModel {
    pub num: Range<usize>,
    pub values: Seq<GroupedModel>,
}

impl GroupModel {
    /// The range from the counts to the last column.
    pub open spec fn spec_range(self) -> Range<usize> {
        Range {
            start: self.num.start,
            end: if self.values.len() == 0 {
                self.num.end
            } else {
                self.values.last().spec_range().end
            },
        }
    }
}

impl View for GroupRange {
    type V = GroupModel;

    open spec fn view(&self) -> GroupModel {
        GroupModel { num: self.num@, values: grouped_models(self.values@) }
    }
}

impl GroupRange {
    pub fn new(num: RleRange<u64>, values: Vec<GroupedColumnRange>) -> (r: Self)
        ensures
            r.num == num,
            r.values == values,
    {
        GroupRange { num, values }
    }

    pub fn range(&self) -> (r: Range<usize>)
        ensures
            r == self@.spec_range(),
    {
        let start: usize = self.num.start();
        let end: usize = if self.values.len() == 0 {
            self.num.end()
        } else {
            self.values[self.values.len() - 1].range().end
        };
        start..end
    }
}

impl Clone for GroupRange {
    fn clone(&self) -> (r: Self)
        ensures
            r@ == self@,
    {
        let mut values: Vec<GroupedColumnRange> = Vec::new();
        let mut i: usize = 0;
        while i < self.values.len()
            invariant
                i <= self.values@.len(),
                grouped_models(values@) =~= grouped_models(self.values@).take(i as int),
            decreases self.values@.len() - i,
        {
            let ghost before = values@;
            values.push(self.values[i].clone());
            assert(grouped_models(values@) =~= grouped_models(before).push(
                self.values@[i as int]@,
            ));
            i += 1;
        }
        assert(grouped_models(values@) =~= grouped_models(self.values@));
        GroupRange { num: self.num.clone(), values }
    }
}

/// A column of a group.
#[derive(Debug)]
pub enum GroupedColumnRange {
    Value(ValueRange),
    Simple(SimpleColRange),
}

/// The model of a `GroupedColumnRange`.
pub enum GroupedModel {
    Value(ValueRangeModel),
    Simple(SimpleColModel),
}

impl GroupedModel {
    pub open spec fn spec_range(self) -> Range<usize> {
        match self {
            GroupedModel::Value(v) => v.spec_range(),
            GroupedModel::Simple(s) => s.spec_range(),
        }
    }
}

impl View for GroupedColumnRange {
    type V = GroupedModel;

    open spec fn view(&self) -> GroupedModel {
        match self {
            GroupedColumnRange::Value(v) => GroupedModel::Value(v@),
            GroupedColumnRange::Simple(s) => GroupedModel::Simple(s@),
        }
    }
}

/// The models of a list of columns of a group.
pub open spec fn grouped_models(values: Seq<GroupedColumnRange>) -> Seq<GroupedModel> {
    Seq::new(values.len(), |i: int| values[i]@)
}

impl GroupedColumnRange {
    pub fn range(&self) -> (r: Range<usize>)
        ensures
            r == self@.spec_range(),
    {
        match self {
            GroupedColumnRange::Value(v) => v.range(),
            GroupedColumnRange::Simple(s) => s.range(),
        }
    }
}

impl Clone for GroupedColumnRange {
    fn clone(&self) -> (r: Self)
        ensures
            r@ == self@,
    {
        match self {
            GroupedColumnRange::Value(v) => GroupedColumnRange::Value(v.clone()),
            GroupedColumnRange::Simple(s) => GroupedColumnRange::Simple(s.clone()),
        }
    }
}

} // verus!
