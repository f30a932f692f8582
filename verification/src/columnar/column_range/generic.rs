//! Ranges of any columns.
use super::value::{ValueRange, ValueRangeModel};
use std::ops::Range;
use vstd::prelude::*;

pub mod group;
pub mod simple;
pub use group::{GroupModel, GroupRange, GroupedColumnRange};
pub use simple::{SimpleColModel, SimpleColRange};

verus! {

/// Where any column that the storage format knows stands.
#[derive(Debug)]
pub enum GenericColumnRange {
    /// One column of the raw format.
    Simple(SimpleColRange),
    /// The two columns of values.
    Value(ValueRange),
    /// A column of counts and the columns that it groups.
    Group(GroupRange),
}

/// The model of a `GenericColumnRange`.
pub enum GenericColumnModel {
    Simple(SimpleColModel),
    Value(ValueRangeModel),
    Group(GroupModel),
}

impl GenericColumnModel {
    pub open spec fn spec_range(self) -> Range<usize> {
        match self {
            GenericColumnModel::Simple(s) => s.spec_range(),
            GenericColumnModel::Value(v) => v.spec_range(),
            GenericColumnModel::Group(g) => g.spec_range(),
        }
    }
}

impl View for GenericColumnRange {
    type V = GenericColumnModel;

    open spec fn view(&self) -> GenericColumnModel {
        match self {
            GenericColumnRange::Simple(s) => GenericColumnModel::Simple(s@),
            GenericColumnRange::Value(v) => GenericColumnModel::Value(v@),
            GenericColumnRange::Group(g) => GenericColumnModel::Group(g@),
        }
    }
}

impl GenericColumnRange {
    pub fn range(&self) -> (r: Range<usize>)
        ensures
            r == self@.spec_range(),
    {
        match self {
            GenericColumnRange::Simple(s) => s.range(),
            GenericColumnRange::Value(v) => v.range(),
            GenericColumnRange::Group(g) => g.range(),
        }
    }
}

impl Clone for GenericColumnRange {
    fn clone(&self) -> (r: Self)
        ensures
            r@ == self@,
    {
        match self {
            GenericColumnRange::Simple(s) => GenericColumnRange::Simple(s.clone()),
            GenericColumnRange::Value(v) => GenericColumnRange::Value(v.clone()),
            GenericColumnRange::Group(g) => GenericColumnRange::Group(g.clone()),
        }
    }
}

/// The range of one column is that column. That of a group starts with its counts
/// and ends with the last of its columns, or with its counts where it has none.
pub proof fn columns_stand_so(m: GenericColumnModel)
    ensures
        match m {
            GenericColumnModel::Simple(SimpleColModel::RleInt(r)) => m.spec_range() == r,
            GenericColumnModel::Simple(SimpleColModel::RleString(r)) => m.spec_range() == r,
            GenericColumnModel::Simple(SimpleColModel::Delta(r)) => m.spec_range() == r,
            GenericColumnModel::Simple(SimpleColModel::Boolean(r)) => m.spec_range() == r,
            GenericColumnModel::Value(v) => m.spec_range().start == v.meta.start
                && m.spec_range().end == if v.raw.start < v.raw.end {
                v.raw.end
            } else {
                v.meta.end
            },
            GenericColumnModel::Group(g) => m.spec_range().start == g.num.start
                && m.spec_range().end == if g.values.len() == 0 {
                g.num.end
            } else {
                match g.values[g.values.len() - 1] {
                    group::GroupedModel::Simple(SimpleColModel::RleInt(r)) => r.end,
                    group::GroupedModel::Simple(SimpleColModel::RleString(r)) => r.end,
                    group::GroupedModel::Simple(SimpleColModel::Delta(r)) => r.end,
                    group::GroupedModel::Simple(SimpleColModel::Boolean(r)) => r.end,
                    group::GroupedModel::Value(v) => if v.raw.start < v.raw.end {
                        v.raw.end
                    } else {
                        v.meta.end
                    },
                }
            },
        },
{
}

} // verus!
