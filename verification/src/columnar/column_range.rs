//! Where columns stand among the bytes of a chunk.
pub mod boolean;
pub mod delta;
pub mod generic;
pub mod raw;
pub mod rle;
pub mod value;
pub use boolean::BooleanRange;
pub use delta::DeltaRange;
pub use generic::{GenericColumnRange, GroupRange, GroupedColumnRange, SimpleColRange};
pub use raw::RawRange;
pub use rle::RleRange;
pub use value::ValueRange;
