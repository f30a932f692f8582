//! Operations and the changes that are built of them.
pub mod change;
pub mod meta;
pub mod op;
pub mod types;
