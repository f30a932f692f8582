//! How columns are written to bytes and read back.
pub mod cells;
pub mod col_error;
pub mod runs;
pub use col_error::DecodeColumnError;
