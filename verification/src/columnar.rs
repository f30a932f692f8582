//! Column oriented storage.
pub mod column_range;
pub mod encoding;
