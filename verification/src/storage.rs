//! The stored form of changes.
pub mod change;
pub mod chunk;
pub mod columns;
pub mod parse;
