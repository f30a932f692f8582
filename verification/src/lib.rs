//! Changes: their operations, their stored form, and what carries them from one
//! to the other.
//!
//! A `Change` is some operations by one actor. It is stored as a chunk of bytes
//! of which the operations are columns. A change can be built of operations,
//! saved, loaded and spelled out; what each of these does to the others is
//! proved in `change::laws`.
pub mod change;
pub mod columnar;
pub mod error;
pub mod leb;
pub mod legacy;
pub mod op_set2;
pub mod storage;
pub mod text;
pub mod types;
pub use change::{Change, LoadError};
pub use columnar::encoding::DecodeColumnError;
pub use legacy::ExpandedChange;
pub use storage::change::ReadChangeOpError;
pub use types::{ActorId, ChangeHash};
