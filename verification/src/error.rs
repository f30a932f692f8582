//! Errors that are not about the form of some bytes.
use vstd::prelude::*;

verus! {

/// An action that its value does not allow.
#[derive(Clone, Copy, Debug, PartialEq, Eq, Structural)]
pub enum InvalidOpType {
    /// An increment by what is no integer.
    NonNumericInc,
}

} // verus!
