//! The answer of an operation that may not be finished yet.

use vstd::prelude::*;

verus! {

/// What polling an operation gives.
#[derive(Debug, PartialEq, Eq)]
pub enum Poll<T> {
    /// The operation is finished, with this value.
    Ready(T),
    /// The operation is not finished; the task is woken when it is worth polling again.
    Pending,
}

} // verus!
