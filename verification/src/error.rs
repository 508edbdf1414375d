//! Why a request was turned down.

use vstd::prelude::*;

verus! {

/// The ways a request can fail. A failed request never changes the
/// allocator.
#[derive(Clone, Copy, Debug, PartialEq, Eq, Structural)]
pub enum AllocError {
    /// The request lies outside what the allocator supports.
    InvalidParam,
    /// The requested span does not fit between the two cursors.
    NoMemory,
}

} // verus!
