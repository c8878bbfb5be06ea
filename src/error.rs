//! Failures that the store reports to its caller.

use vstd::prelude::*;

verus! {

/// Why a store operation failed.
#[derive(Debug, Clone, Copy, PartialEq, Eq, Structural)]
pub enum StoreError {
    /// The storage collaborator failed.
    IoFailure,
    /// The key starts with the reserved prefix `__`.
    ReservedKey,
    /// The archive or its root position does not fit the 16-bit trailing field.
    SizeLimitExceeded,
}

} // verus!
