//! The error values returned by the checked operations.

use vstd::prelude::*;

verus! {

/// Why a checked operation refused to act. A refused operation leaves the
/// vector exactly as it was.
#[derive(Clone, Copy, Debug, PartialEq, Eq, Structural)]
pub enum BitVecError {
    /// An index or the end of a range lies beyond the current length.
    IndexOutOfRange { index: usize, len: usize },
    /// The requested length is more than the bit width can ever hold.
    CapacityExceeded { max_capacity: usize },
    /// An element was asked of a vector that holds none.
    EmptyVector,
    /// A value has bits set above the element's bit width.
    ValueTooWide { value: u64, mask: u64 },
}

} // verus!
