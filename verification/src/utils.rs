//! The bounds of a range over a vector, made definite.

use vstd::prelude::*;

verus! {

/// One end of a range of indices, as the range's notation gives it.
#[derive(Clone, Copy, Debug)]
pub enum RangeEdge {
    /// The index itself belongs to the range.
    Included(usize),
    /// The index itself does not belong to the range.
    Excluded(usize),
    /// The range has no bound at this end.
    Unbounded,
}

/// Helpers for ranges.
pub struct RangeUtil;

impl RangeUtil {
    /// The first index of a range that starts at `start`.
    pub open spec fn first_index(start: RangeEdge) -> int {
        match start {
            RangeEdge::Included(first) => first as int,
            RangeEdge::Excluded(one_before_first) => one_before_first + 1,
            RangeEdge::Unbounded => 0,
        }
    }

    /// The index behind the last of a range that ends at `end`, over a
    /// vector of `len` elements.
    pub open spec fn end_index(end: RangeEdge, len: usize) -> int {
        match end {
            RangeEdge::Included(last) => last + 1,
            RangeEdge::Excluded(one_after_last) => one_after_last as int,
            RangeEdge::Unbounded => len as int,
        }
    }

    /// The half-open range of indices that the two edges mean over a
    /// vector of `len` elements.
    pub fn get_real_bounds_for_veclike(start: RangeEdge, end: RangeEdge, len: usize) -> (bounds: core::ops::Range<
        usize,
    >)
        requires
            Self::first_index(start) <= usize::MAX,
            Self::end_index(end, len) <= usize::MAX,
        ensures
            bounds.start == Self::first_index(start),
            bounds.end == Self::end_index(end, len),
    {
        let true_start = match start {
            RangeEdge::Included(first) => first,
            RangeEdge::Excluded(one_before_first) => one_before_first + 1,
            RangeEdge::Unbounded => 0,
        };
        let true_end = match end {
            RangeEdge::Included(last) => last + 1,
            RangeEdge::Excluded(one_after_last) => one_after_last,
            RangeEdge::Unbounded => len,
        };
        true_start..true_end
    }
}

} // verus!
