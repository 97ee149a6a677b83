//! A run of element indices that gives out their coordinates one by one.

use vstd::prelude::*;
use crate::proto::{BitProto, IdxProxy};

verus! {

/// The indices from `start` up to, but not including, `end_excluded`.
pub struct IdxProxyRange {
    pub start: usize,
    pub end_excluded: usize,
}

impl IdxProxyRange {
    /// The indices still to come, lowest first.
    pub open spec fn view(&self) -> Seq<int> {
        Seq::new(
            if self.start < self.end_excluded {
                (self.end_excluded - self.start) as nat
            } else {
                0
            },
            |i: int| self.start + i,
        )
    }

    /// The indices of `range`.
    pub fn from_range(range: core::ops::Range<usize>) -> (run: Self)
        ensures
            run.start == range.start,
            run.end_excluded == range.end,
    {
        Self { start: range.start, end_excluded: range.end }
    }

    /// The indices from `start` up to and including `end`.
    pub fn from_range_inclusive(start: usize, end: usize) -> (run: Self)
        requires
            end < usize::MAX,
        ensures
            run.start == start,
            run.end_excluded == end + 1,
    {
        Self { start, end_excluded: end + 1 }
    }

    /// The indices below `end`.
    pub fn from_range_to(end: usize) -> (run: Self)
        ensures
            run.start == 0,
            run.end_excluded == end,
    {
        Self { start: 0, end_excluded: end }
    }

    /// The indices up to and including `end`.
    pub fn from_range_to_inclusive(end: usize) -> (run: Self)
        requires
            end < usize::MAX,
        ensures
            run.start == 0,
            run.end_excluded == end + 1,
    {
        Self { start: 0, end_excluded: end + 1 }
    }

    /// The coordinate of the lowest index still to come, if any is left.
    pub fn next(&mut self, proto: BitProto) -> (res: Option<IdxProxy>)
        requires
            proto.wf(),
            old(self).end_excluded <= proto.MAX_CAPACITY + 1,
        ensures
            old(self)@.len() > 0 ==> res == Some(proto.coordinate(old(self).start)) && final(self)@ == old(
                self,
            )@.drop_first(),
            old(self)@.len() == 0 ==> res.is_none() && *final(self) == *old(self),
            final(self).end_excluded == old(self).end_excluded,
    {
        if self.start < self.end_excluded {
            let idx_proxy = BitProto::idx_proxy(proto, self.start);
            self.start = self.start + 1;
            proof {
                assert(self@ =~= old(self)@.drop_first());
            }
            Some(idx_proxy)
        } else {
            None
        }
    }

    /// The coordinate of the highest index still to come, if any is left.
    pub fn next_back(&mut self, proto: BitProto) -> (res: Option<IdxProxy>)
        requires
            proto.wf(),
            old(self).end_excluded <= proto.MAX_CAPACITY + 1,
        ensures
            old(self)@.len() > 0 ==> res == Some(proto.coordinate((old(self).end_excluded - 1) as usize))
                && final(self)@ == old(self)@.drop_last(),
            old(self)@.len() == 0 ==> res.is_none() && *final(self) == *old(self),
            final(self).start == old(self).start,
    {
        if self.start < self.end_excluded {
            let idx_proxy = BitProto::idx_proxy(proto, self.end_excluded - 1);
            self.end_excluded = self.end_excluded - 1;
            proof {
                assert(self@ =~= old(self)@.drop_last());
            }
            Some(idx_proxy)
        } else {
            None
        }
    }

    /// The number of indices still to come, as the two ends of
    /// [`Iterator::size_hint`].
    pub fn size_hint(&self) -> (hint: (usize, Option<usize>))
        ensures
            hint.0 == self@.len(),
            hint.1 == Some(hint.0),
    {
        let count = self.len();
        (count, Some(count))
    }

    /// The number of indices still to come.
    pub fn len(&self) -> (len: usize)
        ensures
            len == self@.len(),
    {
        if self.start < self.end_excluded {
            self.end_excluded - self.start
        } else {
            0
        }
    }
}

} // verus!
