//! Cursors that give the elements of a vector out from either end.

use vstd::prelude::*;
use crate::proto::BitProto;
use crate::raw_bitvec::RawBitVec;

verus! {

/// A cursor over a vector that it owns.
pub struct RawBitVecIter {
    vec: RawBitVec,
    start: usize,
    end_excluded: usize,
}

/// A cursor over the elements drained from a vector. It clears each
/// element that it gives out.
pub struct RawBitVecDrain {
    vec: RawBitVec,
    start: usize,
    end_excluded: usize,
}

impl RawBitVecIter {
    /// The vector that the cursor walks.
    pub closed spec fn source(&self) -> RawBitVec {
        self.vec
    }

    /// Index of the next element from the front.
    pub closed spec fn spec_start(&self) -> usize {
        self.start
    }

    /// Index behind the next element from the back.
    pub closed spec fn spec_end(&self) -> usize {
        self.end_excluded
    }

    /// The cursor is well formed for `proto` when its vector is and its
    /// two ends lie in order within the vector.
    pub open spec fn wf(&self, proto: BitProto) -> bool {
        &&& self.source().wf(proto)
        &&& self.spec_start() <= self.spec_end() <= self.source().spec_len()
    }

    /// The elements still to come, front to back.
    pub open spec fn remaining(&self, proto: BitProto) -> Seq<u64> {
        self.source().view(proto).subrange(self.spec_start() as int, self.spec_end() as int)
    }

    /// A cursor over all of `vec`.
    pub(crate) fn over(vec: RawBitVec) -> (iter: RawBitVecIter)
        ensures
            iter.source() == vec,
            iter.spec_start() == 0,
            iter.spec_end() == vec.spec_len(),
    {
        let end_excluded = vec.len();
        RawBitVecIter { vec, start: 0, end_excluded }
    }

    /// The next element from the front, if any is left.
    pub fn next(&mut self, proto: BitProto) -> (res: Option<u64>)
        requires
            old(self).wf(proto),
        ensures
            final(self).wf(proto),
            old(self).remaining(proto).len() > 0 ==> res == Some(old(self).remaining(proto).first())
                && final(self).remaining(proto) == old(self).remaining(proto).drop_first(),
            old(self).remaining(proto).len() == 0 ==> res.is_none() && *final(self) == *old(self),
    {
        if self.start == self.end_excluded {
            None
        } else {
            Some(self.next_unchecked(proto))
        }
    }

    /// The next element from the front of a cursor that has one left.
    pub fn next_unchecked(&mut self, proto: BitProto) -> (val: u64)
        requires
            old(self).wf(proto),
            old(self).spec_start() < old(self).spec_end(),
        ensures
            final(self).wf(proto),
            val == old(self).remaining(proto).first(),
            final(self).remaining(proto) == old(self).remaining(proto).drop_first(),
            final(self).source() == old(self).source(),
            final(self).spec_start() == old(self).spec_start() + 1,
            final(self).spec_end() == old(self).spec_end(),
    {
        proof {
            self.vec.lemma_wf_bounds(proto);
        }
        let val = self.vec.get_unchecked(proto, self.start);
        self.start = self.start + 1;
        proof {
            assert(self.remaining(proto) =~= old(self).remaining(proto).drop_first());
        }
        val
    }

    /// The next element from the back, if any is left.
    pub fn next_back(&mut self, proto: BitProto) -> (res: Option<u64>)
        requires
            old(self).wf(proto),
        ensures
            final(self).wf(proto),
            old(self).remaining(proto).len() > 0 ==> res == Some(old(self).remaining(proto).last())
                && final(self).remaining(proto) == old(self).remaining(proto).drop_last(),
            old(self).remaining(proto).len() == 0 ==> res.is_none() && *final(self) == *old(self),
    {
        if self.start == self.end_excluded {
            None
        } else {
            Some(self.next_back_unchecked(proto))
        }
    }

    /// The next element from the back of a cursor that has one left.
    pub fn next_back_unchecked(&mut self, proto: BitProto) -> (val: u64)
        requires
            old(self).wf(proto),
            old(self).spec_start() < old(self).spec_end(),
        ensures
            final(self).wf(proto),
            val == old(self).remaining(proto).last(),
            final(self).remaining(proto) == old(self).remaining(proto).drop_last(),
            final(self).source() == old(self).source(),
            final(self).spec_start() == old(self).spec_start(),
            final(self).spec_end() == old(self).spec_end() - 1,
    {
        proof {
            self.vec.lemma_wf_bounds(proto);
        }
        self.end_excluded = self.end_excluded - 1;
        let val = self.vec.get_unchecked(proto, self.end_excluded);
        proof {
            assert(self.remaining(proto) =~= old(self).remaining(proto).drop_last());
        }
        val
    }

    /// The number of elements still to come.
    pub fn len(&self) -> (len: usize)
        requires
            self.spec_start() <= self.spec_end(),
        ensures
            len == self.spec_end() - self.spec_start(),
    {
        self.end_excluded - self.start
    }
}

impl RawBitVecDrain {
    /// The elements that were drained, those already given out cleared.
    pub closed spec fn source(&self) -> RawBitVec {
        self.vec
    }

    /// Index of the next element from the front.
    pub closed spec fn spec_start(&self) -> usize {
        self.start
    }

    /// Index behind the next element from the back.
    pub closed spec fn spec_end(&self) -> usize {
        self.end_excluded
    }

    /// The cursor is well formed for `proto` when its elements are and its
    /// two ends lie in order within them.
    pub open spec fn wf(&self, proto: BitProto) -> bool {
        &&& self.source().wf(proto)
        &&& self.spec_start() <= self.spec_end() <= self.source().spec_len()
    }

    /// The elements still to come, front to back.
    pub open spec fn remaining(&self, proto: BitProto) -> Seq<u64> {
        self.source().view(proto).subrange(self.spec_start() as int, self.spec_end() as int)
    }

    /// A cursor over all of `vec`.
    pub(crate) fn over(vec: RawBitVec) -> (drain: RawBitVecDrain)
        ensures
            drain.source() == vec,
            drain.spec_start() == 0,
            drain.spec_end() == vec.spec_len(),
    {
        let end_excluded = vec.len();
        RawBitVecDrain { vec, start: 0, end_excluded }
    }

    /// The next element from the front, if any is left.
    pub fn next(&mut self, proto: BitProto) -> (res: Option<u64>)
        requires
            old(self).wf(proto),
        ensures
            final(self).wf(proto),
            old(self).remaining(proto).len() > 0 ==> res == Some(old(self).remaining(proto).first())
                && final(self).remaining(proto) == old(self).remaining(proto).drop_first(),
            old(self).remaining(proto).len() == 0 ==> res.is_none() && *final(self) == *old(self),
    {
        if self.start == self.end_excluded {
            None
        } else {
            Some(self.next_unchecked(proto))
        }
    }

    /// The next element from the front of a cursor that has one left.
    pub fn next_unchecked(&mut self, proto: BitProto) -> (val: u64)
        requires
            old(self).wf(proto),
            old(self).spec_start() < old(self).spec_end(),
        ensures
            final(self).wf(proto),
            val == old(self).remaining(proto).first(),
            final(self).remaining(proto) == old(self).remaining(proto).drop_first(),
            final(self).spec_start() == old(self).spec_start() + 1,
            final(self).spec_end() == old(self).spec_end(),
    {
        proof {
            self.vec.lemma_wf_bounds(proto);
            crate::bits::lemma_low_mask_bits();
        }
        let val = self.vec.replace_unchecked(proto, self.start, 0);
        self.start = self.start + 1;
        proof {
            assert(self.remaining(proto) =~= old(self).remaining(proto).drop_first());
        }
        val
    }

    /// The next element from the back, if any is left.
    pub fn next_back(&mut self, proto: BitProto) -> (res: Option<u64>)
        requires
            old(self).wf(proto),
        ensures
            final(self).wf(proto),
            old(self).remaining(proto).len() > 0 ==> res == Some(old(self).remaining(proto).last())
                && final(self).remaining(proto) == old(self).remaining(proto).drop_last(),
            old(self).remaining(proto).len() == 0 ==> res.is_none() && *final(self) == *old(self),
    {
        if self.start == self.end_excluded {
            None
        } else {
            Some(self.next_back_unchecked(proto))
        }
    }

    /// The next element from the back of a cursor that has one left.
    pub fn next_back_unchecked(&mut self, proto: BitProto) -> (val: u64)
        requires
            old(self).wf(proto),
            old(self).spec_start() < old(self).spec_end(),
        ensures
            final(self).wf(proto),
            val == old(self).remaining(proto).last(),
            final(self).remaining(proto) == old(self).remaining(proto).drop_last(),
            final(self).spec_start() == old(self).spec_start(),
            final(self).spec_end() == old(self).spec_end() - 1,
    {
        proof {
            self.vec.lemma_wf_bounds(proto);
        }
        self.end_excluded = self.end_excluded - 1;
        let val = self.vec.replace_unchecked(proto, self.end_excluded, 0);
        proof {
            assert(self.remaining(proto) =~= old(self).remaining(proto).drop_last());
        }
        val
    }

    /// The number of elements still to come.
    pub fn len(&self) -> (len: usize)
        requires
            self.spec_start() <= self.spec_end(),
        ensures
            len == self.spec_end() - self.spec_start(),
    {
        self.end_excluded - self.start
    }
}

} // verus!
