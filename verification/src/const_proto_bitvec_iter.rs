//! The cursors of [`CProtoBitVec`](crate::const_proto_bitvec::CProtoBitVec).

use vstd::prelude::*;
use crate::proto::BitProto;
use crate::raw_bitvec_iter::{RawBitVecDrain, RawBitVecIter};
use crate::const_proto_bitvec::const_proto;

verus! {

/// A cursor over a vector that it owns.
pub struct CProtoBitVecIter<const BIT_WIDTH: usize> {
    iter: RawBitVecIter,
}

impl<const BIT_WIDTH: usize> View for CProtoBitVecIter<BIT_WIDTH> {
    type V = Seq<u64>;

    open spec fn view(&self) -> Seq<u64> {
        self.raw().remaining(const_proto(BIT_WIDTH))
    }
}

impl<const BIT_WIDTH: usize> CProtoBitVecIter<BIT_WIDTH> {
    /// The prototype of `BIT_WIDTH` bits.
    pub(crate) fn proto() -> (proto: BitProto)
        requires
            1 <= BIT_WIDTH <= 64,
        ensures
            proto == const_proto(BIT_WIDTH),
            proto.wf(),
    {
        BitProto::create(BIT_WIDTH)
    }

    /// The cursor is well formed when the cursor underneath is, for the
    /// prototype.
    pub open spec fn wf(&self) -> bool {
        self.raw().wf(const_proto(BIT_WIDTH))
    }

    /// Wraps a cursor that is well formed for the prototype.
    pub(crate) fn over(iter: RawBitVecIter) -> (cursor: Self)
        requires
            1 <= BIT_WIDTH <= 64,
            iter.wf(const_proto(BIT_WIDTH)),
        ensures
            cursor.wf(),
            cursor.raw() == iter,
    {
        Self { iter }
    }

    /// The cursor underneath.
    pub closed spec fn raw(&self) -> RawBitVecIter {
        self.iter
    }

    /// The next element from the front, if any is left.
    pub fn next(&mut self) -> (res: Option<u64>)
        requires
            old(self).wf(),
        ensures
            final(self).wf(),
            old(self)@.len() > 0 ==> res == Some(old(self)@.first()) && final(self)@ == old(self)@.drop_first(),
            old(self)@.len() == 0 ==> res.is_none() && final(self)@ == old(self)@,
    {
        self.iter.next(Self::proto())
    }

    /// The next element from the back, if any is left.
    pub fn next_back(&mut self) -> (res: Option<u64>)
        requires
            old(self).wf(),
        ensures
            final(self).wf(),
            old(self)@.len() > 0 ==> res == Some(old(self)@.last()) && final(self)@ == old(self)@.drop_last(),
            old(self)@.len() == 0 ==> res.is_none() && final(self)@ == old(self)@,
    {
        self.iter.next_back(Self::proto())
    }

    /// The number of elements still to come, as the two ends of
    /// [`Iterator::size_hint`].
    pub fn size_hint(&self) -> (hint: (usize, Option<usize>))
        requires
            self.wf(),
        ensures
            hint.0 == self@.len(),
            hint.1 == Some(hint.0),
    {
        let len = self.len();
        (len, Some(len))
    }

    /// The number of elements still to come.
    pub fn len(&self) -> (len: usize)
        requires
            self.wf(),
        ensures
            len == self@.len(),
    {
        self.iter.len()
    }
}

/// A cursor over the elements drained from a vector.
pub struct CProtoBitVecDrain<const BIT_WIDTH: usize> {
    drain: RawBitVecDrain,
}

impl<const BIT_WIDTH: usize> View for CProtoBitVecDrain<BIT_WIDTH> {
    type V = Seq<u64>;

    open spec fn view(&self) -> Seq<u64> {
        self.raw().remaining(const_proto(BIT_WIDTH))
    }
}

impl<const BIT_WIDTH: usize> CProtoBitVecDrain<BIT_WIDTH> {
    /// The prototype of `BIT_WIDTH` bits.
    pub(crate) fn proto() -> (proto: BitProto)
        requires
            1 <= BIT_WIDTH <= 64,
        ensures
            proto == const_proto(BIT_WIDTH),
            proto.wf(),
    {
        BitProto::create(BIT_WIDTH)
    }

    /// The cursor is well formed when the cursor underneath is, for the
    /// prototype.
    pub open spec fn wf(&self) -> bool {
        self.raw().wf(const_proto(BIT_WIDTH))
    }

    /// Wraps a cursor that is well formed for the prototype.
    pub(crate) fn over(drain: RawBitVecDrain) -> (cursor: Self)
        requires
            1 <= BIT_WIDTH <= 64,
            drain.wf(const_proto(BIT_WIDTH)),
        ensures
            cursor.wf(),
            cursor.raw() == drain,
    {
        Self { drain }
    }

    /// The cursor underneath.
    pub closed spec fn raw(&self) -> RawBitVecDrain {
        self.drain
    }

    /// The next element from the front, if any is left.
    pub fn next(&mut self) -> (res: Option<u64>)
        requires
            old(self).wf(),
        ensures
            final(self).wf(),
            old(self)@.len() > 0 ==> res == Some(old(self)@.first()) && final(self)@ == old(self)@.drop_first(),
            old(self)@.len() == 0 ==> res.is_none() && final(self)@ == old(self)@,
    {
        self.drain.next(Self::proto())
    }

    /// The next element from the back, if any is left.
    pub fn next_back(&mut self) -> (res: Option<u64>)
        requires
            old(self).wf(),
        ensures
            final(self).wf(),
            old(self)@.len() > 0 ==> res == Some(old(self)@.last()) && final(self)@ == old(self)@.drop_last(),
            old(self)@.len() == 0 ==> res.is_none() && final(self)@ == old(self)@,
    {
        self.drain.next_back(Self::proto())
    }

    /// The number of elements still to come, as the two ends of
    /// [`Iterator::size_hint`].
    pub fn size_hint(&self) -> (hint: (usize, Option<usize>))
        requires
            self.wf(),
        ensures
            hint.0 == self@.len(),
            hint.1 == Some(hint.0),
    {
        let len = self.len();
        (len, Some(len))
    }

    /// The number of elements still to come.
    pub fn len(&self) -> (len: usize)
        requires
            self.wf(),
        ensures
            len == self@.len(),
    {
        self.drain.len()
    }
}

} // verus!
