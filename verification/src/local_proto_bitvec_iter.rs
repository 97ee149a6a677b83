//! The cursors of [`LProtoBitVec`](crate::local_proto_bitvec::LProtoBitVec).

use vstd::prelude::*;
use crate::proto::BitProto;
use crate::raw_bitvec_iter::{RawBitVecDrain, RawBitVecIter};

verus! {

/// A cursor over a vector that it owns.
pub struct LProtoBitVecIter {
    proto: BitProto,
    iter: RawBitVecIter,
}

impl View for LProtoBitVecIter {
    type V = Seq<u64>;

    open spec fn view(&self) -> Seq<u64> {
        self.raw().remaining(self.spec_proto())
    }
}

impl LProtoBitVecIter {
    /// The prototype of the elements.
    pub closed spec fn spec_proto(&self) -> BitProto {
        self.proto
    }

    /// The cursor is well formed when the cursor underneath is, for the
    /// prototype.
    pub open spec fn wf(&self) -> bool {
        self.raw().wf(self.spec_proto())
    }

    /// Wraps a cursor that is well formed for the prototype.
    pub(crate) fn over(proto: BitProto, iter: RawBitVecIter) -> (cursor: Self)
        requires
            iter.wf(proto),
        ensures
            cursor.wf(),
            cursor.raw() == iter,
            cursor.spec_proto() == proto,
    {
        Self { proto, iter }
    }

    /// The cursor underneath.
    pub closed spec fn raw(&self) -> RawBitVecIter {
        self.iter
    }

    /// The next element from the front, if any is left.
    pub fn next(&mut self) -> (res: Option<u64>)
        requires
            old(self).wf(),
        ensures
            final(self).wf(),
            final(self).spec_proto() == old(self).spec_proto(),
            old(self)@.len() > 0 ==> res == Some(old(self)@.first()) && final(self)@ == old(self)@.drop_first(),
            old(self)@.len() == 0 ==> res.is_none() && final(self)@ == old(self)@,
    {
        self.iter.next(self.proto)
    }

    /// The next element from the back, if any is left.
    pub fn next_back(&mut self) -> (res: Option<u64>)
        requires
            old(self).wf(),
        ensures
            final(self).wf(),
            final(self).spec_proto() == old(self).spec_proto(),
            old(self)@.len() > 0 ==> res == Some(old(self)@.last()) && final(self)@ == old(self)@.drop_last(),
            old(self)@.len() == 0 ==> res.is_none() && final(self)@ == old(self)@,
    {
        self.iter.next_back(self.proto)
    }

    /// The number of elements still to come, as the two ends of
    /// [`Iterator::size_hint`].
    pub fn size_hint(&self) -> (hint: (usize, Option<usize>))
        requires
            self.wf(),
        ensures
            hint.0 == self@.len(),
            hint.1 == Some(hint.0),
    {
        let len = self.len();
        (len, Some(len))
    }

    /// The number of elements still to come.
    pub fn len(&self) -> (len: usize)
        requires
            self.wf(),
        ensures
            len == self@.len(),
    {
        self.iter.len()
    }
}

/// A cursor over the elements drained from a vector.
pub struct LProtoBitVecDrain {
    proto: BitProto,
    drain: RawBitVecDrain,
}

impl View for LProtoBitVecDrain {
    type V = Seq<u64>;

    open spec fn view(&self) -> Seq<u64> {
        self.raw().remaining(self.spec_proto())
    }
}

impl LProtoBitVecDrain {
    /// The prototype of the elements.
    pub closed spec fn spec_proto(&self) -> BitProto {
        self.proto
    }

    /// The cursor is well formed when the cursor underneath is, for the
    /// prototype.
    pub open spec fn wf(&self) -> bool {
        self.raw().wf(self.spec_proto())
    }

    /// Wraps a cursor that is well formed for the prototype.
    pub(crate) fn over(proto: BitProto, drain: RawBitVecDrain) -> (cursor: Self)
        requires
            drain.wf(proto),
        ensures
            cursor.wf(),
            cursor.raw() == drain,
            cursor.spec_proto() == proto,
    {
        Self { proto, drain }
    }

    /// The cursor underneath.
    pub closed spec fn raw(&self) -> RawBitVecDrain {
        self.drain
    }

    /// The next element from the front, if any is left.
    pub fn next(&mut self) -> (res: Option<u64>)
        requires
            old(self).wf(),
        ensures
            final(self).wf(),
            final(self).spec_proto() == old(self).spec_proto(),
            old(self)@.len() > 0 ==> res == Some(old(self)@.first()) && final(self)@ == old(self)@.drop_first(),
            old(self)@.len() == 0 ==> res.is_none() && final(self)@ == old(self)@,
    {
        self.drain.next(self.proto)
    }

    /// The next element from the back, if any is left.
    pub fn next_back(&mut self) -> (res: Option<u64>)
        requires
            old(self).wf(),
        ensures
            final(self).wf(),
            final(self).spec_proto() == old(self).spec_proto(),
            old(self)@.len() > 0 ==> res == Some(old(self)@.last()) && final(self)@ == old(self)@.drop_last(),
            old(self)@.len() == 0 ==> res.is_none() && final(self)@ == old(self)@,
    {
        self.drain.next_back(self.proto)
    }

    /// The number of elements still to come, as the two ends of
    /// [`Iterator::size_hint`].
    pub fn size_hint(&self) -> (hint: (usize, Option<usize>))
        requires
            self.wf(),
        ensures
            hint.0 == self@.len(),
            hint.1 == Some(hint.0),
    {
        let len = self.len();
        (len, Some(len))
    }

    /// The number of elements still to come.
    pub fn len(&self) -> (len: usize)
        requires
            self.wf(),
        ensures
            len == self@.len(),
    {
        self.drain.len()
    }
}

} // verus!
