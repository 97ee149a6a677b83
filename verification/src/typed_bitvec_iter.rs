//! The cursors of [`TypedBitVec`](crate::typed_bitvec::TypedBitVec).

use vstd::prelude::*;
use core::marker::PhantomData;
use crate::bitvec_elem::BitElem;
use crate::const_proto_bitvec::const_proto;
use crate::proto::BitProto;
use crate::raw_bitvec_iter::{RawBitVecDrain, RawBitVecIter};
use crate::typed_bitvec::{decode, lemma_decode};

verus! {

/// A cursor over a vector that it owns.
pub struct TypedBitVecIter<T: BitElem> {
    iter: RawBitVecIter,
    kind: PhantomData<T>,
}

impl<T: BitElem> View for TypedBitVecIter<T> {
    type V = Seq<T::Base>;

    open spec fn view(&self) -> Seq<T::Base> {
        decode::<T>(self.raw().remaining(const_proto(T::spec_bits())))
    }
}

impl<T: BitElem> TypedBitVecIter<T> {
    /// The cursor underneath.
    pub closed spec fn raw(&self) -> RawBitVecIter {
        self.iter
    }

    /// The cursor is well formed when the cursor underneath is, for the
    /// prototype of the kind.
    pub open spec fn wf(&self) -> bool {
        self.raw().wf(const_proto(T::spec_bits()))
    }

    /// Wraps a cursor that is well formed for the prototype of the kind.
    pub(crate) fn over(iter: RawBitVecIter) -> (cursor: Self)
        requires
            iter.wf(const_proto(T::spec_bits())),
        ensures
            cursor.wf(),
            cursor.raw() == iter,
    {
        Self { iter, kind: PhantomData }
    }

    /// The next element from the front, if any is left.
    pub fn next(&mut self) -> (res: Option<T::Base>)
        requires
            old(self).wf(),
        ensures
            final(self).wf(),
            old(self)@.len() > 0 ==> res == Some(old(self)@.first()) && final(self)@ == old(self)@.drop_first(),
            old(self)@.len() == 0 ==> res.is_none() && final(self)@ == old(self)@,
    {
        proof {
            lemma_decode::<T>(self.raw().remaining(const_proto(T::spec_bits())), Seq::empty(), 0, 0, 0);
        }
        match self.iter.next(BitProto::create(T::bits())) {
            Some(bits) => Some(T::bits_to_val(bits)),
            None => None,
        }
    }

    /// The next element from the back, if any is left.
    pub fn next_back(&mut self) -> (res: Option<T::Base>)
        requires
            old(self).wf(),
        ensures
            final(self).wf(),
            old(self)@.len() > 0 ==> res == Some(old(self)@.last()) && final(self)@ == old(self)@.drop_last(),
            old(self)@.len() == 0 ==> res.is_none() && final(self)@ == old(self)@,
    {
        proof {
            lemma_decode::<T>(self.raw().remaining(const_proto(T::spec_bits())), Seq::empty(), 0, 0, 0);
        }
        match self.iter.next_back(BitProto::create(T::bits())) {
            Some(bits) => Some(T::bits_to_val(bits)),
            None => None,
        }
    }

    /// The number of elements still to come, as the two ends of
    /// [`Iterator::size_hint`].
    pub fn size_hint(&self) -> (hint: (usize, Option<usize>))
        requires
            self.wf(),
        ensures
            hint.0 == self@.len(),
            hint.1 == Some(hint.0),
    {
        let len = self.len();
        (len, Some(len))
    }

    /// The number of elements still to come.
    pub fn len(&self) -> (len: usize)
        requires
            self.wf(),
        ensures
            len == self@.len(),
    {
        self.iter.len()
    }
}

/// A cursor over the elements drained from a vector.
pub struct TypedBitVecDrain<T: BitElem> {
    drain: RawBitVecDrain,
    kind: PhantomData<T>,
}

impl<T: BitElem> View for TypedBitVecDrain<T> {
    type V = Seq<T::Base>;

    open spec fn view(&self) -> Seq<T::Base> {
        decode::<T>(self.raw().remaining(const_proto(T::spec_bits())))
    }
}

impl<T: BitElem> TypedBitVecDrain<T> {
    /// The cursor underneath.
    pub closed spec fn raw(&self) -> RawBitVecDrain {
        self.drain
    }

    /// The cursor is well formed when the cursor underneath is, for the
    /// prototype of the kind.
    pub open spec fn wf(&self) -> bool {
        self.raw().wf(const_proto(T::spec_bits()))
    }

    /// Wraps a cursor that is well formed for the prototype of the kind.
    pub(crate) fn over(drain: RawBitVecDrain) -> (cursor: Self)
        requires
            drain.wf(const_proto(T::spec_bits())),
        ensures
            cursor.wf(),
            cursor.raw() == drain,
    {
        Self { drain, kind: PhantomData }
    }

    /// The next element from the front, if any is left.
    pub fn next(&mut self) -> (res: Option<T::Base>)
        requires
            old(self).wf(),
        ensures
            final(self).wf(),
            old(self)@.len() > 0 ==> res == Some(old(self)@.first()) && final(self)@ == old(self)@.drop_first(),
            old(self)@.len() == 0 ==> res.is_none() && final(self)@ == old(self)@,
    {
        proof {
            lemma_decode::<T>(self.raw().remaining(const_proto(T::spec_bits())), Seq::empty(), 0, 0, 0);
        }
        match self.drain.next(BitProto::create(T::bits())) {
            Some(bits) => Some(T::bits_to_val(bits)),
            None => None,
        }
    }

    /// The next element from the back, if any is left.
    pub fn next_back(&mut self) -> (res: Option<T::Base>)
        requires
            old(self).wf(),
        ensures
            final(self).wf(),
            old(self)@.len() > 0 ==> res == Some(old(self)@.last()) && final(self)@ == old(self)@.drop_last(),
            old(self)@.len() == 0 ==> res.is_none() && final(self)@ == old(self)@,
    {
        proof {
            lemma_decode::<T>(self.raw().remaining(const_proto(T::spec_bits())), Seq::empty(), 0, 0, 0);
        }
        match self.drain.next_back(BitProto::create(T::bits())) {
            Some(bits) => Some(T::bits_to_val(bits)),
            None => None,
        }
    }

    /// The number of elements still to come, as the two ends of
    /// [`Iterator::size_hint`].
    pub fn size_hint(&self) -> (hint: (usize, Option<usize>))
        requires
            self.wf(),
        ensures
            hint.0 == self@.len(),
            hint.1 == Some(hint.0),
    {
        let len = self.len();
        (len, Some(len))
    }

    /// The number of elements still to come.
    pub fn len(&self) -> (len: usize)
        requires
            self.wf(),
        ensures
            len == self@.len(),
    {
        self.drain.len()
    }
}

} // verus!
