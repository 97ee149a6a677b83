//! A packed vector of values of a richer type.

use vstd::prelude::*;
use core::marker::PhantomData;
use crate::bitvec_elem::BitElem;
use crate::capacity::Grow;
use crate::const_proto_bitvec::const_proto;
use crate::error::BitVecError;
use crate::proto::{words_for_bits, BitProto};
use crate::raw_bitvec::{grown_block_count, RawBitVec};
use crate::storage::{store, swap_popped, swapped, truncated, words_kept_from, zero_extended, zero_padded};
use crate::typed_bitvec_iter::{TypedBitVecDrain, TypedBitVecIter};

verus! {

/// The values that the bit patterns `raw` stand for in the kind `T`.
pub open spec fn decode<T: BitElem>(raw: Seq<u64>) -> Seq<T::Base> {
    raw.map_values(|bits: u64| T::spec_bits_to_val(bits))
}

/// The value that is read back after `val` was stored: `val` itself for
/// every value that the width of the kind can hold.
pub open spec fn stored<T: BitElem>(val: T::Base) -> T::Base {
    T::spec_bits_to_val(T::spec_val_to_bits(val))
}

/// Decoding goes element by element, so that it commutes with every
/// rearrangement of a sequence.
pub proof fn lemma_decode<T: BitElem>(raw: Seq<u64>, other: Seq<u64>, i: int, j: int, bits: u64)
    ensures
        decode::<T>(raw).len() == raw.len(),
        decode::<T>(raw.push(bits)) == decode::<T>(raw).push(T::spec_bits_to_val(bits)),
        decode::<T>(raw + other) == decode::<T>(raw) + decode::<T>(other),
        0 <= i < raw.len() ==> decode::<T>(raw)[i] == T::spec_bits_to_val(raw[i]),
        0 <= i < raw.len() ==> decode::<T>(raw.update(i, bits)) == decode::<T>(raw).update(
            i,
            T::spec_bits_to_val(bits),
        ),
        0 <= i <= raw.len() ==> decode::<T>(raw.insert(i, bits)) == decode::<T>(raw).insert(
            i,
            T::spec_bits_to_val(bits),
        ),
        0 <= i < raw.len() ==> decode::<T>(raw.remove(i)) == decode::<T>(raw).remove(i),
        0 <= i <= j <= raw.len() ==> decode::<T>(raw.subrange(i, j)) == decode::<T>(raw).subrange(i, j),
        raw.len() > 0 ==> decode::<T>(raw.drop_last()) == decode::<T>(raw).drop_last() && decode::<T>(raw).last()
            == T::spec_bits_to_val(raw.last()),
        raw.len() > 0 ==> decode::<T>(raw.drop_first()) == decode::<T>(raw).drop_first() && decode::<T>(raw).first()
            == T::spec_bits_to_val(raw.first()),
{
    assert(decode::<T>(raw.push(bits)) =~= decode::<T>(raw).push(T::spec_bits_to_val(bits)));
    assert(decode::<T>(raw + other) =~= decode::<T>(raw) + decode::<T>(other));
    if 0 <= i < raw.len() {
        assert(decode::<T>(raw.update(i, bits)) =~= decode::<T>(raw).update(i, T::spec_bits_to_val(bits)));
        assert(decode::<T>(raw.remove(i)) =~= decode::<T>(raw).remove(i));
    }
    if 0 <= i <= raw.len() {
        assert(decode::<T>(raw.insert(i, bits)) =~= decode::<T>(raw).insert(i, T::spec_bits_to_val(bits)));
    }
    if 0 <= i <= j <= raw.len() {
        assert(decode::<T>(raw.subrange(i, j)) =~= decode::<T>(raw).subrange(i, j));
    }
    if raw.len() > 0 {
        assert(decode::<T>(raw.drop_last()) =~= decode::<T>(raw).drop_last());
        assert(decode::<T>(raw.drop_first()) =~= decode::<T>(raw).drop_first());
    }
}

/// A packed vector of values of the kind `T`. The kind fixes the width of
/// an element and converts the values where they enter and leave.
pub struct TypedBitVec<T: BitElem> {
    vec: RawBitVec,
    kind: PhantomData<T>,
}

impl<T: BitElem> View for TypedBitVec<T> {
    type V = Seq<T::Base>;

    open spec fn view(&self) -> Seq<T::Base> {
        decode::<T>(self.bits_view())
    }
}

impl<T: BitElem> TypedBitVec<T> {
    /// The vector underneath.
    pub closed spec fn raw(&self) -> RawBitVec {
        self.vec
    }

    /// The prototype that the kind calls for.
    pub open spec fn spec_proto() -> BitProto {
        const_proto(T::spec_bits())
    }

    /// The vector is well formed when the vector underneath is, for the
    /// prototype of the kind.
    pub open spec fn wf(&self) -> bool {
        self.raw().wf(Self::spec_proto())
    }

    /// The bit patterns of the elements, first to last.
    pub open spec fn bits_view(&self) -> Seq<u64> {
        self.raw().view(Self::spec_proto())
    }

    /// The number of elements.
    pub open spec fn spec_len(&self) -> usize {
        self.raw().spec_len()
    }

    /// The number of elements that fit without growing.
    pub open spec fn spec_cap(&self) -> int {
        self.raw().spec_cap(Self::spec_proto())
    }

    /// The number of words allocated.
    pub open spec fn true_cap(&self) -> nat {
        self.raw().true_cap()
    }

    /// The prototype that the kind calls for.
    pub fn proto() -> (proto: BitProto)
        requires
            1 <= T::spec_bits() <= 64,
        ensures
            proto == Self::spec_proto(),
            proto.wf(),
    {
        BitProto::create(T::bits())
    }

    /// The number of elements.
    pub fn len(&self) -> (len: usize)
        ensures
            len == self.spec_len(),
    {
        self.vec.len()
    }

    /// The number of elements that fit without growing.
    pub fn cap(&self) -> (cap: usize)
        requires
            self.wf(),
        ensures
            cap == self.spec_cap(),
            self.spec_len() <= cap,
    {
        self.vec.cap(Self::proto())
    }

    /// The number of elements that can still be added without growing.
    pub fn free(&self) -> (free: usize)
        requires
            self.wf(),
        ensures
            free == self.spec_cap() - self.spec_len(),
    {
        self.vec.free(Self::proto())
    }

    /// An empty vector without storage.
    pub fn new() -> (vec: Self)
        requires
            1 <= T::spec_bits() <= 64,
        ensures
            vec.wf(),
            vec.spec_len() == 0,
            vec.true_cap() == 0,
            vec@ == Seq::<T::Base>::empty(),
    {
        let vec = Self { vec: RawBitVec::new(), kind: PhantomData };
        proof {
            assert(vec@ =~= Seq::<T::Base>::empty());
        }
        vec
    }

    /// An empty vector with room for at least `cap` elements.
    pub fn with_capacity(cap: usize) -> (vec: Self)
        requires
            1 <= T::spec_bits() <= 64,
            cap <= Self::spec_proto().MAX_CAPACITY,
        ensures
            vec.wf(),
            vec.spec_len() == 0,
            vec.true_cap() == words_for_bits(cap * Self::spec_proto().BITS),
            vec.spec_cap() >= cap,
            vec@ == Seq::<T::Base>::empty(),
    {
        let vec = Self { vec: RawBitVec::with_capacity(Self::proto(), cap), kind: PhantomData };
        proof {
            assert(vec@ =~= Seq::<T::Base>::empty());
        }
        vec
    }

    /// Wraps a vector. The wrapper is well formed exactly if the vector is
    /// well formed for the prototype of the kind.
    pub fn from_raw(raw: RawBitVec) -> (vec: Self)
        ensures
            vec.raw() == raw,
            vec.wf() == raw.wf(Self::spec_proto()),
    {
        Self { vec: raw, kind: PhantomData }
    }

    /// The vector underneath.
    pub fn as_raw(&self) -> (raw: &RawBitVec)
        requires
            self.wf(),
        ensures
            *raw == self.raw(),
            raw.wf(Self::spec_proto()),
    {
        &self.vec
    }

    /// Gives up the wrapper and hands out the vector underneath.
    pub fn into_raw(self) -> (raw: RawBitVec)
        requires
            self.wf(),
        ensures
            raw == self.raw(),
            raw.wf(Self::spec_proto()),
    {
        self.vec
    }

    /// Forgets the elements and keeps the storage.
    pub fn clear(&mut self)
        requires
            old(self).wf(),
        ensures
            final(self).wf(),
            final(self).spec_len() == 0,
            final(self)@ == Seq::<T::Base>::empty(),
            final(self).raw().storage() == old(self).raw().storage(),
            final(self).true_cap() == old(self).true_cap(),
    {
        self.vec.clear();
        proof {
            assert(self@ =~= Seq::<T::Base>::empty());
        }
    }

    /// Makes room for `extra_elements` more elements, growing to exactly
    /// the words they need.
    pub fn grow_exact_for_additional_elements_if_needed(&mut self, extra_elements: usize) -> (res: Result<(), BitVecError>)
        requires
            old(self).wf(),
        ensures
            final(self).wf(),
            old(self).spec_len() + extra_elements <= Self::spec_proto().MAX_CAPACITY ==> {
                &&& res == Ok::<(), BitVecError>(())
                &&& final(self)@ == old(self)@
                &&& zero_extended(old(self).raw().storage(), final(self).raw().storage())
                &&& final(self).true_cap() == grown_block_count(
                    old(self).true_cap() as int,
                    words_for_bits((old(self).spec_len() + extra_elements) * Self::spec_proto().BITS),
                    false,
                )
                &&& final(self).spec_cap() >= old(self).spec_len() + extra_elements
            },
            old(self).spec_len() + extra_elements > Self::spec_proto().MAX_CAPACITY ==> {
                &&& res == Err::<(), BitVecError>(
                    BitVecError::CapacityExceeded { max_capacity: Self::spec_proto().MAX_CAPACITY },
                )
                &&& final(self).raw() == old(self).raw()
            },
    {
        self.vec.grow_exact_for_additional_elements_if_needed(Self::proto(), extra_elements)
    }

    /// Makes room for `total_elements` elements in all, growing to exactly
    /// the words they need.
    pub fn grow_exact_for_total_elements_if_needed(&mut self, total_elements: usize) -> (res: Result<(), BitVecError>)
        requires
            old(self).wf(),
        ensures
            final(self).wf(),
            total_elements <= Self::spec_proto().MAX_CAPACITY ==> {
                &&& res == Ok::<(), BitVecError>(())
                &&& final(self)@ == old(self)@
                &&& zero_extended(old(self).raw().storage(), final(self).raw().storage())
                &&& final(self).true_cap() == grown_block_count(
                    old(self).true_cap() as int,
                    words_for_bits((total_elements) * Self::spec_proto().BITS),
                    false,
                )
                &&& final(self).spec_cap() >= total_elements
            },
            total_elements > Self::spec_proto().MAX_CAPACITY ==> {
                &&& res == Err::<(), BitVecError>(
                    BitVecError::CapacityExceeded { max_capacity: Self::spec_proto().MAX_CAPACITY },
                )
                &&& final(self).raw() == old(self).raw()
            },
    {
        self.vec.grow_exact_for_total_elements_if_needed(Self::proto(), total_elements)
    }

    /// Makes room for `extra_elements` more elements, growing to the words
    /// they need and half as many again.
    pub fn grow_for_additional_elements_if_needed(&mut self, extra_elements: usize) -> (res: Result<(), BitVecError>)
        requires
            old(self).wf(),
        ensures
            final(self).wf(),
            old(self).spec_len() + extra_elements <= Self::spec_proto().MAX_CAPACITY ==> {
                &&& res == Ok::<(), BitVecError>(())
                &&& final(self)@ == old(self)@
                &&& zero_extended(old(self).raw().storage(), final(self).raw().storage())
                &&& final(self).true_cap() == grown_block_count(
                    old(self).true_cap() as int,
                    words_for_bits((old(self).spec_len() + extra_elements) * Self::spec_proto().BITS),
                    true,
                )
                &&& final(self).spec_cap() >= old(self).spec_len() + extra_elements
            },
            old(self).spec_len() + extra_elements > Self::spec_proto().MAX_CAPACITY ==> {
                &&& res == Err::<(), BitVecError>(
                    BitVecError::CapacityExceeded { max_capacity: Self::spec_proto().MAX_CAPACITY },
                )
                &&& final(self).raw() == old(self).raw()
            },
    {
        self.vec.grow_for_additional_elements_if_needed(Self::proto(), extra_elements)
    }

    /// Makes room for `total_elements` elements in all, growing to the
    /// words they need and half as many again.
    pub fn grow_for_total_elements_if_needed(&mut self, total_elements: usize) -> (res: Result<(), BitVecError>)
        requires
            old(self).wf(),
        ensures
            final(self).wf(),
            total_elements <= Self::spec_proto().MAX_CAPACITY ==> {
                &&& res == Ok::<(), BitVecError>(())
                &&& final(self)@ == old(self)@
                &&& zero_extended(old(self).raw().storage(), final(self).raw().storage())
                &&& final(self).true_cap() == grown_block_count(
                    old(self).true_cap() as int,
                    words_for_bits((total_elements) * Self::spec_proto().BITS),
                    true,
                )
                &&& final(self).spec_cap() >= total_elements
            },
            total_elements > Self::spec_proto().MAX_CAPACITY ==> {
                &&& res == Err::<(), BitVecError>(
                    BitVecError::CapacityExceeded { max_capacity: Self::spec_proto().MAX_CAPACITY },
                )
                &&& final(self).raw() == old(self).raw()
            },
    {
        self.vec.grow_for_total_elements_if_needed(Self::proto(), total_elements)
    }

    /// Appends `val`, growing as [`RawBitVec::push`] does.
    pub fn push(&mut self, val: T::Base) -> (res: Result<(), BitVecError>)
        requires
            old(self).wf(),
        ensures
            final(self).wf(),
            old(self).spec_len() < Self::spec_proto().MAX_CAPACITY ==> {
                &&& res == Ok::<(), BitVecError>(())
                &&& final(self)@ == old(self)@.push(stored::<T>(val))
                &&& final(self).true_cap() == old(self).raw().policy_block_count(
                    Self::spec_proto(),
                    old(self).spec_len() + 1,
                    Grow::OnePointFive,
                )
                &&& final(self).true_cap() >= old(self).true_cap()
                &&& final(self).raw().storage() == store(
                    zero_padded(old(self).raw().storage(), final(self).true_cap() as int),
                    old(self).spec_len() * Self::spec_proto().BITS,
                    Self::spec_proto().BITS as int,
                    T::spec_val_to_bits(val),
                )
            },
            old(self).spec_len() >= Self::spec_proto().MAX_CAPACITY ==> {
                &&& res == Err::<(), BitVecError>(
                    BitVecError::CapacityExceeded { max_capacity: Self::spec_proto().MAX_CAPACITY },
                )
                &&& final(self).raw() == old(self).raw()
            },
    {
        let bits = T::val_to_bits(val);
        proof {
            lemma_decode::<T>(self.bits_view(), Seq::empty(), 0, 0, bits);
        }
        self.vec.push(Self::proto(), bits)
    }

    /// Appends `val` to a vector that has room for it.
    pub fn push_unchecked(&mut self, val: T::Base)
        requires
            old(self).wf(),
            old(self).spec_len() < old(self).spec_cap(),
        ensures
            final(self).wf(),
            final(self)@ == old(self)@.push(stored::<T>(val)),
            final(self).raw().storage() == store(
                old(self).raw().storage(),
                old(self).spec_len() * Self::spec_proto().BITS,
                Self::spec_proto().BITS as int,
                T::spec_val_to_bits(val),
            ),
            final(self).true_cap() == old(self).true_cap(),
    {
        let bits = T::val_to_bits(val);
        proof {
            lemma_decode::<T>(self.bits_view(), Seq::empty(), 0, 0, bits);
        }
        self.vec.push_unchecked(Self::proto(), bits)
    }

    /// Takes the last element off. The bits that held it are cleared.
    pub fn pop(&mut self) -> (res: Result<T::Base, BitVecError>)
        requires
            old(self).wf(),
        ensures
            final(self).wf(),
            old(self).spec_len() > 0 ==> {
                &&& res == Ok::<T::Base, BitVecError>(old(self)@.last())
                &&& final(self)@ == old(self)@.drop_last()
                &&& final(self).raw().storage() == store(
                    old(self).raw().storage(),
                    (old(self).spec_len() - 1) * Self::spec_proto().BITS,
                    Self::spec_proto().BITS as int,
                    0,
                )
                &&& final(self).true_cap() == old(self).true_cap()
            },
            old(self).spec_len() == 0 ==> {
                &&& res == Err::<T::Base, BitVecError>(BitVecError::EmptyVector)
                &&& final(self).raw() == old(self).raw()
            },
    {
        proof {
            self.raw().lemma_wf_bounds(Self::spec_proto());
            lemma_decode::<T>(self.bits_view(), Seq::empty(), 0, 0, 0);
        }
        match self.vec.pop(Self::proto()) {
            Ok(bits) => Ok(T::bits_to_val(bits)),
            Err(e) => Err(e),
        }
    }

    /// Takes the last element off a vector that is not empty.
    pub fn pop_unchecked(&mut self) -> (val: T::Base)
        requires
            old(self).wf(),
            old(self).spec_len() > 0,
        ensures
            final(self).wf(),
            val == old(self)@.last(),
            final(self)@ == old(self)@.drop_last(),
            final(self).raw().storage() == store(
                old(self).raw().storage(),
                (old(self).spec_len() - 1) * Self::spec_proto().BITS,
                Self::spec_proto().BITS as int,
                0,
            ),
            final(self).true_cap() == old(self).true_cap(),
    {
        proof {
            self.raw().lemma_wf_bounds(Self::spec_proto());
            lemma_decode::<T>(self.bits_view(), Seq::empty(), 0, 0, 0);
        }
        T::bits_to_val(self.vec.pop_unchecked(Self::proto()))
    }

    /// Puts `val` at `idx` and moves the elements from there on up by one.
    pub fn insert(&mut self, idx: usize, val: T::Base) -> (res: Result<(), BitVecError>)
        requires
            old(self).wf(),
        ensures
            final(self).wf(),
            idx > old(self).spec_len() ==> {
                &&& res == Err::<(), BitVecError>(
                    BitVecError::IndexOutOfRange { index: idx, len: old(self).spec_len() },
                )
                &&& final(self).raw() == old(self).raw()
            },
            idx <= old(self).spec_len() && old(self).spec_len() >= Self::spec_proto().MAX_CAPACITY ==> {
                &&& res == Err::<(), BitVecError>(
                    BitVecError::CapacityExceeded { max_capacity: Self::spec_proto().MAX_CAPACITY },
                )
                &&& final(self).raw() == old(self).raw()
            },
            idx <= old(self).spec_len() < Self::spec_proto().MAX_CAPACITY ==> {
                &&& res == Ok::<(), BitVecError>(())
                &&& final(self)@ == old(self)@.insert(idx as int, stored::<T>(val))
                &&& words_kept_from(
                    old(self).raw().storage(),
                    final(self).raw().storage(),
                    words_for_bits((old(self).spec_len() + 1) * Self::spec_proto().BITS),
                )
                &&& final(self).true_cap() == old(self).raw().policy_block_count(
                    Self::spec_proto(),
                    old(self).spec_len() + 1,
                    Grow::OnePointFive,
                )
                &&& final(self).true_cap() >= old(self).true_cap()
            },
    {
        let bits = T::val_to_bits(val);
        proof {
            self.raw().lemma_wf_bounds(Self::spec_proto());
            lemma_decode::<T>(self.bits_view(), Seq::empty(), idx as int, 0, bits);
        }
        self.vec.insert(Self::proto(), idx, bits)
    }

    /// Puts `val` at `idx`, which is below the length, in a vector that
    /// has room for one element more.
    pub fn insert_unchecked(&mut self, idx: usize, val: T::Base)
        requires
            old(self).wf(),
            idx < old(self).spec_len(),
            old(self).spec_len() < old(self).spec_cap(),
        ensures
            final(self).wf(),
            final(self)@ == old(self)@.insert(idx as int, stored::<T>(val)),
            words_kept_from(
                old(self).raw().storage(),
                final(self).raw().storage(),
                words_for_bits((old(self).spec_len() + 1) * Self::spec_proto().BITS),
            ),
            final(self).true_cap() == old(self).true_cap(),
    {
        let bits = T::val_to_bits(val);
        proof {
            self.raw().lemma_wf_bounds(Self::spec_proto());
            lemma_decode::<T>(self.bits_view(), Seq::empty(), idx as int, 0, bits);
        }
        self.vec.insert_unchecked(Self::proto(), idx, bits)
    }

    /// Puts the elements of `bitvec` in at `insert_idx`, growing once for
    /// all of them.
    pub fn insert_bitvec(&mut self, insert_idx: usize, bitvec: Self) -> (res: Result<(), BitVecError>)
        requires
            old(self).wf(),
            bitvec.wf(),
        ensures
            final(self).wf(),
            insert_idx > old(self).spec_len() ==> {
                &&& res == Err::<(), BitVecError>(
                    BitVecError::IndexOutOfRange { index: insert_idx, len: old(self).spec_len() },
                )
                &&& final(self).raw() == old(self).raw()
            },
            insert_idx <= old(self).spec_len() && old(self).spec_len() + bitvec.spec_len()
                > Self::spec_proto().MAX_CAPACITY ==> {
                &&& res == Err::<(), BitVecError>(
                    BitVecError::CapacityExceeded { max_capacity: Self::spec_proto().MAX_CAPACITY },
                )
                &&& final(self).raw() == old(self).raw()
            },
            insert_idx <= old(self).spec_len() && old(self).spec_len() + bitvec.spec_len()
                <= Self::spec_proto().MAX_CAPACITY ==> {
                &&& res == Ok::<(), BitVecError>(())
                &&& final(self)@ == old(self)@.subrange(0, insert_idx as int) + bitvec@ + old(self)@.subrange(
                    insert_idx as int,
                    old(self).spec_len() as int,
                )
                &&& words_kept_from(
                    old(self).raw().storage(),
                    final(self).raw().storage(),
                    words_for_bits((old(self).spec_len() + bitvec.spec_len()) * Self::spec_proto().BITS),
                )
                &&& final(self).true_cap() == grown_block_count(
                    old(self).true_cap() as int,
                    words_for_bits((old(self).spec_len() + bitvec.spec_len()) * Self::spec_proto().BITS),
                    true,
                )
            },
    {
        proof {
            Self::lemma_spliced(self.bits_view(), bitvec.bits_view(), insert_idx as int);
            self.raw().lemma_wf_bounds(Self::spec_proto());
        }
        self.vec.insert_bitvec(Self::proto(), insert_idx, bitvec.into_raw())
    }

    /// Puts the elements of `bitvec` in at `insert_idx`, which is below
    /// the length, in a vector that has room for them.
    pub fn insert_bitvec_unchecked(&mut self, insert_idx: usize, bitvec: Self)
        requires
            old(self).wf(),
            bitvec.wf(),
            insert_idx < old(self).spec_len(),
            old(self).spec_len() + bitvec.spec_len() <= old(self).spec_cap(),
        ensures
            final(self).wf(),
            final(self)@ == old(self)@.subrange(0, insert_idx as int) + bitvec@ + old(self)@.subrange(
                insert_idx as int,
                old(self).spec_len() as int,
            ),
            words_kept_from(
                old(self).raw().storage(),
                final(self).raw().storage(),
                words_for_bits((old(self).spec_len() + bitvec.spec_len()) * Self::spec_proto().BITS),
            ),
            final(self).true_cap() == old(self).true_cap(),
    {
        proof {
            Self::lemma_spliced(self.bits_view(), bitvec.bits_view(), insert_idx as int);
            self.raw().lemma_wf_bounds(Self::spec_proto());
        }
        self.vec.insert_bitvec_unchecked(Self::proto(), insert_idx, bitvec.into_raw())
    }

    /// Decoding a sequence with another spliced in at `at` is splicing the
    /// decoded sequences.
    proof fn lemma_spliced(raw: Seq<u64>, other: Seq<u64>, at: int)
        ensures
            0 <= at <= raw.len() ==> decode::<T>(raw.subrange(0, at) + other + raw.subrange(at, raw.len() as int))
                == decode::<T>(raw).subrange(0, at) + decode::<T>(other) + decode::<T>(raw).subrange(
                at,
                raw.len() as int,
            ),
    {
        if 0 <= at <= raw.len() {
            assert(decode::<T>(raw.subrange(0, at) + other + raw.subrange(at, raw.len() as int)) =~= decode::<T>(
                raw,
            ).subrange(0, at) + decode::<T>(other) + decode::<T>(raw).subrange(at, raw.len() as int));
        }
    }

    /// Takes the element at `idx` out and moves the elements behind it
    /// down by one.
    pub fn remove(&mut self, idx: usize) -> (res: Result<T::Base, BitVecError>)
        requires
            old(self).wf(),
        ensures
            final(self).wf(),
            idx < old(self).spec_len() ==> {
                &&& res == Ok::<T::Base, BitVecError>(old(self)@[idx as int])
                &&& final(self)@ == old(self)@.remove(idx as int)
                &&& words_kept_from(
                    old(self).raw().storage(),
                    final(self).raw().storage(),
                    words_for_bits(old(self).spec_len() * Self::spec_proto().BITS),
                )
                &&& final(self).true_cap() == old(self).true_cap()
            },
            idx >= old(self).spec_len() ==> {
                &&& res == Err::<T::Base, BitVecError>(
                    BitVecError::IndexOutOfRange { index: idx, len: old(self).spec_len() },
                )
                &&& final(self).raw() == old(self).raw()
            },
    {
        proof {
            self.raw().lemma_wf_bounds(Self::spec_proto());
            lemma_decode::<T>(self.bits_view(), Seq::empty(), idx as int, 0, 0);
        }
        match self.vec.remove(Self::proto(), idx) {
            Ok(bits) => Ok(T::bits_to_val(bits)),
            Err(e) => Err(e),
        }
    }

    /// Takes the element at `idx`, which is below the length, out.
    pub fn remove_unchecked(&mut self, idx: usize) -> (val: T::Base)
        requires
            old(self).wf(),
            idx < old(self).spec_len(),
        ensures
            final(self).wf(),
            val == old(self)@[idx as int],
            final(self)@ == old(self)@.remove(idx as int),
            words_kept_from(
                old(self).raw().storage(),
                final(self).raw().storage(),
                words_for_bits(old(self).spec_len() * Self::spec_proto().BITS),
            ),
            final(self).true_cap() == old(self).true_cap(),
    {
        proof {
            self.raw().lemma_wf_bounds(Self::spec_proto());
            lemma_decode::<T>(self.bits_view(), Seq::empty(), idx as int, 0, 0);
        }
        T::bits_to_val(self.vec.remove_unchecked(Self::proto(), idx))
    }

    /// Takes the elements of `idx_range` out into a vector of their own
    /// and moves the elements behind them down. An empty or reversed range
    /// takes nothing.
    pub fn remove_range(&mut self, idx_range: core::ops::Range<usize>) -> (res: Result<Self, BitVecError>)
        requires
            old(self).wf(),
        ensures
            final(self).wf(),
            idx_range.end > old(self).spec_len() ==> {
                &&& res == Err::<Self, BitVecError>(
                    BitVecError::IndexOutOfRange { index: (idx_range.end - 1) as usize, len: old(self).spec_len() },
                )
                &&& final(self).raw() == old(self).raw()
            },
            idx_range.end <= old(self).spec_len() ==> {
                &&& res.is_ok()
                &&& res.unwrap().wf()
                &&& words_kept_from(
                    old(self).raw().storage(),
                    final(self).raw().storage(),
                    words_for_bits(old(self).spec_len() * Self::spec_proto().BITS),
                )
                &&& final(self).true_cap() == old(self).true_cap()
            },
            idx_range.start < idx_range.end <= old(self).spec_len() ==> {
                &&& res.unwrap()@ == old(self)@.subrange(idx_range.start as int, idx_range.end as int)
                &&& final(self)@ == old(self)@.subrange(0, idx_range.start as int) + old(self)@.subrange(
                    idx_range.end as int,
                    old(self).spec_len() as int,
                )
            },
            idx_range.start >= idx_range.end && idx_range.end <= old(self).spec_len() ==> {
                &&& res.unwrap().spec_len() == 0
                &&& final(self).raw() == old(self).raw()
            },
    {
        proof {
            self.raw().lemma_wf_bounds(Self::spec_proto());
            Self::lemma_cut(self.bits_view(), idx_range.start as int, idx_range.end as int);
        }
        match self.vec.remove_range(Self::proto(), idx_range) {
            Ok(raw) => Ok(Self { vec: raw, kind: PhantomData }),
            Err(e) => Err(e),
        }
    }

    /// Takes the elements of `idx_range`, which is not empty and lies
    /// within the length, out into a vector of their own.
    pub fn remove_range_unchecked(&mut self, idx_range: core::ops::Range<usize>) -> (removed: Self)
        requires
            old(self).wf(),
            idx_range.start < idx_range.end <= old(self).spec_len(),
        ensures
            final(self).wf(),
            removed.wf(),
            removed@ == old(self)@.subrange(idx_range.start as int, idx_range.end as int),
            final(self)@ == old(self)@.subrange(0, idx_range.start as int) + old(self)@.subrange(
                idx_range.end as int,
                old(self).spec_len() as int,
            ),
            words_kept_from(
                old(self).raw().storage(),
                final(self).raw().storage(),
                words_for_bits(old(self).spec_len() * Self::spec_proto().BITS),
            ),
            final(self).true_cap() == old(self).true_cap(),
    {
        proof {
            self.raw().lemma_wf_bounds(Self::spec_proto());
            Self::lemma_cut(self.bits_view(), idx_range.start as int, idx_range.end as int);
        }
        let raw = self.vec.remove_range_unchecked(Self::proto(), idx_range);
        Self { vec: raw, kind: PhantomData }
    }

    /// Decoding a sequence with a range cut out is cutting the range out
    /// of the decoded sequence.
    proof fn lemma_cut(raw: Seq<u64>, start: int, end: int)
        ensures
            0 <= start <= end <= raw.len() ==> {
                &&& decode::<T>(raw.subrange(start, end)) == decode::<T>(raw).subrange(start, end)
                &&& decode::<T>(raw.subrange(0, start) + raw.subrange(end, raw.len() as int)) == decode::<T>(
                    raw,
                ).subrange(0, start) + decode::<T>(raw).subrange(end, raw.len() as int)
            },
    {
        if 0 <= start <= end <= raw.len() {
            assert(decode::<T>(raw.subrange(start, end)) =~= decode::<T>(raw).subrange(start, end));
            assert(decode::<T>(raw.subrange(0, start) + raw.subrange(end, raw.len() as int)) =~= decode::<T>(
                raw,
            ).subrange(0, start) + decode::<T>(raw).subrange(end, raw.len() as int));
        }
    }

    /// Exchanges the elements at `idx_a` and `idx_b`. Of the storage only
    /// the bits of the two elements change; with the two the same nothing
    /// is touched.
    pub fn swap(&mut self, idx_a: usize, idx_b: usize) -> (res: Result<(), BitVecError>)
        requires
            old(self).wf(),
        ensures
            final(self).wf(),
            idx_a < old(self).spec_len() && idx_b < old(self).spec_len() ==> {
                &&& res == Ok::<(), BitVecError>(())
                &&& final(self)@ == old(self)@.update(idx_a as int, old(self)@[idx_b as int]).update(
                    idx_b as int,
                    old(self)@[idx_a as int],
                )
                &&& final(self).raw().storage() == swapped(
                    old(self).raw().storage(),
                    Self::spec_proto().BITS as int,
                    idx_a as int,
                    idx_b as int,
                )
                &&& final(self).true_cap() == old(self).true_cap()
            },
            idx_a == idx_b ==> final(self).raw() == old(self).raw(),
            idx_a >= old(self).spec_len() ==> {
                &&& res == Err::<(), BitVecError>(
                    BitVecError::IndexOutOfRange { index: idx_a, len: old(self).spec_len() },
                )
                &&& final(self).raw() == old(self).raw()
            },
            idx_a < old(self).spec_len() && idx_b >= old(self).spec_len() ==> {
                &&& res == Err::<(), BitVecError>(
                    BitVecError::IndexOutOfRange { index: idx_b, len: old(self).spec_len() },
                )
                &&& final(self).raw() == old(self).raw()
            },
    {
        proof {
            self.raw().lemma_wf_bounds(Self::spec_proto());
            Self::lemma_swapped(self.bits_view(), idx_a as int, idx_b as int);
        }
        self.vec.swap(Self::proto(), idx_a, idx_b)
    }

    /// Exchanges the elements at `idx_a` and `idx_b`, both below the
    /// length.
    pub fn swap_unchecked(&mut self, idx_a: usize, idx_b: usize)
        requires
            old(self).wf(),
            idx_a < old(self).spec_len(),
            idx_b < old(self).spec_len(),
        ensures
            final(self).wf(),
            final(self)@ == old(self)@.update(idx_a as int, old(self)@[idx_b as int]).update(
                idx_b as int,
                old(self)@[idx_a as int],
            ),
            final(self).raw().storage() == swapped(
                old(self).raw().storage(),
                Self::spec_proto().BITS as int,
                idx_a as int,
                idx_b as int,
            ),
            final(self).true_cap() == old(self).true_cap(),
    {
        proof {
            self.raw().lemma_wf_bounds(Self::spec_proto());
            Self::lemma_swapped(self.bits_view(), idx_a as int, idx_b as int);
        }
        self.vec.swap_unchecked(Self::proto(), idx_a, idx_b)
    }

    /// Decoding a sequence with two elements exchanged is exchanging them
    /// in the decoded sequence.
    proof fn lemma_swapped(raw: Seq<u64>, a: int, b: int)
        ensures
            0 <= a < raw.len() && 0 <= b < raw.len() ==> decode::<T>(raw.update(a, raw[b]).update(b, raw[a]))
                == decode::<T>(raw).update(a, decode::<T>(raw)[b]).update(b, decode::<T>(raw)[a]),
            raw.len() > 0 && 0 <= a < raw.len() ==> decode::<T>(raw.update(a, raw.last()).drop_last()) == decode::<T>(
                raw,
            ).update(a, decode::<T>(raw).last()).drop_last(),
    {
        if 0 <= a < raw.len() && 0 <= b < raw.len() {
            assert(decode::<T>(raw.update(a, raw[b]).update(b, raw[a])) =~= decode::<T>(raw).update(
                a,
                decode::<T>(raw)[b],
            ).update(b, decode::<T>(raw)[a]));
        }
        if raw.len() > 0 && 0 <= a < raw.len() {
            assert(decode::<T>(raw.update(a, raw.last()).drop_last()) =~= decode::<T>(raw).update(
                a,
                decode::<T>(raw).last(),
            ).drop_last());
        }
    }

    /// Takes the element at `idx` out and puts the last element in its
    /// place. The bits that held the last element are cleared.
    pub fn swap_pop(&mut self, idx: usize) -> (res: Result<T::Base, BitVecError>)
        requires
            old(self).wf(),
        ensures
            final(self).wf(),
            idx < old(self).spec_len() ==> {
                &&& res == Ok::<T::Base, BitVecError>(old(self)@[idx as int])
                &&& final(self)@ == old(self)@.update(idx as int, old(self)@.last()).drop_last()
                &&& final(self).raw().storage() == (if idx + 1 < old(self).spec_len() {
                    swap_popped(
                        old(self).raw().storage(),
                        Self::spec_proto().BITS as int,
                        idx as int,
                        old(self).spec_len() - 1,
                    )
                } else {
                    store(old(self).raw().storage(), idx * Self::spec_proto().BITS, Self::spec_proto().BITS as int, 0)
                })
                &&& final(self).true_cap() == old(self).true_cap()
            },
            idx >= old(self).spec_len() ==> {
                &&& res == Err::<T::Base, BitVecError>(
                    BitVecError::IndexOutOfRange { index: idx, len: old(self).spec_len() },
                )
                &&& final(self).raw() == old(self).raw()
            },
    {
        proof {
            self.raw().lemma_wf_bounds(Self::spec_proto());
            Self::lemma_swapped(self.bits_view(), idx as int, 0);
            lemma_decode::<T>(self.bits_view(), Seq::empty(), idx as int, 0, 0);
        }
        match self.vec.swap_pop(Self::proto(), idx) {
            Ok(bits) => Ok(T::bits_to_val(bits)),
            Err(e) => Err(e),
        }
    }

    /// Takes the element at `idx`, which is not the last, out and puts the
    /// last element in its place.
    pub fn swap_pop_unchecked(&mut self, idx: usize) -> (val: T::Base)
        requires
            old(self).wf(),
            idx + 1 < old(self).spec_len(),
        ensures
            final(self).wf(),
            val == old(self)@[idx as int],
            final(self)@ == old(self)@.update(idx as int, old(self)@.last()).drop_last(),
            final(self).raw().storage() == swap_popped(
                old(self).raw().storage(),
                Self::spec_proto().BITS as int,
                idx as int,
                old(self).spec_len() - 1,
            ),
            final(self).true_cap() == old(self).true_cap(),
    {
        proof {
            self.raw().lemma_wf_bounds(Self::spec_proto());
            Self::lemma_swapped(self.bits_view(), idx as int, 0);
            lemma_decode::<T>(self.bits_view(), Seq::empty(), idx as int, 0, 0);
        }
        T::bits_to_val(self.vec.swap_pop_unchecked(Self::proto(), idx))
    }

    /// Gives back the storage beyond what the elements and
    /// `extra_capacity_to_keep` more of them need.
    pub fn trim_excess_capacity(&mut self, extra_capacity_to_keep: usize) -> (res: Result<(), BitVecError>)
        requires
            old(self).wf(),
        ensures
            final(self).wf(),
            res == Ok::<(), BitVecError>(()),
            final(self)@ == old(self)@,
            truncated(old(self).raw().storage(), final(self).raw().storage()),
            final(self).true_cap() == (if old(self).spec_len() + extra_capacity_to_keep < old(self).spec_cap() {
                words_for_bits((old(self).spec_len() + extra_capacity_to_keep) * Self::spec_proto().BITS)
            } else {
                old(self).true_cap() as int
            }),
    {
        self.vec.shrink_excess_capacity(Self::proto(), extra_capacity_to_keep)
    }

    /// Appends the elements of `bitvec`, growing once for all of them.
    pub fn append_bitvec(&mut self, bitvec: Self) -> (res: Result<(), BitVecError>)
        requires
            old(self).wf(),
            bitvec.wf(),
        ensures
            final(self).wf(),
            old(self).spec_len() + bitvec.spec_len() <= Self::spec_proto().MAX_CAPACITY ==> {
                &&& res == Ok::<(), BitVecError>(())
                &&& final(self)@ == old(self)@ + bitvec@
                &&& words_kept_from(
                    old(self).raw().storage(),
                    final(self).raw().storage(),
                    words_for_bits((old(self).spec_len() + bitvec.spec_len()) * Self::spec_proto().BITS),
                )
                &&& final(self).true_cap() == grown_block_count(
                    old(self).true_cap() as int,
                    words_for_bits((old(self).spec_len() + bitvec.spec_len()) * Self::spec_proto().BITS),
                    true,
                )
            },
            old(self).spec_len() + bitvec.spec_len() > Self::spec_proto().MAX_CAPACITY ==> {
                &&& res == Err::<(), BitVecError>(
                    BitVecError::CapacityExceeded { max_capacity: Self::spec_proto().MAX_CAPACITY },
                )
                &&& final(self).raw() == old(self).raw()
            },
    {
        proof {
            lemma_decode::<T>(self.bits_view(), bitvec.bits_view(), 0, 0, 0);
        }
        self.vec.append_bitvec(Self::proto(), bitvec.into_raw())
    }

    /// Appends the elements of `bitvec` to a vector that has room for
    /// them.
    pub fn append_bitvec_unchecked(&mut self, bitvec: Self)
        requires
            old(self).wf(),
            bitvec.wf(),
            old(self).spec_len() + bitvec.spec_len() <= old(self).spec_cap(),
        ensures
            final(self).wf(),
            final(self)@ == old(self)@ + bitvec@,
            words_kept_from(
                old(self).raw().storage(),
                final(self).raw().storage(),
                words_for_bits((old(self).spec_len() + bitvec.spec_len()) * Self::spec_proto().BITS),
            ),
            final(self).true_cap() == old(self).true_cap(),
    {
        proof {
            lemma_decode::<T>(self.bits_view(), bitvec.bits_view(), 0, 0, 0);
        }
        self.vec.append_bitvec_unchecked(Self::proto(), bitvec.into_raw())
    }

    /// The bits of every value of `source`, in the same order.
    fn encode_all(source: &Vec<T::Base>) -> (bits: Vec<u64>)
        ensures
            bits@ == source@.map_values(|val: T::Base| T::spec_val_to_bits(val)),
            RawBitVec::all_fit(Self::spec_proto(), bits@),
            decode::<T>(bits@) == source@.map_values(|val: T::Base| stored::<T>(val)),
    {
        let mut bits: Vec<u64> = Vec::new();
        let mut i: usize = 0;
        while i < source.len()
            invariant
                i <= source.len(),
                bits.len() == i,
                forall|j: int| 0 <= j < i ==> #[trigger] bits@[j] == T::spec_val_to_bits(source@[j]),
                forall|j: int| 0 <= j < i ==> #[trigger] bits@[j] <= Self::spec_proto().MASK,
            decreases source.len() - i,
        {
            bits.push(T::val_to_bits(source[i]));
            i = i + 1;
        }
        proof {
            assert(bits@ =~= source@.map_values(|val: T::Base| T::spec_val_to_bits(val)));
            assert(decode::<T>(bits@) =~= source@.map_values(|val: T::Base| stored::<T>(val)));
        }
        bits
    }

    /// Appends the values of `source`, growing once for all of them.
    pub fn append_iter(&mut self, source: &Vec<T::Base>) -> (res: Result<(), BitVecError>)
        requires
            old(self).wf(),
        ensures
            final(self).wf(),
            old(self).spec_len() + source.len() <= Self::spec_proto().MAX_CAPACITY ==> {
                &&& res == Ok::<(), BitVecError>(())
                &&& final(self)@ == old(self)@ + source@.map_values(|val: T::Base| stored::<T>(val))
                &&& words_kept_from(
                    old(self).raw().storage(),
                    final(self).raw().storage(),
                    words_for_bits((old(self).spec_len() + source.len()) * Self::spec_proto().BITS),
                )
                &&& final(self).true_cap() == grown_block_count(
                    old(self).true_cap() as int,
                    words_for_bits((old(self).spec_len() + source.len()) * Self::spec_proto().BITS),
                    true,
                )
            },
            old(self).spec_len() + source.len() > Self::spec_proto().MAX_CAPACITY ==> {
                &&& res == Err::<(), BitVecError>(
                    BitVecError::CapacityExceeded { max_capacity: Self::spec_proto().MAX_CAPACITY },
                )
                &&& final(self).raw() == old(self).raw()
            },
    {
        let bits = Self::encode_all(source);
        proof {
            lemma_decode::<T>(self.bits_view(), bits@, 0, 0, 0);
        }
        self.vec.append_iter(Self::proto(), &bits)
    }

    /// Appends the values of `source` to a vector that has room for them.
    pub fn append_iter_unchecked(&mut self, source: &Vec<T::Base>)
        requires
            old(self).wf(),
            old(self).spec_len() + source.len() <= old(self).spec_cap(),
        ensures
            final(self).wf(),
            final(self)@ == old(self)@ + source@.map_values(|val: T::Base| stored::<T>(val)),
            words_kept_from(
                old(self).raw().storage(),
                final(self).raw().storage(),
                words_for_bits((old(self).spec_len() + source.len()) * Self::spec_proto().BITS),
            ),
            final(self).true_cap() == old(self).true_cap(),
    {
        let bits = Self::encode_all(source);
        proof {
            lemma_decode::<T>(self.bits_view(), bits@, 0, 0, 0);
        }
        self.vec.append_iter_unchecked(Self::proto(), &bits)
    }

    /// Puts the values of `source` in at `insert_idx`, growing once for
    /// all of them.
    pub fn insert_iter(&mut self, insert_idx: usize, source: &Vec<T::Base>) -> (res: Result<(), BitVecError>)
        requires
            old(self).wf(),
        ensures
            final(self).wf(),
            insert_idx > old(self).spec_len() ==> {
                &&& res == Err::<(), BitVecError>(
                    BitVecError::IndexOutOfRange { index: insert_idx, len: old(self).spec_len() },
                )
                &&& final(self).raw() == old(self).raw()
            },
            insert_idx <= old(self).spec_len() && old(self).spec_len() + source.len()
                > Self::spec_proto().MAX_CAPACITY ==> {
                &&& res == Err::<(), BitVecError>(
                    BitVecError::CapacityExceeded { max_capacity: Self::spec_proto().MAX_CAPACITY },
                )
                &&& final(self).raw() == old(self).raw()
            },
            insert_idx <= old(self).spec_len() && old(self).spec_len() + source.len()
                <= Self::spec_proto().MAX_CAPACITY ==> {
                &&& res == Ok::<(), BitVecError>(())
                &&& final(self)@ == old(self)@.subrange(0, insert_idx as int) + source@.map_values(
                    |val: T::Base| stored::<T>(val),
                ) + old(self)@.subrange(insert_idx as int, old(self).spec_len() as int)
                &&& words_kept_from(
                    old(self).raw().storage(),
                    final(self).raw().storage(),
                    words_for_bits((old(self).spec_len() + source.len()) * Self::spec_proto().BITS),
                )
                &&& final(self).true_cap() == grown_block_count(
                    old(self).true_cap() as int,
                    words_for_bits((old(self).spec_len() + source.len()) * Self::spec_proto().BITS),
                    true,
                )
            },
    {
        let bits = Self::encode_all(source);
        proof {
            self.raw().lemma_wf_bounds(Self::spec_proto());
            Self::lemma_spliced(self.bits_view(), bits@, insert_idx as int);
        }
        self.vec.insert_iter(Self::proto(), insert_idx, &bits)
    }

    /// Puts the values of `source` in at `insert_idx`, which is below the
    /// length, in a vector that has room for them.
    pub fn insert_iter_unchecked(&mut self, insert_idx: usize, source: &Vec<T::Base>)
        requires
            old(self).wf(),
            insert_idx < old(self).spec_len(),
            old(self).spec_len() + source.len() <= old(self).spec_cap(),
        ensures
            final(self).wf(),
            final(self)@ == old(self)@.subrange(0, insert_idx as int) + source@.map_values(
                |val: T::Base| stored::<T>(val),
            ) + old(self)@.subrange(insert_idx as int, old(self).spec_len() as int),
            words_kept_from(
                old(self).raw().storage(),
                final(self).raw().storage(),
                words_for_bits((old(self).spec_len() + source.len()) * Self::spec_proto().BITS),
            ),
            final(self).true_cap() == old(self).true_cap(),
    {
        let bits = Self::encode_all(source);
        proof {
            self.raw().lemma_wf_bounds(Self::spec_proto());
            Self::lemma_spliced(self.bits_view(), bits@, insert_idx as int);
        }
        self.vec.insert_iter_unchecked(Self::proto(), insert_idx, &bits)
    }

    /// Reads the element at `idx`.
    pub fn get(&self, idx: usize) -> (res: Result<T::Base, BitVecError>)
        requires
            self.wf(),
        ensures
            idx < self.spec_len() ==> res == Ok::<T::Base, BitVecError>(self@[idx as int]),
            idx >= self.spec_len() ==> res == Err::<T::Base, BitVecError>(
                BitVecError::IndexOutOfRange { index: idx, len: self.spec_len() },
            ),
    {
        proof {
            self.raw().lemma_wf_bounds(Self::spec_proto());
        }
        match self.vec.get(Self::proto(), idx) {
            Ok(bits) => Ok(T::bits_to_val(bits)),
            Err(e) => Err(e),
        }
    }

    /// Reads the element at `idx`, which is below the length.
    pub fn get_unchecked(&self, idx: usize) -> (val: T::Base)
        requires
            self.wf(),
            idx < self.spec_len(),
        ensures
            val == self@[idx as int],
    {
        proof {
            self.raw().lemma_wf_bounds(Self::spec_proto());
        }
        T::bits_to_val(self.vec.get_unchecked(Self::proto(), idx))
    }

    /// Writes `val` at `idx` and returns the element that was there. Of
    /// the storage only the bits of that element change.
    pub fn replace(&mut self, idx: usize, val: T::Base) -> (res: Result<T::Base, BitVecError>)
        requires
            old(self).wf(),
        ensures
            final(self).wf(),
            idx < old(self).spec_len() ==> {
                &&& res == Ok::<T::Base, BitVecError>(old(self)@[idx as int])
                &&& final(self)@ == old(self)@.update(idx as int, stored::<T>(val))
                &&& final(self).raw().storage() == store(
                    old(self).raw().storage(),
                    idx * Self::spec_proto().BITS,
                    Self::spec_proto().BITS as int,
                    T::spec_val_to_bits(val),
                )
                &&& final(self).true_cap() == old(self).true_cap()
            },
            idx >= old(self).spec_len() ==> {
                &&& res == Err::<T::Base, BitVecError>(
                    BitVecError::IndexOutOfRange { index: idx, len: old(self).spec_len() },
                )
                &&& final(self).raw() == old(self).raw()
            },
    {
        let bits = T::val_to_bits(val);
        proof {
            self.raw().lemma_wf_bounds(Self::spec_proto());
            lemma_decode::<T>(self.bits_view(), Seq::empty(), idx as int, 0, bits);
        }
        match self.vec.replace(Self::proto(), idx, bits) {
            Ok(old_bits) => Ok(T::bits_to_val(old_bits)),
            Err(e) => Err(e),
        }
    }

    /// Writes `val` at `idx`, which is below the length, and returns the
    /// element that was there.
    pub fn replace_unchecked(&mut self, idx: usize, val: T::Base) -> (old_val: T::Base)
        requires
            old(self).wf(),
            idx < old(self).spec_len(),
        ensures
            final(self).wf(),
            old_val == old(self)@[idx as int],
            final(self)@ == old(self)@.update(idx as int, stored::<T>(val)),
            final(self).raw().storage() == store(
                old(self).raw().storage(),
                idx * Self::spec_proto().BITS,
                Self::spec_proto().BITS as int,
                T::spec_val_to_bits(val),
            ),
            final(self).true_cap() == old(self).true_cap(),
    {
        let bits = T::val_to_bits(val);
        proof {
            self.raw().lemma_wf_bounds(Self::spec_proto());
            lemma_decode::<T>(self.bits_view(), Seq::empty(), idx as int, 0, bits);
        }
        T::bits_to_val(self.vec.replace_unchecked(Self::proto(), idx, bits))
    }

    /// Writes `val` at `idx`. Of the storage only the bits of that element
    /// change.
    pub fn set(&mut self, idx: usize, val: T::Base) -> (res: Result<(), BitVecError>)
        requires
            old(self).wf(),
        ensures
            final(self).wf(),
            idx < old(self).spec_len() ==> {
                &&& res == Ok::<(), BitVecError>(())
                &&& final(self)@ == old(self)@.update(idx as int, stored::<T>(val))
                &&& final(self).raw().storage() == store(
                    old(self).raw().storage(),
                    idx * Self::spec_proto().BITS,
                    Self::spec_proto().BITS as int,
                    T::spec_val_to_bits(val),
                )
                &&& final(self).true_cap() == old(self).true_cap()
            },
            idx >= old(self).spec_len() ==> {
                &&& res == Err::<(), BitVecError>(
                    BitVecError::IndexOutOfRange { index: idx, len: old(self).spec_len() },
                )
                &&& final(self).raw() == old(self).raw()
            },
    {
        let bits = T::val_to_bits(val);
        proof {
            self.raw().lemma_wf_bounds(Self::spec_proto());
            lemma_decode::<T>(self.bits_view(), Seq::empty(), idx as int, 0, bits);
        }
        self.vec.set(Self::proto(), idx, bits)
    }

    /// Writes `val` at `idx`, which is below the length.
    pub fn set_unchecked(&mut self, idx: usize, val: T::Base)
        requires
            old(self).wf(),
            idx < old(self).spec_len(),
        ensures
            final(self).wf(),
            final(self)@ == old(self)@.update(idx as int, stored::<T>(val)),
            final(self).raw().storage() == store(
                old(self).raw().storage(),
                idx * Self::spec_proto().BITS,
                Self::spec_proto().BITS as int,
                T::spec_val_to_bits(val),
            ),
            final(self).true_cap() == old(self).true_cap(),
    {
        let bits = T::val_to_bits(val);
        proof {
            self.raw().lemma_wf_bounds(Self::spec_proto());
            lemma_decode::<T>(self.bits_view(), Seq::empty(), idx as int, 0, bits);
        }
        self.vec.set_unchecked(Self::proto(), idx, bits)
    }

    /// Empties the vector and hands its elements to a cursor that gives
    /// them out from either end. The vector keeps its storage.
    pub fn drain(&mut self) -> (drain: TypedBitVecDrain<T>)
        requires
            old(self).wf(),
        ensures
            final(self).wf(),
            drain.wf(),
            final(self).spec_len() == 0,
            final(self)@ == Seq::<T::Base>::empty(),
            final(self).raw().storage() == old(self).raw().storage(),
            final(self).true_cap() == old(self).true_cap(),
            drain@ == old(self)@,
    {
        let taken = self.vec.drain();
        proof {
            assert(self@ =~= Seq::<T::Base>::empty());
            assert(taken.remaining(Self::spec_proto()) =~= old(self).bits_view());
        }
        TypedBitVecDrain::<T>::over(taken)
    }

    /// Turns the vector into a cursor that gives its elements out from
    /// either end.
    pub fn into_iter(self) -> (iter: TypedBitVecIter<T>)
        requires
            self.wf(),
        ensures
            iter.wf(),
            iter@ == self@,
    {
        let walker = self.vec.into_iter();
        proof {
            assert(walker.remaining(Self::spec_proto()) =~= self.bits_view());
        }
        TypedBitVecIter::<T>::over(walker)
    }
}

} // verus!
