//! A packed vector whose element width is part of its type.

use vstd::prelude::*;
use crate::capacity::Grow;
use crate::error::BitVecError;
use crate::bits::low_mask;
use crate::proto::{words_for_bits, BitProto, MAX_TRUE_BITS};
use crate::raw_bitvec::{grown_block_count, RawBitVec};
use crate::storage::{store, swap_popped, swapped, truncated, words_kept_from, zero_extended, zero_padded};
use crate::const_proto_bitvec_iter::{CProtoBitVecDrain, CProtoBitVecIter};

verus! {

/// The prototype of elements of `bit_width` bits.
pub open spec fn const_proto(bit_width: usize) -> BitProto {
    BitProto {
        MASK: low_mask(bit_width as u64),
        BITS: bit_width,
        MAX_CAPACITY: (MAX_TRUE_BITS / bit_width) as usize,
    }
}

/// A packed vector of elements of `BIT_WIDTH` bits. The width is fixed by
/// the type, so that no operation needs to be told it and nothing is stored
/// for it.
pub struct CProtoBitVec<const BIT_WIDTH: usize> {
    vec: RawBitVec,
}

impl<const BIT_WIDTH: usize> View for CProtoBitVec<BIT_WIDTH> {
    type V = Seq<u64>;

    open spec fn view(&self) -> Seq<u64> {
        self.raw().view(const_proto(BIT_WIDTH))
    }
}

impl<const BIT_WIDTH: usize> CProtoBitVec<BIT_WIDTH> {
    /// The vector is well formed when the vector underneath is, for the
    /// prototype of `BIT_WIDTH` bits.
    pub open spec fn wf(&self) -> bool {
        self.raw().wf(const_proto(BIT_WIDTH))
    }

    /// The prototype of `BIT_WIDTH` bits.
    pub fn proto() -> (proto: BitProto)
        requires
            1 <= BIT_WIDTH <= 64,
        ensures
            proto == const_proto(BIT_WIDTH),
            proto.wf(),
    {
        BitProto::create(BIT_WIDTH)
    }

    /// The vector underneath.
    pub closed spec fn raw(&self) -> RawBitVec {
        self.vec
    }

    /// The number of elements.
    pub open spec fn spec_len(&self) -> usize {
        self.raw().spec_len()
    }

    /// The number of elements that fit without growing.
    pub open spec fn spec_cap(&self) -> int {
        self.raw().spec_cap(const_proto(BIT_WIDTH))
    }

    /// The number of words allocated.
    pub open spec fn true_cap(&self) -> nat {
        self.raw().true_cap()
    }

    /// The number of elements.
    pub fn len(&self) -> (len: usize)
        ensures
            len == self.spec_len(),
    {
        self.vec.len()
    }

    /// The number of elements that fit without growing.
    pub fn cap(&self) -> (cap: usize)
        requires
            self.wf(),
        ensures
            cap == self.spec_cap(),
            self.spec_len() <= cap,
    {
        self.vec.cap(Self::proto())
    }

    /// The number of elements that can still be added without growing.
    pub fn free(&self) -> (free: usize)
        requires
            self.wf(),
        ensures
            free == self.spec_cap() - self.spec_len(),
    {
        self.vec.free(Self::proto())
    }

    /// An empty vector without storage.
    pub fn new() -> (vec: Self)
        requires
            1 <= BIT_WIDTH <= 64,
        ensures
            vec.wf(),
            vec.spec_len() == 0,
            vec.true_cap() == 0,
            vec@ == Seq::<u64>::empty(),
    {
        let vec = Self { vec: RawBitVec::new() };
        proof {
            assert(vec@ =~= Seq::<u64>::empty());
        }
        vec
    }

    /// An empty vector with room for at least `cap` elements.
    pub fn with_capacity(cap: usize) -> (vec: Self)
        requires
            1 <= BIT_WIDTH <= 64,
            cap <= const_proto(BIT_WIDTH).MAX_CAPACITY,
        ensures
            vec.wf(),
            vec.spec_len() == 0,
            vec.true_cap() == words_for_bits(cap * const_proto(BIT_WIDTH).BITS),
            vec.spec_cap() >= cap,
            vec@ == Seq::<u64>::empty(),
    {
        let vec = Self { vec: RawBitVec::with_capacity(Self::proto(), cap) };
        proof {
            assert(vec@ =~= Seq::<u64>::empty());
        }
        vec
    }

    /// Wraps a vector. The wrapper is well formed exactly if the vector is
    /// well formed for the prototype.
    pub fn from_raw(raw: RawBitVec) -> (vec: Self)
        ensures
            vec.raw() == raw,
            vec.wf() == raw.wf(const_proto(BIT_WIDTH)),
    {
        Self { vec: raw }
    }

    /// The vector underneath.
    pub fn as_raw(&self) -> (raw: &RawBitVec)
        requires
            self.wf(),
        ensures
            *raw == self.raw(),
            raw.wf(const_proto(BIT_WIDTH)),
    {
        &self.vec
    }

    /// Makes room for `extra_elements` more elements, growing to exactly
    /// the words they need.
    pub fn grow_exact_for_additional_elements_if_needed(&mut self, extra_elements: usize) -> (res: Result<
        (),
        BitVecError,
    >)
        requires
            old(self).wf(),
        ensures
            final(self).wf(),
            old(self).spec_len() + extra_elements <= const_proto(BIT_WIDTH).MAX_CAPACITY ==> {
                &&& res == Ok::<(), BitVecError>(())
                &&& final(self)@ == old(self)@
                &&& zero_extended(old(self).raw().storage(), final(self).raw().storage())
                &&& final(self).true_cap() == grown_block_count(
                    old(self).true_cap() as int,
                    words_for_bits((old(self).spec_len() + extra_elements) * const_proto(BIT_WIDTH).BITS),
                    false,
                )
                &&& final(self).spec_cap() >= old(self).spec_len() + extra_elements
            },
            old(self).spec_len() + extra_elements > const_proto(BIT_WIDTH).MAX_CAPACITY ==> {
                &&& res == Err::<(), BitVecError>(
                    BitVecError::CapacityExceeded { max_capacity: const_proto(BIT_WIDTH).MAX_CAPACITY },
                )
                &&& final(self).raw() == old(self).raw()
            },
    {
        self.vec.grow_exact_for_additional_elements_if_needed(Self::proto(), extra_elements)
    }

    /// Makes room for `total_elements` elements in all, growing to exactly
    /// the words they need.
    pub fn grow_exact_for_total_elements_if_needed(&mut self, total_elements: usize) -> (res: Result<(), BitVecError>)
        requires
            old(self).wf(),
        ensures
            final(self).wf(),
            total_elements <= const_proto(BIT_WIDTH).MAX_CAPACITY ==> {
                &&& res == Ok::<(), BitVecError>(())
                &&& final(self)@ == old(self)@
                &&& zero_extended(old(self).raw().storage(), final(self).raw().storage())
                &&& final(self).true_cap() == grown_block_count(
                    old(self).true_cap() as int,
                    words_for_bits(total_elements * const_proto(BIT_WIDTH).BITS),
                    false,
                )
                &&& final(self).spec_cap() >= total_elements
            },
            total_elements > const_proto(BIT_WIDTH).MAX_CAPACITY ==> {
                &&& res == Err::<(), BitVecError>(
                    BitVecError::CapacityExceeded { max_capacity: const_proto(BIT_WIDTH).MAX_CAPACITY },
                )
                &&& final(self).raw() == old(self).raw()
            },
    {
        self.vec.grow_exact_for_total_elements_if_needed(Self::proto(), total_elements)
    }

    /// Makes room for `extra_elements` more elements, growing to the words
    /// they need and half as many again.
    pub fn grow_for_additional_elements_if_needed(&mut self, extra_elements: usize) -> (res: Result<(), BitVecError>)
        requires
            old(self).wf(),
        ensures
            final(self).wf(),
            old(self).spec_len() + extra_elements <= const_proto(BIT_WIDTH).MAX_CAPACITY ==> {
                &&& res == Ok::<(), BitVecError>(())
                &&& final(self)@ == old(self)@
                &&& zero_extended(old(self).raw().storage(), final(self).raw().storage())
                &&& final(self).true_cap() == grown_block_count(
                    old(self).true_cap() as int,
                    words_for_bits((old(self).spec_len() + extra_elements) * const_proto(BIT_WIDTH).BITS),
                    true,
                )
                &&& final(self).spec_cap() >= old(self).spec_len() + extra_elements
            },
            old(self).spec_len() + extra_elements > const_proto(BIT_WIDTH).MAX_CAPACITY ==> {
                &&& res == Err::<(), BitVecError>(
                    BitVecError::CapacityExceeded { max_capacity: const_proto(BIT_WIDTH).MAX_CAPACITY },
                )
                &&& final(self).raw() == old(self).raw()
            },
    {
        self.vec.grow_for_additional_elements_if_needed(Self::proto(), extra_elements)
    }

    /// Makes room for `total_elements` elements in all, growing to the
    /// words they need and half as many again.
    pub fn grow_for_total_elements_if_needed(&mut self, total_elements: usize) -> (res: Result<(), BitVecError>)
        requires
            old(self).wf(),
        ensures
            final(self).wf(),
            total_elements <= const_proto(BIT_WIDTH).MAX_CAPACITY ==> {
                &&& res == Ok::<(), BitVecError>(())
                &&& final(self)@ == old(self)@
                &&& zero_extended(old(self).raw().storage(), final(self).raw().storage())
                &&& final(self).true_cap() == grown_block_count(
                    old(self).true_cap() as int,
                    words_for_bits(total_elements * const_proto(BIT_WIDTH).BITS),
                    true,
                )
                &&& final(self).spec_cap() >= total_elements
            },
            total_elements > const_proto(BIT_WIDTH).MAX_CAPACITY ==> {
                &&& res == Err::<(), BitVecError>(
                    BitVecError::CapacityExceeded { max_capacity: const_proto(BIT_WIDTH).MAX_CAPACITY },
                )
                &&& final(self).raw() == old(self).raw()
            },
    {
        self.vec.grow_for_total_elements_if_needed(Self::proto(), total_elements)
    }

    /// Forgets the elements and keeps the storage.
    pub fn clear(&mut self)
        requires
            old(self).wf(),
        ensures
            final(self).wf(),
            final(self).spec_len() == 0,
            final(self)@ == Seq::<u64>::empty(),
            final(self).raw().storage() == old(self).raw().storage(),
            final(self).true_cap() == old(self).true_cap(),
    {
        self.vec.clear();
        proof {
            assert(self@ =~= Seq::<u64>::empty());
        }
    }

    /// Appends `val`, growing as [`RawBitVec::push`] does. A value that
    /// does not fit the width is refused.
    pub fn push(&mut self, val: u64) -> (res: Result<(), BitVecError>)
        requires
            old(self).wf(),
        ensures
            final(self).wf(),
            old(self).spec_len() >= const_proto(BIT_WIDTH).MAX_CAPACITY ==> {
                &&& res == Err::<(), BitVecError>(
                    BitVecError::CapacityExceeded { max_capacity: const_proto(BIT_WIDTH).MAX_CAPACITY },
                )
                &&& final(self).raw() == old(self).raw()
            },
            old(self).spec_len() < const_proto(BIT_WIDTH).MAX_CAPACITY && val > const_proto(BIT_WIDTH).MASK ==> {
                &&& res == Err::<(), BitVecError>(
                    BitVecError::ValueTooWide { value: val, mask: const_proto(BIT_WIDTH).MASK },
                )
                &&& final(self).raw() == old(self).raw()
            },
            old(self).spec_len() < const_proto(BIT_WIDTH).MAX_CAPACITY && val <= const_proto(BIT_WIDTH).MASK ==> {
                &&& res == Ok::<(), BitVecError>(())
                &&& final(self)@ == old(self)@.push(val)
                &&& final(self).true_cap() == old(self).raw().policy_block_count(
                    const_proto(BIT_WIDTH),
                    old(self).spec_len() + 1,
                    Grow::OnePointFive,
                )
                &&& final(self).true_cap() >= old(self).true_cap()
                &&& final(self).raw().storage() == store(
                    zero_padded(old(self).raw().storage(), final(self).true_cap() as int),
                    old(self).spec_len() * const_proto(BIT_WIDTH).BITS,
                    const_proto(BIT_WIDTH).BITS as int,
                    val,
                )
            },
    {
        self.vec.push(Self::proto(), val)
    }

    /// Appends `val` to a vector that has room for it.
    pub fn push_unchecked(&mut self, val: u64)
        requires
            old(self).wf(),
            old(self).spec_len() < old(self).spec_cap(),
            val <= const_proto(BIT_WIDTH).MASK,
        ensures
            final(self).wf(),
            final(self)@ == old(self)@.push(val),
            final(self).raw().storage() == store(
                old(self).raw().storage(),
                old(self).spec_len() * const_proto(BIT_WIDTH).BITS,
                const_proto(BIT_WIDTH).BITS as int,
                val,
            ),
            final(self).true_cap() == old(self).true_cap(),
    {
        self.vec.push_unchecked(Self::proto(), val)
    }

    /// Takes the last element off. The bits that held it are cleared.
    pub fn pop(&mut self) -> (res: Result<u64, BitVecError>)
        requires
            old(self).wf(),
        ensures
            final(self).wf(),
            old(self).spec_len() > 0 ==> {
                &&& res == Ok::<u64, BitVecError>(old(self)@.last())
                &&& final(self)@ == old(self)@.drop_last()
                &&& final(self).raw().storage() == store(
                    old(self).raw().storage(),
                    (old(self).spec_len() - 1) * const_proto(BIT_WIDTH).BITS,
                    const_proto(BIT_WIDTH).BITS as int,
                    0,
                )
                &&& final(self).true_cap() == old(self).true_cap()
            },
            old(self).spec_len() == 0 ==> {
                &&& res == Err::<u64, BitVecError>(BitVecError::EmptyVector)
                &&& final(self).raw() == old(self).raw()
            },
    {
        self.vec.pop(Self::proto())
    }

    /// Takes the last element off a vector that is not empty.
    pub fn pop_unchecked(&mut self) -> (val: u64)
        requires
            old(self).wf(),
            old(self).spec_len() > 0,
        ensures
            final(self).wf(),
            val == old(self)@.last(),
            final(self)@ == old(self)@.drop_last(),
            final(self).raw().storage() == store(
                old(self).raw().storage(),
                (old(self).spec_len() - 1) * const_proto(BIT_WIDTH).BITS,
                const_proto(BIT_WIDTH).BITS as int,
                0,
            ),
            final(self).true_cap() == old(self).true_cap(),
    {
        self.vec.pop_unchecked(Self::proto())
    }

    /// Puts `val` at `idx` and moves the elements from there on up by one.
    /// A value that does not fit the width is refused.
    pub fn insert(&mut self, idx: usize, val: u64) -> (res: Result<(), BitVecError>)
        requires
            old(self).wf(),
        ensures
            final(self).wf(),
            idx > old(self).spec_len() ==> {
                &&& res == Err::<(), BitVecError>(
                    BitVecError::IndexOutOfRange { index: idx, len: old(self).spec_len() },
                )
                &&& final(self).raw() == old(self).raw()
            },
            idx <= old(self).spec_len() && old(self).spec_len() >= const_proto(BIT_WIDTH).MAX_CAPACITY ==> {
                &&& res == Err::<(), BitVecError>(
                    BitVecError::CapacityExceeded { max_capacity: const_proto(BIT_WIDTH).MAX_CAPACITY },
                )
                &&& final(self).raw() == old(self).raw()
            },
            idx <= old(self).spec_len() < const_proto(BIT_WIDTH).MAX_CAPACITY && val > const_proto(BIT_WIDTH).MASK ==> {
                &&& res == Err::<(), BitVecError>(
                    BitVecError::ValueTooWide { value: val, mask: const_proto(BIT_WIDTH).MASK },
                )
                &&& final(self).raw() == old(self).raw()
            },
            idx <= old(self).spec_len() < const_proto(BIT_WIDTH).MAX_CAPACITY && val <= const_proto(BIT_WIDTH).MASK ==> {
                &&& res == Ok::<(), BitVecError>(())
                &&& final(self)@ == old(self)@.insert(idx as int, val)
                &&& words_kept_from(
                    old(self).raw().storage(),
                    final(self).raw().storage(),
                    words_for_bits((old(self).spec_len() + 1) * const_proto(BIT_WIDTH).BITS),
                )
                &&& final(self).true_cap() == old(self).raw().policy_block_count(
                    const_proto(BIT_WIDTH),
                    old(self).spec_len() + 1,
                    Grow::OnePointFive,
                )
                &&& final(self).true_cap() >= old(self).true_cap()
            },
    {
        self.vec.insert(Self::proto(), idx, val)
    }

    /// Puts `val` at `idx`, which is below the length, in a vector that
    /// has room for one element more.
    pub fn insert_unchecked(&mut self, idx: usize, val: u64)
        requires
            old(self).wf(),
            idx < old(self).spec_len(),
            old(self).spec_len() < old(self).spec_cap(),
            val <= const_proto(BIT_WIDTH).MASK,
        ensures
            final(self).wf(),
            final(self)@ == old(self)@.insert(idx as int, val),
            words_kept_from(
                old(self).raw().storage(),
                final(self).raw().storage(),
                words_for_bits((old(self).spec_len() + 1) * const_proto(BIT_WIDTH).BITS),
            ),
            final(self).true_cap() == old(self).true_cap(),
    {
        self.vec.insert_unchecked(Self::proto(), idx, val)
    }

    /// Puts the elements of `bitvec` in at `insert_idx`, growing once for
    /// all of them.
    pub fn insert_bitvec(&mut self, insert_idx: usize, bitvec: Self) -> (res: Result<(), BitVecError>)
        requires
            old(self).wf(),
            bitvec.wf(),
        ensures
            final(self).wf(),
            insert_idx > old(self).spec_len() ==> {
                &&& res == Err::<(), BitVecError>(
                    BitVecError::IndexOutOfRange { index: insert_idx, len: old(self).spec_len() },
                )
                &&& final(self).raw() == old(self).raw()
            },
            insert_idx <= old(self).spec_len() && old(self).spec_len() + bitvec.spec_len()
                > const_proto(BIT_WIDTH).MAX_CAPACITY ==> {
                &&& res == Err::<(), BitVecError>(
                    BitVecError::CapacityExceeded { max_capacity: const_proto(BIT_WIDTH).MAX_CAPACITY },
                )
                &&& final(self).raw() == old(self).raw()
            },
            insert_idx <= old(self).spec_len() && old(self).spec_len() + bitvec.spec_len()
                <= const_proto(BIT_WIDTH).MAX_CAPACITY ==> {
                &&& res == Ok::<(), BitVecError>(())
                &&& final(self)@ == old(self)@.subrange(0, insert_idx as int) + bitvec@ + old(self)@.subrange(
                    insert_idx as int,
                    old(self).spec_len() as int,
                )
                &&& words_kept_from(
                    old(self).raw().storage(),
                    final(self).raw().storage(),
                    words_for_bits((old(self).spec_len() + bitvec.spec_len()) * const_proto(BIT_WIDTH).BITS),
                )
                &&& final(self).true_cap() == grown_block_count(
                    old(self).true_cap() as int,
                    words_for_bits((old(self).spec_len() + bitvec.spec_len()) * const_proto(BIT_WIDTH).BITS),
                    true,
                )
            },
    {
        self.vec.insert_bitvec(Self::proto(), insert_idx, bitvec.into_raw())
    }

    /// Puts the elements of `bitvec` in at `insert_idx`, which is below
    /// the length, in a vector that has room for them.
    pub fn insert_bitvec_unchecked(&mut self, insert_idx: usize, bitvec: Self)
        requires
            old(self).wf(),
            bitvec.wf(),
            insert_idx < old(self).spec_len(),
            old(self).spec_len() + bitvec.spec_len() <= old(self).spec_cap(),
        ensures
            final(self).wf(),
            final(self)@ == old(self)@.subrange(0, insert_idx as int) + bitvec@ + old(self)@.subrange(
                insert_idx as int,
                old(self).spec_len() as int,
            ),
            words_kept_from(
                old(self).raw().storage(),
                final(self).raw().storage(),
                words_for_bits((old(self).spec_len() + bitvec.spec_len()) * const_proto(BIT_WIDTH).BITS),
            ),
            final(self).true_cap() == old(self).true_cap(),
    {
        self.vec.insert_bitvec_unchecked(Self::proto(), insert_idx, bitvec.into_raw())
    }

    /// Puts the values of `source` in at `insert_idx`, growing once for
    /// all of them. If a value does not fit the width, nothing is put in
    /// and the first such value is named.
    pub fn insert_iter(&mut self, insert_idx: usize, source: &Vec<u64>) -> (res: Result<(), BitVecError>)
        requires
            old(self).wf(),
        ensures
            final(self).wf(),
            insert_idx > old(self).spec_len() ==> {
                &&& res == Err::<(), BitVecError>(
                    BitVecError::IndexOutOfRange { index: insert_idx, len: old(self).spec_len() },
                )
                &&& final(self).raw() == old(self).raw()
            },
            insert_idx <= old(self).spec_len() && old(self).spec_len() + source.len()
                > const_proto(BIT_WIDTH).MAX_CAPACITY ==> {
                &&& res == Err::<(), BitVecError>(
                    BitVecError::CapacityExceeded { max_capacity: const_proto(BIT_WIDTH).MAX_CAPACITY },
                )
                &&& final(self).raw() == old(self).raw()
            },
            insert_idx <= old(self).spec_len() && old(self).spec_len() + source.len()
                <= const_proto(BIT_WIDTH).MAX_CAPACITY && !RawBitVec::all_fit(const_proto(BIT_WIDTH), source@) ==> {
                &&& res == Err::<(), BitVecError>(
                    BitVecError::ValueTooWide {
                        value: source@[RawBitVec::first_misfit(const_proto(BIT_WIDTH), source@)],
                        mask: const_proto(BIT_WIDTH).MASK,
                    },
                )
                &&& final(self).raw() == old(self).raw()
            },
            insert_idx <= old(self).spec_len() && old(self).spec_len() + source.len()
                <= const_proto(BIT_WIDTH).MAX_CAPACITY && RawBitVec::all_fit(const_proto(BIT_WIDTH), source@) ==> {
                &&& res == Ok::<(), BitVecError>(())
                &&& final(self)@ == old(self)@.subrange(0, insert_idx as int) + source@ + old(self)@.subrange(
                    insert_idx as int,
                    old(self).spec_len() as int,
                )
                &&& words_kept_from(
                    old(self).raw().storage(),
                    final(self).raw().storage(),
                    words_for_bits((old(self).spec_len() + source.len()) * const_proto(BIT_WIDTH).BITS),
                )
                &&& final(self).true_cap() == grown_block_count(
                    old(self).true_cap() as int,
                    words_for_bits((old(self).spec_len() + source.len()) * const_proto(BIT_WIDTH).BITS),
                    true,
                )
            },
    {
        self.vec.insert_iter(Self::proto(), insert_idx, source)
    }

    /// Puts the values of `source` in at `insert_idx`, which is below the
    /// length, in a vector that has room for them.
    pub fn insert_iter_unchecked(&mut self, insert_idx: usize, source: &Vec<u64>)
        requires
            old(self).wf(),
            RawBitVec::all_fit(const_proto(BIT_WIDTH), source@),
            insert_idx < old(self).spec_len(),
            old(self).spec_len() + source.len() <= old(self).spec_cap(),
        ensures
            final(self).wf(),
            final(self)@ == old(self)@.subrange(0, insert_idx as int) + source@ + old(self)@.subrange(
                insert_idx as int,
                old(self).spec_len() as int,
            ),
            words_kept_from(
                old(self).raw().storage(),
                final(self).raw().storage(),
                words_for_bits((old(self).spec_len() + source.len()) * const_proto(BIT_WIDTH).BITS),
            ),
            final(self).true_cap() == old(self).true_cap(),
    {
        self.vec.insert_iter_unchecked(Self::proto(), insert_idx, source)
    }

    /// Takes the element at `idx` out and moves the elements behind it
    /// down by one.
    pub fn remove(&mut self, idx: usize) -> (res: Result<u64, BitVecError>)
        requires
            old(self).wf(),
        ensures
            final(self).wf(),
            idx < old(self).spec_len() ==> {
                &&& res == Ok::<u64, BitVecError>(old(self)@[idx as int])
                &&& final(self)@ == old(self)@.remove(idx as int)
                &&& words_kept_from(
                    old(self).raw().storage(),
                    final(self).raw().storage(),
                    words_for_bits(old(self).spec_len() * const_proto(BIT_WIDTH).BITS),
                )
                &&& final(self).true_cap() == old(self).true_cap()
            },
            idx >= old(self).spec_len() ==> {
                &&& res == Err::<u64, BitVecError>(
                    BitVecError::IndexOutOfRange { index: idx, len: old(self).spec_len() },
                )
                &&& final(self).raw() == old(self).raw()
            },
    {
        self.vec.remove(Self::proto(), idx)
    }

    /// Takes the element at `idx`, which is below the length, out.
    pub fn remove_unchecked(&mut self, idx: usize) -> (val: u64)
        requires
            old(self).wf(),
            idx < old(self).spec_len(),
        ensures
            final(self).wf(),
            val == old(self)@[idx as int],
            final(self)@ == old(self)@.remove(idx as int),
            words_kept_from(
                old(self).raw().storage(),
                final(self).raw().storage(),
                words_for_bits(old(self).spec_len() * const_proto(BIT_WIDTH).BITS),
            ),
            final(self).true_cap() == old(self).true_cap(),
    {
        self.vec.remove_unchecked(Self::proto(), idx)
    }

    /// Takes the elements of `idx_range` out into a vector of their own
    /// and moves the elements behind them down. An empty or reversed range
    /// takes nothing.
    pub fn remove_range(&mut self, idx_range: core::ops::Range<usize>) -> (res: Result<Self, BitVecError>)
        requires
            old(self).wf(),
        ensures
            final(self).wf(),
            idx_range.end > old(self).spec_len() ==> {
                &&& res == Err::<Self, BitVecError>(
                    BitVecError::IndexOutOfRange { index: (idx_range.end - 1) as usize, len: old(self).spec_len() },
                )
                &&& final(self).raw() == old(self).raw()
            },
            idx_range.end <= old(self).spec_len() ==> {
                &&& res.is_ok()
                &&& res.unwrap().wf()
                &&& words_kept_from(
                    old(self).raw().storage(),
                    final(self).raw().storage(),
                    words_for_bits(old(self).spec_len() * const_proto(BIT_WIDTH).BITS),
                )
                &&& final(self).true_cap() == old(self).true_cap()
            },
            idx_range.start < idx_range.end <= old(self).spec_len() ==> {
                &&& res.unwrap()@ == old(self)@.subrange(idx_range.start as int, idx_range.end as int)
                &&& final(self)@ == old(self)@.subrange(0, idx_range.start as int) + old(self)@.subrange(
                    idx_range.end as int,
                    old(self).spec_len() as int,
                )
            },
            idx_range.start >= idx_range.end && idx_range.end <= old(self).spec_len() ==> {
                &&& res.unwrap().spec_len() == 0
                &&& final(self).raw() == old(self).raw()
            },
    {
        match self.vec.remove_range(Self::proto(), idx_range) {
            Ok(raw) => Ok(Self { vec: raw }),
            Err(e) => Err(e),
        }
    }

    /// Takes the elements of `idx_range`, which is not empty and lies
    /// within the length, out into a vector of their own.
    pub fn remove_range_unchecked(&mut self, idx_range: core::ops::Range<usize>) -> (removed: Self)
        requires
            old(self).wf(),
            idx_range.start < idx_range.end <= old(self).spec_len(),
        ensures
            final(self).wf(),
            removed.wf(),
            removed@ == old(self)@.subrange(idx_range.start as int, idx_range.end as int),
            final(self)@ == old(self)@.subrange(0, idx_range.start as int) + old(self)@.subrange(
                idx_range.end as int,
                old(self).spec_len() as int,
            ),
            words_kept_from(
                old(self).raw().storage(),
                final(self).raw().storage(),
                words_for_bits(old(self).spec_len() * const_proto(BIT_WIDTH).BITS),
            ),
            final(self).true_cap() == old(self).true_cap(),
    {
        let raw = self.vec.remove_range_unchecked(Self::proto(), idx_range);
        Self { vec: raw }
    }

    /// Exchanges the elements at `idx_a` and `idx_b`. Of the storage only
    /// the bits of the two elements change; with the two the same nothing
    /// is touched.
    pub fn swap(&mut self, idx_a: usize, idx_b: usize) -> (res: Result<(), BitVecError>)
        requires
            old(self).wf(),
        ensures
            final(self).wf(),
            idx_a < old(self).spec_len() && idx_b < old(self).spec_len() ==> {
                &&& res == Ok::<(), BitVecError>(())
                &&& final(self)@ == old(self)@.update(idx_a as int, old(self)@[idx_b as int]).update(
                    idx_b as int,
                    old(self)@[idx_a as int],
                )
                &&& final(self).raw().storage() == swapped(
                    old(self).raw().storage(),
                    const_proto(BIT_WIDTH).BITS as int,
                    idx_a as int,
                    idx_b as int,
                )
                &&& final(self).true_cap() == old(self).true_cap()
            },
            idx_a == idx_b ==> final(self).raw() == old(self).raw(),
            idx_a >= old(self).spec_len() ==> {
                &&& res == Err::<(), BitVecError>(
                    BitVecError::IndexOutOfRange { index: idx_a, len: old(self).spec_len() },
                )
                &&& final(self).raw() == old(self).raw()
            },
            idx_a < old(self).spec_len() && idx_b >= old(self).spec_len() ==> {
                &&& res == Err::<(), BitVecError>(
                    BitVecError::IndexOutOfRange { index: idx_b, len: old(self).spec_len() },
                )
                &&& final(self).raw() == old(self).raw()
            },
    {
        self.vec.swap(Self::proto(), idx_a, idx_b)
    }

    /// Exchanges the elements at `idx_a` and `idx_b`, both below the
    /// length.
    pub fn swap_unchecked(&mut self, idx_a: usize, idx_b: usize)
        requires
            old(self).wf(),
            idx_a < old(self).spec_len(),
            idx_b < old(self).spec_len(),
        ensures
            final(self).wf(),
            final(self)@ == old(self)@.update(idx_a as int, old(self)@[idx_b as int]).update(
                idx_b as int,
                old(self)@[idx_a as int],
            ),
            final(self).raw().storage() == swapped(
                old(self).raw().storage(),
                const_proto(BIT_WIDTH).BITS as int,
                idx_a as int,
                idx_b as int,
            ),
            final(self).true_cap() == old(self).true_cap(),
    {
        self.vec.swap_unchecked(Self::proto(), idx_a, idx_b)
    }

    /// Takes the element at `idx` out and puts the last element in its
    /// place. The bits that held the last element are cleared.
    pub fn swap_pop(&mut self, idx: usize) -> (res: Result<u64, BitVecError>)
        requires
            old(self).wf(),
        ensures
            final(self).wf(),
            idx < old(self).spec_len() ==> {
                &&& res == Ok::<u64, BitVecError>(old(self)@[idx as int])
                &&& final(self)@ == old(self)@.update(idx as int, old(self)@.last()).drop_last()
                &&& final(self).raw().storage() == (if idx + 1 < old(self).spec_len() {
                    swap_popped(
                        old(self).raw().storage(),
                        const_proto(BIT_WIDTH).BITS as int,
                        idx as int,
                        old(self).spec_len() - 1,
                    )
                } else {
                    store(old(self).raw().storage(), idx * const_proto(BIT_WIDTH).BITS, const_proto(BIT_WIDTH).BITS as int, 0)
                })
                &&& final(self).true_cap() == old(self).true_cap()
            },
            idx >= old(self).spec_len() ==> {
                &&& res == Err::<u64, BitVecError>(
                    BitVecError::IndexOutOfRange { index: idx, len: old(self).spec_len() },
                )
                &&& final(self).raw() == old(self).raw()
            },
    {
        self.vec.swap_pop(Self::proto(), idx)
    }

    /// Takes the element at `idx`, which is not the last, out and puts the
    /// last element in its place.
    pub fn swap_pop_unchecked(&mut self, idx: usize) -> (val: u64)
        requires
            old(self).wf(),
            idx + 1 < old(self).spec_len(),
        ensures
            final(self).wf(),
            val == old(self)@[idx as int],
            final(self)@ == old(self)@.update(idx as int, old(self)@.last()).drop_last(),
            final(self).raw().storage() == swap_popped(
                old(self).raw().storage(),
                const_proto(BIT_WIDTH).BITS as int,
                idx as int,
                old(self).spec_len() - 1,
            ),
            final(self).true_cap() == old(self).true_cap(),
    {
        self.vec.swap_pop_unchecked(Self::proto(), idx)
    }

    /// Gives back the storage beyond what the elements and
    /// `extra_capacity_to_keep` more of them need.
    pub fn trim_excess_capacity(&mut self, extra_capacity_to_keep: usize) -> (res: Result<(), BitVecError>)
        requires
            old(self).wf(),
        ensures
            final(self).wf(),
            res == Ok::<(), BitVecError>(()),
            final(self)@ == old(self)@,
            truncated(old(self).raw().storage(), final(self).raw().storage()),
            final(self).true_cap() == (if old(self).spec_len() + extra_capacity_to_keep < old(self).spec_cap() {
                words_for_bits((old(self).spec_len() + extra_capacity_to_keep) * const_proto(BIT_WIDTH).BITS)
            } else {
                old(self).true_cap() as int
            }),
    {
        self.vec.shrink_excess_capacity(Self::proto(), extra_capacity_to_keep)
    }

    /// Appends the elements of `bitvec`, growing once for all of them.
    pub fn append_bitvec(&mut self, bitvec: Self) -> (res: Result<(), BitVecError>)
        requires
            old(self).wf(),
            bitvec.wf(),
        ensures
            final(self).wf(),
            old(self).spec_len() + bitvec.spec_len() <= const_proto(BIT_WIDTH).MAX_CAPACITY ==> {
                &&& res == Ok::<(), BitVecError>(())
                &&& final(self)@ == old(self)@ + bitvec@
                &&& words_kept_from(
                    old(self).raw().storage(),
                    final(self).raw().storage(),
                    words_for_bits((old(self).spec_len() + bitvec.spec_len()) * const_proto(BIT_WIDTH).BITS),
                )
                &&& final(self).true_cap() == grown_block_count(
                    old(self).true_cap() as int,
                    words_for_bits((old(self).spec_len() + bitvec.spec_len()) * const_proto(BIT_WIDTH).BITS),
                    true,
                )
            },
            old(self).spec_len() + bitvec.spec_len() > const_proto(BIT_WIDTH).MAX_CAPACITY ==> {
                &&& res == Err::<(), BitVecError>(
                    BitVecError::CapacityExceeded { max_capacity: const_proto(BIT_WIDTH).MAX_CAPACITY },
                )
                &&& final(self).raw() == old(self).raw()
            },
    {
        self.vec.append_bitvec(Self::proto(), bitvec.into_raw())
    }

    /// Appends the elements of `bitvec` to a vector that has room for
    /// them.
    pub fn append_bitvec_unchecked(&mut self, bitvec: Self)
        requires
            old(self).wf(),
            bitvec.wf(),
            old(self).spec_len() + bitvec.spec_len() <= old(self).spec_cap(),
        ensures
            final(self).wf(),
            final(self)@ == old(self)@ + bitvec@,
            words_kept_from(
                old(self).raw().storage(),
                final(self).raw().storage(),
                words_for_bits((old(self).spec_len() + bitvec.spec_len()) * const_proto(BIT_WIDTH).BITS),
            ),
            final(self).true_cap() == old(self).true_cap(),
    {
        self.vec.append_bitvec_unchecked(Self::proto(), bitvec.into_raw())
    }

    /// Appends the values of `source`, growing once for all of them. If a
    /// value does not fit the width, nothing is appended and the first such
    /// value is named.
    pub fn append_iter(&mut self, source: &Vec<u64>) -> (res: Result<(), BitVecError>)
        requires
            old(self).wf(),
        ensures
            final(self).wf(),
            old(self).spec_len() + source.len() > const_proto(BIT_WIDTH).MAX_CAPACITY ==> {
                &&& res == Err::<(), BitVecError>(
                    BitVecError::CapacityExceeded { max_capacity: const_proto(BIT_WIDTH).MAX_CAPACITY },
                )
                &&& final(self).raw() == old(self).raw()
            },
            old(self).spec_len() + source.len() <= const_proto(BIT_WIDTH).MAX_CAPACITY && !RawBitVec::all_fit(
                const_proto(BIT_WIDTH),
                source@,
            ) ==> {
                &&& res == Err::<(), BitVecError>(
                    BitVecError::ValueTooWide {
                        value: source@[RawBitVec::first_misfit(const_proto(BIT_WIDTH), source@)],
                        mask: const_proto(BIT_WIDTH).MASK,
                    },
                )
                &&& final(self).raw() == old(self).raw()
            },
            old(self).spec_len() + source.len() <= const_proto(BIT_WIDTH).MAX_CAPACITY && RawBitVec::all_fit(
                const_proto(BIT_WIDTH),
                source@,
            ) ==> {
                &&& res == Ok::<(), BitVecError>(())
                &&& final(self)@ == old(self)@ + source@
                &&& words_kept_from(
                    old(self).raw().storage(),
                    final(self).raw().storage(),
                    words_for_bits((old(self).spec_len() + source.len()) * const_proto(BIT_WIDTH).BITS),
                )
                &&& final(self).true_cap() == grown_block_count(
                    old(self).true_cap() as int,
                    words_for_bits((old(self).spec_len() + source.len()) * const_proto(BIT_WIDTH).BITS),
                    true,
                )
            },
    {
        self.vec.append_iter(Self::proto(), source)
    }

    /// Appends the values of `source` to a vector that has room for them.
    pub fn append_iter_unchecked(&mut self, source: &Vec<u64>)
        requires
            old(self).wf(),
            RawBitVec::all_fit(const_proto(BIT_WIDTH), source@),
            old(self).spec_len() + source.len() <= old(self).spec_cap(),
        ensures
            final(self).wf(),
            final(self)@ == old(self)@ + source@,
            words_kept_from(
                old(self).raw().storage(),
                final(self).raw().storage(),
                words_for_bits((old(self).spec_len() + source.len()) * const_proto(BIT_WIDTH).BITS),
            ),
            final(self).true_cap() == old(self).true_cap(),
    {
        self.vec.append_iter_unchecked(Self::proto(), source)
    }

    /// Reads the element at `idx`.
    pub fn get(&self, idx: usize) -> (res: Result<u64, BitVecError>)
        requires
            self.wf(),
        ensures
            idx < self.spec_len() ==> res == Ok::<u64, BitVecError>(self@[idx as int]),
            idx >= self.spec_len() ==> res == Err::<u64, BitVecError>(
                BitVecError::IndexOutOfRange { index: idx, len: self.spec_len() },
            ),
    {
        self.vec.get(Self::proto(), idx)
    }

    /// Reads the element at `idx`, which is below the length.
    pub fn get_unchecked(&self, idx: usize) -> (val: u64)
        requires
            self.wf(),
            idx < self.spec_len(),
        ensures
            val == self@[idx as int],
            val <= const_proto(BIT_WIDTH).MASK,
    {
        self.vec.get_unchecked(Self::proto(), idx)
    }

    /// Writes `val` at `idx` and returns the element that was there. Of
    /// the storage only the bits of that element change. A value that does
    /// not fit the width is refused.
    pub fn replace(&mut self, idx: usize, val: u64) -> (res: Result<u64, BitVecError>)
        requires
            old(self).wf(),
        ensures
            final(self).wf(),
            idx >= old(self).spec_len() ==> {
                &&& res == Err::<u64, BitVecError>(
                    BitVecError::IndexOutOfRange { index: idx, len: old(self).spec_len() },
                )
                &&& final(self).raw() == old(self).raw()
            },
            idx < old(self).spec_len() && val > const_proto(BIT_WIDTH).MASK ==> {
                &&& res == Err::<u64, BitVecError>(
                    BitVecError::ValueTooWide { value: val, mask: const_proto(BIT_WIDTH).MASK },
                )
                &&& final(self).raw() == old(self).raw()
            },
            idx < old(self).spec_len() && val <= const_proto(BIT_WIDTH).MASK ==> {
                &&& res == Ok::<u64, BitVecError>(old(self)@[idx as int])
                &&& final(self)@ == old(self)@.update(idx as int, val)
                &&& final(self).raw().storage() == store(
                    old(self).raw().storage(),
                    idx * const_proto(BIT_WIDTH).BITS,
                    const_proto(BIT_WIDTH).BITS as int,
                    val,
                )
                &&& final(self).true_cap() == old(self).true_cap()
            },
    {
        self.vec.replace(Self::proto(), idx, val)
    }

    /// Writes `val` at `idx`, which is below the length, and returns the
    /// element that was there.
    pub fn replace_unchecked(&mut self, idx: usize, val: u64) -> (old_val: u64)
        requires
            old(self).wf(),
            idx < old(self).spec_len(),
            val <= const_proto(BIT_WIDTH).MASK,
        ensures
            final(self).wf(),
            old_val == old(self)@[idx as int],
            final(self)@ == old(self)@.update(idx as int, val),
            final(self).raw().storage() == store(
                old(self).raw().storage(),
                idx * const_proto(BIT_WIDTH).BITS,
                const_proto(BIT_WIDTH).BITS as int,
                val,
            ),
            final(self).true_cap() == old(self).true_cap(),
    {
        self.vec.replace_unchecked(Self::proto(), idx, val)
    }

    /// Writes `val` at `idx`. Of the storage only the bits of that element
    /// change. A value that does not fit the width is refused.
    pub fn set(&mut self, idx: usize, val: u64) -> (res: Result<(), BitVecError>)
        requires
            old(self).wf(),
        ensures
            final(self).wf(),
            idx >= old(self).spec_len() ==> {
                &&& res == Err::<(), BitVecError>(
                    BitVecError::IndexOutOfRange { index: idx, len: old(self).spec_len() },
                )
                &&& final(self).raw() == old(self).raw()
            },
            idx < old(self).spec_len() && val > const_proto(BIT_WIDTH).MASK ==> {
                &&& res == Err::<(), BitVecError>(
                    BitVecError::ValueTooWide { value: val, mask: const_proto(BIT_WIDTH).MASK },
                )
                &&& final(self).raw() == old(self).raw()
            },
            idx < old(self).spec_len() && val <= const_proto(BIT_WIDTH).MASK ==> {
                &&& res == Ok::<(), BitVecError>(())
                &&& final(self)@ == old(self)@.update(idx as int, val)
                &&& final(self).raw().storage() == store(
                    old(self).raw().storage(),
                    idx * const_proto(BIT_WIDTH).BITS,
                    const_proto(BIT_WIDTH).BITS as int,
                    val,
                )
                &&& final(self).true_cap() == old(self).true_cap()
            },
    {
        self.vec.set(Self::proto(), idx, val)
    }

    /// Writes `val` at `idx`, which is below the length.
    pub fn set_unchecked(&mut self, idx: usize, val: u64)
        requires
            old(self).wf(),
            idx < old(self).spec_len(),
            val <= const_proto(BIT_WIDTH).MASK,
        ensures
            final(self).wf(),
            final(self)@ == old(self)@.update(idx as int, val),
            final(self).raw().storage() == store(
                old(self).raw().storage(),
                idx * const_proto(BIT_WIDTH).BITS,
                const_proto(BIT_WIDTH).BITS as int,
                val,
            ),
            final(self).true_cap() == old(self).true_cap(),
    {
        self.vec.set_unchecked(Self::proto(), idx, val)
    }

    /// Empties the vector and hands its elements to a cursor that gives
    /// them out from either end. The vector keeps its storage.
    pub fn drain(&mut self) -> (drain: CProtoBitVecDrain<BIT_WIDTH>)
        requires
            old(self).wf(),
        ensures
            final(self).wf(),
            drain.wf(),
            final(self).spec_len() == 0,
            final(self)@ == Seq::<u64>::empty(),
            final(self).raw().storage() == old(self).raw().storage(),
            final(self).true_cap() == old(self).true_cap(),
            drain@ == old(self)@,
    {
        let taken = self.vec.drain();
        proof {
            assert(self@ =~= Seq::<u64>::empty());
            assert(taken.remaining(const_proto(BIT_WIDTH)) =~= old(self)@);
        }
        CProtoBitVecDrain::<BIT_WIDTH>::over(taken)
    }

    /// Gives up the wrapper and hands out the vector underneath.
    pub fn into_raw(self) -> (raw: RawBitVec)
        requires
            self.wf(),
        ensures
            raw == self.raw(),
            raw.wf(const_proto(BIT_WIDTH)),
    {
        self.vec
    }

    /// Turns the vector into a cursor that gives its elements out from
    /// either end.
    pub fn into_iter(self) -> (iter: CProtoBitVecIter<BIT_WIDTH>)
        requires
            self.wf(),
        ensures
            iter.wf(),
            iter@ == self@,
    {
        let walker = self.vec.into_iter();
        proof {
            assert(walker.remaining(const_proto(BIT_WIDTH)) =~= self@);
        }
        CProtoBitVecIter::<BIT_WIDTH>::over(walker)
    }
}

} // verus!
