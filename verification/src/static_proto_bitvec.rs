//! A packed vector that refers to a prototype kept elsewhere.

use vstd::prelude::*;
use crate::capacity::Grow;
use crate::error::BitVecError;
use crate::proto::{words_for_bits, BitProto};
use crate::raw_bitvec::{grown_block_count, RawBitVec};
use crate::storage::{store, swap_popped, swapped, truncated, words_kept_from, zero_extended, zero_padded};
use crate::static_proto_bitvec_iter::{SProtoBitVecDrain, SProtoBitVecIter};

verus! {

/// A packed vector that keeps a reference to a [`BitProto`] that lives as
/// long as the program, so that no operation needs to be told the element
/// width and the vector stays small.
pub struct SProtoBitVec {
    proto: &'static BitProto,
    vec: RawBitVec,
}

impl View for SProtoBitVec {
    type V = Seq<u64>;

    open spec fn view(&self) -> Seq<u64> {
        self.raw().view(self.spec_proto())
    }
}

impl SProtoBitVec {
    /// The prototype that the vector refers to.
    pub closed spec fn spec_proto(&self) -> BitProto {
        *self.proto
    }

    /// The vector is well formed when the vector underneath is, for the
    /// prototype.
    pub open spec fn wf(&self) -> bool {
        self.raw().wf(self.spec_proto())
    }

    /// The prototype that the vector refers to.
    pub fn proto(&self) -> (proto: &'static BitProto)
        ensures
            *proto == self.spec_proto(),
    {
        self.proto
    }

    /// The vector underneath.
    pub closed spec fn raw(&self) -> RawBitVec {
        self.vec
    }

    /// The number of elements.
    pub open spec fn spec_len(&self) -> usize {
        self.raw().spec_len()
    }

    /// The number of elements that fit without growing.
    pub open spec fn spec_cap(&self) -> int {
        self.raw().spec_cap(self.spec_proto())
    }

    /// The number of words allocated.
    pub open spec fn true_cap(&self) -> nat {
        self.raw().true_cap()
    }

    /// The number of elements.
    pub fn len(&self) -> (len: usize)
        ensures
            len == self.spec_len(),
    {
        self.vec.len()
    }

    /// The number of elements that fit without growing.
    pub fn cap(&self) -> (cap: usize)
        requires
            self.wf(),
        ensures
            cap == self.spec_cap(),
            self.spec_len() <= cap,
    {
        self.vec.cap(*self.proto)
    }

    /// The number of elements that can still be added without growing.
    pub fn free(&self) -> (free: usize)
        requires
            self.wf(),
        ensures
            free == self.spec_cap() - self.spec_len(),
    {
        self.vec.free(*self.proto)
    }

    /// An empty vector without storage.
    pub fn new(proto_ref: &'static BitProto) -> (vec: Self)
        requires
            proto_ref.wf(),
        ensures
            vec.wf(),
            vec.spec_len() == 0,
            vec.true_cap() == 0,
            vec@ == Seq::<u64>::empty(),
            vec.spec_proto() == *proto_ref,
    {
        let vec = Self { proto: proto_ref, vec: RawBitVec::new() };
        proof {
            assert(vec@ =~= Seq::<u64>::empty());
        }
        vec
    }

    /// An empty vector with room for at least `cap` elements.
    pub fn with_capacity(proto_ref: &'static BitProto, cap: usize) -> (vec: Self)
        requires
            proto_ref.wf(),
            cap <= (*proto_ref).MAX_CAPACITY,
        ensures
            vec.wf(),
            vec.spec_len() == 0,
            vec.true_cap() == words_for_bits(cap * (*proto_ref).BITS),
            vec.spec_cap() >= cap,
            vec@ == Seq::<u64>::empty(),
            vec.spec_proto() == *proto_ref,
    {
        let vec = Self { proto: proto_ref, vec: RawBitVec::with_capacity(*proto_ref, cap) };
        proof {
            assert(vec@ =~= Seq::<u64>::empty());
        }
        vec
    }

    /// Wraps a vector. The wrapper is well formed exactly if the vector is
    /// well formed for the prototype.
    pub fn from_raw(proto_ref: &'static BitProto, raw: RawBitVec) -> (vec: Self)
        ensures
            vec.raw() == raw,
            vec.spec_proto() == *proto_ref,
            vec.wf() == raw.wf((*proto_ref)),
    {
        Self { proto: proto_ref, vec: raw }
    }

    /// The vector underneath.
    pub fn as_raw(&self) -> (raw: &RawBitVec)
        requires
            self.wf(),
        ensures
            *raw == self.raw(),
            raw.wf(self.spec_proto()),
    {
        &self.vec
    }

    /// Makes room for `extra_elements` more elements, growing to exactly
    /// the words they need.
    pub fn grow_exact_for_additional_elements_if_needed(&mut self, extra_elements: usize) -> (res: Result<
        (),
        BitVecError,
    >)
        requires
            old(self).wf(),
        ensures
            final(self).wf(),
            final(self).spec_proto() == old(self).spec_proto(),
            old(self).spec_len() + extra_elements <= old(self).spec_proto().MAX_CAPACITY ==> {
                &&& res == Ok::<(), BitVecError>(())
                &&& final(self)@ == old(self)@
                &&& zero_extended(old(self).raw().storage(), final(self).raw().storage())
                &&& final(self).true_cap() == grown_block_count(
                    old(self).true_cap() as int,
                    words_for_bits((old(self).spec_len() + extra_elements) * old(self).spec_proto().BITS),
                    false,
                )
                &&& final(self).spec_cap() >= old(self).spec_len() + extra_elements
            },
            old(self).spec_len() + extra_elements > old(self).spec_proto().MAX_CAPACITY ==> {
                &&& res == Err::<(), BitVecError>(
                    BitVecError::CapacityExceeded { max_capacity: old(self).spec_proto().MAX_CAPACITY },
                )
                &&& final(self).raw() == old(self).raw()
            },
    {
        self.vec.grow_exact_for_additional_elements_if_needed(*self.proto, extra_elements)
    }

    /// Makes room for `total_elements` elements in all, growing to exactly
    /// the words they need.
    pub fn grow_exact_for_total_elements_if_needed(&mut self, total_elements: usize) -> (res: Result<(), BitVecError>)
        requires
            old(self).wf(),
        ensures
            final(self).wf(),
            final(self).spec_proto() == old(self).spec_proto(),
            total_elements <= old(self).spec_proto().MAX_CAPACITY ==> {
                &&& res == Ok::<(), BitVecError>(())
                &&& final(self)@ == old(self)@
                &&& zero_extended(old(self).raw().storage(), final(self).raw().storage())
                &&& final(self).true_cap() == grown_block_count(
                    old(self).true_cap() as int,
                    words_for_bits(total_elements * old(self).spec_proto().BITS),
                    false,
                )
                &&& final(self).spec_cap() >= total_elements
            },
            total_elements > old(self).spec_proto().MAX_CAPACITY ==> {
                &&& res == Err::<(), BitVecError>(
                    BitVecError::CapacityExceeded { max_capacity: old(self).spec_proto().MAX_CAPACITY },
                )
                &&& final(self).raw() == old(self).raw()
            },
    {
        self.vec.grow_exact_for_total_elements_if_needed(*self.proto, total_elements)
    }

    /// Makes room for `extra_elements` more elements, growing to the words
    /// they need and half as many again.
    pub fn grow_for_additional_elements_if_needed(&mut self, extra_elements: usize) -> (res: Result<(), BitVecError>)
        requires
            old(self).wf(),
        ensures
            final(self).wf(),
            final(self).spec_proto() == old(self).spec_proto(),
            old(self).spec_len() + extra_elements <= old(self).spec_proto().MAX_CAPACITY ==> {
                &&& res == Ok::<(), BitVecError>(())
                &&& final(self)@ == old(self)@
                &&& zero_extended(old(self).raw().storage(), final(self).raw().storage())
                &&& final(self).true_cap() == grown_block_count(
                    old(self).true_cap() as int,
                    words_for_bits((old(self).spec_len() + extra_elements) * old(self).spec_proto().BITS),
                    true,
                )
                &&& final(self).spec_cap() >= old(self).spec_len() + extra_elements
            },
            old(self).spec_len() + extra_elements > old(self).spec_proto().MAX_CAPACITY ==> {
                &&& res == Err::<(), BitVecError>(
                    BitVecError::CapacityExceeded { max_capacity: old(self).spec_proto().MAX_CAPACITY },
                )
                &&& final(self).raw() == old(self).raw()
            },
    {
        self.vec.grow_for_additional_elements_if_needed(*self.proto, extra_elements)
    }

    /// Makes room for `total_elements` elements in all, growing to the
    /// words they need and half as many again.
    pub fn grow_for_total_elements_if_needed(&mut self, total_elements: usize) -> (res: Result<(), BitVecError>)
        requires
            old(self).wf(),
        ensures
            final(self).wf(),
            final(self).spec_proto() == old(self).spec_proto(),
            total_elements <= old(self).spec_proto().MAX_CAPACITY ==> {
                &&& res == Ok::<(), BitVecError>(())
                &&& final(self)@ == old(self)@
                &&& zero_extended(old(self).raw().storage(), final(self).raw().storage())
                &&& final(self).true_cap() == grown_block_count(
                    old(self).true_cap() as int,
                    words_for_bits(total_elements * old(self).spec_proto().BITS),
                    true,
                )
                &&& final(self).spec_cap() >= total_elements
            },
            total_elements > old(self).spec_proto().MAX_CAPACITY ==> {
                &&& res == Err::<(), BitVecError>(
                    BitVecError::CapacityExceeded { max_capacity: old(self).spec_proto().MAX_CAPACITY },
                )
                &&& final(self).raw() == old(self).raw()
            },
    {
        self.vec.grow_for_total_elements_if_needed(*self.proto, total_elements)
    }

    /// Forgets the elements and keeps the storage.
    pub fn clear(&mut self)
        requires
            old(self).wf(),
        ensures
            final(self).wf(),
            final(self).spec_proto() == old(self).spec_proto(),
            final(self).spec_len() == 0,
            final(self)@ == Seq::<u64>::empty(),
            final(self).raw().storage() == old(self).raw().storage(),
            final(self).true_cap() == old(self).true_cap(),
    {
        self.vec.clear();
        proof {
            assert(self@ =~= Seq::<u64>::empty());
        }
    }

    /// Appends `val`, growing as [`RawBitVec::push`] does. A value that
    /// does not fit the width is refused.
    pub fn push(&mut self, val: u64) -> (res: Result<(), BitVecError>)
        requires
            old(self).wf(),
        ensures
            final(self).wf(),
            final(self).spec_proto() == old(self).spec_proto(),
            old(self).spec_len() >= old(self).spec_proto().MAX_CAPACITY ==> {
                &&& res == Err::<(), BitVecError>(
                    BitVecError::CapacityExceeded { max_capacity: old(self).spec_proto().MAX_CAPACITY },
                )
                &&& final(self).raw() == old(self).raw()
            },
            old(self).spec_len() < old(self).spec_proto().MAX_CAPACITY && val > old(self).spec_proto().MASK ==> {
                &&& res == Err::<(), BitVecError>(
                    BitVecError::ValueTooWide { value: val, mask: old(self).spec_proto().MASK },
                )
                &&& final(self).raw() == old(self).raw()
            },
            old(self).spec_len() < old(self).spec_proto().MAX_CAPACITY && val <= old(self).spec_proto().MASK ==> {
                &&& res == Ok::<(), BitVecError>(())
                &&& final(self)@ == old(self)@.push(val)
                &&& final(self).true_cap() == old(self).raw().policy_block_count(
                    old(self).spec_proto(),
                    old(self).spec_len() + 1,
                    Grow::OnePointFive,
                )
                &&& final(self).true_cap() >= old(self).true_cap()
                &&& final(self).raw().storage() == store(
                    zero_padded(old(self).raw().storage(), final(self).true_cap() as int),
                    old(self).spec_len() * old(self).spec_proto().BITS,
                    old(self).spec_proto().BITS as int,
                    val,
                )
            },
    {
        self.vec.push(*self.proto, val)
    }

    /// Appends `val` to a vector that has room for it.
    pub fn push_unchecked(&mut self, val: u64)
        requires
            old(self).wf(),
            old(self).spec_len() < old(self).spec_cap(),
            val <= old(self).spec_proto().MASK,
        ensures
            final(self).wf(),
            final(self).spec_proto() == old(self).spec_proto(),
            final(self)@ == old(self)@.push(val),
            final(self).raw().storage() == store(
                old(self).raw().storage(),
                old(self).spec_len() * old(self).spec_proto().BITS,
                old(self).spec_proto().BITS as int,
                val,
            ),
            final(self).true_cap() == old(self).true_cap(),
    {
        self.vec.push_unchecked(*self.proto, val)
    }

    /// Takes the last element off. The bits that held it are cleared.
    pub fn pop(&mut self) -> (res: Result<u64, BitVecError>)
        requires
            old(self).wf(),
        ensures
            final(self).wf(),
            final(self).spec_proto() == old(self).spec_proto(),
            old(self).spec_len() > 0 ==> {
                &&& res == Ok::<u64, BitVecError>(old(self)@.last())
                &&& final(self)@ == old(self)@.drop_last()
                &&& final(self).raw().storage() == store(
                    old(self).raw().storage(),
                    (old(self).spec_len() - 1) * old(self).spec_proto().BITS,
                    old(self).spec_proto().BITS as int,
                    0,
                )
                &&& final(self).true_cap() == old(self).true_cap()
            },
            old(self).spec_len() == 0 ==> {
                &&& res == Err::<u64, BitVecError>(BitVecError::EmptyVector)
                &&& final(self).raw() == old(self).raw()
            },
    {
        self.vec.pop(*self.proto)
    }

    /// Takes the last element off a vector that is not empty.
    pub fn pop_unchecked(&mut self) -> (val: u64)
        requires
            old(self).wf(),
            old(self).spec_len() > 0,
        ensures
            final(self).wf(),
            final(self).spec_proto() == old(self).spec_proto(),
            val == old(self)@.last(),
            final(self)@ == old(self)@.drop_last(),
            final(self).raw().storage() == store(
                old(self).raw().storage(),
                (old(self).spec_len() - 1) * old(self).spec_proto().BITS,
                old(self).spec_proto().BITS as int,
                0,
            ),
            final(self).true_cap() == old(self).true_cap(),
    {
        self.vec.pop_unchecked(*self.proto)
    }

    /// Puts `val` at `idx` and moves the elements from there on up by one.
    /// A value that does not fit the width is refused.
    pub fn insert(&mut self, idx: usize, val: u64) -> (res: Result<(), BitVecError>)
        requires
            old(self).wf(),
        ensures
            final(self).wf(),
            final(self).spec_proto() == old(self).spec_proto(),
            idx > old(self).spec_len() ==> {
                &&& res == Err::<(), BitVecError>(
                    BitVecError::IndexOutOfRange { index: idx, len: old(self).spec_len() },
                )
                &&& final(self).raw() == old(self).raw()
            },
            idx <= old(self).spec_len() && old(self).spec_len() >= old(self).spec_proto().MAX_CAPACITY ==> {
                &&& res == Err::<(), BitVecError>(
                    BitVecError::CapacityExceeded { max_capacity: old(self).spec_proto().MAX_CAPACITY },
                )
                &&& final(self).raw() == old(self).raw()
            },
            idx <= old(self).spec_len() < old(self).spec_proto().MAX_CAPACITY && val > old(self).spec_proto().MASK ==> {
                &&& res == Err::<(), BitVecError>(
                    BitVecError::ValueTooWide { value: val, mask: old(self).spec_proto().MASK },
                )
                &&& final(self).raw() == old(self).raw()
            },
            idx <= old(self).spec_len() < old(self).spec_proto().MAX_CAPACITY && val <= old(self).spec_proto().MASK ==> {
                &&& res == Ok::<(), BitVecError>(())
                &&& final(self)@ == old(self)@.insert(idx as int, val)
                &&& words_kept_from(
                    old(self).raw().storage(),
                    final(self).raw().storage(),
                    words_for_bits((old(self).spec_len() + 1) * old(self).spec_proto().BITS),
                )
                &&& final(self).true_cap() == old(self).raw().policy_block_count(
                    old(self).spec_proto(),
                    old(self).spec_len() + 1,
                    Grow::OnePointFive,
                )
                &&& final(self).true_cap() >= old(self).true_cap()
            },
    {
        self.vec.insert(*self.proto, idx, val)
    }

    /// Puts `val` at `idx`, which is below the length, in a vector that
    /// has room for one element more.
    pub fn insert_unchecked(&mut self, idx: usize, val: u64)
        requires
            old(self).wf(),
            idx < old(self).spec_len(),
            old(self).spec_len() < old(self).spec_cap(),
            val <= old(self).spec_proto().MASK,
        ensures
            final(self).wf(),
            final(self).spec_proto() == old(self).spec_proto(),
            final(self)@ == old(self)@.insert(idx as int, val),
            words_kept_from(
                old(self).raw().storage(),
                final(self).raw().storage(),
                words_for_bits((old(self).spec_len() + 1) * old(self).spec_proto().BITS),
            ),
            final(self).true_cap() == old(self).true_cap(),
    {
        self.vec.insert_unchecked(*self.proto, idx, val)
    }

    /// Puts the elements of `bitvec` in at `insert_idx`, growing once for
    /// all of them.
    pub fn insert_bitvec(&mut self, insert_idx: usize, bitvec: Self) -> (res: Result<(), BitVecError>)
        requires
            old(self).wf(),
            bitvec.wf(),
            bitvec.spec_proto() == old(self).spec_proto(),
        ensures
            final(self).wf(),
            final(self).spec_proto() == old(self).spec_proto(),
            insert_idx > old(self).spec_len() ==> {
                &&& res == Err::<(), BitVecError>(
                    BitVecError::IndexOutOfRange { index: insert_idx, len: old(self).spec_len() },
                )
                &&& final(self).raw() == old(self).raw()
            },
            insert_idx <= old(self).spec_len() && old(self).spec_len() + bitvec.spec_len()
                > old(self).spec_proto().MAX_CAPACITY ==> {
                &&& res == Err::<(), BitVecError>(
                    BitVecError::CapacityExceeded { max_capacity: old(self).spec_proto().MAX_CAPACITY },
                )
                &&& final(self).raw() == old(self).raw()
            },
            insert_idx <= old(self).spec_len() && old(self).spec_len() + bitvec.spec_len()
                <= old(self).spec_proto().MAX_CAPACITY ==> {
                &&& res == Ok::<(), BitVecError>(())
                &&& final(self)@ == old(self)@.subrange(0, insert_idx as int) + bitvec@ + old(self)@.subrange(
                    insert_idx as int,
                    old(self).spec_len() as int,
                )
                &&& words_kept_from(
                    old(self).raw().storage(),
                    final(self).raw().storage(),
                    words_for_bits((old(self).spec_len() + bitvec.spec_len()) * old(self).spec_proto().BITS),
                )
                &&& final(self).true_cap() == grown_block_count(
                    old(self).true_cap() as int,
                    words_for_bits((old(self).spec_len() + bitvec.spec_len()) * old(self).spec_proto().BITS),
                    true,
                )
            },
    {
        self.vec.insert_bitvec(*self.proto, insert_idx, bitvec.into_raw())
    }

    /// Puts the elements of `bitvec` in at `insert_idx`, which is below
    /// the length, in a vector that has room for them.
    pub fn insert_bitvec_unchecked(&mut self, insert_idx: usize, bitvec: Self)
        requires
            old(self).wf(),
            bitvec.wf(),
            bitvec.spec_proto() == old(self).spec_proto(),
            insert_idx < old(self).spec_len(),
            old(self).spec_len() + bitvec.spec_len() <= old(self).spec_cap(),
        ensures
            final(self).wf(),
            final(self).spec_proto() == old(self).spec_proto(),
            final(self)@ == old(self)@.subrange(0, insert_idx as int) + bitvec@ + old(self)@.subrange(
                insert_idx as int,
                old(self).spec_len() as int,
            ),
            words_kept_from(
                old(self).raw().storage(),
                final(self).raw().storage(),
                words_for_bits((old(self).spec_len() + bitvec.spec_len()) * old(self).spec_proto().BITS),
            ),
            final(self).true_cap() == old(self).true_cap(),
    {
        self.vec.insert_bitvec_unchecked(*self.proto, insert_idx, bitvec.into_raw())
    }

    /// Puts the values of `source` in at `insert_idx`, growing once for
    /// all of them. If a value does not fit the width, nothing is put in
    /// and the first such value is named.
    pub fn insert_iter(&mut self, insert_idx: usize, source: &Vec<u64>) -> (res: Result<(), BitVecError>)
        requires
            old(self).wf(),
        ensures
            final(self).wf(),
            final(self).spec_proto() == old(self).spec_proto(),
            insert_idx > old(self).spec_len() ==> {
                &&& res == Err::<(), BitVecError>(
                    BitVecError::IndexOutOfRange { index: insert_idx, len: old(self).spec_len() },
                )
                &&& final(self).raw() == old(self).raw()
            },
            insert_idx <= old(self).spec_len() && old(self).spec_len() + source.len()
                > old(self).spec_proto().MAX_CAPACITY ==> {
                &&& res == Err::<(), BitVecError>(
                    BitVecError::CapacityExceeded { max_capacity: old(self).spec_proto().MAX_CAPACITY },
                )
                &&& final(self).raw() == old(self).raw()
            },
            insert_idx <= old(self).spec_len() && old(self).spec_len() + source.len()
                <= old(self).spec_proto().MAX_CAPACITY && !RawBitVec::all_fit(old(self).spec_proto(), source@) ==> {
                &&& res == Err::<(), BitVecError>(
                    BitVecError::ValueTooWide {
                        value: source@[RawBitVec::first_misfit(old(self).spec_proto(), source@)],
                        mask: old(self).spec_proto().MASK,
                    },
                )
                &&& final(self).raw() == old(self).raw()
            },
            insert_idx <= old(self).spec_len() && old(self).spec_len() + source.len()
                <= old(self).spec_proto().MAX_CAPACITY && RawBitVec::all_fit(old(self).spec_proto(), source@) ==> {
                &&& res == Ok::<(), BitVecError>(())
                &&& final(self)@ == old(self)@.subrange(0, insert_idx as int) + source@ + old(self)@.subrange(
                    insert_idx as int,
                    old(self).spec_len() as int,
                )
                &&& words_kept_from(
                    old(self).raw().storage(),
                    final(self).raw().storage(),
                    words_for_bits((old(self).spec_len() + source.len()) * old(self).spec_proto().BITS),
                )
                &&& final(self).true_cap() == grown_block_count(
                    old(self).true_cap() as int,
                    words_for_bits((old(self).spec_len() + source.len()) * old(self).spec_proto().BITS),
                    true,
                )
            },
    {
        self.vec.insert_iter(*self.proto, insert_idx, source)
    }

    /// Puts the values of `source` in at `insert_idx`, which is below the
    /// length, in a vector that has room for them.
    pub fn insert_iter_unchecked(&mut self, insert_idx: usize, source: &Vec<u64>)
        requires
            old(self).wf(),
            RawBitVec::all_fit(old(self).spec_proto(), source@),
            insert_idx < old(self).spec_len(),
            old(self).spec_len() + source.len() <= old(self).spec_cap(),
        ensures
            final(self).wf(),
            final(self).spec_proto() == old(self).spec_proto(),
            final(self)@ == old(self)@.subrange(0, insert_idx as int) + source@ + old(self)@.subrange(
                insert_idx as int,
                old(self).spec_len() as int,
            ),
            words_kept_from(
                old(self).raw().storage(),
                final(self).raw().storage(),
                words_for_bits((old(self).spec_len() + source.len()) * old(self).spec_proto().BITS),
            ),
            final(self).true_cap() == old(self).true_cap(),
    {
        self.vec.insert_iter_unchecked(*self.proto, insert_idx, source)
    }

    /// Takes the element at `idx` out and moves the elements behind it
    /// down by one.
    pub fn remove(&mut self, idx: usize) -> (res: Result<u64, BitVecError>)
        requires
            old(self).wf(),
        ensures
            final(self).wf(),
            final(self).spec_proto() == old(self).spec_proto(),
            idx < old(self).spec_len() ==> {
                &&& res == Ok::<u64, BitVecError>(old(self)@[idx as int])
                &&& final(self)@ == old(self)@.remove(idx as int)
                &&& words_kept_from(
                    old(self).raw().storage(),
                    final(self).raw().storage(),
                    words_for_bits(old(self).spec_len() * old(self).spec_proto().BITS),
                )
                &&& final(self).true_cap() == old(self).true_cap()
            },
            idx >= old(self).spec_len() ==> {
                &&& res == Err::<u64, BitVecError>(
                    BitVecError::IndexOutOfRange { index: idx, len: old(self).spec_len() },
                )
                &&& final(self).raw() == old(self).raw()
            },
    {
        self.vec.remove(*self.proto, idx)
    }

    /// Takes the element at `idx`, which is below the length, out.
    pub fn remove_unchecked(&mut self, idx: usize) -> (val: u64)
        requires
            old(self).wf(),
            idx < old(self).spec_len(),
        ensures
            final(self).wf(),
            final(self).spec_proto() == old(self).spec_proto(),
            val == old(self)@[idx as int],
            final(self)@ == old(self)@.remove(idx as int),
            words_kept_from(
                old(self).raw().storage(),
                final(self).raw().storage(),
                words_for_bits(old(self).spec_len() * old(self).spec_proto().BITS),
            ),
            final(self).true_cap() == old(self).true_cap(),
    {
        self.vec.remove_unchecked(*self.proto, idx)
    }

    /// Takes the elements of `idx_range` out into a vector of their own
    /// and moves the elements behind them down. An empty or reversed range
    /// takes nothing.
    pub fn remove_range(&mut self, idx_range: core::ops::Range<usize>) -> (res: Result<Self, BitVecError>)
        requires
            old(self).wf(),
        ensures
            final(self).wf(),
            final(self).spec_proto() == old(self).spec_proto(),
            idx_range.end > old(self).spec_len() ==> {
                &&& res == Err::<Self, BitVecError>(
                    BitVecError::IndexOutOfRange { index: (idx_range.end - 1) as usize, len: old(self).spec_len() },
                )
                &&& final(self).raw() == old(self).raw()
            },
            idx_range.end <= old(self).spec_len() ==> {
                &&& res.is_ok()
                &&& res.unwrap().wf()
                &&& res.unwrap().spec_proto() == old(self).spec_proto()
                &&& words_kept_from(
                    old(self).raw().storage(),
                    final(self).raw().storage(),
                    words_for_bits(old(self).spec_len() * old(self).spec_proto().BITS),
                )
                &&& final(self).true_cap() == old(self).true_cap()
            },
            idx_range.start < idx_range.end <= old(self).spec_len() ==> {
                &&& res.unwrap()@ == old(self)@.subrange(idx_range.start as int, idx_range.end as int)
                &&& final(self)@ == old(self)@.subrange(0, idx_range.start as int) + old(self)@.subrange(
                    idx_range.end as int,
                    old(self).spec_len() as int,
                )
            },
            idx_range.start >= idx_range.end && idx_range.end <= old(self).spec_len() ==> {
                &&& res.unwrap().spec_len() == 0
                &&& final(self).raw() == old(self).raw()
            },
    {
        match self.vec.remove_range(*self.proto, idx_range) {
            Ok(raw) => Ok(Self { proto: self.proto, vec: raw }),
            Err(e) => Err(e),
        }
    }

    /// Takes the elements of `idx_range`, which is not empty and lies
    /// within the length, out into a vector of their own.
    pub fn remove_range_unchecked(&mut self, idx_range: core::ops::Range<usize>) -> (removed: Self)
        requires
            old(self).wf(),
            idx_range.start < idx_range.end <= old(self).spec_len(),
        ensures
            final(self).wf(),
            removed.wf(),
            final(self).spec_proto() == old(self).spec_proto(),
            removed.spec_proto() == old(self).spec_proto(),
            removed@ == old(self)@.subrange(idx_range.start as int, idx_range.end as int),
            final(self)@ == old(self)@.subrange(0, idx_range.start as int) + old(self)@.subrange(
                idx_range.end as int,
                old(self).spec_len() as int,
            ),
            words_kept_from(
                old(self).raw().storage(),
                final(self).raw().storage(),
                words_for_bits(old(self).spec_len() * old(self).spec_proto().BITS),
            ),
            final(self).true_cap() == old(self).true_cap(),
    {
        let raw = self.vec.remove_range_unchecked(*self.proto, idx_range);
        Self { proto: self.proto, vec: raw }
    }

    /// Takes the elements from `start` on out into a vector of their own.
    pub fn trim_range(&mut self, start: usize) -> (res: Result<Self, BitVecError>)
        requires
            old(self).wf(),
        ensures
            final(self).wf(),
            final(self).spec_proto() == old(self).spec_proto(),
            start > old(self).spec_len() ==> {
                &&& res == Err::<Self, BitVecError>(
                    BitVecError::IndexOutOfRange { index: start, len: old(self).spec_len() },
                )
                &&& final(self).raw() == old(self).raw()
            },
            start <= old(self).spec_len() ==> {
                &&& res.is_ok()
                &&& res.unwrap().wf()
                &&& res.unwrap().spec_proto() == old(self).spec_proto()
                &&& res.unwrap()@ == old(self)@.subrange(start as int, old(self).spec_len() as int)
                &&& final(self)@ == old(self)@.take(start as int)
                &&& words_kept_from(
                    old(self).raw().storage(),
                    final(self).raw().storage(),
                    words_for_bits(old(self).spec_len() * old(self).spec_proto().BITS),
                )
                &&& final(self).true_cap() == old(self).true_cap()
            },
    {
        match self.vec.trim_range(*self.proto, start) {
            Ok(raw) => Ok(Self { proto: self.proto, vec: raw }),
            Err(e) => Err(e),
        }
    }

    /// Takes the elements from `start`, which is no more than the length,
    /// on out into a vector of their own.
    pub fn trim_range_unchecked(&mut self, start: usize) -> (trimmed: Self)
        requires
            old(self).wf(),
            start <= old(self).spec_len(),
        ensures
            final(self).wf(),
            final(self).spec_proto() == old(self).spec_proto(),
            trimmed.wf(),
            trimmed.spec_proto() == old(self).spec_proto(),
            trimmed@ == old(self)@.subrange(start as int, old(self).spec_len() as int),
            final(self)@ == old(self)@.take(start as int),
            words_kept_from(
                old(self).raw().storage(),
                final(self).raw().storage(),
                words_for_bits(old(self).spec_len() * old(self).spec_proto().BITS),
            ),
            final(self).true_cap() == old(self).true_cap(),
    {
        let raw = self.vec.trim_range_unchecked(*self.proto, start);
        Self { proto: self.proto, vec: raw }
    }

    /// Exchanges the elements at `idx_a` and `idx_b`. Of the storage only
    /// the bits of the two elements change; with the two the same nothing
    /// is touched.
    pub fn swap(&mut self, idx_a: usize, idx_b: usize) -> (res: Result<(), BitVecError>)
        requires
            old(self).wf(),
        ensures
            final(self).wf(),
            final(self).spec_proto() == old(self).spec_proto(),
            idx_a < old(self).spec_len() && idx_b < old(self).spec_len() ==> {
                &&& res == Ok::<(), BitVecError>(())
                &&& final(self)@ == old(self)@.update(idx_a as int, old(self)@[idx_b as int]).update(
                    idx_b as int,
                    old(self)@[idx_a as int],
                )
                &&& final(self).raw().storage() == swapped(
                    old(self).raw().storage(),
                    old(self).spec_proto().BITS as int,
                    idx_a as int,
                    idx_b as int,
                )
                &&& final(self).true_cap() == old(self).true_cap()
            },
            idx_a == idx_b ==> final(self).raw() == old(self).raw(),
            idx_a >= old(self).spec_len() ==> {
                &&& res == Err::<(), BitVecError>(
                    BitVecError::IndexOutOfRange { index: idx_a, len: old(self).spec_len() },
                )
                &&& final(self).raw() == old(self).raw()
            },
            idx_a < old(self).spec_len() && idx_b >= old(self).spec_len() ==> {
                &&& res == Err::<(), BitVecError>(
                    BitVecError::IndexOutOfRange { index: idx_b, len: old(self).spec_len() },
                )
                &&& final(self).raw() == old(self).raw()
            },
    {
        self.vec.swap(*self.proto, idx_a, idx_b)
    }

    /// Exchanges the elements at `idx_a` and `idx_b`, both below the
    /// length.
    pub fn swap_unchecked(&mut self, idx_a: usize, idx_b: usize)
        requires
            old(self).wf(),
            idx_a < old(self).spec_len(),
            idx_b < old(self).spec_len(),
        ensures
            final(self).wf(),
            final(self).spec_proto() == old(self).spec_proto(),
            final(self)@ == old(self)@.update(idx_a as int, old(self)@[idx_b as int]).update(
                idx_b as int,
                old(self)@[idx_a as int],
            ),
            final(self).raw().storage() == swapped(
                old(self).raw().storage(),
                old(self).spec_proto().BITS as int,
                idx_a as int,
                idx_b as int,
            ),
            final(self).true_cap() == old(self).true_cap(),
    {
        self.vec.swap_unchecked(*self.proto, idx_a, idx_b)
    }

    /// Takes the element at `idx` out and puts the last element in its
    /// place. The bits that held the last element are cleared.
    pub fn swap_pop(&mut self, idx: usize) -> (res: Result<u64, BitVecError>)
        requires
            old(self).wf(),
        ensures
            final(self).wf(),
            final(self).spec_proto() == old(self).spec_proto(),
            idx < old(self).spec_len() ==> {
                &&& res == Ok::<u64, BitVecError>(old(self)@[idx as int])
                &&& final(self)@ == old(self)@.update(idx as int, old(self)@.last()).drop_last()
                &&& final(self).raw().storage() == (if idx + 1 < old(self).spec_len() {
                    swap_popped(
                        old(self).raw().storage(),
                        old(self).spec_proto().BITS as int,
                        idx as int,
                        old(self).spec_len() - 1,
                    )
                } else {
                    store(old(self).raw().storage(), idx * old(self).spec_proto().BITS, old(self).spec_proto().BITS as int, 0)
                })
                &&& final(self).true_cap() == old(self).true_cap()
            },
            idx >= old(self).spec_len() ==> {
                &&& res == Err::<u64, BitVecError>(
                    BitVecError::IndexOutOfRange { index: idx, len: old(self).spec_len() },
                )
                &&& final(self).raw() == old(self).raw()
            },
    {
        self.vec.swap_pop(*self.proto, idx)
    }

    /// Takes the element at `idx`, which is not the last, out and puts the
    /// last element in its place.
    pub fn swap_pop_unchecked(&mut self, idx: usize) -> (val: u64)
        requires
            old(self).wf(),
            idx + 1 < old(self).spec_len(),
        ensures
            final(self).wf(),
            final(self).spec_proto() == old(self).spec_proto(),
            val == old(self)@[idx as int],
            final(self)@ == old(self)@.update(idx as int, old(self)@.last()).drop_last(),
            final(self).raw().storage() == swap_popped(
                old(self).raw().storage(),
                old(self).spec_proto().BITS as int,
                idx as int,
                old(self).spec_len() - 1,
            ),
            final(self).true_cap() == old(self).true_cap(),
    {
        self.vec.swap_pop_unchecked(*self.proto, idx)
    }

    /// Gives back the storage beyond what the elements and
    /// `extra_capacity_to_keep` more of them need.
    pub fn trim_excess_capacity(&mut self, extra_capacity_to_keep: usize) -> (res: Result<(), BitVecError>)
        requires
            old(self).wf(),
        ensures
            final(self).wf(),
            final(self).spec_proto() == old(self).spec_proto(),
            res == Ok::<(), BitVecError>(()),
            final(self)@ == old(self)@,
            truncated(old(self).raw().storage(), final(self).raw().storage()),
            final(self).true_cap() == (if old(self).spec_len() + extra_capacity_to_keep < old(self).spec_cap() {
                words_for_bits((old(self).spec_len() + extra_capacity_to_keep) * old(self).spec_proto().BITS)
            } else {
                old(self).true_cap() as int
            }),
    {
        self.vec.shrink_excess_capacity(*self.proto, extra_capacity_to_keep)
    }

    /// Appends the elements of `bitvec`, growing once for all of them.
    pub fn append_bitvec(&mut self, bitvec: Self) -> (res: Result<(), BitVecError>)
        requires
            old(self).wf(),
            bitvec.wf(),
            bitvec.spec_proto() == old(self).spec_proto(),
        ensures
            final(self).wf(),
            final(self).spec_proto() == old(self).spec_proto(),
            old(self).spec_len() + bitvec.spec_len() <= old(self).spec_proto().MAX_CAPACITY ==> {
                &&& res == Ok::<(), BitVecError>(())
                &&& final(self)@ == old(self)@ + bitvec@
                &&& words_kept_from(
                    old(self).raw().storage(),
                    final(self).raw().storage(),
                    words_for_bits((old(self).spec_len() + bitvec.spec_len()) * old(self).spec_proto().BITS),
                )
                &&& final(self).true_cap() == grown_block_count(
                    old(self).true_cap() as int,
                    words_for_bits((old(self).spec_len() + bitvec.spec_len()) * old(self).spec_proto().BITS),
                    true,
                )
            },
            old(self).spec_len() + bitvec.spec_len() > old(self).spec_proto().MAX_CAPACITY ==> {
                &&& res == Err::<(), BitVecError>(
                    BitVecError::CapacityExceeded { max_capacity: old(self).spec_proto().MAX_CAPACITY },
                )
                &&& final(self).raw() == old(self).raw()
            },
    {
        self.vec.append_bitvec(*self.proto, bitvec.into_raw())
    }

    /// Appends the elements of `bitvec` to a vector that has room for
    /// them.
    pub fn append_bitvec_unchecked(&mut self, bitvec: Self)
        requires
            old(self).wf(),
            bitvec.wf(),
            bitvec.spec_proto() == old(self).spec_proto(),
            old(self).spec_len() + bitvec.spec_len() <= old(self).spec_cap(),
        ensures
            final(self).wf(),
            final(self).spec_proto() == old(self).spec_proto(),
            final(self)@ == old(self)@ + bitvec@,
            words_kept_from(
                old(self).raw().storage(),
                final(self).raw().storage(),
                words_for_bits((old(self).spec_len() + bitvec.spec_len()) * old(self).spec_proto().BITS),
            ),
            final(self).true_cap() == old(self).true_cap(),
    {
        self.vec.append_bitvec_unchecked(*self.proto, bitvec.into_raw())
    }

    /// Appends the values of `source`, growing once for all of them. If a
    /// value does not fit the width, nothing is appended and the first such
    /// value is named.
    pub fn append_iter(&mut self, source: &Vec<u64>) -> (res: Result<(), BitVecError>)
        requires
            old(self).wf(),
        ensures
            final(self).wf(),
            final(self).spec_proto() == old(self).spec_proto(),
            old(self).spec_len() + source.len() > old(self).spec_proto().MAX_CAPACITY ==> {
                &&& res == Err::<(), BitVecError>(
                    BitVecError::CapacityExceeded { max_capacity: old(self).spec_proto().MAX_CAPACITY },
                )
                &&& final(self).raw() == old(self).raw()
            },
            old(self).spec_len() + source.len() <= old(self).spec_proto().MAX_CAPACITY && !RawBitVec::all_fit(
                old(self).spec_proto(),
                source@,
            ) ==> {
                &&& res == Err::<(), BitVecError>(
                    BitVecError::ValueTooWide {
                        value: source@[RawBitVec::first_misfit(old(self).spec_proto(), source@)],
                        mask: old(self).spec_proto().MASK,
                    },
                )
                &&& final(self).raw() == old(self).raw()
            },
            old(self).spec_len() + source.len() <= old(self).spec_proto().MAX_CAPACITY && RawBitVec::all_fit(
                old(self).spec_proto(),
                source@,
            ) ==> {
                &&& res == Ok::<(), BitVecError>(())
                &&& final(self)@ == old(self)@ + source@
                &&& words_kept_from(
                    old(self).raw().storage(),
                    final(self).raw().storage(),
                    words_for_bits((old(self).spec_len() + source.len()) * old(self).spec_proto().BITS),
                )
                &&& final(self).true_cap() == grown_block_count(
                    old(self).true_cap() as int,
                    words_for_bits((old(self).spec_len() + source.len()) * old(self).spec_proto().BITS),
                    true,
                )
            },
    {
        self.vec.append_iter(*self.proto, source)
    }

    /// Appends the values of `source` to a vector that has room for them.
    pub fn append_iter_unchecked(&mut self, source: &Vec<u64>)
        requires
            old(self).wf(),
            RawBitVec::all_fit(old(self).spec_proto(), source@),
            old(self).spec_len() + source.len() <= old(self).spec_cap(),
        ensures
            final(self).wf(),
            final(self).spec_proto() == old(self).spec_proto(),
            final(self)@ == old(self)@ + source@,
            words_kept_from(
                old(self).raw().storage(),
                final(self).raw().storage(),
                words_for_bits((old(self).spec_len() + source.len()) * old(self).spec_proto().BITS),
            ),
            final(self).true_cap() == old(self).true_cap(),
    {
        self.vec.append_iter_unchecked(*self.proto, source)
    }

    /// Reads the element at `idx`.
    pub fn get(&self, idx: usize) -> (res: Result<u64, BitVecError>)
        requires
            self.wf(),
        ensures
            idx < self.spec_len() ==> res == Ok::<u64, BitVecError>(self@[idx as int]),
            idx >= self.spec_len() ==> res == Err::<u64, BitVecError>(
                BitVecError::IndexOutOfRange { index: idx, len: self.spec_len() },
            ),
    {
        self.vec.get(*self.proto, idx)
    }

    /// Reads the element at `idx`, which is below the length.
    pub fn get_unchecked(&self, idx: usize) -> (val: u64)
        requires
            self.wf(),
            idx < self.spec_len(),
        ensures
            val == self@[idx as int],
            val <= self.spec_proto().MASK,
    {
        self.vec.get_unchecked(*self.proto, idx)
    }

    /// Writes `val` at `idx` and returns the element that was there. Of
    /// the storage only the bits of that element change. A value that does
    /// not fit the width is refused.
    pub fn replace(&mut self, idx: usize, val: u64) -> (res: Result<u64, BitVecError>)
        requires
            old(self).wf(),
        ensures
            final(self).wf(),
            final(self).spec_proto() == old(self).spec_proto(),
            idx >= old(self).spec_len() ==> {
                &&& res == Err::<u64, BitVecError>(
                    BitVecError::IndexOutOfRange { index: idx, len: old(self).spec_len() },
                )
                &&& final(self).raw() == old(self).raw()
            },
            idx < old(self).spec_len() && val > old(self).spec_proto().MASK ==> {
                &&& res == Err::<u64, BitVecError>(
                    BitVecError::ValueTooWide { value: val, mask: old(self).spec_proto().MASK },
                )
                &&& final(self).raw() == old(self).raw()
            },
            idx < old(self).spec_len() && val <= old(self).spec_proto().MASK ==> {
                &&& res == Ok::<u64, BitVecError>(old(self)@[idx as int])
                &&& final(self)@ == old(self)@.update(idx as int, val)
                &&& final(self).raw().storage() == store(
                    old(self).raw().storage(),
                    idx * old(self).spec_proto().BITS,
                    old(self).spec_proto().BITS as int,
                    val,
                )
                &&& final(self).true_cap() == old(self).true_cap()
            },
    {
        self.vec.replace(*self.proto, idx, val)
    }

    /// Writes `val` at `idx`, which is below the length, and returns the
    /// element that was there.
    pub fn replace_unchecked(&mut self, idx: usize, val: u64) -> (old_val: u64)
        requires
            old(self).wf(),
            idx < old(self).spec_len(),
            val <= old(self).spec_proto().MASK,
        ensures
            final(self).wf(),
            final(self).spec_proto() == old(self).spec_proto(),
            old_val == old(self)@[idx as int],
            final(self)@ == old(self)@.update(idx as int, val),
            final(self).raw().storage() == store(
                old(self).raw().storage(),
                idx * old(self).spec_proto().BITS,
                old(self).spec_proto().BITS as int,
                val,
            ),
            final(self).true_cap() == old(self).true_cap(),
    {
        self.vec.replace_unchecked(*self.proto, idx, val)
    }

    /// Writes `val` at `idx`. Of the storage only the bits of that element
    /// change. A value that does not fit the width is refused.
    pub fn set(&mut self, idx: usize, val: u64) -> (res: Result<(), BitVecError>)
        requires
            old(self).wf(),
        ensures
            final(self).wf(),
            final(self).spec_proto() == old(self).spec_proto(),
            idx >= old(self).spec_len() ==> {
                &&& res == Err::<(), BitVecError>(
                    BitVecError::IndexOutOfRange { index: idx, len: old(self).spec_len() },
                )
                &&& final(self).raw() == old(self).raw()
            },
            idx < old(self).spec_len() && val > old(self).spec_proto().MASK ==> {
                &&& res == Err::<(), BitVecError>(
                    BitVecError::ValueTooWide { value: val, mask: old(self).spec_proto().MASK },
                )
                &&& final(self).raw() == old(self).raw()
            },
            idx < old(self).spec_len() && val <= old(self).spec_proto().MASK ==> {
                &&& res == Ok::<(), BitVecError>(())
                &&& final(self)@ == old(self)@.update(idx as int, val)
                &&& final(self).raw().storage() == store(
                    old(self).raw().storage(),
                    idx * old(self).spec_proto().BITS,
                    old(self).spec_proto().BITS as int,
                    val,
                )
                &&& final(self).true_cap() == old(self).true_cap()
            },
    {
        self.vec.set(*self.proto, idx, val)
    }

    /// Writes `val` at `idx`, which is below the length.
    pub fn set_unchecked(&mut self, idx: usize, val: u64)
        requires
            old(self).wf(),
            idx < old(self).spec_len(),
            val <= old(self).spec_proto().MASK,
        ensures
            final(self).wf(),
            final(self).spec_proto() == old(self).spec_proto(),
            final(self)@ == old(self)@.update(idx as int, val),
            final(self).raw().storage() == store(
                old(self).raw().storage(),
                idx * old(self).spec_proto().BITS,
                old(self).spec_proto().BITS as int,
                val,
            ),
            final(self).true_cap() == old(self).true_cap(),
    {
        self.vec.set_unchecked(*self.proto, idx, val)
    }

    /// Empties the vector and hands its elements to a cursor that gives
    /// them out from either end. The vector keeps its storage.
    pub fn drain(&mut self) -> (drain: SProtoBitVecDrain)
        requires
            old(self).wf(),
        ensures
            final(self).wf(),
            drain.wf(),
            final(self).spec_proto() == old(self).spec_proto(),
            final(self).spec_len() == 0,
            final(self)@ == Seq::<u64>::empty(),
            final(self).raw().storage() == old(self).raw().storage(),
            final(self).true_cap() == old(self).true_cap(),
            drain@ == old(self)@,
    {
        let taken = self.vec.drain();
        proof {
            assert(self@ =~= Seq::<u64>::empty());
            assert(taken.remaining(self.spec_proto()) =~= old(self)@);
        }
        SProtoBitVecDrain::over(self.proto, taken)
    }

    /// Gives up the wrapper and hands out the vector underneath.
    pub fn into_raw(self) -> (raw: RawBitVec)
        requires
            self.wf(),
        ensures
            raw == self.raw(),
            raw.wf(self.spec_proto()),
    {
        self.vec
    }

    /// Turns the vector into a cursor that gives its elements out from
    /// either end.
    pub fn into_iter(self) -> (iter: SProtoBitVecIter)
        requires
            self.wf(),
        ensures
            iter.wf(),
            iter@ == self@,
    {
        let proto = self.proto;
        let walker = self.vec.into_iter();
        proof {
            assert(walker.remaining(self.spec_proto()) =~= self@);
        }
        SProtoBitVecIter::over(proto, walker)
    }
}

} // verus!
