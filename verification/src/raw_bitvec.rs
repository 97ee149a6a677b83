//! The packed vector itself.
//!
//! A [`RawBitVec`] owns the word storage and the count of elements, but not
//! the element width: every operation that touches an element takes the
//! [`BitProto`] and asks that it be the one the vector has been used with
//! since its first element, which is what [`RawBitVec::wf`] says.

use vstd::prelude::*;
use crate::bits::{
    bit_of, lemma_bits_ext, lemma_logic_bits, lemma_low_mask_bits, lemma_shl_bits, lemma_shr_bits, low_mask,
};
use crate::capacity::{ElementCount, Grow, Shrink};
use crate::error::BitVecError;
use crate::proto::{lemma_capacity_bits, words_for_bits, BitProto, IdxProxy, MAX_TRUE_BITS, MAX_TRUE_CAP};
use crate::raw_bitvec_iter::{RawBitVecDrain, RawBitVecIter};
use crate::shift::{
    lemma_elements_shifted_down, lemma_elements_shifted_up, lemma_mul_sum, shift_bits_down, shift_bits_up,
    shifted_down, shifted_up, zero_bits,
};
use crate::storage::{
    element_at, elements, storage_bit, lemma_element_within, lemma_prefix_elements, lemma_store_written, lemma_window_bits,
    lemma_storage_ext, lemma_store_keeps_words, lemma_swapped_self, lemma_words_kept_later, lemma_words_kept_twice,
    lemma_written_behind,
    lemma_written_elements, lemma_zero_padded, store, swap_popped, swapped, words_kept_from, truncated, window, written,
    zero_extended, zero_padded,
};

verus! {

/// A vector of elements of a fixed bit width, stored back to back in 64-bit
/// words.
pub struct RawBitVec {
    blocks: Vec<u64>,
    len: usize,
}

/// An element continues into the next word exactly when its second mask is
/// not zero.
pub proof fn lemma_straddle(width: u64, off: u64)
    by (bit_vector)
    requires
        1 <= width <= 64,
        off < 64,
    ensures
        off != 0 ==> ((low_mask(width) >> ((64 - off) as u64)) != 0 <==> off + width > 64),
        off == 0 ==> off + width <= 64,
{
}

/// The bits of `len` elements fit the storage only if `len` is no more than
/// the prototype's maximum capacity.
pub proof fn lemma_len_bound(proto: BitProto, len: int, words: int)
    requires
        proto.wf(),
        0 <= len,
        0 <= words <= MAX_TRUE_CAP,
        len * proto.BITS <= 64 * words,
    ensures
        len <= proto.MAX_CAPACITY,
        len <= (64 * words) / (proto.BITS as int),
{
    let w = proto.BITS as int;
    assert(len <= (64 * words) / w) by (nonlinear_arith)
        requires
            len * w <= 64 * words,
            w >= 1,
            0 <= len,
    ;
    crate::proto::lemma_div_monotone(64 * words, MAX_TRUE_BITS as int, w);
}

/// Whether `idx_proxy` is the coordinate of an element of `proto`'s width
/// that lies within `storage`.
pub open spec fn addressable(storage: Seq<u64>, proto: BitProto, idx_proxy: IdxProxy) -> bool {
    &&& proto.wf()
    &&& idx_proxy.bitwise_idx <= proto.MAX_CAPACITY
    &&& idx_proxy == proto.coordinate(idx_proxy.bitwise_idx)
    &&& (idx_proxy.bitwise_idx + 1) * proto.BITS <= 64 * storage.len()
}

/// What the fields of an addressable coordinate say of the storage.
pub proof fn lemma_addressable(storage: Seq<u64>, proto: BitProto, idx_proxy: IdxProxy)
    requires
        addressable(storage, proto, idx_proxy),
    ensures
        idx_proxy.first_offset < 64,
        idx_proxy.second_offset == 64 - idx_proxy.first_offset,
        idx_proxy.real_idx < storage.len(),
        idx_proxy.real_idx * 64 + idx_proxy.first_offset == idx_proxy.bitwise_idx * proto.BITS,
        idx_proxy.first_mask == low_mask(proto.BITS as u64) << idx_proxy.first_offset,
        idx_proxy.second_mask != 0 <==> idx_proxy.first_offset + proto.BITS > 64,
        idx_proxy.second_mask != 0 ==> idx_proxy.real_idx + 1 < storage.len() && idx_proxy.second_mask == low_mask(
            proto.BITS as u64,
        ) >> idx_proxy.second_offset,
{
    lemma_capacity_bits(proto, idx_proxy.bitwise_idx);
    lemma_element_within(proto.BITS as int, idx_proxy.bitwise_idx as int, idx_proxy.bitwise_idx + 1);
    lemma_straddle(proto.BITS as u64, idx_proxy.first_offset);
}

/// The masked and shifted parts that the accessors put together are the
/// element at the coordinate.
proof fn lemma_read_value(storage: Seq<u64>, proto: BitProto, idx_proxy: IdxProxy)
    requires
        addressable(storage, proto, idx_proxy),
    ensures
        element_at(storage, proto.BITS as int, idx_proxy.bitwise_idx as int) <= proto.MASK,
        idx_proxy.second_mask == 0 ==> element_at(storage, proto.BITS as int, idx_proxy.bitwise_idx as int) == (
        storage[idx_proxy.real_idx as int] & idx_proxy.first_mask) >> idx_proxy.first_offset,
        idx_proxy.second_mask != 0 ==> element_at(storage, proto.BITS as int, idx_proxy.bitwise_idx as int) == ((
        storage[idx_proxy.real_idx as int] & idx_proxy.first_mask) >> idx_proxy.first_offset) | ((storage[idx_proxy.real_idx
            + 1] & idx_proxy.second_mask) << idx_proxy.second_offset),
{
    let width = proto.BITS as int;
    let first_bit = idx_proxy.bitwise_idx * proto.BITS;
    lemma_addressable(storage, proto, idx_proxy);
    let first = (storage[idx_proxy.real_idx as int] & idx_proxy.first_mask) >> idx_proxy.first_offset;
    let val = if idx_proxy.second_mask != 0 {
        first | ((storage[idx_proxy.real_idx + 1] & idx_proxy.second_mask) << idx_proxy.second_offset)
    } else {
        first
    };
    let expected = window(storage, first_bit, width);
    lemma_window_bits(storage, first_bit, width);
    lemma_low_mask_bits();
    lemma_shl_bits();
    lemma_shr_bits();
    lemma_logic_bits();
    let off = idx_proxy.first_offset;
    assert forall|j: u64| j < 64 implies bit_of(val, j) == bit_of(expected, j) by {
        if off + j < 64 {
            let d = (off + j) as u64;
            assert(bit_of(proto.MASK << off, d) == (d >= off && bit_of(proto.MASK, (d - off) as u64)));
            assert((first_bit + j) / 64 == idx_proxy.real_idx as int);
            assert((first_bit + j) % 64 == off + j);
        }
        if idx_proxy.second_mask != 0 && j >= idx_proxy.second_offset {
            let d = (j - idx_proxy.second_offset) as u64;
            assert(bit_of(proto.MASK >> idx_proxy.second_offset, d) == (d + idx_proxy.second_offset < 64 && bit_of(
                proto.MASK,
                (d + idx_proxy.second_offset) as u64,
            )));
            assert((first_bit + j) / 64 == idx_proxy.real_idx + 1);
            assert((first_bit + j) % 64 == off + j - 64);
        }
    }
    lemma_bits_ext(val, expected);
}

/// The number of words after growing from `current` words to hold at least
/// `needed`: unchanged if they suffice; else exactly `needed`, or, when
/// growing exponentially, `needed` and half as many again, at most
/// [`MAX_TRUE_CAP`].
pub open spec fn grown_block_count(current: int, needed: int, exponential: bool) -> int {
    if needed <= current {
        current
    } else if exponential {
        if needed + needed / 2 <= MAX_TRUE_CAP {
            needed + needed / 2
        } else {
            MAX_TRUE_CAP as int
        }
    } else {
        needed
    }
}

/// Appends zero words until there are `words` of them, asking the
/// allocator once for the room.
fn extend_with_zeros(blocks: &mut Vec<u64>, words: usize)
    requires
        old(blocks).len() <= words <= MAX_TRUE_CAP,
    ensures
        final(blocks).len() == words,
        zero_extended(old(blocks)@, final(blocks)@),
{
    reserve_room(blocks, words - blocks.len());
    while blocks.len() < words
        invariant
            blocks.len() <= words,
            zero_extended(old(blocks)@, blocks@),
        decreases words - blocks.len(),
    {
        blocks.push(0);
    }
}

/// Calls `Vec::reserve_exact`, which makes sure that the vector has room
/// for `additional` more words, without the spare room that a vector adds
/// when it grows by itself. The words stay as they are. The call panics if
/// the room asked for is more than `isize::MAX` bytes, which the bound on
/// the number of words excludes.
#[verifier::external_body]
fn reserve_room(blocks: &mut Vec<u64>, additional: usize)
    requires
        old(blocks).len() + additional <= MAX_TRUE_CAP,
    ensures
        final(blocks)@ == old(blocks)@,
{
    blocks.reserve_exact(additional);
}

/// Calls `Vec::shrink_to_fit`, which hands the room that the vector has
/// allocated beyond its length back to the allocator. The words stay as
/// they are.
#[verifier::external_body]
fn release_spare_room(blocks: &mut Vec<u64>)
    ensures
        final(blocks)@ == old(blocks)@,
{
    blocks.shrink_to_fit();
}

/// The words needed for more elements are no fewer, and the elements that
/// fit in the words needed for `count` elements are at least `count`.
pub proof fn lemma_words_for_elements(proto: BitProto, count: int, more: int)
    requires
        proto.wf(),
        0 <= count <= more,
    ensures
        words_for_bits(count * proto.BITS) <= words_for_bits(more * proto.BITS),
        count * proto.BITS <= 64 * words_for_bits(count * proto.BITS),
        0 <= count * proto.BITS,
{
    let w = proto.BITS as int;
    assert(count * w <= more * w) by (nonlinear_arith)
        requires
            0 <= count <= more,
            w >= 1,
    ;
    assert(0 <= count * w) by (nonlinear_arith)
        requires
            0 <= count,
            w >= 1,
    ;
}

/// The capacity of `words` words: the most elements whose bits fit them.
pub proof fn lemma_cap_floor(proto: BitProto, words: int)
    requires
        proto.wf(),
        0 <= words,
    ensures
        ((64 * words) / (proto.BITS as int)) * proto.BITS <= 64 * words,
        64 * words < ((64 * words) / (proto.BITS as int) + 1) * proto.BITS,
        0 <= (64 * words) / (proto.BITS as int),
{
    let w = proto.BITS as int;
    let x = 64 * words;
    vstd::arithmetic::div_mod::lemma_fundamental_div_mod(x, w);
    vstd::arithmetic::div_mod::lemma_mod_bound(x, w);
    vstd::arithmetic::div_mod::lemma_div_pos_is_pos(x, w);
    assert((x / w + 1) * w == w * (x / w) + w) by (nonlinear_arith);
    assert((x / w) * w == w * (x / w)) by (nonlinear_arith);
}

/// A number of elements within the capacity of `words` words fits them.
pub proof fn lemma_within_cap(proto: BitProto, count: int, words: int)
    requires
        proto.wf(),
        0 <= words,
        0 <= count <= (64 * words) / (proto.BITS as int),
    ensures
        count * proto.BITS <= 64 * words,
{
    lemma_cap_floor(proto, words);
    let w = proto.BITS as int;
    let cap = (64 * words) / w;
    assert(count * w <= cap * w) by (nonlinear_arith)
        requires
            0 <= count <= cap,
            w >= 1,
    ;
}

/// A number of elements beyond the capacity of `words` words needs more
/// words.
pub proof fn lemma_beyond_cap(proto: BitProto, count: int, words: int)
    requires
        proto.wf(),
        0 <= words,
        count > (64 * words) / (proto.BITS as int),
    ensures
        words_for_bits(count * proto.BITS) > words,
{
    lemma_cap_floor(proto, words);
    let w = proto.BITS as int;
    let cap = (64 * words) / w;
    assert(count * w >= (cap + 1) * w) by (nonlinear_arith)
        requires
            count >= cap + 1,
            w >= 1,
    ;
}

/// Dropping the last of the elements counted leaves the others.
pub proof fn lemma_elements_drop_last(blocks: Seq<u64>, width: int, len: int)
    requires
        len >= 1,
    ensures
        elements(blocks, width, len - 1) == elements(blocks, width, len).drop_last(),
        elements(blocks, width, len).last() == element_at(blocks, width, len - 1),
{
    assert(elements(blocks, width, len - 1) =~= elements(blocks, width, len).drop_last());
}

/// The sequence `base` with `vals` written over the places from `at` on.
pub open spec fn overwritten(base: Seq<u64>, at: int, vals: Seq<u64>) -> Seq<u64> {
    Seq::new(
        base.len(),
        |m: int|
            if at <= m < at + vals.len() {
                vals[m - at]
            } else {
                base[m]
            },
    )
}

/// Writing one more value extends the run that was written.
proof fn lemma_overwritten_step(base: Seq<u64>, at: int, vals: Seq<u64>, j: int)
    requires
        0 <= at,
        0 <= j < vals.len(),
        at + vals.len() <= base.len(),
    ensures
        overwritten(base, at, vals.take(j)).update(at + j, vals[j]) == overwritten(base, at, vals.take(j + 1)),
{
    assert(overwritten(base, at, vals.take(j)).update(at + j, vals[j]) =~= overwritten(
        base,
        at,
        vals.take(j + 1),
    ));
}

impl RawBitVec {
    /// The words of the storage, the allocated ones all.
    pub closed spec fn storage(&self) -> Seq<u64> {
        self.blocks@
    }

    /// The number of elements.
    pub closed spec fn spec_len(&self) -> usize {
        self.len
    }

    /// The number of words allocated.
    pub open spec fn true_cap(&self) -> nat {
        self.storage().len()
    }

    /// The number of elements of `proto`'s width that the allocated words
    /// can hold.
    pub open spec fn spec_cap(&self, proto: BitProto) -> int {
        (64 * (self.storage().len() as int)) / (proto.BITS as int)
    }

    /// The vector is well formed for `proto` when its elements fit its
    /// storage and the bits of the storage can be counted.
    pub open spec fn wf(&self, proto: BitProto) -> bool {
        &&& proto.wf()
        &&& self.storage().len() <= MAX_TRUE_CAP
        &&& self.spec_len() * proto.BITS <= 64 * self.storage().len()
    }

    /// The elements, first to last.
    pub open spec fn view(&self, proto: BitProto) -> Seq<u64> {
        elements(self.storage(), proto.BITS as int, self.spec_len() as int)
    }

    /// A well-formed vector holds no more elements than its capacity, and
    /// its capacity is no more than the prototype's maximum.
    pub proof fn lemma_wf_bounds(&self, proto: BitProto)
        requires
            self.wf(proto),
        ensures
            self.spec_len() <= self.spec_cap(proto) <= proto.MAX_CAPACITY,
            self.view(proto).len() == self.spec_len(),
    {
        lemma_len_bound(proto, self.spec_len() as int, self.storage().len() as int);
        crate::proto::lemma_div_monotone(64 * (self.storage().len() as int), MAX_TRUE_BITS as int, proto.BITS as int);
    }

    /// The number of elements.
    #[verifier::when_used_as_spec(spec_len)]
    pub fn len(&self) -> (len: usize)
        ensures
            len == self.spec_len(),
    {
        self.len
    }

    /// The number of words allocated.
    pub fn block_count(&self) -> (count: usize)
        ensures
            count == self.true_cap(),
    {
        self.blocks.len()
    }

    /// The number of elements that fit without growing.
    pub fn cap(&self, proto: BitProto) -> (cap: usize)
        requires
            self.wf(proto),
        ensures
            cap == self.spec_cap(proto),
            self.spec_len() <= cap <= proto.MAX_CAPACITY,
    {
        proof {
            self.lemma_wf_bounds(proto);
        }
        BitProto::calc_bitwise_count_from_block_count(proto, self.blocks.len())
    }

    /// The number of elements that can still be added without growing.
    pub fn free(&self, proto: BitProto) -> (free: usize)
        requires
            self.wf(proto),
        ensures
            free == self.spec_cap(proto) - self.spec_len(),
    {
        self.cap(proto) - self.len
    }

    /// An empty vector without storage. It is well formed for every
    /// prototype.
    pub fn new() -> (vec: RawBitVec)
        ensures
            vec.spec_len() == 0,
            vec.true_cap() == 0,
            forall|proto: BitProto| proto.wf() ==> vec.wf(proto),
    {
        RawBitVec { blocks: Vec::new(), len: 0 }
    }

    /// Forgets the elements and keeps the storage.
    pub fn clear(&mut self)
        ensures
            final(self).spec_len() == 0,
            final(self).storage() == old(self).storage(),
    {
        self.len = 0
    }

    /// An empty vector with room for at least `cap` elements, every word
    /// of it zero.
    pub fn with_capacity(proto: BitProto, cap: usize) -> (vec: RawBitVec)
        requires
            proto.wf(),
            cap <= proto.MAX_CAPACITY,
        ensures
            vec.wf(proto),
            vec.spec_len() == 0,
            vec.true_cap() == words_for_bits(cap * proto.BITS),
            vec.spec_cap(proto) >= cap,
            zero_extended(Seq::<u64>::empty(), vec.storage()),
    {
        let mut new_vec = Self::new();
        let block_cap = BitProto::calc_block_count_from_bitwise_count(proto, cap);
        extend_with_zeros(&mut new_vec.blocks, block_cap);
        proof {
            lemma_words_for_elements(proto, cap as int, cap as int);
            lemma_len_bound(proto, cap as int, block_cap as int);
        }
        new_vec
    }

    /// Grows the storage, if it is too small for `min_capacity` elements,
    /// to the number of words that [`grown_block_count`] gives. The new
    /// words are zero and the elements stay.
    pub fn handle_grow_if_needed(&mut self, proto: BitProto, min_capacity: usize, grow_exponential: bool) -> (res:
        Result<(), BitVecError>)
        requires
            old(self).wf(proto),
        ensures
            min_capacity <= proto.MAX_CAPACITY ==> {
                &&& res == Ok::<(), BitVecError>(())
                &&& final(self).wf(proto)
                &&& final(self).spec_len() == old(self).spec_len()
                &&& final(self).view(proto) == old(self).view(proto)
                &&& zero_extended(old(self).storage(), final(self).storage())
                &&& final(self).true_cap() == grown_block_count(
                    old(self).true_cap() as int,
                    words_for_bits(min_capacity * proto.BITS),
                    grow_exponential,
                )
                &&& final(self).spec_cap(proto) >= min_capacity
            },
            min_capacity > proto.MAX_CAPACITY ==> {
                &&& res == Err::<(), BitVecError>(BitVecError::CapacityExceeded { max_capacity: proto.MAX_CAPACITY })
                &&& *final(self) == *old(self)
            },
    {
        if min_capacity > proto.MAX_CAPACITY {
            return Err(BitVecError::CapacityExceeded { max_capacity: proto.MAX_CAPACITY });
        }
        let true_min_capacity = BitProto::calc_block_count_from_bitwise_count(proto, min_capacity);
        proof {
            lemma_words_for_elements(proto, min_capacity as int, min_capacity as int);
        }
        if true_min_capacity > self.blocks.len() {
            let new_true_cap = if grow_exponential {
                let half = true_min_capacity / 2;
                if half <= MAX_TRUE_CAP - true_min_capacity {
                    true_min_capacity + half
                } else {
                    MAX_TRUE_CAP
                }
            } else {
                true_min_capacity
            };
            extend_with_zeros(&mut self.blocks, new_true_cap);
            proof {
                lemma_prefix_elements(
                    old(self).storage(),
                    self.storage(),
                    proto.BITS as int,
                    self.spec_len() as int,
                );
                lemma_len_bound(proto, min_capacity as int, new_true_cap as int);
            }
        } else {
            proof {
                lemma_len_bound(proto, min_capacity as int, self.blocks.len() as int);
            }
        }
        Ok(())
    }

    /// Makes room for `extra_elements` more elements, growing to exactly
    /// the words they need.
    pub fn grow_exact_for_additional_elements_if_needed(&mut self, proto: BitProto, extra_elements: usize) -> (res:
        Result<(), BitVecError>)
        requires
            old(self).wf(proto),
        ensures
            old(self).spec_len() + extra_elements <= proto.MAX_CAPACITY ==> {
                &&& res == Ok::<(), BitVecError>(())
                &&& final(self).wf(proto)
                &&& final(self).spec_len() == old(self).spec_len()
                &&& final(self).view(proto) == old(self).view(proto)
                &&& zero_extended(old(self).storage(), final(self).storage())
                &&& final(self).true_cap() == grown_block_count(
                    old(self).true_cap() as int,
                    words_for_bits((old(self).spec_len() + extra_elements) * proto.BITS),
                    false,
                )
                &&& final(self).spec_cap(proto) >= old(self).spec_len() + extra_elements
            },
            old(self).spec_len() + extra_elements > proto.MAX_CAPACITY ==> {
                &&& res == Err::<(), BitVecError>(BitVecError::CapacityExceeded { max_capacity: proto.MAX_CAPACITY })
                &&& *final(self) == *old(self)
            },
    {
        proof {
            self.lemma_wf_bounds(proto);
        }
        if extra_elements > proto.MAX_CAPACITY - self.len {
            return Err(BitVecError::CapacityExceeded { max_capacity: proto.MAX_CAPACITY });
        }
        self.handle_grow_if_needed(proto, self.len + extra_elements, false)
    }

    /// Makes room for `total_elements` elements in all, growing to exactly
    /// the words they need.
    pub fn grow_exact_for_total_elements_if_needed(&mut self, proto: BitProto, total_elements: usize) -> (res:
        Result<(), BitVecError>)
        requires
            old(self).wf(proto),
        ensures
            total_elements <= proto.MAX_CAPACITY ==> {
                &&& res == Ok::<(), BitVecError>(())
                &&& final(self).wf(proto)
                &&& final(self).spec_len() == old(self).spec_len()
                &&& final(self).view(proto) == old(self).view(proto)
                &&& zero_extended(old(self).storage(), final(self).storage())
                &&& final(self).true_cap() == grown_block_count(
                    old(self).true_cap() as int,
                    words_for_bits(total_elements * proto.BITS),
                    false,
                )
                &&& final(self).spec_cap(proto) >= total_elements
            },
            total_elements > proto.MAX_CAPACITY ==> {
                &&& res == Err::<(), BitVecError>(BitVecError::CapacityExceeded { max_capacity: proto.MAX_CAPACITY })
                &&& *final(self) == *old(self)
            },
    {
        self.handle_grow_if_needed(proto, total_elements, false)
    }

    /// Makes room for `extra_elements` more elements, growing to the words
    /// they need and half as many again.
    pub fn grow_for_additional_elements_if_needed(&mut self, proto: BitProto, extra_elements: usize) -> (res: Result<
        (),
        BitVecError,
    >)
        requires
            old(self).wf(proto),
        ensures
            old(self).spec_len() + extra_elements <= proto.MAX_CAPACITY ==> {
                &&& res == Ok::<(), BitVecError>(())
                &&& final(self).wf(proto)
                &&& final(self).spec_len() == old(self).spec_len()
                &&& final(self).view(proto) == old(self).view(proto)
                &&& zero_extended(old(self).storage(), final(self).storage())
                &&& final(self).true_cap() == grown_block_count(
                    old(self).true_cap() as int,
                    words_for_bits((old(self).spec_len() + extra_elements) * proto.BITS),
                    true,
                )
                &&& final(self).spec_cap(proto) >= old(self).spec_len() + extra_elements
            },
            old(self).spec_len() + extra_elements > proto.MAX_CAPACITY ==> {
                &&& res == Err::<(), BitVecError>(BitVecError::CapacityExceeded { max_capacity: proto.MAX_CAPACITY })
                &&& *final(self) == *old(self)
            },
    {
        proof {
            self.lemma_wf_bounds(proto);
        }
        if extra_elements > proto.MAX_CAPACITY - self.len {
            return Err(BitVecError::CapacityExceeded { max_capacity: proto.MAX_CAPACITY });
        }
        self.handle_grow_if_needed(proto, self.len + extra_elements, true)
    }

    /// Makes room for `total_elements` elements in all, growing to the
    /// words they need and half as many again.
    pub fn grow_for_total_elements_if_needed(&mut self, proto: BitProto, total_elements: usize) -> (res: Result<
        (),
        BitVecError,
    >)
        requires
            old(self).wf(proto),
        ensures
            total_elements <= proto.MAX_CAPACITY ==> {
                &&& res == Ok::<(), BitVecError>(())
                &&& final(self).wf(proto)
                &&& final(self).spec_len() == old(self).spec_len()
                &&& final(self).view(proto) == old(self).view(proto)
                &&& zero_extended(old(self).storage(), final(self).storage())
                &&& final(self).true_cap() == grown_block_count(
                    old(self).true_cap() as int,
                    words_for_bits(total_elements * proto.BITS),
                    true,
                )
                &&& final(self).spec_cap(proto) >= total_elements
            },
            total_elements > proto.MAX_CAPACITY ==> {
                &&& res == Err::<(), BitVecError>(BitVecError::CapacityExceeded { max_capacity: proto.MAX_CAPACITY })
                &&& *final(self) == *old(self)
            },
    {
        self.handle_grow_if_needed(proto, total_elements, true)
    }

    /// The number of words after growing by `policy` so that `total`
    /// elements fit: unchanged if they fit already, else the words that the
    /// policy's target needs.
    pub open spec fn policy_block_count(&self, proto: BitProto, total: int, policy: Grow) -> int {
        if total <= self.spec_cap(proto) {
            self.true_cap() as int
        } else {
            words_for_bits(policy.target(self.spec_cap(proto), total, proto.MAX_CAPACITY as int) * proto.BITS)
        }
    }

    /// Makes room for `count` elements, growing as `policy` says if the
    /// capacity does not suffice. The new words are zero and the elements
    /// stay.
    pub fn grow_if_needed(&mut self, proto: BitProto, count: ElementCount, policy: Grow) -> (res: Result<
        (),
        BitVecError,
    >)
        requires
            old(self).wf(proto),
        ensures
            count.total(old(self).spec_len() as int) <= proto.MAX_CAPACITY ==> {
                &&& res == Ok::<(), BitVecError>(())
                &&& final(self).wf(proto)
                &&& final(self).spec_len() == old(self).spec_len()
                &&& final(self).view(proto) == old(self).view(proto)
                &&& zero_extended(old(self).storage(), final(self).storage())
                &&& final(self).true_cap() == old(self).policy_block_count(
                    proto,
                    count.total(old(self).spec_len() as int),
                    policy,
                )
                &&& final(self).spec_cap(proto) >= count.total(old(self).spec_len() as int)
            },
            count.total(old(self).spec_len() as int) > proto.MAX_CAPACITY ==> {
                &&& res == Err::<(), BitVecError>(BitVecError::CapacityExceeded { max_capacity: proto.MAX_CAPACITY })
                &&& *final(self) == *old(self)
            },
    {
        proof {
            self.lemma_wf_bounds(proto);
        }
        let total = match count.total_within(self.len, proto.MAX_CAPACITY) {
            Some(total) => total,
            None => {
                return Err(BitVecError::CapacityExceeded { max_capacity: proto.MAX_CAPACITY });
            },
        };
        let cap = self.cap(proto);
        if total > cap {
            let target = policy.grow_target(cap, total, proto.MAX_CAPACITY);
            let new_true_cap = BitProto::calc_block_count_from_bitwise_count(proto, target);
            proof {
                lemma_beyond_cap(proto, target as int, self.blocks.len() as int);
                lemma_words_for_elements(proto, target as int, target as int);
            }
            extend_with_zeros(&mut self.blocks, new_true_cap);
            proof {
                lemma_prefix_elements(
                    old(self).storage(),
                    self.storage(),
                    proto.BITS as int,
                    self.spec_len() as int,
                );
                lemma_len_bound(proto, target as int, new_true_cap as int);
            }
        }
        Ok(())
    }

    /// Gives storage back as `policy` says. A policy that truncates may
    /// leave room for fewer elements than the vector holds: the elements
    /// at the end that no longer fit are dropped.
    pub fn shrink(&mut self, proto: BitProto, policy: Shrink)
        requires
            old(self).wf(proto),
        ensures
            final(self).wf(proto),
            final(self).true_cap() == words_for_bits(
                policy.target(old(self).spec_len() as int, old(self).spec_cap(proto)) * proto.BITS,
            ),
            final(self).true_cap() <= old(self).true_cap(),
            truncated(old(self).storage(), final(self).storage()),
            final(self).spec_len() == crate::capacity::smaller(
                old(self).spec_len() as int,
                policy.target(old(self).spec_len() as int, old(self).spec_cap(proto)),
            ),
            final(self).view(proto) == old(self).view(proto).take(final(self).spec_len() as int),
    {
        proof {
            self.lemma_wf_bounds(proto);
        }
        let cap = self.cap(proto);
        let target = policy.shrink_target(self.len, cap);
        let new_true_cap = BitProto::calc_block_count_from_bitwise_count(proto, target);
        proof {
            lemma_within_cap(proto, target as int, self.blocks.len() as int);
            lemma_words_for_elements(proto, target as int, target as int);
        }
        if target < self.len {
            self.len = target;
        }
        self.blocks.truncate(new_true_cap);
        release_spare_room(&mut self.blocks);
        proof {
            lemma_words_for_elements(proto, self.len as int, target as int);
            lemma_prefix_elements(old(self).storage(), self.storage(), proto.BITS as int, self.len as int);
            assert(elements(old(self).storage(), proto.BITS as int, self.len as int) =~= old(self).view(proto).take(
                self.len as int,
            ));
        }
    }

    /// Gives back the storage beyond what the elements and
    /// `target_extra_capacity` more of them need.
    pub fn shrink_excess_capacity(&mut self, proto: BitProto, target_extra_capacity: usize) -> (res: Result<
        (),
        BitVecError,
    >)
        requires
            old(self).wf(proto),
        ensures
            res == Ok::<(), BitVecError>(()),
            final(self).wf(proto),
            final(self).spec_len() == old(self).spec_len(),
            final(self).view(proto) == old(self).view(proto),
            truncated(old(self).storage(), final(self).storage()),
            final(self).true_cap() == (if old(self).spec_len() + target_extra_capacity < old(self).spec_cap(proto) {
                words_for_bits((old(self).spec_len() + target_extra_capacity) * proto.BITS)
            } else {
                old(self).true_cap() as int
            }),
    {
        proof {
            self.lemma_wf_bounds(proto);
        }
        let cap = self.cap(proto);
        if target_extra_capacity < cap - self.len {
            let target_capacity = self.len + target_extra_capacity;
            let target_block_capacity = BitProto::calc_block_count_from_bitwise_count(proto, target_capacity);
            proof {
                lemma_within_cap(proto, target_capacity as int, self.blocks.len() as int);
                lemma_words_for_elements(proto, self.len as int, target_capacity as int);
                lemma_words_for_elements(proto, target_capacity as int, target_capacity as int);
            }
            self.blocks.truncate(target_block_capacity);
            release_spare_room(&mut self.blocks);
            proof {
                lemma_prefix_elements(old(self).storage(), self.storage(), proto.BITS as int, self.len as int);
            }
        }
        Ok(())
    }

    /// Appends `val`.
    ///
    /// When the vector is full, its capacity grows to one and a half times
    /// what it was, or to the one element more if that is more, in whole
    /// words. The capacity never shrinks. The new words are zero, and of
    /// the storage only the bits of the new element are written. A value
    /// that does not fit the width is refused.
    pub fn push(&mut self, proto: BitProto, val: u64) -> (res: Result<(), BitVecError>)
        requires
            old(self).wf(proto),
        ensures
            old(self).spec_len() >= proto.MAX_CAPACITY ==> {
                &&& res == Err::<(), BitVecError>(BitVecError::CapacityExceeded { max_capacity: proto.MAX_CAPACITY })
                &&& *final(self) == *old(self)
            },
            old(self).spec_len() < proto.MAX_CAPACITY && val > proto.MASK ==> {
                &&& res == Err::<(), BitVecError>(BitVecError::ValueTooWide { value: val, mask: proto.MASK })
                &&& *final(self) == *old(self)
            },
            old(self).spec_len() < proto.MAX_CAPACITY && val <= proto.MASK ==> {
                &&& res == Ok::<(), BitVecError>(())
                &&& final(self).wf(proto)
                &&& final(self).view(proto) == old(self).view(proto).push(val)
                &&& final(self).spec_len() == old(self).spec_len() + 1
                &&& final(self).true_cap() == old(self).policy_block_count(
                    proto,
                    old(self).spec_len() + 1,
                    Grow::OnePointFive,
                )
                &&& final(self).true_cap() >= old(self).true_cap()
                &&& final(self).storage() == store(
                    zero_padded(old(self).storage(), final(self).true_cap() as int),
                    old(self).spec_len() * proto.BITS,
                    proto.BITS as int,
                    val,
                )
            },
    {
        proof {
            self.lemma_wf_bounds(proto);
        }
        if self.len == proto.MAX_CAPACITY {
            return Err(BitVecError::CapacityExceeded { max_capacity: proto.MAX_CAPACITY });
        }
        match BitProto::check_value(proto, val) {
            Ok(()) => {},
            Err(e) => {
                return Err(e);
            },
        }
        match self.grow_if_needed(proto, ElementCount::Additional(1), Grow::OnePointFive) {
            Ok(()) => {},
            Err(e) => {
                return Err(e);
            },
        }
        proof {
            lemma_zero_padded(old(self).storage(), self.storage());
        }
        self.push_unchecked(proto, val);
        Ok(())
    }

    /// Appends `val` to a vector that has room for it.
    pub fn push_unchecked(&mut self, proto: BitProto, val: u64)
        requires
            old(self).wf(proto),
            old(self).spec_len() < old(self).spec_cap(proto),
            val <= proto.MASK,
        ensures
            final(self).wf(proto),
            final(self).view(proto) == old(self).view(proto).push(val),
            final(self).spec_len() == old(self).spec_len() + 1,
            final(self).storage() == store(
                old(self).storage(),
                old(self).spec_len() * proto.BITS,
                proto.BITS as int,
                val,
            ),
            final(self).true_cap() == old(self).true_cap(),
    {
        proof {
            self.lemma_wf_bounds(proto);
            lemma_within_cap(proto, self.len + 1, self.blocks.len() as int);
            lemma_element_within(proto.BITS as int, self.len as int, self.len + 1);
        }
        let len_proxy = BitProto::idx_proxy(proto, self.len);
        self.write_val_with_idx_proxy(proto, len_proxy, val);
        self.len = self.len + 1;
        proof {
            lemma_store_written(old(self).storage(), old(self).spec_len() * proto.BITS, proto.BITS as int, val);
            lemma_written_behind(
                old(self).storage(),
                self.storage(),
                proto.BITS as int,
                val,
                old(self).spec_len() as int,
            );
        }
    }

    /// Takes the last element off. The bits that held it are cleared.
    pub fn pop(&mut self, proto: BitProto) -> (res: Result<u64, BitVecError>)
        requires
            old(self).wf(proto),
        ensures
            old(self).spec_len() > 0 ==> {
                &&& res == Ok::<u64, BitVecError>(old(self).view(proto).last())
                &&& final(self).wf(proto)
                &&& final(self).view(proto) == old(self).view(proto).drop_last()
                &&& final(self).spec_len() == old(self).spec_len() - 1
                &&& final(self).true_cap() == old(self).true_cap()
                &&& final(self).storage() == store(
                    old(self).storage(),
                    (old(self).spec_len() - 1) * proto.BITS,
                    proto.BITS as int,
                    0,
                )
            },
            old(self).spec_len() == 0 ==> {
                &&& res == Err::<u64, BitVecError>(BitVecError::EmptyVector)
                &&& *final(self) == *old(self)
            },
    {
        if self.len == 0 {
            Err(BitVecError::EmptyVector)
        } else {
            Ok(self.pop_unchecked(proto))
        }
    }

    /// Takes the last element off a vector that is not empty. The bits
    /// that held it are cleared.
    pub fn pop_unchecked(&mut self, proto: BitProto) -> (val: u64)
        requires
            old(self).wf(proto),
            old(self).spec_len() > 0,
        ensures
            val == old(self).view(proto).last(),
            val <= proto.MASK,
            final(self).wf(proto),
            final(self).view(proto) == old(self).view(proto).drop_last(),
            final(self).spec_len() == old(self).spec_len() - 1,
            final(self).storage() == store(
                old(self).storage(),
                (old(self).spec_len() - 1) * proto.BITS,
                proto.BITS as int,
                0,
            ),
            final(self).true_cap() == old(self).true_cap(),
    {
        proof {
            self.lemma_wf_bounds(proto);
            lemma_element_within(proto.BITS as int, self.len - 1, self.len as int);
            lemma_elements_drop_last(self.storage(), proto.BITS as int, self.len as int);
        }
        self.len = self.len - 1;
        let last_proxy = BitProto::idx_proxy(proto, self.len);
        let val = self.replace_val_with_idx_proxy(proto, last_proxy, 0);
        proof {
            let width = proto.BITS as int;
            lemma_store_written(old(self).storage(), self.len * proto.BITS, width, 0);
            lemma_written_elements(old(self).storage(), self.storage(), width, self.len as int, 0, self.len + 1);
            lemma_elements_drop_last(self.storage(), width, self.len + 1);
            assert(elements(old(self).storage(), width, self.len + 1).update(self.len as int, 0).drop_last()
                =~= elements(old(self).storage(), width, self.len + 1).drop_last());
        }
        val
    }

    /// Reads the element at `idx`.
    pub fn get(&self, proto: BitProto, idx: usize) -> (res: Result<u64, BitVecError>)
        requires
            self.wf(proto),
        ensures
            idx < self.spec_len() ==> res == Ok::<u64, BitVecError>(self.view(proto)[idx as int]),
            idx >= self.spec_len() ==> res == Err::<u64, BitVecError>(
                BitVecError::IndexOutOfRange { index: idx, len: self.spec_len() },
            ),
    {
        if idx < self.len {
            Ok(self.get_unchecked(proto, idx))
        } else {
            Err(BitVecError::IndexOutOfRange { index: idx, len: self.len })
        }
    }

    /// Reads the element at `idx`, which is below the length.
    pub fn get_unchecked(&self, proto: BitProto, idx: usize) -> (val: u64)
        requires
            self.wf(proto),
            idx < self.spec_len(),
        ensures
            val == self.view(proto)[idx as int],
            val <= proto.MASK,
    {
        proof {
            self.lemma_wf_bounds(proto);
            lemma_element_within(proto.BITS as int, idx as int, self.len as int);
        }
        let idx_proxy = BitProto::idx_proxy(proto, idx);
        self.read_val_with_idx_proxy(proto, idx_proxy)
    }

    /// Writes `val` at `idx` and returns the element that was there. Of
    /// the storage only the bits of that element change. A value that does
    /// not fit the width is refused.
    pub fn replace(&mut self, proto: BitProto, idx: usize, val: u64) -> (res: Result<u64, BitVecError>)
        requires
            old(self).wf(proto),
        ensures
            idx >= old(self).spec_len() ==> {
                &&& res == Err::<u64, BitVecError>(
                    BitVecError::IndexOutOfRange { index: idx, len: old(self).spec_len() },
                )
                &&& *final(self) == *old(self)
            },
            idx < old(self).spec_len() && val > proto.MASK ==> {
                &&& res == Err::<u64, BitVecError>(BitVecError::ValueTooWide { value: val, mask: proto.MASK })
                &&& *final(self) == *old(self)
            },
            idx < old(self).spec_len() && val <= proto.MASK ==> {
                &&& res == Ok::<u64, BitVecError>(old(self).view(proto)[idx as int])
                &&& final(self).wf(proto)
                &&& final(self).view(proto) == old(self).view(proto).update(idx as int, val)
                &&& final(self).storage() == store(old(self).storage(), idx * proto.BITS, proto.BITS as int, val)
                &&& final(self).spec_len() == old(self).spec_len()
                &&& final(self).true_cap() == old(self).true_cap()
            },
    {
        if idx >= self.len {
            return Err(BitVecError::IndexOutOfRange { index: idx, len: self.len });
        }
        match BitProto::check_value(proto, val) {
            Ok(()) => Ok(self.replace_unchecked(proto, idx, val)),
            Err(e) => Err(e),
        }
    }

    /// Writes `val` at `idx`, which is below the length, and returns the
    /// element that was there.
    pub fn replace_unchecked(&mut self, proto: BitProto, idx: usize, val: u64) -> (old_val: u64)
        requires
            old(self).wf(proto),
            idx < old(self).spec_len(),
            val <= proto.MASK,
        ensures
            old_val == old(self).view(proto)[idx as int],
            old_val <= proto.MASK,
            final(self).wf(proto),
            final(self).view(proto) == old(self).view(proto).update(idx as int, val),
            final(self).spec_len() == old(self).spec_len(),
            final(self).storage() == store(old(self).storage(), idx * proto.BITS, proto.BITS as int, val),
            final(self).true_cap() == old(self).true_cap(),
    {
        proof {
            self.lemma_wf_bounds(proto);
            lemma_element_within(proto.BITS as int, idx as int, self.len as int);
        }
        let idx_proxy = BitProto::idx_proxy(proto, idx);
        let old_val = self.replace_val_with_idx_proxy(proto, idx_proxy, val);
        proof {
            lemma_store_written(old(self).storage(), idx * proto.BITS, proto.BITS as int, val);
            lemma_written_elements(
                old(self).storage(),
                self.storage(),
                proto.BITS as int,
                idx as int,
                val,
                self.len as int,
            );
        }
        old_val
    }

    /// Writes `val` at `idx`. Of the storage only the bits of that element
    /// change. A value that does not fit the width is refused.
    pub fn set(&mut self, proto: BitProto, idx: usize, val: u64) -> (res: Result<(), BitVecError>)
        requires
            old(self).wf(proto),
        ensures
            idx >= old(self).spec_len() ==> {
                &&& res == Err::<(), BitVecError>(
                    BitVecError::IndexOutOfRange { index: idx, len: old(self).spec_len() },
                )
                &&& *final(self) == *old(self)
            },
            idx < old(self).spec_len() && val > proto.MASK ==> {
                &&& res == Err::<(), BitVecError>(BitVecError::ValueTooWide { value: val, mask: proto.MASK })
                &&& *final(self) == *old(self)
            },
            idx < old(self).spec_len() && val <= proto.MASK ==> {
                &&& res == Ok::<(), BitVecError>(())
                &&& final(self).wf(proto)
                &&& final(self).view(proto) == old(self).view(proto).update(idx as int, val)
                &&& final(self).storage() == store(old(self).storage(), idx * proto.BITS, proto.BITS as int, val)
                &&& final(self).spec_len() == old(self).spec_len()
                &&& final(self).true_cap() == old(self).true_cap()
            },
    {
        if idx >= self.len {
            return Err(BitVecError::IndexOutOfRange { index: idx, len: self.len });
        }
        match BitProto::check_value(proto, val) {
            Ok(()) => {
                self.set_unchecked(proto, idx, val);
                Ok(())
            },
            Err(e) => Err(e),
        }
    }

    /// Writes `val` at `idx`, which is below the length.
    pub fn set_unchecked(&mut self, proto: BitProto, idx: usize, val: u64)
        requires
            old(self).wf(proto),
            idx < old(self).spec_len(),
            val <= proto.MASK,
        ensures
            final(self).wf(proto),
            final(self).view(proto) == old(self).view(proto).update(idx as int, val),
            final(self).spec_len() == old(self).spec_len(),
            final(self).storage() == store(old(self).storage(), idx * proto.BITS, proto.BITS as int, val),
            final(self).true_cap() == old(self).true_cap(),
    {
        proof {
            self.lemma_wf_bounds(proto);
            lemma_element_within(proto.BITS as int, idx as int, self.len as int);
        }
        let idx_proxy = BitProto::idx_proxy(proto, idx);
        self.write_val_with_idx_proxy(proto, idx_proxy, val);
        proof {
            lemma_store_written(old(self).storage(), idx * proto.BITS, proto.BITS as int, val);
            lemma_written_elements(
                old(self).storage(),
                self.storage(),
                proto.BITS as int,
                idx as int,
                val,
                self.len as int,
            );
        }
    }

    /// Moves the elements from the one at `begin_proxy` on up by
    /// `shift_count` places, within the storage at hand. The length is
    /// left as it is: the caller fills the places and counts them. No word
    /// behind those that the longer vector needs is written.
    pub(crate) fn shift_elements_up_with_with_idx_proxy(
        &mut self,
        proto: BitProto,
        begin_proxy: IdxProxy,
        shift_count: usize,
    )
        requires
            old(self).wf(proto),
            begin_proxy == proto.coordinate(begin_proxy.bitwise_idx),
            begin_proxy.bitwise_idx < old(self).spec_len(),
            1 <= shift_count,
            old(self).spec_len() + shift_count <= old(self).spec_cap(proto),
        ensures
            final(self).spec_len() == old(self).spec_len(),
            final(self).true_cap() == old(self).true_cap(),
            shifted_up(
                old(self).storage(),
                final(self).storage(),
                begin_proxy.bitwise_idx * proto.BITS,
                old(self).spec_len() * proto.BITS,
                shift_count * proto.BITS,
            ),
            forall|j: int|
                words_for_bits((old(self).spec_len() + shift_count) * proto.BITS) <= j < old(self).storage().len()
                    ==> #[trigger] final(self).storage()[j] == old(self).storage()[j],
    {
        let ghost width = proto.BITS as int;
        let ghost begin = begin_proxy.bitwise_idx as int;
        proof {
            self.lemma_wf_bounds(proto);
            lemma_within_cap(proto, self.len + shift_count, self.blocks.len() as int);
            lemma_mul_sum(self.len as int, shift_count as int, width);
            lemma_element_within(width, begin, self.len as int);
            lemma_capacity_bits(proto, begin_proxy.bitwise_idx);
            lemma_capacity_bits(proto, shift_count);
            lemma_words_for_elements(proto, self.len as int, self.len + shift_count);
            assert(shift_count * width >= 1) by (nonlinear_arith)
                requires
                    shift_count >= 1,
                    width >= 1,
            ;
        }
        let real_len = BitProto::calc_block_count_from_bitwise_count(proto, self.len);
        let final_real_len = BitProto::calc_block_count_from_bitwise_count(proto, self.len + shift_count);
        let total_bits_shifted = shift_count * proto.BITS;
        shift_bits_up(
            &mut self.blocks,
            begin_proxy.real_idx,
            begin_proxy.first_offset,
            real_len,
            final_real_len,
            total_bits_shifted,
        );
    }

    /// Moves the elements from the one at `shift_proxy` on down by
    /// `shift_count` places, so that they start at `begin_proxy`. The
    /// places that are closed must hold zeros. The length is left as it
    /// is. No word behind those that the elements occupy is written.
    pub(crate) fn shift_elements_down_with_with_idx_proxy(
        &mut self,
        proto: BitProto,
        begin_proxy: IdxProxy,
        shift_proxy: IdxProxy,
        shift_count: usize,
    )
        requires
            old(self).wf(proto),
            begin_proxy == proto.coordinate(begin_proxy.bitwise_idx),
            shift_proxy.bitwise_idx == begin_proxy.bitwise_idx + shift_count,
            shift_proxy.bitwise_idx <= old(self).spec_len(),
            1 <= shift_count,
            zero_bits(
                old(self).storage(),
                begin_proxy.bitwise_idx * proto.BITS,
                shift_proxy.bitwise_idx * proto.BITS,
            ),
        ensures
            final(self).spec_len() == old(self).spec_len(),
            final(self).true_cap() == old(self).true_cap(),
            shifted_down(
                old(self).storage(),
                final(self).storage(),
                begin_proxy.bitwise_idx * proto.BITS,
                old(self).spec_len() * proto.BITS,
                shift_count * proto.BITS,
            ),
            forall|j: int|
                words_for_bits(old(self).spec_len() * proto.BITS) <= j < old(self).storage().len()
                    ==> #[trigger] final(self).storage()[j] == old(self).storage()[j],
    {
        let ghost width = proto.BITS as int;
        let ghost begin = begin_proxy.bitwise_idx as int;
        proof {
            self.lemma_wf_bounds(proto);
            lemma_mul_sum(begin, shift_count as int, width);
            lemma_capacity_bits(proto, begin_proxy.bitwise_idx);
            lemma_capacity_bits(proto, shift_count);
            lemma_words_for_elements(proto, begin + shift_count, self.len as int);
            lemma_words_for_elements(proto, self.len as int, self.len as int);
            assert(shift_count * width >= 1) by (nonlinear_arith)
                requires
                    shift_count >= 1,
                    width >= 1,
            ;
        }
        let real_len = BitProto::calc_block_count_from_bitwise_count(proto, self.len);
        let total_bits_shifted = shift_count * proto.BITS;
        shift_bits_down(
            &mut self.blocks,
            begin_proxy.real_idx,
            begin_proxy.first_offset,
            real_len,
            total_bits_shifted,
        );
    }

    /// Puts `val` at `idx` and moves the elements from there on up by one.
    /// The vector grows as for [`RawBitVec::push`]. No word behind those
    /// that the longer vector needs is written, but for the zeros of new
    /// words. A value that does not fit the width is refused.
    pub fn insert(&mut self, proto: BitProto, idx: usize, val: u64) -> (res: Result<(), BitVecError>)
        requires
            old(self).wf(proto),
        ensures
            idx > old(self).spec_len() ==> {
                &&& res == Err::<(), BitVecError>(
                    BitVecError::IndexOutOfRange { index: idx, len: old(self).spec_len() },
                )
                &&& *final(self) == *old(self)
            },
            idx <= old(self).spec_len() && old(self).spec_len() >= proto.MAX_CAPACITY ==> {
                &&& res == Err::<(), BitVecError>(BitVecError::CapacityExceeded { max_capacity: proto.MAX_CAPACITY })
                &&& *final(self) == *old(self)
            },
            idx <= old(self).spec_len() < proto.MAX_CAPACITY && val > proto.MASK ==> {
                &&& res == Err::<(), BitVecError>(BitVecError::ValueTooWide { value: val, mask: proto.MASK })
                &&& *final(self) == *old(self)
            },
            idx <= old(self).spec_len() < proto.MAX_CAPACITY && val <= proto.MASK ==> {
                &&& res == Ok::<(), BitVecError>(())
                &&& final(self).wf(proto)
                &&& final(self).view(proto) == old(self).view(proto).insert(idx as int, val)
                &&& final(self).spec_len() == old(self).spec_len() + 1
                &&& final(self).true_cap() == old(self).policy_block_count(
                    proto,
                    old(self).spec_len() + 1,
                    Grow::OnePointFive,
                )
                &&& final(self).true_cap() >= old(self).true_cap()
                &&& words_kept_from(
                    old(self).storage(),
                    final(self).storage(),
                    words_for_bits((old(self).spec_len() + 1) * proto.BITS),
                )
            },
    {
        proof {
            self.lemma_wf_bounds(proto);
        }
        if idx > self.len {
            return Err(BitVecError::IndexOutOfRange { index: idx, len: self.len });
        }
        if self.len == proto.MAX_CAPACITY {
            return Err(BitVecError::CapacityExceeded { max_capacity: proto.MAX_CAPACITY });
        }
        match BitProto::check_value(proto, val) {
            Ok(()) => {},
            Err(e) => {
                return Err(e);
            },
        }
        match self.grow_if_needed(proto, ElementCount::Additional(1), Grow::OnePointFive) {
            Ok(()) => {},
            Err(e) => {
                return Err(e);
            },
        }
        let ghost grown = self.storage();
        if idx == self.len {
            self.push_unchecked(proto, val);
            proof {
                assert(old(self).view(proto).push(val) =~= old(self).view(proto).insert(idx as int, val));
                lemma_within_cap(proto, self.spec_len() as int, grown.len() as int);
                lemma_element_within(proto.BITS as int, idx as int, idx + 1);
                lemma_store_keeps_words(
                    grown,
                    idx * proto.BITS,
                    proto.BITS as int,
                    val,
                    words_for_bits((idx + 1) * proto.BITS),
                );
            }
        } else {
            self.insert_unchecked(proto, idx, val);
        }
        proof {
            let from_word = words_for_bits((old(self).spec_len() + 1) * proto.BITS);
            assert(words_kept_from(old(self).storage(), grown, from_word));
            lemma_words_kept_twice(old(self).storage(), grown, self.storage(), from_word);
        }
        Ok(())
    }

    /// Puts `val` at `idx`, which is below the length, in a vector that
    /// has room for one element more.
    pub fn insert_unchecked(&mut self, proto: BitProto, idx: usize, val: u64)
        requires
            old(self).wf(proto),
            idx < old(self).spec_len(),
            old(self).spec_len() < old(self).spec_cap(proto),
            val <= proto.MASK,
        ensures
            final(self).wf(proto),
            final(self).view(proto) == old(self).view(proto).insert(idx as int, val),
            final(self).spec_len() == old(self).spec_len() + 1,
            final(self).true_cap() == old(self).true_cap(),
            words_kept_from(
                old(self).storage(),
                final(self).storage(),
                words_for_bits((old(self).spec_len() + 1) * proto.BITS),
            ),
    {
        let ghost width = proto.BITS as int;
        let ghost len = self.len as int;
        proof {
            self.lemma_wf_bounds(proto);
            lemma_within_cap(proto, len + 1, self.blocks.len() as int);
            lemma_element_within(width, idx as int, len + 1);
            lemma_mul_sum(1, 0, width);
        }
        let idx_proxy = BitProto::idx_proxy(proto, idx);
        self.shift_elements_up_with_with_idx_proxy(proto, idx_proxy, 1);
        let ghost shifted = self.storage();
        self.write_val_with_idx_proxy(proto, idx_proxy, val);
        self.len = self.len + 1;
        proof {
            lemma_elements_shifted_up(old(self).storage(), shifted, width, idx as int, len, 1);
            lemma_store_written(shifted, idx * proto.BITS, width, val);
            lemma_written_elements(shifted, self.storage(), width, idx as int, val, len + 1);
            assert(self.view(proto) =~= old(self).view(proto).insert(idx as int, val));
            let from_word = words_for_bits((len + 1) * proto.BITS);
            assert(words_kept_from(old(self).storage(), shifted, from_word));
            lemma_store_keeps_words(shifted, idx * proto.BITS, width, val, from_word);
            lemma_words_kept_twice(old(self).storage(), shifted, self.storage(), from_word);
        }
    }

    /// Takes the element at `idx` out and moves the elements behind it
    /// down by one. No word behind those that the elements occupied is
    /// written.
    pub fn remove(&mut self, proto: BitProto, idx: usize) -> (res: Result<u64, BitVecError>)
        requires
            old(self).wf(proto),
        ensures
            idx < old(self).spec_len() ==> {
                &&& res == Ok::<u64, BitVecError>(old(self).view(proto)[idx as int])
                &&& final(self).wf(proto)
                &&& final(self).view(proto) == old(self).view(proto).remove(idx as int)
                &&& final(self).spec_len() == old(self).spec_len() - 1
                &&& final(self).true_cap() == old(self).true_cap()
                &&& words_kept_from(
                    old(self).storage(),
                    final(self).storage(),
                    words_for_bits(old(self).spec_len() * proto.BITS),
                )
            },
            idx >= old(self).spec_len() ==> {
                &&& res == Err::<u64, BitVecError>(
                    BitVecError::IndexOutOfRange { index: idx, len: old(self).spec_len() },
                )
                &&& *final(self) == *old(self)
            },
    {
        if idx >= self.len {
            Err(BitVecError::IndexOutOfRange { index: idx, len: self.len })
        } else if idx == self.len - 1 {
            proof {
                self.lemma_wf_bounds(proto);
                assert(old(self).view(proto).drop_last() =~= old(self).view(proto).remove(idx as int));
                lemma_element_within(proto.BITS as int, idx as int, self.len as int);
                lemma_store_keeps_words(
                    self.storage(),
                    idx * proto.BITS,
                    proto.BITS as int,
                    0,
                    words_for_bits(self.len * proto.BITS),
                );
            }
            Ok(self.pop_unchecked(proto))
        } else {
            Ok(self.remove_unchecked(proto, idx))
        }
    }

    /// Takes the element at `idx`, which is below the length, out.
    pub fn remove_unchecked(&mut self, proto: BitProto, idx: usize) -> (val: u64)
        requires
            old(self).wf(proto),
            idx < old(self).spec_len(),
        ensures
            val == old(self).view(proto)[idx as int],
            val <= proto.MASK,
            final(self).wf(proto),
            final(self).view(proto) == old(self).view(proto).remove(idx as int),
            final(self).spec_len() == old(self).spec_len() - 1,
            final(self).true_cap() == old(self).true_cap(),
            words_kept_from(
                old(self).storage(),
                final(self).storage(),
                words_for_bits(old(self).spec_len() * proto.BITS),
            ),
    {
        let ghost width = proto.BITS as int;
        let ghost len = self.len as int;
        proof {
            self.lemma_wf_bounds(proto);
            lemma_element_within(width, idx as int, len);
            lemma_words_for_elements(proto, len - 1, len);
        }
        let idx_proxy = BitProto::idx_proxy(proto, idx);
        let shift_proxy = BitProto::idx_proxy(proto, idx + 1);
        let val = self.replace_val_with_idx_proxy(proto, idx_proxy, 0);
        let ghost cleared = self.storage();
        proof {
            lemma_store_written(old(self).storage(), idx * proto.BITS, width, 0);
            lemma_written_elements(old(self).storage(), cleared, width, idx as int, 0, len);
            lemma_logic_bits();
            assert(zero_bits(cleared, idx * proto.BITS, (idx + 1) * proto.BITS));
        }
        self.shift_elements_down_with_with_idx_proxy(proto, idx_proxy, shift_proxy, 1);
        self.len = self.len - 1;
        proof {
            lemma_mul_sum(1, 0, width);
            lemma_elements_shifted_down(cleared, self.storage(), width, idx as int, len, 1);
            assert(self.view(proto) =~= old(self).view(proto).remove(idx as int)) by {
                assert forall|m: int| 0 <= m < len - 1 implies self.view(proto)[m] == old(self).view(proto).remove(
                    idx as int,
                )[m] by {
                    if m < idx {
                        assert(elements(cleared, width, len)[m] == old(self).view(proto)[m]);
                    } else {
                        assert(elements(cleared, width, len)[m + 1] == old(self).view(proto)[m + 1]);
                    }
                }
            }
            let from_word = words_for_bits(len * proto.BITS);
            lemma_store_keeps_words(old(self).storage(), idx * proto.BITS, width, 0, from_word);
            assert(words_kept_from(cleared, self.storage(), from_word));
            lemma_words_kept_twice(old(self).storage(), cleared, self.storage(), from_word);
        }
        val
    }

    /// Takes the elements of `idx_range` out into a vector of their own
    /// and moves the elements behind them down. An empty or reversed range
    /// takes nothing.
    pub fn remove_range(&mut self, proto: BitProto, idx_range: core::ops::Range<usize>) -> (res: Result<
        RawBitVec,
        BitVecError,
    >)
        requires
            old(self).wf(proto),
        ensures
            idx_range.end > old(self).spec_len() ==> {
                &&& res == Err::<RawBitVec, BitVecError>(
                    BitVecError::IndexOutOfRange { index: (idx_range.end - 1) as usize, len: old(self).spec_len() },
                )
                &&& *final(self) == *old(self)
            },
            idx_range.end <= old(self).spec_len() ==> {
                &&& res.is_ok()
                &&& res.unwrap().wf(proto)
                &&& final(self).wf(proto)
                &&& final(self).true_cap() == old(self).true_cap()
            },
            idx_range.start < idx_range.end <= old(self).spec_len() ==> {
                &&& res.unwrap().view(proto) == old(self).view(proto).subrange(
                    idx_range.start as int,
                    idx_range.end as int,
                )
                &&& final(self).view(proto) == old(self).view(proto).subrange(0, idx_range.start as int) + old(
                    self,
                ).view(proto).subrange(idx_range.end as int, old(self).spec_len() as int)
                &&& final(self).spec_len() == old(self).spec_len() - (idx_range.end - idx_range.start)
                &&& words_kept_from(
                    old(self).storage(),
                    final(self).storage(),
                    words_for_bits(old(self).spec_len() * proto.BITS),
                )
            },
            idx_range.start >= idx_range.end && idx_range.end <= old(self).spec_len() ==> {
                &&& res.unwrap().spec_len() == 0
                &&& res.unwrap().true_cap() == 0
                &&& *final(self) == *old(self)
            },
    {
        if idx_range.end > self.len {
            Err(BitVecError::IndexOutOfRange { index: idx_range.end - 1, len: self.len })
        } else if idx_range.start >= idx_range.end {
            Ok(Self::new())
        } else {
            Ok(self.remove_range_unchecked(proto, idx_range))
        }
    }

    /// Takes the elements of `idx_range`, which is not empty and lies
    /// within the length, out into a vector of their own.
    pub fn remove_range_unchecked(&mut self, proto: BitProto, idx_range: core::ops::Range<usize>) -> (removed:
        RawBitVec)
        requires
            old(self).wf(proto),
            idx_range.start < idx_range.end <= old(self).spec_len(),
        ensures
            removed.wf(proto),
            removed.view(proto) == old(self).view(proto).subrange(idx_range.start as int, idx_range.end as int),
            removed.true_cap() == words_for_bits((idx_range.end - idx_range.start) * proto.BITS),
            final(self).wf(proto),
            final(self).view(proto) == old(self).view(proto).subrange(0, idx_range.start as int) + old(self).view(
                proto,
            ).subrange(idx_range.end as int, old(self).spec_len() as int),
            final(self).spec_len() == old(self).spec_len() - (idx_range.end - idx_range.start),
            final(self).true_cap() == old(self).true_cap(),
            words_kept_from(
                old(self).storage(),
                final(self).storage(),
                words_for_bits(old(self).spec_len() * proto.BITS),
            ),
    {
        let ghost width = proto.BITS as int;
        let ghost len = self.len as int;
        let ghost before = self.view(proto);
        let ghost from_word = words_for_bits(len * proto.BITS);
        let start = idx_range.start;
        let end = idx_range.end;
        proof {
            self.lemma_wf_bounds(proto);
        }
        let count = end - start;
        let mut new_vec = Self::with_capacity(proto, count);
        let start_proxy = BitProto::idx_proxy(proto, start);
        let end_excluded_proxy = BitProto::idx_proxy(proto, end);
        let mut idx = start;
        while idx < end
            invariant
                start <= idx <= end <= len,
                count == end - start,
                len == self.spec_len(),
                self.wf(proto),
                self.true_cap() == old(self).true_cap(),
                new_vec.wf(proto),
                new_vec.spec_len() == idx - start,
                new_vec.spec_cap(proto) >= count,
                new_vec.true_cap() == words_for_bits(count * proto.BITS),
                new_vec.view(proto) == before.subrange(start as int, idx as int),
                self.view(proto) == overwritten(before, start as int, Seq::new((idx - start) as nat, |m: int| 0u64)),
                zero_bits(self.storage(), start * proto.BITS, idx * proto.BITS),
                words_kept_from(old(self).storage(), self.storage(), from_word),
                from_word == words_for_bits(len * proto.BITS),
                before == old(self).view(proto),
                before.len() == len,
                width == proto.BITS,
            decreases end - idx,
        {
            let ghost prev = self.storage();
            let val = self.replace_unchecked(proto, idx, 0);
            new_vec.push_unchecked(proto, val);
            proof {
                lemma_element_within(width, idx as int, len);
                lemma_store_written(prev, idx * proto.BITS, width, 0);
                lemma_logic_bits();
                lemma_mul_sum(idx as int, 1, width);
                if start < idx {
                    crate::storage::lemma_element_order(width, start as int, idx as int);
                }
                assert(zero_bits(self.storage(), start * proto.BITS, (idx + 1) * proto.BITS));
                assert(new_vec.view(proto) =~= before.subrange(start as int, idx + 1));
                assert(self.view(proto) =~= overwritten(
                    before,
                    start as int,
                    Seq::new((idx + 1 - start) as nat, |m: int| 0u64),
                ));
                lemma_store_keeps_words(prev, idx * proto.BITS, width, 0, from_word);
                lemma_words_kept_twice(old(self).storage(), prev, self.storage(), from_word);
            }
            idx = idx + 1;
        }
        let ghost cleared = self.storage();
        if end_excluded_proxy.bitwise_idx < self.len {
            self.shift_elements_down_with_with_idx_proxy(proto, start_proxy, end_excluded_proxy, count);
        }
        self.len = self.len - count;
        proof {
            let after = old(self).view(proto).subrange(0, start as int) + old(self).view(proto).subrange(
                end as int,
                len,
            );
            lemma_words_for_elements(proto, len - count, len);
            if end < len {
                lemma_elements_shifted_down(cleared, self.storage(), width, start as int, len, count as int);
                assert forall|m: int| 0 <= m < len - count implies self.view(proto)[m] == after[m] by {
                    if m < start {
                        assert(elements(cleared, width, len)[m] == before[m]);
                    } else {
                        assert(elements(cleared, width, len)[m + count] == before[m + count]);
                    }
                }
            } else {
                assert forall|m: int| 0 <= m < len - count implies self.view(proto)[m] == after[m] by {
                    assert(elements(cleared, width, len)[m] == before[m]);
                }
            }
            assert(self.view(proto) =~= after);
            assert(words_kept_from(cleared, self.storage(), from_word));
            lemma_words_kept_twice(old(self).storage(), cleared, self.storage(), from_word);
        }
        new_vec
    }

    /// Takes the elements from `start` on out into a vector of their own.
    pub fn trim_range(&mut self, proto: BitProto, start: usize) -> (res: Result<RawBitVec, BitVecError>)
        requires
            old(self).wf(proto),
        ensures
            start > old(self).spec_len() ==> {
                &&& res == Err::<RawBitVec, BitVecError>(
                    BitVecError::IndexOutOfRange { index: start, len: old(self).spec_len() },
                )
                &&& *final(self) == *old(self)
            },
            start <= old(self).spec_len() ==> {
                &&& res.is_ok()
                &&& res.unwrap().wf(proto)
                &&& res.unwrap().view(proto) == old(self).view(proto).subrange(
                    start as int,
                    old(self).spec_len() as int,
                )
                &&& final(self).wf(proto)
                &&& final(self).view(proto) == old(self).view(proto).take(start as int)
                &&& final(self).spec_len() == start
                &&& final(self).true_cap() == old(self).true_cap()
                &&& words_kept_from(
                    old(self).storage(),
                    final(self).storage(),
                    words_for_bits(old(self).spec_len() * proto.BITS),
                )
            },
    {
        if start > self.len {
            Err(BitVecError::IndexOutOfRange { index: start, len: self.len })
        } else {
            Ok(self.trim_range_unchecked(proto, start))
        }
    }

    /// Takes the elements from `start`, which is no more than the length,
    /// on out into a vector of their own.
    pub fn trim_range_unchecked(&mut self, proto: BitProto, start: usize) -> (trimmed: RawBitVec)
        requires
            old(self).wf(proto),
            start <= old(self).spec_len(),
        ensures
            trimmed.wf(proto),
            trimmed.view(proto) == old(self).view(proto).subrange(start as int, old(self).spec_len() as int),
            final(self).wf(proto),
            final(self).view(proto) == old(self).view(proto).take(start as int),
            final(self).spec_len() == start,
            final(self).true_cap() == old(self).true_cap(),
            words_kept_from(
                old(self).storage(),
                final(self).storage(),
                words_for_bits(old(self).spec_len() * proto.BITS),
            ),
    {
        proof {
            self.lemma_wf_bounds(proto);
        }
        if start == self.len {
            let trimmed = Self::new();
            proof {
                assert(trimmed.view(proto) =~= old(self).view(proto).subrange(start as int, start as int));
                assert(self.view(proto) =~= old(self).view(proto).take(start as int));
            }
            trimmed
        } else {
            let len = self.len;
            let trimmed = self.remove_range_unchecked(proto, start..len);
            proof {
                let v = old(self).view(proto);
                assert(v.subrange(0, start as int) + v.subrange(len as int, len as int) =~= v.take(start as int));
            }
            trimmed
        }
    }

    /// Exchanges the elements at `idx_a` and `idx_b`. Of the storage only
    /// the bits of the two elements change; with the two the same nothing
    /// is touched.
    pub fn swap(&mut self, proto: BitProto, idx_a: usize, idx_b: usize) -> (res: Result<(), BitVecError>)
        requires
            old(self).wf(proto),
        ensures
            idx_a < old(self).spec_len() && idx_b < old(self).spec_len() ==> {
                &&& res == Ok::<(), BitVecError>(())
                &&& final(self).wf(proto)
                &&& final(self).view(proto) == old(self).view(proto).update(
                    idx_a as int,
                    old(self).view(proto)[idx_b as int],
                ).update(idx_b as int, old(self).view(proto)[idx_a as int])
                &&& final(self).storage() == swapped(
                    old(self).storage(),
                    proto.BITS as int,
                    idx_a as int,
                    idx_b as int,
                )
                &&& final(self).spec_len() == old(self).spec_len()
                &&& final(self).true_cap() == old(self).true_cap()
            },
            idx_a == idx_b ==> *final(self) == *old(self),
            idx_a >= old(self).spec_len() ==> {
                &&& res == Err::<(), BitVecError>(
                    BitVecError::IndexOutOfRange { index: idx_a, len: old(self).spec_len() },
                )
                &&& *final(self) == *old(self)
            },
            idx_a < old(self).spec_len() && idx_b >= old(self).spec_len() ==> {
                &&& res == Err::<(), BitVecError>(
                    BitVecError::IndexOutOfRange { index: idx_b, len: old(self).spec_len() },
                )
                &&& *final(self) == *old(self)
            },
    {
        if idx_a >= self.len {
            return Err(BitVecError::IndexOutOfRange { index: idx_a, len: self.len });
        } else if idx_b >= self.len {
            return Err(BitVecError::IndexOutOfRange { index: idx_b, len: self.len });
        } else if idx_a != idx_b {
            self.swap_unchecked(proto, idx_a, idx_b);
        } else {
            proof {
                self.lemma_wf_bounds(proto);
                assert(self.view(proto) =~= self.view(proto).update(
                    idx_a as int,
                    self.view(proto)[idx_b as int],
                ).update(idx_b as int, self.view(proto)[idx_a as int]));
                lemma_element_within(proto.BITS as int, idx_a as int, self.len as int);
                lemma_swapped_self(self.storage(), proto.BITS as int, idx_a as int);
            }
        }
        Ok(())
    }

    /// Exchanges the elements at `idx_a` and `idx_b`, both below the
    /// length.
    pub fn swap_unchecked(&mut self, proto: BitProto, idx_a: usize, idx_b: usize)
        requires
            old(self).wf(proto),
            idx_a < old(self).spec_len(),
            idx_b < old(self).spec_len(),
        ensures
            final(self).wf(proto),
            final(self).view(proto) == old(self).view(proto).update(
                idx_a as int,
                old(self).view(proto)[idx_b as int],
            ).update(idx_b as int, old(self).view(proto)[idx_a as int]),
            final(self).storage() == swapped(old(self).storage(), proto.BITS as int, idx_a as int, idx_b as int),
            final(self).spec_len() == old(self).spec_len(),
            final(self).true_cap() == old(self).true_cap(),
    {
        proof {
            self.lemma_wf_bounds(proto);
        }
        let proxy_a = BitProto::idx_proxy(proto, idx_a);
        let proxy_b = BitProto::idx_proxy(proto, idx_b);
        self.swap_vals_with_idx_proxy(proto, proxy_a, proxy_b)
    }

    /// Takes the element at `idx` out and puts the last element in its
    /// place. The bits that held the last element are cleared.
    pub fn swap_pop(&mut self, proto: BitProto, idx: usize) -> (res: Result<u64, BitVecError>)
        requires
            old(self).wf(proto),
        ensures
            idx < old(self).spec_len() ==> {
                &&& res == Ok::<u64, BitVecError>(old(self).view(proto)[idx as int])
                &&& final(self).wf(proto)
                &&& final(self).view(proto) == old(self).view(proto).update(
                    idx as int,
                    old(self).view(proto).last(),
                ).drop_last()
                &&& final(self).storage() == (if idx + 1 < old(self).spec_len() {
                    swap_popped(old(self).storage(), proto.BITS as int, idx as int, old(self).spec_len() - 1)
                } else {
                    store(old(self).storage(), idx * proto.BITS, proto.BITS as int, 0)
                })
                &&& final(self).spec_len() == old(self).spec_len() - 1
                &&& final(self).true_cap() == old(self).true_cap()
            },
            idx >= old(self).spec_len() ==> {
                &&& res == Err::<u64, BitVecError>(
                    BitVecError::IndexOutOfRange { index: idx, len: old(self).spec_len() },
                )
                &&& *final(self) == *old(self)
            },
    {
        if idx >= self.len {
            Err(BitVecError::IndexOutOfRange { index: idx, len: self.len })
        } else if idx == self.len - 1 {
            proof {
                self.lemma_wf_bounds(proto);
                assert(old(self).view(proto).drop_last() =~= old(self).view(proto).update(
                    idx as int,
                    old(self).view(proto).last(),
                ).drop_last());
            }
            Ok(self.pop_unchecked(proto))
        } else {
            Ok(self.swap_pop_unchecked(proto, idx))
        }
    }

    /// Takes the element at `idx`, which is not the last, out and puts the
    /// last element in its place.
    pub fn swap_pop_unchecked(&mut self, proto: BitProto, idx: usize) -> (val: u64)
        requires
            old(self).wf(proto),
            idx + 1 < old(self).spec_len(),
        ensures
            val == old(self).view(proto)[idx as int],
            val <= proto.MASK,
            final(self).wf(proto),
            final(self).view(proto) == old(self).view(proto).update(idx as int, old(self).view(proto).last()).drop_last(),
            final(self).storage() == swap_popped(
                old(self).storage(),
                proto.BITS as int,
                idx as int,
                old(self).spec_len() - 1,
            ),
            final(self).spec_len() == old(self).spec_len() - 1,
            final(self).true_cap() == old(self).true_cap(),
    {
        proof {
            self.lemma_wf_bounds(proto);
        }
        let last_proxy = BitProto::idx_proxy(proto, self.len - 1);
        let pop_proxy = BitProto::idx_proxy(proto, idx);
        let val = self.swap_pop_val_with_idx_proxy(proto, pop_proxy, last_proxy);
        self.len = self.len - 1;
        proof {
            lemma_words_for_elements(proto, self.len as int, self.len + 1);
            lemma_elements_drop_last(self.storage(), proto.BITS as int, self.len + 1);
            assert(self.view(proto) =~= old(self).view(proto).update(
                idx as int,
                old(self).view(proto).last(),
            ).drop_last());
        }
        val
    }

    /// Whether every value of `source` fits an element of `proto`'s width.
    pub open spec fn all_fit(proto: BitProto, source: Seq<u64>) -> bool {
        forall|j: int| 0 <= j < source.len() ==> #[trigger] source[j] <= proto.MASK
    }

    /// Whether `at` is the place of the first value of `source` that does
    /// not fit an element of `proto`'s width.
    pub open spec fn is_first_misfit(proto: BitProto, source: Seq<u64>, at: int) -> bool {
        &&& 0 <= at < source.len()
        &&& source[at] > proto.MASK
        &&& forall|j: int| 0 <= j < at ==> #[trigger] source[j] <= proto.MASK
    }

    /// The place of the first value of `source` that does not fit, where
    /// there is one.
    pub open spec fn first_misfit(proto: BitProto, source: Seq<u64>) -> int {
        choose|at: int| Self::is_first_misfit(proto, source, at)
    }

    /// Looks for the first value of `source` that does not fit an element
    /// of `proto`'s width.
    pub fn find_misfit(proto: BitProto, source: &Vec<u64>) -> (found: Option<usize>)
        ensures
            Self::all_fit(proto, source@) <==> found.is_none(),
            found.is_some() ==> found.unwrap() == Self::first_misfit(proto, source@) && Self::is_first_misfit(
                proto,
                source@,
                found.unwrap() as int,
            ),
    {
        let mut at: usize = 0;
        while at < source.len()
            invariant
                at <= source.len(),
                forall|j: int| 0 <= j < at ==> #[trigger] source@[j] <= proto.MASK,
            decreases source.len() - at,
        {
            if source[at] > proto.MASK {
                proof {
                    let chosen = Self::first_misfit(proto, source@);
                    assert(Self::is_first_misfit(proto, source@, at as int));
                    assert(Self::is_first_misfit(proto, source@, chosen));
                    assert(chosen == at) by {
                        if chosen < at {
                            assert(source@[chosen] <= proto.MASK);
                        } else if at < chosen {
                            assert(source@[at as int] <= proto.MASK);
                        }
                    }
                }
                return Some(at);
            }
            at = at + 1;
        }
        None
    }

    /// Writes the elements of `source` over the places from `at` on. The
    /// places lie within the storage, not necessarily within the length;
    /// `total` is the number of places that the caller counts.
    fn copy_in_bitvec(&mut self, proto: BitProto, at: usize, source: &RawBitVec, Ghost(total): Ghost<int>)
        requires
            old(self).wf(proto),
            source.wf(proto),
            at + source.spec_len() <= total,
            total * proto.BITS <= 64 * old(self).true_cap(),
        ensures
            final(self).spec_len() == old(self).spec_len(),
            final(self).true_cap() == old(self).true_cap(),
            elements(final(self).storage(), proto.BITS as int, total) == overwritten(
                elements(old(self).storage(), proto.BITS as int, total),
                at as int,
                source.view(proto),
            ),
            words_kept_from(
                old(self).storage(),
                final(self).storage(),
                words_for_bits((at + source.spec_len()) * proto.BITS),
            ),
    {
        let ghost width = proto.BITS as int;
        let ghost base = elements(self.storage(), width, total);
        let ghost from_word = words_for_bits((at + source.spec_len()) * proto.BITS);
        let ghost vals = source.view(proto);
        proof {
            source.lemma_wf_bounds(proto);
            lemma_len_bound(proto, total, self.blocks.len() as int);
            assert(base =~= overwritten(base, at as int, vals.take(0)));
        }
        let mut count: usize = 0;
        while count < source.len
            invariant
                count <= source.spec_len(),
                source.wf(proto),
                proto.wf(),
                width == proto.BITS,
                vals == source.view(proto),
                vals.len() == source.spec_len(),
                at + source.spec_len() <= total <= proto.MAX_CAPACITY,
                total * proto.BITS <= 64 * self.true_cap(),
                self.true_cap() == old(self).true_cap(),
                self.spec_len() == old(self).spec_len(),
                base.len() == total,
                elements(self.storage(), width, total) == overwritten(base, at as int, vals.take(count as int)),
                from_word == words_for_bits((at + source.spec_len()) * proto.BITS),
                words_kept_from(old(self).storage(), self.storage(), from_word),
            decreases source.spec_len() - count,
        {
            proof {
                lemma_element_within(width, at + count, total);
            }
            let write_proxy = BitProto::idx_proxy(proto, at + count);
            let val = source.get_unchecked(proto, count);
            let ghost prev = self.storage();
            self.write_val_with_idx_proxy(proto, write_proxy, val);
            proof {
                lemma_store_written(prev, (at + count) * proto.BITS, width, val);
                lemma_written_elements(prev, self.storage(), width, at + count, val, total);
                lemma_overwritten_step(base, at as int, vals, count as int);
                lemma_element_within(width, at + count, at + vals.len());
                lemma_store_keeps_words(prev, (at + count) * proto.BITS, width, val, from_word);
                lemma_words_kept_twice(old(self).storage(), prev, self.storage(), from_word);
            }
            count = count + 1;
        }
        proof {
            assert(vals.take(count as int) =~= vals);
        }
    }

    /// Writes the values of `source` over the places from `at` on, as
    /// [`RawBitVec::copy_in_bitvec`] does.
    fn copy_in_values(&mut self, proto: BitProto, at: usize, source: &Vec<u64>, Ghost(total): Ghost<int>)
        requires
            old(self).wf(proto),
            Self::all_fit(proto, source@),
            at + source.len() <= total,
            total * proto.BITS <= 64 * old(self).true_cap(),
        ensures
            final(self).spec_len() == old(self).spec_len(),
            final(self).true_cap() == old(self).true_cap(),
            elements(final(self).storage(), proto.BITS as int, total) == overwritten(
                elements(old(self).storage(), proto.BITS as int, total),
                at as int,
                source@,
            ),
            words_kept_from(
                old(self).storage(),
                final(self).storage(),
                words_for_bits((at + source.len()) * proto.BITS),
            ),
    {
        let ghost width = proto.BITS as int;
        let ghost base = elements(self.storage(), width, total);
        let ghost from_word = words_for_bits((at + source.len()) * proto.BITS);
        let ghost vals = source@;
        proof {
            lemma_len_bound(proto, total, self.blocks.len() as int);
            assert(base =~= overwritten(base, at as int, vals.take(0)));
        }
        let mut count: usize = 0;
        while count < source.len()
            invariant
                count <= source.len(),
                Self::all_fit(proto, source@),
                proto.wf(),
                width == proto.BITS,
                vals == source@,
                at + source.len() <= total <= proto.MAX_CAPACITY,
                total * proto.BITS <= 64 * self.true_cap(),
                self.true_cap() == old(self).true_cap(),
                self.spec_len() == old(self).spec_len(),
                base.len() == total,
                elements(self.storage(), width, total) == overwritten(base, at as int, vals.take(count as int)),
                from_word == words_for_bits((at + source.len()) * proto.BITS),
                words_kept_from(old(self).storage(), self.storage(), from_word),
            decreases source.len() - count,
        {
            proof {
                lemma_element_within(width, at + count, total);
            }
            let write_proxy = BitProto::idx_proxy(proto, at + count);
            let val = source[count];
            let ghost prev = self.storage();
            self.write_val_with_idx_proxy(proto, write_proxy, val);
            proof {
                lemma_store_written(prev, (at + count) * proto.BITS, width, val);
                lemma_written_elements(prev, self.storage(), width, at + count, val, total);
                lemma_overwritten_step(base, at as int, vals, count as int);
                lemma_element_within(width, at + count, at + vals.len());
                lemma_store_keeps_words(prev, (at + count) * proto.BITS, width, val, from_word);
                lemma_words_kept_twice(old(self).storage(), prev, self.storage(), from_word);
            }
            count = count + 1;
        }
        proof {
            assert(vals.take(count as int) =~= vals);
        }
    }

    /// Appends the elements of `bitvec`, growing once for all of them: if
    /// the storage is too small, to the words needed and half as many
    /// again.
    pub fn append_bitvec(&mut self, proto: BitProto, bitvec: RawBitVec) -> (res: Result<(), BitVecError>)
        requires
            old(self).wf(proto),
            bitvec.wf(proto),
        ensures
            old(self).spec_len() + bitvec.spec_len() <= proto.MAX_CAPACITY ==> {
                &&& res == Ok::<(), BitVecError>(())
                &&& final(self).wf(proto)
                &&& final(self).view(proto) == old(self).view(proto) + bitvec.view(proto)
                &&& final(self).spec_len() == old(self).spec_len() + bitvec.spec_len()
                &&& final(self).true_cap() == grown_block_count(
                    old(self).true_cap() as int,
                    words_for_bits((old(self).spec_len() + bitvec.spec_len()) * proto.BITS),
                    true,
                )
                &&& words_kept_from(
                    old(self).storage(),
                    final(self).storage(),
                    words_for_bits((old(self).spec_len() + bitvec.spec_len()) * proto.BITS),
                )
            },
            old(self).spec_len() + bitvec.spec_len() > proto.MAX_CAPACITY ==> {
                &&& res == Err::<(), BitVecError>(BitVecError::CapacityExceeded { max_capacity: proto.MAX_CAPACITY })
                &&& *final(self) == *old(self)
            },
    {
        proof {
            self.lemma_wf_bounds(proto);
            bitvec.lemma_wf_bounds(proto);
        }
        if proto.MAX_CAPACITY - bitvec.len < self.len {
            return Err(BitVecError::CapacityExceeded { max_capacity: proto.MAX_CAPACITY });
        }
        match self.handle_grow_if_needed(proto, self.len + bitvec.len, true) {
            Ok(()) => {},
            Err(e) => {
                return Err(e);
            },
        }
        let ghost grown = self.storage();
        self.append_bitvec_unchecked(proto, bitvec);
        proof {
            let from_word = words_for_bits((old(self).spec_len() + bitvec.spec_len()) * proto.BITS);
            assert(words_kept_from(old(self).storage(), grown, from_word));
            lemma_words_kept_twice(old(self).storage(), grown, self.storage(), from_word);
        }
        Ok(())
    }

    /// Appends the elements of `bitvec` to a vector that has room for
    /// them.
    pub fn append_bitvec_unchecked(&mut self, proto: BitProto, bitvec: RawBitVec)
        requires
            old(self).wf(proto),
            bitvec.wf(proto),
            old(self).spec_len() + bitvec.spec_len() <= old(self).spec_cap(proto),
        ensures
            final(self).wf(proto),
            final(self).view(proto) == old(self).view(proto) + bitvec.view(proto),
            final(self).spec_len() == old(self).spec_len() + bitvec.spec_len(),
            final(self).true_cap() == old(self).true_cap(),
            words_kept_from(
                old(self).storage(),
                final(self).storage(),
                words_for_bits((old(self).spec_len() + bitvec.spec_len()) * proto.BITS),
            ),
    {
        let ghost total = self.len + bitvec.len;
        proof {
            self.lemma_wf_bounds(proto);
            bitvec.lemma_wf_bounds(proto);
            lemma_within_cap(proto, total, self.blocks.len() as int);
        }
        self.copy_in_bitvec(proto, self.len, &bitvec, Ghost(total));
        self.len = self.len + bitvec.len;
        proof {
            assert(self.view(proto) =~= old(self).view(proto) + bitvec.view(proto));
        }
    }

    /// Appends the values of `source`, growing once for all of them: if
    /// the storage is too small, to the words needed and half as many
    /// again. If a value does not fit the width, nothing is appended and
    /// the first such value is named.
    pub fn append_iter(&mut self, proto: BitProto, source: &Vec<u64>) -> (res: Result<(), BitVecError>)
        requires
            old(self).wf(proto),
        ensures
            old(self).spec_len() + source.len() > proto.MAX_CAPACITY ==> {
                &&& res == Err::<(), BitVecError>(BitVecError::CapacityExceeded { max_capacity: proto.MAX_CAPACITY })
                &&& *final(self) == *old(self)
            },
            old(self).spec_len() + source.len() <= proto.MAX_CAPACITY && !Self::all_fit(proto, source@) ==> {
                &&& res == Err::<(), BitVecError>(
                    BitVecError::ValueTooWide { value: source@[Self::first_misfit(proto, source@)], mask: proto.MASK },
                )
                &&& *final(self) == *old(self)
            },
            old(self).spec_len() + source.len() <= proto.MAX_CAPACITY && Self::all_fit(proto, source@) ==> {
                &&& res == Ok::<(), BitVecError>(())
                &&& final(self).wf(proto)
                &&& final(self).view(proto) == old(self).view(proto) + source@
                &&& final(self).spec_len() == old(self).spec_len() + source.len()
                &&& final(self).true_cap() == grown_block_count(
                    old(self).true_cap() as int,
                    words_for_bits((old(self).spec_len() + source.len()) * proto.BITS),
                    true,
                )
                &&& words_kept_from(
                    old(self).storage(),
                    final(self).storage(),
                    words_for_bits((old(self).spec_len() + source.len()) * proto.BITS),
                )
            },
    {
        proof {
            self.lemma_wf_bounds(proto);
        }
        if source.len() > proto.MAX_CAPACITY || proto.MAX_CAPACITY - source.len() < self.len {
            return Err(BitVecError::CapacityExceeded { max_capacity: proto.MAX_CAPACITY });
        }
        match Self::find_misfit(proto, source) {
            Some(at) => {
                return Err(BitVecError::ValueTooWide { value: source[at], mask: proto.MASK });
            },
            None => {},
        }
        match self.handle_grow_if_needed(proto, self.len + source.len(), true) {
            Ok(()) => {},
            Err(e) => {
                return Err(e);
            },
        }
        let ghost grown = self.storage();
        self.append_iter_unchecked(proto, source);
        proof {
            let from_word = words_for_bits((old(self).spec_len() + source.len()) * proto.BITS);
            assert(words_kept_from(old(self).storage(), grown, from_word));
            lemma_words_kept_twice(old(self).storage(), grown, self.storage(), from_word);
        }
        Ok(())
    }

    /// Appends the values of `source` to a vector that has room for them.
    pub fn append_iter_unchecked(&mut self, proto: BitProto, source: &Vec<u64>)
        requires
            old(self).wf(proto),
            Self::all_fit(proto, source@),
            old(self).spec_len() + source.len() <= old(self).spec_cap(proto),
        ensures
            final(self).wf(proto),
            final(self).view(proto) == old(self).view(proto) + source@,
            final(self).spec_len() == old(self).spec_len() + source.len(),
            final(self).true_cap() == old(self).true_cap(),
            words_kept_from(
                old(self).storage(),
                final(self).storage(),
                words_for_bits((old(self).spec_len() + source.len()) * proto.BITS),
            ),
    {
        let ghost total = self.len + source.len();
        proof {
            self.lemma_wf_bounds(proto);
            lemma_within_cap(proto, total, self.blocks.len() as int);
        }
        self.copy_in_values(proto, self.len, source, Ghost(total));
        self.len = self.len + source.len();
        proof {
            assert(self.view(proto) =~= old(self).view(proto) + source@);
        }
    }

    /// Puts the elements of `bitvec` in at `insert_idx`, moving the
    /// elements from there on up, and growing once as
    /// [`RawBitVec::append_bitvec`] does.
    pub fn insert_bitvec(&mut self, proto: BitProto, insert_idx: usize, bitvec: RawBitVec) -> (res: Result<
        (),
        BitVecError,
    >)
        requires
            old(self).wf(proto),
            bitvec.wf(proto),
        ensures
            insert_idx > old(self).spec_len() ==> {
                &&& res == Err::<(), BitVecError>(
                    BitVecError::IndexOutOfRange { index: insert_idx, len: old(self).spec_len() },
                )
                &&& *final(self) == *old(self)
            },
            insert_idx <= old(self).spec_len() && old(self).spec_len() + bitvec.spec_len() > proto.MAX_CAPACITY ==> {
                &&& res == Err::<(), BitVecError>(BitVecError::CapacityExceeded { max_capacity: proto.MAX_CAPACITY })
                &&& *final(self) == *old(self)
            },
            insert_idx <= old(self).spec_len() && old(self).spec_len() + bitvec.spec_len() <= proto.MAX_CAPACITY ==> {
                &&& res == Ok::<(), BitVecError>(())
                &&& final(self).wf(proto)
                &&& final(self).view(proto) == old(self).view(proto).subrange(0, insert_idx as int) + bitvec.view(
                    proto,
                ) + old(self).view(proto).subrange(insert_idx as int, old(self).spec_len() as int)
                &&& final(self).spec_len() == old(self).spec_len() + bitvec.spec_len()
                &&& final(self).true_cap() == grown_block_count(
                    old(self).true_cap() as int,
                    words_for_bits((old(self).spec_len() + bitvec.spec_len()) * proto.BITS),
                    true,
                )
                &&& words_kept_from(
                    old(self).storage(),
                    final(self).storage(),
                    words_for_bits((old(self).spec_len() + bitvec.spec_len()) * proto.BITS),
                )
            },
    {
        proof {
            self.lemma_wf_bounds(proto);
            bitvec.lemma_wf_bounds(proto);
        }
        if insert_idx > self.len {
            return Err(BitVecError::IndexOutOfRange { index: insert_idx, len: self.len });
        }
        if proto.MAX_CAPACITY - bitvec.len < self.len {
            return Err(BitVecError::CapacityExceeded { max_capacity: proto.MAX_CAPACITY });
        }
        match self.handle_grow_if_needed(proto, self.len + bitvec.len, true) {
            Ok(()) => {},
            Err(e) => {
                return Err(e);
            },
        }
        let ghost grown = self.storage();
        if insert_idx == self.len {
            proof {
                let v = old(self).view(proto);
                assert(v + bitvec.view(proto) =~= v.subrange(0, insert_idx as int) + bitvec.view(proto) + v.subrange(
                    insert_idx as int,
                    old(self).spec_len() as int,
                ));
            }
            self.append_bitvec_unchecked(proto, bitvec);
        } else {
            self.insert_bitvec_unchecked(proto, insert_idx, bitvec);
        }
        proof {
            let from_word = words_for_bits((old(self).spec_len() + bitvec.spec_len()) * proto.BITS);
            assert(words_kept_from(old(self).storage(), grown, from_word));
            lemma_words_kept_twice(old(self).storage(), grown, self.storage(), from_word);
        }
        Ok(())
    }

    /// Puts the elements of `bitvec` in at `insert_idx`, which is below
    /// the length, in a vector that has room for them.
    pub fn insert_bitvec_unchecked(&mut self, proto: BitProto, insert_idx: usize, bitvec: RawBitVec)
        requires
            old(self).wf(proto),
            bitvec.wf(proto),
            insert_idx < old(self).spec_len(),
            old(self).spec_len() + bitvec.spec_len() <= old(self).spec_cap(proto),
        ensures
            final(self).wf(proto),
            final(self).view(proto) == old(self).view(proto).subrange(0, insert_idx as int) + bitvec.view(proto) + old(
                self,
            ).view(proto).subrange(insert_idx as int, old(self).spec_len() as int),
            final(self).spec_len() == old(self).spec_len() + bitvec.spec_len(),
            final(self).true_cap() == old(self).true_cap(),
            words_kept_from(
                old(self).storage(),
                final(self).storage(),
                words_for_bits((old(self).spec_len() + bitvec.spec_len()) * proto.BITS),
            ),
    {
        let ghost width = proto.BITS as int;
        let ghost len = self.len as int;
        let ghost total = self.len + bitvec.len;
        let ghost before = self.view(proto);
        proof {
            self.lemma_wf_bounds(proto);
            bitvec.lemma_wf_bounds(proto);
            lemma_within_cap(proto, total, self.blocks.len() as int);
        }
        if bitvec.len > 0 {
            let begin_idx = BitProto::idx_proxy(proto, insert_idx);
            self.shift_elements_up_with_with_idx_proxy(proto, begin_idx, bitvec.len);
            let ghost shifted = self.storage();
            self.copy_in_bitvec(proto, insert_idx, &bitvec, Ghost(total));
            self.len = self.len + bitvec.len;
            proof {
                lemma_elements_shifted_up(
                    old(self).storage(),
                    shifted,
                    width,
                    insert_idx as int,
                    len,
                    bitvec.spec_len() as int,
                );
                let want = before.subrange(0, insert_idx as int) + bitvec.view(proto) + before.subrange(
                    insert_idx as int,
                    len,
                );
                assert forall|m: int| 0 <= m < total implies self.view(proto)[m] == want[m] by {
                    if m < insert_idx {
                        assert(element_at(shifted, width, m) == element_at(old(self).storage(), width, m));
                    } else if m >= insert_idx + bitvec.spec_len() {
                        assert(element_at(shifted, width, m) == element_at(
                            old(self).storage(),
                            width,
                            m - bitvec.spec_len(),
                        ));
                    }
                }
                assert(self.view(proto) =~= want);
                let from_word = words_for_bits(total * proto.BITS);
                lemma_words_for_elements(proto, insert_idx + (total - len), total);
                assert(words_kept_from(old(self).storage(), shifted, from_word));
                lemma_words_kept_later(
                    shifted,
                    self.storage(),
                    words_for_bits((insert_idx + (total - len)) * proto.BITS),
                    from_word,
                );
                lemma_words_kept_twice(old(self).storage(), shifted, self.storage(), from_word);
            }
        } else {
            proof {
                assert(before =~= before.subrange(0, insert_idx as int) + bitvec.view(proto) + before.subrange(
                    insert_idx as int,
                    len,
                ));
            }
        }
    }

    /// Puts the values of `source` in at `insert_idx`, moving the elements
    /// from there on up, and growing once as [`RawBitVec::append_iter`]
    /// does. If a value does not fit the width, nothing is put in and the
    /// first such value is named.
    pub fn insert_iter(&mut self, proto: BitProto, insert_idx: usize, source: &Vec<u64>) -> (res: Result<
        (),
        BitVecError,
    >)
        requires
            old(self).wf(proto),
        ensures
            insert_idx > old(self).spec_len() ==> {
                &&& res == Err::<(), BitVecError>(
                    BitVecError::IndexOutOfRange { index: insert_idx, len: old(self).spec_len() },
                )
                &&& *final(self) == *old(self)
            },
            insert_idx <= old(self).spec_len() && old(self).spec_len() + source.len() > proto.MAX_CAPACITY ==> {
                &&& res == Err::<(), BitVecError>(BitVecError::CapacityExceeded { max_capacity: proto.MAX_CAPACITY })
                &&& *final(self) == *old(self)
            },
            insert_idx <= old(self).spec_len() && old(self).spec_len() + source.len() <= proto.MAX_CAPACITY
                && !Self::all_fit(proto, source@) ==> {
                &&& res == Err::<(), BitVecError>(
                    BitVecError::ValueTooWide { value: source@[Self::first_misfit(proto, source@)], mask: proto.MASK },
                )
                &&& *final(self) == *old(self)
            },
            insert_idx <= old(self).spec_len() && old(self).spec_len() + source.len() <= proto.MAX_CAPACITY
                && Self::all_fit(proto, source@) ==> {
                &&& res == Ok::<(), BitVecError>(())
                &&& final(self).wf(proto)
                &&& final(self).view(proto) == old(self).view(proto).subrange(0, insert_idx as int) + source@ + old(
                    self,
                ).view(proto).subrange(insert_idx as int, old(self).spec_len() as int)
                &&& final(self).spec_len() == old(self).spec_len() + source.len()
                &&& final(self).true_cap() == grown_block_count(
                    old(self).true_cap() as int,
                    words_for_bits((old(self).spec_len() + source.len()) * proto.BITS),
                    true,
                )
                &&& words_kept_from(
                    old(self).storage(),
                    final(self).storage(),
                    words_for_bits((old(self).spec_len() + source.len()) * proto.BITS),
                )
            },
    {
        proof {
            self.lemma_wf_bounds(proto);
        }
        if insert_idx > self.len {
            return Err(BitVecError::IndexOutOfRange { index: insert_idx, len: self.len });
        }
        if source.len() > proto.MAX_CAPACITY || proto.MAX_CAPACITY - source.len() < self.len {
            return Err(BitVecError::CapacityExceeded { max_capacity: proto.MAX_CAPACITY });
        }
        match Self::find_misfit(proto, source) {
            Some(at) => {
                return Err(BitVecError::ValueTooWide { value: source[at], mask: proto.MASK });
            },
            None => {},
        }
        match self.handle_grow_if_needed(proto, self.len + source.len(), true) {
            Ok(()) => {},
            Err(e) => {
                return Err(e);
            },
        }
        let ghost grown = self.storage();
        if insert_idx == self.len {
            proof {
                let v = old(self).view(proto);
                assert(v + source@ =~= v.subrange(0, insert_idx as int) + source@ + v.subrange(
                    insert_idx as int,
                    old(self).spec_len() as int,
                ));
            }
            self.append_iter_unchecked(proto, source);
        } else {
            self.insert_iter_unchecked(proto, insert_idx, source);
        }
        proof {
            let from_word = words_for_bits((old(self).spec_len() + source.len()) * proto.BITS);
            assert(words_kept_from(old(self).storage(), grown, from_word));
            lemma_words_kept_twice(old(self).storage(), grown, self.storage(), from_word);
        }
        Ok(())
    }

    /// Puts the values of `source` in at `insert_idx`, which is below the
    /// length, in a vector that has room for them.
    pub fn insert_iter_unchecked(&mut self, proto: BitProto, insert_idx: usize, source: &Vec<u64>)
        requires
            old(self).wf(proto),
            Self::all_fit(proto, source@),
            insert_idx < old(self).spec_len(),
            old(self).spec_len() + source.len() <= old(self).spec_cap(proto),
        ensures
            final(self).wf(proto),
            final(self).view(proto) == old(self).view(proto).subrange(0, insert_idx as int) + source@ + old(self).view(
                proto,
            ).subrange(insert_idx as int, old(self).spec_len() as int),
            final(self).spec_len() == old(self).spec_len() + source.len(),
            final(self).true_cap() == old(self).true_cap(),
            words_kept_from(
                old(self).storage(),
                final(self).storage(),
                words_for_bits((old(self).spec_len() + source.len()) * proto.BITS),
            ),
    {
        let ghost width = proto.BITS as int;
        let ghost len = self.len as int;
        let ghost total = self.len + source.len();
        let ghost before = self.view(proto);
        proof {
            self.lemma_wf_bounds(proto);
            lemma_within_cap(proto, total, self.blocks.len() as int);
        }
        let iter_len = source.len();
        if iter_len > 0 {
            let begin_idx = BitProto::idx_proxy(proto, insert_idx);
            self.shift_elements_up_with_with_idx_proxy(proto, begin_idx, iter_len);
            let ghost shifted = self.storage();
            self.copy_in_values(proto, insert_idx, source, Ghost(total));
            self.len = self.len + iter_len;
            proof {
                lemma_elements_shifted_up(old(self).storage(), shifted, width, insert_idx as int, len, iter_len as int);
                let want = before.subrange(0, insert_idx as int) + source@ + before.subrange(insert_idx as int, len);
                assert forall|m: int| 0 <= m < total implies self.view(proto)[m] == want[m] by {
                    if m < insert_idx {
                        assert(element_at(shifted, width, m) == element_at(old(self).storage(), width, m));
                    } else if m >= insert_idx + iter_len {
                        assert(element_at(shifted, width, m) == element_at(old(self).storage(), width, m - iter_len));
                    }
                }
                assert(self.view(proto) =~= want);
                let from_word = words_for_bits(total * proto.BITS);
                lemma_words_for_elements(proto, insert_idx + (total - len), total);
                assert(words_kept_from(old(self).storage(), shifted, from_word));
                lemma_words_kept_later(
                    shifted,
                    self.storage(),
                    words_for_bits((insert_idx + (total - len)) * proto.BITS),
                    from_word,
                );
                lemma_words_kept_twice(old(self).storage(), shifted, self.storage(), from_word);
            }
        } else {
            proof {
                assert(before =~= before.subrange(0, insert_idx as int) + source@ + before.subrange(
                    insert_idx as int,
                    len,
                ));
            }
        }
    }

    /// The words of the storage.
    pub fn as_blocks(&self) -> (blocks: &Vec<u64>)
        ensures
            blocks@ == self.storage(),
    {
        &self.blocks
    }

    /// Makes a vector of `len` elements out of words that hold them;
    /// `None` if the words are more than can be counted or hold fewer than
    /// `len` elements of `proto`'s width.
    pub fn from_blocks(proto: BitProto, blocks: Vec<u64>, len: usize) -> (res: Option<RawBitVec>)
        requires
            proto.wf(),
        ensures
            blocks.len() <= MAX_TRUE_CAP && len <= (64 * blocks.len()) / (proto.BITS as int) ==> {
                &&& res.is_some()
                &&& res.unwrap().wf(proto)
                &&& res.unwrap().storage() == blocks@
                &&& res.unwrap().spec_len() == len
            },
            !(blocks.len() <= MAX_TRUE_CAP && len <= (64 * blocks.len()) / (proto.BITS as int)) ==> res.is_none(),
    {
        if blocks.len() > MAX_TRUE_CAP {
            return None;
        }
        let cap = BitProto::calc_bitwise_count_from_block_count(proto, blocks.len());
        if len > cap {
            return None;
        }
        proof {
            lemma_within_cap(proto, len as int, blocks.len() as int);
        }
        Some(RawBitVec { blocks, len })
    }

    /// Makes a vector of words and a length just as they are given.
    ///
    /// Nothing is tested: the vector is well formed for a prototype only
    /// if the words are few enough to count their bits and hold `len`
    /// elements of its width, which [`RawBitVec::from_blocks`] tests.
    pub fn from_blocks_unchecked(blocks: Vec<u64>, len: usize) -> (vec: RawBitVec)
        ensures
            vec.storage() == blocks@,
            vec.spec_len() == len,
    {
        RawBitVec { blocks, len }
    }

    /// A vector with the same words and the same length.
    fn duplicate(&self) -> (copy: RawBitVec)
        ensures
            copy.storage() == self.storage(),
            copy.spec_len() == self.spec_len(),
    {
        let mut blocks: Vec<u64> = Vec::new();
        let mut i: usize = 0;
        while i < self.blocks.len()
            invariant
                i <= self.blocks.len(),
                blocks.len() == i,
                forall|j: int| 0 <= j < i ==> #[trigger] blocks@[j] == self.blocks@[j],
            decreases self.blocks.len() - i,
        {
            blocks.push(self.blocks[i]);
            i = i + 1;
        }
        proof {
            assert(blocks@ =~= self.blocks@);
        }
        RawBitVec { blocks, len: self.len }
    }

    /// Empties the vector and hands its elements to a cursor that gives
    /// them out from either end. The vector keeps its storage.
    pub fn drain(&mut self) -> (drain: RawBitVecDrain)
        ensures
            final(self).spec_len() == 0,
            final(self).storage() == old(self).storage(),
            drain.source().storage() == old(self).storage(),
            drain.source().spec_len() == old(self).spec_len(),
            drain.spec_start() == 0,
            drain.spec_end() == old(self).spec_len(),
    {
        let taken = self.duplicate();
        self.len = 0;
        RawBitVecDrain::over(taken)
    }

    /// Turns the vector into a cursor that gives its elements out from
    /// either end.
    pub fn into_iter(self) -> (iter: RawBitVecIter)
        ensures
            iter.source() == self,
            iter.spec_start() == 0,
            iter.spec_end() == self.spec_len(),
    {
        RawBitVecIter::over(self)
    }

    /// Reads the element at the coordinate `idx_proxy`.
    pub(crate) fn read_val_with_idx_proxy(&self, proto: BitProto, idx_proxy: IdxProxy) -> (val: u64)
        requires
            addressable(self.storage(), proto, idx_proxy),
        ensures
            val == element_at(self.storage(), proto.BITS as int, idx_proxy.bitwise_idx as int),
            val <= proto.MASK,
    {
        proof {
            lemma_addressable(self.storage(), proto, idx_proxy);
            assert(self.blocks@.len() == self.blocks.len());
        }
        let block_bits = self.blocks[idx_proxy.real_idx];
        let mut val: u64 = (block_bits & idx_proxy.first_mask) >> idx_proxy.first_offset;
        if idx_proxy.second_mask != 0 {
            let next_bits = self.blocks[idx_proxy.real_idx + 1];
            val = val | ((next_bits & idx_proxy.second_mask) << idx_proxy.second_offset);
        }
        proof {
            lemma_read_value(self.storage(), proto, idx_proxy);
        }
        val
    }

    /// Writes `new_val` at the coordinate `idx_proxy` and returns the
    /// element that was there.
    pub(crate) fn replace_val_with_idx_proxy(&mut self, proto: BitProto, idx_proxy: IdxProxy, new_val: u64) -> (val:
        u64)
        requires
            addressable(old(self).storage(), proto, idx_proxy),
            new_val <= proto.MASK,
        ensures
            val == element_at(old(self).storage(), proto.BITS as int, idx_proxy.bitwise_idx as int),
            val <= proto.MASK,
            final(self).storage() == store(
                old(self).storage(),
                idx_proxy.bitwise_idx * proto.BITS,
                proto.BITS as int,
                new_val,
            ),
            final(self).spec_len() == old(self).spec_len(),
            final(self).true_cap() == old(self).true_cap(),
    {
        proof {
            lemma_addressable(self.storage(), proto, idx_proxy);
            lemma_read_value(self.storage(), proto, idx_proxy);
            assert(self.blocks@.len() == self.blocks.len());
        }
        let mut block_bits = self.blocks[idx_proxy.real_idx];
        let mut val: u64 = (block_bits & idx_proxy.first_mask) >> idx_proxy.first_offset;
        block_bits = (block_bits & !idx_proxy.first_mask) | (new_val << idx_proxy.first_offset);
        self.blocks[idx_proxy.real_idx] = block_bits;
        if idx_proxy.second_mask != 0 {
            block_bits = self.blocks[idx_proxy.real_idx + 1];
            val = val | ((block_bits & idx_proxy.second_mask) << idx_proxy.second_offset);
            block_bits = (block_bits & !idx_proxy.second_mask) | (new_val >> idx_proxy.second_offset);
            self.blocks[idx_proxy.real_idx + 1] = block_bits;
        }
        val
    }

    /// Writes `new_val` at the coordinate `idx_proxy`.
    pub(crate) fn write_val_with_idx_proxy(&mut self, proto: BitProto, idx_proxy: IdxProxy, new_val: u64)
        requires
            addressable(old(self).storage(), proto, idx_proxy),
            new_val <= proto.MASK,
        ensures
            final(self).storage() == store(
                old(self).storage(),
                idx_proxy.bitwise_idx * proto.BITS,
                proto.BITS as int,
                new_val,
            ),
            final(self).spec_len() == old(self).spec_len(),
            final(self).true_cap() == old(self).true_cap(),
    {
        proof {
            lemma_addressable(self.storage(), proto, idx_proxy);
            assert(self.blocks@.len() == self.blocks.len());
        }
        let mut block_bits = self.blocks[idx_proxy.real_idx];
        block_bits = (block_bits & !idx_proxy.first_mask) | (new_val << idx_proxy.first_offset);
        self.blocks[idx_proxy.real_idx] = block_bits;
        if idx_proxy.second_mask != 0 {
            block_bits = self.blocks[idx_proxy.real_idx + 1];
            block_bits = (block_bits & !idx_proxy.second_mask) | (new_val >> idx_proxy.second_offset);
            self.blocks[idx_proxy.real_idx + 1] = block_bits;
        }
    }

    /// Exchanges the elements at two coordinates below the length, by way
    /// of two scratch values.
    pub(crate) fn swap_vals_with_idx_proxy(&mut self, proto: BitProto, proxy_a: IdxProxy, proxy_b: IdxProxy)
        requires
            old(self).wf(proto),
            proxy_a == proto.coordinate(proxy_a.bitwise_idx),
            proxy_b == proto.coordinate(proxy_b.bitwise_idx),
            proxy_a.bitwise_idx < old(self).spec_len(),
            proxy_b.bitwise_idx < old(self).spec_len(),
        ensures
            final(self).wf(proto),
            final(self).view(proto) == old(self).view(proto).update(
                proxy_a.bitwise_idx as int,
                old(self).view(proto)[proxy_b.bitwise_idx as int],
            ).update(proxy_b.bitwise_idx as int, old(self).view(proto)[proxy_a.bitwise_idx as int]),
            final(self).storage() == swapped(
                old(self).storage(),
                proto.BITS as int,
                proxy_a.bitwise_idx as int,
                proxy_b.bitwise_idx as int,
            ),
            final(self).spec_len() == old(self).spec_len(),
            final(self).true_cap() == old(self).true_cap(),
    {
        let ghost width = proto.BITS as int;
        let ghost len = self.len as int;
        let ghost a = proxy_a.bitwise_idx as int;
        let ghost b = proxy_b.bitwise_idx as int;
        proof {
            self.lemma_wf_bounds(proto);
            lemma_element_within(width, a, len);
            lemma_element_within(width, b, len);
        }
        let ghost s0 = self.storage();
        let val_a = self.replace_val_with_idx_proxy(proto, proxy_a, 0);
        let ghost s1 = self.storage();
        proof {
            lemma_store_written(s0, a * width, width, 0);
            lemma_written_elements(s0, s1, width, a, 0, len);
        }
        let val_b = self.replace_val_with_idx_proxy(proto, proxy_b, 0);
        let ghost s2 = self.storage();
        proof {
            lemma_store_written(s1, b * width, width, 0);
            lemma_written_elements(s1, s2, width, b, 0, len);
            assert(val_b == elements(s1, width, len)[b]);
        }
        self.write_val_with_idx_proxy(proto, proxy_a, val_b);
        let ghost s3 = self.storage();
        proof {
            lemma_store_written(s2, a * width, width, val_b);
            lemma_written_elements(s2, s3, width, a, val_b, len);
        }
        self.write_val_with_idx_proxy(proto, proxy_b, val_a);
        proof {
            lemma_store_written(s3, b * width, width, val_a);
            lemma_written_elements(s3, self.storage(), width, b, val_a, len);
            assert(val_a == elements(s0, width, len)[a]);
            assert(self.view(proto) =~= old(self).view(proto).update(a, old(self).view(proto)[b]).update(
                b,
                old(self).view(proto)[a],
            ));
            let first = element_at(s0, width, a);
            let second = element_at(s0, width, b);
            lemma_window_bits(s0, b * width, width);
            let half = store(s0, a * width, width, second);
            let whole = store(half, b * width, width, first);
            lemma_store_written(s0, a * width, width, second);
            lemma_store_written(half, b * width, width, first);
            assert forall|k: int| 0 <= k < 64 * s0.len() implies #[trigger] storage_bit(self.storage(), k)
                == storage_bit(whole, k) by {
                assert(storage_bit(s3, k) == storage_bit(s3, k));
                assert(storage_bit(s2, k) == storage_bit(s2, k));
                assert(storage_bit(s1, k) == storage_bit(s1, k));
                assert(storage_bit(half, k) == storage_bit(half, k));
                if a != b {
                    assert(val_b == second);
                }
            }
            lemma_storage_ext(self.storage(), whole);
        }
    }

    /// Clears the last element, writes it at `pop_proxy` and returns the
    /// element that was there. The length is left as it is.
    pub(crate) fn swap_pop_val_with_idx_proxy(&mut self, proto: BitProto, pop_proxy: IdxProxy, last_proxy: IdxProxy) -> (val:
        u64)
        requires
            old(self).wf(proto),
            pop_proxy == proto.coordinate(pop_proxy.bitwise_idx),
            last_proxy == proto.coordinate(last_proxy.bitwise_idx),
            pop_proxy.bitwise_idx < last_proxy.bitwise_idx,
            last_proxy.bitwise_idx == old(self).spec_len() - 1,
        ensures
            val == old(self).view(proto)[pop_proxy.bitwise_idx as int],
            val <= proto.MASK,
            final(self).view(proto) == old(self).view(proto).update(
                pop_proxy.bitwise_idx as int,
                old(self).view(proto).last(),
            ).update(last_proxy.bitwise_idx as int, 0),
            final(self).storage() == swap_popped(
                old(self).storage(),
                proto.BITS as int,
                pop_proxy.bitwise_idx as int,
                last_proxy.bitwise_idx as int,
            ),
            final(self).spec_len() == old(self).spec_len(),
            final(self).true_cap() == old(self).true_cap(),
            final(self).wf(proto),
    {
        let ghost width = proto.BITS as int;
        let ghost len = self.len as int;
        let ghost a = pop_proxy.bitwise_idx as int;
        let ghost b = last_proxy.bitwise_idx as int;
        proof {
            self.lemma_wf_bounds(proto);
            lemma_element_within(width, a, len);
            lemma_element_within(width, b, len);
        }
        let ghost s0 = self.storage();
        let val_last = self.replace_val_with_idx_proxy(proto, last_proxy, 0);
        let ghost s1 = self.storage();
        proof {
            lemma_store_written(s0, b * width, width, 0);
            lemma_written_elements(s0, s1, width, b, 0, len);
        }
        let val = self.replace_val_with_idx_proxy(proto, pop_proxy, val_last);
        proof {
            lemma_store_written(s1, a * width, width, val_last);
            lemma_written_elements(s1, self.storage(), width, a, val_last, len);
            assert(val == elements(s1, width, len)[a]);
            assert(val_last == elements(s0, width, len)[b]);
            assert(self.view(proto) =~= old(self).view(proto).update(a, old(self).view(proto).last()).update(b, 0));
        }
        val
    }
}

} // verus!
