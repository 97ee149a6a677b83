//! Bit-width prototypes and element addressing.
//!
//! A [`BitProto`] fixes the width of an element. From it and a logical index
//! [`BitProto::idx_proxy`] computes where in the word storage the element
//! lies: the word that holds its first bit, the offset of that bit, and the
//! masks that select the element's part of that word and of the next.

use vstd::prelude::*;
use crate::bits::{low_mask, BitUtil, WORD_BITS};
use crate::error::BitVecError;

verus! {

/// The largest number of storage words whose bits can still be counted in a
/// `usize`.
pub const MAX_TRUE_CAP: usize = usize::MAX / 64;

/// The number of bits in [`MAX_TRUE_CAP`] words.
pub const MAX_TRUE_BITS: usize = (usize::MAX / 64) * 64;

/// The number of whole words needed to hold `total_bits` bits.
pub open spec fn words_for_bits(total_bits: int) -> int {
    (total_bits + 63) / 64
}

/// The width of an element together with what follows from it.
#[allow(non_snake_case)]
#[derive(Clone, Copy, Debug)]
pub struct BitProto {
    /// The `BITS` lowest bits set.
    pub MASK: u64,
    /// Bits per element, from 1 to 64.
    pub BITS: usize,
    /// The most elements of this width that any vector can hold.
    pub MAX_CAPACITY: usize,
}

/// Where an element lies in the word storage.
///
/// Coordinates compare by their fields in the order given, the index
/// first, so that coordinates of one prototype compare as their indices.
#[derive(Clone, Copy, Debug, PartialEq, Eq, PartialOrd, Ord)]
pub struct IdxProxy {
    /// The element's logical index.
    pub bitwise_idx: usize,
    /// Index of the word that holds the element's first bit.
    pub real_idx: usize,
    /// Offset of the element's first bit within that word.
    pub first_offset: u64,
    /// The element's bits within the first word.
    pub first_mask: u64,
    /// How many of the element's bits the first word can hold at most:
    /// 64 less `first_offset`.
    pub second_offset: u64,
    /// The element's bits within the following word; 0 if it has none there.
    pub second_mask: u64,
}

impl IdxProxy {
    /// The logical index that this coordinate was computed for.
    pub fn idx(&self) -> (r: usize)
        ensures
            r == self.bitwise_idx,
    {
        self.bitwise_idx
    }

    /// The number of words that the elements before this one occupy, a
    /// partly used word counted whole.
    pub fn as_real_len_or_cap(&self) -> (words: usize)
        requires
            self.real_idx < usize::MAX,
        ensures
            words == self.real_idx + (if self.first_offset != 0 {
                1int
            } else {
                0int
            }),
    {
        let extra = BitUtil::one_if_val_isnt_zero(self.first_offset);
        self.real_idx + extra as usize
    }
}

/// For a width that divides 64, word index and bit offset of an element
/// are a shift and a mask of its index.
proof fn lemma_power_of_two_addressing(i: u64)
    by (bit_vector)
    ensures
        (i >> 6u64) == i / 64 && (i & 63u64) == i % 64,
        (i >> 5u64) == ((i * 2) / 64) as u64 && ((i & 31u64) << 1u64) == ((i * 2) % 64) as u64,
        (i >> 4u64) == ((i * 4) / 64) as u64 && ((i & 15u64) << 2u64) == ((i * 4) % 64) as u64,
        (i >> 3u64) == ((i * 8) / 64) as u64 && ((i & 7u64) << 3u64) == ((i * 8) % 64) as u64,
        (i >> 2u64) == ((i * 16) / 64) as u64 && ((i & 3u64) << 4u64) == ((i * 16) % 64) as u64,
        (i >> 1u64) == ((i * 32) / 64) as u64 && ((i & 1u64) << 5u64) == ((i * 32) % 64) as u64,
{
}

impl BitProto {
    /// A prototype is well formed when its width is from 1 to 64 and its
    /// mask and maximum capacity are the ones that follow from the width.
    pub open spec fn wf(&self) -> bool {
        &&& 1 <= self.BITS <= 64
        &&& self.MASK == low_mask(self.BITS as u64)
        &&& self.MAX_CAPACITY == MAX_TRUE_BITS / self.BITS
    }

    /// The coordinate of the element with index `bitwise_idx`: its first bit
    /// is bit `bitwise_idx * BITS` of the storage.
    pub open spec fn coordinate(&self, bitwise_idx: usize) -> IdxProxy {
        let first_bit = bitwise_idx * self.BITS;
        let first_offset = (first_bit % 64) as u64;
        let second_offset = (64 - first_offset) as u64;
        IdxProxy {
            bitwise_idx,
            real_idx: (first_bit / 64) as usize,
            first_offset,
            first_mask: self.MASK << first_offset,
            second_offset,
            second_mask: if second_offset == 64 {
                0
            } else {
                self.MASK >> second_offset
            },
        }
    }

    /// The prototype for elements of `bit_width` bits.
    pub fn create(bit_width: usize) -> (proto: BitProto)
        requires
            1 <= bit_width <= 64,
        ensures
            proto.wf(),
            proto.BITS == bit_width,
    {
        let mask: u64 = if bit_width == WORD_BITS {
            u64::MAX
        } else {
            let w = bit_width as u64;
            assert((1u64 << w) >= 1) by (bit_vector)
                requires
                    w < 64,
            ;
            (1u64 << w) - 1
        };
        BitProto { MASK: mask, BITS: bit_width, MAX_CAPACITY: MAX_TRUE_BITS / bit_width }
    }

    /// Computes where the element with index `bitwise_idx` lies.
    ///
    /// For a width that divides 64 the word index and the offset come from a
    /// shift and a mask of the index; for any other width from the product
    /// of index and width.
    pub fn idx_proxy(proto: BitProto, bitwise_idx: usize) -> (proxy: IdxProxy)
        requires
            proto.wf(),
            bitwise_idx <= proto.MAX_CAPACITY,
        ensures
            proxy == proto.coordinate(bitwise_idx),
            proxy.first_offset < 64,
            proxy.real_idx * 64 + proxy.first_offset == bitwise_idx * proto.BITS,
    {
        let i = bitwise_idx as u64;
        let ghost first_bit = bitwise_idx * proto.BITS;
        proof {
            lemma_capacity_bits(proto, bitwise_idx);
            lemma_power_of_two_addressing(i);
            lemma_power_of_two_addressing(first_bit as u64);
        }
        let (word, first_offset): (u64, u64) = match proto.BITS {
            1 => (i >> 6u64, i & 63u64),
            2 => (i >> 5u64, (i & 31u64) << 1u64),
            4 => (i >> 4u64, (i & 15u64) << 2u64),
            8 => (i >> 3u64, (i & 7u64) << 3u64),
            16 => (i >> 2u64, (i & 3u64) << 4u64),
            32 => (i >> 1u64, (i & 1u64) << 5u64),
            64 => (i, 0),
            _ => {
                let total_bits = i * (proto.BITS as u64);
                (total_bits >> 6u64, total_bits & 63u64)
            },
        };
        assert(word == first_bit / 64 && first_offset == first_bit % 64);
        let real_idx = word as usize;
        let second_offset = 64 - first_offset;
        let first_mask = proto.MASK << first_offset;
        let second_mask = BitUtil::right_shift_discard_if_ubits(proto.MASK, second_offset);
        IdxProxy { bitwise_idx, real_idx, first_offset, first_mask, second_offset, second_mask }
    }

    /// The number of storage words that `bitwise_count` elements occupy,
    /// a partly used word counted whole.
    pub fn calc_block_count_from_bitwise_count(proto: BitProto, bitwise_count: usize) -> (blocks: usize)
        requires
            proto.wf(),
            bitwise_count <= proto.MAX_CAPACITY,
        ensures
            blocks == words_for_bits(bitwise_count * proto.BITS),
            blocks <= MAX_TRUE_CAP,
    {
        proof {
            lemma_capacity_bits(proto, bitwise_count);
            lemma_power_of_two_addressing((bitwise_count * proto.BITS) as u64);
        }
        let total_bits = (bitwise_count * proto.BITS) as u64;
        let real_count = (total_bits >> 6u64) as usize;
        let bit_offset = total_bits & 63u64;
        let extra = BitUtil::one_if_val_isnt_zero(bit_offset);
        real_count + extra as usize
    }

    /// The number of elements that fit in `block_count` storage words.
    pub fn calc_bitwise_count_from_block_count(proto: BitProto, block_count: usize) -> (count: usize)
        requires
            proto.wf(),
            block_count <= MAX_TRUE_CAP,
        ensures
            count == (block_count * 64) / (proto.BITS as int),
            count <= proto.MAX_CAPACITY,
    {
        let total_bits = BitUtil::calc_total_bits_in_num_usize(block_count);
        proof {
            lemma_div_monotone(total_bits as int, MAX_TRUE_BITS as int, proto.BITS as int);
        }
        total_bits / proto.BITS
    }

    /// Tells whether `val` fits an element of this width.
    pub fn check_value(proto: BitProto, val: u64) -> (res: Result<(), BitVecError>)
        ensures
            val <= proto.MASK ==> res == Ok::<(), BitVecError>(()),
            val > proto.MASK ==> res == Err::<(), BitVecError>(
                BitVecError::ValueTooWide { value: val, mask: proto.MASK },
            ),
    {
        if val > proto.MASK {
            Err(BitVecError::ValueTooWide { value: val, mask: proto.MASK })
        } else {
            Ok(())
        }
    }
}

/// The bits of at most `MAX_CAPACITY` elements can be counted in a `usize`.
pub proof fn lemma_capacity_bits(proto: BitProto, count: usize)
    requires
        proto.wf(),
        count <= proto.MAX_CAPACITY,
    ensures
        count * proto.BITS <= MAX_TRUE_BITS,
        MAX_TRUE_BITS == MAX_TRUE_CAP * 64,
        MAX_TRUE_BITS <= usize::MAX,
{
    assert(count * proto.BITS <= (MAX_TRUE_BITS / proto.BITS) * proto.BITS) by (nonlinear_arith)
        requires
            count <= MAX_TRUE_BITS / proto.BITS,
            proto.BITS >= 1,
    ;
    assert((MAX_TRUE_BITS / proto.BITS) * proto.BITS <= MAX_TRUE_BITS) by (nonlinear_arith)
        requires
            proto.BITS >= 1,
    ;
}

/// Division by a positive number keeps the order.
pub proof fn lemma_div_monotone(a: int, b: int, d: int)
    requires
        0 <= a <= b,
        d >= 1,
    ensures
        a / d <= b / d,
{
    vstd::arithmetic::div_mod::lemma_div_is_ordered(a, b, d);
}

} // verus!
