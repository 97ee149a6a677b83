//! Laws that relate the operations of a packed vector to one another.
//!
//! Each law is stated over the views and the spec functions that the
//! contracts of the operations use, so that it applies to whatever those
//! contracts promise.

use vstd::prelude::*;
use crate::bits::{
    bit_of, count_ones, lemma_count_ones_of_run, lemma_logic_bits, lemma_low_mask_bits, lemma_shl_bits, lemma_shr_bits,
    low_mask,
};
use crate::capacity::Grow;
use crate::proto::{lemma_capacity_bits, words_for_bits, BitProto};
use crate::raw_bitvec::{lemma_beyond_cap, lemma_cap_floor, lemma_straddle, RawBitVec};
use crate::storage::{
    element_at, elements, lemma_element_within, lemma_store_written, lemma_window_bits, lemma_window_is, storage_bit,
    store, window,
};

verus! {

/// Addressing, reading and writing agree with the plain bit offset.
///
/// The element with index `i` is the number whose bit `j` is bit
/// `i * width + j` of the storage. Writing a value changes these bits to the
/// bits of the value and no other bit, so that reading where a value was
/// written gives the value back.
pub proof fn law_round_trip_addressing(blocks: Seq<u64>, width: int, i: int, val: u64)
    requires
        1 <= width <= 64,
        0 <= i,
        (i + 1) * width <= 64 * blocks.len(),
        val <= low_mask(width as u64),
    ensures
        forall|j: u64|
            j < 64 ==> #[trigger] bit_of(element_at(blocks, width, i), j) == (j < width && storage_bit(
                blocks,
                i * width + j,
            )),
        element_at(store(blocks, i * width, width, val), width, i) == val,
        forall|k: int|
            0 <= k < 64 * blocks.len() ==> #[trigger] storage_bit(store(blocks, i * width, width, val), k) == (if i
                * width <= k < (i + 1) * width {
                bit_of(val, (k - i * width) as u64)
            } else {
                storage_bit(blocks, k)
            }),
{
    lemma_element_within(width, i, i + 1);
    lemma_window_bits(blocks, i * width, width);
    lemma_store_written(blocks, i * width, width, val);
    let after = store(blocks, i * width, width, val);
    assert forall|k: int| i * width <= k < i * width + width implies #[trigger] storage_bit(after, k) == bit_of(
        val,
        (k - i * width) as u64,
    ) by {}
    lemma_window_is(after, i * width, width, val);
}

/// The coordinate of an element is what its bit offset gives.
///
/// With `first_bit` the index times the width: the word is
/// `first_bit / 64` and the offset `first_bit % 64`; the first mask is the
/// prototype's mask moved up by the offset; the second mask is zero where
/// the element ends within its word, which is always so for elements of 64
/// bits, and else the part of the mask that the first word could not take.
/// The two masks together have as many bits set as the element is wide.
pub proof fn law_coordinate(proto: BitProto, idx: usize)
    requires
        proto.wf(),
        idx <= proto.MAX_CAPACITY,
    ensures
        proto.coordinate(idx).bitwise_idx == idx,
        proto.coordinate(idx).real_idx == (idx * proto.BITS) / 64,
        proto.coordinate(idx).first_offset == (idx * proto.BITS) % 64,
        proto.coordinate(idx).second_offset == 64 - (idx * proto.BITS) % 64,
        proto.coordinate(idx).first_mask == proto.MASK << proto.coordinate(idx).first_offset,
        (idx * proto.BITS) % 64 + proto.BITS <= 64 ==> proto.coordinate(idx).second_mask == 0,
        (idx * proto.BITS) % 64 + proto.BITS > 64 ==> proto.coordinate(idx).second_mask != 0
            && proto.coordinate(idx).second_mask == proto.MASK >> proto.coordinate(idx).second_offset,
        proto.BITS == 64 ==> proto.coordinate(idx).second_mask == 0,
        count_ones(proto.coordinate(idx).first_mask) + count_ones(proto.coordinate(idx).second_mask) == proto.BITS,
{
    let width = proto.BITS as int;
    let first_bit = idx * proto.BITS;
    let offset = first_bit % 64;
    let at = proto.coordinate(idx);
    lemma_capacity_bits(proto, idx);
    lemma_straddle(proto.BITS as u64, at.first_offset);
    lemma_low_mask_bits();
    lemma_shl_bits();
    lemma_shr_bits();
    lemma_logic_bits();
    let first_end = if offset + width <= 64 {
        offset + width
    } else {
        64
    };
    assert forall|j: u64| j < 64 implies #[trigger] bit_of(at.first_mask, j) == (offset <= j < first_end) by {
        if j >= offset {
            assert(bit_of(proto.MASK, (j - offset) as u64) == (j - offset < width));
        }
    }
    lemma_count_ones_of_run(at.first_mask, offset, first_end, 64);
    let second_end = if offset + width <= 64 {
        0
    } else {
        offset + width - 64
    };
    assert forall|j: u64| j < 64 implies #[trigger] bit_of(at.second_mask, j) == (0 <= j < second_end) by {
        if offset + width > 64 {
            let up = (j + (64 - offset)) as u64;
            if j + (64 - offset) < 64 {
                assert(bit_of(proto.MASK, up) == (up < width));
            }
        }
    }
    lemma_count_ones_of_run(at.second_mask, 0, second_end, 64);
    assert(count_ones(at.first_mask) == first_end - offset);
    assert(count_ones(at.second_mask) == second_end);
    assert(count_ones(at.first_mask) + count_ones(at.second_mask) == proto.BITS);
    if proto.BITS == 64 {
        assert(idx * proto.BITS == 64 * idx) by (nonlinear_arith)
            requires
                proto.BITS == 64,
        ;
        assert(offset == 0);
    }
}

/// Every bit of an element is a bit of the storage: bit `j` of element `m`
/// is bit `m * width + j`.
pub proof fn lemma_element_bit(blocks: Seq<u64>, width: int, len: int, k: int)
    requires
        1 <= width <= 64,
        0 <= k < len * width,
        len * width <= 64 * blocks.len(),
    ensures
        0 <= k / width < len,
        0 <= k % width < width,
        storage_bit(blocks, k) == bit_of(element_at(blocks, width, k / width), (k % width) as u64),
{
    let m = k / width;
    let j = k % width;
    vstd::arithmetic::div_mod::lemma_fundamental_div_mod(k, width);
    vstd::arithmetic::div_mod::lemma_mod_bound(k, width);
    vstd::arithmetic::div_mod::lemma_div_pos_is_pos(k, width);
    assert(m * width == width * m) by (nonlinear_arith);
    assert(m < len) by (nonlinear_arith)
        requires
            m * width + j == k,
            k < len * width,
            j >= 0,
            width >= 1,
    ;
    lemma_element_within(width, m, len);
    lemma_window_bits(blocks, m * width, width);
    assert(bit_of(window(blocks, m * width, width), j as u64) == (j < width && storage_bit(blocks, m * width + j)));
}

/// Two storages that hold the same elements agree in every bit of those
/// elements. What lies behind the last element is not compared.
pub proof fn law_same_elements_same_bits(a: Seq<u64>, b: Seq<u64>, width: int, len: int)
    requires
        1 <= width <= 64,
        0 <= len,
        len * width <= 64 * a.len(),
        len * width <= 64 * b.len(),
        elements(a, width, len) == elements(b, width, len),
    ensures
        forall|k: int| 0 <= k < len * width ==> #[trigger] storage_bit(a, k) == storage_bit(b, k),
{
    assert forall|k: int| 0 <= k < len * width implies #[trigger] storage_bit(a, k) == storage_bit(b, k) by {
        lemma_element_bit(a, width, len, k);
        lemma_element_bit(b, width, len, k);
        let m = k / width;
        assert(elements(a, width, len)[m] == element_at(a, width, m));
        assert(elements(b, width, len)[m] == element_at(b, width, m));
    }
}

/// Pushing values and then popping as many gives the values back, last
/// first, and leaves the elements that were there before.
///
/// `before` is the view at the start and `pushed` the values in the order
/// in which they were pushed. After `j` pops the view is `before + pushed`
/// without its last `j` elements, and the next pop returns the last of
/// those.
pub proof fn law_push_pop(before: Seq<u64>, pushed: Seq<u64>)
    ensures
        forall|j: int|
            #![trigger pushed[pushed.len() - 1 - j]]
            0 <= j < pushed.len() ==> (before + pushed).take(before.len() + pushed.len() - j).last() == pushed[pushed.len()
                - 1 - j],
        (before + pushed).take(before.len() as int) == before,
        forall|s: Seq<u64>, v: u64| #![trigger s.push(v)] s.push(v).last() == v && s.push(v).drop_last() == s,
{
    assert((before + pushed).take(before.len() as int) =~= before);
    assert forall|s: Seq<u64>, v: u64| #![trigger s.push(v)] s.push(v).last() == v && s.push(v).drop_last() == s by {
        assert(s.push(v).drop_last() =~= s);
    }
}

/// Removing at the index where a value was just inserted returns that
/// value and restores the vector: the same elements, and in the storage
/// the same bits as far as the elements reach.
pub proof fn law_insert_remove(before: RawBitVec, inserted: RawBitVec, after: RawBitVec, proto: BitProto, i: int, val: u64)
    requires
        before.wf(proto),
        after.wf(proto),
        0 <= i <= before.spec_len(),
        inserted.view(proto) == before.view(proto).insert(i, val),
        after.view(proto) == inserted.view(proto).remove(i),
        after.spec_len() == before.spec_len(),
    ensures
        inserted.view(proto)[i] == val,
        after.view(proto) == before.view(proto),
        forall|k: int|
            0 <= k < before.spec_len() * proto.BITS ==> #[trigger] storage_bit(after.storage(), k) == storage_bit(
                before.storage(),
                k,
            ),
{
    before.lemma_wf_bounds(proto);
    assert(before.view(proto).insert(i, val).remove(i) =~= before.view(proto));
    law_same_elements_same_bits(
        after.storage(),
        before.storage(),
        proto.BITS as int,
        before.spec_len() as int,
    );
}

/// The words needed for the elements that fit the words needed for `n`
/// elements are the words needed for `n` elements: counting elements in
/// words and words in elements loses nothing.
pub proof fn law_block_count_round_trip(proto: BitProto, n: int)
    requires
        proto.wf(),
        0 <= n,
    ensures
        ({
            let words = words_for_bits(n * proto.BITS);
            let fitting = (64 * words) / (proto.BITS as int);
            &&& fitting >= n
            &&& words_for_bits(fitting * proto.BITS) == words
        }),
{
    let w = proto.BITS as int;
    let words = words_for_bits(n * w);
    let fitting = (64 * words) / w;
    assert(0 <= n * w) by (nonlinear_arith)
        requires
            0 <= n,
            1 <= w,
    ;
    lemma_cap_floor(proto, words);
    if fitting < n {
        assert((fitting + 1) * w <= n * w) by (nonlinear_arith)
            requires
                fitting + 1 <= n,
                1 <= w,
        ;
    }
    assert(n * w <= fitting * w) by (nonlinear_arith)
        requires
            n <= fitting,
            1 <= w,
    ;
}

/// The number of words that a vector has after the `steps`-th growth by a
/// push, when it started without storage and grew by pushes alone.
pub open spec fn push_ladder(proto: BitProto, steps: nat) -> int
    decreases steps,
{
    if steps == 0 {
        0
    } else {
        let words = push_ladder(proto, (steps - 1) as nat);
        let cap = (64 * words) / (proto.BITS as int);
        words_for_bits(Grow::OnePointFive.target(cap, cap + 1, proto.MAX_CAPACITY as int) * proto.BITS)
    }
}

/// Whether `words` is a rung of the ladder of [`push_ladder`].
pub open spec fn on_push_ladder(proto: BitProto, words: int) -> bool {
    exists|steps: nat| words == #[trigger] push_ladder(proto, steps)
}

/// A push never makes the capacity smaller, and it keeps a vector that
/// grew by pushes alone on the ladder of one and a half times the capacity:
/// the number of words after the push is the number before, or the rung
/// above it.
pub proof fn law_push_capacity(vec: RawBitVec, proto: BitProto)
    requires
        vec.wf(proto),
        vec.spec_len() < proto.MAX_CAPACITY,
    ensures
        vec.policy_block_count(proto, vec.spec_len() + 1, Grow::OnePointFive) >= vec.true_cap(),
        on_push_ladder(proto, vec.true_cap() as int) ==> on_push_ladder(
            proto,
            vec.policy_block_count(proto, vec.spec_len() + 1, Grow::OnePointFive),
        ),
        on_push_ladder(proto, 0),
{
    vec.lemma_wf_bounds(proto);
    let words = vec.true_cap() as int;
    let cap = vec.spec_cap(proto);
    let after = vec.policy_block_count(proto, vec.spec_len() + 1, Grow::OnePointFive);
    assert(push_ladder(proto, 0) == 0);
    if vec.spec_len() + 1 > cap {
        let target = Grow::OnePointFive.target(cap, cap + 1, proto.MAX_CAPACITY as int);
        lemma_beyond_cap(proto, target, words);
        if on_push_ladder(proto, words) {
            let steps = choose|steps: nat| words == #[trigger] push_ladder(proto, steps);
            assert(after == push_ladder(proto, steps + 1));
        }
    }
}

} // verus!
