//! The mathematical model of the word storage.
//!
//! The storage is a sequence of 64-bit words read as one long row of bits,
//! bit `k` of the row being bit `k % 64` of word `k / 64`. An element of
//! width `w` with index `i` is the number written in the `w` bits that start
//! at bit `i * w`, lowest bit first.

use vstd::prelude::*;
use crate::bits::{
    bit_of, lemma_bits_ext, lemma_fits_bits, lemma_logic_bits, lemma_low_mask_bits, lemma_shl_bits,
    lemma_shr_bits, low_mask,
};

verus! {

/// Bit `k` of the storage.
pub open spec fn storage_bit(blocks: Seq<u64>, k: int) -> bool {
    bit_of(blocks[k / 64], (k % 64) as u64)
}

/// The number written in the `width` bits of the storage that start at bit
/// `first_bit`.
pub open spec fn window(blocks: Seq<u64>, first_bit: int, width: int) -> u64 {
    let word = first_bit / 64;
    let off = (first_bit % 64) as u64;
    if off + width <= 64 {
        (blocks[word] >> off) & low_mask(width as u64)
    } else {
        ((blocks[word] >> off) | (blocks[word + 1] << ((64 - off) as u64))) & low_mask(width as u64)
    }
}

/// The element with index `i` among elements of `width` bits.
pub open spec fn element_at(blocks: Seq<u64>, width: int, i: int) -> u64 {
    window(blocks, i * width, width)
}

/// The first `len` elements of `width` bits.
pub open spec fn elements(blocks: Seq<u64>, width: int, len: int) -> Seq<u64> {
    Seq::new(len as nat, |i: int| element_at(blocks, width, i))
}

/// The storage after `val` has been written into the `width` bits that
/// start at bit `first_bit`.
pub open spec fn store(blocks: Seq<u64>, first_bit: int, width: int, val: u64) -> Seq<u64> {
    let word = first_bit / 64;
    let off = (first_bit % 64) as u64;
    let mask = low_mask(width as u64);
    let first = blocks.update(word, (blocks[word] & !(mask << off)) | (val << off));
    if off + width <= 64 {
        first
    } else {
        let rest = (64 - off) as u64;
        first.update(word + 1, (blocks[word + 1] & !(mask >> rest)) | (val >> rest))
    }
}

/// Whether `after` is `before` with the bits of `val` in the `width` bits
/// from `first_bit` on, and every other bit as it was.
pub open spec fn written(before: Seq<u64>, after: Seq<u64>, first_bit: int, width: int, val: u64) -> bool {
    &&& after.len() == before.len()
    &&& forall|k: int|
        0 <= k < 64 * before.len() ==> #[trigger] storage_bit(after, k) == (if first_bit <= k < first_bit + width {
            bit_of(val, (k - first_bit) as u64)
        } else {
            storage_bit(before, k)
        })
}

/// The bits of a window are the storage bits it covers.
pub proof fn lemma_window_bits(blocks: Seq<u64>, first_bit: int, width: int)
    requires
        0 <= first_bit,
        1 <= width <= 64,
        first_bit + width <= 64 * blocks.len(),
    ensures
        forall|j: u64|
            j < 64 ==> #[trigger] bit_of(window(blocks, first_bit, width), j) == (j < width && storage_bit(
                blocks,
                first_bit + j,
            )),
        window(blocks, first_bit, width) <= low_mask(width as u64),
{
    lemma_low_mask_bits();
    lemma_shl_bits();
    lemma_shr_bits();
    lemma_logic_bits();
    crate::bits::lemma_mask_fits();
    let word = first_bit / 64;
    let off = (first_bit % 64) as u64;
    let mask = low_mask(width as u64);
    let value = window(blocks, first_bit, width);
    assert forall|j: u64| j < 64 implies #[trigger] bit_of(value, j) == (j < width && storage_bit(
        blocks,
        first_bit + j,
    )) by {
        assert(bit_of(mask, j) == (j < width));
        if j < width {
            if off + j < 64 {
                assert((first_bit + j) / 64 == word);
                assert((first_bit + j) % 64 == off + j);
            } else {
                assert((first_bit + j) / 64 == word + 1);
                assert((first_bit + j) % 64 == off + j - 64);
            }
        }
    }
}

/// Two windows over equal bits hold equal numbers.
pub proof fn lemma_window_eq(a: Seq<u64>, a_bit: int, b: Seq<u64>, b_bit: int, width: int)
    requires
        0 <= a_bit,
        0 <= b_bit,
        1 <= width <= 64,
        a_bit + width <= 64 * a.len(),
        b_bit + width <= 64 * b.len(),
        forall|k: int| a_bit <= k < a_bit + width ==> #[trigger] storage_bit(a, k) == storage_bit(b, k - a_bit + b_bit),
    ensures
        window(a, a_bit, width) == window(b, b_bit, width),
{
    lemma_window_bits(a, a_bit, width);
    lemma_window_bits(b, b_bit, width);
    let x = window(a, a_bit, width);
    let y = window(b, b_bit, width);
    assert forall|j: u64| j < 64 implies bit_of(x, j) == bit_of(y, j) by {
        if j < width {
            assert(storage_bit(a, a_bit + j) == storage_bit(b, (a_bit + j) - a_bit + b_bit));
        }
    }
    lemma_bits_ext(x, y);
}

/// A window over the bits of `val` holds `val`.
pub proof fn lemma_window_is(blocks: Seq<u64>, first_bit: int, width: int, val: u64)
    requires
        0 <= first_bit,
        1 <= width <= 64,
        first_bit + width <= 64 * blocks.len(),
        val <= low_mask(width as u64),
        forall|k: int|
            first_bit <= k < first_bit + width ==> #[trigger] storage_bit(blocks, k) == bit_of(
                val,
                (k - first_bit) as u64,
            ),
    ensures
        window(blocks, first_bit, width) == val,
{
    lemma_window_bits(blocks, first_bit, width);
    lemma_fits_bits(val, width as u64);
    let x = window(blocks, first_bit, width);
    assert forall|j: u64| j < 64 implies bit_of(x, j) == bit_of(val, j) by {
        if j < width {
            assert(storage_bit(blocks, first_bit + j) == bit_of(val, ((first_bit + j) - first_bit) as u64));
        }
    }
    lemma_bits_ext(x, val);
}

/// Storing a value changes the bits of its window to the bits of the
/// value, and no other bit.
pub proof fn lemma_store_written(blocks: Seq<u64>, first_bit: int, width: int, val: u64)
    requires
        0 <= first_bit,
        1 <= width <= 64,
        first_bit + width <= 64 * blocks.len(),
        val <= low_mask(width as u64),
    ensures
        written(blocks, store(blocks, first_bit, width, val), first_bit, width, val),
{
    lemma_low_mask_bits();
    lemma_shl_bits();
    lemma_shr_bits();
    lemma_logic_bits();
    lemma_fits_bits(val, width as u64);
    let word = first_bit / 64;
    let off = (first_bit % 64) as u64;
    let mask = low_mask(width as u64);
    let after = store(blocks, first_bit, width, val);
    assert forall|k: int| 0 <= k < 64 * blocks.len() implies #[trigger] storage_bit(after, k) == (if first_bit <= k
        < first_bit + width {
        bit_of(val, (k - first_bit) as u64)
    } else {
        storage_bit(blocks, k)
    }) by {
        let kw = k / 64;
        let j = (k % 64) as u64;
        if kw == word {
            assert(bit_of(mask << off, j) == (j >= off && bit_of(mask, (j - off) as u64)));
            if j >= off {
                let d = (j - off) as u64;
                assert(bit_of(mask, d) == (d < width));
            }
        } else if kw == word + 1 && off + width > 64 {
            let rest = (64 - off) as u64;
            assert(bit_of(mask >> rest, j) == (j + rest < 64 && bit_of(mask, (j + rest) as u64)));
            if j + rest < 64 {
                let d = (j + rest) as u64;
                assert(bit_of(mask, d) == (d < width));
            }
        }
    }
}

/// Elements lie one after the other: the one with the smaller index ends
/// where, or before, the other begins.
pub proof fn lemma_element_order(width: int, m: int, i: int)
    requires
        1 <= width,
        0 <= m < i,
    ensures
        (m + 1) * width <= i * width,
        0 <= m * width,
        m * width + width == (m + 1) * width,
{
    assert((m + 1) * width <= i * width) by (nonlinear_arith)
        requires
            1 <= width,
            0 <= m < i,
    ;
    assert(0 <= m * width) by (nonlinear_arith)
        requires
            1 <= width,
            0 <= m,
    ;
    assert(m * width + width == (m + 1) * width) by (nonlinear_arith);
}

/// An element below `len` lies within the bits of `len` elements.
pub proof fn lemma_element_within(width: int, i: int, len: int)
    requires
        1 <= width,
        0 <= i < len,
    ensures
        0 <= i * width,
        i * width + width <= len * width,
        (i + 1) * width == i * width + width,
{
    assert((i + 1) * width == i * width + width) by (nonlinear_arith);
    assert(0 <= i * width) by (nonlinear_arith)
        requires
            1 <= width,
            0 <= i,
    ;
    assert(i * width + width <= len * width) by (nonlinear_arith)
        requires
            1 <= width,
            0 <= i < len,
    ;
}

/// An element whose bits were not touched keeps its value.
pub proof fn lemma_element_kept(before: Seq<u64>, after: Seq<u64>, width: int, m: int)
    requires
        1 <= width <= 64,
        0 <= m,
        after.len() == before.len(),
        (m + 1) * width <= 64 * before.len(),
        forall|k: int| m * width <= k < (m + 1) * width ==> #[trigger] storage_bit(after, k) == storage_bit(before, k),
    ensures
        element_at(after, width, m) == element_at(before, width, m),
{
    lemma_element_within(width, m, m + 1);
    lemma_window_eq(after, m * width, before, m * width, width);
}

/// After a value is written as element `i`, element `i` is that value and
/// every other element is what it was.
pub proof fn lemma_written_elements(before: Seq<u64>, after: Seq<u64>, width: int, i: int, val: u64, len: int)
    requires
        1 <= width <= 64,
        0 <= i < len,
        len * width <= 64 * before.len(),
        val <= low_mask(width as u64),
        written(before, after, i * width, width, val),
    ensures
        elements(after, width, len) == elements(before, width, len).update(i, val),
{
    let a = elements(after, width, len);
    let b = elements(before, width, len).update(i, val);
    assert forall|m: int| 0 <= m < len implies a[m] == b[m] by {
        lemma_element_within(width, m, len);
        if m == i {
            assert forall|k: int| i * width <= k < i * width + width implies #[trigger] storage_bit(after, k)
                == bit_of(val, (k - i * width) as u64) by {}
            lemma_window_is(after, i * width, width, val);
        } else {
            if m < i {
                lemma_element_order(width, m, i);
            } else {
                lemma_element_order(width, i, m);
            }
            assert forall|k: int| m * width <= k < (m + 1) * width implies #[trigger] storage_bit(after, k)
                == storage_bit(before, k) by {}
            lemma_element_kept(before, after, width, m);
        }
    }
    assert(a =~= b);
}

/// After a value is written just behind `len` elements, the elements are
/// the old ones followed by the value.
pub proof fn lemma_written_behind(before: Seq<u64>, after: Seq<u64>, width: int, val: u64, len: int)
    requires
        1 <= width <= 64,
        0 <= len,
        (len + 1) * width <= 64 * before.len(),
        val <= low_mask(width as u64),
        written(before, after, len * width, width, val),
    ensures
        elements(after, width, len + 1) == elements(before, width, len).push(val),
{
    lemma_written_elements(before, after, width, len, val, len + 1);
    assert(elements(before, width, len + 1).update(len, val) =~= elements(before, width, len).push(val));
}

/// Whether `after` is `before` followed by zero words.
pub open spec fn zero_extended(before: Seq<u64>, after: Seq<u64>) -> bool {
    &&& before.len() <= after.len()
    &&& forall|j: int| 0 <= j < before.len() ==> #[trigger] after[j] == before[j]
    &&& forall|j: int| before.len() <= j < after.len() ==> #[trigger] after[j] == 0
}

/// Two storages of the same length with the same bits are the same.
pub proof fn lemma_storage_ext(a: Seq<u64>, b: Seq<u64>)
    requires
        a.len() == b.len(),
        forall|k: int| 0 <= k < 64 * a.len() ==> #[trigger] storage_bit(a, k) == storage_bit(b, k),
    ensures
        a == b,
{
    assert forall|j: int| 0 <= j < a.len() implies a[j] == b[j] by {
        assert forall|t: u64| t < 64 implies bit_of(a[j], t) == bit_of(b[j], t) by {
            let k = 64 * j + t;
            assert(k / 64 == j && k % 64 == t);
            assert(storage_bit(a, k) == storage_bit(b, k));
        }
        lemma_bits_ext(a[j], b[j]);
    }
    assert(a =~= b);
}

/// Whether the words from `from_word` on are left alone: those that
/// `before` has are the same in `after`, and those that `after` has in
/// addition are zero.
pub open spec fn words_kept_from(before: Seq<u64>, after: Seq<u64>, from_word: int) -> bool {
    &&& forall|j: int| from_word <= j < before.len() && j < after.len() ==> #[trigger] after[j] == before[j]
    &&& forall|j: int| from_word <= j < after.len() && before.len() <= j ==> #[trigger] after[j] == 0
}

/// Writing an element that lies within the first `from_word` words leaves
/// the words from `from_word` on alone.
pub proof fn lemma_store_keeps_words(blocks: Seq<u64>, first_bit: int, width: int, val: u64, from_word: int)
    requires
        0 <= first_bit,
        1 <= width <= 64,
        first_bit + width <= 64 * from_word,
        first_bit + width <= 64 * blocks.len(),
    ensures
        store(blocks, first_bit, width, val).len() == blocks.len(),
        words_kept_from(blocks, store(blocks, first_bit, width, val), from_word),
{
    let word = first_bit / 64;
    let off = first_bit % 64;
    let after = store(blocks, first_bit, width, val);
    assert(word < from_word);
    if off + width > 64 {
        assert(word + 1 < from_word);
        assert(word + 1 < blocks.len());
    }
    assert forall|j: int| from_word <= j < blocks.len() && j < after.len() implies #[trigger] after[j]
        == blocks[j] by {}
}

/// Words that are left alone from some word on are left alone from every
/// later word on.
pub proof fn lemma_words_kept_later(a: Seq<u64>, b: Seq<u64>, from_word: int, later: int)
    requires
        from_word <= later,
        words_kept_from(a, b, from_word),
    ensures
        words_kept_from(a, b, later),
{
}

/// Words that are left alone twice are left alone.
pub proof fn lemma_words_kept_twice(a: Seq<u64>, b: Seq<u64>, c: Seq<u64>, from_word: int)
    requires
        a.len() <= b.len() <= c.len(),
        words_kept_from(a, b, from_word),
        words_kept_from(b, c, from_word),
    ensures
        words_kept_from(a, c, from_word),
{
    assert forall|j: int| from_word <= j < a.len() && j < c.len() implies #[trigger] c[j] == a[j] by {
        assert(b[j] == a[j]);
    }
    assert forall|j: int| from_word <= j < c.len() && a.len() <= j implies #[trigger] c[j] == 0 by {
        if j < b.len() {
            assert(b[j] == 0);
        }
    }
}

/// The storage after the elements with indices `a` and `b` have changed
/// places: each is written where the other was.
pub open spec fn swapped(blocks: Seq<u64>, width: int, a: int, b: int) -> Seq<u64> {
    store(
        store(blocks, a * width, width, element_at(blocks, width, b)),
        b * width,
        width,
        element_at(blocks, width, a),
    )
}

/// The storage after the element with index `last` was cleared and written
/// over the element with index `idx`.
pub open spec fn swap_popped(blocks: Seq<u64>, width: int, idx: int, last: int) -> Seq<u64> {
    store(store(blocks, last * width, width, 0), idx * width, width, element_at(blocks, width, last))
}

/// An element that changes places with itself leaves the storage as it
/// is.
pub proof fn lemma_swapped_self(blocks: Seq<u64>, width: int, a: int)
    requires
        1 <= width <= 64,
        0 <= a,
        (a + 1) * width <= 64 * blocks.len(),
    ensures
        swapped(blocks, width, a, a) == blocks,
{
    lemma_element_within(width, a, a + 1);
    lemma_window_bits(blocks, a * width, width);
    let val = element_at(blocks, width, a);
    let half = store(blocks, a * width, width, val);
    lemma_store_written(blocks, a * width, width, val);
    lemma_store_written(half, a * width, width, val);
    let whole = swapped(blocks, width, a, a);
    assert forall|k: int| 0 <= k < 64 * blocks.len() implies #[trigger] storage_bit(whole, k) == storage_bit(
        blocks,
        k,
    ) by {
        assert(storage_bit(half, k) == storage_bit(half, k));
        if a * width <= k < a * width + width {
            let j = (k - a * width) as u64;
            assert(bit_of(val, j) == (j < width && storage_bit(blocks, a * width + j)));
        }
    }
    lemma_storage_ext(whole, blocks);
}

/// The storage `blocks` followed by zero words up to `words` words in all.
pub open spec fn zero_padded(blocks: Seq<u64>, words: int) -> Seq<u64> {
    blocks + Seq::new((words - blocks.len()) as nat, |j: int| 0u64)
}

/// A storage that was extended by zero words is the old one padded with
/// zeros to the new number of words.
pub proof fn lemma_zero_padded(before: Seq<u64>, after: Seq<u64>)
    requires
        zero_extended(before, after),
    ensures
        after == zero_padded(before, after.len() as int),
{
    assert(after =~= zero_padded(before, after.len() as int));
}

/// Whether `after` is the first words of `before`.
pub open spec fn truncated(before: Seq<u64>, after: Seq<u64>) -> bool {
    &&& after.len() <= before.len()
    &&& forall|j: int| 0 <= j < after.len() ==> #[trigger] after[j] == before[j]
}

/// Two storages with the same first words hold the same elements in them.
pub proof fn lemma_prefix_elements(a: Seq<u64>, b: Seq<u64>, width: int, len: int)
    requires
        1 <= width <= 64,
        0 <= len,
        len * width <= 64 * a.len(),
        len * width <= 64 * b.len(),
        forall|j: int| 0 <= j < a.len() && j < b.len() ==> #[trigger] a[j] == b[j],
    ensures
        elements(a, width, len) == elements(b, width, len),
{
    assert forall|m: int| 0 <= m < len implies element_at(a, width, m) == element_at(b, width, m) by {
        lemma_element_within(width, m, len);
        assert forall|k: int| m * width <= k < m * width + width implies #[trigger] storage_bit(a, k)
            == storage_bit(b, k - m * width + m * width) by {
            assert(a[k / 64] == b[k / 64]);
        }
        lemma_window_eq(a, m * width, b, m * width, width);
    }
    assert(elements(a, width, len) =~= elements(b, width, len));
}

} // verus!
