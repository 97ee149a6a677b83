//! Moving a run of bits up or down the word storage.
//!
//! Inserting and removing elements moves every later element by a whole
//! number of bits that is rarely a whole number of words. The distance is
//! split into whole words, which are copied, and the bits left over, which
//! are rolled from each word into its neighbour. Each step is described by
//! what it does to the single bits of the storage.

use vstd::prelude::*;
use crate::bits::{bit_of, lemma_logic_bits, lemma_low_mask_bits, lemma_shl_bits, lemma_shr_bits, low_mask, BitUtil};
use crate::storage::{element_at, lemma_element_within, lemma_window_eq, storage_bit};

verus! {

/// Bits `from_bit .. end_bit` of `before` stand `by_bits` higher in
/// `after`, and the bits below `from_bit` are where they were.
pub open spec fn shifted_up(before: Seq<u64>, after: Seq<u64>, from_bit: int, end_bit: int, by_bits: int) -> bool {
    &&& after.len() == before.len()
    &&& forall|k: int| 0 <= k < from_bit ==> #[trigger] storage_bit(after, k) == storage_bit(before, k)
    &&& forall|k: int|
        from_bit + by_bits <= k < end_bit + by_bits ==> #[trigger] storage_bit(after, k) == storage_bit(
            before,
            k - by_bits,
        )
}

/// Bits `from_bit + by_bits .. end_bit` of `before` stand `by_bits` lower
/// in `after`, and the bits below `from_bit` are where they were.
pub open spec fn shifted_down(before: Seq<u64>, after: Seq<u64>, from_bit: int, end_bit: int, by_bits: int) -> bool {
    &&& after.len() == before.len()
    &&& forall|k: int| 0 <= k < from_bit ==> #[trigger] storage_bit(after, k) == storage_bit(before, k)
    &&& forall|k: int|
        from_bit <= k < end_bit - by_bits ==> #[trigger] storage_bit(after, k) == storage_bit(before, k + by_bits)
}

/// The bits `from_bit .. to_bit` are all zero.
pub open spec fn zero_bits(blocks: Seq<u64>, from_bit: int, to_bit: int) -> bool {
    forall|k: int| from_bit <= k < to_bit ==> !#[trigger] storage_bit(blocks, k)
}

/// The product of a sum is the sum of the products.
pub proof fn lemma_mul_sum(a: int, b: int, width: int)
    ensures
        (a + b) * width == a * width + b * width,
        (a - b) * width == a * width - b * width,
{
    assert((a + b) * width == a * width + b * width) by (nonlinear_arith);
    assert((a - b) * width == a * width - b * width) by (nonlinear_arith);
}

/// After the bits of the elements from `from` on were moved up by `count`
/// elements, each of those elements is found `count` places higher and the
/// elements before `from` are where they were.
pub proof fn lemma_elements_shifted_up(
    before: Seq<u64>,
    after: Seq<u64>,
    width: int,
    from: int,
    len: int,
    count: int,
)
    requires
        1 <= width <= 64,
        0 <= from <= len,
        0 <= count,
        (len + count) * width <= 64 * before.len(),
        shifted_up(before, after, from * width, len * width, count * width),
    ensures
        forall|m: int| 0 <= m < from ==> #[trigger] element_at(after, width, m) == element_at(before, width, m),
        forall|m: int|
            from + count <= m < len + count ==> #[trigger] element_at(after, width, m) == element_at(
                before,
                width,
                m - count,
            ),
{
    lemma_mul_sum(len, count, width);
    assert forall|m: int| 0 <= m < from implies #[trigger] element_at(after, width, m) == element_at(
        before,
        width,
        m,
    ) by {
        lemma_element_within(width, m, from);
        lemma_element_within(width, m, len + count);
        lemma_window_eq(after, m * width, before, m * width, width);
    }
    assert forall|m: int| from + count <= m < len + count implies #[trigger] element_at(after, width, m)
        == element_at(before, width, m - count) by {
        lemma_element_within(width, m, len + count);
        lemma_element_within(width, m - count, len);
        lemma_mul_sum(m, count, width);
        if from + count < m {
            crate::storage::lemma_element_order(width, from + count, m);
        }
        lemma_mul_sum(from, count, width);
        assert(from * width + count * width <= m * width);
        assert(count * width >= 0) by (nonlinear_arith)
            requires
                count >= 0,
                width >= 1,
        ;
        lemma_window_eq(after, m * width, before, (m - count) * width, width);
    }
}

/// After the bits of the elements from `from + count` on were moved down by
/// `count` elements, each of those elements is found `count` places lower
/// and the elements before `from` are where they were.
pub proof fn lemma_elements_shifted_down(
    before: Seq<u64>,
    after: Seq<u64>,
    width: int,
    from: int,
    len: int,
    count: int,
)
    requires
        1 <= width <= 64,
        0 <= from,
        0 <= count,
        from + count <= len,
        len * width <= 64 * before.len(),
        shifted_down(before, after, from * width, len * width, count * width),
    ensures
        forall|m: int| 0 <= m < from ==> #[trigger] element_at(after, width, m) == element_at(before, width, m),
        forall|m: int|
            from <= m < len - count ==> #[trigger] element_at(after, width, m) == element_at(before, width, m + count),
{
    assert forall|m: int| 0 <= m < from implies #[trigger] element_at(after, width, m) == element_at(
        before,
        width,
        m,
    ) by {
        lemma_element_within(width, m, from);
        lemma_element_within(width, m, len);
        lemma_window_eq(after, m * width, before, m * width, width);
    }
    assert forall|m: int| from <= m < len - count implies #[trigger] element_at(after, width, m) == element_at(
        before,
        width,
        m + count,
    ) by {
        lemma_element_within(width, m, len - count);
        lemma_element_within(width, m + count, len);
        lemma_mul_sum(m, count, width);
        lemma_mul_sum(len, count, width);
        if from < m {
            crate::storage::lemma_element_order(width, from, m);
        }
        assert(from * width <= m * width);
        lemma_window_eq(after, m * width, before, (m + count) * width, width);
    }
}

/// Step one of either shift: the bits of word `word` below `offset` are
/// cleared.
spec fn low_cleared(before: Seq<u64>, after: Seq<u64>, word: int, offset: int) -> bool {
    &&& after.len() == before.len()
    &&& forall|k: int|
        0 <= k < 64 * before.len() ==> #[trigger] storage_bit(after, k) == (if 64 * word <= k < 64 * word + offset {
            false
        } else {
            storage_bit(before, k)
        })
}

/// Last step of either shift: the bits of word `word` below `offset` are
/// those of `kept` or'ed in.
spec fn low_restored(kept: Seq<u64>, before: Seq<u64>, after: Seq<u64>, word: int, offset: int) -> bool {
    &&& after.len() == before.len()
    &&& forall|k: int|
        0 <= k < 64 * before.len() ==> #[trigger] storage_bit(after, k) == (if 64 * word <= k < 64 * word + offset {
            storage_bit(before, k) || storage_bit(kept, k)
        } else {
            storage_bit(before, k)
        })
}

/// Words `first .. last` of `before` stand `whole` words higher in `after`.
spec fn words_moved_up(before: Seq<u64>, after: Seq<u64>, first: int, last: int, whole: int) -> bool {
    &&& after.len() == before.len()
    &&& forall|j: int|
        0 <= j < before.len() ==> #[trigger] after[j] == (if first + whole <= j < last + whole {
            before[j - whole]
        } else {
            before[j]
        })
}

/// Words `first + whole .. last + whole` of `before` stand `whole` words
/// lower in `after`.
spec fn words_moved_down(before: Seq<u64>, after: Seq<u64>, first: int, last: int, whole: int) -> bool {
    &&& after.len() == before.len()
    &&& forall|j: int|
        0 <= j < before.len() ==> #[trigger] after[j] == (if first <= j < last {
            before[j + whole]
        } else {
            before[j]
        })
}

/// Word `j` after the words `first .. last` were rolled up by `r` bits as
/// one long number.
spec fn rolled_up_word(before: Seq<u64>, first: int, r: u64, j: int) -> u64 {
    (before[j] << r) | (if j > first {
        before[j - 1] >> ((64 - r) as u64)
    } else {
        0
    })
}

spec fn words_rolled_up(before: Seq<u64>, after: Seq<u64>, first: int, last: int, r: u64) -> bool {
    &&& after.len() == before.len()
    &&& forall|j: int|
        0 <= j < before.len() ==> #[trigger] after[j] == (if first <= j < last {
            rolled_up_word(before, first, r, j)
        } else {
            before[j]
        })
}

/// Word `j` after the words `first .. last` were rolled down by `r` bits
/// as one long number.
spec fn rolled_down_word(before: Seq<u64>, last: int, r: u64, j: int) -> u64 {
    (before[j] >> r) | (if j + 1 < last {
        before[j + 1] << ((64 - r) as u64)
    } else {
        0
    })
}

spec fn words_rolled_down(before: Seq<u64>, after: Seq<u64>, first: int, last: int, r: u64) -> bool {
    &&& after.len() == before.len()
    &&& forall|j: int|
        0 <= j < before.len() ==> #[trigger] after[j] == (if first <= j < last {
            rolled_down_word(before, last, r, j)
        } else {
            before[j]
        })
}

/// The bits that leave a word at one end when it is rolled are the bits
/// that a plain shift brings to the other end.
proof fn lemma_carry()
    by (bit_vector)
    ensures
        forall|b: u64, s: u64| #![auto] 0 < s < 64 ==> ((b & (u64::MAX << s)) >> s) == (b >> s),
        forall|b: u64, s: u64| #![auto] 0 < s < 64 ==> ((b & (u64::MAX >> s)) << s) == (b << s),
{
}

proof fn lemma_rolled_up_bits(before: Seq<u64>, after: Seq<u64>, first: int, last: int, r: u64)
    requires
        0 < r < 64,
        0 <= first <= last <= before.len(),
        words_rolled_up(before, after, first, last, r),
    ensures
        forall|k: int|
            0 <= k < 64 * before.len() ==> #[trigger] storage_bit(after, k) == (if 64 * first <= k < 64 * last {
                k - r >= 64 * first && storage_bit(before, k - r)
            } else {
                storage_bit(before, k)
            }),
{
    lemma_shl_bits();
    lemma_shr_bits();
    lemma_logic_bits();
    assert forall|k: int| 0 <= k < 64 * before.len() implies #[trigger] storage_bit(after, k) == (if 64 * first <= k
        < 64 * last {
        k - r >= 64 * first && storage_bit(before, k - r)
    } else {
        storage_bit(before, k)
    }) by {
        let j = k / 64;
        let t = (k % 64) as u64;
        assert(after[j] == (if first <= j < last {
            rolled_up_word(before, first, r, j)
        } else {
            before[j]
        }));
        if first <= j < last {
            let s = (64 - r) as u64;
            if t >= r {
                assert((k - r) / 64 == j);
                assert((k - r) % 64 == t - r);
            } else if j > first {
                assert((k - r) / 64 == j - 1);
                assert((k - r) % 64 == t + 64 - r);
                assert(bit_of(before[j - 1] >> s, t) == (t + s < 64 && bit_of(before[j - 1], (t + s) as u64)));
            }
        }
    }
}

proof fn lemma_rolled_down_bits(before: Seq<u64>, after: Seq<u64>, first: int, last: int, r: u64)
    requires
        0 < r < 64,
        0 <= first <= last <= before.len(),
        words_rolled_down(before, after, first, last, r),
    ensures
        forall|k: int|
            0 <= k < 64 * before.len() ==> #[trigger] storage_bit(after, k) == (if 64 * first <= k < 64 * last {
                k + r < 64 * last && storage_bit(before, k + r)
            } else {
                storage_bit(before, k)
            }),
{
    lemma_shl_bits();
    lemma_shr_bits();
    lemma_logic_bits();
    assert forall|k: int| 0 <= k < 64 * before.len() implies #[trigger] storage_bit(after, k) == (if 64 * first <= k
        < 64 * last {
        k + r < 64 * last && storage_bit(before, k + r)
    } else {
        storage_bit(before, k)
    }) by {
        let j = k / 64;
        let t = (k % 64) as u64;
        assert(after[j] == (if first <= j < last {
            rolled_down_word(before, last, r, j)
        } else {
            before[j]
        }));
        if first <= j < last {
            let s = (64 - r) as u64;
            if t + r < 64 {
                assert((k + r) / 64 == j);
                assert((k + r) % 64 == t + r);
            } else if j + 1 < last {
                assert((k + r) / 64 == j + 1);
                assert((k + r) % 64 == t + r - 64);
                assert(bit_of(before[j + 1] << s, t) == (t >= s && bit_of(before[j + 1], (t - s) as u64)));
            }
        }
    }
}

proof fn lemma_moved_up_bits(before: Seq<u64>, after: Seq<u64>, first: int, last: int, whole: int)
    requires
        0 <= whole,
        0 <= first <= last,
        last + whole <= before.len(),
        words_moved_up(before, after, first, last, whole),
    ensures
        forall|k: int|
            0 <= k < 64 * before.len() ==> #[trigger] storage_bit(after, k) == (if 64 * (first + whole) <= k < 64 * (
            last + whole) {
                storage_bit(before, k - 64 * whole)
            } else {
                storage_bit(before, k)
            }),
{
    assert forall|k: int| 0 <= k < 64 * before.len() implies #[trigger] storage_bit(after, k) == (if 64 * (first
        + whole) <= k < 64 * (last + whole) {
        storage_bit(before, k - 64 * whole)
    } else {
        storage_bit(before, k)
    }) by {
        let j = k / 64;
        assert(after[j] == (if first + whole <= j < last + whole {
            before[j - whole]
        } else {
            before[j]
        }));
        assert((k - 64 * whole) / 64 == j - whole);
        assert((k - 64 * whole) % 64 == k % 64);
    }
}

proof fn lemma_moved_down_bits(before: Seq<u64>, after: Seq<u64>, first: int, last: int, whole: int)
    requires
        0 <= whole,
        0 <= first <= last,
        last + whole <= before.len(),
        words_moved_down(before, after, first, last, whole),
    ensures
        forall|k: int|
            0 <= k < 64 * before.len() ==> #[trigger] storage_bit(after, k) == (if 64 * first <= k < 64 * last {
                storage_bit(before, k + 64 * whole)
            } else {
                storage_bit(before, k)
            }),
{
    assert forall|k: int| 0 <= k < 64 * before.len() implies #[trigger] storage_bit(after, k) == (if 64 * first <= k
        < 64 * last {
        storage_bit(before, k + 64 * whole)
    } else {
        storage_bit(before, k)
    }) by {
        let j = k / 64;
        assert(after[j] == (if first <= j < last {
            before[j + whole]
        } else {
            before[j]
        }));
        assert((k + 64 * whole) / 64 == j + whole);
        assert((k + 64 * whole) % 64 == k % 64);
    }
}

proof fn lemma_low_cleared(before: Seq<u64>, word: int, offset: u64)
    requires
        0 <= word < before.len(),
        offset < 64,
    ensures
        low_cleared(before, before.update(word, before[word] & !low_mask(offset)), word, offset as int),
{
    lemma_logic_bits();
    lemma_low_mask_bits();
    let after = before.update(word, before[word] & !low_mask(offset));
    assert forall|k: int| 0 <= k < 64 * before.len() implies #[trigger] storage_bit(after, k) == (if 64 * word <= k
        < 64 * word + offset {
        false
    } else {
        storage_bit(before, k)
    }) by {
        let t = (k % 64) as u64;
        assert(bit_of(low_mask(offset), t) == (t < offset));
    }
}

proof fn lemma_low_restored(kept: Seq<u64>, before: Seq<u64>, word: int, offset: u64)
    requires
        0 <= word < before.len(),
        kept.len() == before.len(),
        offset < 64,
    ensures
        low_restored(kept, before, before.update(word, before[word] | (kept[word] & low_mask(offset))), word, offset as int),
{
    lemma_logic_bits();
    lemma_low_mask_bits();
    let after = before.update(word, before[word] | (kept[word] & low_mask(offset)));
    assert forall|k: int| 0 <= k < 64 * before.len() implies #[trigger] storage_bit(after, k) == (if 64 * word <= k
        < 64 * word + offset {
        storage_bit(before, k) || storage_bit(kept, k)
    } else {
        storage_bit(before, k)
    }) by {
        let t = (k % 64) as u64;
        assert(bit_of(low_mask(offset), t) == (t < offset));
    }
}

/// Moves the bits from bit `begin_offset` of word `begin_word` up to the end
/// of word `used_words - 1` higher by `total_bits_shifted` bits.
///
/// The bits below the starting bit stay. The words from `final_words` on
/// are not touched. What the bits between the old and the new start hold
/// afterwards is left open; the caller writes them next.
pub fn shift_bits_up(
    blocks: &mut Vec<u64>,
    begin_word: usize,
    begin_offset: u64,
    used_words: usize,
    final_words: usize,
    total_bits_shifted: usize,
)
    requires
        begin_offset < 64,
        begin_word < used_words,
        used_words + total_bits_shifted / 64 <= final_words <= old(blocks).len(),
        64 * final_words <= usize::MAX,
        1 <= total_bits_shifted,
    ensures
        final(blocks).len() == old(blocks).len(),
        forall|k: int|
            0 <= k < 64 * begin_word + begin_offset ==> #[trigger] storage_bit(final(blocks)@, k) == storage_bit(
                old(blocks)@,
                k,
            ),
        forall|k: int|
            64 * begin_word + begin_offset + total_bits_shifted <= k < 64 * used_words + total_bits_shifted && k < 64
                * final_words ==> #[trigger] storage_bit(final(blocks)@, k) == storage_bit(
                old(blocks)@,
                k - total_bits_shifted,
            ),
        forall|j: int| final_words <= j < old(blocks).len() ==> #[trigger] final(blocks)@[j] == old(blocks)@[j],
{
    let ghost initial = blocks@;
    let keep_first_mask = BitUtil::all_bits_less_than_bit(begin_offset);
    let keep_first_bits = blocks[begin_word] & keep_first_mask;
    blocks[begin_word] = blocks[begin_word] & !keep_first_mask;
    let ghost cleared = blocks@;
    proof {
        lemma_low_cleared(initial, begin_word as int, begin_offset);
    }
    let whole_blocks = total_bits_shifted / 64;
    let rollover_bits = (total_bits_shifted - (whole_blocks * 64)) as u64;
    let mut cursor = begin_word;
    if whole_blocks > 0 {
        let mut source = used_words;
        while source > begin_word
            invariant
                begin_word <= source <= used_words,
                used_words + whole_blocks <= blocks.len(),
                blocks.len() == cleared.len(),
                words_moved_up(cleared, blocks@, source as int, used_words as int, whole_blocks as int),
            decreases source,
        {
            source = source - 1;
            let word = blocks[source];
            blocks[source + whole_blocks] = word;
        }
        cursor = begin_word + whole_blocks;
    }
    let ghost moved = blocks@;
    let ghost roll_first = cursor as int;
    proof {
        assert(words_moved_up(cleared, moved, begin_word as int, used_words as int, whole_blocks as int));
        lemma_moved_up_bits(cleared, moved, begin_word as int, used_words as int, whole_blocks as int);
    }
    if rollover_bits > 0 {
        let rollover_shift = 64 - rollover_bits;
        let rollover_mask = u64::MAX << rollover_shift;
        let mut rollover_bits_paste: u64 = 0;
        proof {
            lemma_carry();
        }
        while cursor < final_words
            invariant
                0 < rollover_bits < 64,
                rollover_shift == 64 - rollover_bits,
                rollover_mask == u64::MAX << rollover_shift,
                roll_first <= cursor <= final_words <= blocks.len(),
                blocks.len() == moved.len(),
                words_rolled_up(moved, blocks@, roll_first, cursor as int, rollover_bits),
                rollover_bits_paste == (if cursor > roll_first {
                    moved[cursor - 1] >> rollover_shift
                } else {
                    0
                }),
                forall|b: u64, s: u64| #![auto] 0 < s < 64 ==> ((b & (u64::MAX << s)) >> s) == (b >> s),
            decreases final_words - cursor,
        {
            let block_bits = blocks[cursor];
            let rollover_bits_copy = (block_bits & rollover_mask) >> rollover_shift;
            blocks[cursor] = (block_bits << rollover_bits) | rollover_bits_paste;
            cursor = cursor + 1;
            rollover_bits_paste = rollover_bits_copy;
        }
        proof {
            lemma_rolled_up_bits(moved, blocks@, roll_first, final_words as int, rollover_bits);
        }
    }
    let ghost rolled = blocks@;
    blocks[begin_word] = blocks[begin_word] | keep_first_bits;
    proof {
        lemma_low_restored(initial, rolled, begin_word as int, begin_offset);
        let from_bit = 64 * begin_word + begin_offset;
        let after = blocks@;
        assert forall|k: int| 0 <= k < from_bit implies #[trigger] storage_bit(after, k) == storage_bit(
            initial,
            k,
        ) by {
            assert(storage_bit(rolled, k) == storage_bit(rolled, k));
            if rollover_bits > 0 && k - rollover_bits >= 64 * roll_first {
                assert(storage_bit(moved, k - rollover_bits) == storage_bit(cleared, k - rollover_bits));
            }
            assert(storage_bit(moved, k) == storage_bit(cleared, k));
        }
        assert forall|k: int|
            from_bit + total_bits_shifted <= k < 64 * used_words + total_bits_shifted && k < 64
                * final_words implies #[trigger] storage_bit(after, k) == storage_bit(
            initial,
            k - total_bits_shifted,
        ) by {
            assert(storage_bit(after, k) == storage_bit(rolled, k));
            let m = k - rollover_bits;
            assert(storage_bit(rolled, k) == storage_bit(moved, m));
            assert(storage_bit(moved, m) == storage_bit(cleared, m - 64 * whole_blocks));
        }
        assert forall|j: int| final_words <= j < initial.len() implies #[trigger] after[j] == initial[j] by {
            assert(rolled[j] == moved[j]);
            assert(moved[j] == cleared[j]);
        }
    }
}

/// Moves the bits that start `total_bits_shifted` bits above bit
/// `begin_offset` of word `begin_word`, up to the end of word
/// `used_words - 1`, lower by `total_bits_shifted` bits, so that they
/// start at that bit.
///
/// The bits below the starting bit stay. The gap that is closed must hold
/// zeros. The words from `used_words` on are not touched.
pub fn shift_bits_down(
    blocks: &mut Vec<u64>,
    begin_word: usize,
    begin_offset: u64,
    used_words: usize,
    total_bits_shifted: usize,
)
    requires
        begin_offset < 64,
        used_words <= old(blocks).len(),
        64 * used_words <= usize::MAX,
        1 <= total_bits_shifted,
        64 * begin_word + begin_offset + total_bits_shifted <= 64 * used_words,
        zero_bits(
            old(blocks)@,
            64 * begin_word + begin_offset,
            64 * begin_word + begin_offset + total_bits_shifted,
        ),
    ensures
        shifted_down(
            old(blocks)@,
            final(blocks)@,
            64 * begin_word + begin_offset,
            64 * used_words,
            total_bits_shifted as int,
        ),
        forall|j: int| used_words <= j < old(blocks).len() ==> #[trigger] final(blocks)@[j] == old(blocks)@[j],
{
    let ghost initial = blocks@;
    let keep_first_mask = BitUtil::all_bits_less_than_bit(begin_offset);
    let keep_first_bits = blocks[begin_word] & keep_first_mask;
    blocks[begin_word] = blocks[begin_word] & !keep_first_mask;
    let ghost cleared = blocks@;
    proof {
        lemma_low_cleared(initial, begin_word as int, begin_offset);
    }
    let whole_blocks = total_bits_shifted / 64;
    let rollover_bits = (total_bits_shifted - (whole_blocks * 64)) as u64;
    let top = used_words - whole_blocks;
    if whole_blocks > 0 {
        let mut target = begin_word;
        while target < top
            invariant
                begin_word <= target <= top,
                top + whole_blocks == used_words,
                used_words <= blocks.len(),
                blocks.len() == cleared.len(),
                words_moved_down(cleared, blocks@, begin_word as int, target as int, whole_blocks as int),
            decreases top - target,
        {
            let word = blocks[target + whole_blocks];
            blocks[target] = word;
            target = target + 1;
        }
    }
    let ghost moved = blocks@;
    proof {
        if whole_blocks > 0 {
            lemma_moved_down_bits(cleared, moved, begin_word as int, top as int, whole_blocks as int);
        }
    }
    if rollover_bits > 0 {
        let rollover_shift = 64 - rollover_bits;
        let rollover_mask = u64::MAX >> rollover_shift;
        let mut rollover_bits_paste: u64 = 0;
        let mut cursor = top;
        proof {
            lemma_carry();
        }
        while cursor > begin_word
            invariant
                0 < rollover_bits < 64,
                rollover_shift == 64 - rollover_bits,
                rollover_mask == u64::MAX >> rollover_shift,
                begin_word <= cursor <= top <= blocks.len(),
                blocks.len() == moved.len(),
                forall|j: int|
                    0 <= j < moved.len() ==> #[trigger] blocks@[j] == (if cursor <= j < top {
                        rolled_down_word(moved, top as int, rollover_bits, j)
                    } else {
                        moved[j]
                    }),
                rollover_bits_paste == (if cursor < top {
                    moved[cursor as int] << rollover_shift
                } else {
                    0
                }),
                forall|b: u64, s: u64| #![auto] 0 < s < 64 ==> ((b & (u64::MAX >> s)) << s) == (b << s),
            decreases cursor,
        {
            cursor = cursor - 1;
            let block_bits = blocks[cursor];
            let rollover_bits_copy = (block_bits & rollover_mask) << rollover_shift;
            blocks[cursor] = (block_bits >> rollover_bits) | rollover_bits_paste;
            rollover_bits_paste = rollover_bits_copy;
        }
        proof {
            assert(words_rolled_down(moved, blocks@, begin_word as int, top as int, rollover_bits));
            lemma_rolled_down_bits(moved, blocks@, begin_word as int, top as int, rollover_bits);
        }
    }
    let ghost rolled = blocks@;
    blocks[begin_word] = blocks[begin_word] | keep_first_bits;
    proof {
        lemma_low_restored(initial, rolled, begin_word as int, begin_offset);
        let from_bit = 64 * begin_word + begin_offset;
        let after = blocks@;
        assert forall|k: int| 0 <= k < from_bit implies #[trigger] storage_bit(after, k) == storage_bit(
            initial,
            k,
        ) by {
            if k >= 64 * begin_word {
                let m = k + rollover_bits;
                if m < 64 * top {
                    assert(storage_bit(moved, m) == storage_bit(cleared, m + 64 * whole_blocks));
                    let n = m + 64 * whole_blocks;
                    assert(n == k + total_bits_shifted);
                    if n >= from_bit {
                        assert(!storage_bit(initial, n));
                    }
                    assert(!storage_bit(cleared, n));
                }
                assert(!storage_bit(rolled, k));
            } else {
                assert(storage_bit(rolled, k) == storage_bit(moved, k));
                assert(storage_bit(moved, k) == storage_bit(cleared, k));
            }
        }
        assert forall|k: int| from_bit <= k < 64 * used_words - total_bits_shifted implies #[trigger] storage_bit(
            after,
            k,
        ) == storage_bit(initial, k + total_bits_shifted) by {
            assert(storage_bit(after, k) == storage_bit(rolled, k));
            let m = k + rollover_bits;
            assert(storage_bit(rolled, k) == storage_bit(moved, m));
            assert(storage_bit(moved, m) == storage_bit(cleared, m + 64 * whole_blocks));
        }
        assert forall|j: int| used_words <= j < initial.len() implies #[trigger] after[j] == initial[j] by {
            assert(rolled[j] == moved[j]);
            assert(moved[j] == cleared[j]);
        }
    }
}

} // verus!
