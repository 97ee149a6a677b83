//! Bit-level facts about 64-bit storage words.
//!
//! Every proof about packed elements is phrased over a single predicate,
//! [`bit_of`], so that the bit-vector solver is needed only for the handful of
//! lemmas in this module.

use vstd::prelude::*;

verus! {

/// Number of bits in one storage word.
pub const WORD_BITS: usize = 64;

/// Whether bit `j` (counted from the least significant) of `x` is set.
pub open spec fn bit_of(x: u64, j: u64) -> bool {
    (x >> j) & 1 == 1
}

/// The word whose `w` lowest bits are set and no others.
pub open spec fn low_mask(w: u64) -> u64 {
    if w >= 64 {
        u64::MAX
    } else {
        ((1u64 << w) - 1) as u64
    }
}

/// Bits of a low mask: exactly those below `w`.
pub proof fn lemma_low_mask_bits()
    by (bit_vector)
    ensures
        forall|w: u64, j: u64| w <= 64 && j < 64 ==> #[trigger] bit_of(low_mask(w), j) == (j < w),
{
}

/// Bits of a left shift.
pub proof fn lemma_shl_bits()
    by (bit_vector)
    ensures
        forall|x: u64, r: u64, j: u64|
            r < 64 && j < 64 ==> #[trigger] bit_of(x << r, j) == (j >= r && bit_of(x, (j - r) as u64)),
{
}

/// Bits of a right shift.
pub proof fn lemma_shr_bits()
    by (bit_vector)
    ensures
        forall|x: u64, r: u64, j: u64|
            r < 64 && j < 64 ==> #[trigger] bit_of(x >> r, j) == (j + r < 64 && bit_of(x, (j + r) as u64)),
{
}

/// Bits of the bitwise connectives.
pub proof fn lemma_logic_bits()
    by (bit_vector)
    ensures
        forall|a: u64, b: u64, j: u64| j < 64 ==> #[trigger] bit_of(a & b, j) == (bit_of(a, j) && bit_of(b, j)),
        forall|a: u64, b: u64, j: u64| j < 64 ==> #[trigger] bit_of(a | b, j) == (bit_of(a, j) || bit_of(b, j)),
        forall|a: u64, j: u64| j < 64 ==> #[trigger] bit_of(!a, j) == !bit_of(a, j),
        forall|j: u64| j < 64 ==> !#[trigger] bit_of(0u64, j),
{
}

proof fn lemma_shr_step(a: u64, b: u64, n: u64)
    by (bit_vector)
    requires
        n < 64,
        bit_of(a, n) == bit_of(b, n),
        n < 63 ==> (a >> ((n + 1) as u64)) == (b >> ((n + 1) as u64)),
    ensures
        (a >> n) == (b >> n),
        n == 0 ==> a == b,
{
}

proof fn lemma_bits_ext_from(a: u64, b: u64, n: u64)
    requires
        n < 64,
        forall|j: u64| n <= j < 64 ==> bit_of(a, j) == bit_of(b, j),
    ensures
        (a >> n) == (b >> n),
        n == 0 ==> a == b,
    decreases 64 - n,
{
    if n < 63 {
        lemma_bits_ext_from(a, b, (n + 1) as u64);
    }
    lemma_shr_step(a, b, n);
}

/// Two words with the same bits are the same word.
pub proof fn lemma_bits_ext(a: u64, b: u64)
    requires
        forall|j: u64| j < 64 ==> bit_of(a, j) == bit_of(b, j),
    ensures
        a == b,
{
    lemma_bits_ext_from(a, b, 0);
}

/// A value that fits in `w` bits has no bit set at or above `w`.
pub proof fn lemma_fits_bits(v: u64, w: u64)
    by (bit_vector)
    requires
        w <= 64,
        v <= low_mask(w),
    ensures
        forall|j: u64| w <= j && j < 64 ==> !#[trigger] bit_of(v, j),
{
}

/// Masking with a low mask keeps exactly the bits below `w`.
pub proof fn lemma_mask_fits()
    by (bit_vector)
    ensures
        forall|v: u64, w: u64| w <= 64 ==> #[trigger] (v & low_mask(w)) <= low_mask(w),
        forall|v: u64, w: u64| w <= 64 && v <= low_mask(w) ==> #[trigger] (v & low_mask(w)) == v,
{
}

/// The number of set bits of `x` among its `n` lowest.
pub open spec fn count_ones_below(x: u64, n: nat) -> nat
    decreases n,
{
    if n == 0 {
        0
    } else {
        count_ones_below(x, (n - 1) as nat) + (if bit_of(x, (n - 1) as u64) {
            1nat
        } else {
            0nat
        })
    }
}

/// The number of set bits of `x`.
pub open spec fn count_ones(x: u64) -> nat {
    count_ones_below(x, 64)
}

/// A word whose set bits are those from `from` up to, not including, `to`
/// has as many set bits below `n` as that run has places below `n`.
pub proof fn lemma_count_ones_of_run(x: u64, from: int, to: int, n: nat)
    requires
        0 <= from <= to <= 64,
        n <= 64,
        forall|j: u64| j < 64 ==> #[trigger] bit_of(x, j) == (from <= j < to),
    ensures
        count_ones_below(x, n) == (if n <= from {
            0
        } else if n <= to {
            n - from
        } else {
            to - from
        }),
    decreases n,
{
    if n > 0 {
        lemma_count_ones_of_run(x, from, to, (n - 1) as nat);
        assert(bit_of(x, (n - 1) as u64) == (from <= n - 1 < to));
    }
}

/// The low mask of `w` bits is one less than two to the power of `w`.
pub proof fn lemma_low_mask_value(w: u64)
    requires
        w <= 64,
    ensures
        low_mask(w) == vstd::arithmetic::power2::pow2(w as nat) - 1,
    decreases w,
{
    if w == 0 {
        assert(low_mask(0) == 0) by (bit_vector);
        vstd::arithmetic::power2::lemma2_to64();
    } else {
        let v = (w - 1) as u64;
        lemma_low_mask_value(v);
        assert(low_mask(w) == 2 * low_mask(v) + 1) by (bit_vector)
            requires
                1 <= w <= 64,
                v == w - 1,
        ;
        vstd::arithmetic::power2::lemma_pow2_unfold(w as nat);
    }
}

/// Bit helpers shared by the addressing and shifting code.
pub struct BitUtil;

impl BitUtil {
    /// Sets every bit at or above the lowest set bit of `val`.
    pub fn smear_left(val: u64) -> (r: u64)
        ensures
            forall|j: u64| j < 64 ==> #[trigger] bit_of(r, j) == ((val << ((63 - j) as u64)) != 0),
            val == 0 <==> r == 0,
    {
        let v1 = val | (val << 1);
        let v2 = v1 | (v1 << 2);
        let v3 = v2 | (v2 << 4);
        let v4 = v3 | (v3 << 8);
        let v5 = v4 | (v4 << 16);
        let v6 = v5 | (v5 << 32);
        assert((forall|j: u64| j < 64 ==> #[trigger] bit_of(v6, j) == ((val << ((63 - j) as u64)) != 0)) && (val == 0
            <==> v6 == 0)) by (bit_vector)
            requires
                v1 == val | (val << 1),
                v2 == v1 | (v1 << 2),
                v3 == v2 | (v2 << 4),
                v4 == v3 | (v3 << 8),
                v5 == v4 | (v4 << 16),
                v6 == v5 | (v5 << 32),
        ;
        v6
    }

    /// Sign extension: `val` with every bit at or above the lowest set bit of
    /// `top_bit` set as well.
    pub fn smear_neg_bit_left(val: u64, top_bit: u64) -> (r: u64)
        ensures
            forall|j: u64|
                j < 64 ==> #[trigger] bit_of(r, j) == (bit_of(val, j) || (top_bit << ((63 - j) as u64)) != 0),
    {
        let smeared = Self::smear_left(top_bit);
        proof {
            lemma_logic_bits();
        }
        val | smeared
    }

    /// Sets every bit at or below the highest set bit of `val`.
    pub fn smear_right(val: u64) -> (r: u64)
        ensures
            forall|j: u64| j < 64 ==> #[trigger] bit_of(r, j) == ((val >> j) != 0),
            val == 0 <==> r == 0,
    {
        let v1 = val | (val >> 1);
        let v2 = v1 | (v1 >> 2);
        let v3 = v2 | (v2 >> 4);
        let v4 = v3 | (v3 >> 8);
        let v5 = v4 | (v4 >> 16);
        let v6 = v5 | (v5 >> 32);
        assert((forall|j: u64| j < 64 ==> #[trigger] bit_of(v6, j) == ((val >> j) != 0)) && (val == 0 <==> v6 == 0))
            by (bit_vector)
            requires
                v1 == val | (val >> 1),
                v2 == v1 | (v1 >> 2),
                v3 == v2 | (v2 >> 4),
                v4 == v3 | (v3 >> 8),
                v5 == v4 | (v4 >> 16),
                v6 == v5 | (v5 >> 32),
        ;
        v6
    }

    /// The mask of all bits strictly below bit `bit_number`.
    pub fn all_bits_less_than_bit(bit_number: u64) -> (r: u64)
        requires
            bit_number < 64,
        ensures
            r == low_mask(bit_number),
    {
        let one_hot = 1u64 << bit_number;
        let smeared = Self::smear_right(one_hot);
        let r = smeared >> 1;
        proof {
            lemma_low_mask_bits();
            lemma_shr_bits();
            assert forall|j: u64| j < 64 implies bit_of(r, j) == bit_of(low_mask(bit_number), j) by {
                if j < 63 {
                    let j1 = (j + 1) as u64;
                    assert(bit_of(smeared, j1) == ((one_hot >> j1) != 0));
                    assert(((1u64 << bit_number) >> j1 != 0) == (j < bit_number)) by (bit_vector)
                        requires
                            bit_number < 64,
                            j < 63,
                            j1 == j + 1,
                    ;
                }
            }
            lemma_bits_ext(r, low_mask(bit_number));
        }
        r
    }

    /// `val >> shift`, except that a shift by the whole word width yields 0
    /// instead of overflowing.
    pub fn right_shift_discard_if_ubits(val: u64, shift: u64) -> (r: u64)
        requires
            shift <= 64,
        ensures
            r == (if shift == 64 {
                0
            } else {
                val >> shift
            }),
    {
        let p0: u64 = 64 & shift;
        let p1 = p0 | (p0 >> 1);
        let p2 = p1 | (p1 >> 2);
        let p3 = p2 | (p2 >> 3);
        let p4 = p3 | (p3 << 7);
        let p5 = p4 | (p4 << 14);
        let p6 = p5 | (p5 << 28);
        let purge_mask = !(p6 | (p6 << 8));
        let amount = shift & purge_mask;
        assert(amount < 64 && (val & purge_mask) >> amount == (if shift == 64 {
            0
        } else {
            val >> shift
        })) by (bit_vector)
            requires
                shift <= 64,
                p0 == 64 & shift,
                p1 == p0 | (p0 >> 1),
                p2 == p1 | (p1 >> 2),
                p3 == p2 | (p2 >> 3),
                p4 == p3 | (p3 << 7),
                p5 == p4 | (p4 << 14),
                p6 == p5 | (p5 << 28),
                purge_mask == !(p6 | (p6 << 8)),
                amount == shift & purge_mask,
        ;
        (val & purge_mask) >> amount
    }

    /// 1 if `val` is not zero, else 0.
    pub fn one_if_val_isnt_zero(val: u64) -> (r: u64)
        ensures
            r == (if val != 0 {
                1u64
            } else {
                0u64
            }),
    {
        let smeared = Self::smear_right(val);
        assert(bit_of(smeared, 0) == ((val >> 0u64) != 0));
        assert(val >> 0u64 == val) by (bit_vector);
        assert((smeared & 1 == 1) == bit_of(smeared, 0)) by (bit_vector);
        assert(smeared & 1 == 0 || smeared & 1 == 1) by (bit_vector);
        smeared & 1
    }

    /// The number of bits held by `num_words` whole storage words.
    pub fn calc_total_bits_in_num_usize(num_words: usize) -> (r: usize)
        requires
            num_words <= usize::MAX / 64,
        ensures
            r == num_words * 64,
    {
        num_words * WORD_BITS
    }
}

/// Limits that the allocator places on a buffer.
pub struct MemUtil;

impl MemUtil {
    /// The largest number of items of `type_size` bytes, aligned to
    /// `type_align`, that fit in an allocation of at most `isize::MAX` bytes.
    pub fn max_capacity_for_type(type_size: usize, type_align: usize) -> (r: usize)
        requires
            type_size > 0,
            1 <= type_align <= isize::MAX,
        ensures
            r == (isize::MAX - (type_align - 1)) / (type_size as int),
    {
        let limit: usize = (isize::MAX as usize) - (type_align - 1);
        limit / type_size
    }
}

} // verus!
