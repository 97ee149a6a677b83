//! How values of a richer type are turned into the bits of an element and
//! back.
//!
//! A kind of element names the type of its values, its width, and the two
//! conversions. The vector itself stores and moves bare bit patterns; the
//! conversions are applied where values enter and leave a typed vector.

use vstd::prelude::*;
use crate::bits::{bit_of, low_mask, BitUtil};

verus! {

/// A kind of element: a type of values with a width in bits and the
/// conversions between a value and its bits.
pub trait BitElem {
    /// The type of the values.
    type Base: Copy;

    /// The width of an element.
    spec fn spec_bits() -> usize;

    /// The bits that stand for `val`.
    spec fn spec_val_to_bits(val: Self::Base) -> u64;

    /// The value that `bits` stand for.
    spec fn spec_bits_to_val(bits: u64) -> Self::Base;

    /// The width of an element.
    fn bits() -> (bits: usize)
        ensures
            bits == Self::spec_bits(),
    ;

    /// The value that `bits` stand for.
    fn bits_to_val(bits: u64) -> (val: Self::Base)
        ensures
            val == Self::spec_bits_to_val(bits),
    ;

    /// The bits that stand for `val`: no more than the width holds.
    fn val_to_bits(val: Self::Base) -> (bits: u64)
        ensures
            bits == Self::spec_val_to_bits(val),
            bits <= low_mask(Self::spec_bits() as u64),
    ;
}

/// The value that the `width` lowest bits of `bits` stand for when the
/// highest of them is the sign: if it is set, every bit above it is set
/// too.
pub open spec fn sign_extend(bits: u64, width: usize) -> i64 {
    if 1 <= width < 64 && bit_of(bits, (width - 1) as u64) {
        (bits | !low_mask(width as u64)) as i64
    } else {
        bits as i64
    }
}

/// Truth values, one bit each.
impl BitElem for bool {
    type Base = bool;

    open spec fn spec_bits() -> usize {
        1
    }

    open spec fn spec_val_to_bits(val: bool) -> u64 {
        if val {
            1
        } else {
            0
        }
    }

    open spec fn spec_bits_to_val(bits: u64) -> bool {
        bit_of(bits, 0)
    }

    fn bits() -> (bits: usize) {
        1
    }

    fn bits_to_val(bits: u64) -> (val: bool) {
        assert(((bits & 1) == 1) == bit_of(bits, 0)) by (bit_vector);
        (bits & 1) == 1
    }

    fn val_to_bits(val: bool) -> (bits: u64) {
        assert(low_mask(1) == 1) by (bit_vector);
        if val {
            1
        } else {
            0
        }
    }
}

/// Unsigned numbers of `BITS` bits, held in a `u64`.
pub struct UnsignedBits<const BITS: usize>;

/// Signed numbers of `BITS` bits in two's complement, held in an `i64`.
pub struct SignedBits<const BITS: usize>;

/// The mask of the `width` lowest bits.
fn mask_of(width: usize) -> (mask: u64)
    ensures
        mask == low_mask(width as u64),
{
    if width >= 64 {
        u64::MAX
    } else {
        let w = width as u64;
        assert((1u64 << w) >= 1) by (bit_vector)
            requires
                w < 64,
        ;
        (1u64 << w) - 1
    }
}

impl<const BITS: usize> BitElem for UnsignedBits<BITS> {
    type Base = u64;

    open spec fn spec_bits() -> usize {
        BITS
    }

    open spec fn spec_val_to_bits(val: u64) -> u64 {
        val & low_mask(BITS as u64)
    }

    open spec fn spec_bits_to_val(bits: u64) -> u64 {
        bits
    }

    fn bits() -> (bits: usize) {
        BITS
    }

    fn bits_to_val(bits: u64) -> (val: u64) {
        bits
    }

    fn val_to_bits(val: u64) -> (bits: u64) {
        let mask = mask_of(BITS);
        assert(val & mask <= mask) by (bit_vector);
        val & mask
    }
}

impl<const BITS: usize> UnsignedBits<BITS> {
    /// The least value of the kind.
    pub fn min_value() -> (min: u64)
        ensures
            min == 0,
    {
        0
    }

    /// The greatest value of the kind.
    pub fn max_value() -> (max: u64)
        ensures
            max == low_mask(BITS as u64),
    {
        mask_of(BITS)
    }

    /// A value that fits the width is its own bits, and comes back
    /// unchanged.
    pub proof fn law_round_trip(val: u64)
        requires
            val <= low_mask(BITS as u64),
        ensures
            Self::spec_bits_to_val(Self::spec_val_to_bits(val)) == val,
    {
        if BITS <= 64 {
            crate::bits::lemma_mask_fits();
        } else {
            assert(val & u64::MAX == val) by (bit_vector);
        }
    }
}

impl<const BITS: usize> BitElem for SignedBits<BITS> {
    type Base = i64;

    open spec fn spec_bits() -> usize {
        BITS
    }

    open spec fn spec_val_to_bits(val: i64) -> u64 {
        (val as u64) & low_mask(BITS as u64)
    }

    open spec fn spec_bits_to_val(bits: u64) -> i64 {
        sign_extend(bits, BITS)
    }

    fn bits() -> (bits: usize) {
        BITS
    }

    fn bits_to_val(bits: u64) -> (val: i64) {
        if BITS == 0 || BITS >= 64 {
            bits as i64
        } else {
            let shift = (BITS - 1) as u64;
            let top_bit = bits & (1u64 << shift);
            let extended = BitUtil::smear_neg_bit_left(bits, top_bit);
            proof {
                let width = BITS as u64;
                let wanted = if bit_of(bits, shift) {
                    bits | !low_mask(width)
                } else {
                    bits
                };
                crate::bits::lemma_logic_bits();
                crate::bits::lemma_low_mask_bits();
                assert forall|j: u64| j < 64 implies bit_of(extended, j) == bit_of(wanted, j) by {
                    assert(((bits & (1u64 << shift)) << ((63 - j) as u64) != 0) == (bit_of(bits, shift) && j >= shift))
                        by (bit_vector)
                        requires
                            shift < 63,
                            j < 64,
                    ;
                    assert(bit_of(low_mask(width), j) == (j < width));
                }
                crate::bits::lemma_bits_ext(extended, wanted);
            }
            extended as i64
        }
    }

    fn val_to_bits(val: i64) -> (bits: u64) {
        let mask = mask_of(BITS);
        let raw = val as u64;
        assert(raw & mask <= mask) by (bit_vector);
        raw & mask
    }
}

impl<const BITS: usize> SignedBits<BITS> {
    /// The least value of the kind.
    pub fn min_value() -> (min: i64)
        requires
            1 <= BITS <= 64,
        ensures
            min == sign_extend(1u64 << ((BITS - 1) as u64), BITS),
    {
        let top_bit = 1u64 << ((BITS - 1) as u64);
        Self::bits_to_val(top_bit)
    }

    /// The greatest value of the kind.
    pub fn max_value() -> (max: i64)
        requires
            1 <= BITS <= 64,
        ensures
            max == sign_extend(low_mask((BITS - 1) as u64), BITS),
    {
        Self::bits_to_val(mask_of(BITS - 1))
    }

    /// A value within the range of the width comes back unchanged from
    /// its bits.
    pub proof fn law_round_trip(val: i64)
        requires
            1 <= BITS <= 64,
            BITS < 64 ==> -(1i64 << ((BITS - 1) as u64)) <= val < (1i64 << ((BITS - 1) as u64)),
        ensures
            Self::spec_bits_to_val(Self::spec_val_to_bits(val)) == val,
    {
        let width = BITS as u64;
        let bits = (val as u64) & low_mask(width);
        if BITS < 64 {
            let shift = (BITS - 1) as u64;
            assert((if (bits >> shift) & 1 == 1 {
                (bits | !low_mask(width)) as i64
            } else {
                bits as i64
            }) == val) by (bit_vector)
                requires
                    1 <= width < 64,
                    shift == width - 1,
                    bits == (val as u64) & low_mask(width),
                    -(1i64 << shift) <= val < (1i64 << shift),
            ;
        } else {
            assert(((val as u64) & u64::MAX) as i64 == val) by (bit_vector);
        }
    }
}

} // verus!
