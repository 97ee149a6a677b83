use grit_bitvec::bits::{BitUtil, MemUtil};
use grit_bitvec::index_proxy::IdxProxyRange;
use grit_bitvec::proto::{MAX_TRUE_BITS, MAX_TRUE_CAP};
use grit_bitvec::utils::{RangeEdge, RangeUtil};
use grit_bitvec::{BitProto, ElementCount, Grow, IdxProxy, RawBitVec, Shrink};

/// The `width` bits from bit `first_bit` on, read straight off the words.
fn bits_at(words: &[u64], first_bit: usize, width: usize) -> u64 {
    let mut val: u64 = 0;
    for j in 0..width {
        let k = first_bit + j;
        if (words[k / 64] >> (k % 64)) & 1 == 1 {
            val |= 1 << j;
        }
    }
    val
}

#[test]
fn prototypes_follow_from_the_width() {
    let four = BitProto::create(4);
    assert_eq!(four.BITS, 4);
    assert_eq!(four.MASK, 0xF);
    assert_eq!(four.MAX_CAPACITY, MAX_TRUE_BITS / 4);
    let one = BitProto::create(1);
    assert_eq!(one.MASK, 1);
    assert_eq!(one.MAX_CAPACITY, MAX_TRUE_BITS);
    let all = BitProto::create(64);
    assert_eq!(all.MASK, u64::MAX);
    assert_eq!(all.MAX_CAPACITY, MAX_TRUE_CAP);
    let odd = BitProto::create(11);
    assert_eq!(odd.MASK, 0x7FF);
    assert_eq!(odd.MAX_CAPACITY, MAX_TRUE_BITS / 11);
    assert_eq!(MAX_TRUE_CAP, usize::MAX / 64);
    assert_eq!(MAX_TRUE_BITS, MAX_TRUE_CAP * 64);
}

#[test]
fn coordinates_of_single_elements() {
    let three = BitProto::create(3);
    let p = BitProto::idx_proxy(three, 21);
    assert_eq!(p.idx(), 21);
    assert_eq!(
        (p.bitwise_idx, p.real_idx, p.first_offset, p.first_mask, p.second_offset, p.second_mask),
        (21, 0, 63, 1 << 63, 1, 0b11)
    );
    let p = BitProto::idx_proxy(three, 22);
    assert_eq!(
        (p.bitwise_idx, p.real_idx, p.first_offset, p.first_mask, p.second_offset, p.second_mask),
        (22, 1, 2, 0b11100, 62, 0)
    );
    let four = BitProto::create(4);
    let p = BitProto::idx_proxy(four, 17);
    assert_eq!(
        (p.bitwise_idx, p.real_idx, p.first_offset, p.first_mask, p.second_offset, p.second_mask),
        (17, 1, 4, 0xF0, 60, 0)
    );
    let p = BitProto::idx_proxy(four, 0);
    assert_eq!(
        (p.bitwise_idx, p.real_idx, p.first_offset, p.first_mask, p.second_offset, p.second_mask),
        (0, 0, 0, 0xF, 64, 0)
    );
    let whole = BitProto::create(64);
    let p = BitProto::idx_proxy(whole, 5);
    assert_eq!(
        (p.bitwise_idx, p.real_idx, p.first_offset, p.first_mask, p.second_offset, p.second_mask),
        (5, 5, 0, u64::MAX, 64, 0)
    );
    let wide = BitProto::create(33);
    let p = BitProto::idx_proxy(wide, 1);
    assert_eq!(
        (p.bitwise_idx, p.real_idx, p.first_offset, p.first_mask, p.second_offset, p.second_mask),
        (1, 0, 33, 0x7FFF_FFFF << 33, 31, 0b11)
    );
    assert_eq!(p.as_real_len_or_cap(), 1);
    assert_eq!(BitProto::idx_proxy(four, 16).as_real_len_or_cap(), 1);
    assert_eq!(BitProto::idx_proxy(four, 17).as_real_len_or_cap(), 2);
}

#[test]
fn coordinates_agree_with_the_plain_formula() {
    for width in 1..=64usize {
        let proto = BitProto::create(width);
        for idx in (0..300usize).chain([1000, 4095, 4096, 123_456_789, proto.MAX_CAPACITY]) {
            let p = BitProto::idx_proxy(proto, idx);
            let first_bit = idx as u128 * width as u128;
            assert_eq!(p.bitwise_idx, idx);
            assert_eq!(p.real_idx as u128, first_bit / 64);
            assert_eq!(p.first_offset as u128, first_bit % 64);
            assert_eq!(p.second_offset, 64 - p.first_offset);
            assert_eq!(p.first_mask, proto.MASK << p.first_offset);
            let expected_second = if p.first_offset == 0 { 0 } else { proto.MASK >> p.second_offset };
            assert_eq!(p.second_mask, expected_second);
            assert_eq!(p.second_mask != 0, p.first_offset as usize + width > 64);
            assert_eq!((p.first_mask.count_ones() + p.second_mask.count_ones()) as usize, width);
        }
    }
}

#[test]
fn reading_and_writing_agree_with_the_bit_offset() {
    for width in 1..=64usize {
        let proto = BitProto::create(width);
        let count = 130usize;
        let mut vec = RawBitVec::with_capacity(proto, count);
        let vals: Vec<u64> =
            (0..count as u64).map(|i| (i.wrapping_mul(0x9E37_79B9_7F4A_7C15) ^ (i << 17)) & proto.MASK).collect();
        vec.append_iter(proto, &vec![0; count]).unwrap();
        for (i, v) in vals.iter().enumerate() {
            let before = vec.as_blocks().clone();
            vec.set(proto, i, *v).unwrap();
            let after = vec.as_blocks();
            assert_eq!(bits_at(after, i * width, width), *v);
            assert_eq!(vec.get(proto, i), Ok(*v));
            for k in 0..before.len() * 64 {
                if k < i * width || k >= (i + 1) * width {
                    assert_eq!((before[k / 64] >> (k % 64)) & 1, (after[k / 64] >> (k % 64)) & 1);
                }
            }
        }
        for (i, v) in vals.iter().enumerate() {
            assert_eq!(vec.get(proto, i), Ok(bits_at(vec.as_blocks(), i * width, width)));
            assert_eq!(vec.get(proto, i), Ok(*v));
        }
    }
}

#[test]
fn words_for_elements_and_elements_for_words() {
    let three = BitProto::create(3);
    assert_eq!(BitProto::calc_block_count_from_bitwise_count(three, 0), 0);
    assert_eq!(BitProto::calc_block_count_from_bitwise_count(three, 21), 1);
    assert_eq!(BitProto::calc_block_count_from_bitwise_count(three, 22), 2);
    assert_eq!(BitProto::calc_block_count_from_bitwise_count(three, 64), 3);
    assert_eq!(BitProto::calc_bitwise_count_from_block_count(three, 0), 0);
    assert_eq!(BitProto::calc_bitwise_count_from_block_count(three, 1), 21);
    assert_eq!(BitProto::calc_bitwise_count_from_block_count(three, 2), 42);
    assert_eq!(BitProto::calc_bitwise_count_from_block_count(three, 3), 64);
    assert_eq!(BitProto::calc_bitwise_count_from_block_count(three, MAX_TRUE_CAP), three.MAX_CAPACITY);
    assert_eq!(BitProto::calc_block_count_from_bitwise_count(three, three.MAX_CAPACITY), MAX_TRUE_CAP);
    for width in 1..=64usize {
        let proto = BitProto::create(width);
        for n in 0..400usize {
            let words = BitProto::calc_block_count_from_bitwise_count(proto, n);
            assert_eq!(words, (n * width + 63) / 64);
            let fitting = BitProto::calc_bitwise_count_from_block_count(proto, words);
            assert!(fitting >= n);
            assert_eq!(BitProto::calc_block_count_from_bitwise_count(proto, fitting), words);
        }
    }
}

#[test]
fn bit_helpers() {
    assert_eq!(BitUtil::smear_left(0), 0);
    assert_eq!(BitUtil::smear_left(1), u64::MAX);
    assert_eq!(BitUtil::smear_left(0b1000), !0b111);
    assert_eq!(BitUtil::smear_left(0b101000), !0b111);
    assert_eq!(BitUtil::smear_left(1 << 63), 1 << 63);
    assert_eq!(BitUtil::smear_right(0), 0);
    assert_eq!(BitUtil::smear_right(1), 1);
    assert_eq!(BitUtil::smear_right(0b1000), 0b1111);
    assert_eq!(BitUtil::smear_right(0b101000), 0b111111);
    assert_eq!(BitUtil::smear_right(1 << 63), u64::MAX);
    assert_eq!(BitUtil::smear_neg_bit_left(0b0110, 0b0100), !0b11 | 0b0110);
    assert_eq!(BitUtil::smear_neg_bit_left(0b0010, 0), 0b0010);
    assert_eq!(BitUtil::all_bits_less_than_bit(0), 0);
    assert_eq!(BitUtil::all_bits_less_than_bit(1), 1);
    assert_eq!(BitUtil::all_bits_less_than_bit(12), 0xFFF);
    assert_eq!(BitUtil::all_bits_less_than_bit(63), u64::MAX >> 1);
    assert_eq!(BitUtil::right_shift_discard_if_ubits(0xFF00, 8), 0xFF);
    assert_eq!(BitUtil::right_shift_discard_if_ubits(0xFF00, 0), 0xFF00);
    assert_eq!(BitUtil::right_shift_discard_if_ubits(u64::MAX, 63), 1);
    assert_eq!(BitUtil::right_shift_discard_if_ubits(u64::MAX, 64), 0);
    assert_eq!(BitUtil::one_if_val_isnt_zero(0), 0);
    assert_eq!(BitUtil::one_if_val_isnt_zero(1), 1);
    assert_eq!(BitUtil::one_if_val_isnt_zero(1 << 63), 1);
    assert_eq!(BitUtil::one_if_val_isnt_zero(0xF0), 1);
    assert_eq!(BitUtil::calc_total_bits_in_num_usize(0), 0);
    assert_eq!(BitUtil::calc_total_bits_in_num_usize(3), 192);
    assert_eq!(MemUtil::max_capacity_for_type(8, 8), (isize::MAX as usize - 7) / 8);
    assert_eq!(MemUtil::max_capacity_for_type(1, 1), isize::MAX as usize);
}

#[test]
fn growth_targets() {
    assert_eq!(Grow::Exact.grow_target(10, 11, 1000), 11);
    assert_eq!(Grow::ExactPlus(5).grow_target(10, 11, 1000), 16);
    assert_eq!(Grow::ExactPlus(5).grow_target(10, 998, 1000), 1000);
    assert_eq!(Grow::ExactPlus(usize::MAX).grow_target(10, 11, 1000), 1000);
    assert_eq!(Grow::OnePointFive.grow_target(10, 11, 1000), 15);
    assert_eq!(Grow::OnePointFive.grow_target(10, 40, 1000), 40);
    assert_eq!(Grow::OnePointFive.grow_target(0, 1, 1000), 1);
    assert_eq!(Grow::OnePointFive.grow_target(900, 901, 1000), 1000);
    assert_eq!(Grow::OnePointFive.grow_target(usize::MAX, 5, usize::MAX), usize::MAX);
    assert_eq!(Grow::Double.grow_target(10, 11, 1000), 20);
    assert_eq!(Grow::Double.grow_target(10, 21, 1000), 21);
    assert_eq!(Grow::Double.grow_target(600, 601, 1000), 1000);
    assert_eq!(Grow::Double.grow_target(usize::MAX, 5, usize::MAX), usize::MAX);
    assert!(matches!(Grow::default(), Grow::OnePointFive));
}

#[test]
fn shrink_targets() {
    assert_eq!(Shrink::Minimum.shrink_target(7, 100), 7);
    assert_eq!(Shrink::SubtractOrMinimum(30).shrink_target(7, 100), 70);
    assert_eq!(Shrink::SubtractOrMinimum(95).shrink_target(7, 100), 7);
    assert_eq!(Shrink::SubtractOrMinimum(500).shrink_target(7, 100), 7);
    assert_eq!(Shrink::SubtractTruncate(95).shrink_target(7, 100), 5);
    assert_eq!(Shrink::SubtractTruncate(500).shrink_target(7, 100), 0);
    assert_eq!(Shrink::ThreeQuartersOrMinimum.shrink_target(7, 100), 75);
    assert_eq!(Shrink::ThreeQuartersOrMinimum.shrink_target(90, 100), 90);
    assert_eq!(Shrink::ThreeQuartersTruncate.shrink_target(90, 100), 75);
    assert_eq!(Shrink::ThreeQuartersTruncate.shrink_target(90, 101), 75);
    assert_eq!(Shrink::HalfOrMinimum.shrink_target(7, 100), 50);
    assert_eq!(Shrink::HalfOrMinimum.shrink_target(70, 100), 70);
    assert_eq!(Shrink::HalfTruncate.shrink_target(70, 101), 50);
    assert!(matches!(Shrink::default(), Shrink::ThreeQuartersOrMinimum));
}

#[test]
fn element_counts() {
    assert_eq!(ElementCount::Total(5).total_within(3, 10), Some(5));
    assert_eq!(ElementCount::Total(10).total_within(3, 10), Some(10));
    assert_eq!(ElementCount::Total(11).total_within(3, 10), None);
    assert_eq!(ElementCount::Additional(7).total_within(3, 10), Some(10));
    assert_eq!(ElementCount::Additional(8).total_within(3, 10), None);
    assert_eq!(ElementCount::Additional(usize::MAX).total_within(3, 10), None);
}

#[test]
fn runs_of_indices_give_coordinates() {
    let proto = BitProto::create(5);
    let mut run = IdxProxyRange::from_range(10..14);
    assert_eq!(run.len(), 4);
    assert_eq!(run.size_hint(), (4, Some(4)));
    assert_eq!(run.next(proto).map(|p| p.idx()), Some(10));
    assert_eq!(run.next_back(proto).map(|p| p.idx()), Some(13));
    let twelfth = run.next_back(proto).unwrap();
    assert_eq!((twelfth.real_idx, twelfth.first_offset), (0, 60));
    assert!(twelfth.second_mask != 0);
    assert_eq!(run.next(proto).map(|p| p.idx()), Some(11));
    assert_eq!(run.len(), 0);
    assert!(run.next(proto).is_none());
    assert!(run.next_back(proto).is_none());
    assert_eq!(IdxProxyRange::from_range_inclusive(2, 5).len(), 4);
    assert_eq!(IdxProxyRange::from_range_to(7).len(), 7);
    assert_eq!(IdxProxyRange::from_range_to_inclusive(7).len(), 8);
    assert_eq!(IdxProxyRange::from_range(5..3).len(), 0);
}

#[test]
fn coordinates_compare_by_index() {
    let proto = BitProto::create(7);
    let a: IdxProxy = BitProto::idx_proxy(proto, 3);
    let b: IdxProxy = BitProto::idx_proxy(proto, 30);
    let c: IdxProxy = BitProto::idx_proxy(proto, 3);
    assert!(a < b);
    assert!(b > c);
    assert_eq!(a, c);
    assert_ne!(a, b);
    assert_eq!(a.max(b).idx(), 30);
}

#[test]
fn range_bounds_are_made_definite() {
    assert_eq!(RangeUtil::get_real_bounds_for_veclike(RangeEdge::Included(2), RangeEdge::Excluded(9), 20), 2..9);
    assert_eq!(RangeUtil::get_real_bounds_for_veclike(RangeEdge::Excluded(2), RangeEdge::Included(9), 20), 3..10);
    assert_eq!(RangeUtil::get_real_bounds_for_veclike(RangeEdge::Unbounded, RangeEdge::Unbounded, 20), 0..20);
    assert_eq!(RangeUtil::get_real_bounds_for_veclike(RangeEdge::Included(5), RangeEdge::Unbounded, 0), 5..0);
}
