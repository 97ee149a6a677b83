use grit_bitvec::{BitProto, BitVecError, ElementCount, Grow, RawBitVec, Shrink};

fn filled(proto: BitProto, vals: &[u64]) -> RawBitVec {
    let mut vec = RawBitVec::new();
    for v in vals {
        vec.push(proto, *v).unwrap();
    }
    vec
}

fn contents(proto: BitProto, vec: &RawBitVec) -> Vec<u64> {
    (0..vec.len()).map(|i| vec.get(proto, i).unwrap()).collect()
}

/// The bits that hold elements, the rest of the last word cleared.
fn meaningful_words(proto: BitProto, vec: &RawBitVec) -> Vec<u64> {
    let total_bits = vec.len() * proto.BITS;
    let mut words: Vec<u64> = vec.as_blocks()[..(total_bits + 63) / 64].to_vec();
    if total_bits % 64 != 0 {
        let last = words.len() - 1;
        words[last] &= (1u64 << (total_bits % 64)) - 1;
    }
    words
}

#[test]
fn sixteen_nibbles_fill_one_word() {
    let proto = BitProto::create(4);
    let mut vec = RawBitVec::new();
    for i in 0..16 {
        let val = if i % 2 == 0 { 0xF } else { 0x6 };
        vec.push(proto, val).unwrap();
    }
    assert_eq!(vec.len(), 16);
    assert_eq!(vec.cap(proto), 16);
    assert_eq!(vec.as_blocks().as_slice(), &[0x6F6F6F6F6F6F6F6Fu64]);
    vec.push(proto, 0xF).unwrap();
    assert_eq!(vec.len(), 17);
    assert_eq!(vec.cap(proto), 32);
    assert_eq!(vec.block_count(), 2);
    assert_eq!(vec.as_blocks().as_slice(), &[0x6F6F6F6F6F6F6F6Fu64, 0xF]);
}

#[test]
fn twenty_second_three_bit_element_straddles_two_words() {
    let proto = BitProto::create(3);
    let mut vec = RawBitVec::new();
    for _ in 0..21 {
        vec.push(proto, 0b111).unwrap();
    }
    assert_eq!(vec.cap(proto), 21);
    assert_eq!(vec.as_blocks().as_slice(), &[0x7FFF_FFFF_FFFF_FFFFu64]);
    vec.push(proto, 0b111).unwrap();
    assert_eq!(vec.len(), 22);
    assert_eq!(vec.cap(proto), 42);
    assert_eq!(vec.as_blocks().as_slice(), &[0xFFFF_FFFF_FFFF_FFFFu64, 0b11]);
    assert_eq!(vec.get(proto, 21), Ok(0b111));
    assert_eq!(vec.pop(proto), Ok(0b111));
    assert_eq!(meaningful_words(proto, &vec), vec![0x7FFF_FFFF_FFFF_FFFFu64]);
}

#[test]
fn straddling_element_keeps_its_neighbours() {
    let proto = BitProto::create(3);
    let mut vec = filled(proto, &[0; 23]);
    vec.set(proto, 21, 0b101).unwrap();
    assert_eq!(vec.as_blocks().as_slice(), &[1u64 << 63, 0b10]);
    assert_eq!(vec.get(proto, 20), Ok(0));
    assert_eq!(vec.get(proto, 21), Ok(0b101));
    assert_eq!(vec.get(proto, 22), Ok(0));
    assert_eq!(vec.replace(proto, 21, 0b010), Ok(0b101));
    assert_eq!(vec.as_blocks().as_slice(), &[0u64, 0b01]);
}

#[test]
fn pop_on_empty_vector_is_an_error() {
    for width in 1..=64usize {
        let proto = BitProto::create(width);
        let mut vec = RawBitVec::new();
        assert_eq!(vec.pop(proto), Err(BitVecError::EmptyVector));
        assert_eq!(vec.len(), 0);
        assert_eq!(vec.block_count(), 0);
        let mut sized = RawBitVec::with_capacity(proto, 10);
        let cap = sized.cap(proto);
        assert_eq!(sized.pop(proto), Err(BitVecError::EmptyVector));
        assert_eq!(sized.len(), 0);
        assert_eq!(sized.cap(proto), cap);
    }
}

#[test]
fn pushes_pop_in_reverse() {
    for width in 1..=64usize {
        let proto = BitProto::create(width);
        let vals: Vec<u64> = (0..150u64).map(|i| (i.wrapping_mul(0x9E37_79B9_7F4A_7C15) >> 3) & proto.MASK).collect();
        let mut vec = filled(proto, &[proto.MASK, 0, 1 & proto.MASK]);
        for v in &vals {
            vec.push(proto, *v).unwrap();
        }
        let cap = vec.cap(proto);
        for v in vals.iter().rev() {
            assert_eq!(vec.pop(proto), Ok(*v));
            assert!(vec.cap(proto) >= cap);
        }
        assert_eq!(vec.len(), 3);
        assert_eq!(contents(proto, &vec), vec![proto.MASK, 0, 1 & proto.MASK]);
    }
}

#[test]
fn insert_then_remove_restores_the_vector() {
    for width in [1usize, 2, 3, 4, 5, 7, 8, 11, 13, 16, 31, 32, 33, 63, 64] {
        let proto = BitProto::create(width);
        let vals: Vec<u64> = (0..70u64).map(|i| (i.wrapping_mul(0xD6E8_FEB8_6659_FD93) >> 5) & proto.MASK).collect();
        for i in 0..=vals.len() {
            let mut vec = filled(proto, &vals);
            let before = meaningful_words(proto, &vec);
            vec.insert(proto, i, proto.MASK).unwrap();
            assert_eq!(vec.len(), vals.len() + 1);
            assert_eq!(vec.get(proto, i), Ok(proto.MASK));
            assert_eq!(vec.remove(proto, i), Ok(proto.MASK));
            assert_eq!(contents(proto, &vec), vals);
            assert_eq!(meaningful_words(proto, &vec), before);
        }
    }
}

#[test]
fn swap_with_itself_changes_nothing() {
    let proto = BitProto::create(5);
    let mut vec = filled(proto, &[1, 2, 3, 4, 5, 31, 30, 29, 0, 7, 9, 11, 13, 17]);
    let before = vec.as_blocks().clone();
    for i in 0..vec.len() {
        assert_eq!(vec.swap(proto, i, i), Ok(()));
        assert_eq!(vec.as_blocks(), &before);
    }
}

#[test]
fn swap_exchanges_two_elements() {
    let proto = BitProto::create(5);
    let mut vec = filled(proto, &[1, 2, 3, 4, 5, 31, 30, 29, 0, 7, 9, 11, 13, 17]);
    assert_eq!(vec.swap(proto, 2, 12), Ok(()));
    assert_eq!(contents(proto, &vec), vec![1, 2, 13, 4, 5, 31, 30, 29, 0, 7, 9, 11, 3, 17]);
    assert_eq!(vec.swap(proto, 13, 0), Ok(()));
    assert_eq!(contents(proto, &vec), vec![17, 2, 13, 4, 5, 31, 30, 29, 0, 7, 9, 11, 3, 1]);
}

#[test]
fn swap_pop_puts_the_last_element_in_the_gap() {
    let proto = BitProto::create(7);
    let mut vec = filled(proto, &[10, 20, 30, 40, 50]);
    assert_eq!(vec.swap_pop(proto, 1), Ok(20));
    assert_eq!(contents(proto, &vec), vec![10, 50, 30, 40]);
    assert_eq!(vec.swap_pop(proto, 3), Ok(40));
    assert_eq!(contents(proto, &vec), vec![10, 50, 30]);
    assert_eq!(vec.swap_pop(proto, 3), Err(BitVecError::IndexOutOfRange { index: 3, len: 3 }));
}

#[test]
fn capacity_climbs_by_half_and_never_falls() {
    let proto = BitProto::create(4);
    let mut vec = RawBitVec::new();
    let mut rungs = vec![0usize];
    let mut last = 0usize;
    for i in 0..2000u64 {
        vec.push(proto, i & 0xF).unwrap();
        let now = vec.block_count();
        assert!(now >= last);
        if now != last {
            rungs.push(now);
            last = now;
        }
    }
    assert_eq!(rungs, vec![0, 1, 2, 3, 5, 8, 12, 18, 27, 41, 62, 93, 140]);
}

#[test]
fn remove_range_takes_the_middle_out() {
    for width in [1usize, 3, 4, 9, 17, 32, 33, 64] {
        let proto = BitProto::create(width);
        let vals: Vec<u64> = (0..100u64).map(|i| (i.wrapping_mul(0xA24B_AED4_963E_E407) >> 7) & proto.MASK).collect();
        for (lo, hi) in [(0usize, 1usize), (0, 100), (3, 4), (10, 31), (21, 43), (50, 100), (63, 64), (64, 65), (1, 99)] {
            let mut vec = filled(proto, &vals);
            let removed = vec.remove_range(proto, lo..hi).unwrap();
            assert_eq!(removed.len(), hi - lo);
            assert_eq!(contents(proto, &removed), vals[lo..hi].to_vec());
            assert_eq!(vec.len(), vals.len() - (hi - lo));
            let mut rest = vals[..lo].to_vec();
            rest.extend_from_slice(&vals[hi..]);
            assert_eq!(contents(proto, &vec), rest);
        }
    }
}

#[test]
fn remove_range_of_nothing_takes_nothing() {
    let proto = BitProto::create(6);
    let mut vec = filled(proto, &[1, 2, 3, 4]);
    let removed = vec.remove_range(proto, 2..2).unwrap();
    assert_eq!(removed.len(), 0);
    let reversed = vec.remove_range(proto, 3..1).unwrap();
    assert_eq!(reversed.len(), 0);
    assert_eq!(contents(proto, &vec), vec![1, 2, 3, 4]);
    assert!(matches!(vec.remove_range(proto, 2..5), Err(BitVecError::IndexOutOfRange { index: 4, len: 4 })));
    assert_eq!(contents(proto, &vec), vec![1, 2, 3, 4]);
}

#[test]
fn remove_at_word_boundary_keeps_neighbours() {
    let proto = BitProto::create(4);
    let mut vec = RawBitVec::new();
    for i in 0..20u64 {
        vec.push(proto, i % 16).unwrap();
    }
    assert_eq!(vec.remove(proto, 15), Ok(15));
    assert_eq!(vec.len(), 19);
    for i in 0..15usize {
        assert_eq!(vec.get(proto, i), Ok(i as u64));
    }
    for i in 15..19usize {
        assert_eq!(vec.get(proto, i), Ok(((i + 1) % 16) as u64));
    }
}

#[test]
fn index_errors_name_index_and_length() {
    let proto = BitProto::create(9);
    let mut vec = filled(proto, &[5, 6, 7]);
    let before = vec.as_blocks().clone();
    assert_eq!(vec.get(proto, 3), Err(BitVecError::IndexOutOfRange { index: 3, len: 3 }));
    assert_eq!(vec.set(proto, 4, 1), Err(BitVecError::IndexOutOfRange { index: 4, len: 3 }));
    assert_eq!(vec.replace(proto, 5, 1), Err(BitVecError::IndexOutOfRange { index: 5, len: 3 }));
    assert_eq!(vec.insert(proto, 4, 1), Err(BitVecError::IndexOutOfRange { index: 4, len: 3 }));
    assert_eq!(vec.remove(proto, 3), Err(BitVecError::IndexOutOfRange { index: 3, len: 3 }));
    assert_eq!(vec.swap(proto, 7, 0), Err(BitVecError::IndexOutOfRange { index: 7, len: 3 }));
    assert_eq!(vec.swap(proto, 0, 8), Err(BitVecError::IndexOutOfRange { index: 8, len: 3 }));
    assert_eq!(vec.insert_iter(proto, 4, &vec![1, 2]), Err(BitVecError::IndexOutOfRange { index: 4, len: 3 }));
    assert_eq!(
        vec.insert_bitvec(proto, 9, RawBitVec::new()),
        Err(BitVecError::IndexOutOfRange { index: 9, len: 3 })
    );
    assert_eq!(vec.len(), 3);
    assert_eq!(vec.as_blocks(), &before);
}

#[test]
fn more_than_the_maximum_capacity_is_refused() {
    let proto = BitProto::create(12);
    let mut vec = filled(proto, &[5, 6, 7]);
    let refused = Err(BitVecError::CapacityExceeded { max_capacity: proto.MAX_CAPACITY });
    assert_eq!(vec.grow_exact_for_total_elements_if_needed(proto, proto.MAX_CAPACITY + 1), refused);
    assert_eq!(vec.grow_for_total_elements_if_needed(proto, usize::MAX), refused);
    assert_eq!(vec.grow_exact_for_additional_elements_if_needed(proto, proto.MAX_CAPACITY - 2), refused);
    assert_eq!(vec.grow_for_additional_elements_if_needed(proto, usize::MAX), refused);
    assert_eq!(vec.handle_grow_if_needed(proto, proto.MAX_CAPACITY + 1, true), refused);
    assert_eq!(
        vec.grow_if_needed(proto, ElementCount::Additional(usize::MAX), Grow::Exact),
        refused
    );
    assert_eq!(vec.len(), 3);
    assert_eq!(vec.block_count(), 1);
    assert_eq!(contents(proto, &vec), vec![5, 6, 7]);
}

#[test]
fn a_vector_at_its_maximum_length_takes_no_more() {
    for width in [1usize, 3, 4, 17, 64] {
        let proto = BitProto::create(width);
        let refused = Err(BitVecError::CapacityExceeded { max_capacity: proto.MAX_CAPACITY });
        let words = vec![0x1234_5678u64, 9];
        let mut full = RawBitVec::from_blocks_unchecked(words.clone(), proto.MAX_CAPACITY);
        assert_eq!(full.len(), proto.MAX_CAPACITY);
        assert_eq!(full.push(proto, 1), refused);
        assert_eq!(full.insert(proto, 0, 1), refused);
        assert_eq!(full.append_bitvec(proto, filled(proto, &[1])), refused);
        assert_eq!(full.insert_bitvec(proto, 0, filled(proto, &[1])), refused);
        assert_eq!(full.append_iter(proto, &vec![1]), refused);
        assert_eq!(full.insert_iter(proto, 0, &vec![1, 0]), refused);
        assert_eq!(full.len(), proto.MAX_CAPACITY);
        assert_eq!(full.as_blocks(), &words);
    }
}

#[test]
fn words_and_length_are_taken_as_given() {
    let proto = BitProto::create(4);
    let vec = RawBitVec::from_blocks_unchecked(vec![0x3210, 0xF], 17);
    assert_eq!(vec.len(), 17);
    assert_eq!(vec.block_count(), 2);
    assert_eq!(vec.as_blocks().as_slice(), &[0x3210u64, 0xF]);
    assert_eq!(contents(proto, &vec)[..5], [0, 1, 2, 3, 0]);
    assert_eq!(vec.get(proto, 16), Ok(0xF));
}

#[test]
fn writing_an_element_leaves_every_other_bit() {
    let proto = BitProto::create(3);
    let words = vec![0xDEAD_BEEF_0BAD_F00Du64, 0x0123_4567_89AB_CDEF, u64::MAX];
    let mut vec = RawBitVec::from_blocks(proto, words.clone(), 30).unwrap();
    assert_eq!(vec.set(proto, 21, 0b010), Ok(()));
    assert_eq!(vec.as_blocks().as_slice(), &[0x5EAD_BEEF_0BAD_F00Du64, 0x0123_4567_89AB_CDED, u64::MAX]);
    assert_eq!(vec.replace(proto, 0, 0b111), Ok(0b101));
    assert_eq!(vec.as_blocks().as_slice(), &[0x5EAD_BEEF_0BAD_F00Fu64, 0x0123_4567_89AB_CDED, u64::MAX]);
    assert_eq!(vec.pop(proto), Ok((0x0123_4567_89AB_CDEDu64 >> 23) & 7));
    assert_eq!(
        vec.as_blocks().as_slice(),
        &[0x5EAD_BEEF_0BAD_F00Fu64, 0x0123_4567_89AB_CDED & !(7 << 23), u64::MAX]
    );
    assert_eq!(vec.push(proto, 0b110), Ok(()));
    assert_eq!(
        vec.as_blocks().as_slice(),
        &[0x5EAD_BEEF_0BAD_F00Fu64, (0x0123_4567_89AB_CDED & !(7 << 23)) | (0b110 << 23), u64::MAX]
    );
}

#[test]
fn words_behind_the_elements_are_left_alone() {
    for width in [1usize, 3, 4, 7, 16, 33, 64] {
        let proto = BitProto::create(width);
        let mut words: Vec<u64> = (0..12u64).map(|i| i.wrapping_mul(0x9E37_79B9_7F4A_7C15) | 1).collect();
        let len = 200 / width;
        let used = |count: usize| (count * width + 63) / 64;
        let mut vec = RawBitVec::from_blocks(proto, words.clone(), len).unwrap();

        assert!(vec.insert(proto, 1, proto.MASK).is_ok());
        assert_eq!(vec.as_blocks()[used(len + 1)..], words[used(len + 1)..]);
        words = vec.as_blocks().clone();

        assert!(vec.remove(proto, 0).is_ok());
        assert_eq!(vec.as_blocks()[used(len + 1)..], words[used(len + 1)..]);
        words = vec.as_blocks().clone();

        assert!(vec.insert_iter(proto, 2, &vec![0, proto.MASK, 1]).is_ok());
        assert_eq!(vec.as_blocks()[used(len + 3)..], words[used(len + 3)..]);
        words = vec.as_blocks().clone();

        assert!(vec.append_bitvec(proto, filled(proto, &[1, 0])).is_ok());
        assert_eq!(vec.as_blocks()[used(len + 5)..], words[used(len + 5)..]);
        words = vec.as_blocks().clone();

        assert!(vec.remove_range(proto, 1..4).is_ok());
        assert_eq!(vec.as_blocks()[used(len + 5)..], words[used(len + 5)..]);
        words = vec.as_blocks().clone();

        assert!(vec.swap(proto, 0, len).is_ok());
        assert!(vec.swap_pop(proto, 1).is_ok());
        assert!(vec.trim_range(proto, len - 1).is_ok());
        assert_eq!(vec.as_blocks()[used(len + 2)..], words[used(len + 2)..]);
        assert_eq!(vec.block_count(), 12);
    }
}

#[test]
fn values_are_checked_against_the_mask() {
    let proto = BitProto::create(5);
    assert_eq!(BitProto::check_value(proto, 31), Ok(()));
    assert_eq!(BitProto::check_value(proto, 0), Ok(()));
    assert_eq!(BitProto::check_value(proto, 32), Err(BitVecError::ValueTooWide { value: 32, mask: 31 }));
    let widest = BitProto::create(64);
    assert_eq!(BitProto::check_value(widest, u64::MAX), Ok(()));
}

#[test]
fn values_that_do_not_fit_are_refused() {
    let proto = BitProto::create(5);
    let mut vec = filled(proto, &[1, 2, 3]);
    let words = vec.as_blocks().clone();
    assert_eq!(vec.push(proto, 32), Err(BitVecError::ValueTooWide { value: 32, mask: 31 }));
    assert_eq!(vec.insert(proto, 1, 100), Err(BitVecError::ValueTooWide { value: 100, mask: 31 }));
    assert_eq!(vec.insert(proto, 4, 100), Err(BitVecError::IndexOutOfRange { index: 4, len: 3 }));
    assert_eq!(vec.set(proto, 0, u64::MAX), Err(BitVecError::ValueTooWide { value: u64::MAX, mask: 31 }));
    assert_eq!(vec.set(proto, 3, u64::MAX), Err(BitVecError::IndexOutOfRange { index: 3, len: 3 }));
    assert_eq!(vec.replace(proto, 2, 33), Err(BitVecError::ValueTooWide { value: 33, mask: 31 }));
    assert_eq!(
        vec.append_iter(proto, &vec![4, 5, 40, 6, 50]),
        Err(BitVecError::ValueTooWide { value: 40, mask: 31 })
    );
    assert_eq!(
        vec.insert_iter(proto, 1, &vec![77, 5, 40]),
        Err(BitVecError::ValueTooWide { value: 77, mask: 31 })
    );
    assert_eq!(RawBitVec::find_misfit(proto, &vec![4, 5, 40, 6, 50]), Some(2));
    assert_eq!(RawBitVec::find_misfit(proto, &vec![4, 5, 31]), None);
    assert_eq!(RawBitVec::find_misfit(proto, &Vec::new()), None);
    assert_eq!(vec.len(), 3);
    assert_eq!(vec.as_blocks(), &words);
    assert_eq!(contents(proto, &vec), vec![1, 2, 3]);
    assert_eq!(vec.push(proto, 31), Ok(()));
    assert_eq!(contents(proto, &vec), vec![1, 2, 3, 31]);
}

#[test]
fn growing_exactly_and_by_half() {
    let proto = BitProto::create(4);
    let mut vec = RawBitVec::new();
    vec.grow_exact_for_total_elements_if_needed(proto, 17).unwrap();
    assert_eq!(vec.block_count(), 2);
    vec.grow_for_total_elements_if_needed(proto, 33).unwrap();
    assert_eq!(vec.block_count(), 4);
    vec.grow_for_total_elements_if_needed(proto, 64).unwrap();
    assert_eq!(vec.block_count(), 4);
    vec.push(proto, 3).unwrap();
    vec.grow_exact_for_additional_elements_if_needed(proto, 64).unwrap();
    assert_eq!(vec.block_count(), 5);
    vec.grow_for_additional_elements_if_needed(proto, 96).unwrap();
    assert_eq!(vec.block_count(), 10);
    assert_eq!(vec.cap(proto), 160);
    assert_eq!(vec.free(proto), 159);
    assert_eq!(contents(proto, &vec), vec![3]);
    assert!(vec.as_blocks()[1..].iter().all(|w| *w == 0));
}

#[test]
fn growing_by_policy() {
    let proto = BitProto::create(8);
    let mut vec = RawBitVec::with_capacity(proto, 16);
    assert_eq!(vec.block_count(), 2);
    vec.grow_if_needed(proto, ElementCount::Total(16), Grow::Double).unwrap();
    assert_eq!(vec.block_count(), 2);
    vec.grow_if_needed(proto, ElementCount::Total(17), Grow::Double).unwrap();
    assert_eq!(vec.cap(proto), 32);
    vec.grow_if_needed(proto, ElementCount::Additional(33), Grow::OnePointFive).unwrap();
    assert_eq!(vec.cap(proto), 48);
    vec.grow_if_needed(proto, ElementCount::Total(100), Grow::OnePointFive).unwrap();
    assert_eq!(vec.cap(proto), 104);
    vec.grow_if_needed(proto, ElementCount::Total(105), Grow::Exact).unwrap();
    assert_eq!(vec.cap(proto), 112);
    vec.grow_if_needed(proto, ElementCount::Total(113), Grow::ExactPlus(20)).unwrap();
    assert_eq!(vec.cap(proto), 136);
}

#[test]
fn shrinking_gives_words_back_and_keeps_the_elements() {
    let proto = BitProto::create(4);
    let vals: Vec<u64> = (0..40u64).map(|i| i % 16).collect();
    let mut vec = RawBitVec::with_capacity(proto, 400);
    vec.append_iter(proto, &vals).unwrap();
    assert_eq!(vec.block_count(), 25);
    vec.shrink(proto, Shrink::ThreeQuartersOrMinimum);
    assert_eq!(vec.cap(proto), 304);
    vec.shrink(proto, Shrink::HalfOrMinimum);
    assert_eq!(vec.cap(proto), 160);
    vec.shrink(proto, Shrink::SubtractOrMinimum(100));
    assert_eq!(vec.cap(proto), 64);
    vec.shrink(proto, Shrink::SubtractOrMinimum(100));
    assert_eq!(vec.cap(proto), 48);
    assert_eq!(contents(proto, &vec), vals);
    vec.shrink(proto, Shrink::Minimum);
    assert_eq!(vec.block_count(), 3);
    assert_eq!(contents(proto, &vec), vals);
    vec.shrink(proto, Shrink::HalfTruncate);
    assert_eq!(vec.len(), 24);
    assert_eq!(vec.block_count(), 2);
    assert_eq!(contents(proto, &vec), vals[..24].to_vec());
    vec.shrink(proto, Shrink::ThreeQuartersTruncate);
    assert_eq!(vec.len(), 24);
    assert_eq!(vec.cap(proto), 32);
    vec.shrink(proto, Shrink::SubtractTruncate(30));
    assert_eq!(vec.len(), 2);
    assert_eq!(vec.block_count(), 1);
    assert_eq!(contents(proto, &vec), vec![0, 1]);
    vec.shrink(proto, Shrink::SubtractTruncate(30));
    assert_eq!(vec.len(), 0);
    assert_eq!(vec.block_count(), 0);
}

#[test]
fn trimming_excess_capacity_keeps_what_is_asked() {
    let proto = BitProto::create(3);
    let vals: Vec<u64> = (0..30u64).map(|i| i % 8).collect();
    let mut vec = RawBitVec::with_capacity(proto, 1000);
    vec.append_iter(proto, &vals).unwrap();
    assert_eq!(vec.block_count(), 47);
    assert_eq!(vec.shrink_excess_capacity(proto, 40), Ok(()));
    assert_eq!(vec.block_count(), 4);
    assert_eq!(contents(proto, &vec), vals);
    assert_eq!(vec.shrink_excess_capacity(proto, usize::MAX), Ok(()));
    assert_eq!(vec.block_count(), 4);
    assert_eq!(vec.shrink_excess_capacity(proto, 0), Ok(()));
    assert_eq!(vec.block_count(), 2);
    assert_eq!(contents(proto, &vec), vals);
}

#[test]
fn storage_asked_for_is_zero() {
    let proto = BitProto::create(13);
    let vec = RawBitVec::with_capacity(proto, 100);
    assert_eq!(vec.len(), 0);
    assert_eq!(vec.block_count(), 21);
    assert_eq!(vec.cap(proto), 103);
    assert!(vec.as_blocks().iter().all(|w| *w == 0));
}

#[test]
fn vectors_are_made_from_words() {
    let proto = BitProto::create(4);
    let vec = RawBitVec::from_blocks(proto, vec![0x3210, 0xF], 17).unwrap();
    assert_eq!(vec.len(), 17);
    assert_eq!(vec.get(proto, 3), Ok(3));
    assert_eq!(vec.get(proto, 16), Ok(0xF));
    assert!(RawBitVec::from_blocks(proto, vec![0x3210, 0xF], 33).is_none());
    assert!(RawBitVec::from_blocks(proto, vec![0x3210, 0xF], 32).is_some());
    assert!(RawBitVec::from_blocks(proto, Vec::new(), 0).is_some());
}

#[test]
fn appending_and_inserting_value_lists() {
    let proto = BitProto::create(10);
    let mut vec = filled(proto, &[1, 2, 3]);
    vec.append_iter(proto, &vec![4, 5, 6, 1023]).unwrap();
    assert_eq!(contents(proto, &vec), vec![1, 2, 3, 4, 5, 6, 1023]);
    vec.insert_iter(proto, 2, &vec![100, 200, 300, 400, 500, 600, 700]).unwrap();
    assert_eq!(contents(proto, &vec), vec![1, 2, 100, 200, 300, 400, 500, 600, 700, 3, 4, 5, 6, 1023]);
    vec.insert_iter(proto, 14, &vec![9]).unwrap();
    vec.insert_iter(proto, 0, &Vec::new()).unwrap();
    vec.insert_iter(proto, 0, &vec![8]).unwrap();
    assert_eq!(contents(proto, &vec), vec![8, 1, 2, 100, 200, 300, 400, 500, 600, 700, 3, 4, 5, 6, 1023, 9]);
}

#[test]
fn inserting_and_appending_vectors() {
    let proto = BitProto::create(17);
    let mut vec = filled(proto, &[1, 2, 3, 4, 5]);
    vec.insert_bitvec(proto, 2, filled(proto, &[70000, 80000, 90000, 100000, 110000, 120000, 130000])).unwrap();
    assert_eq!(contents(proto, &vec), vec![1, 2, 70000, 80000, 90000, 100000, 110000, 120000, 130000, 3, 4, 5]);
    vec.append_bitvec(proto, filled(proto, &[7, 8])).unwrap();
    vec.insert_bitvec(proto, 14, filled(proto, &[9])).unwrap();
    vec.insert_bitvec(proto, 3, RawBitVec::new()).unwrap();
    assert_eq!(
        contents(proto, &vec),
        vec![1, 2, 70000, 80000, 90000, 100000, 110000, 120000, 130000, 3, 4, 5, 7, 8, 9]
    );
}

#[test]
fn shifts_by_whole_words_move_every_element() {
    for (width, count) in [(4usize, 16usize), (4, 32), (1, 64), (1, 128), (8, 8), (16, 12), (32, 2), (64, 1), (64, 3)] {
        let proto = BitProto::create(width);
        let vals: Vec<u64> = (0..90u64).map(|i| (i.wrapping_mul(0xC2B2_AE3D_27D4_EB4F) >> 9) & proto.MASK).collect();
        let extra: Vec<u64> = (0..count as u64).map(|i| (i * 7 + 1) & proto.MASK).collect();
        for at in [0usize, 1, 5, 15, 16, 17, 63, 64, 89] {
            let mut vec = filled(proto, &vals);
            vec.insert_iter(proto, at, &extra).unwrap();
            let mut expected = vals[..at].to_vec();
            expected.extend_from_slice(&extra);
            expected.extend_from_slice(&vals[at..]);
            assert_eq!(contents(proto, &vec), expected);
            let removed = vec.remove_range(proto, at..at + count).unwrap();
            assert_eq!(contents(proto, &removed), extra);
            assert_eq!(contents(proto, &vec), vals);
        }
    }
}

#[test]
fn trimming_takes_the_tail() {
    let proto = BitProto::create(9);
    let mut vec = filled(proto, &[10, 20, 30, 40, 50]);
    let tail = vec.trim_range(proto, 2).unwrap();
    assert_eq!(contents(proto, &tail), vec![30, 40, 50]);
    assert_eq!(contents(proto, &vec), vec![10, 20]);
    let nothing = vec.trim_range(proto, 2).unwrap();
    assert_eq!(nothing.len(), 0);
    assert!(matches!(vec.trim_range(proto, 3), Err(BitVecError::IndexOutOfRange { index: 3, len: 2 })));
    let all = vec.trim_range(proto, 0).unwrap();
    assert_eq!(contents(proto, &all), vec![10, 20]);
    assert_eq!(vec.len(), 0);
}

#[test]
fn draining_empties_the_vector_and_keeps_its_storage() {
    let proto = BitProto::create(6);
    let mut vec = filled(proto, &[1, 2, 3, 4, 5]);
    let words = vec.block_count();
    let mut drain = vec.drain();
    assert_eq!(vec.len(), 0);
    assert_eq!(vec.block_count(), words);
    assert_eq!(drain.len(), 5);
    assert_eq!(drain.next(proto), Some(1));
    assert_eq!(drain.next_back(proto), Some(5));
    assert_eq!(drain.next_back(proto), Some(4));
    assert_eq!(drain.next(proto), Some(2));
    assert_eq!(drain.len(), 1);
    assert_eq!(drain.next(proto), Some(3));
    assert_eq!(drain.next(proto), None);
    assert_eq!(drain.next_back(proto), None);
    vec.push(proto, 9).unwrap();
    assert_eq!(contents(proto, &vec), vec![9]);
}

#[test]
fn walking_a_vector_from_both_ends() {
    let proto = BitProto::create(33);
    let vec = filled(proto, &[1 << 32, 2, 3, 4]);
    let mut iter = vec.into_iter();
    assert_eq!(iter.len(), 4);
    assert_eq!(iter.next_back(proto), Some(4));
    assert_eq!(iter.next(proto), Some(1 << 32));
    assert_eq!(iter.next(proto), Some(2));
    assert_eq!(iter.next(proto), Some(3));
    assert_eq!(iter.len(), 0);
    assert_eq!(iter.next(proto), None);
    assert_eq!(iter.next_back(proto), None);
}

#[test]
fn clearing_keeps_the_storage() {
    let proto = BitProto::create(2);
    let mut vec = filled(proto, &[1, 2, 3]);
    let words = vec.as_blocks().clone();
    vec.clear();
    assert_eq!(vec.len(), 0);
    assert_eq!(vec.as_blocks(), &words);
}
