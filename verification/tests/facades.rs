use grit_bitvec::{
    BitElem, BitProto, BitVecError, CProtoBitVec, LProtoBitVec, RawBitVec, SProtoBitVec, SignedBits, TypedBitVec,
    UnsignedBits,
};

fn leaked(width: usize) -> &'static BitProto {
    Box::leak(Box::new(BitProto::create(width)))
}

#[test]
fn const_width_vector_does_what_the_raw_one_does() {
    let mut vec = CProtoBitVec::<5>::with_capacity(3);
    assert_eq!(vec.cap(), 12);
    assert_eq!(vec.free(), 12);
    for v in [1u64, 2, 3, 31, 30] {
        vec.push(v).unwrap();
    }
    vec.insert(1, 17).unwrap();
    assert_eq!(vec.len(), 6);
    assert_eq!(vec.get(1), Ok(17));
    assert_eq!(vec.remove(0), Ok(1));
    assert_eq!(vec.swap(0, 4), Ok(()));
    assert_eq!(vec.swap_pop(1), Ok(2));
    assert_eq!(vec.replace(0, 9), Ok(30));
    assert_eq!(vec.set(2, 8), Ok(()));
    assert_eq!(vec.pop(), Ok(31));
    let taken = vec.remove_range(1..3).unwrap();
    assert_eq!(taken.get(0), Ok(17));
    assert_eq!(taken.get(1), Ok(8));
    assert_eq!(vec.len(), 1);
    assert_eq!(vec.get(0), Ok(9));
    assert_eq!(vec.get(1), Err(BitVecError::IndexOutOfRange { index: 1, len: 1 }));
    vec.append_bitvec(taken).unwrap();
    vec.append_iter(&vec![4, 5]).unwrap();
    vec.insert_iter(1, &vec![6, 7]).unwrap();
    let mut iter = vec.into_iter();
    assert_eq!(iter.size_hint(), (7, Some(7)));
    let mut seen = Vec::new();
    while let Some(v) = iter.next() {
        seen.push(v);
    }
    assert_eq!(seen, vec![9, 6, 7, 17, 8, 4, 5]);
    assert_eq!(CProtoBitVec::<5>::proto().MASK, 31);
    let mut narrow = CProtoBitVec::<2>::new();
    assert_eq!(narrow.push(4), Err(BitVecError::ValueTooWide { value: 4, mask: 3 }));
    assert_eq!(narrow.push(3), Ok(()));
    assert_eq!(narrow.set(0, 9), Err(BitVecError::ValueTooWide { value: 9, mask: 3 }));
    assert_eq!(narrow.get(0), Ok(3));
}

#[test]
fn vector_with_its_own_prototype() {
    let proto = BitProto::create(11);
    let mut vec = LProtoBitVec::new(proto);
    assert_eq!(vec.proto().BITS, 11);
    for v in 0..40u64 {
        vec.push(v * 50).unwrap();
    }
    assert_eq!(vec.len(), 40);
    assert_eq!(vec.cap(), 46);
    assert_eq!(vec.get(39), Ok(1950));
    let mut other = LProtoBitVec::with_capacity(proto, 5);
    other.push(2047).unwrap();
    vec.insert_bitvec(0, other).unwrap();
    assert_eq!(vec.get(0), Ok(2047));
    assert_eq!(vec.get(1), Ok(0));
    assert_eq!(vec.trim_excess_capacity(0), Ok(()));
    assert_eq!(vec.as_raw().block_count(), 8);
    let mut drain = vec.drain();
    assert_eq!(drain.len(), 41);
    assert_eq!(drain.next(), Some(2047));
    assert_eq!(drain.next_back(), Some(1950));
    assert_eq!(vec.len(), 0);
    assert_eq!(vec.pop(), Err(BitVecError::EmptyVector));
    let raw: RawBitVec = vec.into_raw();
    assert_eq!(raw.block_count(), 8);
}

#[test]
fn vector_that_refers_to_a_prototype() {
    let proto = leaked(3);
    let mut vec = SProtoBitVec::with_capacity(proto, 22);
    assert_eq!(vec.cap(), 42);
    for v in 0..22u64 {
        vec.push(v % 8).unwrap();
    }
    assert_eq!(vec.get(21), Ok(5));
    assert_eq!(vec.insert(21, 7), Ok(()));
    assert_eq!(vec.get(21), Ok(7));
    assert_eq!(vec.get(22), Ok(5));
    assert_eq!(vec.remove(21), Ok(7));
    assert_eq!(vec.grow_for_total_elements_if_needed(43), Ok(()));
    assert_eq!(vec.cap(), 85);
    assert_eq!(vec.grow_exact_for_additional_elements_if_needed(64), Ok(()));
    assert_eq!(vec.cap(), 106);
    let tail = vec.trim_range(20).unwrap();
    assert_eq!(tail.len(), 2);
    assert_eq!(tail.get(0), Ok(4));
    assert_eq!(tail.get(1), Ok(5));
    assert_eq!(vec.len(), 20);
    vec.clear();
    assert_eq!(vec.len(), 0);
    assert_eq!(vec.cap(), 106);
    assert_eq!(vec.proto().MASK, 7);
}

#[test]
fn unsigned_kind_keeps_the_low_bits() {
    assert_eq!(UnsignedBits::<3>::bits(), 3);
    assert_eq!(UnsignedBits::<3>::val_to_bits(5), 5);
    assert_eq!(UnsignedBits::<3>::val_to_bits(13), 5);
    assert_eq!(UnsignedBits::<3>::bits_to_val(5), 5);
    assert_eq!(UnsignedBits::<64>::val_to_bits(u64::MAX), u64::MAX);
    assert_eq!(UnsignedBits::<3>::min_value(), 0);
    assert_eq!(UnsignedBits::<3>::max_value(), 7);
    assert_eq!(UnsignedBits::<64>::max_value(), u64::MAX);
}

#[test]
fn signed_kind_extends_the_sign() {
    assert_eq!(SignedBits::<11>::bits(), 11);
    assert_eq!(SignedBits::<11>::val_to_bits(-1), 0x7FF);
    assert_eq!(SignedBits::<11>::val_to_bits(-1024), 0x400);
    assert_eq!(SignedBits::<11>::val_to_bits(1023), 0x3FF);
    assert_eq!(SignedBits::<11>::bits_to_val(0x7FF), -1);
    assert_eq!(SignedBits::<11>::bits_to_val(0x400), -1024);
    assert_eq!(SignedBits::<11>::bits_to_val(0x3FF), 1023);
    assert_eq!(SignedBits::<11>::bits_to_val(0), 0);
    assert_eq!(SignedBits::<11>::min_value(), -1024);
    assert_eq!(SignedBits::<11>::max_value(), 1023);
    assert_eq!(SignedBits::<1>::min_value(), -1);
    assert_eq!(SignedBits::<1>::max_value(), 0);
    assert_eq!(SignedBits::<64>::min_value(), i64::MIN);
    assert_eq!(SignedBits::<64>::max_value(), i64::MAX);
    for width in [SignedBits::<7>::bits()] {
        for v in -64i64..64 {
            assert_eq!(SignedBits::<7>::bits_to_val(SignedBits::<7>::val_to_bits(v)), v);
        }
        assert_eq!(width, 7);
    }
    for v in [i64::MIN, -1, 0, 1, i64::MAX] {
        assert_eq!(SignedBits::<64>::bits_to_val(SignedBits::<64>::val_to_bits(v)), v);
    }
}

#[test]
fn truth_values_take_one_bit() {
    assert_eq!(<bool as BitElem>::bits(), 1);
    assert_eq!(<bool as BitElem>::val_to_bits(true), 1);
    assert_eq!(<bool as BitElem>::val_to_bits(false), 0);
    assert!(<bool as BitElem>::bits_to_val(1));
    assert!(!<bool as BitElem>::bits_to_val(0));
    let mut flags = TypedBitVec::<bool>::new();
    for i in 0..70 {
        flags.push(i % 3 == 0).unwrap();
    }
    assert_eq!(flags.as_raw().block_count(), 2);
    assert_eq!(flags.get(69), Ok(true));
    assert_eq!(flags.get(68), Ok(false));
    assert_eq!(flags.remove(0), Ok(true));
    assert_eq!(flags.get(2), Ok(true));
    assert_eq!(flags.len(), 69);
}

#[test]
fn typed_vector_converts_at_its_boundary() {
    let mut vec = TypedBitVec::<SignedBits<11>>::with_capacity(10);
    assert_eq!(vec.cap(), 11);
    for v in [-1024i64, -1, 0, 1, 1023, -500] {
        vec.push(v).unwrap();
    }
    assert_eq!(vec.get(0), Ok(-1024));
    assert_eq!(vec.get(5), Ok(-500));
    assert_eq!(vec.as_raw().get(TypedBitVec::<SignedBits<11>>::proto(), 1), Ok(0x7FF));
    assert_eq!(vec.insert(2, -7), Ok(()));
    assert_eq!(vec.replace(3, 12), Ok(0));
    assert_eq!(vec.set(0, 2047), Ok(()));
    assert_eq!(vec.get(0), Ok(-1));
    assert_eq!(vec.swap(0, 6), Ok(()));
    assert_eq!(vec.swap_pop(1), Ok(-1));
    assert_eq!(vec.pop(), Ok(1023));
    assert_eq!(vec.remove(0), Ok(-500));
    vec.append_iter(&vec![5, -5]).unwrap();
    vec.insert_iter(1, &vec![100, -100]).unwrap();
    let taken = vec.remove_range(0..2).unwrap();
    assert_eq!(taken.get(0), Ok(-1));
    assert_eq!(taken.get(1), Ok(100));
    let mut other = TypedBitVec::<SignedBits<11>>::new();
    other.push(-3).unwrap();
    vec.insert_bitvec(1, other).unwrap();
    vec.append_bitvec(taken).unwrap();
    let mut drain = vec.drain();
    let mut seen = Vec::new();
    while let Some(v) = drain.next_back() {
        seen.push(v);
    }
    assert_eq!(seen, vec![100, -1, -5, 5, 1, 12, -7, -3, -100]);
    assert_eq!(vec.pop(), Err(BitVecError::EmptyVector));
    assert_eq!(vec.get(0), Err(BitVecError::IndexOutOfRange { index: 0, len: 0 }));
    let mut small = TypedBitVec::<UnsignedBits<3>>::new();
    small.push(7).unwrap();
    small.push(9).unwrap();
    assert_eq!(small.get(1), Ok(1));
    let mut walker = small.into_iter();
    assert_eq!(walker.len(), 2);
    assert_eq!(walker.next(), Some(7));
    assert_eq!(walker.next_back(), Some(1));
    assert_eq!(walker.next(), None);
}
