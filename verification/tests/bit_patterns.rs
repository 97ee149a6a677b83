use grit_bitvec::bits::BitUtil;
use grit_bitvec::{BitProto, BitVecError, CProtoBitVec, RawBitVec};

const _111: u64 = 0b_111;
const _010: u64 = 0b_010;
const _101: u64 = 0b_101;
const _100: u64 = 0b_100;
const _1111: u64 = 0b_1111;
const _0110: u64 = 0b_0110;
const _1010: u64 = 0b_1010;
const _1000: u64 = 0b_1000;

fn assert_bvec_state(mark: &str, proto: BitProto, vec: &RawBitVec, len: usize, cap: usize, data: &[u64]) {
    assert_eq!(len, vec.len(), "\n{} FAIL: incorrect length:\n\tEXP: {}\n\tGOT: {}\n", mark, len, vec.len());
    let bitwise_cap = BitProto::calc_bitwise_count_from_block_count(proto, vec.block_count());
    assert_eq!(cap, bitwise_cap, "\n{} FAIL: incorrect capacity:\n\tEXP: {}\n\tGOT: {}\n", mark, cap, bitwise_cap);
    let got_slice = &vec.as_blocks()[..BitProto::calc_block_count_from_bitwise_count(proto, vec.len())];
    let mut exp_string = String::new();
    let mut got_string = String::new();
    let mut fail = false;
    let mut exp_done = false;
    let mut got_done = false;
    let last_proxy = BitProto::idx_proxy(proto, vec.len());
    let ignore_mask = !BitUtil::smear_left(1 << last_proxy.first_offset);
    if got_slice.len() != data.len() {
        fail = true;
    }
    let mut idx: usize = 0;
    while !exp_done && !got_done {
        let mut exp_val: u64 = 0;
        let mut got_val: u64 = 0;
        if idx < data.len() {
            exp_val = data[idx];
            exp_string.push_str(&format!("{:064b} ", exp_val));
        } else {
            exp_done = true;
        }
        if idx < got_slice.len() {
            got_val = got_slice[idx];
            if idx == last_proxy.real_idx {
                got_val &= ignore_mask;
            }
            got_string.push_str(&format!("{:064b} ", got_val));
        } else {
            got_done = true;
        }
        if !fail {
            fail = !(exp_val == got_val);
        }
        idx += 1;
    }
    if fail {
        panic!(
            "\n{} FAIL: incorrect data:\n\tEXP DATA LEN: {}\n\tGOT_DATA_LEN: {}\n\tEXP DATA: {}\n\tGOT DATA: {}\n",
            mark,
            data.len(),
            got_slice.len(),
            exp_string,
            got_string
        );
    }
}

fn assert_val_result(mark: &str, exp: u64, got: Result<u64, BitVecError>) {
    match got {
        Ok(val) if val != exp => panic!("\n{} FAIL: incorrect val:\n\tEXP = {:08b}\n\tGOT = {:08b}", mark, exp, val),
        Err(err) => panic!("\n{} FAIL: error val:\n\tEXP = {:08b}\n\tGOT ERR = {:?}", mark, exp, err),
        _ => {}
    }
}

fn assert_error<T>(mark: &str, result: Result<T, BitVecError>) {
    match result {
        Err(_) => {}
        Ok(_) => panic!("\n{} FAIL: expected Err(_), got Ok(_)", mark),
    }
}

fn force_write<const BIT_WIDTH: usize>(vec: CProtoBitVec<BIT_WIDTH>, len: usize, data: &[u64]) -> CProtoBitVec<BIT_WIDTH> {
    let mut blocks = vec.as_raw().as_blocks().clone();
    let mut idx = 0;
    while idx < data.len() {
        blocks[idx] = data[idx];
        idx += 1;
    }
    let proto = CProtoBitVec::<BIT_WIDTH>::proto();
    CProtoBitVec::<BIT_WIDTH>::from_raw(RawBitVec::from_blocks(proto, blocks, len).unwrap())
}

/// The vector with its words as they are and `len` as its length, whatever
/// the words hold.
fn with_len<const BIT_WIDTH: usize>(vec: CProtoBitVec<BIT_WIDTH>, len: usize) -> CProtoBitVec<BIT_WIDTH> {
    let blocks = vec.as_raw().as_blocks().clone();
    CProtoBitVec::<BIT_WIDTH>::from_raw(RawBitVec::from_blocks_unchecked(blocks, len))
}


#[test]
fn push_4_bits() -> Result<(), BitVecError> {
    let mut bitvec = CProtoBitVec::<4>::new();
    let proto = CProtoBitVec::<4>::proto();
    assert_bvec_state("1", proto, bitvec.as_raw(), 0, 0, &[]);
    bitvec.push(_1111)?;
    assert_bvec_state("2", proto, bitvec.as_raw(), 1, 16, &[0b_0000_0000_0000_0000_0000_0000_0000_0000_0000_0000_0000_0000_0000_0000_0000_1111_u64]);
    bitvec.push(_0110)?;
    assert_bvec_state("3", proto, bitvec.as_raw(), 2, 16, &[0b_0000_0000_0000_0000_0000_0000_0000_0000_0000_0000_0000_0000_0000_0000_0110_1111_u64]);
    bitvec.push(_1111)?;
    assert_bvec_state("4", proto, bitvec.as_raw(), 3, 16, &[0b_0000_0000_0000_0000_0000_0000_0000_0000_0000_0000_0000_0000_0000_1111_0110_1111_u64]);
    bitvec.push(_0110)?;
    assert_bvec_state("5", proto, bitvec.as_raw(), 4, 16, &[0b_0000_0000_0000_0000_0000_0000_0000_0000_0000_0000_0000_0000_0110_1111_0110_1111_u64]);
    bitvec.push(_1111)?;
    bitvec.push(_0110)?;
    bitvec.push(_1111)?;
    bitvec.push(_0110)?;
    bitvec.push(_1111)?;
    bitvec.push(_0110)?;
    bitvec.push(_1111)?;
    bitvec.push(_0110)?;
    bitvec.push(_1111)?;
    bitvec.push(_0110)?;
    bitvec.push(_1111)?;
    bitvec.push(_0110)?;
    assert_bvec_state("6", proto, bitvec.as_raw(), 16, 16, &[0b_0110_1111_0110_1111_0110_1111_0110_1111_0110_1111_0110_1111_0110_1111_0110_1111_u64]);
    bitvec.push(_1111)?;
    assert_bvec_state("7", proto, bitvec.as_raw(), 17, 32, &[0b_0110_1111_0110_1111_0110_1111_0110_1111_0110_1111_0110_1111_0110_1111_0110_1111_u64, 0b_0000_0000_0000_0000_0000_0000_0000_0000_0000_0000_0000_0000_0000_0000_0000_1111_u64]);
    bitvec.push(_1010)?;
    bitvec.push(_1010)?;
    bitvec.push(_1010)?;
    bitvec.push(_1010)?;
    bitvec.push(_1010)?;
    bitvec.push(_1010)?;
    bitvec.push(_1010)?;
    bitvec.push(_1010)?;
    bitvec.push(_1010)?;
    bitvec.push(_1010)?;
    bitvec.push(_1010)?;
    bitvec.push(_1010)?;
    bitvec.push(_1010)?;
    bitvec.push(_1010)?;
    bitvec.push(_1010)?;
    assert_bvec_state("8", proto, bitvec.as_raw(), 32, 32, &[0b_0110_1111_0110_1111_0110_1111_0110_1111_0110_1111_0110_1111_0110_1111_0110_1111_u64, 0b_1010_1010_1010_1010_1010_1010_1010_1010_1010_1010_1010_1010_1010_1010_1010_1111_u64]);
    bitvec.push(_1000)?;
    assert_bvec_state("9", proto, bitvec.as_raw(), 33, 48, &[0b_0110_1111_0110_1111_0110_1111_0110_1111_0110_1111_0110_1111_0110_1111_0110_1111_u64, 0b_1010_1010_1010_1010_1010_1010_1010_1010_1010_1010_1010_1010_1010_1010_1010_1111_u64, 0b_0000_0000_0000_0000_0000_0000_0000_0000_0000_0000_0000_0000_0000_0000_0000_1000_u64]);
    bitvec.push(_1000)?;
    assert_bvec_state("10", proto, bitvec.as_raw(), 34, 48, &[0b_0110_1111_0110_1111_0110_1111_0110_1111_0110_1111_0110_1111_0110_1111_0110_1111_u64, 0b_1010_1010_1010_1010_1010_1010_1010_1010_1010_1010_1010_1010_1010_1010_1010_1111_u64, 0b_0000_0000_0000_0000_0000_0000_0000_0000_0000_0000_0000_0000_0000_0000_1000_1000_u64]);
    bitvec = with_len(bitvec, proto.MAX_CAPACITY);
    assert_error("11", bitvec.push(_1000));
    Ok(())
}

#[test]
fn push_3_bits() -> Result<(), BitVecError> {
    let mut bitvec = CProtoBitVec::<3>::new();
    let proto = CProtoBitVec::<3>::proto();
    assert_bvec_state("1", proto, bitvec.as_raw(), 0, 0, &[]);
    bitvec.push(_111)?;
    assert_bvec_state("2", proto, bitvec.as_raw(), 1, 21, &[0b_0_000_000_000_000_000_000_000_000_000_000_000_000_000_000_000_000_000_000_000_000_111_u64]);
    bitvec.push(_010)?;
    assert_bvec_state("3", proto, bitvec.as_raw(), 2, 21, &[0b_0_000_000_000_000_000_000_000_000_000_000_000_000_000_000_000_000_000_000_000_010_111_u64]);
    bitvec.push(_111)?;
    assert_bvec_state("4", proto, bitvec.as_raw(), 3, 21, &[0b_0_000_000_000_000_000_000_000_000_000_000_000_000_000_000_000_000_000_000_111_010_111_u64]);
    bitvec.push(_010)?;
    assert_bvec_state("5", proto, bitvec.as_raw(), 4, 21, &[0b_0_000_000_000_000_000_000_000_000_000_000_000_000_000_000_000_000_000_010_111_010_111_u64]);
    bitvec.push(_111)?;
    bitvec.push(_010)?;
    bitvec.push(_111)?;
    bitvec.push(_010)?;
    bitvec.push(_111)?;
    bitvec.push(_010)?;
    bitvec.push(_111)?;
    bitvec.push(_010)?;
    bitvec.push(_111)?;
    bitvec.push(_010)?;
    bitvec.push(_111)?;
    bitvec.push(_010)?;
    bitvec.push(_111)?;
    bitvec.push(_010)?;
    bitvec.push(_111)?;
    bitvec.push(_010)?;
    bitvec.push(_111)?;
    assert_bvec_state("6", proto, bitvec.as_raw(), 21, 21, &[0b_0_111_010_111_010_111_010_111_010_111_010_111_010_111_010_111_010_111_010_111_010_111_u64]);
    bitvec.push(_010)?;
    assert_bvec_state("7", proto, bitvec.as_raw(), 22, 42, &[0b_0_111_010_111_010_111_010_111_010_111_010_111_010_111_010_111_010_111_010_111_010_111_u64, 0b_00_000_000_000_000_000_000_000_000_000_000_000_000_000_000_000_000_000_000_000_000_01_u64]);
    bitvec.push(_101)?;
    bitvec.push(_101)?;
    bitvec.push(_101)?;
    bitvec.push(_101)?;
    bitvec.push(_101)?;
    bitvec.push(_101)?;
    bitvec.push(_101)?;
    bitvec.push(_101)?;
    bitvec.push(_101)?;
    bitvec.push(_101)?;
    bitvec.push(_101)?;
    bitvec.push(_101)?;
    bitvec.push(_101)?;
    bitvec.push(_101)?;
    bitvec.push(_101)?;
    bitvec.push(_101)?;
    bitvec.push(_101)?;
    bitvec.push(_101)?;
    bitvec.push(_101)?;
    bitvec.push(_101)?;
    assert_bvec_state("8", proto, bitvec.as_raw(), 42, 42, &[0b_0_111_010_111_010_111_010_111_010_111_010_111_010_111_010_111_010_111_010_111_010_111_u64, 0b_00_101_101_101_101_101_101_101_101_101_101_101_101_101_101_101_101_101_101_101_101_01_u64]);
    bitvec.push(_100)?;
    assert_bvec_state("9", proto, bitvec.as_raw(), 43, 64, &[0b_0_111_010_111_010_111_010_111_010_111_010_111_010_111_010_111_010_111_010_111_010_111_u64, 0b_00_101_101_101_101_101_101_101_101_101_101_101_101_101_101_101_101_101_101_101_101_01_u64, 0b_000_000_000_000_000_000_000_000_000_000_000_000_000_000_000_000_000_000_000_000_000_1_u64]);
    bitvec.push(_100)?;
    assert_bvec_state("10", proto, bitvec.as_raw(), 44, 64, &[0b_0_111_010_111_010_111_010_111_010_111_010_111_010_111_010_111_010_111_010_111_010_111_u64, 0b_00_101_101_101_101_101_101_101_101_101_101_101_101_101_101_101_101_101_101_101_101_01_u64, 0b_000_000_000_000_000_000_000_000_000_000_000_000_000_000_000_000_000_000_000_000_100_1_u64]);
    bitvec = with_len(bitvec, proto.MAX_CAPACITY);
    assert_error("11", bitvec.push(_100));
    Ok(())
}

#[test]
fn pop_4_bits() -> Result<(), BitVecError> {
    let mut bitvec = CProtoBitVec::<4>::with_capacity(33);
    let proto = CProtoBitVec::<4>::proto();
    bitvec = force_write(bitvec, 33, &[0b_0110_1111_0110_1111_0110_1111_0110_1111_0110_1111_0110_1111_0110_1111_0110_1111_u64, 0b_1010_1010_1010_1010_1010_1010_1010_1010_1010_1010_1010_1010_1010_1010_1010_1111_u64, 0b_0000_0000_0000_0000_0000_0000_0000_0000_0000_0000_0000_0000_0000_0000_0000_1000_u64]);
    assert_bvec_state("1", proto, bitvec.as_raw(), 33, 48, &[0b_0110_1111_0110_1111_0110_1111_0110_1111_0110_1111_0110_1111_0110_1111_0110_1111_u64, 0b_1010_1010_1010_1010_1010_1010_1010_1010_1010_1010_1010_1010_1010_1010_1010_1111_u64, 0b_0000_0000_0000_0000_0000_0000_0000_0000_0000_0000_0000_0000_0000_0000_0000_1000_u64]);
    assert_val_result("2", _1000, bitvec.pop());
    assert_bvec_state("3", proto, bitvec.as_raw(), 32, 48, &[0b_0110_1111_0110_1111_0110_1111_0110_1111_0110_1111_0110_1111_0110_1111_0110_1111_u64, 0b_1010_1010_1010_1010_1010_1010_1010_1010_1010_1010_1010_1010_1010_1010_1010_1111_u64]);
    assert_val_result("4", _1010, bitvec.pop());
    assert_bvec_state("5", proto, bitvec.as_raw(), 31, 48, &[0b_0110_1111_0110_1111_0110_1111_0110_1111_0110_1111_0110_1111_0110_1111_0110_1111_u64, 0b_0000_1010_1010_1010_1010_1010_1010_1010_1010_1010_1010_1010_1010_1010_1010_1111_u64]);
    assert_val_result("6", _1010, bitvec.pop());
    assert_bvec_state("7", proto, bitvec.as_raw(), 30, 48, &[0b_0110_1111_0110_1111_0110_1111_0110_1111_0110_1111_0110_1111_0110_1111_0110_1111_u64, 0b_0000_0000_1010_1010_1010_1010_1010_1010_1010_1010_1010_1010_1010_1010_1010_1111_u64]);
    bitvec.pop()?;
    bitvec.pop()?;
    bitvec.pop()?;
    bitvec.pop()?;
    bitvec.pop()?;
    bitvec.pop()?;
    bitvec.pop()?;
    bitvec.pop()?;
    bitvec.pop()?;
    bitvec.pop()?;
    bitvec.pop()?;
    bitvec.pop()?;
    bitvec.pop()?;
    assert_val_result("8", _1111, bitvec.pop());
    assert_bvec_state("9", proto, bitvec.as_raw(), 16, 48, &[0b_0110_1111_0110_1111_0110_1111_0110_1111_0110_1111_0110_1111_0110_1111_0110_1111_u64]);
    assert_val_result("10", _0110, bitvec.pop());
    assert_bvec_state("11", proto, bitvec.as_raw(), 15, 48, &[0b_0000_1111_0110_1111_0110_1111_0110_1111_0110_1111_0110_1111_0110_1111_0110_1111_u64]);
    bitvec.pop()?;
    bitvec.pop()?;
    bitvec.pop()?;
    bitvec.pop()?;
    bitvec.pop()?;
    bitvec.pop()?;
    bitvec.pop()?;
    bitvec.pop()?;
    bitvec.pop()?;
    bitvec.pop()?;
    bitvec.pop()?;
    bitvec.pop()?;
    bitvec.pop()?;
    bitvec.pop()?;
    assert_val_result("12", _1111, bitvec.pop());
    assert_bvec_state("13", proto, bitvec.as_raw(), 0, 48, &[]);
    assert_error("14", bitvec.pop());
    Ok(())
}

#[test]
fn pop_3_bits() -> Result<(), BitVecError> {
    let mut bitvec = CProtoBitVec::<3>::with_capacity(44);
    let proto = CProtoBitVec::<3>::proto();
    bitvec = force_write(bitvec, 44, &[0b_0_111_010_111_010_111_010_111_010_111_010_111_010_111_010_111_010_111_010_111_010_111_u64, 0b_00_101_101_101_101_101_101_101_101_101_101_101_101_101_101_101_101_101_101_101_101_01_u64, 0b_000_000_000_000_000_000_000_000_000_000_000_000_000_000_000_000_000_000_000_000_100_1_u64]);
    assert_bvec_state("1", proto, bitvec.as_raw(), 44, 64, &[0b_0_111_010_111_010_111_010_111_010_111_010_111_010_111_010_111_010_111_010_111_010_111_u64, 0b_00_101_101_101_101_101_101_101_101_101_101_101_101_101_101_101_101_101_101_101_101_01_u64, 0b_000_000_000_000_000_000_000_000_000_000_000_000_000_000_000_000_000_000_000_000_100_1_u64]);
    assert_val_result("2", _100, bitvec.pop());
    assert_bvec_state("3", proto, bitvec.as_raw(), 43, 64, &[0b_0_111_010_111_010_111_010_111_010_111_010_111_010_111_010_111_010_111_010_111_010_111_u64, 0b_00_101_101_101_101_101_101_101_101_101_101_101_101_101_101_101_101_101_101_101_101_01_u64, 0b_000_000_000_000_000_000_000_000_000_000_000_000_000_000_000_000_000_000_000_000_000_1_u64]);
    assert_val_result("4", _100, bitvec.pop());
    assert_bvec_state("5", proto, bitvec.as_raw(), 42, 64, &[0b_0_111_010_111_010_111_010_111_010_111_010_111_010_111_010_111_010_111_010_111_010_111_u64, 0b_00_101_101_101_101_101_101_101_101_101_101_101_101_101_101_101_101_101_101_101_101_01_u64]);
    assert_val_result("6", _101, bitvec.pop());
    assert_bvec_state("7", proto, bitvec.as_raw(), 41, 64, &[0b_0_111_010_111_010_111_010_111_010_111_010_111_010_111_010_111_010_111_010_111_010_111_u64, 0b_00_000_101_101_101_101_101_101_101_101_101_101_101_101_101_101_101_101_101_101_101_01_u64]);
    bitvec.pop()?;
    bitvec.pop()?;
    bitvec.pop()?;
    bitvec.pop()?;
    bitvec.pop()?;
    bitvec.pop()?;
    bitvec.pop()?;
    bitvec.pop()?;
    bitvec.pop()?;
    bitvec.pop()?;
    bitvec.pop()?;
    bitvec.pop()?;
    bitvec.pop()?;
    bitvec.pop()?;
    bitvec.pop()?;
    bitvec.pop()?;
    bitvec.pop()?;
    bitvec.pop()?;
    bitvec.pop()?;
    assert_val_result("8", _010, bitvec.pop());
    assert_bvec_state("9", proto, bitvec.as_raw(), 21, 64, &[0b_0_111_010_111_010_111_010_111_010_111_010_111_010_111_010_111_010_111_010_111_010_111_u64]);
    assert_val_result("10", _111, bitvec.pop());
    assert_bvec_state("11", proto, bitvec.as_raw(), 20, 64, &[0b_0_000_010_111_010_111_010_111_010_111_010_111_010_111_010_111_010_111_010_111_010_111_u64]);
    bitvec.pop()?;
    bitvec.pop()?;
    bitvec.pop()?;
    bitvec.pop()?;
    bitvec.pop()?;
    bitvec.pop()?;
    bitvec.pop()?;
    bitvec.pop()?;
    bitvec.pop()?;
    bitvec.pop()?;
    bitvec.pop()?;
    bitvec.pop()?;
    bitvec.pop()?;
    bitvec.pop()?;
    bitvec.pop()?;
    bitvec.pop()?;
    bitvec.pop()?;
    bitvec.pop()?;
    bitvec.pop()?;
    assert_val_result("12", _111, bitvec.pop());
    assert_bvec_state("13", proto, bitvec.as_raw(), 0, 64, &[]);
    assert_error("14", bitvec.pop());
    Ok(())
}

#[test]
fn insert_4_bits() -> Result<(), BitVecError> {
    let mut bitvec = CProtoBitVec::<4>::new();
    let proto = CProtoBitVec::<4>::proto();
    assert_bvec_state("1", proto, bitvec.as_raw(), 0, 0, &[]);
    bitvec.insert(0, _1111)?;
    assert_bvec_state("2", proto, bitvec.as_raw(), 1, 16, &[0b_0000_0000_0000_0000_0000_0000_0000_0000_0000_0000_0000_0000_0000_0000_0000_1111_u64]);
    bitvec.insert(1, _0110)?;
    assert_bvec_state("3", proto, bitvec.as_raw(), 2, 16, &[0b_0000_0000_0000_0000_0000_0000_0000_0000_0000_0000_0000_0000_0000_0000_0110_1111_u64]);
    bitvec.insert(2, _1111)?;
    assert_bvec_state("4", proto, bitvec.as_raw(), 3, 16, &[0b_0000_0000_0000_0000_0000_0000_0000_0000_0000_0000_0000_0000_0000_1111_0110_1111_u64]);
    bitvec.insert(3, _0110)?;
    assert_bvec_state("5", proto, bitvec.as_raw(), 4, 16, &[0b_0000_0000_0000_0000_0000_0000_0000_0000_0000_0000_0000_0000_0110_1111_0110_1111_u64]);
    bitvec.insert(4, _1111)?;
    bitvec.insert(5, _0110)?;
    bitvec.insert(6, _1111)?;
    bitvec.insert(7, _0110)?;
    bitvec.insert(8, _1111)?;
    bitvec.insert(9, _0110)?;
    bitvec.insert(10, _1111)?;
    bitvec.insert(11, _0110)?;
    bitvec.insert(12, _1111)?;
    bitvec.insert(13, _0110)?;
    bitvec.insert(14, _1111)?;
    bitvec.insert(15, _0110)?;
    assert_bvec_state("6", proto, bitvec.as_raw(), 16, 16, &[0b_0110_1111_0110_1111_0110_1111_0110_1111_0110_1111_0110_1111_0110_1111_0110_1111_u64]);
    bitvec.insert(16, _1111)?;
    assert_bvec_state("7", proto, bitvec.as_raw(), 17, 32, &[0b_0110_1111_0110_1111_0110_1111_0110_1111_0110_1111_0110_1111_0110_1111_0110_1111_u64, 0b_0000_0000_0000_0000_0000_0000_0000_0000_0000_0000_0000_0000_0000_0000_0000_1111_u64]);
    bitvec.insert(0, _1010)?;
    assert_bvec_state("8", proto, bitvec.as_raw(), 18, 32, &[0b_1111_0110_1111_0110_1111_0110_1111_0110_1111_0110_1111_0110_1111_0110_1111_1010_u64, 0b_0000_0000_0000_0000_0000_0000_0000_0000_0000_0000_0000_0000_0000_0000_1111_0110_u64]);
    bitvec.insert(0, _1010)?;
    bitvec.insert(1, _1010)?;
    bitvec.insert(1, _1010)?;
    bitvec.insert(2, _1010)?;
    bitvec.insert(2, _1010)?;
    bitvec.insert(3, _1010)?;
    bitvec.insert(3, _1010)?;
    bitvec.insert(4, _1010)?;
    bitvec.insert(4, _1010)?;
    bitvec.insert(5, _1010)?;
    bitvec.insert(5, _1010)?;
    bitvec.insert(6,_1010)?;
    bitvec.insert(6, _1010)?;
    bitvec.insert(7, _1010)?;
    assert_bvec_state("9", proto, bitvec.as_raw(), 32, 32, &[0b_1111_1010_1010_1010_1010_1010_1010_1010_1010_1010_1010_1010_1010_1010_1010_1010_u64, 0b_1111_0110_1111_0110_1111_0110_1111_0110_1111_0110_1111_0110_1111_0110_1111_0110_u64]);
    bitvec.insert(24, _1000)?;
    assert_bvec_state("10", proto, bitvec.as_raw(), 33, 48, &[0b_1111_1010_1010_1010_1010_1010_1010_1010_1010_1010_1010_1010_1010_1010_1010_1010_u64, 0b_0110_1111_0110_1111_0110_1111_0110_1000_1111_0110_1111_0110_1111_0110_1111_0110_u64, 0b_0000_0000_0000_0000_0000_0000_0000_0000_0000_0000_0000_0000_0000_0000_0000_1111_u64]);
    bitvec.insert(32, _1000)?;
    assert_bvec_state("11", proto, bitvec.as_raw(), 34, 48, &[0b_1111_1010_1010_1010_1010_1010_1010_1010_1010_1010_1010_1010_1010_1010_1010_1010_u64, 0b_0110_1111_0110_1111_0110_1111_0110_1000_1111_0110_1111_0110_1111_0110_1111_0110_u64, 0b_0000_0000_0000_0000_0000_0000_0000_0000_0000_0000_0000_0000_0000_0000_1111_1000_u64]);
    assert_error("12", bitvec.insert(99, _1000));
    bitvec = with_len(bitvec, proto.MAX_CAPACITY);
    assert_error("13", bitvec.insert(0, _1000));
    Ok(())
}

#[test]
fn insert_3_bits() -> Result<(), BitVecError> {
    let mut bitvec = CProtoBitVec::<3>::new();
    let proto = CProtoBitVec::<3>::proto();
    assert_bvec_state("1", proto, bitvec.as_raw(), 0, 0, &[]);
    bitvec.insert(0, _111)?;
    assert_bvec_state("2", proto, bitvec.as_raw(), 1, 21, &[0b_0_000_000_000_000_000_000_000_000_000_000_000_000_000_000_000_000_000_000_000_000_111_u64]);
    bitvec.insert(1, _010)?;
    assert_bvec_state("3", proto, bitvec.as_raw(), 2, 21, &[0b_0_000_000_000_000_000_000_000_000_000_000_000_000_000_000_000_000_000_000_000_010_111_u64]);
    bitvec.insert(2, _111)?;
    assert_bvec_state("4", proto, bitvec.as_raw(), 3, 21, &[0b_0_000_000_000_000_000_000_000_000_000_000_000_000_000_000_000_000_000_000_111_010_111_u64]);
    bitvec.insert(3, _010)?;
    assert_bvec_state("5", proto, bitvec.as_raw(), 4, 21, &[0b_0_000_000_000_000_000_000_000_000_000_000_000_000_000_000_000_000_000_010_111_010_111_u64]);
    bitvec.insert(4, _111)?;
    bitvec.insert(5, _010)?;
    bitvec.insert(6, _111)?;
    bitvec.insert(7, _010)?;
    bitvec.insert(8, _111)?;
    bitvec.insert(9, _010)?;
    bitvec.insert(10, _111)?;
    bitvec.insert(11, _010)?;
    bitvec.insert(12, _111)?;
    bitvec.insert(13, _010)?;
    bitvec.insert(14, _111)?;
    bitvec.insert(15, _010)?;
    bitvec.insert(16, _111)?;
    bitvec.insert(17, _010)?;
    bitvec.insert(18, _111)?;
    bitvec.insert(19, _010)?;
    bitvec.insert(20, _111)?;
    assert_bvec_state("6", proto, bitvec.as_raw(), 21, 21, &[0b_0_111_010_111_010_111_010_111_010_111_010_111_010_111_010_111_010_111_010_111_010_111_u64]);
    bitvec.insert(21, _111)?;
    assert_bvec_state("7", proto, bitvec.as_raw(), 22, 42, &[0b_1_111_010_111_010_111_010_111_010_111_010_111_010_111_010_111_010_111_010_111_010_111_u64, 0b_00_000_000_000_000_000_000_000_000_000_000_000_000_000_000_000_000_000_000_000_000_11_u64]);
    bitvec.insert(0,_101)?;
    assert_bvec_state("8", proto, bitvec.as_raw(), 23, 42, &[0b_1_010_111_010_111_010_111_010_111_010_111_010_111_010_111_010_111_010_111_010_111_101_u64, 0b_00_000_000_000_000_000_000_000_000_000_000_000_000_000_000_000_000_000_000_000_111_11_u64]);
    bitvec.insert(0,_101)?;
    bitvec.insert(1, _101)?;
    bitvec.insert(1, _101)?;
    bitvec.insert(2, _101)?;
    bitvec.insert(2, _101)?;
    bitvec.insert(3, _101)?;
    bitvec.insert(3, _101)?;
    bitvec.insert(4, _101)?;
    bitvec.insert(4, _101)?;
    bitvec.insert(5, _101)?;
    bitvec.insert(5, _101)?;
    bitvec.insert(6, _101)?;
    bitvec.insert(6, _101)?;
    bitvec.insert(7, _101)?;
    bitvec.insert(7, _101)?;
    bitvec.insert(8, _101)?;
    bitvec.insert(8, _101)?;
    bitvec.insert(9, _101)?;
    bitvec.insert(9, _101)?;
    assert_bvec_state("9", proto, bitvec.as_raw(), 42, 42, &[0b_0_111_101_101_101_101_101_101_101_101_101_101_101_101_101_101_101_101_101_101_101_101_u64, 0b_00_111_111_010_111_010_111_010_111_010_111_010_111_010_111_010_111_010_111_010_111_01_u64]);
    bitvec.insert(0, _100)?;
    assert_bvec_state("10", proto, bitvec.as_raw(), 43, 64, &[0b_1_101_101_101_101_101_101_101_101_101_101_101_101_101_101_101_101_101_101_101_101_100_u64, 0b_11_111_010_111_010_111_010_111_010_111_010_111_010_111_010_111_010_111_010_111_010_11_u64, 0b_000_000_000_000_000_000_000_000_000_000_000_000_000_000_000_000_000_000_000_000_000_1_u64]);
    bitvec.insert(42, _100)?;
    assert_bvec_state("11", proto, bitvec.as_raw(), 44, 64, &[0b_1_101_101_101_101_101_101_101_101_101_101_101_101_101_101_101_101_101_101_101_101_100_u64, 0b_00_111_010_111_010_111_010_111_010_111_010_111_010_111_010_111_010_111_010_111_010_11_u64, 0b_000_000_000_000_000_000_000_000_000_000_000_000_000_000_000_000_000_000_000_000_111_1_u64]);
    assert_error("12", bitvec.insert(99, _100));
    bitvec = with_len(bitvec, proto.MAX_CAPACITY);
    assert_error("12", bitvec.insert(0, _100));
    Ok(())
}
