use grit_bitvec::bits::BitUtil;
use grit_bitvec::{BitProto, BitVecError, CProtoBitVec, RawBitVec};

const _1111: u64 = 0b_1111;
const _0110: u64 = 0b_0110;
const _1010: u64 = 0b_1010;
const _1000: u64 = 0b_1000;

fn assert_bvec_state(mark: &str, proto: BitProto, vec: &RawBitVec, len: usize, cap: usize, data: &[u64]) {
    assert_eq!(len, vec.len(), "\n{} FAIL: incorrect length:\n\tEXP: {}\n\tGOT: {}\n", mark, len, vec.len());
    let bitwise_cap = BitProto::calc_bitwise_count_from_block_count(proto, vec.block_count());
    assert_eq!(cap, bitwise_cap, "\n{} FAIL: incorrect capacity:\n\tEXP: {}\n\tGOT: {}\n", mark, cap, bitwise_cap);
    let got_slice = &vec.as_blocks()[..BitProto::calc_block_count_from_bitwise_count(proto, vec.len())];
    let mut exp_string = String::new();
    let mut got_string = String::new();
    let mut fail = false;
    let mut exp_done = false;
    let mut got_done = false;
    let last_proxy = BitProto::idx_proxy(proto, vec.len());
    let ignore_mask = !BitUtil::smear_left(1 << last_proxy.first_offset);
    if got_slice.len() != data.len() {
        fail = true;
    }
    let mut idx: usize = 0;
    while !exp_done && !got_done {
        let mut exp_val: u64 = 0;
        let mut got_val: u64 = 0;
        if idx < data.len() {
            exp_val = data[idx];
            exp_string.push_str(&format!("{:064b} ", exp_val));
        } else {
            exp_done = true;
        }
        if idx < got_slice.len() {
            got_val = got_slice[idx];
            if idx == last_proxy.real_idx {
                got_val &= ignore_mask;
            }
            got_string.push_str(&format!("{:064b} ", got_val));
        } else {
            got_done = true;
        }
        if !fail {
            fail = !(exp_val == got_val);
        }
        idx += 1;
    }
    if fail {
        panic!(
            "\n{} FAIL: incorrect data:\n\tEXP DATA LEN: {}\n\tGOT_DATA_LEN: {}\n\tEXP DATA: {}\n\tGOT DATA: {}\n",
            mark,
            data.len(),
            got_slice.len(),
            exp_string,
            got_string
        );
    }
}

fn assert_val_result(mark: &str, exp: u64, got: Result<u64, BitVecError>) {
    match got {
        Ok(val) if val != exp => panic!("\n{} FAIL: incorrect val:\n\tEXP = {:08b}\n\tGOT = {:08b}", mark, exp, val),
        Err(err) => panic!("\n{} FAIL: error val:\n\tEXP = {:08b}\n\tGOT ERR = {:?}", mark, exp, err),
        _ => {}
    }
}

fn assert_error<T>(mark: &str, result: Result<T, BitVecError>) {
    match result {
        Err(_) => {}
        Ok(_) => panic!("\n{} FAIL: expected Err(_), got Ok(_)", mark),
    }
}

fn force_write<const BIT_WIDTH: usize>(vec: CProtoBitVec<BIT_WIDTH>, len: usize, data: &[u64]) -> CProtoBitVec<BIT_WIDTH> {
    let mut blocks = vec.as_raw().as_blocks().clone();
    let mut idx = 0;
    while idx < data.len() {
        blocks[idx] = data[idx];
        idx += 1;
    }
    let proto = CProtoBitVec::<BIT_WIDTH>::proto();
    CProtoBitVec::<BIT_WIDTH>::from_raw(RawBitVec::from_blocks(proto, blocks, len).unwrap())
}

/// The vector with its words as they are and `len` as its length, whatever
/// the words hold.
fn with_len<const BIT_WIDTH: usize>(vec: CProtoBitVec<BIT_WIDTH>, len: usize) -> CProtoBitVec<BIT_WIDTH> {
    let blocks = vec.as_raw().as_blocks().clone();
    CProtoBitVec::<BIT_WIDTH>::from_raw(RawBitVec::from_blocks_unchecked(blocks, len))
}


#[test]
fn push() -> Result<(), BitVecError> {
    let mut bitvec = CProtoBitVec::<4>::new();
    let proto = CProtoBitVec::<4>::proto();
    assert_bvec_state("1", proto, bitvec.as_raw(), 0, 0, &[]);
    bitvec.push(_1111)?;
    assert_bvec_state("2", proto, bitvec.as_raw(), 1, 16, &[0b_0000_0000_0000_0000_0000_0000_0000_0000_0000_0000_0000_0000_0000_0000_0000_1111_u64]);
    bitvec.push(_0110)?;
    assert_bvec_state("3", proto, bitvec.as_raw(), 2, 16, &[0b_0000_0000_0000_0000_0000_0000_0000_0000_0000_0000_0000_0000_0000_0000_0110_1111_u64]);
    bitvec.push(_1111)?;
    assert_bvec_state("4", proto, bitvec.as_raw(), 3, 16, &[0b_0000_0000_0000_0000_0000_0000_0000_0000_0000_0000_0000_0000_0000_1111_0110_1111_u64]);
    bitvec.push(_0110)?;
    assert_bvec_state("5", proto, bitvec.as_raw(), 4, 16, &[0b_0000_0000_0000_0000_0000_0000_0000_0000_0000_0000_0000_0000_0110_1111_0110_1111_u64]);
    bitvec.push(_1111)?;
    bitvec.push(_0110)?;
    bitvec.push(_1111)?;
    bitvec.push(_0110)?;
    bitvec.push(_1111)?;
    bitvec.push(_0110)?;
    bitvec.push(_1111)?;
    bitvec.push(_0110)?;
    bitvec.push(_1111)?;
    bitvec.push(_0110)?;
    bitvec.push(_1111)?;
    bitvec.push(_0110)?;
    assert_bvec_state("6", proto, bitvec.as_raw(), 16, 16, &[0b_0110_1111_0110_1111_0110_1111_0110_1111_0110_1111_0110_1111_0110_1111_0110_1111_u64]);
    bitvec.push(_1111)?;
    assert_bvec_state("7", proto, bitvec.as_raw(), 17, 32, &[0b_0110_1111_0110_1111_0110_1111_0110_1111_0110_1111_0110_1111_0110_1111_0110_1111_u64, 0b_0000_0000_0000_0000_0000_0000_0000_0000_0000_0000_0000_0000_0000_0000_0000_1111_u64]);
    bitvec.push(_1010)?;
    bitvec.push(_1010)?;
    bitvec.push(_1010)?;
    bitvec.push(_1010)?;
    bitvec.push(_1010)?;
    bitvec.push(_1010)?;
    bitvec.push(_1010)?;
    bitvec.push(_1010)?;
    bitvec.push(_1010)?;
    bitvec.push(_1010)?;
    bitvec.push(_1010)?;
    bitvec.push(_1010)?;
    bitvec.push(_1010)?;
    bitvec.push(_1010)?;
    bitvec.push(_1010)?;
    assert_bvec_state("8", proto, bitvec.as_raw(), 32, 32, &[0b_0110_1111_0110_1111_0110_1111_0110_1111_0110_1111_0110_1111_0110_1111_0110_1111_u64, 0b_1010_1010_1010_1010_1010_1010_1010_1010_1010_1010_1010_1010_1010_1010_1010_1111_u64]);
    bitvec.push(_1000)?;
    assert_bvec_state("9", proto, bitvec.as_raw(), 33, 48, &[0b_0110_1111_0110_1111_0110_1111_0110_1111_0110_1111_0110_1111_0110_1111_0110_1111_u64, 0b_1010_1010_1010_1010_1010_1010_1010_1010_1010_1010_1010_1010_1010_1010_1010_1111_u64, 0b_0000_0000_0000_0000_0000_0000_0000_0000_0000_0000_0000_0000_0000_0000_0000_1000_u64]);
    bitvec.push(_1000)?;
    assert_bvec_state("10", proto, bitvec.as_raw(), 34, 48, &[0b_0110_1111_0110_1111_0110_1111_0110_1111_0110_1111_0110_1111_0110_1111_0110_1111_u64, 0b_1010_1010_1010_1010_1010_1010_1010_1010_1010_1010_1010_1010_1010_1010_1010_1111_u64, 0b_0000_0000_0000_0000_0000_0000_0000_0000_0000_0000_0000_0000_0000_0000_1000_1000_u64]);
    bitvec = with_len(bitvec, proto.MAX_CAPACITY);
    assert_error("11", bitvec.push(_1000));
    Ok(())
}

#[test]
fn pop() -> Result<(), BitVecError> {
    let mut bitvec = CProtoBitVec::<4>::with_capacity(33);
    let proto = CProtoBitVec::<4>::proto();
    bitvec = force_write(bitvec, 33, &[0b_0110_1111_0110_1111_0110_1111_0110_1111_0110_1111_0110_1111_0110_1111_0110_1111_u64, 0b_1010_1010_1010_1010_1010_1010_1010_1010_1010_1010_1010_1010_1010_1010_1010_1111_u64, 0b_0000_0000_0000_0000_0000_0000_0000_0000_0000_0000_0000_0000_0000_0000_0000_1000_u64]);
    assert_bvec_state("1", proto, bitvec.as_raw(), 33, 48, &[0b_0110_1111_0110_1111_0110_1111_0110_1111_0110_1111_0110_1111_0110_1111_0110_1111_u64, 0b_1010_1010_1010_1010_1010_1010_1010_1010_1010_1010_1010_1010_1010_1010_1010_1111_u64, 0b_0000_0000_0000_0000_0000_0000_0000_0000_0000_0000_0000_0000_0000_0000_0000_1000_u64]);
    assert_val_result("2", _1000, bitvec.pop());
    assert_bvec_state("3", proto, bitvec.as_raw(), 32, 48, &[0b_0110_1111_0110_1111_0110_1111_0110_1111_0110_1111_0110_1111_0110_1111_0110_1111_u64, 0b_1010_1010_1010_1010_1010_1010_1010_1010_1010_1010_1010_1010_1010_1010_1010_1111_u64]);
    assert_val_result("4", _1010, bitvec.pop());
    assert_bvec_state("5", proto, bitvec.as_raw(), 31, 48, &[0b_0110_1111_0110_1111_0110_1111_0110_1111_0110_1111_0110_1111_0110_1111_0110_1111_u64, 0b_0000_1010_1010_1010_1010_1010_1010_1010_1010_1010_1010_1010_1010_1010_1010_1111_u64]);
    assert_val_result("6", _1010, bitvec.pop());
    assert_bvec_state("7", proto, bitvec.as_raw(), 30, 48, &[0b_0110_1111_0110_1111_0110_1111_0110_1111_0110_1111_0110_1111_0110_1111_0110_1111_u64, 0b_0000_0000_1010_1010_1010_1010_1010_1010_1010_1010_1010_1010_1010_1010_1010_1111_u64]);
    bitvec.pop()?;
    bitvec.pop()?;
    bitvec.pop()?;
    bitvec.pop()?;
    bitvec.pop()?;
    bitvec.pop()?;
    bitvec.pop()?;
    bitvec.pop()?;
    bitvec.pop()?;
    bitvec.pop()?;
    bitvec.pop()?;
    bitvec.pop()?;
    bitvec.pop()?;
    assert_val_result("8", _1111, bitvec.pop());
    assert_bvec_state("9", proto, bitvec.as_raw(), 16, 48, &[0b_0110_1111_0110_1111_0110_1111_0110_1111_0110_1111_0110_1111_0110_1111_0110_1111_u64]);
    assert_val_result("10", _0110, bitvec.pop());
    assert_bvec_state("11", proto, bitvec.as_raw(), 15, 48, &[0b_0000_1111_0110_1111_0110_1111_0110_1111_0110_1111_0110_1111_0110_1111_0110_1111_u64]);
    bitvec.pop()?;
    bitvec.pop()?;
    bitvec.pop()?;
    bitvec.pop()?;
    bitvec.pop()?;
    bitvec.pop()?;
    bitvec.pop()?;
    bitvec.pop()?;
    bitvec.pop()?;
    bitvec.pop()?;
    bitvec.pop()?;
    bitvec.pop()?;
    bitvec.pop()?;
    bitvec.pop()?;
    assert_val_result("12", _1111, bitvec.pop());
    assert_bvec_state("13", proto, bitvec.as_raw(), 0, 48, &[]);
    assert_error("14", bitvec.pop());
    Ok(())
}

#[test]
fn insert() -> Result<(), BitVecError> {
    let mut bitvec = CProtoBitVec::<4>::new();
    let proto = CProtoBitVec::<4>::proto();
    assert_bvec_state("1", proto, bitvec.as_raw(), 0, 0, &[]);
    bitvec.insert(0, _1111)?;
    assert_bvec_state("2", proto, bitvec.as_raw(), 1, 16, &[0b_0000_0000_0000_0000_0000_0000_0000_0000_0000_0000_0000_0000_0000_0000_0000_1111_u64]);
    bitvec.insert(1, _0110)?;
    assert_bvec_state("3", proto, bitvec.as_raw(), 2, 16, &[0b_0000_0000_0000_0000_0000_0000_0000_0000_0000_0000_0000_0000_0000_0000_0110_1111_u64]);
    bitvec.insert(2, _1111)?;
    assert_bvec_state("4", proto, bitvec.as_raw(), 3, 16, &[0b_0000_0000_0000_0000_0000_0000_0000_0000_0000_0000_0000_0000_0000_1111_0110_1111_u64]);
    bitvec.insert(3, _0110)?;
    assert_bvec_state("5", proto, bitvec.as_raw(), 4, 16, &[0b_0000_0000_0000_0000_0000_0000_0000_0000_0000_0000_0000_0000_0110_1111_0110_1111_u64]);
    bitvec.insert(4, _1111)?;
    bitvec.insert(5, _0110)?;
    bitvec.insert(6, _1111)?;
    bitvec.insert(7, _0110)?;
    bitvec.insert(8, _1111)?;
    bitvec.insert(9, _0110)?;
    bitvec.insert(10, _1111)?;
    bitvec.insert(11, _0110)?;
    bitvec.insert(12, _1111)?;
    bitvec.insert(13, _0110)?;
    bitvec.insert(14, _1111)?;
    bitvec.insert(15, _0110)?;
    assert_bvec_state("6", proto, bitvec.as_raw(), 16, 16, &[0b_0110_1111_0110_1111_0110_1111_0110_1111_0110_1111_0110_1111_0110_1111_0110_1111_u64]);
    bitvec.insert(16, _1111)?;
    assert_bvec_state("7", proto, bitvec.as_raw(), 17, 32, &[0b_0110_1111_0110_1111_0110_1111_0110_1111_0110_1111_0110_1111_0110_1111_0110_1111_u64, 0b_0000_0000_0000_0000_0000_0000_0000_0000_0000_0000_0000_0000_0000_0000_0000_1111_u64]);
    bitvec.insert(0, _1010)?;
    assert_bvec_state("8", proto, bitvec.as_raw(), 18, 32, &[0b_1111_0110_1111_0110_1111_0110_1111_0110_1111_0110_1111_0110_1111_0110_1111_1010_u64, 0b_0000_0000_0000_0000_0000_0000_0000_0000_0000_0000_0000_0000_0000_0000_1111_0110_u64]);
    bitvec.insert(0, _1010)?;
    bitvec.insert(1, _1010)?;
    bitvec.insert(1, _1010)?;
    bitvec.insert(2, _1010)?;
    bitvec.insert(2, _1010)?;
    bitvec.insert(3, _1010)?;
    bitvec.insert(3, _1010)?;
    bitvec.insert(4, _1010)?;
    bitvec.insert(4, _1010)?;
    bitvec.insert(5, _1010)?;
    bitvec.insert(5, _1010)?;
    bitvec.insert(6,_1010)?;
    bitvec.insert(6, _1010)?;
    bitvec.insert(7, _1010)?;
    assert_bvec_state("9", proto, bitvec.as_raw(), 32, 32, &[0b_1111_1010_1010_1010_1010_1010_1010_1010_1010_1010_1010_1010_1010_1010_1010_1010_u64, 0b_1111_0110_1111_0110_1111_0110_1111_0110_1111_0110_1111_0110_1111_0110_1111_0110_u64]);
    bitvec.insert(24, _1000)?;
    assert_bvec_state("10", proto, bitvec.as_raw(), 33, 48, &[0b_1111_1010_1010_1010_1010_1010_1010_1010_1010_1010_1010_1010_1010_1010_1010_1010_u64, 0b_0110_1111_0110_1111_0110_1111_0110_1000_1111_0110_1111_0110_1111_0110_1111_0110_u64, 0b_0000_0000_0000_0000_0000_0000_0000_0000_0000_0000_0000_0000_0000_0000_0000_1111_u64]);
    bitvec.insert(32, _1000)?;
    assert_bvec_state("11", proto, bitvec.as_raw(), 34, 48, &[0b_1111_1010_1010_1010_1010_1010_1010_1010_1010_1010_1010_1010_1010_1010_1010_1010_u64, 0b_0110_1111_0110_1111_0110_1111_0110_1000_1111_0110_1111_0110_1111_0110_1111_0110_u64, 0b_0000_0000_0000_0000_0000_0000_0000_0000_0000_0000_0000_0000_0000_0000_1111_1000_u64]);
    assert_error("12", bitvec.insert(99, _1000));
    bitvec = with_len(bitvec, proto.MAX_CAPACITY);
    assert_error("13", bitvec.insert(0, _1000));
    Ok(())
}

#[test]
fn remove() -> Result<(), BitVecError> {
    let mut bitvec = CProtoBitVec::<4>::with_capacity(33);
    let proto = CProtoBitVec::<4>::proto();
    bitvec = force_write(bitvec, 33, &[0b_0110_1111_0110_1111_0110_1111_0110_1111_0110_1111_0110_1111_0110_1111_0110_1111_u64, 0b_1010_1010_1010_1010_1010_1010_1010_1010_1010_1010_1010_1010_1010_1010_1010_1111_u64, 0b_0000_0000_0000_0000_0000_0000_0000_0000_0000_0000_0000_0000_0000_0000_0000_1000_u64]);
    assert_bvec_state("1", proto, bitvec.as_raw(), 33, 48, &[0b_0110_1111_0110_1111_0110_1111_0110_1111_0110_1111_0110_1111_0110_1111_0110_1111_u64, 0b_1010_1010_1010_1010_1010_1010_1010_1010_1010_1010_1010_1010_1010_1010_1010_1111_u64, 0b_0000_0000_0000_0000_0000_0000_0000_0000_0000_0000_0000_0000_0000_0000_0000_1000_u64]);
    assert_val_result("2", _1000, bitvec.remove(32));
    assert_bvec_state("3", proto, bitvec.as_raw(), 32, 48, &[0b_0110_1111_0110_1111_0110_1111_0110_1111_0110_1111_0110_1111_0110_1111_0110_1111_u64, 0b_1010_1010_1010_1010_1010_1010_1010_1010_1010_1010_1010_1010_1010_1010_1010_1111_u64]);
    assert_val_result("4", _1010, bitvec.remove(31));
    assert_bvec_state("5", proto, bitvec.as_raw(), 31, 48, &[0b_0110_1111_0110_1111_0110_1111_0110_1111_0110_1111_0110_1111_0110_1111_0110_1111_u64, 0b_0000_1010_1010_1010_1010_1010_1010_1010_1010_1010_1010_1010_1010_1010_1010_1111_u64]);
    assert_val_result("6", _1010, bitvec.remove(30));
    assert_bvec_state("7", proto, bitvec.as_raw(), 30, 48, &[0b_0110_1111_0110_1111_0110_1111_0110_1111_0110_1111_0110_1111_0110_1111_0110_1111_u64, 0b_0000_0000_1010_1010_1010_1010_1010_1010_1010_1010_1010_1010_1010_1010_1010_1111_u64]);
    bitvec.remove(29)?;
    bitvec.remove(28)?;
    bitvec.remove(27)?;
    bitvec.remove(26)?;
    bitvec.remove(25)?;
    bitvec.remove(24)?;
    bitvec.remove(23)?;
    bitvec.remove(22)?;
    bitvec.remove(21)?;
    bitvec.remove(20)?;
    bitvec.remove(19)?;
    bitvec.remove(18)?;
    bitvec.remove(17)?;
    assert_bvec_state("7.1", proto, bitvec.as_raw(), 17, 48, &[0b_0110_1111_0110_1111_0110_1111_0110_1111_0110_1111_0110_1111_0110_1111_0110_1111_u64, 0b_0000_0000_0000_0000_0000_0000_0000_0000_0000_0000_0000_0000_0000_0000_0000_1111_u64]);
    assert_val_result("8", _1111, bitvec.remove(0));
    assert_bvec_state("9", proto, bitvec.as_raw(), 16, 48, &[0b_1111_0110_1111_0110_1111_0110_1111_0110_1111_0110_1111_0110_1111_0110_1111_0110_u64]);
    assert_val_result("10", _0110, bitvec.remove(0));
    assert_bvec_state("11", proto, bitvec.as_raw(), 15, 48, &[0b_0000_1111_0110_1111_0110_1111_0110_1111_0110_1111_0110_1111_0110_1111_0110_1111_u64]);
    assert_val_result("12", _0110, bitvec.remove(7));
    assert_val_result("13", _1111, bitvec.remove(7));
    assert_val_result("14", _0110, bitvec.remove(7));
    assert_bvec_state("15", proto, bitvec.as_raw(), 12, 48, &[0b_0000_0000_0000_0000_1111_0110_1111_0110_1111_1111_0110_1111_0110_1111_0110_1111_u64]);
    assert_val_result("16", _1111, bitvec.remove(6));
    assert_val_result("17", _1111, bitvec.remove(6));
    assert_val_result("18", _0110, bitvec.remove(8));
    assert_bvec_state("19", proto, bitvec.as_raw(), 9, 48, &[0b_0000_0000_0000_0000_0000_0000_0000_1111_1111_0110_0110_1111_0110_1111_0110_1111_u64]);
    bitvec.remove(0)?;
    bitvec.remove(0)?;
    bitvec.remove(0)?;
    bitvec.remove(0)?;
    bitvec.remove(0)?;
    bitvec.remove(0)?;
    bitvec.remove(0)?;
    bitvec.remove(0)?;
    assert_error("20", bitvec.remove(1));
    assert_val_result("21", _1111, bitvec.remove(0));
    assert_bvec_state("22", proto, bitvec.as_raw(), 0, 48, &[]);
    assert_error("23", bitvec.remove(0));
    Ok(())
}

#[test]
fn append_bitvec() -> Result<(), BitVecError> {
    let mut bitvec = CProtoBitVec::<4>::with_capacity(58);
    let mut to_append_1 = CProtoBitVec::<4>::with_capacity(33);
    let mut to_append_2 = CProtoBitVec::<4>::with_capacity(25);
    let mut to_append_3 = CProtoBitVec::<4>::with_capacity(17);
    let empty_append = CProtoBitVec::<4>::new();
    let mut to_append_1_extra_a = CProtoBitVec::<4>::with_capacity(1);
    let mut to_append_1_extra_b = CProtoBitVec::<4>::with_capacity(1);
    to_append_1_extra_a.push(_1111)?;
    to_append_1_extra_b.push(_1111)?;
    let proto = CProtoBitVec::<4>::proto();
    to_append_1 = force_write(to_append_1, 33, &[0b_0110_1111_0110_1111_0110_1111_0110_1111_0110_1111_0110_1111_0110_1111_0110_1111_u64, 0b_1010_1010_1010_1010_1010_1010_1010_1010_1010_1010_1010_1010_1010_1010_1010_1111_u64, 0b_0000_0000_0000_0000_0000_0000_0000_0000_0000_0000_0000_0000_0000_0000_0000_1000_u64]);
    to_append_2 = force_write(to_append_2, 25, &[0b_1100_1100_1100_1100_1100_1100_1100_1100_1100_1100_1100_1100_1100_1100_1100_1100_u64, 0b_0000_0000_0000_0000_0000_0000_0000_1100_1100_1100_1100_1100_1100_1100_1100_1100_u64]);
    to_append_3 = force_write(to_append_3, 17, &[0b_1111_1110_1101_1100_1011_1010_1001_1000_0111_0110_0101_0100_0011_0010_0001_0000_u64, 0b_0000_0000_0000_0000_0000_0000_0000_0000_0000_0000_0000_0000_0000_0000_0000_1111_u64]);
    assert_bvec_state("1", proto, bitvec.as_raw(), 0, 64, &[]);
    bitvec.append_bitvec(to_append_1)?;
    assert_bvec_state("2", proto, bitvec.as_raw(), 33, 64, &[0b_0110_1111_0110_1111_0110_1111_0110_1111_0110_1111_0110_1111_0110_1111_0110_1111_u64, 0b_1010_1010_1010_1010_1010_1010_1010_1010_1010_1010_1010_1010_1010_1010_1010_1111_u64, 0b_0000_0000_0000_0000_0000_0000_0000_0000_0000_0000_0000_0000_0000_0000_0000_1000_u64]);
    bitvec.append_bitvec(to_append_2)?;
    assert_bvec_state("3", proto, bitvec.as_raw(), 58, 64, &[0b_0110_1111_0110_1111_0110_1111_0110_1111_0110_1111_0110_1111_0110_1111_0110_1111_u64, 0b_1010_1010_1010_1010_1010_1010_1010_1010_1010_1010_1010_1010_1010_1010_1010_1111_u64, 0b_1100_1100_1100_1100_1100_1100_1100_1100_1100_1100_1100_1100_1100_1100_1100_1000_u64, 0b_0000_0000_0000_0000_0000_0000_1100_1100_1100_1100_1100_1100_1100_1100_1100_1100_u64]);
    bitvec.append_bitvec(to_append_3)?;
    assert_bvec_state("4", proto, bitvec.as_raw(), 75, 112, &[0b_0110_1111_0110_1111_0110_1111_0110_1111_0110_1111_0110_1111_0110_1111_0110_1111_u64, 0b_1010_1010_1010_1010_1010_1010_1010_1010_1010_1010_1010_1010_1010_1010_1010_1111_u64, 0b_1100_1100_1100_1100_1100_1100_1100_1100_1100_1100_1100_1100_1100_1100_1100_1000_u64, 0b_0101_0100_0011_0010_0001_0000_1100_1100_1100_1100_1100_1100_1100_1100_1100_1100_u64, 0b_0000_0000_0000_0000_0000_1111_1111_1110_1101_1100_1011_1010_1001_1000_0111_0110_u64]);
    bitvec.append_bitvec(to_append_1_extra_a)?;
    bitvec.append_bitvec(empty_append)?;
    bitvec = with_len(bitvec, proto.MAX_CAPACITY);
    assert_error("5", bitvec.append_bitvec(to_append_1_extra_b));
    Ok(())
}

#[test]
fn insert_bitvec() -> Result<(), BitVecError> {
    let mut bitvec = CProtoBitVec::<4>::with_capacity(60);
    let mut to_insert_1 = CProtoBitVec::<4>::with_capacity(33);
    let mut to_insert_2 = CProtoBitVec::<4>::with_capacity(25);
    let mut to_insert_3 = CProtoBitVec::<4>::with_capacity(17);
    let empty_insert = CProtoBitVec::<4>::new();
    let mut to_insert_1_extra_a = CProtoBitVec::<4>::with_capacity(1);
    let mut to_insert_1_extra_b = CProtoBitVec::<4>::with_capacity(1);
    let to_insert_1_extra_c = CProtoBitVec::<4>::with_capacity(1);
    to_insert_1_extra_a.push(_1111)?;
    to_insert_1_extra_b.push(_1111)?;
    let proto = CProtoBitVec::<4>::proto();
    bitvec = force_write(bitvec, 2, &[0b_0000_0000_0000_0000_0000_0000_0000_0000_0000_0000_0000_0000_0000_0000_1001_1001_u64]);
    to_insert_1 = force_write(to_insert_1, 33, &[0b_0110_1111_0110_1111_0110_1111_0110_1111_0110_1111_0110_1111_0110_1111_0110_1111_u64, 0b_1010_1010_1010_1010_1010_1010_1010_1010_1010_1010_1010_1010_1010_1010_1010_1111_u64, 0b_0000_0000_0000_0000_0000_0000_0000_0000_0000_0000_0000_0000_0000_0000_0000_1000_u64]);
    to_insert_2 = force_write(to_insert_2, 25, &[0b_1100_1100_1100_1100_1100_1100_1100_1100_1100_1100_1100_1100_1100_1100_1100_1100_u64, 0b_0000_0000_0000_0000_0000_0000_0000_1100_1100_1100_1100_1100_1100_1100_1100_1100_u64]);
    to_insert_3 = force_write(to_insert_3, 17, &[0b_1111_1110_1101_1100_1011_1010_1001_1000_0111_0110_0101_0100_0011_0010_0001_0000_u64, 0b_0000_0000_0000_0000_0000_0000_0000_0000_0000_0000_0000_0000_0000_0000_0000_1111_u64]);
    assert_bvec_state("1", proto, bitvec.as_raw(), 2, 64, &[0b_0000_0000_0000_0000_0000_0000_0000_0000_0000_0000_0000_0000_0000_0000_1001_1001_u64]);
    assert_bvec_state("1.1", proto, to_insert_1.as_raw(), 33, 48, &[0b_0110_1111_0110_1111_0110_1111_0110_1111_0110_1111_0110_1111_0110_1111_0110_1111_u64, 0b_1010_1010_1010_1010_1010_1010_1010_1010_1010_1010_1010_1010_1010_1010_1010_1111_u64, 0b_0000_0000_0000_0000_0000_0000_0000_0000_0000_0000_0000_0000_0000_0000_0000_1000_u64]);
    bitvec.insert_bitvec(1, to_insert_1)?;
    assert_bvec_state("2", proto, bitvec.as_raw(), 35, 64, &[0b_1111_0110_1111_0110_1111_0110_1111_0110_1111_0110_1111_0110_1111_0110_1111_1001_u64, 0b_1010_1010_1010_1010_1010_1010_1010_1010_1010_1010_1010_1010_1010_1010_1111_0110_u64, 0b_0000_0000_0000_0000_0000_0000_0000_0000_0000_0000_0000_0000_0000_1001_1000_1010_u64]);
    bitvec.insert_bitvec(1, to_insert_2)?;
    assert_bvec_state("3", proto, bitvec.as_raw(), 60, 64, &[0b_1100_1100_1100_1100_1100_1100_1100_1100_1100_1100_1100_1100_1100_1100_1100_1001_u64, 0b_0110_1111_0110_1111_0110_1111_1100_1100_1100_1100_1100_1100_1100_1100_1100_1100_u64, 0b_1010_1010_1010_1010_1010_1111_0110_1111_0110_1111_0110_1111_0110_1111_0110_1111_u64, 0b_0000_0000_0000_1001_1000_1010_1010_1010_1010_1010_1010_1010_1010_1010_1010_u64]);
    bitvec.insert_bitvec(24, to_insert_3)?;
    assert_bvec_state("4", proto, bitvec.as_raw(), 77, 112, &[0b_1100_1100_1100_1100_1100_1100_1100_1100_1100_1100_1100_1100_1100_1100_1100_1001_u64, 0b_0111_0110_0101_0100_0011_0010_0001_0000_1100_1100_1100_1100_1100_1100_1100_1100_u64, 0b_1111_0110_1111_0110_1111_1100_1100_1111_1111_1110_1101_1100_1011_1010_1001_1000_u64, 0b_1010_1010_1010_1010_1111_0110_1111_0110_1111_0110_1111_0110_1111_0110_1111_0110_u64, 0b_0000_0000_0000_1001_1000_1010_1010_1010_1010_1010_1010_1010_1010_1010_1010_1010_u64]);
    bitvec.insert_bitvec(0, to_insert_1_extra_a)?;
    assert_bvec_state("5", proto, bitvec.as_raw(), 78, 112, &[0b_1100_1100_1100_1100_1100_1100_1100_1100_1100_1100_1100_1100_1100_1100_1001_1111_u64, 0b_0110_0101_0100_0011_0010_0001_0000_1100_1100_1100_1100_1100_1100_1100_1100_1100_u64, 0b_0110_1111_0110_1111_1100_1100_1111_1111_1110_1101_1100_1011_1010_1001_1000_0111_u64, 0b_1010_1010_1010_1111_0110_1111_0110_1111_0110_1111_0110_1111_0110_1111_0110_1111_u64, 0b_0000_0000_1001_1000_1010_1010_1010_1010_1010_1010_1010_1010_1010_1010_1010_1010_u64]);
    assert_error("6", bitvec.insert_bitvec(1000, to_insert_1_extra_c));
    bitvec.insert_bitvec(0, empty_insert)?;
    bitvec = with_len(bitvec, proto.MAX_CAPACITY);
    assert_error("7", bitvec.insert_bitvec(0, to_insert_1_extra_b));
    Ok(())
}

#[test]
fn grow() -> Result<(), BitVecError> {
    let mut bitvec = CProtoBitVec::<4>::new();
    let proto = CProtoBitVec::<4>::proto();
    assert_bvec_state("1", proto, bitvec.as_raw(), 0, 0, &[]);
    bitvec.grow_exact_for_total_elements_if_needed(0)?;
    assert_bvec_state("2", proto, bitvec.as_raw(), 0, 0, &[]);
    bitvec.grow_exact_for_total_elements_if_needed(1)?;
    assert_bvec_state("3", proto, bitvec.as_raw(), 0, 16, &[]);
    bitvec.grow_exact_for_total_elements_if_needed(16)?;
    assert_bvec_state("4", proto, bitvec.as_raw(), 0, 16, &[]);
    bitvec.grow_exact_for_total_elements_if_needed(17)?;
    assert_bvec_state("5", proto, bitvec.as_raw(), 0, 32, &[]);
    bitvec.grow_exact_for_total_elements_if_needed(32)?;
    assert_bvec_state("6", proto, bitvec.as_raw(), 0, 32, &[]);
    bitvec.grow_exact_for_total_elements_if_needed(33)?;
    assert_bvec_state("7", proto, bitvec.as_raw(), 0, 48, &[]);
    bitvec.grow_exact_for_total_elements_if_needed(81)?;
    assert_bvec_state("8", proto, bitvec.as_raw(), 0, 96, &[]);
    bitvec.grow_exact_for_total_elements_if_needed(96)?;
    assert_bvec_state("9", proto, bitvec.as_raw(), 0, 96, &[]);
    bitvec.grow_exact_for_total_elements_if_needed(97)?;
    assert_bvec_state("10", proto, bitvec.as_raw(), 0, 112, &[]);
    bitvec = CProtoBitVec::<4>::new();
    assert_bvec_state("11", proto, bitvec.as_raw(), 0, 0, &[]);
    bitvec.grow_for_total_elements_if_needed(0)?;
    assert_bvec_state("12", proto, bitvec.as_raw(), 0, 0, &[]);
    bitvec.grow_for_total_elements_if_needed(1)?;
    assert_bvec_state("13", proto, bitvec.as_raw(), 0, 16, &[]);
    bitvec.grow_for_total_elements_if_needed(16)?;
    assert_bvec_state("14", proto, bitvec.as_raw(), 0, 16, &[]);
    bitvec.grow_for_total_elements_if_needed(17)?;
    assert_bvec_state("15", proto, bitvec.as_raw(), 0, 48, &[]);
    bitvec.grow_for_total_elements_if_needed(48)?;
    assert_bvec_state("16", proto, bitvec.as_raw(), 0, 48, &[]);
    bitvec.grow_for_total_elements_if_needed(49)?;
    assert_bvec_state("17", proto, bitvec.as_raw(), 0, 96, &[]);
    bitvec.grow_for_total_elements_if_needed(97)?;
    assert_bvec_state("18", proto, bitvec.as_raw(), 0, 160, &[]);
    bitvec.grow_for_total_elements_if_needed(160)?;
    assert_bvec_state("19", proto, bitvec.as_raw(), 0, 160, &[]);
    bitvec.grow_for_total_elements_if_needed(161)?;
    assert_bvec_state("20", proto, bitvec.as_raw(), 0, 256, &[]);
    Ok(())
}
