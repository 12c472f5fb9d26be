use undertow::address::Address;
use undertow::multicall::{call3, chunk_calls, MULTICALL3};

#[test]
fn chunks_into_batches() {
    let calls: Vec<u32> = (0..5).collect();
    let batches = chunk_calls(calls, 2);
    assert_eq!(batches, vec![vec![0, 1], vec![2, 3], vec![4]]);
}

#[test]
fn empty_is_no_batches() {
    let batches: Vec<Vec<u32>> = chunk_calls(Vec::new(), 3);
    assert!(batches.is_empty());
}

#[test]
fn zero_size_is_single_batch() {
    assert_eq!(chunk_calls(vec![1, 2, 3], 0), vec![vec![1, 2, 3]]);
}

#[test]
fn exact_multiple_has_full_batches() {
    assert_eq!(chunk_calls(vec![1, 2, 3, 4], 2), vec![vec![1, 2], vec![3, 4]]);
    assert_eq!(chunk_calls(vec![1, 2], 5), vec![vec![1, 2]]);
}

#[test]
fn multicall3_address_is_canonical() {
    assert_eq!(
        Address::new(MULTICALL3).to_hex().to_lowercase(),
        "0xca11bde05977b3631167028862be2a173976ca11"
    );
}

#[test]
fn call3_allows_failure() {
    let c = call3(Address::with_last_byte(3), vec![1, 2, 3]);
    assert_eq!(c.target, Address::with_last_byte(3));
    assert!(c.allow_failure);
    assert_eq!(c.call_data, vec![1, 2, 3]);
}

#[test]
fn hex_rendering_matches_alloy() {
    let a = Address::with_last_byte(0xAB);
    let reference = format!("{:?}", alloy_primitives::Address::from(a.bytes));
    assert_eq!(a.to_hex(), reference.to_lowercase());
    assert_eq!(a.to_hex(), "0x00000000000000000000000000000000000000ab");
}
