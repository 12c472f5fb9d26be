use alloy_sol_types::SolValue;
use undertow::address::{Address, U256};
use undertow::builder::{build_tx, encode_liquidation, LiquidationCall};
use undertow::flashloan::{cheapest, encode_aave_flash, encode_balancer_flash, FlashSource};
use undertow::gas::Fees;
use undertow::nonce::NonceManager;
use undertow::submit::validate_private_endpoint;

fn alloy_addr(a: &Address) -> alloy_primitives::Address {
    alloy_primitives::Address::from(a.bytes)
}

fn alloy_u256(v: &U256) -> alloy_primitives::U256 {
    alloy_primitives::U256::from_be_bytes(v.be_bytes)
}

fn selector_of(signature: &str) -> Vec<u8> {
    alloy_primitives::keccak256(signature.as_bytes())[0..4].to_vec()
}

fn sample_call() -> LiquidationCall {
    LiquidationCall {
        protocol: Address::with_last_byte(1),
        borrower: Address::with_last_byte(2),
        collateral: Address::with_last_byte(3),
        debt: Address::with_last_byte(4),
        repay_amount: U256::from_u64(1000),
        flash_source: Address::with_last_byte(5),
    }
}

#[test]
fn premiums() {
    assert_eq!(FlashSource::Balancer.premium_bps(), 0);
    assert_eq!(FlashSource::AaveV3.premium_bps(), 5);
    assert_eq!(FlashSource::UniswapV3.premium_bps(), 30);
}

#[test]
fn source_names() {
    assert_eq!(FlashSource::Balancer.name(), "balancer");
    assert_eq!(FlashSource::AaveV3.name(), "aave-v3");
    assert_eq!(FlashSource::UniswapV3.name(), "uniswap-v3");
}

#[test]
fn router_picks_cheapest() {
    let avail = [FlashSource::UniswapV3, FlashSource::AaveV3, FlashSource::Balancer];
    assert_eq!(cheapest(&avail), Some(FlashSource::Balancer));
    assert_eq!(
        cheapest(&[FlashSource::UniswapV3, FlashSource::AaveV3]),
        Some(FlashSource::AaveV3)
    );
    assert_eq!(cheapest(&[]), None);
}

#[test]
fn calldata_has_selector_and_args() {
    let data = encode_liquidation(&sample_call());
    // 4-byte selector + 6 ABI words
    assert_eq!(data.len(), 4 + 6 * 32);
    assert_eq!(
        &data[0..4],
        selector_of("executeLiquidation(address,address,address,address,uint256,address)").as_slice()
    );
}

#[test]
fn liquidation_calldata_matches_abi_encoder() {
    let call = sample_call();
    let data = encode_liquidation(&call);
    let args = (
        alloy_addr(&call.protocol),
        alloy_addr(&call.borrower),
        alloy_addr(&call.collateral),
        alloy_addr(&call.debt),
        alloy_u256(&call.repay_amount),
        alloy_addr(&call.flash_source),
    )
        .abi_encode_params();
    assert_eq!(&data[4..], args.as_slice());
    assert_eq!(data[4 + 4 * 32 + 31], 0xe8); // 1000 = 0x03e8, big-endian
    assert_eq!(data[4 + 4 * 32 + 30], 0x03);
}

#[test]
fn builds_request_fields() {
    let liquidator = Address::with_last_byte(0xAA);
    let from = Address::with_last_byte(0xBB);
    let fees = Fees {
        max_fee_per_gas_wei: 11_000_000_000,
        max_priority_fee_per_gas_wei: 1_000_000_000,
    };
    let data = encode_liquidation(&sample_call());
    let tx = build_tx(liquidator, from, data.clone(), 7, fees, 500_000);

    assert_eq!(tx.to, liquidator);
    assert_eq!(tx.from, from);
    assert_eq!(tx.nonce, 7);
    assert_eq!(tx.max_fee_per_gas, 11_000_000_000);
    assert_eq!(tx.max_priority_fee_per_gas, 1_000_000_000);
    assert_eq!(tx.gas, 500_000);
    assert_eq!(tx.input, data);
}

#[test]
fn encoders_emit_correct_selectors() {
    let aave = encode_aave_flash(Address::zero(), Address::zero(), U256::from_u64(1), Vec::new());
    assert_eq!(
        &aave[0..4],
        selector_of("flashLoanSimple(address,address,uint256,bytes,uint16)").as_slice()
    );

    let bal = encode_balancer_flash(
        Address::zero(),
        vec![Address::zero()],
        vec![U256::from_u64(1)],
        Vec::new(),
    );
    assert_eq!(
        &bal[0..4],
        selector_of("flashLoan(address,address[],uint256[],bytes)").as_slice()
    );
}

#[test]
fn aave_flash_calldata_matches_abi_encoder() {
    let receiver = Address::with_last_byte(7);
    let asset = Address::with_last_byte(8);
    let amount = U256::from_u64(123_456_789);
    let params: Vec<u8> = (0u8..37).collect();
    let data = encode_aave_flash(receiver, asset, amount, params.clone());
    let expected = (
        alloy_addr(&receiver),
        alloy_addr(&asset),
        alloy_u256(&amount),
        alloy_primitives::Bytes::from(params),
        0u16,
    )
        .abi_encode_params();
    assert_eq!(&data[4..], expected.as_slice());
}

#[test]
fn balancer_flash_calldata_matches_abi_encoder() {
    let recipient = Address::with_last_byte(9);
    let tokens = vec![Address::with_last_byte(1), Address::with_last_byte(2)];
    let amounts = vec![U256::from_u64(5), U256::from_u64(6), U256::from_u64(u64::MAX)];
    let user_data: Vec<u8> = vec![0xde, 0xad, 0xbe, 0xef];
    let data = encode_balancer_flash(recipient, tokens.clone(), amounts.clone(), user_data.clone());
    let expected = (
        alloy_addr(&recipient),
        tokens.iter().map(alloy_addr).collect::<Vec<_>>(),
        amounts.iter().map(alloy_u256).collect::<Vec<_>>(),
        alloy_primitives::Bytes::from(user_data),
    )
        .abi_encode_params();
    assert_eq!(&data[4..], expected.as_slice());
}

#[test]
fn empty_dynamic_arguments_encode_as_zero_length() {
    let data = encode_balancer_flash(Address::zero(), Vec::new(), Vec::new(), Vec::new());
    let expected = (
        alloy_primitives::Address::ZERO,
        Vec::<alloy_primitives::Address>::new(),
        Vec::<alloy_primitives::U256>::new(),
        alloy_primitives::Bytes::new(),
    )
        .abi_encode_params();
    assert_eq!(&data[4..], expected.as_slice());
    assert_eq!(data.len(), 4 + 7 * 32);
}

#[test]
fn eip1559_fees_add_tip_and_saturate() {
    let fees = Fees::eip1559(10_000_000_000, 1_000_000_000);
    assert_eq!(fees.max_fee_per_gas_wei, 11_000_000_000);
    assert_eq!(fees.max_priority_fee_per_gas_wei, 1_000_000_000);
    let capped = Fees::eip1559(u128::MAX - 1, 5);
    assert_eq!(capped.max_fee_per_gas_wei, u128::MAX);
    assert_eq!(capped.max_priority_fee_per_gas_wei, 5);
}

#[test]
fn allocate_advances() {
    let mut m = NonceManager::new(5);
    assert_eq!(m.allocate(), 5);
    assert_eq!(m.allocate(), 6);
    assert_eq!(m.peek(), 7);
}

#[test]
fn sync_is_forward_only() {
    let mut m = NonceManager::new(10);
    m.sync(8); // stale read -> ignored
    assert_eq!(m.peek(), 10);
    m.sync(12); // ahead -> jump forward
    assert_eq!(m.peek(), 12);
}

#[test]
fn allocation_wraps_at_top_of_range() {
    let mut m = NonceManager::new(u64::MAX);
    assert_eq!(m.allocate(), u64::MAX);
    assert_eq!(m.peek(), 0);
}

#[test]
fn accepts_encrypted_endpoints() {
    assert!(validate_private_endpoint("https://relay.example/?auth=k").is_ok());
    assert!(validate_private_endpoint("wss://relay.example").is_ok());
}

#[test]
fn rejects_plaintext_endpoints() {
    assert!(validate_private_endpoint("http://relay.example").is_err());
    assert!(validate_private_endpoint("relay.example").is_err());
}

#[test]
fn rejection_names_the_endpoint() {
    let err = validate_private_endpoint("ws://relay").unwrap_err();
    assert_eq!(err.url, "ws://relay");
    assert_eq!(
        err.message(),
        "private RPC must be https:// or wss://, got: ws://relay"
    );
    assert!(validate_private_endpoint("https:/").is_err());
    assert!(validate_private_endpoint("").is_err());
}

#[test]
fn u256_words_are_big_endian() {
    for v in [0u64, 1, 1000, 0x0102_0304_0506_0708, u64::MAX] {
        assert_eq!(
            U256::from_u64(v).be_bytes,
            alloy_primitives::U256::from(v).to_be_bytes::<32>()
        );
    }
}

#[test]
fn flash_calldata_lengths() {
    let params: Vec<u8> = vec![1, 2, 3, 4, 5];
    let aave = encode_aave_flash(Address::zero(), Address::zero(), U256::from_u64(1), params);
    assert_eq!(aave.len(), 196 + 5 + 27);
    assert_eq!(&aave[..4], selector_of("flashLoanSimple(address,address,uint256,bytes,uint16)").as_slice());
    let bal = encode_balancer_flash(
        Address::zero(),
        vec![Address::with_last_byte(1)],
        vec![U256::from_u64(2)],
        vec![7, 8, 9],
    );
    assert_eq!(bal.len(), 228 + 32 + 32 + 3 + 29);
    assert_eq!(&bal[..4], selector_of("flashLoan(address,address[],uint256[],bytes)").as_slice());
}

#[test]
fn interleaved_calls_never_repeat_a_nonce() {
    let mut m = NonceManager::new(3);
    let mut handed = Vec::new();
    handed.push(m.allocate());
    m.sync(2);
    handed.push(m.allocate());
    m.sync(9);
    handed.push(m.allocate());
    handed.push(m.allocate());
    m.sync(4);
    handed.push(m.allocate());
    assert_eq!(handed, vec![3, 4, 9, 10, 11]);
    assert!(handed.windows(2).all(|w| w[0] < w[1]));
    assert_eq!(m.peek(), 12);
}
