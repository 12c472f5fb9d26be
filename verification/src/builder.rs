//! Transaction building: the liquidator contract's calldata and the EIP-1559
//! transaction request that carries it.

use vstd::prelude::*;
use crate::abi::{
    address_word, arg_word, function_selector, holds_address, lemma_address_word_reads_back,
    push_address_word, push_value_word, selector,
};
use crate::address::{Address, U256};
use crate::gas::Fees;

verus! {

/// Parameters for one liquidation call.
#[derive(Debug, Clone, Copy)]
pub struct LiquidationCall {
    pub protocol: Address,
    pub borrower: Address,
    pub collateral: Address,
    pub debt: Address,
    pub repay_amount: U256,
    pub flash_source: Address,
}

/// Canonical signature of the liquidator contract's entry point.
pub open spec fn liquidation_signature() -> Seq<char> {
    "executeLiquidation(address,address,address,address,uint256,address)"@
}

/// Calldata of `executeLiquidation`: the selector, then one word per argument
/// in declaration order.
pub open spec fn liquidation_calldata(call: LiquidationCall) -> Seq<u8> {
    selector(liquidation_signature()) + address_word(call.protocol) + address_word(call.borrower)
        + address_word(call.collateral) + address_word(call.debt) + call.repay_amount@
        + address_word(call.flash_source)
}

/// Decoding the liquidation calldata gives back the call: after the 4-byte
/// selector, argument word 0 holds the protocol, 1 the borrower, 2 the
/// collateral asset, 3 the debt asset, 4 the full 256-bit repay amount and 5
/// the flash-loan source, each address in the low twenty bytes of its word.
pub proof fn lemma_liquidation_calldata_decodes(call: LiquidationCall)
    requires
        selector(liquidation_signature()).len() == 4,
    ensures
        liquidation_calldata(call).len() == 4 + 6 * 32,
        liquidation_calldata(call).subrange(0, 4) == selector(liquidation_signature()),
        holds_address(arg_word(liquidation_calldata(call), 0), call.protocol),
        holds_address(arg_word(liquidation_calldata(call), 1), call.borrower),
        holds_address(arg_word(liquidation_calldata(call), 2), call.collateral),
        holds_address(arg_word(liquidation_calldata(call), 3), call.debt),
        arg_word(liquidation_calldata(call), 4) == call.repay_amount@,
        holds_address(arg_word(liquidation_calldata(call), 5), call.flash_source),
{
    let d = liquidation_calldata(call);
    assert(d.subrange(0, 4) =~= selector(liquidation_signature()));
    assert(arg_word(d, 0) =~= address_word(call.protocol));
    assert(arg_word(d, 1) =~= address_word(call.borrower));
    assert(arg_word(d, 2) =~= address_word(call.collateral));
    assert(arg_word(d, 3) =~= address_word(call.debt));
    assert(arg_word(d, 4) =~= call.repay_amount@);
    assert(arg_word(d, 5) =~= address_word(call.flash_source));
    lemma_address_word_reads_back(call.protocol);
    lemma_address_word_reads_back(call.borrower);
    lemma_address_word_reads_back(call.collateral);
    lemma_address_word_reads_back(call.debt);
    lemma_address_word_reads_back(call.flash_source);
}

/// ABI-encode the liquidation call into the liquidator's calldata.
pub fn encode_liquidation(call: &LiquidationCall) -> (data: Vec<u8>)
    ensures
        data@ == liquidation_calldata(*call),
        data@.len() == 4 + 6 * 32,
        data@.subrange(0, 4) == selector(liquidation_signature()),
        holds_address(arg_word(data@, 0), call.protocol),
        holds_address(arg_word(data@, 1), call.borrower),
        holds_address(arg_word(data@, 2), call.collateral),
        holds_address(arg_word(data@, 3), call.debt),
        arg_word(data@, 4) == call.repay_amount@,
        holds_address(arg_word(data@, 5), call.flash_source),
{
    let mut data = function_selector(
        "executeLiquidation(address,address,address,address,uint256,address)",
    );
    push_address_word(&mut data, &call.protocol);
    push_address_word(&mut data, &call.borrower);
    push_address_word(&mut data, &call.collateral);
    push_address_word(&mut data, &call.debt);
    push_value_word(&mut data, &call.repay_amount);
    push_address_word(&mut data, &call.flash_source);
    proof {
        lemma_liquidation_calldata_decodes(*call);
    }
    data
}

/// An EIP-1559 transaction request to a contract, ready to simulate and sign.
#[derive(Debug, Clone)]
pub struct TxRequest {
    pub from: Address,
    pub to: Address,
    pub input: Vec<u8>,
    pub nonce: u64,
    pub max_fee_per_gas: u128,
    pub max_priority_fee_per_gas: u128,
    pub gas: u64,
}

/// Assemble the EIP-1559 transaction request to the liquidator contract.
pub fn build_tx(
    liquidator: Address,
    from: Address,
    calldata: Vec<u8>,
    nonce: u64,
    fees: Fees,
    gas_limit: u64,
) -> (tx: TxRequest)
    ensures
        tx.from == from,
        tx.to == liquidator,
        tx.input@ == calldata@,
        tx.nonce == nonce,
        tx.max_fee_per_gas == fees.max_fee_per_gas_wei,
        tx.max_priority_fee_per_gas == fees.max_priority_fee_per_gas_wei,
        tx.gas == gas_limit,
{
    TxRequest {
        from,
        to: liquidator,
        input: calldata,
        nonce,
        max_fee_per_gas: fees.max_fee_per_gas_wei,
        max_priority_fee_per_gas: fees.max_priority_fee_per_gas_wei,
        gas: gas_limit,
    }
}

} // verus!
