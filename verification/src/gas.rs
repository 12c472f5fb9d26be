//! EIP-1559 fee pair carried by a transaction.

use vstd::prelude::*;

verus! {

/// The `maxFeePerGas` / `maxPriorityFeePerGas` pair of a transaction, in wei.
#[derive(Debug, Clone, Copy, PartialEq, Eq, Structural)]
pub struct Fees {
    pub max_fee_per_gas_wei: u128,
    pub max_priority_fee_per_gas_wei: u128,
}

impl Fees {
    /// The fee pair for a headroom-bumped base fee and a priority tip:
    /// `maxFee = bumped base + tip`, saturating at the top of the `u128`
    /// range, and `maxPriority = tip`.
    pub fn eip1559(bumped_base_fee_wei: u128, priority_fee_wei: u128) -> (fees: Self)
        ensures
            fees.max_fee_per_gas_wei == if bumped_base_fee_wei + priority_fee_wei > u128::MAX {
                u128::MAX as int
            } else {
                bumped_base_fee_wei + priority_fee_wei
            },
            fees.max_priority_fee_per_gas_wei == priority_fee_wei,
    {
        Fees {
            max_fee_per_gas_wei: bumped_base_fee_wei.saturating_add(priority_fee_wei),
            max_priority_fee_per_gas_wei: priority_fee_wei,
        }
    }
}

} // verus!
