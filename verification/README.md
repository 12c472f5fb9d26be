# undertow

The decision-making core of a flash-loan-backed liquidation bot, written in
Verus and proved against its contracts.

## Layout

- `src/` — the verified library (`undertow`):
  - `queue` — the max-profit opportunity queue and the per-cycle batcher;
  - `health` — health tiers, tier counts and the liquidatable filter;
  - `address`, `abi`, `builder`, `flashloan`, `multicall` — addresses and
    256-bit words, contract-call encoding (selectors, static and dynamic
    arguments), the liquidator and flash-loan calldata, transaction requests
    and Multicall3 batching;
  - `discovery` — block-range chunk planning and the sorted borrower set;
  - `listener`, `nonce`, `oracle`, `submit`, `token_meta`, `twap`, `gas` —
    head tracking, nonce allocation, price freshness, relay endpoint checks,
    the token-metadata cache, TWAP tick arithmetic and EIP-1559 fee pairs.
- `app/` — ordinary Rust around the library: TOML configuration, USD
  valuation and health factors (floating point), the async node, oracle and
  protocol clients, and conversions to and from alloy's types.
- `tests/` — executable tests of the library, including cross-checks of the
  calldata encoders against `alloy-sol-types`.
