//! Verified core of a flash-loan-backed liquidation engine.

pub mod abi;
pub mod address;
pub mod builder;
pub mod config;
pub mod discovery;
pub mod flashloan;
pub mod gas;
pub mod health;
pub mod listener;
pub mod mempool;
pub mod multicall;
pub mod nonce;
pub mod oracle;
pub mod provider;
pub mod queue;
pub mod simulation;
pub mod submit;
pub mod token_meta;
pub mod twap;

pub use flashloan::{cheapest, encode_aave_flash, encode_balancer_flash, FlashSource};
pub use queue::{take_batch, BatchConfig, Opportunity, OpportunityQueue};
