//! Chain connection settings of a profile.

use vstd::prelude::*;

verus! {

/// Which chain to connect to, and where.
#[derive(Debug, Clone)]
pub struct ChainConfig {
    pub name: String,
    pub chain_id: u64,
    pub ws_url: String,
    pub http_url: String,
}

} // verus!
