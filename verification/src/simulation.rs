//! Simulation gate: the `eth_call` dry-run simulator.

use vstd::prelude::*;

verus! {

/// Simulator that dry-runs transactions with `eth_call` through a provider.
pub struct EthCallSimulator<P> {
    provider: P,
}

impl<P> EthCallSimulator<P> {
    /// A simulator over `provider`.
    pub fn new(provider: P) -> (s: Self)
        ensures
            s.spec_provider() == provider,
    {
        EthCallSimulator { provider }
    }

    /// The provider the simulator calls through.
    pub closed spec fn spec_provider(&self) -> P {
        self.provider
    }

    /// The provider the simulator calls through.
    pub fn provider(&self) -> (p: &P)
        ensures
            *p == self.spec_provider(),
    {
        &self.provider
    }
}

} // verus!
