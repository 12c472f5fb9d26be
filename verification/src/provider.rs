//! Chain access through a node provider.

use vstd::prelude::*;

verus! {

/// Chain client over a provider.
pub struct AlloyClient<P> {
    provider: P,
}

impl<P> AlloyClient<P> {
    /// A client over `provider`.
    pub fn new(provider: P) -> (c: Self)
        ensures
            c.spec_provider() == provider,
    {
        AlloyClient { provider }
    }

    /// The provider the client talks through.
    pub closed spec fn spec_provider(&self) -> P {
        self.provider
    }

    /// The provider the client talks through.
    pub fn provider(&self) -> (p: &P)
        ensures
            *p == self.spec_provider(),
    {
        &self.provider
    }
}

} // verus!
